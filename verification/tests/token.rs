use omega_lexer::token::{KeywordBookkeep, PunctuationBookkeep};

#[test]
fn ensure_standard_punc_into_iter() {
    let puncs = PunctuationBookkeep.into_iter();
    let standards = [
        ":", ",", "!=", "&", "*", "/", "%", "<=", "<", ">=", ">", "==", "|", "=", "+", "-",
        "[", "]", "{", "}", "(", ")",
    ];
    standards.iter().for_each(|s| {
        assert!(
            puncs.contains(s),
            "PunctuationBookkeep.into_iter does not contain standard \"{}\"",
            s
        )
    });
}

#[test]
fn ensure_std_keyword_into_iter() {
    let standards = [
        "and", "bool", "call", "else", "false", "func", "if", "int", "length", "not", "or",
        "print", "return", "true", "var", "while",
    ];
    let kw = KeywordBookkeep.into_iter();
    standards.iter().for_each(|s| {
        assert!(
            kw.contains(s),
            "KeywordBookkeep.into_iter does not contain standard \"{}\"",
            s
        )
    });
}

#[test]
fn punc_table_has_all_twenty_six_entries() {
    let puncs = PunctuationBookkeep.into_iter();
    assert_eq!(puncs.len(), 26);
    let two_char = ["<=", ">=", "==", "!=", "<<", ">>"];
    for s in two_char.iter() {
        assert!(puncs.contains(s));
    }
    assert!(puncs.contains(&"~"));
}

#[test]
fn keyword_table_has_all_seventeen_entries() {
    let kw = KeywordBookkeep.into_iter();
    assert_eq!(kw.len(), 17);
    assert!(kw.contains(&"string"));
}

#[test]
fn contains_is_exact_membership() {
    assert!(PunctuationBookkeep.contains("<="));
    assert!(PunctuationBookkeep.contains("~"));
    assert!(!PunctuationBookkeep.contains("!"));
    assert!(!PunctuationBookkeep.contains("<<="));
    assert!(!PunctuationBookkeep.contains(""));
    assert!(KeywordBookkeep.contains("if"));
    assert!(KeywordBookkeep.contains("length"));
    assert!(!KeywordBookkeep.contains("iff"));
    assert!(!KeywordBookkeep.contains("If"));
    assert!(!KeywordBookkeep.contains(""));
}

#[test]
fn match_first_char_filters_by_leading_character() {
    let lt = PunctuationBookkeep.match_first_char('<');
    assert!(lt.contains(&"<"));
    assert!(lt.contains(&"<="));
    assert!(lt.contains(&"<<"));
    assert_eq!(lt.len(), 3);

    let bang = PunctuationBookkeep.match_first_char('!');
    assert_eq!(bang, vec!["!="]);

    let none = PunctuationBookkeep.match_first_char('q');
    assert!(none.is_empty());

    let kw_i = KeywordBookkeep.match_first_char('i');
    assert!(kw_i.contains(&"if"));
    assert!(kw_i.contains(&"int"));
    assert_eq!(kw_i.len(), 2);
}
