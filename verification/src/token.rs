//! Tokens of the Omega language: coordinates, token kinds, and the
//! vocabulary tables of punctuation symbols and keywords.

use vstd::prelude::*;

verus! {

/// Position of the first character of a lexeme, 1-indexed in both axes.
#[derive(Debug, PartialEq, Eq, PartialOrd, Ord, Clone, Copy)]
pub struct Coord {
    pub line: usize,
    pub col: usize,
}

/// Mathematical model of a coordinate.
pub struct CoordM {
    pub line: int,
    pub col: int,
}

impl View for Coord {
    type V = CoordM;

    open spec fn view(&self) -> CoordM {
        CoordM { line: self.line as int, col: self.col as int }
    }
}

/// Classification of a token; exactly one tag per token.
#[derive(Debug, PartialEq, Eq, PartialOrd, Ord, Clone, Copy)]
pub enum TokenType {
    Punctuation,
    Keyword,
    Id,
    IntLiteral,
    StringLiteral,
}

/// One token: its kind, the exact substring matched (for string literals the
/// delimiting quotes are excluded), and the coordinate of the lexeme's first
/// character.
#[derive(Debug, PartialEq, Eq, PartialOrd, Ord)]
pub struct Token {
    pub kind: TokenType,
    pub lexeme: String,
    pub coord: Coord,
}

/// Mathematical model of a token.
pub struct TokenM {
    pub kind: TokenType,
    pub lexeme: Seq<char>,
    pub coord: CoordM,
}

impl View for Token {
    type V = TokenM;

    open spec fn view(&self) -> TokenM {
        TokenM { kind: self.kind, lexeme: self.lexeme@, coord: self.coord@ }
    }
}

/// The 26 reserved punctuation symbols, in table order.
pub open spec fn punct_entries() -> Seq<Seq<char>> {
    seq![
        ":"@, ","@, "&"@, "["@, "]"@, "{"@, "}"@, "("@, ")"@,
        "*"@, "/"@, "%"@, "+"@, "-"@, "="@,
        "|"@, "&"@,
        "<="@, "<"@, ">"@, ">="@, "=="@, "!="@,
        "<<"@, ">>"@, "~"@,
    ]
}

/// The 17 reserved keyword spellings, in table order.
pub open spec fn keyword_entries() -> Seq<Seq<char>> {
    seq![
        "and"@, "or"@, "not"@,
        "true"@, "false"@,
        "length"@, "call"@, "print"@, "return"@,
        "var"@, "func"@,
        "while"@, "if"@, "else"@,
        "bool"@, "int"@,
        "string"@,
    ]
}

/// A lexeme is classified `Keyword` exactly when the keyword table holds it.
pub open spec fn is_keyword(s: Seq<char>) -> bool {
    keyword_entries().contains(s)
}

/// ASCII whitespace, the separators between Omega lexemes.
pub open spec fn is_ws_char(c: char) -> bool {
    c == ' ' || c == '\t' || c == '\n' || c == '\x0c' || c == '\r'
}

/// ASCII decimal digit.
pub open spec fn is_digit_char(c: char) -> bool {
    48 <= c as u32 && c as u32 <= 57
}

/// ASCII letter.
pub open spec fn is_letter_char(c: char) -> bool {
    (65 <= c as u32 && c as u32 <= 90) || (97 <= c as u32 && c as u32 <= 122)
}

/// A character that may open an identifier.
pub open spec fn is_id_start_char(c: char) -> bool {
    is_letter_char(c) || c == '_'
}

/// A character that may continue an identifier.
pub open spec fn is_id_cont_char(c: char) -> bool {
    is_letter_char(c) || is_digit_char(c) || c == '_'
}

/// A character that may continue an integer literal.
pub open spec fn is_int_cont_char(c: char) -> bool {
    is_digit_char(c) || c == '_'
}

/// A character that alone forms a punctuation symbol.
pub open spec fn is_single_punct_char(c: char) -> bool {
    c == ':' || c == ',' || c == '&' || c == '[' || c == ']' || c == '{' || c == '}'
        || c == '(' || c == ')' || c == '*' || c == '/' || c == '%' || c == '+' || c == '-'
        || c == '=' || c == '|' || c == '<' || c == '>' || c == '~'
}

/// The two characters form a two-character punctuation symbol.
pub open spec fn is_pair_punct(a: char, b: char) -> bool {
    (a == '<' && b == '=') || (a == '>' && b == '=') || (a == '=' && b == '=')
        || (a == '!' && b == '=') || (a == '<' && b == '<') || (a == '>' && b == '>')
}

/// A character that opens some two-character punctuation symbol.
pub open spec fn starts_pair_punct(c: char) -> bool {
    c == '<' || c == '>' || c == '=' || c == '!'
}

/// A character that opens at least one punctuation symbol.
pub open spec fn starts_punct(c: char) -> bool {
    is_single_punct_char(c) || starts_pair_punct(c)
}

pub fn is_ws_exec(c: char) -> (r: bool)
    ensures
        r == is_ws_char(c),
{
    c == ' ' || c == '\t' || c == '\n' || c == '\x0c' || c == '\r'
}

pub fn is_digit_exec(c: char) -> (r: bool)
    ensures
        r == is_digit_char(c),
{
    let u = c as u32;
    48 <= u && u <= 57
}

pub fn is_letter_exec(c: char) -> (r: bool)
    ensures
        r == is_letter_char(c),
{
    let u = c as u32;
    (65 <= u && u <= 90) || (97 <= u && u <= 122)
}

pub fn is_id_start_exec(c: char) -> (r: bool)
    ensures
        r == is_id_start_char(c),
{
    is_letter_exec(c) || c == '_'
}

pub fn is_id_cont_exec(c: char) -> (r: bool)
    ensures
        r == is_id_cont_char(c),
{
    is_letter_exec(c) || is_digit_exec(c) || c == '_'
}

pub fn is_int_cont_exec(c: char) -> (r: bool)
    ensures
        r == is_int_cont_char(c),
{
    is_digit_exec(c) || c == '_'
}

pub fn is_single_punct_exec(c: char) -> (r: bool)
    ensures
        r == is_single_punct_char(c),
{
    c == ':' || c == ',' || c == '&' || c == '[' || c == ']' || c == '{' || c == '}'
        || c == '(' || c == ')' || c == '*' || c == '/' || c == '%' || c == '+' || c == '-'
        || c == '=' || c == '|' || c == '<' || c == '>' || c == '~'
}

pub fn is_pair_punct_exec(a: char, b: char) -> (r: bool)
    ensures
        r == is_pair_punct(a, b),
{
    (a == '<' && b == '=') || (a == '>' && b == '=') || (a == '=' && b == '=')
        || (a == '!' && b == '=') || (a == '<' && b == '<') || (a == '>' && b == '>')
}

pub fn starts_pair_punct_exec(c: char) -> (r: bool)
    ensures
        r == starts_pair_punct(c),
{
    c == '<' || c == '>' || c == '=' || c == '!'
}

pub fn starts_punct_exec(c: char) -> (r: bool)
    ensures
        r == starts_punct(c),
{
    is_single_punct_exec(c) || starts_pair_punct_exec(c)
}

/// Character-by-character string equality.
fn str_eq(a: &str, b: &str) -> (r: bool)
    ensures
        r == (a@ == b@),
{
    let na = a.unicode_len();
    let nb = b.unicode_len();
    if na != nb {
        return false;
    }
    let mut i: usize = 0;
    while i < na
        invariant
            i <= na,
            na == a@.len(),
            na == b@.len(),
            forall|k: int| 0 <= k < i ==> a@[k] == b@[k],
        decreases na - i,
    {
        if a.get_char(i) != b.get_char(i) {
            return false;
        }
        i += 1;
    }
    proof {
        assert(a@ =~= b@);
    }
    true
}

/// Vocabulary table of the punctuation symbols.
pub struct PunctuationBookkeep;

/// Vocabulary table of the keywords.
pub struct KeywordBookkeep;

impl PunctuationBookkeep {
    /// The table's entries, in table order.
    pub fn into_iter(self) -> (entries: Vec<&'static str>)
        ensures
            entries@.len() == punct_entries().len(),
            forall|i: int|
                0 <= i < entries@.len() ==> (#[trigger] entries@[i])@ == punct_entries()[i],
    {
        let entries: Vec<&'static str> = vec![
            ":", ",", "&", "[", "]", "{", "}", "(", ")",
            "*", "/", "%", "+", "-", "=",
            "|", "&",
            "<=", "<", ">", ">=", "==", "!=",
            "<<", ">>", "~",
        ];
        entries
    }

    /// True iff `s` exactly equals one table entry.
    pub fn contains(self, s: &str) -> (r: bool)
        ensures
            r == punct_entries().contains(s@),
    {
        table_contains(&self.into_iter(), Ghost(punct_entries()), s)
    }

    /// All table entries whose first character is `c`; empty if none.
    pub fn match_first_char(self, c: char) -> (matched: Vec<&'static str>)
        ensures
            forall|j: int|
                0 <= j < matched@.len() ==> {
                    &&& (#[trigger] matched@[j])@.len() > 0
                    &&& matched@[j]@[0] == c
                    &&& punct_entries().contains(matched@[j]@)
                },
            forall|e: Seq<char>|
                punct_entries().contains(e) && e.len() > 0 && e[0] == c ==> exists|j: int|
                    0 <= j < matched@.len() && (#[trigger] matched@[j])@ == e,
    {
        table_match_first_char(&self.into_iter(), Ghost(punct_entries()), c)
    }
}

impl KeywordBookkeep {
    /// The table's entries, in table order.
    pub fn into_iter(self) -> (entries: Vec<&'static str>)
        ensures
            entries@.len() == keyword_entries().len(),
            forall|i: int|
                0 <= i < entries@.len() ==> (#[trigger] entries@[i])@ == keyword_entries()[i],
    {
        let entries: Vec<&'static str> = vec![
            "and", "or", "not",
            "true", "false",
            "length", "call", "print", "return",
            "var", "func",
            "while", "if", "else",
            "bool", "int",
            "string",
        ];
        entries
    }

    /// True iff `s` exactly equals one table entry.
    pub fn contains(self, s: &str) -> (r: bool)
        ensures
            r == is_keyword(s@),
    {
        table_contains(&self.into_iter(), Ghost(keyword_entries()), s)
    }

    /// All table entries whose first character is `c`; empty if none.
    pub fn match_first_char(self, c: char) -> (matched: Vec<&'static str>)
        ensures
            forall|j: int|
                0 <= j < matched@.len() ==> {
                    &&& (#[trigger] matched@[j])@.len() > 0
                    &&& matched@[j]@[0] == c
                    &&& keyword_entries().contains(matched@[j]@)
                },
            forall|e: Seq<char>|
                keyword_entries().contains(e) && e.len() > 0 && e[0] == c ==> exists|j: int|
                    0 <= j < matched@.len() && (#[trigger] matched@[j])@ == e,
    {
        table_match_first_char(&self.into_iter(), Ghost(keyword_entries()), c)
    }
}

/// Membership test shared by the two vocabulary tables.
fn table_contains(table: &Vec<&'static str>, Ghost(model): Ghost<Seq<Seq<char>>>, s: &str) -> (r: bool)
    requires
        table@.len() == model.len(),
        forall|i: int| 0 <= i < table@.len() ==> (#[trigger] table@[i])@ == model[i],
    ensures
        r == model.contains(s@),
{
    let n = table.len();
    let mut i: usize = 0;
    while i < n
        invariant
            i <= n,
            n == table@.len(),
            table@.len() == model.len(),
            forall|k: int| 0 <= k < table@.len() ==> (#[trigger] table@[k])@ == model[k],
            forall|k: int| 0 <= k < i ==> model[k] != s@,
        decreases n - i,
    {
        if str_eq(table[i], s) {
            assert(model[i as int] == s@);
            return true;
        }
        i += 1;
    }
    assert(forall|k: int| 0 <= k < model.len() ==> model[k] != s@);
    false
}

/// First-character filter shared by the two vocabulary tables.
fn table_match_first_char(
    table: &Vec<&'static str>,
    Ghost(model): Ghost<Seq<Seq<char>>>,
    c: char,
) -> (matched: Vec<&'static str>)
    requires
        table@.len() == model.len(),
        forall|i: int| 0 <= i < table@.len() ==> (#[trigger] table@[i])@ == model[i],
    ensures
        forall|j: int|
            0 <= j < matched@.len() ==> {
                &&& (#[trigger] matched@[j])@.len() > 0
                &&& matched@[j]@[0] == c
                &&& model.contains(matched@[j]@)
            },
        forall|e: Seq<char>|
            model.contains(e) && e.len() > 0 && e[0] == c ==> exists|j: int|
                0 <= j < matched@.len() && (#[trigger] matched@[j])@ == e,
{
    let n = table.len();
    let mut matched: Vec<&'static str> = Vec::new();
    let mut i: usize = 0;
    while i < n
        invariant
            i <= n,
            n == table@.len(),
            table@.len() == model.len(),
            forall|k: int| 0 <= k < table@.len() ==> (#[trigger] table@[k])@ == model[k],
            forall|j: int|
                0 <= j < matched@.len() ==> {
                    &&& (#[trigger] matched@[j])@.len() > 0
                    &&& matched@[j]@[0] == c
                    &&& model.contains(matched@[j]@)
                },
            forall|k: int|
                0 <= k < i && (#[trigger] model[k]).len() > 0 && model[k][0] == c ==> exists|j: int|
                    0 <= j < matched@.len() && (#[trigger] matched@[j])@ == model[k],
        decreases n - i,
    {
        let entry = table[i];
        if entry.unicode_len() > 0 {
            if entry.get_char(0) == c {
                let ghost prev = matched@;
                matched.push(entry);
                proof {
                    assert(matched@[matched@.len() - 1]@ == model[i as int]);
                    assert forall|k: int|
                        0 <= k <= i && (#[trigger] model[k]).len() > 0 && model[k][0]
                            == c implies exists|j: int|
                        0 <= j < matched@.len() && (#[trigger] matched@[j])@ == model[k] by {
                        if k < i {
                            let j = choose|j: int|
                                0 <= j < prev.len() && (#[trigger] prev[j])@ == model[k];
                            assert(matched@[j]@ == model[k]);
                        } else {
                            assert(matched@[matched@.len() - 1]@ == model[k]);
                        }
                    }
                }
            }
        }
        i += 1;
    }
    matched
}


/// The scanner's character classification agrees with the punctuation
/// table: a character alone is a symbol exactly when the table holds that
/// one-character entry, and a character pair is a symbol exactly when the
/// table holds that two-character entry.
pub proof fn lemma_punct_vocabulary()
    ensures
        forall|c: char| #[trigger] is_single_punct_char(c) <==> punct_entries().contains(seq![c]),
        forall|a: char, b: char|
            #[trigger] is_pair_punct(a, b) <==> punct_entries().contains(seq![a, b]),
{
    reveal_strlit(":");
    reveal_strlit(",");
    reveal_strlit("&");
    reveal_strlit("[");
    reveal_strlit("]");
    reveal_strlit("{");
    reveal_strlit("}");
    reveal_strlit("(");
    reveal_strlit(")");
    reveal_strlit("*");
    reveal_strlit("/");
    reveal_strlit("%");
    reveal_strlit("+");
    reveal_strlit("-");
    reveal_strlit("=");
    reveal_strlit("|");
    reveal_strlit("<=");
    reveal_strlit("<");
    reveal_strlit(">");
    reveal_strlit(">=");
    reveal_strlit("==");
    reveal_strlit("!=");
    reveal_strlit("<<");
    reveal_strlit(">>");
    reveal_strlit("~");
    let entries = punct_entries();
    assert(entries[0] =~= seq![':']);
    assert(entries[1] =~= seq![',']);
    assert(entries[2] =~= seq!['&']);
    assert(entries[3] =~= seq!['[']);
    assert(entries[4] =~= seq![']']);
    assert(entries[5] =~= seq!['{']);
    assert(entries[6] =~= seq!['}']);
    assert(entries[7] =~= seq!['(']);
    assert(entries[8] =~= seq![')']);
    assert(entries[9] =~= seq!['*']);
    assert(entries[10] =~= seq!['/']);
    assert(entries[11] =~= seq!['%']);
    assert(entries[12] =~= seq!['+']);
    assert(entries[13] =~= seq!['-']);
    assert(entries[14] =~= seq!['=']);
    assert(entries[15] =~= seq!['|']);
    assert(entries[16] =~= seq!['&']);
    assert(entries[17] =~= seq!['<', '=']);
    assert(entries[18] =~= seq!['<']);
    assert(entries[19] =~= seq!['>']);
    assert(entries[20] =~= seq!['>', '=']);
    assert(entries[21] =~= seq!['=', '=']);
    assert(entries[22] =~= seq!['!', '=']);
    assert(entries[23] =~= seq!['<', '<']);
    assert(entries[24] =~= seq!['>', '>']);
    assert(entries[25] =~= seq!['~']);
    assert forall|c: char| is_single_punct_char(c) implies entries.contains(seq![c]) by {
        if c == ':' {
            assert(entries[0] == seq![c]);
        } else if c == ',' {
            assert(entries[1] == seq![c]);
        } else if c == '&' {
            assert(entries[2] == seq![c]);
        } else if c == '[' {
            assert(entries[3] == seq![c]);
        } else if c == ']' {
            assert(entries[4] == seq![c]);
        } else if c == '{' {
            assert(entries[5] == seq![c]);
        } else if c == '}' {
            assert(entries[6] == seq![c]);
        } else if c == '(' {
            assert(entries[7] == seq![c]);
        } else if c == ')' {
            assert(entries[8] == seq![c]);
        } else if c == '*' {
            assert(entries[9] == seq![c]);
        } else if c == '/' {
            assert(entries[10] == seq![c]);
        } else if c == '%' {
            assert(entries[11] == seq![c]);
        } else if c == '+' {
            assert(entries[12] == seq![c]);
        } else if c == '-' {
            assert(entries[13] == seq![c]);
        } else if c == '=' {
            assert(entries[14] == seq![c]);
        } else if c == '|' {
            assert(entries[15] == seq![c]);
        } else if c == '<' {
            assert(entries[18] == seq![c]);
        } else if c == '>' {
            assert(entries[19] == seq![c]);
        } else if c == '~' {
            assert(entries[25] == seq![c]);
        }
    }
    assert forall|c: char| entries.contains(seq![c]) implies is_single_punct_char(c) by {
        let i = choose|i: int| 0 <= i < entries.len() && entries[i] == seq![c];
        assert(entries[i][0] == c);
    }
    assert forall|a: char, b: char| is_pair_punct(a, b) implies entries.contains(seq![a, b]) by {
        if a == '<' && b == '=' {
            assert(entries[17] == seq![a, b]);
        } else if a == '>' && b == '=' {
            assert(entries[20] == seq![a, b]);
        } else if a == '=' && b == '=' {
            assert(entries[21] == seq![a, b]);
        } else if a == '!' && b == '=' {
            assert(entries[22] == seq![a, b]);
        } else if a == '<' && b == '<' {
            assert(entries[23] == seq![a, b]);
        } else if a == '>' && b == '>' {
            assert(entries[24] == seq![a, b]);
        }
    }
    assert forall|a: char, b: char| entries.contains(seq![a, b]) implies is_pair_punct(a, b) by {
        let i = choose|i: int| 0 <= i < entries.len() && entries[i] == seq![a, b];
        assert(entries[i][0] == a);
        assert(entries[i][1] == b);
    }
}

} // verus!
