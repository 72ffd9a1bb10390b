//! The Omega scanner: a per-line character-driven state machine and the
//! pull-based iteration facade around it.
//!
//! The mathematical model comes first: `spec_step` gives the transition of
//! the state machine on one character, `spec_run` folds it over a prefix of
//! a line, `spec_scan_line` adds the end-of-line settlement, and
//! `spec_scan_text` chains the lines of a whole buffer.  Every executable
//! function is proved to produce exactly the items of this model.

use vstd::prelude::*;

use crate::error::{ErrorM, OmegaError};
use crate::token::{
    is_digit_char, is_digit_exec, is_id_cont_char, is_id_cont_exec, is_id_start_char,
    is_id_start_exec, is_int_cont_char, is_int_cont_exec, is_keyword, is_pair_punct,
    is_pair_punct_exec, is_single_punct_char, is_single_punct_exec, is_ws_char, is_ws_exec,
    starts_pair_punct, starts_pair_punct_exec, starts_punct, starts_punct_exec, Coord, CoordM,
    KeywordBookkeep, Token, TokenM, TokenType,
};

verus! {

/// One element of the scan output: a completed token or a lexical error.
pub type ItemM = Result<TokenM, ErrorM>;

/// Transient per-line scanning state.  `start` is always the index, within
/// the current line, of the first accumulated character (for string
/// literals: of the first character after the opening quote).
#[derive(Clone, Copy)]
pub enum ScanState {
    NoContext,
    InIdent { start: usize },
    InInt { start: usize },
    InString { start: usize },
    InPunct { start: usize },
}

/// Rule context reported when a character cannot start any token.
pub open spec fn ctx_no_start() -> Seq<char> {
    "character cannot start any token"@
}

/// Rule context reported when a character cannot continue an identifier.
pub open spec fn ctx_ident() -> Seq<char> {
    "unexpected character while parsing id"@
}

/// Rule context reported when a character cannot continue an integer literal.
pub open spec fn ctx_int() -> Seq<char> {
    "unexpected character while parsing integer literal"@
}

/// Rule context reported when no punctuation symbol matches the attempted
/// prefix.
pub open spec fn ctx_punct() -> Seq<char> {
    "no punctuation symbol matches the attempted prefix"@
}

/// Rule context reported when a string literal is still open at line end.
pub open spec fn ctx_unterminated_string() -> Seq<char> {
    "unterminated string literal"@
}

/// Rule context reported when a punctuation candidate is incomplete at line
/// end.
pub open spec fn ctx_unterminated_punct() -> Seq<char> {
    "incomplete punctuation symbol at line end"@
}

/// A completed token as an output item.
pub open spec fn tok_m(kind: TokenType, lexeme: Seq<char>, line: int, col: int) -> ItemM {
    Ok(TokenM { kind, lexeme, coord: CoordM { line, col } })
}

/// An invalid-character error as an output item.
pub open spec fn err_invalid(chr: char, line: int, col: int, context: Seq<char>) -> ItemM {
    Err(ErrorM::InvalidCharacter { chr, coord: CoordM { line, col }, context })
}

/// An unexpected-line-end error as an output item.
pub open spec fn err_line_end(line: int, col: int, context: Seq<char>) -> ItemM {
    Err(ErrorM::UnexpectedLineEnd { coord: CoordM { line, col }, context })
}

/// The kind of a completed identifier-shaped lexeme: reclassified as a
/// keyword exactly when the keyword table holds it.
pub open spec fn ident_kind(lexeme: Seq<char>) -> TokenType {
    if is_keyword(lexeme) {
        TokenType::Keyword
    } else {
        TokenType::Id
    }
}

/// A character on which, out of any token, a scan may begin (or, for
/// whitespace, that is consumed silently).
pub open spec fn acceptable_start(c: char) -> bool {
    c == '"' || is_digit_char(c) || is_id_start_char(c) || is_ws_char(c) || starts_punct(c)
}

/// Dispatch of character `line[i]` from the `NoContext` state: the new state
/// and the emitted items.
pub open spec fn spec_dispatch(line: Seq<char>, ln: int, i: int) -> (ScanState, Seq<ItemM>) {
    let c = line[i];
    if c == '"' {
        (ScanState::InString { start: (i + 1) as usize }, seq![])
    } else if is_digit_char(c) {
        (ScanState::InInt { start: i as usize }, seq![])
    } else if is_id_start_char(c) {
        (ScanState::InIdent { start: i as usize }, seq![])
    } else if is_ws_char(c) {
        (ScanState::NoContext, seq![])
    } else if is_single_punct_char(c) && !starts_pair_punct(c) {
        // the sole candidate already has full length: maximal munch is decided
        (
            ScanState::NoContext,
            seq![tok_m(TokenType::Punctuation, line.subrange(i, i + 1), ln, i + 1)],
        )
    } else if starts_pair_punct(c) {
        (ScanState::InPunct { start: i as usize }, seq![])
    } else {
        (ScanState::NoContext, seq![err_invalid(c, ln, i + 1, ctx_no_start())])
    }
}

/// Transition of the state machine on character `line[i]`.  Ending a token
/// on a triggering character re-dispatches that character from `NoContext`.
pub open spec fn spec_step(line: Seq<char>, ln: int, st: ScanState, i: int) -> (
    ScanState,
    Seq<ItemM>,
) {
    let c = line[i];
    match st {
        ScanState::NoContext => spec_dispatch(line, ln, i),
        ScanState::InIdent { start } => {
            if is_id_cont_char(c) {
                (st, seq![])
            } else if is_ws_char(c) || starts_punct(c) {
                let lexeme = line.subrange(start as int, i);
                let tok = tok_m(ident_kind(lexeme), lexeme, ln, start as int + 1);
                let (st2, out2) = spec_dispatch(line, ln, i);
                (st2, seq![tok] + out2)
            } else {
                (ScanState::NoContext, seq![err_invalid(c, ln, i + 1, ctx_ident())])
            }
        },
        ScanState::InInt { start } => {
            if is_int_cont_char(c) {
                (st, seq![])
            } else if is_ws_char(c) || starts_punct(c) {
                let lexeme = line.subrange(start as int, i);
                let tok = tok_m(TokenType::IntLiteral, lexeme, ln, start as int + 1);
                let (st2, out2) = spec_dispatch(line, ln, i);
                (st2, seq![tok] + out2)
            } else {
                (ScanState::NoContext, seq![err_invalid(c, ln, i + 1, ctx_int())])
            }
        },
        ScanState::InString { start } => {
            if c == '"' {
                let lexeme = line.subrange(start as int, i);
                (
                    ScanState::NoContext,
                    seq![tok_m(TokenType::StringLiteral, lexeme, ln, start as int + 1)],
                )
            } else {
                (st, seq![])
            }
        },
        ScanState::InPunct { start } => {
            let a = line[start as int];
            if is_pair_punct(a, c) {
                let lexeme = line.subrange(start as int, i + 1);
                (
                    ScanState::NoContext,
                    seq![tok_m(TokenType::Punctuation, lexeme, ln, start as int + 1)],
                )
            } else if is_single_punct_char(a) {
                let lexeme = line.subrange(start as int, i);
                let tok = tok_m(TokenType::Punctuation, lexeme, ln, start as int + 1);
                let (st2, out2) = spec_dispatch(line, ln, i);
                (st2, seq![tok] + out2)
            } else {
                let e = err_invalid(c, ln, i + 1, ctx_punct());
                let (st2, out2) = spec_dispatch(line, ln, i);
                (st2, seq![e] + out2)
            }
        },
    }
}

/// Settlement of the state left at the end of a line: line end acts like
/// whitespace for tokens it can complete, and reports the rest.
pub open spec fn spec_finalize(line: Seq<char>, ln: int, st: ScanState) -> Seq<ItemM> {
    let n = line.len() as int;
    match st {
        ScanState::NoContext => seq![],
        ScanState::InIdent { start } => {
            let lexeme = line.subrange(start as int, n);
            seq![tok_m(ident_kind(lexeme), lexeme, ln, start as int + 1)]
        },
        ScanState::InInt { start } => {
            let lexeme = line.subrange(start as int, n);
            seq![tok_m(TokenType::IntLiteral, lexeme, ln, start as int + 1)]
        },
        ScanState::InString { start } => seq![err_line_end(ln, n, ctx_unterminated_string())],
        ScanState::InPunct { start } => {
            let a = line[start as int];
            if is_single_punct_char(a) {
                let lexeme = line.subrange(start as int, n);
                seq![tok_m(TokenType::Punctuation, lexeme, ln, start as int + 1)]
            } else {
                seq![err_line_end(ln, n, ctx_unterminated_punct())]
            }
        },
    }
}

/// State and output after the first `i` characters of a line, starting from
/// `NoContext`.
pub open spec fn spec_run(line: Seq<char>, ln: int, i: int) -> (ScanState, Seq<ItemM>)
    decreases i,
{
    if i <= 0 {
        (ScanState::NoContext, seq![])
    } else {
        let (st, out) = spec_run(line, ln, i - 1);
        let (st2, out2) = spec_step(line, ln, st, i - 1);
        (st2, out + out2)
    }
}

/// The full scan of one line: every character consumed, then the line-end
/// settlement.
pub open spec fn spec_scan_line(line: Seq<char>, ln: int) -> Seq<ItemM> {
    let (st, out) = spec_run(line, ln, line.len() as int);
    out + spec_finalize(line, ln, st)
}

/// Index of the first `'\n'` at or after `pos`, or the text's length if no
/// newline remains.
pub open spec fn next_newline(text: Seq<char>, pos: int) -> int
    decreases text.len() - pos,
{
    if pos >= text.len() {
        text.len() as int
    } else if text[pos] == '\n' {
        pos
    } else {
        next_newline(text, pos + 1)
    }
}

pub proof fn lemma_next_newline_bounds(text: Seq<char>, pos: int)
    requires
        0 <= pos <= text.len(),
    ensures
        pos <= next_newline(text, pos) <= text.len(),
    decreases text.len() - pos,
{
    if pos >= text.len() {
    } else if text[pos] == '\n' {
    } else {
        lemma_next_newline_bounds(text, pos + 1);
    }
}

/// `next_newline` is pinned down by the absence of newlines before `j` and
/// (unless the line runs to the end of the text) a newline at `j`.
pub proof fn lemma_next_newline_at(text: Seq<char>, pos: int, j: int)
    requires
        0 <= pos <= j <= text.len(),
        forall|k: int| pos <= k < j ==> text[k] != '\n',
        j < text.len() ==> text[j] == '\n',
    ensures
        next_newline(text, pos) == j,
    decreases j - pos,
{
    if pos == j {
    } else {
        lemma_next_newline_at(text, pos + 1, j);
    }
}

/// The scan of a whole buffer from character position `pos`, which starts
/// line number `ln`: the lines are scanned independently, each from a fresh
/// `NoContext` state.
pub open spec fn spec_scan_from(text: Seq<char>, pos: int, ln: int) -> Seq<ItemM>
    decreases text.len() + 1 - pos,
    via spec_scan_from_decreases
{
    if pos < 0 || pos > text.len() {
        seq![]
    } else {
        let nl = next_newline(text, pos);
        spec_scan_line(text.subrange(pos, nl), ln) + spec_scan_from(text, nl + 1, ln + 1)
    }
}

#[via_fn]
proof fn spec_scan_from_decreases(text: Seq<char>, pos: int, ln: int) {
    if 0 <= pos <= text.len() {
        lemma_next_newline_bounds(text, pos);
    }
}

/// The scan of a whole buffer, in source order.
pub open spec fn spec_scan_text(text: Seq<char>) -> Seq<ItemM> {
    spec_scan_from(text, 0, 1)
}


/// The model of one produced item.
pub open spec fn item_model(r: Result<Token, OmegaError>) -> ItemM {
    match r {
        Ok(t) => Ok(t@),
        Err(e) => Err(e@),
    }
}

/// The model of a produced item sequence.
pub open spec fn items_model(s: Seq<Result<Token, OmegaError>>) -> Seq<ItemM> {
    s.map_values(|r: Result<Token, OmegaError>| item_model(r))
}

proof fn lemma_items_model_push(s: Seq<Result<Token, OmegaError>>, x: Result<Token, OmegaError>)
    ensures
        items_model(s.push(x)) == items_model(s).push(item_model(x)),
{
    assert(items_model(s.push(x)) =~= items_model(s).push(item_model(x)));
}

/// Well-formedness of the scanning state while standing before character
/// index `i` of a line of length `n`.
pub open spec fn state_wf(st: ScanState, i: int, n: int) -> bool {
    match st {
        ScanState::NoContext => true,
        ScanState::InIdent { start } => start < i,
        ScanState::InInt { start } => start < i,
        ScanState::InString { start } => start <= i,
        ScanState::InPunct { start } => start + 1 == i && start < n,
    }
}

fn ctx_no_start_exec() -> (s: String)
    ensures
        s@ == ctx_no_start(),
{
    "character cannot start any token".to_owned()
}

fn ctx_ident_exec() -> (s: String)
    ensures
        s@ == ctx_ident(),
{
    "unexpected character while parsing id".to_owned()
}

fn ctx_int_exec() -> (s: String)
    ensures
        s@ == ctx_int(),
{
    "unexpected character while parsing integer literal".to_owned()
}

fn ctx_punct_exec() -> (s: String)
    ensures
        s@ == ctx_punct(),
{
    "no punctuation symbol matches the attempted prefix".to_owned()
}

fn ctx_unterminated_string_exec() -> (s: String)
    ensures
        s@ == ctx_unterminated_string(),
{
    "unterminated string literal".to_owned()
}

fn ctx_unterminated_punct_exec() -> (s: String)
    ensures
        s@ == ctx_unterminated_punct(),
{
    "incomplete punctuation symbol at line end".to_owned()
}

/// Dispatch of character `line[i]` with no token in progress.
fn dispatch_exec(line: &str, ln: usize, i: usize, out: &mut Vec<Result<Token, OmegaError>>) -> (st:
    ScanState)
    requires
        i < line@.len(),
        line@.len() < usize::MAX,
    ensures
        ({
            let (st2, out2) = spec_dispatch(line@, ln as int, i as int);
            &&& st == st2
            &&& items_model(final(out)@) == items_model(old(out)@) + out2
        }),
        state_wf(st, i as int + 1, line@.len() as int),
{
    let ghost out2 = spec_dispatch(line@, ln as int, i as int).1;
    let c = line.get_char(i);
    if c == '"' {
        proof {
            assert(items_model(out@) =~= items_model(out@) + out2);
        }
        ScanState::InString { start: i + 1 }
    } else if is_digit_exec(c) {
        proof {
            assert(items_model(out@) =~= items_model(out@) + out2);
        }
        ScanState::InInt { start: i }
    } else if is_id_start_exec(c) {
        proof {
            assert(items_model(out@) =~= items_model(out@) + out2);
        }
        ScanState::InIdent { start: i }
    } else if is_ws_exec(c) {
        proof {
            assert(items_model(out@) =~= items_model(out@) + out2);
        }
        ScanState::NoContext
    } else if is_single_punct_exec(c) && !starts_pair_punct_exec(c) {
        let lexeme = line.substring_char(i, i + 1).to_owned();
        let tok = Token { kind: TokenType::Punctuation, lexeme, coord: Coord { line: ln, col: i + 1 } };
        proof {
            lemma_items_model_push(out@, Ok(tok));
            assert(items_model(out@).push(item_model(Ok(tok))) =~= items_model(out@) + out2);
        }
        out.push(Ok(tok));
        ScanState::NoContext
    } else if starts_pair_punct_exec(c) {
        proof {
            assert(items_model(out@) =~= items_model(out@) + out2);
        }
        ScanState::InPunct { start: i }
    } else {
        let e = OmegaError::InvalidCharacter {
            chr: c,
            coord: Coord { line: ln, col: i + 1 },
            context: ctx_no_start_exec(),
        };
        proof {
            lemma_items_model_push(out@, Err(e));
            assert(items_model(out@).push(item_model(Err(e))) =~= items_model(out@) + out2);
        }
        out.push(Err(e));
        ScanState::NoContext
    }
}

/// One transition of the state machine: consume character `line[i]` in
/// state `st0`, appending any completed token or error to `out`.
fn step_exec(
    line: &str,
    ln: usize,
    st0: ScanState,
    i: usize,
    out: &mut Vec<Result<Token, OmegaError>>,
) -> (st: ScanState)
    requires
        i < line@.len(),
        line@.len() < usize::MAX,
        state_wf(st0, i as int, line@.len() as int),
    ensures
        ({
            let (st2, out2) = spec_step(line@, ln as int, st0, i as int);
            &&& st == st2
            &&& items_model(final(out)@) == items_model(old(out)@) + out2
        }),
        state_wf(st, i as int + 1, line@.len() as int),
{
    let ghost out2 = spec_step(line@, ln as int, st0, i as int).1;
    let c = line.get_char(i);
    match st0 {
        ScanState::NoContext => dispatch_exec(line, ln, i, out),
        ScanState::InIdent { start } => {
            if is_id_cont_exec(c) {
                proof {
                    assert(items_model(out@) =~= items_model(out@) + out2);
                }
                st0
            } else if is_ws_exec(c) || starts_punct_exec(c) {
                let lexeme_str = line.substring_char(start, i);
                let kw = KeywordBookkeep.contains(lexeme_str);
                let kind = if kw {
                    TokenType::Keyword
                } else {
                    TokenType::Id
                };
                let tok = Token {
                    kind,
                    lexeme: lexeme_str.to_owned(),
                    coord: Coord { line: ln, col: start + 1 },
                };
                proof {
                    lemma_items_model_push(out@, Ok(tok));
                }
                out.push(Ok(tok));
                let st = dispatch_exec(line, ln, i, out);
                proof {
                    assert(items_model(out@) =~= items_model(old(out)@) + out2);
                }
                st
            } else {
                let e = OmegaError::InvalidCharacter {
                    chr: c,
                    coord: Coord { line: ln, col: i + 1 },
                    context: ctx_ident_exec(),
                };
                proof {
                    lemma_items_model_push(out@, Err(e));
                    assert(items_model(out@).push(item_model(Err(e))) =~= items_model(out@)
                        + out2);
                }
                out.push(Err(e));
                ScanState::NoContext
            }
        },
        ScanState::InInt { start } => {
            if is_int_cont_exec(c) {
                proof {
                    assert(items_model(out@) =~= items_model(out@) + out2);
                }
                st0
            } else if is_ws_exec(c) || starts_punct_exec(c) {
                let lexeme_str = line.substring_char(start, i);
                let tok = Token {
                    kind: TokenType::IntLiteral,
                    lexeme: lexeme_str.to_owned(),
                    coord: Coord { line: ln, col: start + 1 },
                };
                proof {
                    lemma_items_model_push(out@, Ok(tok));
                }
                out.push(Ok(tok));
                let st = dispatch_exec(line, ln, i, out);
                proof {
                    assert(items_model(out@) =~= items_model(old(out)@) + out2);
                }
                st
            } else {
                let e = OmegaError::InvalidCharacter {
                    chr: c,
                    coord: Coord { line: ln, col: i + 1 },
                    context: ctx_int_exec(),
                };
                proof {
                    lemma_items_model_push(out@, Err(e));
                    assert(items_model(out@).push(item_model(Err(e))) =~= items_model(out@)
                        + out2);
                }
                out.push(Err(e));
                ScanState::NoContext
            }
        },
        ScanState::InString { start } => {
            if c == '"' {
                let tok = Token {
                    kind: TokenType::StringLiteral,
                    lexeme: line.substring_char(start, i).to_owned(),
                    coord: Coord { line: ln, col: start + 1 },
                };
                proof {
                    lemma_items_model_push(out@, Ok(tok));
                    assert(items_model(out@).push(item_model(Ok(tok))) =~= items_model(out@)
                        + out2);
                }
                out.push(Ok(tok));
                ScanState::NoContext
            } else {
                proof {
                    assert(items_model(out@) =~= items_model(out@) + out2);
                }
                st0
            }
        },
        ScanState::InPunct { start } => {
            let a = line.get_char(start);
            if is_pair_punct_exec(a, c) {
                let tok = Token {
                    kind: TokenType::Punctuation,
                    lexeme: line.substring_char(start, i + 1).to_owned(),
                    coord: Coord { line: ln, col: start + 1 },
                };
                proof {
                    lemma_items_model_push(out@, Ok(tok));
                    assert(items_model(out@).push(item_model(Ok(tok))) =~= items_model(out@)
                        + out2);
                }
                out.push(Ok(tok));
                ScanState::NoContext
            } else if is_single_punct_exec(a) {
                let tok = Token {
                    kind: TokenType::Punctuation,
                    lexeme: line.substring_char(start, i).to_owned(),
                    coord: Coord { line: ln, col: start + 1 },
                };
                proof {
                    lemma_items_model_push(out@, Ok(tok));
                }
                out.push(Ok(tok));
                let st = dispatch_exec(line, ln, i, out);
                proof {
                    assert(items_model(out@) =~= items_model(old(out)@) + out2);
                }
                st
            } else {
                let e = OmegaError::InvalidCharacter {
                    chr: c,
                    coord: Coord { line: ln, col: i + 1 },
                    context: ctx_punct_exec(),
                };
                proof {
                    lemma_items_model_push(out@, Err(e));
                }
                out.push(Err(e));
                let st = dispatch_exec(line, ln, i, out);
                proof {
                    assert(items_model(out@) =~= items_model(old(out)@) + out2);
                }
                st
            }
        },
    }
}

/// Scan one line of source text (which must contain no newline), producing
/// its tokens and errors in source order.
pub fn scan_line(line: &str, ln: usize) -> (out: Vec<Result<Token, OmegaError>>)
    requires
        line@.len() < usize::MAX,
    ensures
        items_model(out@) == spec_scan_line(line@, ln as int),
{
    let n = line.unicode_len();
    let mut out: Vec<Result<Token, OmegaError>> = Vec::new();
    let mut st = ScanState::NoContext;
    let mut i: usize = 0;
    proof {
        assert(items_model(out@) =~= spec_run(line@, ln as int, 0).1);
    }
    while i < n
        invariant
            i <= n,
            n == line@.len() < usize::MAX,
            state_wf(st, i as int, n as int),
            st == spec_run(line@, ln as int, i as int).0,
            items_model(out@) == spec_run(line@, ln as int, i as int).1,
        decreases n - i,
    {
        let ghost pre = spec_run(line@, ln as int, i as int);
        st = step_exec(line, ln, st, i, &mut out);
        proof {
            assert(spec_run(line@, ln as int, i as int + 1).1 == pre.1 + spec_step(
                line@,
                ln as int,
                pre.0,
                i as int,
            ).1);
        }
        i += 1;
    }
    let ghost run_out = spec_run(line@, ln as int, n as int).1;
    let ghost fin = spec_finalize(line@, ln as int, st);
    match st {
        ScanState::NoContext => {
            proof {
                assert(items_model(out@) =~= run_out + fin);
            }
        },
        ScanState::InIdent { start } => {
            let lexeme_str = line.substring_char(start, n);
            let kw = KeywordBookkeep.contains(lexeme_str);
            let kind = if kw {
                TokenType::Keyword
            } else {
                TokenType::Id
            };
            let tok = Token {
                kind,
                lexeme: lexeme_str.to_owned(),
                coord: Coord { line: ln, col: start + 1 },
            };
            proof {
                lemma_items_model_push(out@, Ok(tok));
                assert(items_model(out@).push(item_model(Ok(tok))) =~= run_out + fin);
            }
            out.push(Ok(tok));
        },
        ScanState::InInt { start } => {
            let tok = Token {
                kind: TokenType::IntLiteral,
                lexeme: line.substring_char(start, n).to_owned(),
                coord: Coord { line: ln, col: start + 1 },
            };
            proof {
                lemma_items_model_push(out@, Ok(tok));
                assert(items_model(out@).push(item_model(Ok(tok))) =~= run_out + fin);
            }
            out.push(Ok(tok));
        },
        ScanState::InString { start } => {
            let e = OmegaError::UnexpectedLineEnd {
                coord: Coord { line: ln, col: n },
                context: ctx_unterminated_string_exec(),
            };
            proof {
                lemma_items_model_push(out@, Err(e));
                assert(items_model(out@).push(item_model(Err(e))) =~= run_out + fin);
            }
            out.push(Err(e));
        },
        ScanState::InPunct { start } => {
            let a = line.get_char(start);
            if is_single_punct_exec(a) {
                let tok = Token {
                    kind: TokenType::Punctuation,
                    lexeme: line.substring_char(start, n).to_owned(),
                    coord: Coord { line: ln, col: start + 1 },
                };
                proof {
                    lemma_items_model_push(out@, Ok(tok));
                    assert(items_model(out@).push(item_model(Ok(tok))) =~= run_out + fin);
                }
                out.push(Ok(tok));
            } else {
                let e = OmegaError::UnexpectedLineEnd {
                    coord: Coord { line: ln, col: n },
                    context: ctx_unterminated_punct_exec(),
                };
                proof {
                    lemma_items_model_push(out@, Err(e));
                    assert(items_model(out@).push(item_model(Err(e))) =~= run_out + fin);
                }
                out.push(Err(e));
            }
        },
    }
    out
}


/// Index of the first newline at or after `from`, or the text's length.
fn find_newline(s: &str, from: usize) -> (nl: usize)
    requires
        from as int <= s@.len(),
        s@.len() < usize::MAX,
    ensures
        nl == next_newline(s@, from as int),
        from <= nl <= s@.len(),
{
    let n = s.unicode_len();
    let mut j = from;
    while j < n
        invariant
            from <= j <= n,
            n == s@.len(),
            forall|k: int| from <= k < j ==> s@[k] != '\n',
        decreases n - j,
    {
        if s.get_char(j) == '\n' {
            proof {
                lemma_next_newline_at(s@, from as int, j as int);
            }
            return j;
        }
        j += 1;
    }
    proof {
        lemma_next_newline_at(s@, from as int, n as int);
    }
    n
}

/// The scanner: owns the source text for its whole lifetime and exposes the
/// scan as a lazily produced, ordered sequence of results.  Lines are
/// scanned on demand, one at a time, as the consumer pulls.
pub struct Scanner {
    text: String,
    /// Character position of the first not-yet-scanned line; one past the
    /// text's length once every line has been scanned.
    pos: usize,
    /// 1-indexed number of the line starting at `pos`.
    line_no: usize,
    /// Items already produced by the state machine but not yet pulled.
    pending: Vec<Result<Token, OmegaError>>,
}

impl Scanner {
    /// Internal consistency of the scanner's progress counters.
    pub closed spec fn wf(&self) -> bool {
        &&& self.text@.len() + 1 < usize::MAX
        &&& self.pos <= self.text@.len() + 1
        &&& 1 <= self.line_no
        &&& self.line_no <= self.pos + 1
    }

    /// The source text being scanned.
    pub closed spec fn text_view(&self) -> Seq<char> {
        self.text@
    }

    /// The models of the items this scanner has yet to yield.
    pub closed spec fn remaining(&self) -> Seq<ItemM> {
        items_model(self.pending@) + spec_scan_from(self.text@, self.pos as int, self.line_no as int)
    }

    /// Construct a scanner over `text`; it will yield exactly the items of
    /// `spec_scan_text(text@)`, in order.
    pub fn new(text: String) -> (scanner: Scanner)
        requires
            text@.len() + 1 < usize::MAX,
        ensures
            scanner.wf(),
            scanner.text_view() == text@,
            scanner.remaining() == spec_scan_text(text@),
    {
        let scanner = Scanner { text, pos: 0, line_no: 1, pending: Vec::new() };
        proof {
            assert(items_model(scanner.pending@) =~= Seq::<ItemM>::empty());
            assert(scanner.remaining() =~= spec_scan_text(scanner.text@));
        }
        scanner
    }

    /// Yield the next token or error, or `None` once the scan is complete.
    /// Each pull advances the underlying state machine by at most one line.
    pub fn next(&mut self) -> (r: Option<Result<Token, OmegaError>>)
        requires
            old(self).wf(),
        ensures
            final(self).wf(),
            final(self).text_view() == old(self).text_view(),
            r is Some <==> old(self).remaining().len() > 0,
            r matches Some(item) ==> {
                &&& item_model(item) == old(self).remaining()[0]
                &&& final(self).remaining() == old(self).remaining().skip(1)
            },
            r is None ==> final(self).remaining() == old(self).remaining()
                && old(self).remaining().len() == 0,
    {
        loop
            invariant
                self.wf(),
                self.text@ == old(self).text@,
                self.remaining() == old(self).remaining(),
            decreases self.text@.len() + 2 - self.pos,
        {
            if self.pending.len() > 0 {
                let ghost rem = self.remaining();
                let ghost pend = self.pending@;
                let item = self.pending.remove(0);
                proof {
                    assert(pend.remove(0) =~= pend.skip(1));
                    assert(items_model(pend.skip(1)) =~= items_model(pend).skip(1));
                    assert(self.remaining() =~= rem.skip(1));
                    assert(item_model(item) == rem[0]);
                }
                return Some(item);
            }
            let n = self.text.as_str().unicode_len();
            if self.pos > n {
                proof {
                    assert(self.remaining() =~= items_model(self.pending@));
                    assert(items_model(self.pending@) =~= Seq::<ItemM>::empty());
                }
                return None;
            }
            let nl = find_newline(self.text.as_str(), self.pos);
            let line = self.text.as_str().substring_char(self.pos, nl);
            let ghost rem = self.remaining();
            let items = scan_line(line, self.line_no);
            self.pending = items;
            self.pos = nl + 1;
            self.line_no = self.line_no + 1;
            proof {
                assert(self.remaining() =~= rem);
            }
        }
    }

    /// Drain the scanner, returning every remaining token and error in
    /// source order.
    pub fn collect_all(&mut self) -> (out: Vec<Result<Token, OmegaError>>)
        requires
            old(self).wf(),
        ensures
            final(self).wf(),
            final(self).text_view() == old(self).text_view(),
            items_model(out@) == old(self).remaining(),
            final(self).remaining().len() == 0,
    {
        let mut out: Vec<Result<Token, OmegaError>> = Vec::new();
        proof {
            assert(items_model(out@) =~= Seq::<ItemM>::empty());
            assert(items_model(out@) + old(self).remaining() =~= old(self).remaining());
        }
        loop
            invariant
                self.wf(),
                self.text@ == old(self).text@,
                items_model(out@) + self.remaining() == old(self).remaining(),
            decreases self.remaining().len(),
        {
            let ghost rem = self.remaining();
            match self.next() {
                Some(item) => {
                    proof {
                        lemma_items_model_push(out@, item);
                        assert(items_model(out@).push(item_model(item)) + rem.skip(1)
                            =~= items_model(out@) + rem);
                    }
                    out.push(item);
                },
                None => {
                    proof {
                        assert(items_model(out@) + rem =~= items_model(out@));
                    }
                    return out;
                },
            }
        }
    }
}

} // verus!
