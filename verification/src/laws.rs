//! The laws of the Omega scanner, proved of its mathematical model.
//!
//! Monotonicity of the state machine's output, guaranteed reporting of
//! characters that fit no token, per-line independence of the scan,
//! emptiness on whitespace-only lines, substring faithfulness of every
//! token, and the round trip on well-formed input: a line of valid lexemes
//! separated by whitespace scans, without error, to exactly those lexemes'
//! tokens.

use vstd::prelude::*;

use crate::scanner::{
    acceptable_start, ident_kind, lemma_next_newline_bounds, next_newline,
    spec_finalize, spec_run, spec_scan_from, spec_scan_line, spec_scan_text, spec_step,
    state_wf, tok_m, ItemM, ScanState,
};
use crate::token::{
    is_digit_char, is_id_cont_char, is_id_start_char, is_int_cont_char, is_pair_punct,
    is_single_punct_char, is_ws_char, starts_pair_punct, starts_punct, TokenType,
};

verus! {

/// Scanning the same text twice, each time from a fresh scanner, yields
/// identical sequences: the scan is a function of the text alone.
pub proof fn lemma_scan_deterministic(text1: Seq<char>, text2: Seq<char>)
    requires
        text1 == text2,
    ensures
        spec_scan_text(text1) == spec_scan_text(text2),
{
}

/// What the state machine has emitted after `i` characters is a prefix of
/// what it has emitted after `j`: output only ever grows.
pub proof fn lemma_run_prefix(line: Seq<char>, ln: int, i: int, j: int)
    requires
        0 <= i <= j,
    ensures
        spec_run(line, ln, i).1.is_prefix_of(spec_run(line, ln, j).1),
    decreases j - i,
{
    let a = spec_run(line, ln, i).1;
    if i == j {
        assert(a =~= a.subrange(0, a.len() as int));
    } else {
        lemma_run_prefix(line, ln, i, j - 1);
        let b = spec_run(line, ln, j - 1).1;
        let c = spec_run(line, ln, j).1;
        assert(c == b + spec_step(line, ln, spec_run(line, ln, j - 1).0, j - 1).1);
        assert(a =~= c.subrange(0, a.len() as int));
    }
}

/// Whatever error one transition reports appears in the scan of the whole
/// line: later characters never erase an emitted item.
pub proof fn lemma_step_error_reported(line: Seq<char>, ln: int, i: int)
    requires
        0 <= i < line.len(),
        exists|k: int|
            0 <= k < spec_step(line, ln, spec_run(line, ln, i).0, i).1.len() && spec_step(
                line,
                ln,
                spec_run(line, ln, i).0,
                i,
            ).1[k] is Err,
    ensures
        exists|k: int|
            0 <= k < spec_scan_line(line, ln).len() && spec_scan_line(line, ln)[k] is Err,
{
    let out = spec_run(line, ln, i).1;
    let out2 = spec_step(line, ln, spec_run(line, ln, i).0, i).1;
    let k = choose|k: int| 0 <= k < out2.len() && out2[k] is Err;
    let idx = out.len() + k;
    assert(spec_run(line, ln, i + 1).1 == out + out2);
    assert(spec_run(line, ln, i + 1).1[idx] is Err);
    lemma_run_prefix(line, ln, i + 1, line.len() as int);
    let full = spec_run(line, ln, line.len() as int).1;
    assert(full[idx] == spec_run(line, ln, i + 1).1.subrange(
        0,
        spec_run(line, ln, i + 1).1.len() as int,
    )[idx]);
    assert(spec_scan_line(line, ln)[idx] is Err);
}

/// A character on which no token can start or be silently skipped, reached
/// with no token in progress, is reported: the line's scan holds at least
/// one error item, while the rest of the line (and text) is still scanned.
pub proof fn lemma_invalid_start_reported(line: Seq<char>, ln: int, i: int)
    requires
        0 <= i < line.len(),
        spec_run(line, ln, i).0 is NoContext,
        !acceptable_start(line[i]),
    ensures
        exists|k: int|
            0 <= k < spec_scan_line(line, ln).len() && spec_scan_line(line, ln)[k] is Err,
{
    let out2 = spec_step(line, ln, spec_run(line, ln, i).0, i).1;
    assert(out2[0] is Err);
    lemma_step_error_reported(line, ln, i);
}

/// A character that can neither continue an identifier in progress nor end
/// it (as whitespace or the start of a punctuation symbol would) is
/// reported.
pub proof fn lemma_invalid_ident_continue_reported(line: Seq<char>, ln: int, i: int)
    requires
        0 <= i < line.len(),
        spec_run(line, ln, i).0 is InIdent,
        !is_id_cont_char(line[i]),
        !is_ws_char(line[i]),
        !starts_punct(line[i]),
    ensures
        exists|k: int|
            0 <= k < spec_scan_line(line, ln).len() && spec_scan_line(line, ln)[k] is Err,
{
    let out2 = spec_step(line, ln, spec_run(line, ln, i).0, i).1;
    assert(out2[0] is Err);
    lemma_step_error_reported(line, ln, i);
}

/// A character that can neither continue an integer literal in progress nor
/// end it is reported: the scanner does not silently split the literal.
pub proof fn lemma_invalid_int_continue_reported(line: Seq<char>, ln: int, i: int)
    requires
        0 <= i < line.len(),
        spec_run(line, ln, i).0 is InInt,
        !is_int_cont_char(line[i]),
        !is_ws_char(line[i]),
        !starts_punct(line[i]),
    ensures
        exists|k: int|
            0 <= k < spec_scan_line(line, ln).len() && spec_scan_line(line, ln)[k] is Err,
{
    let out2 = spec_step(line, ln, spec_run(line, ln, i).0, i).1;
    assert(out2[0] is Err);
    lemma_step_error_reported(line, ln, i);
}

/// Lines are scanned independently: the scan of a buffer from a line start
/// is the scan of that line followed by the scan of the remaining lines, so
/// defects in one line never truncate or disturb the scan of another.
pub proof fn lemma_scan_decomposes_by_line(text: Seq<char>, pos: int, ln: int)
    requires
        0 <= pos <= text.len(),
    ensures
        spec_scan_from(text, pos, ln) == spec_scan_line(
            text.subrange(pos, next_newline(text, pos)),
            ln,
        ) + spec_scan_from(text, next_newline(text, pos) + 1, ln + 1),
{
}

proof fn lemma_run_ws(line: Seq<char>, ln: int, i: int)
    requires
        0 <= i <= line.len(),
        forall|k: int| 0 <= k < line.len() ==> is_ws_char(#[trigger] line[k]),
    ensures
        spec_run(line, ln, i).0 is NoContext,
        spec_run(line, ln, i).1 == Seq::<ItemM>::empty(),
    decreases i,
{
    if i > 0 {
        lemma_run_ws(line, ln, i - 1);
        assert(is_ws_char(line[i - 1]));
        assert(spec_run(line, ln, i).1 =~= Seq::<ItemM>::empty());
    }
}

/// A line holding only whitespace (in particular an empty line) produces no
/// tokens and no errors.
pub proof fn lemma_whitespace_line_scans_empty(line: Seq<char>, ln: int)
    requires
        forall|k: int| 0 <= k < line.len() ==> is_ws_char(#[trigger] line[k]),
    ensures
        spec_scan_line(line, ln) == Seq::<ItemM>::empty(),
{
    lemma_run_ws(line, ln, line.len() as int);
    assert(spec_scan_line(line, ln) =~= Seq::<ItemM>::empty());
}

/// A token item is faithful to its line: its coordinate names the given
/// line, and its lexeme is exactly the line's substring at its reported
/// column.
pub open spec fn token_from_line(line: Seq<char>, ln: int, it: ItemM) -> bool {
    it matches Ok(t) ==> {
        &&& t.coord.line == ln
        &&& 1 <= t.coord.col
        &&& t.coord.col - 1 + t.lexeme.len() <= line.len()
        &&& t.lexeme == line.subrange(t.coord.col - 1, t.coord.col - 1 + t.lexeme.len())
    }
}

proof fn lemma_run_tokens_from_line(line: Seq<char>, ln: int, i: int)
    requires
        0 <= i <= line.len(),
        line.len() < usize::MAX,
    ensures
        state_wf(spec_run(line, ln, i).0, i, line.len() as int),
        forall|k: int|
            0 <= k < spec_run(line, ln, i).1.len() ==> token_from_line(
                line,
                ln,
                #[trigger] spec_run(line, ln, i).1[k],
            ),
    decreases i,
{
    if i > 0 {
        lemma_run_tokens_from_line(line, ln, i - 1);
        let st0 = spec_run(line, ln, i - 1).0;
        let out0 = spec_run(line, ln, i - 1).1;
        let out2 = spec_step(line, ln, st0, i - 1).1;
        assert forall|k: int| 0 <= k < out2.len() implies token_from_line(
            line,
            ln,
            out2[k],
        ) by {
            match st0 {
                ScanState::NoContext => {},
                ScanState::InIdent { start } => {},
                ScanState::InInt { start } => {},
                ScanState::InString { start } => {},
                ScanState::InPunct { start } => {},
            }
        }
        assert(spec_run(line, ln, i).1 == out0 + out2);
        assert forall|k: int| 0 <= k < spec_run(line, ln, i).1.len() implies token_from_line(
            line,
            ln,
            spec_run(line, ln, i).1[k],
        ) by {
            if k < out0.len() {
                assert((out0 + out2)[k] == out0[k]);
            } else {
                assert((out0 + out2)[k] == out2[k - out0.len()]);
            }
        }
    }
}

/// Coverage round trip: every token the scan of a line yields is an exact
/// substring of that line at its reported coordinate, so concatenating the
/// lexemes with the original separators reconstructs the line.
pub proof fn lemma_tokens_are_line_substrings(line: Seq<char>, ln: int)
    requires
        line.len() < usize::MAX,
    ensures
        forall|k: int|
            0 <= k < spec_scan_line(line, ln).len() ==> token_from_line(
                line,
                ln,
                #[trigger] spec_scan_line(line, ln)[k],
            ),
{
    let n = line.len() as int;
    lemma_run_tokens_from_line(line, ln, n);
    let st = spec_run(line, ln, n).0;
    let out = spec_run(line, ln, n).1;
    let fin = spec_finalize(line, ln, st);
    assert forall|k: int| 0 <= k < fin.len() implies token_from_line(line, ln, fin[k]) by {
        match st {
            ScanState::NoContext => {},
            ScanState::InIdent { start } => {},
            ScanState::InInt { start } => {},
            ScanState::InString { start } => {},
            ScanState::InPunct { start } => {},
        }
    }
    assert forall|k: int| 0 <= k < spec_scan_line(line, ln).len() implies token_from_line(
        line,
        ln,
        spec_scan_line(line, ln)[k],
    ) by {
        if k < out.len() {
            assert(spec_scan_line(line, ln)[k] == out[k]);
        } else {
            assert(spec_scan_line(line, ln)[k] == fin[k - out.len()]);
        }
    }
}


/// Index just past the identifier-continuation run beginning at `i`.
pub open spec fn ident_end(line: Seq<char>, i: int) -> int
    decreases line.len() - i,
{
    if i < 0 || i >= line.len() || !is_id_cont_char(line[i]) {
        i
    } else {
        ident_end(line, i + 1)
    }
}

/// Index just past the integer-continuation run beginning at `i`.
pub open spec fn int_end(line: Seq<char>, i: int) -> int
    decreases line.len() - i,
{
    if i < 0 || i >= line.len() || !is_int_cont_char(line[i]) {
        i
    } else {
        int_end(line, i + 1)
    }
}

/// Index of the first quote at or after `i`, or the line's length.
pub open spec fn string_close(line: Seq<char>, i: int) -> int
    decreases line.len() - i,
{
    if i < 0 || i >= line.len() {
        line.len() as int
    } else if line[i] == '"' {
        i
    } else {
        string_close(line, i + 1)
    }
}

proof fn lemma_ident_end_spec(line: Seq<char>, i: int)
    requires
        0 <= i <= line.len(),
    ensures
        i <= ident_end(line, i) <= line.len(),
        forall|k: int| i <= k < ident_end(line, i) ==> is_id_cont_char(#[trigger] line[k]),
        ident_end(line, i) < line.len() ==> !is_id_cont_char(line[ident_end(line, i)]),
    decreases line.len() - i,
{
    if i < line.len() && is_id_cont_char(line[i]) {
        lemma_ident_end_spec(line, i + 1);
    }
}

proof fn lemma_int_end_spec(line: Seq<char>, i: int)
    requires
        0 <= i <= line.len(),
    ensures
        i <= int_end(line, i) <= line.len(),
        forall|k: int| i <= k < int_end(line, i) ==> is_int_cont_char(#[trigger] line[k]),
        int_end(line, i) < line.len() ==> !is_int_cont_char(line[int_end(line, i)]),
    decreases line.len() - i,
{
    if i < line.len() && is_int_cont_char(line[i]) {
        lemma_int_end_spec(line, i + 1);
    }
}

proof fn lemma_string_close_spec(line: Seq<char>, i: int)
    requires
        0 <= i <= line.len(),
    ensures
        i <= string_close(line, i) <= line.len(),
        forall|k: int| i <= k < string_close(line, i) ==> #[trigger] line[k] != '"',
        string_close(line, i) < line.len() ==> line[string_close(line, i)] == '"',
    decreases line.len() - i,
{
    if i < line.len() && line[i] != '"' {
        lemma_string_close_spec(line, i + 1);
    }
}

/// Position `e` can end a lexeme: the line ends there or whitespace follows.
pub open spec fn at_boundary(line: Seq<char>, e: int) -> bool {
    e >= line.len() || is_ws_char(line[e])
}

/// The suffix of the line from `i` consists of valid Omega lexemes separated
/// by whitespace: each maximal-munch lexeme is well shaped and ends at the
/// line end or before whitespace.
pub open spec fn well_formed_from(line: Seq<char>, i: int) -> bool
    decreases line.len() + 1 - i,
    via well_formed_from_decreases
{
    if i < 0 {
        false
    } else if i >= line.len() {
        true
    } else {
        let c = line[i];
        if is_ws_char(c) {
            well_formed_from(line, i + 1)
        } else if c == '"' {
            let q = string_close(line, i + 1);
            &&& q < line.len()
            &&& at_boundary(line, q + 1)
            &&& well_formed_from(line, q + 1)
        } else if is_digit_char(c) {
            let e = int_end(line, i + 1);
            at_boundary(line, e) && well_formed_from(line, e)
        } else if is_id_start_char(c) {
            let e = ident_end(line, i + 1);
            at_boundary(line, e) && well_formed_from(line, e)
        } else if starts_pair_punct(c) && i + 1 < line.len() && is_pair_punct(c, line[i + 1]) {
            at_boundary(line, i + 2) && well_formed_from(line, i + 2)
        } else if is_single_punct_char(c) {
            at_boundary(line, i + 1) && well_formed_from(line, i + 1)
        } else {
            false
        }
    }
}

#[via_fn]
proof fn well_formed_from_decreases(line: Seq<char>, i: int) {
    if 0 <= i && i < line.len() {
        lemma_string_close_spec(line, i + 1);
        lemma_int_end_spec(line, i + 1);
        lemma_ident_end_spec(line, i + 1);
    }
}

/// A whole line of whitespace-separated Omega lexemes.
pub open spec fn well_formed_line(line: Seq<char>) -> bool {
    well_formed_from(line, 0)
}

proof fn lemma_ident_stays(line: Seq<char>, ln: int, i: int, j: int)
    requires
        0 <= i < j <= line.len() < usize::MAX,
        spec_run(line, ln, i).0 is NoContext,
        is_id_start_char(line[i]),
        forall|k: int| i < k < j ==> is_id_cont_char(#[trigger] line[k]),
    ensures
        spec_run(line, ln, j).0 == (ScanState::InIdent { start: i as usize }),
        spec_run(line, ln, j).1 == spec_run(line, ln, i).1,
    decreases j - i,
{
    if j == i + 1 {
        assert(!is_digit_char(line[i]) && line[i] != '"');
        assert(spec_run(line, ln, j).1 =~= spec_run(line, ln, i).1);
    } else {
        lemma_ident_stays(line, ln, i, j - 1);
        assert(is_id_cont_char(line[j - 1]));
        assert(spec_run(line, ln, j).1 =~= spec_run(line, ln, i).1);
    }
}

proof fn lemma_int_stays(line: Seq<char>, ln: int, i: int, j: int)
    requires
        0 <= i < j <= line.len() < usize::MAX,
        spec_run(line, ln, i).0 is NoContext,
        is_digit_char(line[i]),
        forall|k: int| i < k < j ==> is_int_cont_char(#[trigger] line[k]),
    ensures
        spec_run(line, ln, j).0 == (ScanState::InInt { start: i as usize }),
        spec_run(line, ln, j).1 == spec_run(line, ln, i).1,
    decreases j - i,
{
    if j == i + 1 {
        assert(line[i] != '"');
        assert(spec_run(line, ln, j).1 =~= spec_run(line, ln, i).1);
    } else {
        lemma_int_stays(line, ln, i, j - 1);
        assert(is_int_cont_char(line[j - 1]));
        assert(spec_run(line, ln, j).1 =~= spec_run(line, ln, i).1);
    }
}

proof fn lemma_string_stays(line: Seq<char>, ln: int, i: int, j: int)
    requires
        0 <= i < j <= line.len() < usize::MAX,
        spec_run(line, ln, i).0 is NoContext,
        line[i] == '"',
        forall|k: int| i < k < j ==> #[trigger] line[k] != '"',
    ensures
        spec_run(line, ln, j).0 == (ScanState::InString { start: (i + 1) as usize }),
        spec_run(line, ln, j).1 == spec_run(line, ln, i).1,
    decreases j - i,
{
    if j == i + 1 {
        assert(spec_run(line, ln, j).1 =~= spec_run(line, ln, i).1);
    } else {
        lemma_string_stays(line, ln, i, j - 1);
        assert(line[j - 1] != '"');
        assert(spec_run(line, ln, j).1 =~= spec_run(line, ln, i).1);
    }
}

proof fn lemma_ok_between(line: Seq<char>, ln: int, j: int, it: ItemM)
    requires
        0 <= j <= line.len(),
        it is Ok,
        spec_run(line, ln, j).1.len() >= 1,
        spec_run(line, ln, j).1[spec_run(line, ln, j).1.len() - 1] == it,
    ensures
        spec_scan_line(line, ln)[spec_run(line, ln, j).1.len() - 1] is Ok,
        spec_run(line, ln, j).1.len() <= spec_scan_line(line, ln).len(),
{
    let idx = spec_run(line, ln, j).1.len() - 1;
    lemma_run_prefix(line, ln, j, line.len() as int);
    let part = spec_run(line, ln, j).1;
    let full = spec_run(line, ln, line.len() as int).1;
    assert(full[idx] == part.subrange(0, part.len() as int)[idx]);
    assert(spec_scan_line(line, ln)[idx] == full[idx]);
}

proof fn lemma_wf_no_errors(line: Seq<char>, ln: int, i: int)
    requires
        0 <= i <= line.len() < usize::MAX,
        spec_run(line, ln, i).0 is NoContext,
        well_formed_from(line, i),
    ensures
        forall|k: int|
            spec_run(line, ln, i).1.len() <= k < spec_scan_line(line, ln).len()
                ==> #[trigger] spec_scan_line(line, ln)[k] is Ok,
    decreases line.len() - i,
{
    let n = line.len() as int;
    let base = spec_run(line, ln, i).1;
    if i == n {
        assert(spec_scan_line(line, ln) =~= base);
    } else {
        let c = line[i];
        if is_ws_char(c) {
            assert(spec_run(line, ln, i + 1).1 =~= base);
            lemma_wf_no_errors(line, ln, i + 1);
        } else if c == '"' {
            let q = string_close(line, i + 1);
            lemma_string_close_spec(line, i + 1);
            lemma_string_stays(line, ln, i, q);
            let tok = tok_m(
                TokenType::StringLiteral,
                line.subrange(i + 1, q),
                ln,
                i + 2,
            );
            assert(line[q] == '"');
            assert(spec_run(line, ln, q + 1).0 is NoContext);
            assert(spec_run(line, ln, q + 1).1 =~= base.push(tok));
            lemma_wf_no_errors(line, ln, q + 1);
            lemma_ok_between(line, ln, q + 1, tok);
        } else if is_digit_char(c) {
            let e = int_end(line, i + 1);
            lemma_int_end_spec(line, i + 1);
            lemma_int_stays(line, ln, i, e);
            let tok = tok_m(TokenType::IntLiteral, line.subrange(i, e), ln, i + 1);
            if e == n {
                assert(spec_scan_line(line, ln) =~= base.push(tok));
            } else {
                assert(is_ws_char(line[e]));
                assert(spec_run(line, ln, e + 1).0 is NoContext);
                assert(spec_run(line, ln, e + 1).1 =~= base.push(tok));
                assert(well_formed_from(line, e));
                assert(well_formed_from(line, e + 1));
                lemma_wf_no_errors(line, ln, e + 1);
                lemma_ok_between(line, ln, e + 1, tok);
            }
        } else if is_id_start_char(c) {
            let e = ident_end(line, i + 1);
            lemma_ident_end_spec(line, i + 1);
            lemma_ident_stays(line, ln, i, e);
            let lexeme = line.subrange(i, e);
            let tok = tok_m(ident_kind(lexeme), lexeme, ln, i + 1);
            if e == n {
                assert(spec_scan_line(line, ln) =~= base.push(tok));
            } else {
                assert(is_ws_char(line[e]));
                assert(spec_run(line, ln, e + 1).0 is NoContext);
                assert(spec_run(line, ln, e + 1).1 =~= base.push(tok));
                assert(well_formed_from(line, e));
                assert(well_formed_from(line, e + 1));
                lemma_wf_no_errors(line, ln, e + 1);
                lemma_ok_between(line, ln, e + 1, tok);
            }
        } else if starts_pair_punct(c) && i + 1 < n && is_pair_punct(c, line[i + 1]) {
            assert(spec_run(line, ln, i + 1).0 == ScanState::InPunct { start: i as usize });
            assert(spec_run(line, ln, i + 1).1 =~= base);
            let tok = tok_m(TokenType::Punctuation, line.subrange(i, i + 2), ln, i + 1);
            assert(spec_run(line, ln, i + 2).0 is NoContext);
            assert(spec_run(line, ln, i + 2).1 =~= base.push(tok));
            lemma_wf_no_errors(line, ln, i + 2);
            lemma_ok_between(line, ln, i + 2, tok);
        } else if is_single_punct_char(c) {
            let tok = tok_m(TokenType::Punctuation, line.subrange(i, i + 1), ln, i + 1);
            if starts_pair_punct(c) {
                assert(spec_run(line, ln, i + 1).0 == ScanState::InPunct { start: i as usize });
                assert(spec_run(line, ln, i + 1).1 =~= base);
                if i + 1 == n {
                    assert(spec_scan_line(line, ln) =~= base.push(tok));
                } else {
                    assert(is_ws_char(line[i + 1]));
                    assert(!is_pair_punct(c, line[i + 1]));
                    assert(spec_run(line, ln, i + 2).0 is NoContext);
                    assert(spec_run(line, ln, i + 2).1 =~= base.push(tok));
                    assert(well_formed_from(line, i + 1));
                    assert(well_formed_from(line, i + 2));
                    lemma_wf_no_errors(line, ln, i + 2);
                    lemma_ok_between(line, ln, i + 2, tok);
                }
            } else {
                assert(spec_run(line, ln, i + 1).0 is NoContext);
                assert(spec_run(line, ln, i + 1).1 =~= base.push(tok));
                lemma_wf_no_errors(line, ln, i + 1);
                lemma_ok_between(line, ln, i + 1, tok);
            }
        }
    }
}

/// A line of valid Omega lexemes separated by whitespace scans without a
/// single error item; with `lemma_tokens_are_line_substrings`, its scan is a
/// faithful covering of the line by its lexemes.
pub proof fn lemma_well_formed_line_scans_without_errors(line: Seq<char>, ln: int)
    requires
        line.len() < usize::MAX,
        well_formed_line(line),
    ensures
        forall|k: int|
            0 <= k < spec_scan_line(line, ln).len() ==> #[trigger] spec_scan_line(
                line,
                ln,
            )[k] is Ok,
{
    assert(spec_run(line, ln, 0).1.len() == 0);
    lemma_wf_no_errors(line, ln, 0);
}


/// Every line of the text from position `pos` on is a well-formed line.
pub open spec fn well_formed_text_from(text: Seq<char>, pos: int) -> bool
    decreases text.len() + 1 - pos,
    via well_formed_text_from_decreases
{
    if pos < 0 || pos > text.len() {
        pos >= 0
    } else {
        let nl = next_newline(text, pos);
        well_formed_line(text.subrange(pos, nl)) && well_formed_text_from(text, nl + 1)
    }
}

#[via_fn]
proof fn well_formed_text_from_decreases(text: Seq<char>, pos: int) {
    if 0 <= pos <= text.len() {
        lemma_next_newline_bounds(text, pos);
    }
}

/// Every line of the text is a well-formed line of whitespace-separated
/// Omega lexemes.
pub open spec fn well_formed_text(text: Seq<char>) -> bool {
    well_formed_text_from(text, 0)
}

proof fn lemma_wf_text_no_errors(text: Seq<char>, pos: int, ln: int)
    requires
        0 <= pos,
        text.len() < usize::MAX,
        well_formed_text_from(text, pos),
    ensures
        forall|k: int|
            0 <= k < spec_scan_from(text, pos, ln).len() ==> #[trigger] spec_scan_from(
                text,
                pos,
                ln,
            )[k] is Ok,
    decreases text.len() + 1 - pos,
{
    if pos <= text.len() {
        let nl = next_newline(text, pos);
        lemma_next_newline_bounds(text, pos);
        let line = text.subrange(pos, nl);
        lemma_well_formed_line_scans_without_errors(line, ln);
        lemma_wf_text_no_errors(text, nl + 1, ln + 1);
        let head = spec_scan_line(line, ln);
        let rest = spec_scan_from(text, nl + 1, ln + 1);
        assert(spec_scan_from(text, pos, ln) == head + rest);
        assert forall|k: int| 0 <= k < spec_scan_from(text, pos, ln).len() implies spec_scan_from(
            text,
            pos,
            ln,
        )[k] is Ok by {
            if k < head.len() {
                assert((head + rest)[k] == head[k]);
            } else {
                assert((head + rest)[k] == rest[k - head.len()]);
            }
        }
    }
}

/// A text whose every line consists of valid Omega lexemes separated by
/// whitespace scans without a single error item.
pub proof fn lemma_well_formed_text_scans_without_errors(text: Seq<char>)
    requires
        text.len() < usize::MAX,
        well_formed_text(text),
    ensures
        forall|k: int|
            0 <= k < spec_scan_text(text).len() ==> #[trigger] spec_scan_text(text)[k] is Ok,
{
    lemma_wf_text_no_errors(text, 0, 1);
}


/// The token items of the whitespace-separated lexemes of the line from
/// position `i` on, in source order.
pub open spec fn spec_lexemes_from(line: Seq<char>, ln: int, i: int) -> Seq<ItemM>
    decreases line.len() + 1 - i,
    via spec_lexemes_from_decreases
{
    if i < 0 || i >= line.len() {
        seq![]
    } else {
        let c = line[i];
        if is_ws_char(c) {
            spec_lexemes_from(line, ln, i + 1)
        } else if c == '"' {
            let q = string_close(line, i + 1);
            seq![tok_m(TokenType::StringLiteral, line.subrange(i + 1, q), ln, i + 2)]
                + spec_lexemes_from(line, ln, q + 1)
        } else if is_digit_char(c) {
            let e = int_end(line, i + 1);
            seq![tok_m(TokenType::IntLiteral, line.subrange(i, e), ln, i + 1)]
                + spec_lexemes_from(line, ln, e)
        } else if is_id_start_char(c) {
            let e = ident_end(line, i + 1);
            seq![tok_m(ident_kind(line.subrange(i, e)), line.subrange(i, e), ln, i + 1)]
                + spec_lexemes_from(line, ln, e)
        } else if starts_pair_punct(c) && i + 1 < line.len() && is_pair_punct(c, line[i + 1]) {
            seq![tok_m(TokenType::Punctuation, line.subrange(i, i + 2), ln, i + 1)]
                + spec_lexemes_from(line, ln, i + 2)
        } else if is_single_punct_char(c) {
            seq![tok_m(TokenType::Punctuation, line.subrange(i, i + 1), ln, i + 1)]
                + spec_lexemes_from(line, ln, i + 1)
        } else {
            seq![]
        }
    }
}

#[via_fn]
proof fn spec_lexemes_from_decreases(line: Seq<char>, ln: int, i: int) {
    if 0 <= i && i < line.len() {
        lemma_string_close_spec(line, i + 1);
        lemma_int_end_spec(line, i + 1);
        lemma_ident_end_spec(line, i + 1);
    }
}

#[verifier::rlimit(60)]
proof fn lemma_wf_exact(line: Seq<char>, ln: int, i: int)
    requires
        0 <= i <= line.len() < usize::MAX,
        spec_run(line, ln, i).0 is NoContext,
        well_formed_from(line, i),
    ensures
        spec_scan_line(line, ln) == spec_run(line, ln, i).1 + spec_lexemes_from(line, ln, i),
    decreases line.len() - i,
{
    let n = line.len() as int;
    let base = spec_run(line, ln, i).1;
    let lex = spec_lexemes_from(line, ln, i);
    if i == n {
        assert(spec_scan_line(line, ln) =~= base + lex);
    } else {
        let c = line[i];
        if is_ws_char(c) {
            assert(spec_run(line, ln, i + 1).1 =~= base);
            lemma_wf_exact(line, ln, i + 1);
        } else if c == '"' {
            let q = string_close(line, i + 1);
            lemma_string_close_spec(line, i + 1);
            lemma_string_stays(line, ln, i, q);
            let tok = tok_m(TokenType::StringLiteral, line.subrange(i + 1, q), ln, i + 2);
            assert(line[q] == '"');
            assert(spec_run(line, ln, q + 1).0 is NoContext);
            assert(spec_run(line, ln, q + 1).1 =~= base.push(tok));
            lemma_wf_exact(line, ln, q + 1);
            assert(base.push(tok) + spec_lexemes_from(line, ln, q + 1) =~= base + lex);
        } else if is_digit_char(c) {
            let e = int_end(line, i + 1);
            lemma_int_end_spec(line, i + 1);
            lemma_int_stays(line, ln, i, e);
            let tok = tok_m(TokenType::IntLiteral, line.subrange(i, e), ln, i + 1);
            if e == n {
                assert(spec_scan_line(line, ln) =~= base.push(tok));
                assert(spec_lexemes_from(line, ln, e) =~= Seq::<ItemM>::empty());
                assert(base.push(tok) =~= base + lex);
            } else {
                assert(is_ws_char(line[e]));
                assert(spec_run(line, ln, e + 1).0 is NoContext);
                assert(spec_run(line, ln, e + 1).1 =~= base.push(tok));
                assert(well_formed_from(line, e));
                assert(well_formed_from(line, e + 1));
                lemma_wf_exact(line, ln, e + 1);
                assert(spec_lexemes_from(line, ln, e) == spec_lexemes_from(line, ln, e + 1));
                assert(base.push(tok) + spec_lexemes_from(line, ln, e + 1) =~= base + lex);
            }
        } else if is_id_start_char(c) {
            let e = ident_end(line, i + 1);
            lemma_ident_end_spec(line, i + 1);
            lemma_ident_stays(line, ln, i, e);
            let lexeme = line.subrange(i, e);
            let tok = tok_m(ident_kind(lexeme), lexeme, ln, i + 1);
            if e == n {
                assert(spec_scan_line(line, ln) =~= base.push(tok));
                assert(spec_lexemes_from(line, ln, e) =~= Seq::<ItemM>::empty());
                assert(base.push(tok) =~= base + lex);
            } else {
                assert(is_ws_char(line[e]));
                assert(spec_run(line, ln, e + 1).0 is NoContext);
                assert(spec_run(line, ln, e + 1).1 =~= base.push(tok));
                assert(well_formed_from(line, e));
                assert(well_formed_from(line, e + 1));
                lemma_wf_exact(line, ln, e + 1);
                assert(spec_lexemes_from(line, ln, e) == spec_lexemes_from(line, ln, e + 1));
                assert(base.push(tok) + spec_lexemes_from(line, ln, e + 1) =~= base + lex);
            }
        } else if starts_pair_punct(c) && i + 1 < n && is_pair_punct(c, line[i + 1]) {
            assert(spec_run(line, ln, i + 1).0 == (ScanState::InPunct { start: i as usize }));
            assert(spec_run(line, ln, i + 1).1 =~= base);
            let tok = tok_m(TokenType::Punctuation, line.subrange(i, i + 2), ln, i + 1);
            assert(spec_run(line, ln, i + 2).0 is NoContext);
            assert(spec_run(line, ln, i + 2).1 =~= base.push(tok));
            lemma_wf_exact(line, ln, i + 2);
            assert(base.push(tok) + spec_lexemes_from(line, ln, i + 2) =~= base + lex);
        } else if is_single_punct_char(c) {
            let tok = tok_m(TokenType::Punctuation, line.subrange(i, i + 1), ln, i + 1);
            if starts_pair_punct(c) {
                assert(spec_run(line, ln, i + 1).0 == (ScanState::InPunct { start: i as usize }));
                assert(spec_run(line, ln, i + 1).1 =~= base);
                if i + 1 == n {
                    assert(spec_scan_line(line, ln) =~= base.push(tok));
                    assert(spec_lexemes_from(line, ln, i + 1) =~= Seq::<ItemM>::empty());
                    assert(base.push(tok) =~= base + lex);
                } else {
                    assert(is_ws_char(line[i + 1]));
                    assert(!is_pair_punct(c, line[i + 1]));
                    assert(spec_run(line, ln, i + 2).0 is NoContext);
                    assert(spec_run(line, ln, i + 2).1 =~= base.push(tok));
                    assert(well_formed_from(line, i + 1));
                    assert(well_formed_from(line, i + 2));
                    lemma_wf_exact(line, ln, i + 2);
                    assert(spec_lexemes_from(line, ln, i + 1) == spec_lexemes_from(
                        line,
                        ln,
                        i + 2,
                    ));
                    assert(base.push(tok) + spec_lexemes_from(line, ln, i + 2) =~= base + lex);
                }
            } else {
                assert(spec_run(line, ln, i + 1).0 is NoContext);
                assert(spec_run(line, ln, i + 1).1 =~= base.push(tok));
                lemma_wf_exact(line, ln, i + 1);
                assert(base.push(tok) + spec_lexemes_from(line, ln, i + 1) =~= base + lex);
            }
        }
    }
}

/// Full round trip on well-formed input: the scan of a line of valid Omega
/// lexemes separated by whitespace is exactly the sequence of those
/// lexemes' tokens, in source order, with no error items among them.
pub proof fn lemma_well_formed_line_scan_is_its_lexemes(line: Seq<char>, ln: int)
    requires
        line.len() < usize::MAX,
        well_formed_line(line),
    ensures
        spec_scan_line(line, ln) == spec_lexemes_from(line, ln, 0),
{
    assert(spec_run(line, ln, 0).1.len() == 0);
    lemma_wf_exact(line, ln, 0);
    assert(spec_run(line, ln, 0).1 + spec_lexemes_from(line, ln, 0) =~= spec_lexemes_from(
        line,
        ln,
        0,
    ));
}

} // verus!
