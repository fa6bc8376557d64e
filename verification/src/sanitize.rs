//! Escape sequences and control characters: what counts as one, and how
//! a line is rid of them.

use vstd::prelude::*;
use crate::strings::{chars_of, push_char};

verus! {

/// The escape character that opens a control sequence.
pub const ESC: char = '\u{1B}';

/// A control code: U+0000..=U+001F or U+007F..=U+009F.
pub open spec fn is_control(c: char) -> bool {
    c as u32 <= 0x1F || (0x7F <= c as u32 && c as u32 <= 0x9F)
}

/// What sanitization keeps: everything but control codes, and the tab.
pub open spec fn survives(c: char) -> bool {
    !is_control(c) || c == '\t'
}

/// `line` without its control characters, the tab excepted.
pub open spec fn sanitized(line: Seq<char>) -> Seq<char> {
    line.filter(|c: char| survives(c))
}

/// An ASCII digit.
pub open spec fn is_digit(c: char) -> bool {
    '0' <= c && c <= '9'
}

/// The characters that may close a control sequence.
pub open spec fn is_final(c: char) -> bool {
    c == 'm' || c == 'K'
}

/// Whether a digit stands at index `j` of `s`.
pub open spec fn digit_at(s: Seq<char>, j: int) -> bool {
    0 <= j < s.len() && is_digit(s[j])
}

/// The length of the run of digits that starts at `j`, counted up to 3.
pub open spec fn group_len(s: Seq<char>, j: int) -> int {
    if !digit_at(s, j) {
        0
    } else if !digit_at(s, j + 1) {
        1
    } else if !digit_at(s, j + 2) {
        2
    } else {
        3
    }
}

/// Where the parameter list that starts at `j` ends: groups of one or two
/// digits with a semicolon between each two. `None` where no such list
/// starts at `j`.
pub open spec fn params_end(s: Seq<char>, j: int) -> Option<int>
    decreases s.len() - j,
{
    let n = group_len(s, j);
    if n == 0 || n == 3 {
        None
    } else if j + n < s.len() && s[j + n] == ';' {
        params_end(s, j + n + 1)
    } else {
        Some(j + n)
    }
}

/// Where the control sequence that starts at `i` ends, if one starts
/// there: the escape character, `[`, an optional parameter list, and a
/// final `m` or `K`.
pub open spec fn csi_end(s: Seq<char>, i: int) -> Option<int> {
    if 0 <= i && i + 2 < s.len() && s[i] == ESC && s[i + 1] == '[' {
        let body = if is_digit(s[i + 2]) {
            params_end(s, i + 2)
        } else {
            Some(i + 2)
        };
        match body {
            Some(k) => if k < s.len() && is_final(s[k]) {
                Some(k + 1)
            } else {
                None
            },
            None => None,
        }
    } else {
        None
    }
}

/// `s[i..]` without its control sequences, read from left to right.
pub open spec fn stripped_from(s: Seq<char>, i: int) -> Seq<char>
    decreases s.len() - i,
    via stripped_from_decreases
{
    if i < 0 || i >= s.len() {
        Seq::empty()
    } else {
        match csi_end(s, i) {
            Some(e) => stripped_from(s, e),
            None => seq![s[i]] + stripped_from(s, i + 1),
        }
    }
}

#[via_fn]
proof fn stripped_from_decreases(s: Seq<char>, i: int) {
    if 0 <= i < s.len() {
        lemma_csi_end_bounds(s, i);
    }
}

/// `line` without its control sequences.
pub open spec fn stripped(line: Seq<char>) -> Seq<char> {
    stripped_from(line, 0)
}

/// A parameter list ends after where it starts, inside the text.
pub proof fn lemma_params_end_bounds(s: Seq<char>, j: int)
    requires
        0 <= j,
    ensures
        params_end(s, j) matches Some(k) ==> j < k <= s.len(),
    decreases s.len() - j,
{
    let n = group_len(s, j);
    if n == 1 || n == 2 {
        if j + n < s.len() && s[j + n] == ';' {
            lemma_params_end_bounds(s, j + n + 1);
        }
    }
}

/// A control sequence has at least three characters and ends inside the
/// text.
pub proof fn lemma_csi_end_bounds(s: Seq<char>, i: int)
    ensures
        csi_end(s, i) matches Some(e) ==> 0 <= i && i + 3 <= e <= s.len(),
{
    if 0 <= i && i + 2 < s.len() {
        lemma_params_end_bounds(s, i + 2);
    }
}

/// Sanitizing twice is sanitizing once.
pub proof fn lemma_sanitized_idempotent(line: Seq<char>)
    ensures
        sanitized(sanitized(line)) == sanitized(line),
    decreases line.len(),
{
    let pred = |c: char| survives(c);
    if line.len() == 0 {
        reveal(Seq::filter);
    } else {
        let rest = line.drop_last();
        let c = line.last();
        assert(line == rest.push(c));
        lemma_sanitized_idempotent(rest);
        rest.lemma_filter_push(c, pred);
        if survives(c) {
            rest.filter(pred).lemma_filter_push(c, pred);
        }
    }
}

/// Sanitizing leaves no control character but the tab.
pub proof fn lemma_sanitized_is_clean(line: Seq<char>)
    ensures
        forall|i: int| 0 <= i < sanitized(line).len() ==> survives(#[trigger] sanitized(line)[i]),
{
    let pred = |c: char| survives(c);
    assert forall|i: int| 0 <= i < sanitized(line).len() implies survives(
        #[trigger] sanitized(line)[i],
    ) by {
        line.lemma_filter_pred(pred, i);
    }
}

/// A line without control characters, the tab aside, is its own
/// sanitized form.
pub proof fn lemma_sanitized_of_clean(line: Seq<char>)
    requires
        forall|i: int| 0 <= i < line.len() ==> survives(#[trigger] line[i]),
    ensures
        sanitized(line) == line,
    decreases line.len(),
{
    let pred = |c: char| survives(c);
    if line.len() == 0 {
        reveal(Seq::filter);
    } else {
        let rest = line.drop_last();
        let c = line.last();
        assert(line == rest.push(c));
        assert forall|i: int| 0 <= i < rest.len() implies survives(#[trigger] rest[i]) by {
            assert(rest[i] == line[i]);
        }
        lemma_sanitized_of_clean(rest);
        rest.lemma_filter_push(c, pred);
    }
}

/// Where no control sequence starts at or after `i`, stripping keeps
/// `s[i..]` as it is.
pub proof fn lemma_stripped_without_sequences(s: Seq<char>, i: int)
    requires
        0 <= i <= s.len(),
        forall|k: int| i <= k < s.len() ==> csi_end(s, k) is None,
    ensures
        stripped_from(s, i) == s.subrange(i, s.len() as int),
    decreases s.len() - i,
{
    if i < s.len() {
        lemma_stripped_without_sequences(s, i + 1);
        assert(seq![s[i]] + s.subrange(i + 1, s.len() as int) == s.subrange(i, s.len() as int));
    }
}

/// No control sequence starts where the escape character does not stand.
pub proof fn lemma_sequence_starts_with_escape(s: Seq<char>, i: int)
    ensures
        csi_end(s, i) is Some ==> 0 <= i < s.len() && s[i] == ESC,
{
}

/// Whether `c` is a control code.
pub fn is_control_char(c: char) -> (r: bool)
    ensures
        r == is_control(c),
{
    let n: u32 = c as u32;
    n <= 0x1F || (0x7F <= n && n <= 0x9F)
}

/// Removes every control character from `line`, except the tab.
pub fn sanitize(line: &str) -> (out: String)
    ensures
        out@ == sanitized(line@),
{
    let chars = chars_of(line);
    let mut out = String::new();
    let ghost pred = |c: char| survives(c);
    let mut i: usize = 0;
    proof {
        reveal(Seq::filter);
        assert(chars@.take(0).filter(pred) == Seq::<char>::empty());
    }
    while i < chars.len()
        invariant
            i <= chars.len(),
            chars@ == line@,
            pred == (|c: char| survives(c)),
            out@ == chars@.take(i as int).filter(pred),
        decreases chars.len() - i,
    {
        let c = chars[i];
        proof {
            assert(chars@.take(i + 1) == chars@.take(i as int).push(c));
            chars@.take(i as int).lemma_filter_push(c, pred);
        }
        if !is_control_char(c) || c == '\t' {
            push_char(&mut out, c);
        }
        i += 1;
    }
    assert(chars@.take(i as int) == chars@);
    out
}

fn is_digit_at(s: &Vec<char>, j: usize) -> (r: bool)
    ensures
        r == digit_at(s@, j as int),
{
    j < s.len() && '0' <= s[j] && s[j] <= '9'
}

/// The end of the parameter list that starts at `j`, if one does.
fn scan_params(s: &Vec<char>, j: usize) -> (r: Option<usize>)
    requires
        j <= s.len(),
    ensures
        r matches Some(k) ==> params_end(s@, j as int) == Some(k as int),
        r is None ==> params_end(s@, j as int) is None,
{
    let mut at: usize = j;
    loop
        invariant
            j <= at <= s.len(),
            params_end(s@, at as int) == params_end(s@, j as int),
        decreases s.len() - at,
    {
        if !is_digit_at(s, at) {
            return None;
        }
        let n: usize = if !is_digit_at(s, at + 1) {
            1
        } else if !is_digit_at(s, at + 2) {
            2
        } else {
            return None;
        };
        if at + n < s.len() && s[at + n] == ';' {
            at = at + n + 1;
        } else {
            return Some(at + n);
        }
    }
}

/// The end of the control sequence that starts at `i`, if one does.
pub fn scan_csi(s: &Vec<char>, i: usize) -> (r: Option<usize>)
    ensures
        r matches Some(e) ==> csi_end(s@, i as int) == Some(e as int),
        r is None ==> csi_end(s@, i as int) is None,
{
    if i >= s.len() || s.len() - i < 3 || s[i] != ESC || s[i + 1] != '[' {
        return None;
    }
    let body = if is_digit_at(s, i + 2) {
        scan_params(s, i + 2)
    } else {
        Some(i + 2)
    };
    match body {
        Some(k) => {
            proof {
                lemma_params_end_bounds(s@, i + 2);
            }
            if k < s.len() && (s[k] == 'm' || s[k] == 'K') {
                Some(k + 1)
            } else {
                None
            }
        },
        None => None,
    }
}

/// Removes every control sequence from `line`.
pub fn strip_ansi_sequences(line: &str) -> (out: String)
    ensures
        out@ == stripped(line@),
{
    let chars = chars_of(line);
    let mut out = String::new();
    let mut i: usize = 0;
    while i < chars.len()
        invariant
            i <= chars.len(),
            chars@ == line@,
            out@ + stripped_from(chars@, i as int) == stripped(chars@),
        decreases chars.len() - i,
    {
        match scan_csi(&chars, i) {
            Some(e) => {
                proof {
                    lemma_csi_end_bounds(chars@, i as int);
                }
                i = e;
            },
            None => {
                let ghost before = out@;
                push_char(&mut out, chars[i]);
                proof {
                    let rest = stripped_from(chars@, i + 1);
                    assert(before.push(chars@[i as int]) + rest == before + (seq![
                        chars@[i as int],
                    ] + rest));
                }
                i += 1;
            },
        }
    }
    assert(out@ + Seq::<char>::empty() == out@);
    out
}

} // verus!
