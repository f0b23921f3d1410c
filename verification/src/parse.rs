//! The document parser: turns schema text back into document values.
//!
//! The grammar is the one the renderer emits, taken permissively: spaces,
//! tabs and carriage returns may pad any token, blank lines are skipped,
//! and integers may carry redundant leading zeros. Structure is strict:
//! every statement is a `key = value` line or a `[key]` section header,
//! and arrays and inline tables close without a trailing separator.
//!
//! Each specification function below returns the parsed piece and the
//! position after it; the executable parser mirrors them one to one.

use vstd::prelude::*;

use crate::document::{
    lemma_pairs_view, lemma_pairs_view_push, lemma_vals_view, lemma_vals_view_push, pairs_view,
    vals_view, DocV, DocValue,
};
use crate::text::chars_to_string;
use crate::text::str_chars;
use crate::{ErrorKind, FeError};

verus! {

/// Whether a character is padding inside a line.
pub open spec fn is_sp(c: char) -> bool {
    c == ' ' || c == '\t' || c == '\r'
}

/// Whether a character is a decimal digit.
pub open spec fn is_digit(c: char) -> bool {
    48 <= c as u32 <= 57
}

/// The value of a decimal digit.
pub open spec fn digit_val(c: char) -> int {
    c as u32 - 48
}

/// The first position at or after `i` that does not hold padding.
pub open spec fn sp(s: Seq<char>, i: int) -> int
    decreases s.len() - i,
{
    if 0 <= i < s.len() && is_sp(s[i]) {
        sp(s, i + 1)
    } else {
        i
    }
}

/// Skipping padding stays inside the text and moves only forward, over
/// padding characters alone, to a position that is the end of the text or
/// holds a non-padding character.
pub proof fn lemma_sp(s: Seq<char>, i: int)
    requires
        0 <= i <= s.len(),
    ensures
        i <= sp(s, i) <= s.len(),
        sp(s, i) < s.len() ==> !is_sp(s[sp(s, i)]),
        forall|t: int| i <= t < sp(s, i) ==> is_sp(#[trigger] s[t]),
    decreases s.len() - i,
{
    if i < s.len() && is_sp(s[i]) {
        lemma_sp(s, i + 1);
    }
}

/// Reads a run of digits, folding them onto `acc`; returns the folded
/// value and the position after the run.
pub open spec fn scan_digits(s: Seq<char>, i: int, acc: int) -> (int, int)
    decreases s.len() - i,
{
    if 0 <= i < s.len() && is_digit(s[i]) {
        scan_digits(s, i + 1, acc * 10 + digit_val(s[i]))
    } else {
        (acc, i)
    }
}

/// A digit run stays inside the text, moves only forward, and its folded
/// value never falls below the accumulator it started from.
pub proof fn lemma_scan_digits(s: Seq<char>, i: int, acc: int)
    requires
        0 <= i <= s.len(),
        0 <= acc,
    ensures
        i <= scan_digits(s, i, acc).1 <= s.len(),
        scan_digits(s, i, acc).0 >= acc,
        scan_digits(s, i, acc).1 < s.len() ==> !is_digit(s[scan_digits(s, i, acc).1]),
    decreases s.len() - i,
{
    if i < s.len() && is_digit(s[i]) {
        lemma_scan_digits(s, i + 1, acc * 10 + digit_val(s[i]));
    }
}

/// Reads an optionally signed integer and checks the 64-bit signed range.
pub open spec fn parse_int(s: Seq<char>, i: int) -> Option<(int, int)> {
    let neg = 0 <= i < s.len() && s[i] == '-';
    let d0 = if neg {
        i + 1
    } else {
        i
    };
    if 0 <= d0 < s.len() && is_digit(s[d0]) {
        let (m, j) = scan_digits(s, d0, 0);
        let v = if neg {
            -m
        } else {
            m
        };
        if i64::MIN <= v <= i64::MAX {
            Option::Some((v, j))
        } else {
            Option::None
        }
    } else {
        Option::None
    }
}

/// Reads the body of a quoted string after its opening quote, unescaping
/// `\"` and `\\`; returns the contents and the position after the closing
/// quote.
pub open spec fn parse_str_body(s: Seq<char>, i: int, acc: Seq<char>) -> Option<(Seq<char>, int)>
    decreases s.len() - i,
{
    if !(0 <= i < s.len()) {
        Option::None
    } else if s[i] == '"' {
        Option::Some((acc, i + 1))
    } else if s[i] == '\\' {
        if i + 1 < s.len() && (s[i + 1] == '"' || s[i + 1] == '\\') {
            parse_str_body(s, i + 2, acc.push(s[i + 1]))
        } else {
            Option::None
        }
    } else {
        parse_str_body(s, i + 1, acc.push(s[i]))
    }
}

/// A parsed string body ends inside the text, after at least one character.
pub proof fn lemma_parse_str_body(s: Seq<char>, i: int, acc: Seq<char>)
    requires
        0 <= i <= s.len(),
        parse_str_body(s, i, acc) is Some,
    ensures
        i < parse_str_body(s, i, acc)->Some_0.1 <= s.len(),
    decreases s.len() - i,
{
    if i < s.len() && s[i] == '"' {
    } else if i < s.len() && s[i] == '\\' {
        lemma_parse_str_body(s, i + 2, acc.push(s[i + 1]));
    } else if i < s.len() {
        lemma_parse_str_body(s, i + 1, acc.push(s[i]));
    }
}

/// The first position at or after `i` that does not hold a bare-key
/// character.
pub open spec fn scan_bare(s: Seq<char>, i: int) -> int
    decreases s.len() - i,
{
    if 0 <= i < s.len() && crate::document::is_bare_char(s[i]) {
        scan_bare(s, i + 1)
    } else {
        i
    }
}

/// A bare-key run stays inside the text and moves only forward, over
/// bare-key characters alone.
pub proof fn lemma_scan_bare(s: Seq<char>, i: int)
    requires
        0 <= i <= s.len(),
    ensures
        i <= scan_bare(s, i) <= s.len(),
        scan_bare(s, i) < s.len() ==> !crate::document::is_bare_char(s[scan_bare(s, i)]),
        forall|t: int| i <= t < scan_bare(s, i) ==> crate::document::is_bare_char(#[trigger] s[t]),
    decreases s.len() - i,
{
    if i < s.len() && crate::document::is_bare_char(s[i]) {
        lemma_scan_bare(s, i + 1);
    }
}

/// Reads a key: quoted like a string, or a nonempty bare run.
pub open spec fn parse_key(s: Seq<char>, i: int) -> Option<(Seq<char>, int)> {
    if !(0 <= i < s.len()) {
        Option::None
    } else if s[i] == '"' {
        parse_str_body(s, i + 1, Seq::empty())
    } else {
        let j = scan_bare(s, i);
        if j > i {
            Option::Some((s.subrange(i, j), j))
        } else {
            Option::None
        }
    }
}

/// Reads one value: a quoted string, an array, an inline table or an
/// integer.
pub open spec fn parse_value(s: Seq<char>, i: int) -> Option<(DocV, int)>
    decreases s.len() - i, 0int,
{
    if !(0 <= i < s.len()) {
        Option::None
    } else if s[i] == '"' {
        match parse_str_body(s, i + 1, Seq::empty()) {
            Option::Some((cs, j)) => Option::Some((DocV::Str(cs), j)),
            Option::None => Option::None,
        }
    } else if s[i] == '[' {
        parse_elems(s, i + 1, Seq::empty())
    } else if s[i] == '{' {
        parse_inline_pairs(s, i + 1, Seq::empty())
    } else {
        match parse_int(s, i) {
            Option::Some((v, j)) => Option::Some((DocV::Int(v), j)),
            Option::None => Option::None,
        }
    }
}

/// Reads the remaining elements of an array, extending `acc`; returns the
/// elements and the position after the closing bracket. The backtracking
/// guards (`j < i` and the like) reject positions that moved backwards;
/// the scanning functions never produce such positions.
pub open spec fn parse_elems(s: Seq<char>, i: int, acc: Seq<DocV>) -> Option<(DocV, int)>
    decreases s.len() - i, 1int,
{
    if !(0 <= i <= s.len()) {
        Option::None
    } else {
        let j = sp(s, i);
        if !(i <= j < s.len()) {
            Option::None
        } else if s[j] == ']' {
            Option::Some((DocV::Arr(acc), j + 1))
        } else {
            match parse_value(s, j) {
                Option::Some((v, m)) => {
                    if !(j < m <= s.len()) {
                        Option::None
                    } else {
                        let n = sp(s, m);
                        if !(m <= n < s.len()) {
                            Option::None
                        } else if s[n] == ',' {
                            parse_elems(s, n + 1, acc.push(v))
                        } else if s[n] == ']' {
                            Option::Some((DocV::Arr(acc.push(v)), n + 1))
                        } else {
                            Option::None
                        }
                    }
                },
                Option::None => Option::None,
            }
        }
    }
}

/// Reads the remaining pairs of an inline table, extending `acc`; returns
/// the pairs and the position after the closing brace.
pub open spec fn parse_inline_pairs(s: Seq<char>, i: int, acc: Seq<(Seq<char>, DocV)>) -> Option<
    (DocV, int),
>
    decreases s.len() - i, 1int,
{
    if !(0 <= i <= s.len()) {
        Option::None
    } else {
        let j = sp(s, i);
        if !(i <= j < s.len()) {
            Option::None
        } else if s[j] == '}' {
            Option::Some((DocV::Table(acc), j + 1))
        } else {
            match parse_key(s, j) {
                Option::Some((key, k)) => {
                    if !(j < k <= s.len()) {
                        Option::None
                    } else {
                        let k2 = sp(s, k);
                        if !(k <= k2 < s.len() && s[k2] == '=') {
                            Option::None
                        } else {
                            let k3 = sp(s, k2 + 1);
                            if !(k2 + 1 <= k3 <= s.len()) {
                                Option::None
                            } else {
                                match parse_value(s, k3) {
                                    Option::Some((v, m)) => {
                                        if !(k2 < m <= s.len()) {
                                            Option::None
                                        } else {
                                            let n = sp(s, m);
                                            if !(m <= n < s.len()) {
                                                Option::None
                                            } else if s[n] == ',' {
                                                parse_inline_pairs(s, n + 1, acc.push((key, v)))
                                            } else if s[n] == '}' {
                                                Option::Some(
                                                    (DocV::Table(acc.push((key, v))), n + 1),
                                                )
                                            } else {
                                                Option::None
                                            }
                                        }
                                    },
                                    Option::None => Option::None,
                                }
                            }
                        }
                    }
                },
                Option::None => Option::None,
            }
        }
    }
}

/// Reads one `key = value` statement and the line break or end of text
/// that closes it; returns the key, the value and the position after the
/// line.
pub open spec fn parse_keyline(s: Seq<char>, i: int) -> Option<(Seq<char>, DocV, int)> {
    match parse_key(s, i) {
        Option::Some((key, k)) => {
            let k2 = sp(s, k);
            if !(0 <= k2 < s.len() && s[k2] == '=') {
                Option::None
            } else {
                match parse_value(s, sp(s, k2 + 1)) {
                    Option::Some((v, m)) => {
                        let n = sp(s, m);
                        if n == s.len() {
                            Option::Some((key, v, n))
                        } else if 0 <= n < s.len() && s[n] == '\n' {
                            Option::Some((key, v, n + 1))
                        } else {
                            Option::None
                        }
                    },
                    Option::None => Option::None,
                }
            }
        },
        Option::None => Option::None,
    }
}

/// Reads top-level statements before the first section, extending `acc`
/// with one pair per `key = value` line; hands over to the sections when a
/// `[` starts one. Returns the finished pair sequence.
pub open spec fn parse_top(s: Seq<char>, i: int, acc: Seq<(Seq<char>, DocV)>) -> Option<
    Seq<(Seq<char>, DocV)>,
>
    decreases s.len() - i, 2int,
{
    if !(0 <= i <= s.len()) {
        Option::None
    } else {
        let j = sp(s, i);
        if !(i <= j <= s.len()) {
            Option::None
        } else if j == s.len() {
            Option::Some(acc)
        } else if s[j] == '\n' {
            parse_top(s, j + 1, acc)
        } else if s[j] == '[' {
            parse_sections(s, j, acc)
        } else {
            match parse_keyline(s, j) {
                Option::Some((key, v, n)) => {
                    if j < n <= s.len() {
                        parse_top(s, n, acc.push((key, v)))
                    } else {
                        Option::None
                    }
                },
                Option::None => Option::None,
            }
        }
    }
}

/// Reads a `[key]` section header and then the section's lines.
pub open spec fn parse_sections(s: Seq<char>, i: int, acc: Seq<(Seq<char>, DocV)>) -> Option<
    Seq<(Seq<char>, DocV)>,
>
    decreases s.len() - i, 0int,
{
    if !(0 <= i < s.len() && s[i] == '[') {
        Option::None
    } else {
        match parse_key(s, sp(s, i + 1)) {
            Option::Some((name, k)) => {
                let k2 = sp(s, k);
                if !(0 <= k2 < s.len() && s[k2] == ']') {
                    Option::None
                } else {
                    let k3 = sp(s, k2 + 1);
                    if k3 == s.len() {
                        Option::Some(acc.push((name, DocV::Table(Seq::empty()))))
                    } else if 0 <= k3 < s.len() && s[k3] == '\n' {
                        if i < k3 + 1 {
                            parse_section_lines(s, k3 + 1, name, Seq::empty(), acc)
                        } else {
                            Option::None
                        }
                    } else {
                        Option::None
                    }
                }
            },
            Option::None => Option::None,
        }
    }
}

/// Reads the `key = value` lines of the section called `name`, extending
/// `ps`; flushes the finished section into `acc` at the end of the text or
/// when the next section starts.
pub open spec fn parse_section_lines(
    s: Seq<char>,
    i: int,
    name: Seq<char>,
    ps: Seq<(Seq<char>, DocV)>,
    acc: Seq<(Seq<char>, DocV)>,
) -> Option<Seq<(Seq<char>, DocV)>>
    decreases s.len() - i, 1int,
{
    if !(0 <= i <= s.len()) {
        Option::None
    } else {
        let j = sp(s, i);
        if !(i <= j <= s.len()) {
            Option::None
        } else if j == s.len() {
            Option::Some(acc.push((name, DocV::Table(ps))))
        } else if s[j] == '\n' {
            parse_section_lines(s, j + 1, name, ps, acc)
        } else if s[j] == '[' {
            parse_sections(s, j, acc.push((name, DocV::Table(ps))))
        } else {
            match parse_keyline(s, j) {
                Option::Some((key, v, n)) => {
                    if j < n <= s.len() {
                        parse_section_lines(s, n, name, ps.push((key, v)), acc)
                    } else {
                        Option::None
                    }
                },
                Option::None => Option::None,
            }
        }
    }
}

/// Reads a whole document: a top-level table of lines and sections.
pub open spec fn parse_document_chars(s: Seq<char>) -> Option<DocV> {
    match parse_top(s, 0, Seq::empty()) {
        Option::Some(ps) => Option::Some(DocV::Table(ps)),
        Option::None => Option::None,
    }
}

/// Skips padding characters (executable form).
fn sp_exec(s: &Vec<char>, i: usize) -> (r: usize)
    requires
        i <= s@.len(),
    ensures
        r == sp(s@, i as int),
        i <= r <= s@.len(),
{
    let mut j = i;
    while j < s.len() && (s[j] == ' ' || s[j] == '\t' || s[j] == '\r')
        invariant
            i <= j <= s@.len(),
            sp(s@, i as int) == sp(s@, j as int),
        decreases s@.len() - j,
    {
        j = j + 1;
    }
    j
}

/// Reads an optionally signed integer (executable form).
fn parse_int_exec(s: &Vec<char>, i: usize) -> (r: Option<(i64, usize)>)
    requires
        i <= s@.len(),
    ensures
        match r {
            Option::Some((v, p)) => parse_int(s@, i as int) == Option::Some((v as int, p as int))
                && i < p <= s@.len(),
            Option::None => parse_int(s@, i as int) is None,
        },
{
    let len = s.len();
    let neg = i < len && s[i] == '-';
    let d0 = if neg {
        i + 1
    } else {
        i
    };
    if d0 >= len {
        return Option::None;
    }
    let c0 = s[d0] as u32;
    if !(48 <= c0 && c0 <= 57) {
        return Option::None;
    }
    let mut j = d0;
    let mut m: u64 = 0;
    loop
        invariant_except_break
            d0 <= j <= len,
            len == s@.len(),
            i <= d0 < len,
            neg == (0 <= i < s@.len() && s@[i as int] == '-'),
            d0 == if neg {
                i + 1
            } else {
                i as int
            },
            is_digit(s@[d0 as int]),
            scan_digits(s@, d0 as int, 0) == scan_digits(s@, j as int, m as int),
        ensures
            d0 <= j <= len,
            scan_digits(s@, d0 as int, 0) == (m as int, j as int),
        decreases len - j,
    {
        if j >= len {
            break ;
        }
        let c = s[j] as u32;
        if !(48 <= c && c <= 57) {
            break ;
        }
        let d: u64 = (c - 48) as u64;
        let wide: u128 = (m as u128) * 10 + (d as u128);
        if wide > u64::MAX as u128 {
            proof {
                assert(scan_digits(s@, j as int, m as int) == scan_digits(
                    s@,
                    j + 1,
                    m as int * 10 + digit_val(s@[j as int]),
                ));
                lemma_scan_digits(s@, j + 1, m as int * 10 + digit_val(s@[j as int]));
                assert(scan_digits(s@, d0 as int, 0).0 > u64::MAX);
                assert(parse_int(s@, i as int) is None);
            }
            return Option::None;
        }
        m = wide as u64;
        j = j + 1;
    }
    proof {
        assert(0 <= d0 < s@.len());
        assert(is_digit(s@[d0 as int]));
        assert(scan_digits(s@, d0 as int, 0) == (m as int, j as int));
        assert(scan_digits(s@, d0 as int, 0) == scan_digits(s@, d0 + 1, digit_val(s@[d0 as int])));
        lemma_scan_digits(s@, d0 + 1, digit_val(s@[d0 as int]));
        assert(i < j);
    }
    if neg {
        if m > 9223372036854775808u64 {
            proof {
                assert(parse_int(s@, i as int) is None);
            }
            return Option::None;
        }
        let v: i64 = if m == 9223372036854775808u64 {
            i64::MIN
        } else {
            -(m as i64)
        };
        proof {
            assert(v as int == -(m as int));
            assert(parse_int(s@, i as int) == Option::Some((-(m as int), j as int)));
        }
        Option::Some((v, j))
    } else {
        if m > i64::MAX as u64 {
            proof {
                assert(parse_int(s@, i as int) is None);
            }
            return Option::None;
        }
        proof {
            assert(parse_int(s@, i as int) == Option::Some((m as int, j as int)));
        }
        Option::Some((m as i64, j))
    }
}

/// Reads a quoted string body after its opening quote (executable form).
fn parse_str_body_exec(s: &Vec<char>, i: usize) -> (r: Option<(Vec<char>, usize)>)
    requires
        i <= s@.len(),
    ensures
        match r {
            Option::Some((cs, p)) => parse_str_body(s@, i as int, Seq::empty()) == Option::Some(
                (cs@, p as int),
            ) && i < p <= s@.len(),
            Option::None => parse_str_body(s@, i as int, Seq::empty()) is None,
        },
{
    let mut acc: Vec<char> = Vec::new();
    let mut j = i;
    loop
        invariant
            i <= j <= s@.len(),
            parse_str_body(s@, i as int, Seq::empty()) == parse_str_body(s@, j as int, acc@),
        decreases s@.len() - j,
    {
        if j >= s.len() {
            return Option::None;
        }
        let c = s[j];
        if c == '"' {
            return Option::Some((acc, j + 1));
        }
        if c == '\\' {
            if j + 1 < s.len() {
                let e = s[j + 1];
                if e == '"' || e == '\\' {
                    acc.push(e);
                    j = j + 2;
                } else {
                    return Option::None;
                }
            } else {
                return Option::None;
            }
        } else {
            acc.push(c);
            j = j + 1;
        }
    }
}

/// Whether a character may stand in an unquoted key (executable form).
fn is_bare_char_exec(c: char) -> (r: bool)
    ensures
        r == crate::document::is_bare_char(c),
{
    let u = c as u32;
    (97 <= u && u <= 122) || (65 <= u && u <= 90) || (48 <= u && u <= 57) || c == '_' || c == '-'
}

/// Reads a key (executable form).
fn parse_key_exec(s: &Vec<char>, i: usize) -> (r: Option<(Vec<char>, usize)>)
    requires
        i <= s@.len(),
    ensures
        match r {
            Option::Some((k, p)) => parse_key(s@, i as int) == Option::Some((k@, p as int)) && i
                < p <= s@.len(),
            Option::None => parse_key(s@, i as int) is None,
        },
{
    if i >= s.len() {
        return Option::None;
    }
    if s[i] == '"' {
        return parse_str_body_exec(s, i + 1);
    }
    let mut j = i;
    while j < s.len() && is_bare_char_exec(s[j])
        invariant
            i <= j <= s@.len(),
            scan_bare(s@, i as int) == scan_bare(s@, j as int),
        decreases s@.len() - j,
    {
        j = j + 1;
    }
    if j == i {
        return Option::None;
    }
    let mut k: Vec<char> = Vec::new();
    let mut t = i;
    while t < j
        invariant
            i <= t <= j <= s@.len(),
            k@ == s@.subrange(i as int, t as int),
        decreases j - t,
    {
        k.push(s[t]);
        t = t + 1;
        proof {
            assert(k@ =~= s@.subrange(i as int, t as int));
        }
    }
    Option::Some((k, j))
}

/// Reads one value (executable form).
fn parse_value_exec(s: &Vec<char>, i: usize) -> (r: Option<(DocValue, usize)>)
    requires
        i <= s@.len(),
    ensures
        match r {
            Option::Some((v, p)) => parse_value(s@, i as int) == Option::Some((v@, p as int)) && i
                < p <= s@.len(),
            Option::None => parse_value(s@, i as int) is None,
        },
    decreases s@.len() - i, 0int,
{
    if i >= s.len() {
        return Option::None;
    }
    let c = s[i];
    if c == '"' {
        match parse_str_body_exec(s, i + 1) {
            Option::Some((cs, p)) => {
                let st = chars_to_string(&cs);
                Option::Some((DocValue::Str(st), p))
            },
            Option::None => Option::None,
        }
    } else if c == '[' {
        proof {
            assert(vals_view(Seq::<DocValue>::empty()) == Seq::<DocV>::empty());
        }
        match parse_elems_exec(s, i + 1, Vec::new()) {
            Option::Some((es, p)) => Option::Some((DocValue::Arr(es), p)),
            Option::None => Option::None,
        }
    } else if c == '{' {
        proof {
            assert(pairs_view(Seq::<(String, DocValue)>::empty()) == Seq::<
                (Seq<char>, DocV),
            >::empty());
        }
        match parse_inline_pairs_exec(s, i + 1, Vec::new()) {
            Option::Some((ps, p)) => Option::Some((DocValue::Table(ps), p)),
            Option::None => Option::None,
        }
    } else {
        match parse_int_exec(s, i) {
            Option::Some((v, p)) => Option::Some((DocValue::Int(v), p)),
            Option::None => Option::None,
        }
    }
}

/// Reads the remaining elements of an array (executable form).
fn parse_elems_exec(s: &Vec<char>, i: usize, acc: Vec<DocValue>) -> (r: Option<
    (Vec<DocValue>, usize),
>)
    requires
        i <= s@.len(),
    ensures
        match r {
            Option::Some((es, p)) => parse_elems(s@, i as int, vals_view(acc@)) == Option::Some(
                (DocV::Arr(vals_view(es@)), p as int),
            ) && i < p <= s@.len(),
            Option::None => parse_elems(s@, i as int, vals_view(acc@)) is None,
        },
    decreases s@.len() - i, 1int,
{
    let ghost acc0 = acc@;
    let j = sp_exec(s, i);
    if j >= s.len() {
        return Option::None;
    }
    if s[j] == ']' {
        return Option::Some((acc, j + 1));
    }
    match parse_value_exec(s, j) {
        Option::Some((v, m)) => {
            let n = sp_exec(s, m);
            if n >= s.len() {
                return Option::None;
            }
            if s[n] == ',' {
                let ghost vg = v@;
                let mut acc2 = acc;
                acc2.push(v);
                proof {
                    lemma_vals_view_push(acc0, acc2@[acc0.len() as int]);
                    assert(vals_view(acc2@) == vals_view(acc0).push(vg));
                }
                parse_elems_exec(s, n + 1, acc2)
            } else if s[n] == ']' {
                let ghost vg = v@;
                let mut acc2 = acc;
                acc2.push(v);
                proof {
                    lemma_vals_view_push(acc0, acc2@[acc0.len() as int]);
                    assert(vals_view(acc2@) == vals_view(acc0).push(vg));
                }
                Option::Some((acc2, n + 1))
            } else {
                Option::None
            }
        },
        Option::None => Option::None,
    }
}

/// Reads the remaining pairs of an inline table (executable form).
fn parse_inline_pairs_exec(s: &Vec<char>, i: usize, acc: Vec<(String, DocValue)>) -> (r: Option<
    (Vec<(String, DocValue)>, usize),
>)
    requires
        i <= s@.len(),
    ensures
        match r {
            Option::Some((ps, p)) => parse_inline_pairs(s@, i as int, pairs_view(acc@))
                == Option::Some((DocV::Table(pairs_view(ps@)), p as int)) && i < p <= s@.len(),
            Option::None => parse_inline_pairs(s@, i as int, pairs_view(acc@)) is None,
        },
    decreases s@.len() - i, 1int,
{
    let ghost acc0 = acc@;
    let j = sp_exec(s, i);
    if j >= s.len() {
        return Option::None;
    }
    if s[j] == '}' {
        return Option::Some((acc, j + 1));
    }
    match parse_key_exec(s, j) {
        Option::Some((key, k)) => {
            let k2 = sp_exec(s, k);
            if !(k2 < s.len()) {
                return Option::None;
            }
            if !(s[k2] == '=') {
                return Option::None;
            }
            let k3 = sp_exec(s, k2 + 1);
            match parse_value_exec(s, k3) {
                Option::Some((v, m)) => {
                    let n = sp_exec(s, m);
                    if n >= s.len() {
                        return Option::None;
                    }
                    if s[n] == ',' || s[n] == '}' {
                        let comma = s[n] == ',';
                        let ghost kg = key@;
                        let ghost vg = v@;
                        let ks = chars_to_string(&key);
                        let mut acc2 = acc;
                        acc2.push((ks, v));
                        proof {
                            lemma_pairs_view_push(
                                acc0,
                                acc2@[acc0.len() as int].0,
                                acc2@[acc0.len() as int].1,
                            );
                            assert(pairs_view(acc2@) == pairs_view(acc0).push((kg, vg)));
                        }
                        if comma {
                            parse_inline_pairs_exec(s, n + 1, acc2)
                        } else {
                            Option::Some((acc2, n + 1))
                        }
                    } else {
                        Option::None
                    }
                },
                Option::None => Option::None,
            }
        },
        Option::None => Option::None,
    }
}

/// Reads one `key = value` statement and its line end (executable form).
fn parse_keyline_exec(s: &Vec<char>, i: usize) -> (r: Option<(String, DocValue, usize)>)
    requires
        i <= s@.len(),
    ensures
        match r {
            Option::Some((key, v, p)) => parse_keyline(s@, i as int) == Option::Some(
                (key@, v@, p as int),
            ) && i < p <= s@.len(),
            Option::None => parse_keyline(s@, i as int) is None,
        },
{
    match parse_key_exec(s, i) {
        Option::Some((key, k)) => {
            let k2 = sp_exec(s, k);
            if !(k2 < s.len()) {
                return Option::None;
            }
            if !(s[k2] == '=') {
                return Option::None;
            }
            let k3 = sp_exec(s, k2 + 1);
            match parse_value_exec(s, k3) {
                Option::Some((v, m)) => {
                    let n = sp_exec(s, m);
                    let ks = chars_to_string(&key);
                    if n == s.len() {
                        Option::Some((ks, v, n))
                    } else if s[n] == '\n' {
                        Option::Some((ks, v, n + 1))
                    } else {
                        Option::None
                    }
                },
                Option::None => Option::None,
            }
        },
        Option::None => Option::None,
    }
}

/// Reads top-level statements before the first section (executable form).
fn parse_top_exec(s: &Vec<char>, i: usize, acc: Vec<(String, DocValue)>) -> (r: Option<
    Vec<(String, DocValue)>,
>)
    requires
        i <= s@.len(),
    ensures
        match r {
            Option::Some(ps) => parse_top(s@, i as int, pairs_view(acc@)) == Option::Some(
                pairs_view(ps@),
            ),
            Option::None => parse_top(s@, i as int, pairs_view(acc@)) is None,
        },
    decreases s@.len() - i, 2int,
{
    let ghost acc0 = acc@;
    let j = sp_exec(s, i);
    if j == s.len() {
        return Option::Some(acc);
    }
    if s[j] == '\n' {
        return parse_top_exec(s, j + 1, acc);
    }
    if s[j] == '[' {
        return parse_sections_exec(s, j, acc);
    }
    match parse_keyline_exec(s, j) {
        Option::Some((key, v, n)) => {
            let ghost kg = key@;
            let ghost vg = v@;
            let mut acc2 = acc;
            acc2.push((key, v));
            proof {
                lemma_pairs_view_push(acc0, acc2@[acc0.len() as int].0, acc2@[acc0.len() as int].1);
                assert(pairs_view(acc2@) == pairs_view(acc0).push((kg, vg)));
            }
            parse_top_exec(s, n, acc2)
        },
        Option::None => Option::None,
    }
}

/// Reads a `[key]` section header and the section's lines (executable
/// form).
fn parse_sections_exec(s: &Vec<char>, i: usize, acc: Vec<(String, DocValue)>) -> (r: Option<
    Vec<(String, DocValue)>,
>)
    requires
        i < s@.len(),
        s@[i as int] == '[',
    ensures
        match r {
            Option::Some(ps) => parse_sections(s@, i as int, pairs_view(acc@)) == Option::Some(
                pairs_view(ps@),
            ),
            Option::None => parse_sections(s@, i as int, pairs_view(acc@)) is None,
        },
    decreases s@.len() - i, 0int,
{
    let ghost acc0 = acc@;
    let len = s.len();
    let h = sp_exec(s, i + 1);
    match parse_key_exec(s, h) {
        Option::Some((name, k)) => {
            let k2 = sp_exec(s, k);
            if !(k2 < s.len()) {
                return Option::None;
            }
            if !(s[k2] == ']') {
                return Option::None;
            }
            let k3 = sp_exec(s, k2 + 1);
            let ghost ng = name@;
            let ns = chars_to_string(&name);
            if k3 == s.len() {
                let mut acc2 = acc;
                acc2.push((ns, DocValue::Table(Vec::new())));
                proof {
                    lemma_pairs_view_push(
                        acc0,
                        acc2@[acc0.len() as int].0,
                        acc2@[acc0.len() as int].1,
                    );
                    assert(pairs_view(Seq::<(String, DocValue)>::empty()) == Seq::<
                        (Seq<char>, DocV),
                    >::empty());
                    assert(pairs_view(acc2@) == pairs_view(acc0).push(
                        (ng, DocV::Table(Seq::empty())),
                    ));
                }
                return Option::Some(acc2);
            }
            if s[k3] == '\n' {
                proof {
                    assert(pairs_view(Seq::<(String, DocValue)>::empty()) == Seq::<
                        (Seq<char>, DocV),
                    >::empty());
                }
                parse_section_lines_exec(s, k3 + 1, ns, Vec::new(), acc)
            } else {
                Option::None
            }
        },
        Option::None => Option::None,
    }
}

/// Reads the lines of one section (executable form).
fn parse_section_lines_exec(
    s: &Vec<char>,
    i: usize,
    name: String,
    ps: Vec<(String, DocValue)>,
    acc: Vec<(String, DocValue)>,
) -> (r: Option<Vec<(String, DocValue)>>)
    requires
        i <= s@.len(),
    ensures
        match r {
            Option::Some(out) => parse_section_lines(
                s@,
                i as int,
                name@,
                pairs_view(ps@),
                pairs_view(acc@),
            ) == Option::Some(pairs_view(out@)),
            Option::None => parse_section_lines(
                s@,
                i as int,
                name@,
                pairs_view(ps@),
                pairs_view(acc@),
            ) is None,
        },
    decreases s@.len() - i, 1int,
{
    let ghost ps0 = ps@;
    let ghost acc0 = acc@;
    let j = sp_exec(s, i);
    if j == s.len() {
        let ghost ng = name@;
        let mut acc2 = acc;
        acc2.push((name, DocValue::Table(ps)));
        proof {
            lemma_pairs_view_push(acc0, acc2@[acc0.len() as int].0, acc2@[acc0.len() as int].1);
            assert(pairs_view(acc2@) == pairs_view(acc0).push((ng, DocV::Table(pairs_view(ps0)))));
        }
        return Option::Some(acc2);
    }
    if s[j] == '\n' {
        return parse_section_lines_exec(s, j + 1, name, ps, acc);
    }
    if s[j] == '[' {
        let ghost ng = name@;
        let mut acc2 = acc;
        acc2.push((name, DocValue::Table(ps)));
        proof {
            lemma_pairs_view_push(acc0, acc2@[acc0.len() as int].0, acc2@[acc0.len() as int].1);
            assert(pairs_view(acc2@) == pairs_view(acc0).push((ng, DocV::Table(pairs_view(ps0)))));
        }
        return parse_sections_exec(s, j, acc2);
    }
    match parse_keyline_exec(s, j) {
        Option::Some((key, v, n)) => {
            let ghost kg = key@;
            let ghost vg = v@;
            let mut ps2 = ps;
            ps2.push((key, v));
            proof {
                lemma_pairs_view_push(ps0, ps2@[ps0.len() as int].0, ps2@[ps0.len() as int].1);
                assert(pairs_view(ps2@) == pairs_view(ps0).push((kg, vg)));
            }
            parse_section_lines_exec(s, n, name, ps2, acc)
        },
        Option::None => Option::None,
    }
}

/// Parses schema text into a document value. Returns the parsed document
/// exactly when the text is grammatical, and a parse error otherwise.
pub fn parse_document_text(text: &str) -> (r: Result<DocValue, FeError>)
    ensures
        match r {
            Result::Ok(d) => parse_document_chars(text@) == Option::Some(d@),
            Result::Err(e) => parse_document_chars(text@) is None && e.kind == ErrorKind::Parse,
        },
{
    let cs = str_chars(text);
    proof {
        assert(pairs_view(Seq::<(String, DocValue)>::empty()) == Seq::<(Seq<char>, DocV)>::empty());
    }
    match parse_top_exec(&cs, 0, Vec::new()) {
        Option::Some(ps) => Result::Ok(DocValue::Table(ps)),
        Option::None => Result::Err(
            FeError { kind: ErrorKind::Parse, msg: "malformed document text".to_owned() },
        ),
    }
}

} // verus!
