//! The codec round trip: parsing the renderer's output yields the
//! document that was rendered, for every well-formed document
//! (`lemma_parse_render_round_trip`). The lemmas below walk the grammar
//! bottom-up: digits, strings, keys, values, lines, sections, documents.

use vstd::prelude::*;

use crate::document::{
    bare_key_ok, is_bare_char, render_elems, render_inline_pairs, render_key, render_line,
    render_section_body, render_top_pair, render_top_pairs, render_value, DocV,
};
use crate::parse::{
    is_digit, is_sp, parse_int, parse_str_body, scan_bare, scan_digits, sp,
};
use crate::text::{dec_digits, dec_int_digits, digit_char, escape_char, escape_seq};

verus! {

/// Ten to the power of the digit count of `n`.
pub open spec fn pow_len(n: nat) -> int
    decreases n,
{
    if n < 10 {
        10
    } else {
        pow_len(n / 10) * 10
    }
}

/// The rendered digits of a number have at least one character, and the
/// digit count grows with the number.
proof fn lemma_dec_digits_len(n: nat)
    ensures
        dec_digits(n).len() >= 1,
        pow_len(n) >= 10,
    decreases n,
{
    if n >= 10 {
        lemma_dec_digits_len(n / 10);
    }
}

/// A digit character is a digit and its value is the digit.
proof fn lemma_digit_char(d: int)
    requires
        0 <= d < 10,
    ensures
        is_digit(digit_char(d)),
        crate::parse::digit_val(digit_char(d)) == d,
{
}

/// Scanning a rendered digit run folds the number onto the accumulator
/// and continues after the run.
proof fn lemma_scan_dec(s: Seq<char>, i: int, n: nat, acc: int)
    requires
        0 <= i,
        i + dec_digits(n).len() <= s.len(),
        s.subrange(i, i + dec_digits(n).len()) == dec_digits(n),
        0 <= acc,
    ensures
        scan_digits(s, i, acc) == scan_digits(
            s,
            i + dec_digits(n).len(),
            acc * pow_len(n) + n,
        ),
    decreases n,
{
    lemma_dec_digits_len(n);
    let d = dec_digits(n);
    let l = d.len() as int;
    if n < 10 {
        assert(d == seq![digit_char(n as int)]);
        assert(s[i] == d[0]);
        lemma_digit_char(n as int);
        assert(scan_digits(s, i, acc) == scan_digits(s, i + 1, acc * 10 + n));
    } else {
        let dp = dec_digits(n / 10);
        let lp = dp.len() as int;
        assert(d == dp.push(digit_char((n % 10) as int)));
        assert(s.subrange(i, i + lp) =~= dp) by {
            assert forall|t: int| 0 <= t < lp implies s.subrange(i, i + lp)[t] == dp[t] by {
                assert(s.subrange(i, i + l)[t] == d[t]);
                assert(d[t] == dp[t]);
            }
        }
        lemma_scan_dec(s, i, n / 10, acc);
        let acc2 = acc * pow_len(n / 10) + n / 10;
        assert(s[i + lp] == d[l - 1]) by {
            assert(s.subrange(i, i + l)[l - 1] == d[l - 1]);
        }
        lemma_digit_char((n % 10) as int);
        assert(is_digit(s[i + lp]));
        assert(scan_digits(s, i + lp, acc2) == scan_digits(
            s,
            i + l,
            acc2 * 10 + (n % 10),
        ));
        assert(acc2 * 10 + n % 10 == acc * pow_len(n) + n) by (nonlinear_arith)
            requires
                acc2 == acc * pow_len(n / 10) + n / 10,
                pow_len(n) == pow_len(n / 10) * 10,
                n == (n / 10) * 10 + n % 10,
                n >= 10,
        ;
    }
}

/// The first character of a rendered digit run is a digit, and no
/// character of one is anything but a digit.
proof fn lemma_dec_digits_chars(n: nat)
    ensures
        forall|t: int| 0 <= t < dec_digits(n).len() ==> is_digit(#[trigger] dec_digits(n)[t]),
    decreases n,
{
    lemma_digit_char((n % 10) as int);
    if n < 10 {
        lemma_digit_char(n as int);
    } else {
        lemma_dec_digits_chars(n / 10);
        let d = dec_digits(n);
        let dp = dec_digits(n / 10);
        assert forall|t: int| 0 <= t < d.len() implies is_digit(#[trigger] d[t]) by {
            if t < dp.len() {
                assert(d[t] == dp[t]);
            }
        }
    }
}

/// Parsing a rendered integer yields that integer and stops after it,
/// provided no digit follows the rendering.
pub proof fn lemma_parse_int_render(s: Seq<char>, i: int, v: int)
    requires
        0 <= i,
        i + dec_int_digits(v).len() <= s.len(),
        s.subrange(i, i + dec_int_digits(v).len()) == dec_int_digits(v),
        i64::MIN <= v <= i64::MAX,
        i + dec_int_digits(v).len() == s.len() || !is_digit(s[i + dec_int_digits(v).len()]),
    ensures
        parse_int(s, i) == Option::Some((v, i + dec_int_digits(v).len())),
{
    let f = dec_int_digits(v);
    let l = f.len() as int;
    if v < 0 {
        let n = (-v) as nat;
        let d = dec_digits(n);
        lemma_dec_digits_len(n);
        assert(f == seq!['-'] + d);
        assert(s[i] == f[0]) by {
            assert(s.subrange(i, i + l)[0] == f[0]);
        }
        assert(s[i] == '-');
        assert(s.subrange(i + 1, i + 1 + d.len()) =~= d) by {
            assert forall|t: int| 0 <= t < d.len() implies s.subrange(
                i + 1,
                i + 1 + d.len(),
            )[t] == d[t] by {
                assert(s.subrange(i, i + l)[t + 1] == f[t + 1]);
                assert(f[t + 1] == d[t]);
            }
        }
        assert(s[i + 1] == d[0]) by {
            assert(s.subrange(i + 1, i + 1 + d.len())[0] == d[0]);
        }
        lemma_dec_digits_chars(n);
        assert(is_digit(s[i + 1]));
        lemma_scan_dec(s, i + 1, n, 0);
        assert(scan_digits(s, i + l, 0 * pow_len(n) + n) == (n as int, i + l)) by {
            assert(i + l == s.len() || !is_digit(s[i + l]));
        }
        assert(scan_digits(s, i + 1, 0) == (n as int, i + l));
    } else {
        let n = v as nat;
        let d = dec_digits(n);
        lemma_dec_digits_len(n);
        assert(s.subrange(i, i + d.len()) == d);
        assert(s[i] == d[0]) by {
            assert(s.subrange(i, i + l)[0] == f[0]);
        }
        lemma_dec_digits_chars(n);
        assert(is_digit(s[i]));
        assert(s[i] != '-') by {
            assert(is_digit(s[i]));
        }
        lemma_scan_dec(s, i, n, 0);
        assert(scan_digits(s, i + l, 0 * pow_len(n) + n) == (n as int, i + l)) by {
            assert(i + l == s.len() || !is_digit(s[i + l]));
        }
        assert(scan_digits(s, i, 0) == (n as int, i + l));
    }
}

/// Parsing a rendered, escaped string body and its closing quote yields
/// the original contents appended to the accumulator.
pub proof fn lemma_parse_str_render(s: Seq<char>, i: int, content: Seq<char>, acc: Seq<char>)
    requires
        0 <= i,
        i + escape_seq(content).len() + 1 <= s.len(),
        s.subrange(i, i + escape_seq(content).len() + 1) == escape_seq(content) + seq!['"'],
    ensures
        parse_str_body(s, i, acc) == Option::Some(
            (acc + content, i + escape_seq(content).len() + 1),
        ),
    decreases content.len(),
{
    let e = escape_seq(content);
    let l = e.len() as int;
    let frag = e + seq!['"'];
    if content.len() == 0 {
        assert(s[i] == frag[0]) by {
            assert(s.subrange(i, i + l + 1)[0] == frag[0]);
        }
        assert(s[i] == '"');
        assert(acc + content =~= acc);
    } else {
        let c = content[0];
        let rest = content.drop_first();
        let er = escape_seq(rest);
        assert(e == escape_char(c) + er);
        let step = escape_char(c).len() as int;
        assert(s.subrange(i + step, i + step + er.len() + 1) =~= er + seq!['"']) by {
            assert forall|t: int| 0 <= t < er.len() + 1 implies s.subrange(
                i + step,
                i + step + er.len() + 1,
            )[t] == (er + seq!['"'])[t] by {
                assert(s.subrange(i, i + l + 1)[t + step] == frag[t + step]);
                assert(frag[t + step] == (er + seq!['"'])[t]);
            }
        }
        if c == '"' || c == '\\' {
            assert(escape_char(c) == seq!['\\', c]);
            assert(s[i] == frag[0] && s[i + 1] == frag[1]) by {
                assert(s.subrange(i, i + l + 1)[0] == frag[0]);
                assert(s.subrange(i, i + l + 1)[1] == frag[1]);
            }
            assert(s[i] == '\\' && s[i + 1] == c);
            lemma_parse_str_render(s, i + 2, rest, acc.push(c));
            assert(acc.push(c) + rest =~= acc + content);
        } else {
            assert(escape_char(c) == seq![c]);
            assert(s[i] == frag[0]) by {
                assert(s.subrange(i, i + l + 1)[0] == frag[0]);
            }
            assert(s[i] == c);
            lemma_parse_str_render(s, i + 1, rest, acc.push(c));
            assert(acc.push(c) + rest =~= acc + content);
        }
    }
}

/// A run of bare-key characters scans to its end.
proof fn lemma_scan_bare_run(s: Seq<char>, i: int, j: int)
    requires
        0 <= i <= j <= s.len(),
        forall|t: int| i <= t < j ==> is_bare_char(#[trigger] s[t]),
        j == s.len() || !is_bare_char(s[j]),
    ensures
        scan_bare(s, i) == j,
    decreases j - i,
{
    if i < j {
        lemma_scan_bare_run(s, i + 1, j);
    }
}

/// Parsing a rendered key yields that key and stops after it, provided no
/// bare-key character follows the rendering.
pub proof fn lemma_parse_key_render(s: Seq<char>, i: int, k: Seq<char>)
    requires
        0 <= i,
        i + render_key(k).len() <= s.len(),
        s.subrange(i, i + render_key(k).len()) == render_key(k),
        i + render_key(k).len() == s.len() || !is_bare_char(s[i + render_key(k).len()]),
    ensures
        crate::parse::parse_key(s, i) == Option::Some((k, i + render_key(k).len())),
{
    let f = render_key(k);
    let l = f.len() as int;
    if bare_key_ok(k) {
        assert(f == k);
        assert forall|t: int| i <= t < i + l implies is_bare_char(#[trigger] s[t]) by {
            assert(s.subrange(i, i + l)[t - i] == k[t - i]);
        }
        assert(s[i] == k[0]) by {
            assert(s.subrange(i, i + l)[0] == k[0]);
        }
        assert(s[i] != '"') by {
            assert(is_bare_char(s[i]));
        }
        lemma_scan_bare_run(s, i, i + l);
        assert(s.subrange(i, scan_bare(s, i)) == k);
    } else {
        assert(f == seq!['"'] + escape_seq(k) + seq!['"']);
        assert(s[i] == f[0]) by {
            assert(s.subrange(i, i + l)[0] == f[0]);
        }
        assert(s[i] == '"');
        let e = escape_seq(k);
        assert(s.subrange(i + 1, i + 1 + e.len() + 1) =~= e + seq!['"']) by {
            assert forall|t: int| 0 <= t < e.len() + 1 implies s.subrange(
                i + 1,
                i + 1 + e.len() + 1,
            )[t] == (e + seq!['"'])[t] by {
                assert(s.subrange(i, i + l)[t + 1] == f[t + 1]);
                assert(f[t + 1] == (e + seq!['"'])[t]);
            }
        }
        lemma_parse_str_render(s, i + 1, k, Seq::empty());
        assert(Seq::<char>::empty() + k =~= k);
    }
}

/// A slice of a matched fragment matches the fragment's slice.
proof fn lemma_sub_extract(s: Seq<char>, i: int, frag: Seq<char>, a: int, b: int)
    requires
        0 <= i,
        i + frag.len() <= s.len(),
        s.subrange(i, i + frag.len()) == frag,
        0 <= a <= b <= frag.len(),
    ensures
        s.subrange(i + a, i + b) == frag.subrange(a, b),
{
    assert forall|t: int| 0 <= t < b - a implies s.subrange(i + a, i + b)[t] == frag.subrange(
        a,
        b,
    )[t] by {
        assert(s.subrange(i, i + frag.len())[a + t] == frag[a + t]);
    }
    assert(s.subrange(i + a, i + b) =~= frag.subrange(a, b));
}

/// A character of a matched fragment is the fragment's character.
proof fn lemma_sub_char(s: Seq<char>, i: int, frag: Seq<char>, a: int)
    requires
        0 <= i,
        i + frag.len() <= s.len(),
        s.subrange(i, i + frag.len()) == frag,
        0 <= a < frag.len(),
    ensures
        s[i + a] == frag[a],
{
    assert(s.subrange(i, i + frag.len())[a] == frag[a]);
}

/// A rendered value is nonempty and opens with a digit, a sign, a quote,
/// a bracket or a brace; so its first character is no padding, no line
/// break and no closing delimiter.
proof fn lemma_render_value_first(v: DocV)
    ensures
        render_value(v).len() >= 1,
        ({
            let c = render_value(v)[0];
            &&& (is_digit(c) || c == '-' || c == '"' || c == '[' || c == '{')
            &&& (v is Int ==> is_digit(c) || c == '-')
            &&& (v is Str ==> c == '"')
            &&& (v is Arr ==> c == '[')
            &&& (v is Table ==> c == '{')
            &&& !is_sp(c)
            &&& c != '\n'
            &&& c != ']'
            &&& c != '}'
            &&& c != ','
            &&& c != '='
        }),
{
    match v {
        DocV::Int(n) => {
            if n < 0 {
                lemma_dec_digits_len((-n) as nat);
                assert(render_value(v)[0] == '-');
            } else {
                lemma_dec_digits_len(n as nat);
                lemma_dec_digits_chars(n as nat);
                assert(is_digit(render_value(v)[0])) by {
                    assert(render_value(v)[0] == dec_digits(n as nat)[0]);
                }
            }
        },
        DocV::Str(_) => {
            assert(render_value(v)[0] == '"');
        },
        DocV::Arr(_) => {
            assert(render_value(v)[0] == '[');
        },
        DocV::Table(_) => {
            assert(render_value(v)[0] == '{');
        },
    }
}

/// A rendered key is nonempty and opens with a bare-key character or a
/// quote; so its first character is no padding, no line break, no bracket
/// and no equals sign.
proof fn lemma_render_key_first(k: Seq<char>)
    ensures
        render_key(k).len() >= 1,
        ({
            let c = render_key(k)[0];
            &&& (is_bare_char(c) || c == '"')
            &&& !is_sp(c)
            &&& c != '\n'
            &&& c != '['
            &&& c != ']'
            &&& c != '='
        }),
{
    if bare_key_ok(k) {
        assert(is_bare_char(render_key(k)[0]));
    } else {
        assert(render_key(k)[0] == '"');
    }
}

/// Parsing a rendered value yields that value and stops after it,
/// provided no digit follows the rendering.
pub proof fn lemma_parse_value_render(s: Seq<char>, i: int, v: DocV)
    requires
        crate::document::wf_value(v),
        0 <= i,
        i + render_value(v).len() <= s.len(),
        s.subrange(i, i + render_value(v).len()) == render_value(v),
        i + render_value(v).len() == s.len() || !is_digit(s[i + render_value(v).len()]),
    ensures
        crate::parse::parse_value(s, i) == Option::Some((v, i + render_value(v).len())),
    decreases v, 2int,
{
    let f = render_value(v);
    let l = f.len() as int;
    lemma_render_value_first(v);
    lemma_sub_char(s, i, f, 0);
    match v {
        DocV::Int(n) => {
            assert(is_digit(s[i]) || s[i] == '-');
            assert(s[i] != '"' && s[i] != '[' && s[i] != '{');
            lemma_parse_int_render(s, i, n);
        },
        DocV::Str(c) => {
            assert(s[i] == '"');
            let e = escape_seq(c);
            assert(f == seq!['"'] + e + seq!['"']);
            assert(s.subrange(i + 1, i + 1 + e.len() + 1) == (e + seq!['"'])) by {
                lemma_sub_extract(s, i, f, 1, l);
                assert(f.subrange(1, l) =~= e + seq!['"']);
            }
            lemma_parse_str_render(s, i + 1, c, Seq::empty());
            assert(Seq::<char>::empty() + c =~= c);
        },
        DocV::Arr(es) => {
            assert(s[i] == '[' && s[i] != '"');
            let inner = render_elems(es) + seq![']'];
            assert(s.subrange(i + 1, i + 1 + inner.len()) == inner) by {
                lemma_sub_extract(s, i, f, 1, l);
                assert(f.subrange(1, l) =~= inner);
            }
            assert(sp(s, i + 1) == i + 1) by {
                lemma_sub_char(s, i + 1, inner, 0);
                if es.len() == 0 {
                    assert(s[i + 1] == ']');
                } else {
                    lemma_render_value_first(es[0]);
                    assert(inner[0] == render_value(es[0])[0]) by {
                        if es.len() == 1 {
                        } else {
                        }
                    }
                }
            }
            lemma_parse_elems_render(s, i + 1, es, Seq::empty());
            assert(Seq::<DocV>::empty() + es =~= es);
        },
        DocV::Table(ps) => {
            assert(s[i] == '{' && s[i] != '"' && s[i] != '[');
            let inner = render_inline_pairs(ps) + seq!['}'];
            assert(s.subrange(i + 1, i + 1 + inner.len()) == inner) by {
                lemma_sub_extract(s, i, f, 1, l);
                assert(f.subrange(1, l) =~= inner);
            }
            assert(sp(s, i + 1) == i + 1) by {
                lemma_sub_char(s, i + 1, inner, 0);
                if ps.len() == 0 {
                    assert(s[i + 1] == '}');
                } else {
                    lemma_render_key_first(ps[0].0);
                    assert(inner[0] == render_key(ps[0].0)[0]) by {
                        if ps.len() == 1 {
                        } else {
                        }
                    }
                }
            }
            lemma_parse_inline_pairs_render(s, i + 1, ps, Seq::empty());
            assert(Seq::<(Seq<char>, DocV)>::empty() + ps =~= ps);
        },
    }
}

/// Parsing rendered array elements followed by the closing bracket yields
/// the elements appended to the accumulator, starting from any position
/// whose padding ends where the rendering starts.
proof fn lemma_parse_elems_render(s: Seq<char>, i: int, es: Seq<DocV>, acc: Seq<DocV>)
    requires
        crate::document::wf_elems(es),
        0 <= i <= s.len(),
        sp(s, i) + render_elems(es).len() + 1 <= s.len(),
        s.subrange(sp(s, i), sp(s, i) + render_elems(es).len() + 1) == (render_elems(es)
            + seq![']']),
    ensures
        crate::parse::parse_elems(s, i, acc) == Option::Some(
            (DocV::Arr(acc + es), sp(s, i) + render_elems(es).len() + 1),
        ),
    decreases es, 1int,
{
    crate::parse::lemma_sp(s, i);
    let j = sp(s, i);
    let frag = render_elems(es) + seq![']'];
    let fl = frag.len() as int;
    if es.len() == 0 {
        lemma_sub_char(s, j, frag, 0);
        assert(s[j] == ']');
        assert(acc + es =~= acc);
    } else {
        let v0 = es[0];
        let rv = render_value(v0);
        let lv = rv.len() as int;
        lemma_render_value_first(v0);
        assert(frag[0] == rv[0]) by {
            if es.len() == 1 {
            } else {
            }
        }
        lemma_sub_char(s, j, frag, 0);
        assert(s[j] != ']');
        if es.len() == 1 {
            assert(render_elems(es) == rv);
            assert(s.subrange(j, j + lv) == rv) by {
                lemma_sub_extract(s, j, frag, 0, lv);
                assert(frag.subrange(0, lv) =~= rv);
            }
            lemma_sub_char(s, j, frag, lv);
            assert(s[j + lv] == ']');
            lemma_parse_value_render(s, j, v0);
            assert(sp(s, j + lv) == j + lv) by {
                assert(!is_sp(']'));
            }
            assert(acc + es =~= acc.push(v0));
        } else {
            let rest = es.drop_first();
            let rr = render_elems(rest);
            assert(render_elems(es) == rv + seq![',', ' '] + rr);
            assert(s.subrange(j, j + lv) == rv) by {
                lemma_sub_extract(s, j, frag, 0, lv);
                assert(frag.subrange(0, lv) =~= rv);
            }
            lemma_sub_char(s, j, frag, lv);
            assert(s[j + lv] == ',');
            lemma_sub_char(s, j, frag, lv + 1);
            assert(s[j + lv + 1] == ' ');
            lemma_parse_value_render(s, j, v0);
            let m = j + lv;
            assert(sp(s, m) == m) by {
                assert(!is_sp(','));
            }
            assert(s.subrange(m + 2, m + 2 + rr.len() + 1) == (rr + seq![']'])) by {
                lemma_sub_extract(s, j, frag, lv + 2, fl);
                assert(frag.subrange(lv + 2, fl) =~= rr + seq![']']);
            }
            assert(sp(s, m + 1) == m + 2) by {
                assert(is_sp(' '));
                lemma_render_value_first(rest[0]);
                lemma_sub_char(s, m + 2, rr + seq![']'], 0);
                assert((rr + seq![']'])[0] == render_value(rest[0])[0]) by {
                    if rest.len() == 1 {
                    } else {
                    }
                }
                assert(!is_sp(s[m + 2]));
                assert(sp(s, m + 1) == sp(s, m + 2));
                assert(sp(s, m + 2) == m + 2);
            }
            lemma_parse_elems_render(s, m + 1, rest, acc.push(v0));
            assert(acc.push(v0) + rest =~= acc + es);
        }
    }
}

/// Parsing rendered inline-table pairs followed by the closing brace
/// yields the pairs appended to the accumulator, starting from any
/// position whose padding ends where the rendering starts.
proof fn lemma_parse_inline_pairs_render(
    s: Seq<char>,
    i: int,
    ps: Seq<(Seq<char>, DocV)>,
    acc: Seq<(Seq<char>, DocV)>,
)
    requires
        crate::document::wf_pairs(ps),
        0 <= i <= s.len(),
        sp(s, i) + render_inline_pairs(ps).len() + 1 <= s.len(),
        s.subrange(sp(s, i), sp(s, i) + render_inline_pairs(ps).len() + 1) == (render_inline_pairs(
            ps,
        ) + seq!['}']),
    ensures
        crate::parse::parse_inline_pairs(s, i, acc) == Option::Some(
            (DocV::Table(acc + ps), sp(s, i) + render_inline_pairs(ps).len() + 1),
        ),
    decreases ps, 1int,
{
    crate::parse::lemma_sp(s, i);
    let j = sp(s, i);
    let frag = render_inline_pairs(ps) + seq!['}'];
    let fl = frag.len() as int;
    if ps.len() == 0 {
        lemma_sub_char(s, j, frag, 0);
        assert(s[j] == '}');
        assert(acc + ps =~= acc);
    } else {
        let (k0, v0) = (ps[0].0, ps[0].1);
        let rk = render_key(k0);
        let lk = rk.len() as int;
        let rv = render_value(v0);
        let lv = rv.len() as int;
        let pair = rk + seq![' ', '=', ' '] + rv;
        let pl = pair.len() as int;
        lemma_render_key_first(k0);
        lemma_render_value_first(v0);
        assert(frag[0] == rk[0]) by {
            if ps.len() == 1 {
            } else {
            }
        }
        lemma_sub_char(s, j, frag, 0);
        assert(s[j] != '}');
        // The pair's fragment, character by character.
        assert(render_inline_pairs(ps) == (if ps.len() == 1 {
            pair
        } else {
            pair + seq![',', ' '] + render_inline_pairs(ps.drop_first())
        }));
        assert(s.subrange(j, j + lk) == rk) by {
            lemma_sub_extract(s, j, frag, 0, lk);
            assert(frag.subrange(0, lk) =~= rk);
        }
        lemma_sub_char(s, j, frag, lk);
        lemma_sub_char(s, j, frag, lk + 1);
        lemma_sub_char(s, j, frag, lk + 2);
        assert(s[j + lk] == ' ' && s[j + lk + 1] == '=' && s[j + lk + 2] == ' ');
        assert(crate::parse::parse_key(s, j) == Option::Some((k0, j + lk))) by {
            lemma_parse_key_render(s, j, k0);
        }
        assert(sp(s, j + lk) == j + lk + 1) by {
            assert(is_sp(' ') && !is_sp('='));
            assert(sp(s, j + lk) == sp(s, j + lk + 1));
            assert(sp(s, j + lk + 1) == j + lk + 1);
        }
        assert(s.subrange(j + lk + 3, j + lk + 3 + lv) == rv) by {
            lemma_sub_extract(s, j, frag, lk + 3, lk + 3 + lv);
            assert(frag.subrange(lk + 3, lk + 3 + lv) =~= rv);
        }
        assert(sp(s, j + lk + 2) == j + lk + 3) by {
            assert(is_sp(' '));
            lemma_sub_char(s, j + lk + 3, rv, 0);
            assert(!is_sp(s[j + lk + 3]));
            assert(sp(s, j + lk + 2) == sp(s, j + lk + 3));
            assert(sp(s, j + lk + 3) == j + lk + 3);
        }
        let m = j + lk + 3 + lv;
        lemma_sub_char(s, j, frag, pl);
        if ps.len() == 1 {
            assert(s[m] == '}');
            lemma_parse_value_render(s, j + lk + 3, v0);
            assert(sp(s, m) == m) by {
                assert(!is_sp('}'));
            }
            assert(acc + ps =~= acc.push((k0, v0)));
        } else {
            let rest = ps.drop_first();
            let rr = render_inline_pairs(rest);
            assert(s[m] == ',');
            lemma_sub_char(s, j, frag, pl + 1);
            assert(s[m + 1] == ' ');
            lemma_parse_value_render(s, j + lk + 3, v0);
            assert(sp(s, m) == m) by {
                assert(!is_sp(','));
            }
            assert(s.subrange(m + 2, m + 2 + rr.len() + 1) == (rr + seq!['}'])) by {
                lemma_sub_extract(s, j, frag, pl + 2, fl);
                assert(frag.subrange(pl + 2, fl) =~= rr + seq!['}']);
            }
            assert(sp(s, m + 1) == m + 2) by {
                assert(is_sp(' '));
                lemma_render_key_first(rest[0].0);
                lemma_sub_char(s, m + 2, rr + seq!['}'], 0);
                assert((rr + seq!['}'])[0] == render_key(rest[0].0)[0]) by {
                    if rest.len() == 1 {
                    } else {
                    }
                }
                assert(!is_sp(s[m + 2]));
                assert(sp(s, m + 1) == sp(s, m + 2));
                assert(sp(s, m + 2) == m + 2);
            }
            lemma_parse_inline_pairs_render(s, m + 1, rest, acc.push((k0, v0)));
            assert(acc.push((k0, v0)) + rest =~= acc + ps);
        }
    }
}

/// Parsing a rendered `key = value` line yields the key, the value and
/// the position after the line break.
proof fn lemma_parse_keyline_render(s: Seq<char>, i: int, k: Seq<char>, v: DocV)
    requires
        crate::document::wf_value(v),
        0 <= i,
        i + render_line(k, v).len() <= s.len(),
        s.subrange(i, i + render_line(k, v).len()) == render_line(k, v),
    ensures
        crate::parse::parse_keyline(s, i) == Option::Some((k, v, i + render_line(k, v).len())),
{
    let rk = render_key(k);
    let lk = rk.len() as int;
    let rv = render_value(v);
    let lv = rv.len() as int;
    let frag = render_line(k, v);
    let fl = frag.len() as int;
    lemma_render_key_first(k);
    lemma_render_value_first(v);
    assert(s.subrange(i, i + lk) == rk) by {
        lemma_sub_extract(s, i, frag, 0, lk);
        assert(frag.subrange(0, lk) =~= rk);
    }
    lemma_sub_char(s, i, frag, lk);
    lemma_sub_char(s, i, frag, lk + 1);
    lemma_sub_char(s, i, frag, lk + 2);
    assert(s[i + lk] == ' ' && s[i + lk + 1] == '=' && s[i + lk + 2] == ' ');
    assert(crate::parse::parse_key(s, i) == Option::Some((k, i + lk))) by {
        assert(!is_bare_char(' '));
        lemma_parse_key_render(s, i, k);
    }
    assert(sp(s, i + lk) == i + lk + 1) by {
        assert(is_sp(' ') && !is_sp('='));
        assert(sp(s, i + lk) == sp(s, i + lk + 1));
        assert(sp(s, i + lk + 1) == i + lk + 1);
    }
    assert(s.subrange(i + lk + 3, i + lk + 3 + lv) == rv) by {
        lemma_sub_extract(s, i, frag, lk + 3, lk + 3 + lv);
        assert(frag.subrange(lk + 3, lk + 3 + lv) =~= rv);
    }
    assert(sp(s, i + lk + 2) == i + lk + 3) by {
        assert(is_sp(' '));
        lemma_sub_char(s, i + lk + 3, rv, 0);
        assert(!is_sp(s[i + lk + 3]));
        assert(sp(s, i + lk + 2) == sp(s, i + lk + 3));
        assert(sp(s, i + lk + 3) == i + lk + 3);
    }
    let m = i + lk + 3 + lv;
    lemma_sub_char(s, i, frag, fl - 1);
    assert(s[m] == '\n');
    lemma_parse_value_render(s, i + lk + 3, v);
    assert(sp(s, m) == m) by {
        assert(!is_sp('\n'));
    }
}

/// Whether every table-valued pair comes after every plain pair.
pub open spec fn sections_last(ps: Seq<(Seq<char>, DocV)>) -> bool {
    forall|a: int, b: int|
        0 <= a < b < ps.len() && (#[trigger] ps[a]).1 is Table ==> (#[trigger] ps[b]).1 is Table
}

/// Parsing the rendered top-level pairs from the end of the padding to
/// the end of the text yields the pairs appended to the accumulator.
proof fn lemma_parse_top_render(
    s: Seq<char>,
    i: int,
    ps: Seq<(Seq<char>, DocV)>,
    acc: Seq<(Seq<char>, DocV)>,
)
    requires
        crate::document::wf_pairs(ps),
        sections_last(ps),
        0 <= i <= s.len(),
        s.subrange(sp(s, i), s.len() as int) == render_top_pairs(ps),
    ensures
        crate::parse::parse_top(s, i, acc) == Option::Some(acc + ps),
    decreases ps.len(), 2int, 0int,
{
    crate::parse::lemma_sp(s, i);
    let j = sp(s, i);
    let frag = render_top_pairs(ps);
    let fl = frag.len() as int;
    assert(fl == s.len() - j);
    if ps.len() == 0 {
        assert(j == s.len());
        assert(acc + ps =~= acc);
    } else {
        let (k0, v0) = (ps[0].0, ps[0].1);
        lemma_render_key_first(k0);
        if v0 is Table {
            assert(forall|b: int| 0 <= b < ps.len() ==> (#[trigger] ps[b]).1 is Table) by {
                assert forall|b: int| 0 <= b < ps.len() implies (#[trigger] ps[b]).1 is Table by {
                    if b > 0 {
                        assert(ps[0].1 is Table);
                    }
                }
            }
            assert(frag[0] == '[') by {
                assert(render_top_pair(k0, v0)[0] == '[');
            }
            lemma_sub_char(s, j, frag, 0);
            assert(s[j] == '[' && s[j] != '\n');
            lemma_parse_sections_render(s, j, ps, acc);
        } else {
            let line = render_line(k0, v0);
            let ll = line.len() as int;
            assert(frag == render_top_pair(k0, v0) + render_top_pairs(ps.drop_first()));
            assert(render_top_pair(k0, v0) == line);
            assert(frag[0] == render_key(k0)[0]);
            lemma_sub_char(s, j, frag, 0);
            assert(s[j] != '\n' && s[j] != '[');
            assert(s.subrange(j, j + ll) == line) by {
                lemma_sub_extract(s, j, frag, 0, ll);
                assert(frag.subrange(0, ll) =~= line);
            }
            lemma_parse_keyline_render(s, j, k0, v0);
            let n = j + ll;
            let rest = ps.drop_first();
            assert(s.subrange(n, s.len() as int) == render_top_pairs(rest)) by {
                lemma_sub_extract(s, j, frag, ll, fl);
                assert(frag.subrange(ll, fl) =~= render_top_pairs(rest));
            }
            assert(sp(s, n) == n) by {
                if rest.len() == 0 {
                    assert(n == s.len());
                } else {
                    lemma_render_key_first(rest[0].0);
                    lemma_sub_char(s, n, render_top_pairs(rest), 0);
                    assert(render_top_pairs(rest)[0] == render_top_pair(
                        rest[0].0,
                        rest[0].1,
                    )[0]);
                    if rest[0].1 is Table {
                        assert(render_top_pair(rest[0].0, rest[0].1)[0] == '[');
                        assert(!is_sp('['));
                    } else {
                        assert(render_top_pair(rest[0].0, rest[0].1)[0] == render_key(
                            rest[0].0,
                        )[0]);
                    }
                    assert(!is_sp(s[n]));
                }
            }
            assert(sections_last(rest)) by {
                assert forall|a: int, b: int|
                    0 <= a < b < rest.len() && (#[trigger] rest[a]).1 is Table implies (
                #[trigger] rest[b]).1 is Table by {
                    assert(rest[a] == ps[a + 1] && rest[b] == ps[b + 1]);
                }
            }
            lemma_parse_top_render(s, n, rest, acc.push((k0, v0)));
            assert(acc.push((k0, v0)) + rest =~= acc + ps);
        }
    }
}

/// Parsing rendered sections yields one table-valued pair per section,
/// appended to the accumulator.
proof fn lemma_parse_sections_render(
    s: Seq<char>,
    i: int,
    ps: Seq<(Seq<char>, DocV)>,
    acc: Seq<(Seq<char>, DocV)>,
)
    requires
        crate::document::wf_pairs(ps),
        ps.len() >= 1,
        forall|b: int| 0 <= b < ps.len() ==> (#[trigger] ps[b]).1 is Table,
        0 <= i < s.len(),
        s[i] == '[',
        s.subrange(i, s.len() as int) == render_top_pairs(ps),
    ensures
        crate::parse::parse_sections(s, i, acc) == Option::Some(acc + ps),
    decreases ps.len(), 1int, 0int,
{
    let (k0, v0) = (ps[0].0, ps[0].1);
    let sps = v0->Table_0;
    let rk = render_key(k0);
    let lk = rk.len() as int;
    let head = seq!['['] + rk + seq![']', '\n'];
    let hl = head.len() as int;
    let frag = render_top_pairs(ps);
    let fl = frag.len() as int;
    lemma_render_key_first(k0);
    assert(render_top_pair(k0, v0) == head + render_section_body(sps));
    assert(frag == render_top_pair(k0, v0) + render_top_pairs(ps.drop_first()));
    assert(s.subrange(i + 1, i + 1 + lk) == rk) by {
        lemma_sub_extract(s, i, frag, 1, 1 + lk);
        assert(frag.subrange(1, 1 + lk) =~= rk);
    }
    lemma_sub_char(s, i, frag, 1 + lk);
    lemma_sub_char(s, i, frag, 2 + lk);
    assert(s[i + 1 + lk] == ']' && s[i + 2 + lk] == '\n');
    assert(sp(s, i + 1) == i + 1) by {
        lemma_sub_char(s, i + 1, rk, 0);
        assert(!is_sp(s[i + 1]));
    }
    assert(crate::parse::parse_key(s, i + 1) == Option::Some((k0, i + 1 + lk))) by {
        assert(!is_bare_char(']'));
        lemma_parse_key_render(s, i + 1, k0);
    }
    assert(sp(s, i + 1 + lk) == i + 1 + lk) by {
        assert(!is_sp(']'));
    }
    assert(sp(s, i + 2 + lk) == i + 2 + lk) by {
        assert(!is_sp('\n'));
    }
    assert(i + 2 + lk < s.len());
    let body = i + 3 + lk;
    assert(s.subrange(body, s.len() as int) == render_section_body(sps) + render_top_pairs(
        ps.drop_first(),
    )) by {
        lemma_sub_extract(s, i, frag, hl, fl);
        assert(frag.subrange(hl, fl) =~= render_section_body(sps) + render_top_pairs(
            ps.drop_first(),
        ));
    }
    assert(crate::document::wf_pairs(sps)) by {
        assert(crate::document::wf_value(v0));
    }
    assert(sp(s, body) == body) by {
        let tail = render_section_body(sps) + render_top_pairs(ps.drop_first());
        if sps.len() == 0 && ps.drop_first().len() == 0 {
            assert(tail.len() == 0);
            assert(body == s.len());
        } else {
            lemma_sub_char(s, body, tail, 0);
            if sps.len() > 0 {
                lemma_render_key_first(sps[0].0);
                assert(tail[0] == render_key(sps[0].0)[0]) by {
                    assert(render_section_body(sps)[0] == render_line(sps[0].0, sps[0].1)[0]);
                }
            } else {
                assert(tail[0] == '[') by {
                    let rest = ps.drop_first();
                    assert(rest[0].1 is Table);
                    assert(render_top_pairs(rest)[0] == render_top_pair(rest[0].0, rest[0].1)[0]);
                }
                assert(!is_sp('['));
            }
            assert(!is_sp(s[body]));
        }
    }
    lemma_parse_section_lines_render(s, body, k0, sps, Seq::empty(), ps.drop_first(), acc);
    assert(Seq::<(Seq<char>, DocV)>::empty() + sps =~= sps);
    assert(v0 == DocV::Table(sps));
    assert(acc.push((k0, v0)) + ps.drop_first() =~= acc + ps);
}

/// Parsing the rendered remaining lines of one section, then the
/// rendered remaining sections, closes the section as one table-valued
/// pair and continues.
proof fn lemma_parse_section_lines_render(
    s: Seq<char>,
    i: int,
    name: Seq<char>,
    sps: Seq<(Seq<char>, DocV)>,
    done: Seq<(Seq<char>, DocV)>,
    rest: Seq<(Seq<char>, DocV)>,
    acc: Seq<(Seq<char>, DocV)>,
)
    requires
        crate::document::wf_pairs(sps),
        crate::document::wf_pairs(rest),
        forall|b: int| 0 <= b < rest.len() ==> (#[trigger] rest[b]).1 is Table,
        0 <= i <= s.len(),
        s.subrange(i, s.len() as int) == render_section_body(sps) + render_top_pairs(rest),
        sp(s, i) == i,
    ensures
        crate::parse::parse_section_lines(s, i, name, done, acc) == Option::Some(
            acc.push((name, DocV::Table(done + sps))) + rest,
        ),
    decreases rest.len() + 1, 0int, sps.len(),
{
    let frag = render_section_body(sps) + render_top_pairs(rest);
    let fl = frag.len() as int;
    if sps.len() == 0 {
        assert(render_section_body(sps) == Seq::<char>::empty());
        assert(s.subrange(i, s.len() as int) =~= render_top_pairs(rest));
        if rest.len() == 0 {
            assert(i == s.len());
            assert(done + sps =~= done);
            assert(acc.push((name, DocV::Table(done))) + rest =~= acc.push(
                (name, DocV::Table(done + sps)),
            ));
        } else {
            assert(frag == render_top_pair(rest[0].0, rest[0].1) + render_top_pairs(
                rest.drop_first(),
            ));
            assert(frag[0] == '[') by {
                assert(rest[0].1 is Table);
                assert(render_top_pair(rest[0].0, rest[0].1)[0] == '[');
            }
            lemma_sub_char(s, i, frag, 0);
            assert(s[i] == '[' && s[i] != '\n');
            assert(done + sps =~= done);
            lemma_parse_sections_render(s, i, rest, acc.push((name, DocV::Table(done))));
            assert(acc.push((name, DocV::Table(done))) + rest =~= acc.push(
                (name, DocV::Table(done + sps)),
            ) + rest);
        }
    } else {
        let (k0, v0) = (sps[0].0, sps[0].1);
        let line = render_line(k0, v0);
        let ll = line.len() as int;
        lemma_render_key_first(k0);
        assert(frag == line + (render_section_body(sps.drop_first()) + render_top_pairs(rest)))
            by {
            assert(render_section_body(sps) == line + render_section_body(sps.drop_first()));
            assert(frag =~= line + (render_section_body(sps.drop_first()) + render_top_pairs(
                rest,
            )));
        }
        assert(frag[0] == render_key(k0)[0]);
        lemma_sub_char(s, i, frag, 0);
        assert(s[i] != '\n' && s[i] != '[');
        assert(s.subrange(i, i + ll) == line) by {
            lemma_sub_extract(s, i, frag, 0, ll);
            assert(frag.subrange(0, ll) =~= line);
        }
        lemma_parse_keyline_render(s, i, k0, v0);
        let n = i + ll;
        assert(s.subrange(n, s.len() as int) == render_section_body(sps.drop_first())
            + render_top_pairs(rest)) by {
            lemma_sub_extract(s, i, frag, ll, fl);
            assert(frag.subrange(ll, fl) =~= render_section_body(sps.drop_first())
                + render_top_pairs(rest));
        }
        assert(sp(s, n) == n) by {
            if sps.len() == 1 && rest.len() == 0 {
                assert(render_section_body(sps.drop_first()) == Seq::<char>::empty());
                assert(n == s.len());
            } else {
                let tail = render_section_body(sps.drop_first()) + render_top_pairs(rest);
                lemma_sub_char(s, n, tail, 0);
                if sps.len() > 1 {
                    lemma_render_key_first(sps[1].0);
                    assert(tail[0] == render_key(sps[1].0)[0]) by {
                        assert(sps.drop_first()[0] == sps[1]);
                        assert(render_section_body(sps.drop_first())[0] == render_line(
                            sps[1].0,
                            sps[1].1,
                        )[0]);
                    }
                } else {
                    assert(tail[0] == '[') by {
                        assert(rest[0].1 is Table);
                        assert(render_top_pairs(rest)[0] == render_top_pair(
                            rest[0].0,
                            rest[0].1,
                        )[0]);
                    }
                    assert(!is_sp('['));
                }
                assert(!is_sp(s[n]));
            }
        }
        lemma_parse_section_lines_render(
            s,
            n,
            name,
            sps.drop_first(),
            done.push((k0, v0)),
            rest,
            acc,
        );
        assert(done.push((k0, v0)) + sps.drop_first() =~= done + sps);
    }
}

/// The codec round-trips: parsing the rendered text of a well-formed
/// document yields that document again.
pub proof fn lemma_parse_render_round_trip(d: DocV)
    requires
        crate::document::wf_doc(d),
    ensures
        crate::parse::parse_document_chars(crate::document::render_document_spec(d))
            == Option::Some(d),
{
    let ps = d->Table_0;
    let s = render_top_pairs(ps);
    assert(sections_last(ps));
    assert(sp(s, 0) == 0) by {
        if s.len() > 0 {
            assert(ps.len() > 0);
            assert(s == render_top_pair(ps[0].0, ps[0].1) + render_top_pairs(ps.drop_first()));
            lemma_render_key_first(ps[0].0);
            if ps[0].1 is Table {
                assert(s[0] == '[');
                assert(!is_sp('['));
            } else {
                assert(s[0] == render_key(ps[0].0)[0]);
            }
            assert(!is_sp(s[0]));
        }
    }
    assert(s.subrange(sp(s, 0), s.len() as int) =~= s);
    lemma_parse_top_render(s, 0, ps, Seq::empty());
    assert(Seq::<(Seq<char>, DocV)>::empty() + ps =~= ps);
    assert(d == DocV::Table(ps));
}

} // verus!
