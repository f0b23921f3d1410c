//! The structured document model: a tagged union of integers, strings,
//! arrays and tables, the form every on-disk collection is parsed into and
//! serialized from.
//!
//! A document renders to text as `key = value` lines for its plain pairs,
//! followed by one `[key]` section per table-valued pair. Values render
//! inline: decimal integers, quoted strings with `\"` and `\\` escapes,
//! `[...]` arrays and `{...}` inline tables.

use vstd::prelude::*;

use crate::text::{
    append_escaped, chars_to_string, dec_int_digits, escape_seq, i64_dec_chars, str_chars,
};

verus! {

broadcast use vstd::std_specs::vec::axiom_vec_decreases_to_view;

/// A parsed document value.
#[derive(Debug, PartialEq)]
pub enum DocValue {
    Int(i64),
    Str(String),
    Arr(Vec<DocValue>),
    Table(Vec<(String, DocValue)>),
}

/// The mathematical shape of a document value.
pub enum DocV {
    Int(int),
    Str(Seq<char>),
    Arr(Seq<DocV>),
    Table(Seq<(Seq<char>, DocV)>),
}

/// The mathematical shape of a document value.
pub open spec fn doc_view(d: DocValue) -> DocV
    decreases d,
{
    match d {
        DocValue::Int(i) => DocV::Int(i as int),
        DocValue::Str(s) => DocV::Str(s@),
        DocValue::Arr(v) => DocV::Arr(vals_view(v@)),
        DocValue::Table(v) => DocV::Table(pairs_view(v@)),
    }
}

/// The mathematical shapes of a sequence of document values.
pub open spec fn vals_view(s: Seq<DocValue>) -> Seq<DocV>
    decreases s,
{
    if s.len() == 0 {
        Seq::empty()
    } else {
        seq![doc_view(s[0])] + vals_view(s.drop_first())
    }
}

/// The mathematical shapes of a sequence of key/value pairs.
pub open spec fn pairs_view(s: Seq<(String, DocValue)>) -> Seq<(Seq<char>, DocV)>
    decreases s,
{
    if s.len() == 0 {
        Seq::empty()
    } else {
        seq![(s[0].0@, doc_view(s[0].1))] + pairs_view(s.drop_first())
    }
}

impl View for DocValue {
    type V = DocV;

    open spec fn view(&self) -> DocV {
        doc_view(*self)
    }
}

/// A value sequence views element by element.
pub proof fn lemma_vals_view(s: Seq<DocValue>)
    ensures
        vals_view(s).len() == s.len(),
        forall|i: int| 0 <= i < s.len() ==> vals_view(s)[i] == doc_view(#[trigger] s[i]),
    decreases s,
{
    if s.len() > 0 {
        lemma_vals_view(s.drop_first());
        assert forall|i: int| 0 <= i < s.len() implies vals_view(s)[i] == doc_view(
            #[trigger] s[i],
        ) by {
            if i > 0 {
                assert(vals_view(s)[i] == vals_view(s.drop_first())[i - 1]);
                assert(s.drop_first()[i - 1] == s[i]);
            }
        }
    }
}

/// A pair sequence views pair by pair.
pub proof fn lemma_pairs_view(s: Seq<(String, DocValue)>)
    ensures
        pairs_view(s).len() == s.len(),
        forall|i: int|
            0 <= i < s.len() ==> pairs_view(s)[i] == ((#[trigger] s[i]).0@, doc_view(s[i].1)),
    decreases s,
{
    if s.len() > 0 {
        lemma_pairs_view(s.drop_first());
        assert forall|i: int| 0 <= i < s.len() implies pairs_view(s)[i] == ((#[trigger] s[i]).0@,
        doc_view(s[i].1)) by {
            if i > 0 {
                assert(pairs_view(s)[i] == pairs_view(s.drop_first())[i - 1]);
                assert(s.drop_first()[i - 1] == s[i]);
            }
        }
    }
}

/// Appending a value extends the viewed sequence by its shape.
pub proof fn lemma_vals_view_push(s: Seq<DocValue>, d: DocValue)
    ensures
        vals_view(s.push(d)) == vals_view(s).push(doc_view(d)),
{
    lemma_vals_view(s);
    lemma_vals_view(s.push(d));
    assert forall|i: int| 0 <= i < s.len() + 1 implies vals_view(s.push(d))[i] == vals_view(
        s,
    ).push(doc_view(d))[i] by {
        if i < s.len() {
            assert(s.push(d)[i] == s[i]);
        } else {
            assert(s.push(d)[i] == d);
        }
    }
    assert(vals_view(s.push(d)) =~= vals_view(s).push(doc_view(d)));
}

/// Appending a pair extends the viewed sequence by its shape.
pub proof fn lemma_pairs_view_push(s: Seq<(String, DocValue)>, k: String, d: DocValue)
    ensures
        pairs_view(s.push((k, d))) == pairs_view(s).push((k@, doc_view(d))),
{
    lemma_pairs_view(s);
    lemma_pairs_view(s.push((k, d)));
    assert forall|i: int| 0 <= i < s.len() + 1 implies pairs_view(s.push((k, d)))[i] == pairs_view(
        s,
    ).push((k@, doc_view(d)))[i] by {
        if i < s.len() {
            assert(s.push((k, d))[i] == s[i]);
        } else {
            assert(s.push((k, d))[i] == (k, d));
        }
    }
    assert(pairs_view(s.push((k, d))) =~= pairs_view(s).push((k@, doc_view(d))));
}

/// Whether a character may stand in an unquoted key: an ASCII letter,
/// a digit, an underscore or a hyphen.
pub open spec fn is_bare_char(c: char) -> bool {
    ||| 97 <= c as u32 <= 122
    ||| 65 <= c as u32 <= 90
    ||| 48 <= c as u32 <= 57
    ||| c == '_'
    ||| c == '-'
}

/// Whether a key renders without quotes.
pub open spec fn bare_key_ok(k: Seq<char>) -> bool {
    k.len() >= 1 && forall|i: int| 0 <= i < k.len() ==> is_bare_char(#[trigger] k[i])
}

/// How a key renders: bare if possible, quoted otherwise.
pub open spec fn render_key(k: Seq<char>) -> Seq<char> {
    if bare_key_ok(k) {
        k
    } else {
        seq!['"'] + escape_seq(k) + seq!['"']
    }
}

/// How a value renders inline.
pub open spec fn render_value(v: DocV) -> Seq<char>
    decreases v,
{
    match v {
        DocV::Int(i) => dec_int_digits(i),
        DocV::Str(s) => seq!['"'] + escape_seq(s) + seq!['"'],
        DocV::Arr(es) => seq!['['] + render_elems(es) + seq![']'],
        DocV::Table(ps) => seq!['{'] + render_inline_pairs(ps) + seq!['}'],
    }
}

/// How array elements render: comma-separated, no trailing separator.
pub open spec fn render_elems(es: Seq<DocV>) -> Seq<char>
    decreases es,
{
    if es.len() == 0 {
        Seq::empty()
    } else if es.len() == 1 {
        render_value(es[0])
    } else {
        render_value(es[0]) + seq![',', ' '] + render_elems(es.drop_first())
    }
}

/// How inline table pairs render: comma-separated, no trailing separator.
pub open spec fn render_inline_pairs(ps: Seq<(Seq<char>, DocV)>) -> Seq<char>
    decreases ps,
{
    if ps.len() == 0 {
        Seq::empty()
    } else if ps.len() == 1 {
        render_key(ps[0].0) + seq![' ', '=', ' '] + render_value(ps[0].1)
    } else {
        render_key(ps[0].0) + seq![' ', '=', ' '] + render_value(ps[0].1) + seq![',', ' ']
            + render_inline_pairs(ps.drop_first())
    }
}

/// How one `key = value` line renders.
pub open spec fn render_line(k: Seq<char>, v: DocV) -> Seq<char> {
    render_key(k) + seq![' ', '=', ' '] + render_value(v) + seq!['\n']
}

/// How a section body renders: one line per pair.
pub open spec fn render_section_body(ps: Seq<(Seq<char>, DocV)>) -> Seq<char>
    decreases ps,
{
    if ps.len() == 0 {
        Seq::empty()
    } else {
        render_line(ps[0].0, ps[0].1) + render_section_body(ps.drop_first())
    }
}

/// How one top-level pair renders: a line for a plain value, a `[key]`
/// section for a table value.
pub open spec fn render_top_pair(k: Seq<char>, v: DocV) -> Seq<char> {
    match v {
        DocV::Table(ps) => seq!['['] + render_key(k) + seq![']', '\n'] + render_section_body(ps),
        _ => render_line(k, v),
    }
}

/// How the pairs of a top-level table render.
pub open spec fn render_top_pairs(ps: Seq<(Seq<char>, DocV)>) -> Seq<char>
    decreases ps,
{
    if ps.len() == 0 {
        Seq::empty()
    } else {
        render_top_pair(ps[0].0, ps[0].1) + render_top_pairs(ps.drop_first())
    }
}

/// How a whole document renders. A top-level table renders as lines and
/// sections; any other value renders inline, followed by a line break.
pub open spec fn render_document_spec(d: DocV) -> Seq<char> {
    match d {
        DocV::Table(ps) => render_top_pairs(ps),
        _ => render_value(d) + seq!['\n'],
    }
}

/// Whether a value stays within the document model's limits: integers fit
/// the signed 64-bit range at every nesting depth.
pub open spec fn wf_value(v: DocV) -> bool
    decreases v,
{
    match v {
        DocV::Int(i) => i64::MIN <= i <= i64::MAX,
        DocV::Str(_) => true,
        DocV::Arr(es) => wf_elems(es),
        DocV::Table(ps) => wf_pairs(ps),
    }
}

/// Whether every element of an array is well formed.
pub open spec fn wf_elems(es: Seq<DocV>) -> bool
    decreases es,
{
    if es.len() == 0 {
        true
    } else {
        wf_value(es[0]) && wf_elems(es.drop_first())
    }
}

/// Whether every pair of a table is well formed.
pub open spec fn wf_pairs(ps: Seq<(Seq<char>, DocV)>) -> bool
    decreases ps,
{
    if ps.len() == 0 {
        true
    } else {
        wf_value(ps[0].1) && wf_pairs(ps.drop_first())
    }
}

/// An array is well formed when each of its elements is.
pub proof fn lemma_wf_elems_all(es: Seq<DocV>)
    requires
        forall|k: int| 0 <= k < es.len() ==> wf_value(#[trigger] es[k]),
    ensures
        wf_elems(es),
    decreases es.len(),
{
    if es.len() > 0 {
        assert(forall|k: int|
            0 <= k < es.drop_first().len() ==> wf_value(#[trigger] es.drop_first()[k])) by {
            assert(forall|k: int|
                0 <= k < es.drop_first().len() ==> #[trigger] es.drop_first()[k] == es[k + 1]);
        }
        lemma_wf_elems_all(es.drop_first());
    }
}

/// A table is well formed when each of its values is.
pub proof fn lemma_wf_pairs_all(ps: Seq<(Seq<char>, DocV)>)
    requires
        forall|k: int| 0 <= k < ps.len() ==> wf_value((#[trigger] ps[k]).1),
    ensures
        wf_pairs(ps),
    decreases ps.len(),
{
    if ps.len() > 0 {
        assert(forall|k: int|
            0 <= k < ps.drop_first().len() ==> wf_value(
                (#[trigger] ps.drop_first()[k]).1,
            )) by {
            assert(forall|k: int|
                0 <= k < ps.drop_first().len() ==> #[trigger] ps.drop_first()[k] == ps[k + 1]);
        }
        lemma_wf_pairs_all(ps.drop_first());
    }
}

/// Whether a document round-trips through its rendered text: it is a
/// table, its plain pairs come before its table-valued pairs (a plain
/// line after a section would attach to that section), and every value
/// is well formed.
pub open spec fn wf_doc(d: DocV) -> bool {
    &&& d is Table
    &&& wf_pairs(d->Table_0)
    &&& forall|i: int, j: int|
        0 <= i < j < d->Table_0.len() && (#[trigger] d->Table_0[i]).1 is Table ==> (
        #[trigger] d->Table_0[j]).1 is Table
}

/// Appends a copy of `s` to `out`.
fn append_chars(out: &mut Vec<char>, s: &Vec<char>)
    ensures
        final(out)@ == old(out)@ + s@,
{
    let mut i: usize = 0;
    while i < s.len()
        invariant
            i <= s@.len(),
            out@ == old(out)@ + s@.subrange(0, i as int),
        decreases s@.len() - i,
    {
        out.push(s[i]);
        i = i + 1;
        proof {
            assert(out@ =~= old(out)@ + s@.subrange(0, i as int));
        }
    }
    proof {
        assert(s@.subrange(0, s@.len() as int) =~= s@);
    }
}

/// Whether a key renders without quotes (executable form).
fn bare_key_ok_exec(k: &Vec<char>) -> (r: bool)
    ensures
        r == bare_key_ok(k@),
{
    if k.len() == 0 {
        return false;
    }
    let mut i: usize = 0;
    while i < k.len()
        invariant
            i <= k@.len(),
            forall|t: int| 0 <= t < i ==> is_bare_char(#[trigger] k@[t]),
        decreases k@.len() - i,
    {
        let c = k[i];
        let u = c as u32;
        let bare = (97 <= u && u <= 122) || (65 <= u && u <= 90) || (48 <= u && u <= 57) || c == '_'
            || c == '-';
        if !bare {
            proof {
                assert(!is_bare_char(k@[i as int]));
            }
            return false;
        }
        proof {
            assert(is_bare_char(k@[i as int]));
        }
        i = i + 1;
    }
    true
}

/// Appends the rendering of a key.
fn append_key(out: &mut Vec<char>, k: &Vec<char>)
    ensures
        final(out)@ == old(out)@ + render_key(k@),
{
    if bare_key_ok_exec(k) {
        append_chars(out, k);
    } else {
        out.push('"');
        append_escaped(out, k);
        out.push('"');
        proof {
            assert(out@ =~= old(out)@ + render_key(k@));
        }
    }
}

/// Appends the inline rendering of a value.
fn append_value(out: &mut Vec<char>, v: &DocValue)
    ensures
        final(out)@ == old(out)@ + render_value(v@),
    decreases *v, 0int,
{
    match v {
        DocValue::Int(i) => {
            let digits = i64_dec_chars(*i);
            append_chars(out, &digits);
        },
        DocValue::Str(s) => {
            let cs = str_chars(s.as_str());
            out.push('"');
            append_escaped(out, &cs);
            out.push('"');
            proof {
                assert(out@ =~= old(out)@ + render_value(v@));
            }
        },
        DocValue::Arr(es) => {
            out.push('[');
            append_elems(out, es, 0);
            out.push(']');
            proof {
                assert(vals_view(es@).skip(0) =~= vals_view(es@));
                assert(out@ =~= old(out)@ + render_value(v@));
            }
        },
        DocValue::Table(ps) => {
            out.push('{');
            append_inline_pairs(out, ps, 0);
            out.push('}');
            proof {
                assert(pairs_view(ps@).skip(0) =~= pairs_view(ps@));
                assert(out@ =~= old(out)@ + render_value(v@));
            }
        },
    }
}

/// Appends the rendering of the array elements from index `i` on.
pub(crate) fn append_elems(out: &mut Vec<char>, es: &Vec<DocValue>, i: usize)
    requires
        i <= es@.len(),
    ensures
        final(out)@ == old(out)@ + render_elems(vals_view(es@).skip(i as int)),
    decreases *es, 1int, es@.len() - i,
{
    proof {
        lemma_vals_view(es@);
    }
    let ghost rest = vals_view(es@).skip(i as int);
    if i == es.len() {
        proof {
            assert(rest.len() == 0);
            assert(out@ =~= out@ + render_elems(rest));
        }
    } else {
        append_value(out, &es[i]);
        proof {
            assert(rest[0] == doc_view(es@[i as int]));
        }
        if i + 1 == es.len() {
            proof {
                assert(rest.len() == 1);
                assert(out@ =~= old(out)@ + render_elems(rest));
            }
        } else {
            out.push(',');
            out.push(' ');
            append_elems(out, es, i + 1);
            proof {
                assert(rest.drop_first() =~= vals_view(es@).skip(i + 1));
                assert(out@ =~= old(out)@ + render_elems(rest));
            }
        }
    }
}

/// Appends the rendering of the inline table pairs from index `i` on.
pub(crate) fn append_inline_pairs(out: &mut Vec<char>, ps: &Vec<(String, DocValue)>, i: usize)
    requires
        i <= ps@.len(),
    ensures
        final(out)@ == old(out)@ + render_inline_pairs(pairs_view(ps@).skip(i as int)),
    decreases *ps, 1int, ps@.len() - i,
{
    proof {
        lemma_pairs_view(ps@);
    }
    let ghost rest = pairs_view(ps@).skip(i as int);
    if i == ps.len() {
        proof {
            assert(rest.len() == 0);
            assert(out@ =~= out@ + render_inline_pairs(rest));
        }
    } else {
        let k = str_chars(ps[i].0.as_str());
        append_key(out, &k);
        out.push(' ');
        out.push('=');
        out.push(' ');
        append_value(out, &ps[i].1);
        proof {
            assert(rest[0] == (ps@[i as int].0@, doc_view(ps@[i as int].1)));
        }
        if i + 1 == ps.len() {
            proof {
                assert(rest.len() == 1);
                assert(out@ =~= old(out)@ + render_inline_pairs(rest));
            }
        } else {
            out.push(',');
            out.push(' ');
            append_inline_pairs(out, ps, i + 1);
            proof {
                assert(rest.drop_first() =~= pairs_view(ps@).skip(i + 1));
                assert(out@ =~= old(out)@ + render_inline_pairs(rest));
            }
        }
    }
}

/// Appends one `key = value` line.
fn append_line(out: &mut Vec<char>, k: &Vec<char>, v: &DocValue)
    ensures
        final(out)@ == old(out)@ + render_line(k@, v@),
{
    append_key(out, k);
    out.push(' ');
    out.push('=');
    out.push(' ');
    append_value(out, v);
    out.push('\n');
    proof {
        assert(out@ =~= old(out)@ + render_line(k@, v@));
    }
}

/// Appends the lines of one section body.
fn append_section_body(out: &mut Vec<char>, ps: &Vec<(String, DocValue)>)
    ensures
        final(out)@ == old(out)@ + render_section_body(pairs_view(ps@)),
{
    proof {
        lemma_pairs_view(ps@);
    }
    let mut i: usize = 0;
    while i < ps.len()
        invariant
            i <= ps@.len(),
            pairs_view(ps@).len() == ps@.len(),
            forall|t: int|
                0 <= t < ps@.len() ==> pairs_view(ps@)[t] == ((#[trigger] ps@[t]).0@, doc_view(
                    ps@[t].1,
                )),
            out@ == old(out)@ + render_section_body_upto(pairs_view(ps@), i as int),
        decreases ps@.len() - i,
    {
        let k = str_chars(ps[i].0.as_str());
        append_line(out, &k, &ps[i].1);
        proof {
            lemma_render_section_body_upto(pairs_view(ps@), i as int);
        }
        i = i + 1;
    }
    proof {
        lemma_render_section_body_full(pairs_view(ps@));
    }
}

/// The rendering of the first `i` lines of a section body.
pub open spec fn render_section_body_upto(ps: Seq<(Seq<char>, DocV)>, i: int) -> Seq<char>
    decreases i,
{
    if i <= 0 {
        Seq::empty()
    } else {
        render_section_body_upto(ps, i - 1) + render_line(ps[i - 1].0, ps[i - 1].1)
    }
}

/// Extending a section body prefix by one line appends that line.
pub proof fn lemma_render_section_body_upto(ps: Seq<(Seq<char>, DocV)>, i: int)
    requires
        0 <= i < ps.len(),
    ensures
        render_section_body_upto(ps, i + 1) == render_section_body_upto(ps, i) + render_line(
            ps[i].0,
            ps[i].1,
        ),
{
}

/// The full prefix of a section body is the section body.
pub proof fn lemma_render_section_body_full(ps: Seq<(Seq<char>, DocV)>)
    ensures
        render_section_body_upto(ps, ps.len() as int) == render_section_body(ps),
    decreases ps.len(),
{
    if ps.len() == 0 {
    } else {
        lemma_render_section_body_full(ps.drop_first());
        lemma_section_body_upto_shift(ps, ps.len() as int);
        assert(render_section_body_upto(ps, ps.len() as int) =~= render_section_body(ps));
    }
}

/// A prefix of a section body equals the first line plus the matching
/// prefix of the remaining body.
pub proof fn lemma_section_body_upto_shift(ps: Seq<(Seq<char>, DocV)>, i: int)
    requires
        1 <= i <= ps.len(),
    ensures
        render_section_body_upto(ps, i) == render_line(ps[0].0, ps[0].1)
            + render_section_body_upto(ps.drop_first(), i - 1),
    decreases i,
{
    if i == 1 {
        assert(render_section_body_upto(ps, 0) == Seq::<char>::empty());
        assert(render_section_body_upto(ps.drop_first(), 0) == Seq::<char>::empty());
        assert(render_section_body_upto(ps, 1) =~= render_line(ps[0].0, ps[0].1)
            + render_section_body_upto(ps.drop_first(), 0));
    } else {
        lemma_section_body_upto_shift(ps, i - 1);
        assert(ps.drop_first()[i - 2] == ps[i - 1]);
        assert(render_section_body_upto(ps, i) =~= render_line(ps[0].0, ps[0].1)
            + render_section_body_upto(ps.drop_first(), i - 1));
    }
}

/// Serializes a document to text. A top-level table becomes `key = value`
/// lines for its plain pairs and a `[key]` section for each table-valued
/// pair; any other value renders inline on a single line.
pub fn render_document(doc: &DocValue) -> (r: String)
    ensures
        r@ == render_document_spec(doc@),
{
    let mut out: Vec<char> = Vec::new();
    match doc {
        DocValue::Table(ps) => {
            proof {
                lemma_pairs_view(ps@);
            }
            let mut i: usize = 0;
            while i < ps.len()
                invariant
                    i <= ps@.len(),
                    pairs_view(ps@).len() == ps@.len(),
                    forall|t: int|
                        0 <= t < ps@.len() ==> pairs_view(ps@)[t] == ((#[trigger] ps@[t]).0@,
                        doc_view(ps@[t].1)),
                    out@ == render_top_upto(pairs_view(ps@), i as int),
                decreases ps@.len() - i,
            {
                let k = str_chars(ps[i].0.as_str());
                match &ps[i].1 {
                    DocValue::Table(sub) => {
                        out.push('[');
                        append_key(&mut out, &k);
                        out.push(']');
                        out.push('\n');
                        append_section_body(&mut out, sub);
                        proof {
                            lemma_render_top_upto(pairs_view(ps@), i as int);
                            assert(out@ =~= render_top_upto(pairs_view(ps@), i + 1));
                        }
                    },
                    _ => {
                        append_line(&mut out, &k, &ps[i].1);
                        proof {
                            lemma_render_top_upto(pairs_view(ps@), i as int);
                            assert(out@ =~= render_top_upto(pairs_view(ps@), i + 1));
                        }
                    },
                }
                i = i + 1;
            }
            proof {
                lemma_render_top_full(pairs_view(ps@));
            }
        },
        _ => {
            append_value(&mut out, doc);
            out.push('\n');
        },
    }
    chars_to_string(&out)
}

/// The rendering of the first `i` top-level pairs.
pub open spec fn render_top_upto(ps: Seq<(Seq<char>, DocV)>, i: int) -> Seq<char>
    decreases i,
{
    if i <= 0 {
        Seq::empty()
    } else {
        render_top_upto(ps, i - 1) + render_top_pair(ps[i - 1].0, ps[i - 1].1)
    }
}

/// Extending a top-level prefix by one pair appends that pair's text.
pub proof fn lemma_render_top_upto(ps: Seq<(Seq<char>, DocV)>, i: int)
    requires
        0 <= i < ps.len(),
    ensures
        render_top_upto(ps, i + 1) == render_top_upto(ps, i) + render_top_pair(ps[i].0, ps[i].1),
{
}

/// The full prefix of the top-level pairs is their whole rendering.
pub proof fn lemma_render_top_full(ps: Seq<(Seq<char>, DocV)>)
    ensures
        render_top_upto(ps, ps.len() as int) == render_top_pairs(ps),
    decreases ps.len(),
{
    if ps.len() == 0 {
    } else {
        lemma_render_top_full(ps.drop_first());
        lemma_top_upto_shift(ps, ps.len() as int);
        assert(render_top_upto(ps, ps.len() as int) =~= render_top_pairs(ps));
    }
}

/// A prefix of the top-level pairs equals the first pair's text plus the
/// matching prefix over the remaining pairs.
pub proof fn lemma_top_upto_shift(ps: Seq<(Seq<char>, DocV)>, i: int)
    requires
        1 <= i <= ps.len(),
    ensures
        render_top_upto(ps, i) == render_top_pair(ps[0].0, ps[0].1) + render_top_upto(
            ps.drop_first(),
            i - 1,
        ),
    decreases i,
{
    if i == 1 {
        assert(render_top_upto(ps, 0) == Seq::<char>::empty());
        assert(render_top_upto(ps.drop_first(), 0) == Seq::<char>::empty());
        assert(render_top_upto(ps, 1) =~= render_top_pair(ps[0].0, ps[0].1) + render_top_upto(
            ps.drop_first(),
            0,
        ));
    } else {
        lemma_top_upto_shift(ps, i - 1);
        assert(ps.drop_first()[i - 2] == ps[i - 1]);
        assert(render_top_upto(ps, i) =~= render_top_pair(ps[0].0, ps[0].1) + render_top_upto(
            ps.drop_first(),
            i - 1,
        ));
    }
}

/// The first value bound to `key` in a table's pairs, if any.
pub open spec fn spec_get(ps: Seq<(Seq<char>, DocV)>, key: Seq<char>) -> Option<DocV>
    decreases ps,
{
    if ps.len() == 0 {
        Option::None
    } else if ps[0].0 == key {
        Option::Some(ps[0].1)
    } else {
        spec_get(ps.drop_first(), key)
    }
}

/// Looks a key up among a table's pairs, returning the first match.
pub fn doc_get<'a>(ps: &'a Vec<(String, DocValue)>, key: &String) -> (r: Option<&'a DocValue>)
    ensures
        match r {
            Option::Some(v) => spec_get(pairs_view(ps@), key@) == Option::Some(v@),
            Option::None => spec_get(pairs_view(ps@), key@) is None,
        },
{
    proof {
        lemma_pairs_view(ps@);
        assert(pairs_view(ps@).skip(0) =~= pairs_view(ps@));
    }
    let mut i: usize = 0;
    while i < ps.len()
        invariant
            i <= ps@.len(),
            pairs_view(ps@).len() == ps@.len(),
            forall|t: int|
                0 <= t < ps@.len() ==> pairs_view(ps@)[t] == ((#[trigger] ps@[t]).0@, doc_view(
                    ps@[t].1,
                )),
            spec_get(pairs_view(ps@), key@) == spec_get(
                pairs_view(ps@).skip(i as int),
                key@,
            ),
        decreases ps@.len() - i,
    {
        proof {
            assert(pairs_view(ps@).skip(i as int)[0] == pairs_view(ps@)[i as int]);
        }
        if ps[i].0.eq(key) {
            proof {
                assert(spec_get(pairs_view(ps@).skip(i as int), key@) == Option::Some(
                    pairs_view(ps@)[i as int].1,
                ));
            }
            return Option::Some(&ps[i].1);
        }
        proof {
            assert(pairs_view(ps@).skip(i as int).drop_first() =~= pairs_view(ps@).skip(i + 1));
        }
        i = i + 1;
    }
    Option::None
}

} // verus!
