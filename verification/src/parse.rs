//! A conformant reading of the text exposition format, and the round-trip
//! theorem: encoding a well-formed snapshot and reading the result back
//! yields exactly the samples the snapshot exposes.
//!
//! The reader is stated as spec functions: it splits the body into
//! newline-terminated lines, skips comment lines, and reads every other
//! line as `name{label="value",...} value`, undoing the escapes. It answers
//! `None` on any malformed input, so the round-trip theorem also says that
//! an encoded body is never malformed.

use vstd::prelude::*;

use crate::encode::{
    enc_label, enc_labels_inner, enc_labelset, esc_help_byte, esc_label_byte, escape_help,
    escape_label_value, exposition, family_lines, help_line, help_prefix, join_nl, kind_bytes,
    sample_line, type_prefix,
    sample_lines, all_lines, type_line,
};
use crate::model::{
    is_label_name_byte, is_name_byte, is_name_start_byte, is_value_byte, wf_family, wf_label,
    wf_name, wf_sample, wf_snapshot, wf_value, FamilyV, LabelV, SampleV,
};

verus! {

/// One sample as a reader sees it: a full sample name, a label set, and the
/// rendered value.
#[verifier::ext_equal]
pub struct ScrapeSample {
    pub name: Seq<u8>,
    pub labels: Seq<LabelV>,
    pub value: Seq<u8>,
}

/// Holds when a byte string has no newline byte.
pub open spec fn no_nl(s: Seq<u8>) -> bool {
    forall|i: int| 0 <= i < s.len() ==> s[i] != 10
}

/// The number of bytes before the first newline (all of them if none).
pub open spec fn line_len(s: Seq<u8>) -> nat
    decreases s.len(),
{
    if s.len() == 0 {
        0
    } else if s[0] == 10 {
        0
    } else {
        1 + line_len(s.drop_first())
    }
}

/// Splits a body into its newline-terminated lines; `None` when the last
/// line is unterminated.
pub open spec fn split_lines(s: Seq<u8>) -> Option<Seq<Seq<u8>>>
    decreases s.len(),
{
    if s.len() == 0 {
        Some(Seq::empty())
    } else {
        let n = line_len(s);
        if n >= s.len() {
            None
        } else {
            match split_lines(s.subrange(n + 1 as int, s.len() as int)) {
                Option::None => None,
                Option::Some(rest) => Some(seq![s.subrange(0, n as int)] + rest),
            }
        }
    }
}

/// The number of leading metric-name bytes.
pub open spec fn name_len(s: Seq<u8>) -> nat
    decreases s.len(),
{
    if s.len() == 0 {
        0
    } else if !is_name_byte(s[0]) {
        0
    } else {
        1 + name_len(s.drop_first())
    }
}

/// The number of leading label-name bytes.
pub open spec fn label_name_len(s: Seq<u8>) -> nat
    decreases s.len(),
{
    if s.len() == 0 {
        0
    } else if !is_label_name_byte(s[0]) {
        0
    } else {
        1 + label_name_len(s.drop_first())
    }
}

/// Reads an escaped label value up to its closing quote; yields the value
/// with escapes undone, and what follows the quote.
pub open spec fn parse_quoted(s: Seq<u8>) -> Option<(Seq<u8>, Seq<u8>)>
    decreases s.len(),
{
    if s.len() == 0 {
        None
    } else if s[0] == 34 {
        Some((Seq::empty(), s.drop_first()))
    } else if s[0] == 92 {
        if s.len() < 2 {
            None
        } else {
            let c: Option<u8> = if s[1] == 92 {
                Some(92u8)
            } else if s[1] == 34 {
                Some(34u8)
            } else if s[1] == 110 {
                Some(10u8)
            } else {
                None
            };
            match c {
                Option::None => None,
                Option::Some(b) => match parse_quoted(s.subrange(2, s.len() as int)) {
                    Option::None => None,
                    Option::Some(p) => Some((seq![b] + p.0, p.1)),
                },
            }
        }
    } else if s[0] == 10 {
        None
    } else {
        match parse_quoted(s.drop_first()) {
            Option::None => None,
            Option::Some(p) => Some((seq![s[0]] + p.0, p.1)),
        }
    }
}

/// What a quoted value leaves behind is strictly shorter than its input.
pub proof fn lemma_parse_quoted_len(s: Seq<u8>)
    ensures
        parse_quoted(s) is Some ==> parse_quoted(s).unwrap().1.len() < s.len(),
    decreases s.len(),
{
    if s.len() == 0 {
    } else if s[0] == 34 {
    } else if s[0] == 92 {
        if s.len() >= 2 {
            lemma_parse_quoted_len(s.subrange(2, s.len() as int));
        }
    } else if s[0] == 10 {
    } else {
        lemma_parse_quoted_len(s.drop_first());
    }
}

/// Reads a comma-separated label list after its opening brace; yields the
/// labels and what follows the closing brace.
pub open spec fn parse_labels(s: Seq<u8>) -> Option<(Seq<LabelV>, Seq<u8>)>
    decreases s.len(),
    via parse_labels_dec
{
    let n = label_name_len(s);
    if n == 0 {
        None
    } else if n + 2 > s.len() {
        None
    } else if s[n as int] != 61 || s[n + 1 as int] != 34 {
        None
    } else {
        match parse_quoted(s.subrange(n + 2 as int, s.len() as int)) {
            Option::None => None,
            Option::Some(p) => {
                let l = LabelV { name: s.subrange(0, n as int), value: p.0 };
                let rest = p.1;
                if rest.len() == 0 {
                    None
                } else if rest[0] == 125 {
                    Some((seq![l], rest.drop_first()))
                } else if rest[0] == 44 {
                    match parse_labels(rest.drop_first()) {
                        Option::None => None,
                        Option::Some(q) => Some((seq![l] + q.0, q.1)),
                    }
                } else {
                    None
                }
            },
        }
    }
}

#[via_fn]
proof fn parse_labels_dec(s: Seq<u8>) {
    let n = label_name_len(s);
    if n != 0 && n + 2 <= s.len() {
        lemma_parse_quoted_len(s.subrange(n + 2 as int, s.len() as int));
    }
}

/// Reads one sample line (without its newline): a metric name, an optional
/// label set, one space, and a well-formed value running to the line's end.
pub open spec fn parse_sample_line(l: Seq<u8>) -> Option<ScrapeSample> {
    let n = name_len(l);
    if n == 0 || !is_name_start_byte(l[0]) {
        None
    } else if n >= l.len() {
        None
    } else if l[n as int] == 123 {
        match parse_labels(l.subrange(n + 1 as int, l.len() as int)) {
            Option::None => None,
            Option::Some(p) => {
                let rest = p.1;
                if rest.len() >= 1 && rest[0] == 32 && wf_value(rest.drop_first()) {
                    Some(
                        ScrapeSample {
                            name: l.subrange(0, n as int),
                            labels: p.0,
                            value: rest.drop_first(),
                        },
                    )
                } else {
                    None
                }
            },
        }
    } else if l[n as int] == 32 {
        let v = l.subrange(n + 1 as int, l.len() as int);
        if wf_value(v) {
            Some(ScrapeSample { name: l.subrange(0, n as int), labels: Seq::empty(), value: v })
        } else {
            None
        }
    } else {
        None
    }
}

/// Reads a sequence of lines: comment lines (leading `#`) are skipped,
/// every other line must be a sample line.
pub open spec fn parse_lines(lines: Seq<Seq<u8>>) -> Option<Seq<ScrapeSample>>
    decreases lines.len(),
{
    if lines.len() == 0 {
        Some(Seq::empty())
    } else {
        let l = lines[0];
        if l.len() > 0 && l[0] == 35 {
            parse_lines(lines.drop_first())
        } else {
            match parse_sample_line(l) {
                Option::None => None,
                Option::Some(t) => match parse_lines(lines.drop_first()) {
                    Option::None => None,
                    Option::Some(ts) => Some(seq![t] + ts),
                },
            }
        }
    }
}

/// A conformant reading of a whole exposition body.
pub open spec fn parse_exposition(s: Seq<u8>) -> Option<Seq<ScrapeSample>> {
    match split_lines(s) {
        Option::None => None,
        Option::Some(lines) => parse_lines(lines),
    }
}

/// The sample a family's sample exposes, under the family's name.
pub open spec fn sample_tuple(name: Seq<u8>, s: SampleV) -> ScrapeSample {
    ScrapeSample { name: name, labels: s.labels, value: s.value }
}

/// The samples a family exposes, in order.
pub open spec fn family_tuples_from(name: Seq<u8>, ss: Seq<SampleV>) -> Seq<ScrapeSample>
    decreases ss.len(),
{
    if ss.len() == 0 {
        Seq::empty()
    } else {
        seq![sample_tuple(name, ss[0])] + family_tuples_from(name, ss.drop_first())
    }
}

/// All samples a snapshot exposes, in family order then sample order.
pub open spec fn exposed_tuples(fams: Seq<FamilyV>) -> Seq<ScrapeSample>
    decreases fams.len(),
{
    if fams.len() == 0 {
        Seq::empty()
    } else {
        family_tuples_from(fams[0].name, fams[0].samples) + exposed_tuples(fams.drop_first())
    }
}

/// Concatenation keeps newline-freedom.
pub proof fn lemma_no_nl_app(a: Seq<u8>, b: Seq<u8>)
    requires
        no_nl(a),
        no_nl(b),
    ensures
        no_nl(a + b),
{
    assert forall|i: int| 0 <= i < (a + b).len() implies (a + b)[i] != 10 by {
        if i < a.len() {
            assert((a + b)[i] == a[i]);
        } else {
            assert((a + b)[i] == b[i - a.len()]);
        }
    }
}

/// An escaped label value holds no newline byte.
pub proof fn lemma_no_nl_escape_label(v: Seq<u8>)
    ensures
        no_nl(escape_label_value(v)),
    decreases v.len(),
{
    if v.len() == 0 {
    } else {
        assert(no_nl(esc_label_byte(v[0])));
        lemma_no_nl_escape_label(v.drop_first());
        lemma_no_nl_app(esc_label_byte(v[0]), escape_label_value(v.drop_first()));
    }
}

/// An escaped help text holds no newline byte.
pub proof fn lemma_no_nl_escape_help(v: Seq<u8>)
    ensures
        no_nl(escape_help(v)),
    decreases v.len(),
{
    if v.len() == 0 {
    } else {
        assert(no_nl(esc_help_byte(v[0])));
        lemma_no_nl_escape_help(v.drop_first());
        lemma_no_nl_app(esc_help_byte(v[0]), escape_help(v.drop_first()));
    }
}

/// The name scan stops exactly at the end of a leading name.
pub proof fn lemma_name_len_prefix(name: Seq<u8>, rest: Seq<u8>)
    requires
        forall|i: int| 0 <= i < name.len() ==> is_name_byte(#[trigger] name[i]),
        rest.len() > 0,
        !is_name_byte(rest[0]),
    ensures
        name_len(name + rest) == name.len(),
    decreases name.len(),
{
    if name.len() == 0 {
        assert(name + rest =~= rest);
    } else {
        assert((name + rest)[0] == name[0]);
        assert((name + rest).drop_first() =~= name.drop_first() + rest);
        assert forall|i: int| 0 <= i < name.drop_first().len() implies is_name_byte(
            #[trigger] name.drop_first()[i],
        ) by {
            assert(name.drop_first()[i] == name[i + 1]);
        }
        lemma_name_len_prefix(name.drop_first(), rest);
    }
}

/// The label-name scan stops exactly at the end of a leading label name.
pub proof fn lemma_label_name_len_prefix(name: Seq<u8>, rest: Seq<u8>)
    requires
        forall|i: int| 0 <= i < name.len() ==> is_label_name_byte(#[trigger] name[i]),
        rest.len() > 0,
        !is_label_name_byte(rest[0]),
    ensures
        label_name_len(name + rest) == name.len(),
    decreases name.len(),
{
    if name.len() == 0 {
        assert(name + rest =~= rest);
    } else {
        assert((name + rest)[0] == name[0]);
        assert((name + rest).drop_first() =~= name.drop_first() + rest);
        assert forall|i: int| 0 <= i < name.drop_first().len() implies is_label_name_byte(
            #[trigger] name.drop_first()[i],
        ) by {
            assert(name.drop_first()[i] == name[i + 1]);
        }
        lemma_label_name_len_prefix(name.drop_first(), rest);
    }
}

/// The line scan stops exactly at the newline that ends a clean line.
pub proof fn lemma_line_len_prefix(l: Seq<u8>, rest: Seq<u8>)
    requires
        no_nl(l),
    ensures
        line_len(l + seq![10u8] + rest) == l.len(),
    decreases l.len(),
{
    let s = l + seq![10u8] + rest;
    if l.len() == 0 {
        assert(s[0] == 10);
    } else {
        assert(s[0] == l[0]);
        assert(s.drop_first() =~= l.drop_first() + seq![10u8] + rest);
        assert forall|i: int| 0 <= i < l.drop_first().len() implies l.drop_first()[i] != 10 by {
            assert(l.drop_first()[i] == l[i + 1]);
        }
        lemma_line_len_prefix(l.drop_first(), rest);
    }
}

/// Reading a quoted value undoes the label-value escaping exactly.
pub proof fn lemma_parse_quoted_escape(v: Seq<u8>, rest: Seq<u8>)
    ensures
        parse_quoted(escape_label_value(v) + seq![34u8] + rest) == Some((v, rest)),
    decreases v.len(),
{
    let s = escape_label_value(v) + seq![34u8] + rest;
    if v.len() == 0 {
        assert(escape_label_value(v) == Seq::<u8>::empty());
        assert(s =~= seq![34u8] + rest);
        assert(s[0] == 34);
        assert(s.drop_first() =~= rest);
        assert(v =~= Seq::<u8>::empty());
    } else {
        let vd = v.drop_first();
        let tail = escape_label_value(vd) + seq![34u8] + rest;
        lemma_parse_quoted_escape(vd, rest);
        assert(escape_label_value(v) == esc_label_byte(v[0]) + escape_label_value(vd));
        if v[0] == 92 {
            assert(s =~= seq![92u8, 92u8] + tail);
            assert(s[0] == 92 && s[1] == 92);
            assert(s.subrange(2, s.len() as int) =~= tail);
            assert(seq![92u8] + vd =~= v);
        } else if v[0] == 34 {
            assert(s =~= seq![92u8, 34u8] + tail);
            assert(s[0] == 92 && s[1] == 34);
            assert(s.subrange(2, s.len() as int) =~= tail);
            assert(seq![34u8] + vd =~= v);
        } else if v[0] == 10 {
            assert(s =~= seq![92u8, 110u8] + tail);
            assert(s[0] == 92 && s[1] == 110);
            assert(s.subrange(2, s.len() as int) =~= tail);
            assert(seq![10u8] + vd =~= v);
        } else {
            assert(s =~= seq![v[0]] + tail);
            assert(s[0] == v[0]);
            assert(s.drop_first() =~= tail);
            assert(seq![v[0]] + vd =~= v);
        }
    }
}

/// Reading a label list undoes the label rendering exactly.
pub proof fn lemma_parse_labels_rt(ls: Seq<LabelV>, rest: Seq<u8>)
    requires
        ls.len() > 0,
        forall|i: int| 0 <= i < ls.len() ==> wf_label(#[trigger] ls[i]),
    ensures
        parse_labels(enc_labels_inner(ls) + seq![125u8] + rest) == Some((ls, rest)),
    decreases ls.len(),
{
    let s = enc_labels_inner(ls) + seq![125u8] + rest;
    let l0 = ls[0];
    let name = l0.name;
    assert(wf_label(ls[0]));
    if ls.len() == 1 {
        let quoted_tail = seq![125u8] + rest;
        let quoted = escape_label_value(l0.value) + seq![34u8] + quoted_tail;
        let after_name = seq![61u8, 34u8] + quoted;
        assert(enc_labels_inner(ls) == enc_label(l0));
        assert(s =~= name + after_name);
        assert(after_name[0] == 61);
        assert(after_name[1] == 34);
        assert(!is_label_name_byte(after_name[0]));
        lemma_label_name_len_prefix(name, after_name);
        let n = name.len() as int;
        assert(label_name_len(s) == name.len());
        assert(s[n] == after_name[0]);
        assert(s[n + 1] == after_name[1]);
        assert(s.subrange(n + 2, s.len() as int) =~= quoted);
        lemma_parse_quoted_escape(l0.value, quoted_tail);
        assert(quoted_tail[0] == 125);
        assert(quoted_tail.drop_first() =~= rest);
        assert(s.subrange(0, n) =~= name);
        let lbl = LabelV { name: s.subrange(0, n), value: l0.value };
        assert(lbl =~= l0);
        assert(seq![lbl] =~= ls);
    } else {
        let ld = ls.drop_first();
        assert forall|i: int| 0 <= i < ld.len() implies wf_label(#[trigger] ld[i]) by {
            assert(ld[i] == ls[i + 1]);
        }
        assert(enc_labels_inner(ls) == enc_label(l0) + seq![44u8] + enc_labels_inner(ld));
        let cont = seq![44u8] + (enc_labels_inner(ld) + seq![125u8] + rest);
        let quoted = escape_label_value(l0.value) + seq![34u8] + cont;
        let after_name = seq![61u8, 34u8] + quoted;
        assert(s =~= name + after_name);
        assert(after_name[0] == 61);
        assert(after_name[1] == 34);
        assert(!is_label_name_byte(after_name[0]));
        lemma_label_name_len_prefix(name, after_name);
        let n = name.len() as int;
        assert(label_name_len(s) == name.len());
        assert(s[n] == after_name[0]);
        assert(s[n + 1] == after_name[1]);
        assert(s.subrange(n + 2, s.len() as int) =~= quoted);
        lemma_parse_quoted_escape(l0.value, cont);
        assert(cont[0] == 44);
        assert(cont.drop_first() =~= enc_labels_inner(ld) + seq![125u8] + rest);
        lemma_parse_labels_rt(ld, rest);
        assert(s.subrange(0, n) =~= name);
        let lbl = LabelV { name: s.subrange(0, n), value: l0.value };
        assert(lbl =~= l0);
        assert(seq![lbl] + ld =~= ls);
    }
}

/// Reading a sample line undoes the sample rendering exactly.
pub proof fn lemma_parse_sample_line_rt(name: Seq<u8>, s: SampleV)
    requires
        wf_name(name),
        wf_sample(s),
    ensures
        parse_sample_line(sample_line(name, s)) == Some(sample_tuple(name, s)),
{
    let l = sample_line(name, s);
    if s.labels.len() == 0 {
        assert(enc_labelset(s.labels) == Seq::<u8>::empty());
        let after = seq![32u8] + s.value;
        assert(l =~= name + after);
        assert(after[0] == 32);
        assert(!is_name_byte(after[0]));
        lemma_name_len_prefix(name, after);
        let n = name.len() as int;
        assert(l[0] == name[0]);
        assert(l[n] == after[0]);
        assert(l.subrange(n + 1, l.len() as int) =~= s.value);
        assert(l.subrange(0, n) =~= name);
        let t = ScrapeSample {
            name: l.subrange(0, n),
            labels: Seq::empty(),
            value: l.subrange(n + 1, l.len() as int),
        };
        assert(s.labels =~= Seq::<LabelV>::empty());
        assert(t =~= sample_tuple(name, s));
    } else {
        let inner_tail = enc_labels_inner(s.labels) + seq![125u8] + (seq![32u8] + s.value);
        let after = seq![123u8] + inner_tail;
        assert(enc_labelset(s.labels) == seq![123u8] + enc_labels_inner(s.labels) + seq![125u8]);
        assert(l =~= name + after);
        assert(after[0] == 123);
        assert(!is_name_byte(after[0]));
        lemma_name_len_prefix(name, after);
        let n = name.len() as int;
        assert(l[0] == name[0]);
        assert(l[n] == after[0]);
        assert(l.subrange(n + 1, l.len() as int) =~= inner_tail);
        lemma_parse_labels_rt(s.labels, seq![32u8] + s.value);
        let rest = seq![32u8] + s.value;
        assert(rest[0] == 32);
        assert(rest.drop_first() =~= s.value);
        assert(l.subrange(0, n) =~= name);
        let t = ScrapeSample { name: l.subrange(0, n), labels: s.labels, value: rest.drop_first() };
        assert(t =~= sample_tuple(name, s));
    }
}

/// Every byte of a well-formed name is newline-free.
pub proof fn lemma_no_nl_name(name: Seq<u8>)
    requires
        forall|i: int| 0 <= i < name.len() ==> is_name_byte(#[trigger] name[i]),
    ensures
        no_nl(name),
{
    assert forall|i: int| 0 <= i < name.len() implies name[i] != 10 by {
        assert(is_name_byte(name[i]));
    }
}

/// A rendered label holds no newline byte.
pub proof fn lemma_no_nl_enc_label(l: LabelV)
    requires
        wf_label(l),
    ensures
        no_nl(enc_label(l)),
{
    assert forall|i: int| 0 <= i < l.name.len() implies l.name[i] != 10 by {
        assert(is_label_name_byte(l.name[i]));
    }
    lemma_no_nl_escape_label(l.value);
    assert(no_nl(seq![61u8, 34u8]));
    assert(no_nl(seq![34u8]));
    lemma_no_nl_app(l.name, seq![61u8, 34u8]);
    lemma_no_nl_app(l.name + seq![61u8, 34u8], escape_label_value(l.value));
    lemma_no_nl_app(l.name + seq![61u8, 34u8] + escape_label_value(l.value), seq![34u8]);
}

/// A rendered label list holds no newline byte.
pub proof fn lemma_no_nl_labels_inner(ls: Seq<LabelV>)
    requires
        forall|i: int| 0 <= i < ls.len() ==> wf_label(#[trigger] ls[i]),
    ensures
        no_nl(enc_labels_inner(ls)),
    decreases ls.len(),
{
    if ls.len() == 0 {
    } else if ls.len() == 1 {
        lemma_no_nl_enc_label(ls[0]);
    } else {
        lemma_no_nl_enc_label(ls[0]);
        let ld = ls.drop_first();
        assert forall|i: int| 0 <= i < ld.len() implies wf_label(#[trigger] ld[i]) by {
            assert(ld[i] == ls[i + 1]);
        }
        lemma_no_nl_labels_inner(ld);
        assert(no_nl(seq![44u8]));
        lemma_no_nl_app(enc_label(ls[0]), seq![44u8]);
        lemma_no_nl_app(enc_label(ls[0]) + seq![44u8], enc_labels_inner(ld));
    }
}

/// A rendered sample line holds no newline byte.
pub proof fn lemma_no_nl_sample_line(name: Seq<u8>, s: SampleV)
    requires
        wf_name(name),
        wf_sample(s),
    ensures
        no_nl(sample_line(name, s)),
{
    lemma_no_nl_name(name);
    assert forall|i: int| 0 <= i < s.value.len() implies s.value[i] != 10 by {
        assert(is_value_byte(s.value[i]));
    }
    if s.labels.len() == 0 {
        assert(no_nl(enc_labelset(s.labels)));
    } else {
        lemma_no_nl_labels_inner(s.labels);
        assert(no_nl(seq![123u8]));
        assert(no_nl(seq![125u8]));
        lemma_no_nl_app(seq![123u8], enc_labels_inner(s.labels));
        lemma_no_nl_app(seq![123u8] + enc_labels_inner(s.labels), seq![125u8]);
    }
    assert(no_nl(seq![32u8]));
    lemma_no_nl_app(name, enc_labelset(s.labels));
    lemma_no_nl_app(name + enc_labelset(s.labels), seq![32u8]);
    lemma_no_nl_app(name + enc_labelset(s.labels) + seq![32u8], s.value);
}

/// A family's comment lines hold no newline byte.
pub proof fn lemma_no_nl_comment_lines(f: FamilyV)
    requires
        wf_name(f.name),
    ensures
        no_nl(help_line(f)),
        no_nl(type_line(f)),
{
    lemma_no_nl_name(f.name);
    lemma_no_nl_escape_help(f.help);
    assert(no_nl(help_prefix()));
    assert(no_nl(type_prefix()));
    assert(no_nl(kind_bytes(f.kind)));
    assert(no_nl(seq![32u8]));
    lemma_no_nl_app(help_prefix(), f.name);
    lemma_no_nl_app(help_prefix() + f.name, seq![32u8]);
    lemma_no_nl_app(help_prefix() + f.name + seq![32u8], escape_help(f.help));
    lemma_no_nl_app(type_prefix(), f.name);
    lemma_no_nl_app(type_prefix() + f.name, seq![32u8]);
    lemma_no_nl_app(type_prefix() + f.name + seq![32u8], kind_bytes(f.kind));
}

/// Every rendered sample line of a family is newline-free.
pub proof fn lemma_no_nl_sample_lines(name: Seq<u8>, ss: Seq<SampleV>)
    requires
        wf_name(name),
        forall|i: int| 0 <= i < ss.len() ==> wf_sample(#[trigger] ss[i]),
    ensures
        forall|i: int|
            0 <= i < sample_lines(name, ss).len() ==> no_nl(#[trigger] sample_lines(name, ss)[i]),
    decreases ss.len(),
{
    if ss.len() == 0 {
    } else {
        lemma_no_nl_sample_line(name, ss[0]);
        let sd = ss.drop_first();
        assert forall|i: int| 0 <= i < sd.len() implies wf_sample(#[trigger] sd[i]) by {
            assert(sd[i] == ss[i + 1]);
        }
        lemma_no_nl_sample_lines(name, sd);
        let lines = sample_lines(name, ss);
        assert forall|i: int| 0 <= i < lines.len() implies no_nl(#[trigger] lines[i]) by {
            if i == 0 {
                assert(lines[i] == sample_line(name, ss[0]));
            } else {
                assert(lines[i] == sample_lines(name, sd)[i - 1]);
            }
        }
    }
}

/// Every line of a family is newline-free.
pub proof fn lemma_no_nl_family_lines(f: FamilyV)
    requires
        wf_family(f),
    ensures
        forall|i: int| 0 <= i < family_lines(f).len() ==> no_nl(#[trigger] family_lines(f)[i]),
{
    lemma_no_nl_comment_lines(f);
    lemma_no_nl_sample_lines(f.name, f.samples);
    let lines = family_lines(f);
    assert forall|i: int| 0 <= i < lines.len() implies no_nl(#[trigger] lines[i]) by {
        if i == 0 {
            assert(lines[i] == help_line(f));
        } else if i == 1 {
            assert(lines[i] == type_line(f));
        } else {
            assert(lines[i] == sample_lines(f.name, f.samples)[i - 2]);
        }
    }
}

/// Every line of a snapshot is newline-free.
pub proof fn lemma_no_nl_all_lines(fams: Seq<FamilyV>)
    requires
        forall|i: int| 0 <= i < fams.len() ==> wf_family(#[trigger] fams[i]),
    ensures
        forall|i: int| 0 <= i < all_lines(fams).len() ==> no_nl(#[trigger] all_lines(fams)[i]),
    decreases fams.len(),
{
    if fams.len() == 0 {
    } else {
        lemma_no_nl_family_lines(fams[0]);
        let fd = fams.drop_first();
        assert forall|i: int| 0 <= i < fd.len() implies wf_family(#[trigger] fd[i]) by {
            assert(fd[i] == fams[i + 1]);
        }
        lemma_no_nl_all_lines(fd);
        let lines = all_lines(fams);
        let head = family_lines(fams[0]);
        assert forall|i: int| 0 <= i < lines.len() implies no_nl(#[trigger] lines[i]) by {
            if i < head.len() {
                assert(lines[i] == head[i]);
            } else {
                assert(lines[i] == all_lines(fd)[i - head.len()]);
            }
        }
    }
}

/// Splitting undoes joining for newline-free lines.
pub proof fn lemma_split_join(lines: Seq<Seq<u8>>)
    requires
        forall|i: int| 0 <= i < lines.len() ==> no_nl(#[trigger] lines[i]),
    ensures
        split_lines(join_nl(lines)) == Some(lines),
    decreases lines.len(),
{
    if lines.len() == 0 {
        assert(join_nl(lines) == Seq::<u8>::empty());
        assert(lines =~= Seq::<Seq<u8>>::empty());
    } else {
        let l0 = lines[0];
        let ld = lines.drop_first();
        let s = join_nl(lines);
        assert(s == l0 + seq![10u8] + join_nl(ld));
        lemma_line_len_prefix(l0, join_nl(ld));
        let n = l0.len() as int;
        assert(line_len(s) == l0.len());
        assert(s.len() == n + 1 + join_nl(ld).len());
        assert(s.subrange(n + 1, s.len() as int) =~= join_nl(ld));
        assert forall|i: int| 0 <= i < ld.len() implies no_nl(#[trigger] ld[i]) by {
            assert(ld[i] == lines[i + 1]);
        }
        lemma_split_join(ld);
        assert(s.subrange(0, n) =~= l0);
        assert(seq![l0] + ld =~= lines);
    }
}

/// Reading lines distributes over concatenation of readable line sequences.
pub proof fn lemma_parse_lines_app(a: Seq<Seq<u8>>, b: Seq<Seq<u8>>)
    requires
        parse_lines(a) is Some,
        parse_lines(b) is Some,
    ensures
        parse_lines(a + b) == Some(parse_lines(a).unwrap() + parse_lines(b).unwrap()),
    decreases a.len(),
{
    if a.len() == 0 {
        assert(a + b =~= b);
        assert(parse_lines(a).unwrap() + parse_lines(b).unwrap() =~= parse_lines(b).unwrap());
    } else {
        assert((a + b)[0] == a[0]);
        assert((a + b).drop_first() =~= a.drop_first() + b);
        lemma_parse_lines_app(a.drop_first(), b);
        if a[0].len() > 0 && a[0][0] == 35 {
        } else {
            let t = parse_sample_line(a[0]).unwrap();
            assert(seq![t] + (parse_lines(a.drop_first()).unwrap() + parse_lines(b).unwrap()) =~= (
            seq![t] + parse_lines(a.drop_first()).unwrap()) + parse_lines(b).unwrap());
        }
    }
}

/// Reading a family's sample lines yields exactly its samples.
pub proof fn lemma_parse_sample_lines(name: Seq<u8>, ss: Seq<SampleV>)
    requires
        wf_name(name),
        forall|i: int| 0 <= i < ss.len() ==> wf_sample(#[trigger] ss[i]),
    ensures
        parse_lines(sample_lines(name, ss)) == Some(family_tuples_from(name, ss)),
    decreases ss.len(),
{
    if ss.len() == 0 {
    } else {
        let lines = sample_lines(name, ss);
        let sd = ss.drop_first();
        assert(lines[0] == sample_line(name, ss[0]));
        assert(lines.drop_first() =~= sample_lines(name, sd));
        lemma_parse_sample_line_rt(name, ss[0]);
        assert(lines[0][0] == name[0]);
        assert(lines[0].len() > 0);
        assert(name[0] != 35);
        assert forall|i: int| 0 <= i < sd.len() implies wf_sample(#[trigger] sd[i]) by {
            assert(sd[i] == ss[i + 1]);
        }
        lemma_parse_sample_lines(name, sd);
        assert(seq![sample_tuple(name, ss[0])] + family_tuples_from(name, sd)
            == family_tuples_from(name, ss));
    }
}

/// Reading all lines of a family yields exactly its samples; the help and
/// type lines are comments and contribute none.
pub proof fn lemma_parse_family(f: FamilyV)
    requires
        wf_family(f),
    ensures
        parse_lines(family_lines(f)) == Some(family_tuples_from(f.name, f.samples)),
{
    let lines = family_lines(f);
    assert(lines[0] == help_line(f));
    assert(help_line(f)[0] == 35);
    assert(lines[0].len() > 0);
    let lines1 = seq![type_line(f)] + sample_lines(f.name, f.samples);
    assert(lines.drop_first() =~= lines1);
    assert(parse_lines(lines) == parse_lines(lines1));
    assert(lines1[0] == type_line(f));
    assert(type_line(f)[0] == 35);
    assert(lines1[0].len() > 0);
    assert(lines1.drop_first() =~= sample_lines(f.name, f.samples));
    assert(parse_lines(lines1) == parse_lines(sample_lines(f.name, f.samples)));
    lemma_parse_sample_lines(f.name, f.samples);
}

/// Reading all lines of a snapshot yields exactly its exposed samples.
pub proof fn lemma_parse_all(fams: Seq<FamilyV>)
    requires
        forall|i: int| 0 <= i < fams.len() ==> wf_family(#[trigger] fams[i]),
    ensures
        parse_lines(all_lines(fams)) == Some(exposed_tuples(fams)),
    decreases fams.len(),
{
    if fams.len() == 0 {
    } else {
        let fd = fams.drop_first();
        assert forall|i: int| 0 <= i < fd.len() implies wf_family(#[trigger] fd[i]) by {
            assert(fd[i] == fams[i + 1]);
        }
        assert(all_lines(fams) == family_lines(fams[0]) + all_lines(fd));
        lemma_parse_family(fams[0]);
        lemma_parse_all(fd);
        lemma_parse_lines_app(family_lines(fams[0]), all_lines(fd));
        assert(family_tuples_from(fams[0].name, fams[0].samples) + exposed_tuples(fd)
            == exposed_tuples(fams));
    }
}

/// The round-trip theorem: encoding a well-formed snapshot and reading the
/// result back with the conformant reader yields exactly the samples the
/// snapshot exposes — names, label sets and rendered values, in order.
pub proof fn lemma_encode_parse_round_trip(fams: Seq<FamilyV>)
    requires
        wf_snapshot(fams),
    ensures
        parse_exposition(exposition(fams)) == Some(exposed_tuples(fams)),
{
    lemma_no_nl_all_lines(fams);
    lemma_split_join(all_lines(fams));
    lemma_parse_all(fams);
}

/// No scrape of a well-formed snapshot is ever malformed: the body of the
/// successful metrics response always reads back cleanly, with exactly the
/// snapshot's samples — whatever other snapshots other requests see.
pub proof fn lemma_scrape_body_sound(fams: Seq<FamilyV>)
    requires
        wf_snapshot(fams),
    ensures
        parse_exposition(
            crate::response::spec_response(
                crate::router::HttpMethod::Get,
                crate::router::metrics_path(),
                Ok(fams),
            ).body,
        ) == Some(exposed_tuples(fams)),
{
    lemma_encode_parse_round_trip(fams);
}


} // verus!
