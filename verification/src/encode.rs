//! The text exposition format and its verified encoder.
//!
//! The wire format, stated as spec functions over the mathematical model:
//! each family is rendered as a `# HELP` line, a `# TYPE` line, and one line
//! per sample; every line ends in a newline byte. Help texts and label
//! values are escaped so that no line ever holds an interior newline.

use vstd::prelude::*;

use crate::model::{FamilyV, Label, LabelV, MetricFamily, MetricKind, Sample, SampleV, Snapshot};

verus! {

/// Escaping of one byte of a label value: backslash, double quote and
/// newline are written as two-byte escapes.
pub open spec fn esc_label_byte(b: u8) -> Seq<u8> {
    if b == 92 {
        seq![92u8, 92u8]
    } else if b == 34 {
        seq![92u8, 34u8]
    } else if b == 10 {
        seq![92u8, 110u8]
    } else {
        seq![b]
    }
}

/// Escaping of a whole label value.
pub open spec fn escape_label_value(s: Seq<u8>) -> Seq<u8>
    decreases s.len(),
{
    if s.len() == 0 {
        Seq::empty()
    } else {
        esc_label_byte(s[0]) + escape_label_value(s.drop_first())
    }
}

/// Escaping of one byte of a help text: backslash and newline are written
/// as two-byte escapes (quotes stay as they are on a help line).
pub open spec fn esc_help_byte(b: u8) -> Seq<u8> {
    if b == 92 {
        seq![92u8, 92u8]
    } else if b == 10 {
        seq![92u8, 110u8]
    } else {
        seq![b]
    }
}

/// Escaping of a whole help text.
pub open spec fn escape_help(s: Seq<u8>) -> Seq<u8>
    decreases s.len(),
{
    if s.len() == 0 {
        Seq::empty()
    } else {
        esc_help_byte(s[0]) + escape_help(s.drop_first())
    }
}

/// One rendered label: `name="escaped-value"`.
pub open spec fn enc_label(l: LabelV) -> Seq<u8> {
    l.name + seq![61u8, 34u8] + escape_label_value(l.value) + seq![34u8]
}

/// Labels joined by commas (without the surrounding braces).
pub open spec fn enc_labels_inner(ls: Seq<LabelV>) -> Seq<u8>
    decreases ls.len(),
{
    if ls.len() == 0 {
        Seq::empty()
    } else if ls.len() == 1 {
        enc_label(ls[0])
    } else {
        enc_label(ls[0]) + seq![44u8] + enc_labels_inner(ls.drop_first())
    }
}

/// A rendered label set: empty, or `{...}` around the joined labels.
pub open spec fn enc_labelset(ls: Seq<LabelV>) -> Seq<u8> {
    if ls.len() == 0 {
        Seq::empty()
    } else {
        seq![123u8] + enc_labels_inner(ls) + seq![125u8]
    }
}

/// One sample line (without its newline): `name{labels} value`.
pub open spec fn sample_line(name: Seq<u8>, s: SampleV) -> Seq<u8> {
    name + enc_labelset(s.labels) + seq![32u8] + s.value
}

/// The bytes of `"# HELP "`.
pub open spec fn help_prefix() -> Seq<u8> {
    seq![35u8, 32u8, 72u8, 69u8, 76u8, 80u8, 32u8]
}

/// The bytes of `"# TYPE "`.
pub open spec fn type_prefix() -> Seq<u8> {
    seq![35u8, 32u8, 84u8, 89u8, 80u8, 69u8, 32u8]
}

/// The name of a metric kind as written on the `# TYPE` line.
pub open spec fn kind_bytes(k: MetricKind) -> Seq<u8> {
    match k {
        MetricKind::Counter => seq![99u8, 111u8, 117u8, 110u8, 116u8, 101u8, 114u8],
        MetricKind::Gauge => seq![103u8, 97u8, 117u8, 103u8, 101u8],
        MetricKind::Histogram => seq![
            104u8,
            105u8,
            115u8,
            116u8,
            111u8,
            103u8,
            114u8,
            97u8,
            109u8,
        ],
        MetricKind::Summary => seq![115u8, 117u8, 109u8, 109u8, 97u8, 114u8, 121u8],
        MetricKind::Untyped => seq![117u8, 110u8, 116u8, 121u8, 112u8, 101u8, 100u8],
    }
}

/// The `# HELP` line of a family (without its newline).
pub open spec fn help_line(f: FamilyV) -> Seq<u8> {
    help_prefix() + f.name + seq![32u8] + escape_help(f.help)
}

/// The `# TYPE` line of a family (without its newline).
pub open spec fn type_line(f: FamilyV) -> Seq<u8> {
    type_prefix() + f.name + seq![32u8] + kind_bytes(f.kind)
}

/// The sample lines of a family, in sample order.
pub open spec fn sample_lines(name: Seq<u8>, ss: Seq<SampleV>) -> Seq<Seq<u8>>
    decreases ss.len(),
{
    if ss.len() == 0 {
        Seq::empty()
    } else {
        seq![sample_line(name, ss[0])] + sample_lines(name, ss.drop_first())
    }
}

/// All lines of one family: help line, type line, then the sample lines.
pub open spec fn family_lines(f: FamilyV) -> Seq<Seq<u8>> {
    seq![help_line(f), type_line(f)] + sample_lines(f.name, f.samples)
}

/// All lines of a snapshot, in family order.
pub open spec fn all_lines(fams: Seq<FamilyV>) -> Seq<Seq<u8>>
    decreases fams.len(),
{
    if fams.len() == 0 {
        Seq::empty()
    } else {
        family_lines(fams[0]) + all_lines(fams.drop_first())
    }
}

/// Lines joined into a byte stream, a newline after every line.
pub open spec fn join_nl(lines: Seq<Seq<u8>>) -> Seq<u8>
    decreases lines.len(),
{
    if lines.len() == 0 {
        Seq::empty()
    } else {
        lines[0] + seq![10u8] + join_nl(lines.drop_first())
    }
}

/// The full exposition of a snapshot: its lines, newline-terminated.
pub open spec fn exposition(fams: Seq<FamilyV>) -> Seq<u8> {
    join_nl(all_lines(fams))
}

/// Joining distributes over concatenation of line sequences.
pub proof fn lemma_join_nl_app(a: Seq<Seq<u8>>, b: Seq<Seq<u8>>)
    ensures
        join_nl(a + b) == join_nl(a) + join_nl(b),
    decreases a.len(),
{
    if a.len() == 0 {
        assert(a + b =~= b);
        assert(join_nl(a) + join_nl(b) =~= join_nl(b));
    } else {
        assert((a + b).drop_first() =~= a.drop_first() + b);
        lemma_join_nl_app(a.drop_first(), b);
        assert(join_nl(a + b) =~= join_nl(a) + join_nl(b));
    }
}

/// Sample lines distribute over concatenation of sample sequences.
pub proof fn lemma_sample_lines_app(name: Seq<u8>, a: Seq<SampleV>, b: Seq<SampleV>)
    ensures
        sample_lines(name, a + b) == sample_lines(name, a) + sample_lines(name, b),
    decreases a.len(),
{
    if a.len() == 0 {
        assert(a + b =~= b);
        assert(sample_lines(name, a) + sample_lines(name, b) =~= sample_lines(name, b));
    } else {
        assert((a + b).drop_first() =~= a.drop_first() + b);
        lemma_sample_lines_app(name, a.drop_first(), b);
        assert((a + b)[0] == a[0]);
        assert(sample_lines(name, a + b) =~= sample_lines(name, a) + sample_lines(name, b));
    }
}

/// Family lines distribute over concatenation of family sequences.
pub proof fn lemma_all_lines_app(a: Seq<FamilyV>, b: Seq<FamilyV>)
    ensures
        all_lines(a + b) == all_lines(a) + all_lines(b),
    decreases a.len(),
{
    if a.len() == 0 {
        assert(a + b =~= b);
        assert(all_lines(a) + all_lines(b) =~= all_lines(b));
    } else {
        assert((a + b).drop_first() =~= a.drop_first() + b);
        lemma_all_lines_app(a.drop_first(), b);
        assert((a + b)[0] == a[0]);
        assert(all_lines(a + b) =~= all_lines(a) + all_lines(b));
    }
}

/// Label-value escaping distributes over concatenation.
pub proof fn lemma_escape_label_value_app(a: Seq<u8>, b: Seq<u8>)
    ensures
        escape_label_value(a + b) == escape_label_value(a) + escape_label_value(b),
    decreases a.len(),
{
    if a.len() == 0 {
        assert(a + b =~= b);
        assert(escape_label_value(a) + escape_label_value(b) =~= escape_label_value(b));
    } else {
        assert((a + b).drop_first() =~= a.drop_first() + b);
        lemma_escape_label_value_app(a.drop_first(), b);
        assert((a + b)[0] == a[0]);
        assert(escape_label_value(a + b) =~= escape_label_value(a) + escape_label_value(b));
    }
}

/// Help escaping distributes over concatenation.
pub proof fn lemma_escape_help_app(a: Seq<u8>, b: Seq<u8>)
    ensures
        escape_help(a + b) == escape_help(a) + escape_help(b),
    decreases a.len(),
{
    if a.len() == 0 {
        assert(a + b =~= b);
        assert(escape_help(a) + escape_help(b) =~= escape_help(b));
    } else {
        assert((a + b).drop_first() =~= a.drop_first() + b);
        lemma_escape_help_app(a.drop_first(), b);
        assert((a + b)[0] == a[0]);
        assert(escape_help(a + b) =~= escape_help(a) + escape_help(b));
    }
}

/// Appends a copy of `s` to `out`.
fn push_all(out: &mut Vec<u8>, s: &Vec<u8>)
    ensures
        final(out)@ == old(out)@ + s@,
{
    let mut i: usize = 0;
    while i < s.len()
        invariant
            0 <= i <= s@.len(),
            out@ == old(out)@ + s@.take(i as int),
        decreases s@.len() - i,
    {
        out.push(s[i]);
        proof {
            assert(s@.take(i + 1 as int) =~= s@.take(i as int).push(s@[i as int]));
            assert(old(out)@ + s@.take(i + 1 as int) =~= (old(out)@ + s@.take(
                i as int,
            )).push(s@[i as int]));
        }
        i = i + 1;
    }
    proof {
        assert(s@.take(s@.len() as int) =~= s@);
    }
}

/// Appends the escaped form of a label value.
fn push_escaped_label_value(out: &mut Vec<u8>, s: &Vec<u8>)
    ensures
        final(out)@ == old(out)@ + escape_label_value(s@),
{
    let mut i: usize = 0;
    while i < s.len()
        invariant
            0 <= i <= s@.len(),
            out@ == old(out)@ + escape_label_value(s@.take(i as int)),
        decreases s@.len() - i,
    {
        let b = s[i];
        if b == 92 {
            out.push(92);
            out.push(92);
        } else if b == 34 {
            out.push(92);
            out.push(34);
        } else if b == 10 {
            out.push(92);
            out.push(110);
        } else {
            out.push(b);
        }
        proof {
            assert(s@.take(i + 1 as int) =~= s@.take(i as int) + seq![s@[i as int]]);
            lemma_escape_label_value_app(s@.take(i as int), seq![s@[i as int]]);
            lemma_escape_label_value_single(s@[i as int]);
            assert(out@ =~= old(out)@ + escape_label_value(s@.take(i + 1 as int)));
        }
        i = i + 1;
    }
    proof {
        assert(s@.take(s@.len() as int) =~= s@);
    }
}

/// Appends the escaped form of a help text.
fn push_escaped_help(out: &mut Vec<u8>, s: &Vec<u8>)
    ensures
        final(out)@ == old(out)@ + escape_help(s@),
{
    let mut i: usize = 0;
    while i < s.len()
        invariant
            0 <= i <= s@.len(),
            out@ == old(out)@ + escape_help(s@.take(i as int)),
        decreases s@.len() - i,
    {
        let b = s[i];
        if b == 92 {
            out.push(92);
            out.push(92);
        } else if b == 10 {
            out.push(92);
            out.push(110);
        } else {
            out.push(b);
        }
        proof {
            assert(s@.take(i + 1 as int) =~= s@.take(i as int) + seq![s@[i as int]]);
            lemma_escape_help_app(s@.take(i as int), seq![s@[i as int]]);
            lemma_escape_help_single(s@[i as int]);
            assert(out@ =~= old(out)@ + escape_help(s@.take(i + 1 as int)));
        }
        i = i + 1;
    }
    proof {
        assert(s@.take(s@.len() as int) =~= s@);
    }
}

/// Appends `"# HELP "`.
fn push_help_prefix(out: &mut Vec<u8>)
    ensures
        final(out)@ == old(out)@ + help_prefix(),
{
    out.push(35);
    out.push(32);
    out.push(72);
    out.push(69);
    out.push(76);
    out.push(80);
    out.push(32);
    proof {
        assert(out@ =~= old(out)@ + help_prefix());
    }
}

/// Appends `"# TYPE "`.
fn push_type_prefix(out: &mut Vec<u8>)
    ensures
        final(out)@ == old(out)@ + type_prefix(),
{
    out.push(35);
    out.push(32);
    out.push(84);
    out.push(89);
    out.push(80);
    out.push(69);
    out.push(32);
    proof {
        assert(out@ =~= old(out)@ + type_prefix());
    }
}

/// Appends the name of a metric kind.
fn push_kind(out: &mut Vec<u8>, k: MetricKind)
    ensures
        final(out)@ == old(out)@ + kind_bytes(k),
{
    match k {
        MetricKind::Counter => {
            out.push(99);
            out.push(111);
            out.push(117);
            out.push(110);
            out.push(116);
            out.push(101);
            out.push(114);
        },
        MetricKind::Gauge => {
            out.push(103);
            out.push(97);
            out.push(117);
            out.push(103);
            out.push(101);
        },
        MetricKind::Histogram => {
            out.push(104);
            out.push(105);
            out.push(115);
            out.push(116);
            out.push(111);
            out.push(103);
            out.push(114);
            out.push(97);
            out.push(109);
        },
        MetricKind::Summary => {
            out.push(115);
            out.push(117);
            out.push(109);
            out.push(109);
            out.push(97);
            out.push(114);
            out.push(121);
        },
        MetricKind::Untyped => {
            out.push(117);
            out.push(110);
            out.push(116);
            out.push(121);
            out.push(112);
            out.push(101);
            out.push(100);
        },
    }
    proof {
        assert(out@ =~= old(out)@ + kind_bytes(k));
    }
}

/// Appends one rendered label set (or nothing, when there are no labels).
fn push_labelset(out: &mut Vec<u8>, labels: &Vec<Label>)
    ensures
        final(out)@ == old(out)@ + enc_labelset(labels.deep_view()),
{
    if labels.len() == 0 {
        proof {
            assert(out@ =~= old(out)@ + enc_labelset(labels.deep_view()));
        }
        return ;
    }
    out.push(123);
    let ghost lv = labels.deep_view();
    let mut j: usize = 0;
    while j < labels.len()
        invariant
            lv == labels.deep_view(),
            lv.len() == labels@.len(),
            0 < lv.len(),
            0 <= j <= lv.len(),
            j == 0 ==> out@ == old(out)@ + seq![123u8],
            j > 0 ==> out@ == old(out)@ + seq![123u8] + enc_labels_inner(lv.take(j as int)),
        decreases lv.len() - j,
    {
        if j > 0 {
            out.push(44);
        }
        let l = &labels[j];
        push_all(out, &l.name);
        out.push(61);
        out.push(34);
        push_escaped_label_value(out, &l.value);
        out.push(34);
        proof {
            assert(labels@[j as int].deep_view() == lv[j as int]);
            if j == 0 {
                assert(lv.take(1int) =~= seq![lv[0]]);
                assert(enc_labels_inner(seq![lv[0]]) == enc_label(lv[0]));
                assert(out@ =~= old(out)@ + seq![123u8] + enc_labels_inner(lv.take(1int)));
            } else {
                lemma_labels_inner_snoc(lv, j as int);
                assert(out@ =~= old(out)@ + seq![123u8] + enc_labels_inner(
                    lv.take(j + 1 as int),
                ));
            }
        }
        j = j + 1;
    }
    out.push(125);
    proof {
        assert(lv.take(lv.len() as int) =~= lv);
        assert(out@ =~= old(out)@ + enc_labelset(lv));
    }
}

/// Unfolds the comma-joined label rendering at its right end.
proof fn lemma_labels_inner_snoc(ls: Seq<LabelV>, j: int)
    requires
        1 <= j < ls.len(),
    ensures
        enc_labels_inner(ls.take(j + 1)) == enc_labels_inner(ls.take(j)) + seq![44u8] + enc_label(
            ls[j],
        ),
    decreases j,
{
    if j == 1 {
        assert(ls.take(2)[0] == ls[0]);
        assert(ls.take(2).drop_first() =~= seq![ls[1]]);
        assert(ls.take(1) =~= seq![ls[0]]);
        assert(enc_labels_inner(seq![ls[1]]) == enc_label(ls[1]));
        assert(enc_labels_inner(ls.take(2)) =~= enc_labels_inner(ls.take(1)) + seq![44u8]
            + enc_label(ls[1]));
    } else {
        lemma_labels_inner_snoc(ls.drop_first(), j - 1);
        assert(ls.take(j + 1).drop_first() =~= ls.drop_first().take(j));
        assert(ls.take(j).drop_first() =~= ls.drop_first().take(j - 1));
        assert(ls.take(j + 1)[0] == ls[0]);
        assert(ls.take(j)[0] == ls[0]);
        assert(ls.drop_first()[j - 1] == ls[j]);
        assert(enc_labels_inner(ls.take(j + 1)) =~= enc_labels_inner(ls.take(j)) + seq![44u8]
            + enc_label(ls[j]));
    }
}

/// Joining a single line appends that line and a newline.
pub proof fn lemma_join_nl_single(l: Seq<u8>)
    ensures
        join_nl(seq![l]) == l + seq![10u8],
{
    let e = Seq::<Seq<u8>>::empty();
    assert(join_nl(e) == Seq::<u8>::empty());
    assert(seq![l].drop_first() =~= e);
    assert(join_nl(seq![l]) =~= l + seq![10u8]);
}

/// The sample lines of a single sample.
pub proof fn lemma_sample_lines_single(name: Seq<u8>, s: SampleV)
    ensures
        sample_lines(name, seq![s]) == seq![sample_line(name, s)],
{
    let e = Seq::<SampleV>::empty();
    assert(sample_lines(name, e) == Seq::<Seq<u8>>::empty());
    assert(seq![s].drop_first() =~= e);
    assert(sample_lines(name, seq![s]) =~= seq![sample_line(name, s)]);
}

/// The lines of a single family.
pub proof fn lemma_all_lines_single(f: FamilyV)
    ensures
        all_lines(seq![f]) == family_lines(f),
{
    let e = Seq::<FamilyV>::empty();
    assert(all_lines(e) == Seq::<Seq<u8>>::empty());
    assert(seq![f].drop_first() =~= e);
    assert(all_lines(seq![f]) =~= family_lines(f));
}

/// The escaped form of a single label-value byte.
pub proof fn lemma_escape_label_value_single(b: u8)
    ensures
        escape_label_value(seq![b]) == esc_label_byte(b),
{
    let e = Seq::<u8>::empty();
    assert(escape_label_value(e) == Seq::<u8>::empty());
    assert(seq![b].drop_first() =~= e);
    assert(escape_label_value(seq![b]) =~= esc_label_byte(b));
}

/// The escaped form of a single help byte.
pub proof fn lemma_escape_help_single(b: u8)
    ensures
        escape_help(seq![b]) == esc_help_byte(b),
{
    let e = Seq::<u8>::empty();
    assert(escape_help(e) == Seq::<u8>::empty());
    assert(seq![b].drop_first() =~= e);
    assert(escape_help(seq![b]) =~= esc_help_byte(b));
}

/// Joining the lines of one family, written out.
pub proof fn lemma_join_nl_family(f: FamilyV)
    ensures
        join_nl(family_lines(f)) == help_line(f) + seq![10u8] + type_line(f) + seq![10u8]
            + join_nl(sample_lines(f.name, f.samples)),
{
    let two = seq![help_line(f), type_line(f)];
    lemma_join_nl_app(two, sample_lines(f.name, f.samples));
    assert(two.drop_first() =~= seq![type_line(f)]);
    lemma_join_nl_single(type_line(f));
    assert(join_nl(two) =~= help_line(f) + seq![10u8] + type_line(f) + seq![10u8]);
    assert(join_nl(family_lines(f)) =~= help_line(f) + seq![10u8] + type_line(f) + seq![10u8]
        + join_nl(sample_lines(f.name, f.samples)));
}

/// Appends one newline-terminated sample line.
fn push_sample_line(out: &mut Vec<u8>, name: &Vec<u8>, s: &Sample)
    ensures
        final(out)@ == old(out)@ + sample_line(name@, s.deep_view()) + seq![10u8],
{
    push_all(out, name);
    push_labelset(out, &s.labels);
    out.push(32);
    push_all(out, &s.value);
    out.push(10);
    proof {
        assert(out@ =~= old(out)@ + sample_line(name@, s.deep_view()) + seq![10u8]);
    }
}

/// Appends all lines of one family, each newline-terminated.
fn push_family(out: &mut Vec<u8>, f: &MetricFamily)
    ensures
        final(out)@ == old(out)@ + join_nl(family_lines(f.deep_view())),
{
    let ghost fv = f.deep_view();
    // "# HELP name help\n"
    push_help_prefix(out);
    push_all(out, &f.name);
    out.push(32);
    push_escaped_help(out, &f.help);
    out.push(10);
    // "# TYPE name kind\n"
    push_type_prefix(out);
    push_all(out, &f.name);
    out.push(32);
    push_kind(out, f.kind);
    out.push(10);
    proof {
        assert(out@ =~= old(out)@ + help_line(fv) + seq![10u8] + type_line(fv) + seq![10u8]);
    }
    let ghost mid = out@;
    let ghost ss = fv.samples;
    let mut j: usize = 0;
    while j < f.samples.len()
        invariant
            fv == f.deep_view(),
            ss == fv.samples,
            ss.len() == f.samples@.len(),
            0 <= j <= ss.len(),
            out@ == mid + join_nl(sample_lines(fv.name, ss.take(j as int))),
        decreases ss.len() - j,
    {
        push_sample_line(out, &f.name, &f.samples[j]);
        proof {
            assert(f.samples@[j as int].deep_view() == ss[j as int]);
            assert(ss.take(j + 1 as int) =~= ss.take(j as int) + seq![ss[j as int]]);
            lemma_sample_lines_app(fv.name, ss.take(j as int), seq![ss[j as int]]);
            lemma_sample_lines_single(fv.name, ss[j as int]);
            lemma_join_nl_app(
                sample_lines(fv.name, ss.take(j as int)),
                seq![sample_line(fv.name, ss[j as int])],
            );
            lemma_join_nl_single(sample_line(fv.name, ss[j as int]));
            assert(out@ =~= mid + join_nl(sample_lines(fv.name, ss.take(j + 1 as int))));
        }
        j = j + 1;
    }
    proof {
        assert(ss.take(ss.len() as int) =~= ss);
        lemma_join_nl_family(fv);
        assert(out@ =~= old(out)@ + join_nl(family_lines(fv)));
    }
}

/// Renders a whole snapshot into the text exposition format.
///
/// The output is exactly `exposition` of the snapshot's mathematical value:
/// families in snapshot order, samples in family order, labels in sample
/// order, every line newline-terminated.
pub fn encode(snap: &Snapshot) -> (r: Vec<u8>)
    ensures
        r@ == exposition(snap@),
{
    let mut out: Vec<u8> = Vec::new();
    let ghost fv = snap@;
    let mut i: usize = 0;
    while i < snap.families.len()
        invariant
            fv == snap@,
            fv.len() == snap.families@.len(),
            0 <= i <= fv.len(),
            out@ == exposition(fv.take(i as int)),
        decreases fv.len() - i,
    {
        push_family(&mut out, &snap.families[i]);
        proof {
            assert(snap.families@[i as int].deep_view() == fv[i as int]);
            assert(fv.take(i + 1 as int) =~= fv.take(i as int) + seq![fv[i as int]]);
            lemma_all_lines_app(fv.take(i as int), seq![fv[i as int]]);
            lemma_all_lines_single(fv[i as int]);
            lemma_join_nl_app(all_lines(fv.take(i as int)), family_lines(fv[i as int]));
            assert(out@ =~= exposition(fv.take(i + 1 as int)));
        }
        i = i + 1;
    }
    proof {
        assert(fv.take(fv.len() as int) =~= fv);
    }
    out
}

} // verus!
