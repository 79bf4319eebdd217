//! The data model of a metrics snapshot.
//!
//! All text is carried as bytes (`Vec<u8>`), since the exposition format is
//! a byte-oriented wire format. Numeric sample values arrive already rendered
//! as decimal/exponent literals (the process that reads the registry formats
//! them before handing a snapshot to this crate).

use vstd::prelude::*;

verus! {

/// The type of a metric family, as written on the `# TYPE` line.
#[derive(Clone, Copy, Debug, PartialEq, Eq, Structural)]
pub enum MetricKind {
    Counter,
    Gauge,
    Histogram,
    Summary,
    Untyped,
}

/// One label: a name/value pair attached to a sample.
pub struct Label {
    pub name: Vec<u8>,
    pub value: Vec<u8>,
}

/// One sample of a family: a label set and a rendered numeric value.
pub struct Sample {
    pub labels: Vec<Label>,
    pub value: Vec<u8>,
}

/// A named group of samples sharing a type and a help text.
pub struct MetricFamily {
    pub name: Vec<u8>,
    pub help: Vec<u8>,
    pub kind: MetricKind,
    pub samples: Vec<Sample>,
}

/// An immutable, point-in-time view of all metric families.
pub struct Snapshot {
    pub families: Vec<MetricFamily>,
}

/// Mathematical value of a `Label`.
#[verifier::ext_equal]
pub struct LabelV {
    pub name: Seq<u8>,
    pub value: Seq<u8>,
}

/// Mathematical value of a `Sample`.
#[verifier::ext_equal]
pub struct SampleV {
    pub labels: Seq<LabelV>,
    pub value: Seq<u8>,
}

/// Mathematical value of a `MetricFamily`.
#[verifier::ext_equal]
pub struct FamilyV {
    pub name: Seq<u8>,
    pub help: Seq<u8>,
    pub kind: MetricKind,
    pub samples: Seq<SampleV>,
}

impl DeepView for Label {
    type V = LabelV;

    open spec fn deep_view(&self) -> LabelV {
        LabelV { name: self.name@, value: self.value@ }
    }
}

impl DeepView for Sample {
    type V = SampleV;

    open spec fn deep_view(&self) -> SampleV {
        SampleV { labels: self.labels.deep_view(), value: self.value@ }
    }
}

impl DeepView for MetricFamily {
    type V = FamilyV;

    open spec fn deep_view(&self) -> FamilyV {
        FamilyV {
            name: self.name@,
            help: self.help@,
            kind: self.kind,
            samples: self.samples.deep_view(),
        }
    }
}

impl View for Snapshot {
    type V = Seq<FamilyV>;

    open spec fn view(&self) -> Seq<FamilyV> {
        self.families.deep_view()
    }
}

/// A byte allowed anywhere in a metric name: `[a-zA-Z0-9_:]`.
pub open spec fn is_name_byte(b: u8) -> bool {
    (97 <= b <= 122)  // a-z
    || (65 <= b <= 90)  // A-Z
    || (48 <= b <= 57)  // 0-9
    || b == 95  // _
    || b == 58  // :
}

/// A byte allowed to start a metric name: `[a-zA-Z_:]`.
pub open spec fn is_name_start_byte(b: u8) -> bool {
    (97 <= b <= 122) || (65 <= b <= 90) || b == 95 || b == 58
}

/// A byte allowed in a label name: `[a-zA-Z0-9_]` (no colon).
pub open spec fn is_label_name_byte(b: u8) -> bool {
    (97 <= b <= 122) || (65 <= b <= 90) || (48 <= b <= 57) || b == 95
}

/// A byte allowed to start a label name: `[a-zA-Z_]`.
pub open spec fn is_label_name_start_byte(b: u8) -> bool {
    (97 <= b <= 122) || (65 <= b <= 90) || b == 95
}

/// A byte of a rendered numeric literal: digits, sign, decimal point,
/// exponent markers, and the letters of `NaN` / `inf` / `Inf`.
pub open spec fn is_value_byte(b: u8) -> bool {
    (48 <= b <= 57)  // 0-9
    || b == 43  // +
    || b == 45  // -
    || b == 46  // .
    || b == 101 || b == 69  // e E
    || b == 78 || b == 97 || b == 110  // N a n
    || b == 73 || b == 105 || b == 102  // I i f
}

/// A well-formed metric name: nonempty, valid start byte, valid name bytes.
pub open spec fn wf_name(s: Seq<u8>) -> bool {
    &&& s.len() > 0
    &&& is_name_start_byte(s[0])
    &&& forall|i: int| 0 <= i < s.len() ==> is_name_byte(#[trigger] s[i])
}

/// A well-formed label name: nonempty, valid start byte, valid bytes.
pub open spec fn wf_label_name(s: Seq<u8>) -> bool {
    &&& s.len() > 0
    &&& is_label_name_start_byte(s[0])
    &&& forall|i: int| 0 <= i < s.len() ==> is_label_name_byte(#[trigger] s[i])
}

/// A well-formed rendered value: nonempty and made of value bytes only.
pub open spec fn wf_value(s: Seq<u8>) -> bool {
    &&& s.len() > 0
    &&& forall|i: int| 0 <= i < s.len() ==> is_value_byte(#[trigger] s[i])
}

/// A well-formed label. Its value may hold any bytes: the encoder escapes.
pub open spec fn wf_label(l: LabelV) -> bool {
    wf_label_name(l.name)
}

/// A well-formed sample: valid labels with distinct names, valid value.
pub open spec fn wf_sample(s: SampleV) -> bool {
    &&& forall|i: int| 0 <= i < s.labels.len() ==> wf_label(#[trigger] s.labels[i])
    &&& forall|i: int, j: int|
        0 <= i < j < s.labels.len() ==> s.labels[i].name != s.labels[j].name
    &&& wf_value(s.value)
}

/// A well-formed family: valid name and samples. Its help text may hold any
/// bytes: the encoder escapes.
pub open spec fn wf_family(f: FamilyV) -> bool {
    &&& wf_name(f.name)
    &&& forall|i: int| 0 <= i < f.samples.len() ==> wf_sample(#[trigger] f.samples[i])
}

/// A well-formed snapshot: valid families with distinct names.
pub open spec fn wf_snapshot(fams: Seq<FamilyV>) -> bool {
    &&& forall|i: int| 0 <= i < fams.len() ==> wf_family(#[trigger] fams[i])
    &&& forall|i: int, j: int| 0 <= i < j < fams.len() ==> fams[i].name != fams[j].name
}

impl Snapshot {
    /// The empty snapshot: no families at all.
    pub fn new() -> (r: Snapshot)
        ensures
            r@ =~= Seq::<FamilyV>::empty(),
            wf_snapshot(r@),
    {
        Snapshot { families: Vec::new() }
    }
}

} // verus!
