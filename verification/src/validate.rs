//! A verified well-formedness check for snapshots.
//!
//! The round-trip and malformedness-freedom theorems hold of well-formed
//! snapshots; this check decides well-formedness at run time, so the process
//! that fills a snapshot from its registry can refuse a bad one instead of
//! serving it.

use vstd::prelude::*;

use crate::model::{
    is_label_name_byte, is_label_name_start_byte, is_name_byte, is_name_start_byte, is_value_byte,
    wf_family, wf_label, wf_label_name, wf_name, wf_sample, wf_snapshot, wf_value, MetricFamily,
    Sample, Snapshot,
};

verus! {

/// Decides `is_name_byte`.
fn byte_is_name(b: u8) -> (r: bool)
    ensures
        r == is_name_byte(b),
{
    (97 <= b && b <= 122) || (65 <= b && b <= 90) || (48 <= b && b <= 57) || b == 95 || b == 58
}

/// Decides `is_name_start_byte`.
fn byte_is_name_start(b: u8) -> (r: bool)
    ensures
        r == is_name_start_byte(b),
{
    (97 <= b && b <= 122) || (65 <= b && b <= 90) || b == 95 || b == 58
}

/// Decides `is_label_name_byte`.
fn byte_is_label_name(b: u8) -> (r: bool)
    ensures
        r == is_label_name_byte(b),
{
    (97 <= b && b <= 122) || (65 <= b && b <= 90) || (48 <= b && b <= 57) || b == 95
}

/// Decides `is_label_name_start_byte`.
fn byte_is_label_name_start(b: u8) -> (r: bool)
    ensures
        r == is_label_name_start_byte(b),
{
    (97 <= b && b <= 122) || (65 <= b && b <= 90) || b == 95
}

/// Decides `is_value_byte`.
fn byte_is_value(b: u8) -> (r: bool)
    ensures
        r == is_value_byte(b),
{
    (48 <= b && b <= 57) || b == 43 || b == 45 || b == 46 || b == 101 || b == 69 || b == 78 || b
        == 97 || b == 110 || b == 73 || b == 105 || b == 102
}

/// Decides `wf_name`.
fn name_well_formed(v: &Vec<u8>) -> (r: bool)
    ensures
        r == wf_name(v@),
{
    if v.len() == 0 {
        return false;
    }
    if !byte_is_name_start(v[0]) {
        return false;
    }
    let mut i: usize = 0;
    while i < v.len()
        invariant
            0 <= i <= v@.len(),
            forall|k: int| 0 <= k < i ==> is_name_byte(#[trigger] v@[k]),
        decreases v@.len() - i,
    {
        if !byte_is_name(v[i]) {
            return false;
        }
        i = i + 1;
    }
    true
}

/// Decides `wf_label_name`.
fn label_name_well_formed(v: &Vec<u8>) -> (r: bool)
    ensures
        r == wf_label_name(v@),
{
    if v.len() == 0 {
        return false;
    }
    if !byte_is_label_name_start(v[0]) {
        return false;
    }
    let mut i: usize = 0;
    while i < v.len()
        invariant
            0 <= i <= v@.len(),
            forall|k: int| 0 <= k < i ==> is_label_name_byte(#[trigger] v@[k]),
        decreases v@.len() - i,
    {
        if !byte_is_label_name(v[i]) {
            return false;
        }
        i = i + 1;
    }
    true
}

/// Decides `wf_value`.
fn value_well_formed(v: &Vec<u8>) -> (r: bool)
    ensures
        r == wf_value(v@),
{
    if v.len() == 0 {
        return false;
    }
    let mut i: usize = 0;
    while i < v.len()
        invariant
            0 <= i <= v@.len(),
            forall|k: int| 0 <= k < i ==> is_value_byte(#[trigger] v@[k]),
        decreases v@.len() - i,
    {
        if !byte_is_value(v[i]) {
            return false;
        }
        i = i + 1;
    }
    true
}

/// Compares two byte vectors.
fn vec_bytes_eq(a: &Vec<u8>, b: &Vec<u8>) -> (r: bool)
    ensures
        r == (a@ == b@),
{
    crate::router::bytes_eq(a.as_slice(), b.as_slice())
}

/// Decides `wf_sample`: well-formed labels with pairwise distinct names,
/// and a well-formed rendered value.
fn sample_well_formed(s: &Sample) -> (r: bool)
    ensures
        r == wf_sample(s.deep_view()),
{
    let ghost sv = s.deep_view();
    if !value_well_formed(&s.value) {
        return false;
    }
    let n = s.labels.len();
    proof {
        assert(sv.labels.len() == s.labels@.len());
    }
    let mut i: usize = 0;
    while i < n
        invariant
            sv == s.deep_view(),
            n == s.labels@.len(),
            sv.labels.len() == n as int,
            0 <= i <= n,
            wf_value(sv.value),
            forall|k: int| 0 <= k < i ==> wf_label(#[trigger] sv.labels[k]),
            forall|k: int, l: int|
                0 <= k < l < n && k < i ==> sv.labels[k].name != sv.labels[l].name,
        decreases n - i,
    {
        proof {
            assert(s.labels@[i as int].deep_view() == sv.labels[i as int]);
        }
        if !label_name_well_formed(&s.labels[i].name) {
            return false;
        }
        let mut j: usize = i + 1;
        while j < n
            invariant
                sv == s.deep_view(),
                n == s.labels@.len(),
                sv.labels.len() == n as int,
                0 <= i < n,
                i < j <= n,
                forall|l: int| i < l < j ==> sv.labels[i as int].name != #[trigger] sv.labels[l].name,
            decreases n - j,
        {
            proof {
                assert(s.labels@[i as int].deep_view() == sv.labels[i as int]);
                assert(s.labels@[j as int].deep_view() == sv.labels[j as int]);
            }
            if vec_bytes_eq(&s.labels[i].name, &s.labels[j].name) {
                proof {
                    assert(sv.labels[i as int].name == sv.labels[j as int].name);
                }
                return false;
            }
            j = j + 1;
        }
        i = i + 1;
    }
    true
}

/// Decides `wf_family`: a well-formed name and well-formed samples.
fn family_well_formed(f: &MetricFamily) -> (r: bool)
    ensures
        r == wf_family(f.deep_view()),
{
    let ghost fv = f.deep_view();
    if !name_well_formed(&f.name) {
        return false;
    }
    let n = f.samples.len();
    let mut i: usize = 0;
    while i < n
        invariant
            fv == f.deep_view(),
            n == f.samples@.len(),
            fv.samples.len() == n as int,
            0 <= i <= n,
            wf_name(fv.name),
            forall|k: int| 0 <= k < i ==> wf_sample(#[trigger] fv.samples[k]),
        decreases n - i,
    {
        proof {
            assert(f.samples@[i as int].deep_view() == fv.samples[i as int]);
        }
        if !sample_well_formed(&f.samples[i]) {
            return false;
        }
        i = i + 1;
    }
    true
}

/// Decides `wf_snapshot`: well-formed families with pairwise distinct
/// names. When this answers true, the round-trip theorem applies to the
/// snapshot's encoding, so no scrape of it can be malformed.
pub fn snapshot_well_formed(snap: &Snapshot) -> (r: bool)
    ensures
        r == wf_snapshot(snap@),
{
    let ghost fams = snap@;
    let n = snap.families.len();
    let mut i: usize = 0;
    while i < n
        invariant
            fams == snap@,
            n == snap.families@.len(),
            fams.len() == n as int,
            0 <= i <= n,
            forall|k: int| 0 <= k < i ==> wf_family(#[trigger] fams[k]),
            forall|k: int, l: int| 0 <= k < l < n && k < i ==> fams[k].name != fams[l].name,
        decreases n - i,
    {
        proof {
            assert(snap.families@[i as int].deep_view() == fams[i as int]);
        }
        if !family_well_formed(&snap.families[i]) {
            return false;
        }
        let mut j: usize = i + 1;
        while j < n
            invariant
                fams == snap@,
                n == snap.families@.len(),
                fams.len() == n as int,
                0 <= i < n,
                i < j <= n,
                forall|l: int| i < l < j ==> fams[i as int].name != #[trigger] fams[l].name,
            decreases n - j,
        {
            proof {
                assert(snap.families@[i as int].deep_view() == fams[i as int]);
                assert(snap.families@[j as int].deep_view() == fams[j as int]);
            }
            if vec_bytes_eq(&snap.families[i].name, &snap.families[j].name) {
                proof {
                    assert(fams[i as int].name == fams[j as int].name);
                }
                return false;
            }
            j = j + 1;
        }
        i = i + 1;
    }
    true
}

} // verus!
