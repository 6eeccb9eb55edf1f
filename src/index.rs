//! The package index: the records that a resolution may choose from.
use vstd::prelude::*;
use crate::repo_data::PackageRecord;
use crate::text::{chars_eq, chars_of};
use crate::version::{lemma_version_total_order, version_eq, version_lt};

verus! {

/// The timestamp of a record, with a missing one lowest.
pub open spec fn stamp(r: PackageRecord) -> int {
    match r.timestamp {
        Some(t) => t as int,
        None => -1,
    }
}

/// `a` is tried before `b`: a higher version, then fewer track features, then a higher
/// build number, then a later timestamp.
pub open spec fn better(a: PackageRecord, b: PackageRecord) -> bool {
    ||| version_lt(b.version@, a.version@)
    ||| version_eq(a.version@, b.version@) && a.track_features.len() < b.track_features.len()
    ||| version_eq(a.version@, b.version@) && a.track_features.len() == b.track_features.len()
        && a.build_number > b.build_number
    ||| version_eq(a.version@, b.version@) && a.track_features.len() == b.track_features.len()
        && a.build_number == b.build_number && stamp(a) > stamp(b)
}

/// The search order is a strict order.
pub proof fn lemma_better_strict(a: PackageRecord, b: PackageRecord, c: PackageRecord)
    ensures
        !better(a, a),
        better(a, b) && better(b, c) ==> better(a, c),
{
    lemma_version_total_order(a.version@, b.version@, c.version@);
    lemma_version_total_order(c.version@, b.version@, a.version@);
    lemma_version_total_order(b.version@, a.version@, c.version@);
    lemma_version_total_order(b.version@, c.version@, a.version@);
    lemma_version_total_order(a.version@, c.version@, b.version@);
    lemma_version_total_order(c.version@, a.version@, b.version@);
}

/// An immutable collection of package records, queried by name.
#[derive(Debug)]
pub struct PackageIndex {
    records: Vec<PackageRecord>,
}

impl View for PackageIndex {
    type V = Seq<PackageRecord>;

    closed spec fn view(&self) -> Seq<PackageRecord> {
        self.records@
    }
}

/// `c` lists, best first, exactly the positions of the records named `name`.
pub open spec fn is_candidate_list(records: Seq<PackageRecord>, name: Seq<char>, c: Seq<usize>) -> bool {
    &&& c.no_duplicates()
    &&& forall|k: int| 0 <= k < c.len() ==> (#[trigger] c[k]) < records.len() && records[c[k] as int].name@ == name
    &&& forall|i: int| 0 <= i < records.len() && records[i].name@ == name ==> c.contains(i as usize)
    &&& forall|k: int, l: int| 0 <= k < l < c.len() ==> !better(records[#[trigger] c[l] as int], records[#[trigger] c[k] as int])
}

proof fn lemma_insert_keeps_order(records: Seq<PackageRecord>, name: Seq<char>, old_out: Seq<usize>, p: int, i: usize)
    requires
        0 <= p <= old_out.len(),
        i < records.len(),
        records[i as int].name@ == name,
        old_out.no_duplicates(),
        forall|k: int| 0 <= k < old_out.len() ==> (#[trigger] old_out[k]) < i && records[old_out[k] as int].name@ == name,
        forall|j: int| 0 <= j < i && records[j].name@ == name ==> old_out.contains(j as usize),
        forall|k: int, l: int| 0 <= k < l < old_out.len()
            ==> !better(records[#[trigger] old_out[l] as int], records[#[trigger] old_out[k] as int]),
        p < old_out.len() ==> better(records[i as int], records[old_out[p] as int]),
        forall|k: int| 0 <= k < p ==> !better(records[i as int], records[#[trigger] old_out[k] as int]),
    ensures
        ({
            let out = old_out.insert(p, i);
            &&& out.no_duplicates()
            &&& forall|k: int| 0 <= k < out.len() ==> (#[trigger] out[k]) < i + 1 && records[out[k] as int].name@ == name
            &&& forall|j: int| 0 <= j < i + 1 && records[j].name@ == name ==> out.contains(j as usize)
            &&& forall|k: int, l: int| 0 <= k < l < out.len()
                ==> !better(records[#[trigger] out[l] as int], records[#[trigger] out[k] as int])
        }),
{
    let x = records[i as int];
    let out = old_out.insert(p, i);
    assert(out[p] == i);
    assert forall|k: int| p <= k < old_out.len() implies !better(records[#[trigger] old_out[k] as int], x) by {
        lemma_better_strict(records[old_out[k] as int], x, records[old_out[p] as int]);
        lemma_better_strict(records[old_out[p] as int], x, records[old_out[p] as int]);
    }
    assert forall|k: int| 0 <= k < out.len() implies (#[trigger] out[k]) < i + 1 && records[out[k] as int].name@ == name by {
        if k < p { assert(out[k] == old_out[k]); } else if k > p { assert(out[k] == old_out[k - 1]); } else { assert(out[k] == i); }
    }
    assert forall|k: int, l: int| 0 <= k < l < out.len() implies
        !better(records[#[trigger] out[l] as int], records[#[trigger] out[k] as int]) by {
        if l < p {
            assert(out[l] == old_out[l] && out[k] == old_out[k]);
        } else if l == p {
            assert(out[l] == i && out[k] == old_out[k]);
        } else if k < p {
            assert(out[l] == old_out[l - 1] && out[k] == old_out[k]);
        } else if k == p {
            assert(out[l] == old_out[l - 1] && out[k] == i);
            assert(!better(records[old_out[l - 1] as int], x));
        } else {
            assert(out[l] == old_out[l - 1] && out[k] == old_out[k - 1]);
        }
    }
    assert forall|j: int| 0 <= j < i + 1 && records[j].name@ == name implies out.contains(j as usize) by {
        if j < i {
            let q = choose|q: int| 0 <= q < old_out.len() && old_out[q] == j as usize;
            if q < p { assert(out[q] == j as usize); } else { assert(out[q + 1] == j as usize); }
        } else {
            assert(out[p] == i);
        }
    }
    assert forall|a: int, b: int| 0 <= a < out.len() && 0 <= b < out.len() && a != b
        implies out[a] != out[b] by {
        if a != p && b != p {
            let a2 = if a < p { a } else { a - 1 };
            let b2 = if b < p { b } else { b - 1 };
            assert(out[a] == old_out[a2]);
            assert(out[b] == old_out[b2]);
        } else if a == p {
            let b2 = if b < p { b } else { b - 1 };
            assert(out[b] == old_out[b2]);
        } else {
            let a2 = if a < p { a } else { a - 1 };
            assert(out[a] == old_out[a2]);
        }
    }
}

impl PackageIndex {
    /// Builds the index from a collection of records.
    pub fn build(records: Vec<PackageRecord>) -> (r: PackageIndex)
        ensures
            r@ == records@,
    {
        PackageIndex { records }
    }

    /// The number of records.
    pub fn len(&self) -> (r: usize)
        ensures
            r == self@.len(),
    {
        self.records.len()
    }

    /// The record at position `i`.
    pub fn record(&self, i: usize) -> (r: &PackageRecord)
        requires
            i < self@.len(),
        ensures
            *r == self@[i as int],
    {
        &self.records[i]
    }

    /// The positions of the records named `name`, best first; empty when there are none.
    pub fn candidates_for(&self, name: &str) -> (r: Vec<usize>)
        ensures
            is_candidate_list(self@, name@, r@),
    {
        let nc = chars_of(name);
        let mut out: Vec<usize> = Vec::new();
        let mut i: usize = 0;
        let n = self.records.len();
        while i < n
            invariant
                i <= n == self@.len(),
                nc@ == name@,
                out@.no_duplicates(),
                forall|k: int| 0 <= k < out@.len() ==> (#[trigger] out@[k]) < i && self@[out@[k] as int].name@ == name@,
                forall|j: int| 0 <= j < i && self@[j].name@ == name@ ==> out@.contains(j as usize),
                forall|k: int, l: int| 0 <= k < l < out@.len()
                    ==> !better(self@[#[trigger] out@[l] as int], self@[#[trigger] out@[k] as int]),
            decreases n - i,
        {
            let rc = chars_of(self.records[i].name.as_str());
            if chars_eq(&rc, &nc) {
                let x = &self.records[i];
                let mut p: usize = 0;
                while p < out.len()
                    invariant
                        p <= out@.len(),
                        i < n == self@.len(),
                        *x == self@[i as int],
                        forall|k: int| 0 <= k < out@.len() ==> (#[trigger] out@[k]) < i,
                        forall|k: int| 0 <= k < p ==> !better(*x, self@[#[trigger] out@[k] as int]),
                    ensures
                        p <= out@.len(),
                        p < out@.len() ==> better(*x, self@[out@[p as int] as int]),
                        forall|k: int| 0 <= k < p ==> !better(*x, self@[#[trigger] out@[k] as int]),
                    decreases out@.len() - p,
                {
                    if better_exec(x, &self.records[out[p]]) {
                        break;
                    }
                    p = p + 1;
                }
                let ghost old_out = out@;
                out.insert(p, i);
                proof { lemma_insert_keeps_order(self@, name@, old_out, p as int, i); }
            }
            i = i + 1;
        }
        out
    }
}

fn stamp_exec(r: &PackageRecord) -> (t: i128)
    ensures
        t as int == stamp(*r),
{
    match r.timestamp {
        Some(t) => t as i128,
        None => -1,
    }
}

fn better_exec(a: &PackageRecord, b: &PackageRecord) -> (r: bool)
    ensures
        r == better(*a, *b),
{
    proof { lemma_version_total_order(a.version@, b.version@, b.version@); }
    match a.version.compare(&b.version) {
        std::cmp::Ordering::Greater => true,
        std::cmp::Ordering::Less => false,
        std::cmp::Ordering::Equal => {
            if a.track_features.len() != b.track_features.len() {
                a.track_features.len() < b.track_features.len()
            } else if a.build_number != b.build_number {
                a.build_number > b.build_number
            } else {
                stamp_exec(a) > stamp_exec(b)
            }
        },
    }
}

} // verus!
