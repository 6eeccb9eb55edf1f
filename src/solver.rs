//! Dependency resolution: a backtracking search for one record per required package.
use vstd::prelude::*;
use vstd::set_lib::{lemma_int_range, lemma_len_subset, set_int_range};
use crate::index::{is_candidate_list, PackageIndex};
use crate::match_spec::{parse_match_spec, spec_matches, MatchSpec, MatchSpecModel};
use crate::repo_data::PackageRecord;
use crate::text::chars_of;

verus! {

/// Where a requirement comes from.
#[derive(Debug, Clone, Copy, PartialEq, Eq)]
pub enum Edge {
    /// The root specification at this position.
    Root(usize),
    /// Dependency `dep` of the record at position `record` of the index.
    Depends { record: usize, dep: usize },
}

/// A record chosen for a package, with the requirement that led to it.
#[derive(Debug, Clone, Copy, PartialEq, Eq)]
pub struct Choice {
    pub record: usize,
    pub reason: Edge,
}

/// The outcome of a successful resolution: positions in the index, one per package.
#[derive(Debug, Clone, PartialEq, Eq)]
pub struct Solution {
    pub records: Vec<usize>,
}

/// Why a resolution failed.
#[derive(Debug, Clone, PartialEq, Eq)]
pub enum SolveError {
    /// No consistent choice was found; `edges` are the requirements on package `name`
    /// that could not be met together: one edge that no candidate meets, or two edges
    /// that the chosen record cannot meet both. Both are empty where the search singled
    /// out no package, as for a violated constraint.
    Unsatisfiable { name: String, edges: Vec<Edge> },
    /// A dependency or constraint text of the record at position `record` is not a named
    /// match specification.
    DataIntegrity { record: usize, text: String },
}

/// Some chosen record meets `m`.
pub open spec fn met(m: MatchSpecModel, recs: Seq<PackageRecord>, chosen: Seq<usize>) -> bool {
    exists|k: int| 0 <= k < chosen.len() && #[trigger] spec_matches(m, recs[chosen[k] as int])
}

/// Dependency text `t` names a package, and a chosen record meets it.
pub open spec fn dep_satisfied(t: Seq<char>, recs: Seq<PackageRecord>, chosen: Seq<usize>) -> bool {
    match parse_match_spec(t) {
        Some(m) => m.name is Some && met(m, recs, chosen),
        None => false,
    }
}

/// Constraint text `t` names a package, and the chosen record of that name, if any, meets it.
pub open spec fn constraint_respected(t: Seq<char>, recs: Seq<PackageRecord>, chosen: Seq<usize>) -> bool {
    match parse_match_spec(t) {
        Some(m) => m.name is Some && forall|k: int| 0 <= k < chosen.len() && recs[chosen[k] as int].name@ == m.name->0
            ==> #[trigger] spec_matches(m, recs[chosen[k] as int]),
        None => false,
    }
}

/// `chosen` picks at most one record per name, meets every root, every dependency of a
/// chosen record, and every constraint of a chosen record on a chosen package.
pub open spec fn is_solution(roots: Seq<MatchSpec>, recs: Seq<PackageRecord>, chosen: Seq<usize>) -> bool {
    &&& forall|k: int| 0 <= k < chosen.len() ==> #[trigger] chosen[k] < recs.len()
    &&& forall|k: int, l: int| 0 <= k < chosen.len() && 0 <= l < chosen.len() && k != l
        ==> recs[#[trigger] chosen[k] as int].name@ != recs[#[trigger] chosen[l] as int].name@
    &&& forall|i: int| 0 <= i < roots.len() ==> met(#[trigger] roots[i]@, recs, chosen)
    &&& forall|k: int, j: int| 0 <= k < chosen.len() && 0 <= j < recs[chosen[k] as int].depends.len()
        ==> dep_satisfied(#[trigger] recs[chosen[k] as int].depends@[j]@, recs, chosen)
    &&& forall|k: int, j: int| 0 <= k < chosen.len() && 0 <= j < recs[chosen[k] as int].constrains.len()
        ==> constraint_respected(#[trigger] recs[chosen[k] as int].constrains@[j]@, recs, chosen)
}

pub open spec fn valid_chosen(recs: Seq<PackageRecord>, chosen: Seq<usize>) -> bool {
    forall|k: int| 0 <= k < chosen.len() ==> #[trigger] chosen[k] < recs.len()
}

fn met_by_some(m: &MatchSpec, index: &PackageIndex, chosen: &Vec<usize>) -> (r: bool)
    requires
        valid_chosen(index@, chosen@),
    ensures
        r == met(m@, index@, chosen@),
{
    let mut k: usize = 0;
    while k < chosen.len()
        invariant
            k <= chosen@.len(),
            valid_chosen(index@, chosen@),
            forall|q: int| 0 <= q < k ==> !#[trigger] spec_matches(m@, index@[chosen@[q] as int]),
        decreases chosen@.len() - k,
    {
        if m.matches(index.record(chosen[k])) {
            return true;
        }
        k = k + 1;
    }
    false
}

fn met_by_namesakes(m: &MatchSpec, name: &String, index: &PackageIndex, chosen: &Vec<usize>) -> (r: bool)
    requires
        valid_chosen(index@, chosen@),
    ensures
        r == forall|k: int| 0 <= k < chosen@.len() && index@[chosen@[k] as int].name@ == name@
            ==> #[trigger] spec_matches(m@, index@[chosen@[k] as int]),
{
    let mut k: usize = 0;
    while k < chosen.len()
        invariant
            k <= chosen@.len(),
            valid_chosen(index@, chosen@),
            forall|q: int| 0 <= q < k && index@[chosen@[q] as int].name@ == name@
                ==> #[trigger] spec_matches(m@, index@[chosen@[q] as int]),
        decreases chosen@.len() - k,
    {
        let rec = index.record(chosen[k]);
        if rec.name == *name && !m.matches(rec) {
            return false;
        }
        k = k + 1;
    }
    true
}

/// Confirms a candidate solution; `Ok(true)` only for a solution.
fn confirm_solution(roots: &Vec<MatchSpec>, index: &PackageIndex, chosen: &Vec<usize>) -> (r: Result<bool, SolveError>)
    requires
        valid_chosen(index@, chosen@),
    ensures
        r == Ok::<bool, SolveError>(true) ==> is_solution(roots@, index@, chosen@),
        r == Ok::<bool, SolveError>(false) ==> !is_solution(roots@, index@, chosen@),
        error_ok(r, index@),
{
    let n = chosen.len();
    let mut k: usize = 0;
    while k < n
        invariant
            k <= n == chosen@.len(),
            valid_chosen(index@, chosen@),
            forall|a: int, b: int| 0 <= a < k && 0 <= b < n && a != b
                ==> index@[#[trigger] chosen@[a] as int].name@ != index@[#[trigger] chosen@[b] as int].name@,
        decreases n - k,
    {
        let mut l: usize = 0;
        while l < n
            invariant
                k < n == chosen@.len(),
                l <= n,
                valid_chosen(index@, chosen@),
                forall|a: int, b: int| 0 <= a < k && 0 <= b < n && a != b
                    ==> index@[#[trigger] chosen@[a] as int].name@ != index@[#[trigger] chosen@[b] as int].name@,
                forall|b: int| 0 <= b < l && b != k
                    ==> index@[chosen@[k as int] as int].name@ != index@[#[trigger] chosen@[b] as int].name@,
            decreases n - l,
        {
            if l != k && index.record(chosen[k]).name == index.record(chosen[l]).name {
                proof {
                    assert(index@[chosen@[k as int] as int].name@ == index@[chosen@[l as int] as int].name@);
                }
                return Ok(false);
            }
            l = l + 1;
        }
        k = k + 1;
    }
    let mut i: usize = 0;
    while i < roots.len()
        invariant
            i <= roots@.len(),
            valid_chosen(index@, chosen@),
            forall|q: int| 0 <= q < i ==> met(#[trigger] roots@[q]@, index@, chosen@),
        decreases roots@.len() - i,
    {
        if !met_by_some(&roots[i], index, chosen) {
            proof { assert(!met(roots@[i as int]@, index@, chosen@)); }
            return Ok(false);
        }
        i = i + 1;
    }
    let mut k: usize = 0;
    while k < n
        invariant
            k <= n == chosen@.len(),
            valid_chosen(index@, chosen@),
            forall|a: int, j: int| 0 <= a < k && 0 <= j < index@[chosen@[a] as int].depends.len()
                ==> dep_satisfied(#[trigger] index@[chosen@[a] as int].depends@[j]@, index@, chosen@),
            forall|a: int, j: int| 0 <= a < k && 0 <= j < index@[chosen@[a] as int].constrains.len()
                ==> constraint_respected(#[trigger] index@[chosen@[a] as int].constrains@[j]@, index@, chosen@),
        decreases n - k,
    {
        let rec = index.record(chosen[k]);
        let mut j: usize = 0;
        while j < rec.depends.len()
            invariant
                k < n == chosen@.len(),
                valid_chosen(index@, chosen@),
                *rec == index@[chosen@[k as int] as int],
                j <= rec.depends@.len(),
                forall|q: int| 0 <= q < j ==> dep_satisfied(#[trigger] rec.depends@[q]@, index@, chosen@),
            decreases rec.depends@.len() - j,
        {
            match MatchSpec::parse(rec.depends[j].as_str()) {
                Ok(m) => {
                    if m.name.is_none() || !met_by_some(&m, index, chosen) {
                        proof {
                            assert(index@[chosen@[k as int] as int].depends@[j as int]@ == rec.depends@[j as int]@);
                            assert(!dep_satisfied(index@[chosen@[k as int] as int].depends@[j as int]@, index@, chosen@));
                        }
                        return Ok(false);
                    }
                },
                Err(_) => {
                    proof { assert(index@[chosen@[k as int] as int].depends@[j as int]@ == rec.depends@[j as int]@); }
                    return Err(SolveError::DataIntegrity { record: chosen[k], text: rec.depends[j].clone() });
                },
            }
            j = j + 1;
        }
        let mut j: usize = 0;
        while j < rec.constrains.len()
            invariant
                k < n == chosen@.len(),
                valid_chosen(index@, chosen@),
                *rec == index@[chosen@[k as int] as int],
                j <= rec.constrains@.len(),
                forall|q: int| 0 <= q < j ==> constraint_respected(#[trigger] rec.constrains@[q]@, index@, chosen@),
            decreases rec.constrains@.len() - j,
        {
            match MatchSpec::parse(rec.constrains[j].as_str()) {
                Ok(m) => {
                    match &m.name {
                        Some(name) => {
                            if !met_by_namesakes(&m, name, index, chosen) {
                                proof {
                                    assert(index@[chosen@[k as int] as int].constrains@[j as int]@ == rec.constrains@[j as int]@);
                                    assert(!constraint_respected(index@[chosen@[k as int] as int].constrains@[j as int]@, index@, chosen@));
                                }
                                return Ok(false);
                            }
                        },
                        None => {
                            proof { assert(index@[chosen@[k as int] as int].constrains@[j as int]@ == rec.constrains@[j as int]@); }
                            return Err(SolveError::DataIntegrity { record: chosen[k], text: rec.constrains[j].clone() });
                        },
                    }
                },
                Err(_) => {
                    proof { assert(index@[chosen@[k as int] as int].constrains@[j as int]@ == rec.constrains@[j as int]@); }
                    return Err(SolveError::DataIntegrity { record: chosen[k], text: rec.constrains[j].clone() });
                },
            }
            j = j + 1;
        }
        k = k + 1;
    }
    Ok(true)
}


/// Edge `e` points at an existing root or dependency text.
pub open spec fn edge_valid(e: Edge, nroots: int, recs: Seq<PackageRecord>) -> bool {
    match e {
        Edge::Root(i) => i < nroots,
        Edge::Depends { record, dep } => record < recs.len() && dep < recs[record as int].depends.len(),
    }
}

/// The search state: chosen records are distinct positions of the index, and pending
/// edges are valid.
pub open spec fn state_wf(assign: Seq<Choice>, pending: Seq<Edge>, nroots: int, recs: Seq<PackageRecord>) -> bool {
    &&& forall|k: int| 0 <= k < assign.len() ==> (#[trigger] assign[k]).record < recs.len()
    &&& forall|k: int, l: int| 0 <= k < assign.len() && 0 <= l < assign.len() && k != l
        ==> (#[trigger] assign[k]).record != (#[trigger] assign[l]).record
    &&& forall|q: int| 0 <= q < pending.len() ==> edge_valid(#[trigger] pending[q], nroots, recs)
}

/// `text` is a dependency or constraint of the record at position `record` and is not a
/// named match specification.
pub open spec fn bad_text(record: usize, text: Seq<char>, recs: Seq<PackageRecord>) -> bool {
    &&& record < recs.len()
    &&& (exists|j: int| 0 <= j < recs[record as int].depends.len() && #[trigger] recs[record as int].depends@[j]@ == text)
        || (exists|j: int| 0 <= j < recs[record as int].constrains.len() && #[trigger] recs[record as int].constrains@[j]@ == text)
    &&& parse_match_spec(text) is None || parse_match_spec(text)->0.name is None
}

pub open spec fn error_ok<T>(r: Result<T, SolveError>, recs: Seq<PackageRecord>) -> bool {
    match r {
        Err(SolveError::DataIntegrity { record, text }) => bad_text(record, text@, recs),
        Err(SolveError::Unsatisfiable { .. }) => false,
        Ok(_) => true,
    }
}

/// The specification of the requirement behind an edge.
pub open spec fn edge_spec(e: Edge, roots: Seq<MatchSpec>, recs: Seq<PackageRecord>) -> Option<MatchSpecModel> {
    match e {
        Edge::Root(i) => if i < roots.len() { Some(roots[i as int]@) } else { None },
        Edge::Depends { record, dep } => if record < recs.len() && dep < recs[record as int].depends.len() {
            parse_match_spec(recs[record as int].depends@[dep as int]@)
        } else {
            None
        },
    }
}

/// `edges` explain why package `name` could not be chosen: one requirement that no
/// record of that name meets, or a requirement met by a record of that name together
/// with a second requirement that this record fails.
pub open spec fn explains(name: Seq<char>, edges: Seq<Edge>, roots: Seq<MatchSpec>, recs: Seq<PackageRecord>) -> bool {
    &&& edges.len() <= 2
    &&& forall|k: int| 0 <= k < edges.len() ==> (#[trigger] edge_spec(edges[k], roots, recs)) is Some
        && edge_spec(edges[k], roots, recs)->0.name == Some(name)
    &&& edges.len() == 1 ==> forall|i: int| 0 <= i < recs.len() && recs[i].name@ == name
        ==> !spec_matches(edge_spec(edges[0], roots, recs)->0, #[trigger] recs[i])
    &&& edges.len() == 2 ==> exists|i: int| 0 <= i < recs.len() && recs[i].name@ == name
        && spec_matches(edge_spec(edges[0], roots, recs)->0, #[trigger] recs[i])
        && !spec_matches(edge_spec(edges[1], roots, recs)->0, recs[i])
}

pub open spec fn conflict_ok(c: Option<(String, Vec<Edge>)>, roots: Seq<MatchSpec>, recs: Seq<PackageRecord>) -> bool {
    match c {
        Some((name, edges)) => explains(name@, edges@, roots, recs),
        None => true,
    }
}

/// Each chosen record meets the requirement it was chosen for, which names it.
pub open spec fn choices_ok(assign: Seq<Choice>, roots: Seq<MatchSpec>, recs: Seq<PackageRecord>) -> bool {
    forall|k: int| 0 <= k < assign.len() ==> {
        let c = #[trigger] assign[k];
        &&& edge_spec(c.reason, roots, recs) is Some
        &&& c.record < recs.len()
        &&& edge_spec(c.reason, roots, recs)->0.name == Some(recs[c.record as int].name@)
        &&& spec_matches(edge_spec(c.reason, roots, recs)->0, recs[c.record as int])
    }
}

/// The records chosen so far.
pub open spec fn picked(assign: Seq<Choice>) -> Seq<usize> {
    assign.map_values(|c: Choice| c.record)
}

/// Every root specification names its package.
pub open spec fn roots_named(roots: Seq<MatchSpec>) -> bool {
    forall|i: int| 0 <= i < roots.len() ==> (#[trigger] roots[i]@).name is Some
}

/// The bookkeeping of the search: edges before `pos` are met by the chosen records,
/// every dependency of a chosen record and every root has an edge, and every
/// dependency edge comes from a chosen record.
pub open spec fn progress_ok(roots: Seq<MatchSpec>, recs: Seq<PackageRecord>, assign: Seq<Choice>, pending: Seq<Edge>, pos: int) -> bool {
    &&& forall|q: int| 0 <= q < pos ==> (#[trigger] edge_spec(pending[q], roots, recs)) is Some
        && (edge_spec(pending[q], roots, recs)->0.name is Some
            ==> met(edge_spec(pending[q], roots, recs)->0, recs, picked(assign)))
    &&& forall|k: int, j: usize| 0 <= k < assign.len() && (j as int) < recs[assign[k].record as int].depends.len()
        ==> #[trigger] pending.contains(Edge::Depends { record: assign[k].record, dep: j })
    &&& forall|q: int| 0 <= q < pending.len() && (#[trigger] pending[q]) is Depends
        ==> picked(assign).contains(pending[q]->record)
    &&& forall|i: usize| (i as int) < roots.len() ==> #[trigger] pending.contains(Edge::Root(i))
}

/// `sol` is a solution that contains every record chosen so far.
pub open spec fn follows(sol: Seq<usize>, roots: Seq<MatchSpec>, recs: Seq<PackageRecord>, assign: Seq<Choice>) -> bool {
    &&& is_solution(roots, recs, sol)
    &&& roots_named(roots)
    &&& forall|k: int| 0 <= k < assign.len() ==> sol.contains((#[trigger] assign[k]).record)
}

/// Under a solution that the search follows, the edge at `q` is met by a record of the
/// solution.
proof fn lemma_edge_met(sol: Seq<usize>, roots: Seq<MatchSpec>, recs: Seq<PackageRecord>, assign: Seq<Choice>, pending: Seq<Edge>, pos: int, q: int)
    requires
        follows(sol, roots, recs, assign),
        progress_ok(roots, recs, assign, pending, pos),
        state_wf(assign, pending, roots.len() as int, recs),
        0 <= q < pending.len(),
    ensures
        edge_spec(pending[q], roots, recs) is Some,
        edge_spec(pending[q], roots, recs)->0.name is Some,
        met(edge_spec(pending[q], roots, recs)->0, recs, sol),
{
    assert(edge_valid(pending[q], roots.len() as int, recs));
    match pending[q] {
        Edge::Root(i) => {
            assert(roots[i as int]@.name is Some);
        },
        Edge::Depends { record, dep } => {
            assert(picked(assign).contains(record));
            let k = choose|k: int| 0 <= k < picked(assign).len() && picked(assign)[k] == record;
            assert(assign[k].record == record);
            assert(sol.contains(record));
            let ks = choose|ks: int| 0 <= ks < sol.len() && sol[ks] == record;
            assert(dep_satisfied(recs[sol[ks] as int].depends@[dep as int]@, recs, sol));
        },
    }
}

/// Two records of a solution with the same name are the same record.
proof fn lemma_sol_unique(sol: Seq<usize>, roots: Seq<MatchSpec>, recs: Seq<PackageRecord>, a: int, b: int)
    requires
        is_solution(roots, recs, sol),
        0 <= a < sol.len(),
        0 <= b < sol.len(),
        recs[sol[a] as int].name@ == recs[sol[b] as int].name@,
    ensures
        sol[a] == sol[b],
{
    if a != b {
        assert(recs[sol[a] as int].name@ != recs[sol[b] as int].name@);
    }
}

/// At the end of the edges, the chosen records form a solution.
proof fn lemma_leaf(sol: Seq<usize>, roots: Seq<MatchSpec>, recs: Seq<PackageRecord>, assign: Seq<Choice>, pending: Seq<Edge>)
    requires
        follows(sol, roots, recs, assign),
        progress_ok(roots, recs, assign, pending, pending.len() as int),
        state_wf(assign, pending, roots.len() as int, recs),
        roots.len() <= usize::MAX,
    ensures
        is_solution(roots, recs, picked(assign)),
{
    let ch = picked(assign);
    assert forall|k: int| 0 <= k < ch.len() implies #[trigger] ch[k] < recs.len() by {
        assert(ch[k] == assign[k].record);
    }
    assert forall|k: int, l: int| 0 <= k < ch.len() && 0 <= l < ch.len() && k != l
        implies recs[#[trigger] ch[k] as int].name@ != recs[#[trigger] ch[l] as int].name@ by {
        assert(ch[k] == assign[k].record && ch[l] == assign[l].record);
        assert(assign[k].record != assign[l].record);
        if recs[ch[k] as int].name@ == recs[ch[l] as int].name@ {
            assert(sol.contains(assign[k].record));
            assert(sol.contains(assign[l].record));
            let a = choose|a: int| 0 <= a < sol.len() && sol[a] == assign[k].record;
            let b = choose|b: int| 0 <= b < sol.len() && sol[b] == assign[l].record;
            lemma_sol_unique(sol, roots, recs, a, b);
        }
    }
    assert forall|i: int| 0 <= i < roots.len() implies met(#[trigger] roots[i]@, recs, ch) by {
        assert(pending.contains(Edge::Root(i as usize)));
        let q = choose|q: int| 0 <= q < pending.len() && pending[q] == Edge::Root(i as usize);
        assert(edge_spec(pending[q], roots, recs) == Some(roots[i]@));
        assert(roots[i]@.name is Some);
    }
    assert forall|k: int, j: int| 0 <= k < ch.len() && 0 <= j < recs[ch[k] as int].depends.len()
        implies dep_satisfied(#[trigger] recs[ch[k] as int].depends@[j]@, recs, ch) by {
        assert(ch[k] == assign[k].record);
        assert(pending.contains(Edge::Depends { record: assign[k].record, dep: j as usize }));
        let q = choose|q: int| 0 <= q < pending.len() && pending[q] == Edge::Depends { record: assign[k].record, dep: j as usize };
        assert(edge_spec(pending[q], roots, recs) is Some);
        assert(sol.contains(assign[k].record));
        let a = choose|a: int| 0 <= a < sol.len() && sol[a] == assign[k].record;
        assert(dep_satisfied(recs[sol[a] as int].depends@[j]@, recs, sol));
    }
    assert forall|k: int, j: int| 0 <= k < ch.len() && 0 <= j < recs[ch[k] as int].constrains.len()
        implies constraint_respected(#[trigger] recs[ch[k] as int].constrains@[j]@, recs, ch) by {
        assert(ch[k] == assign[k].record);
        assert(sol.contains(assign[k].record));
        let a = choose|a: int| 0 <= a < sol.len() && sol[a] == assign[k].record;
        let t = recs[ch[k] as int].constrains@[j]@;
        assert(constraint_respected(recs[sol[a] as int].constrains@[j]@, recs, sol));
        let m = parse_match_spec(t)->0;
        assert forall|l: int| 0 <= l < ch.len() && recs[ch[l] as int].name@ == m.name->0
            implies #[trigger] spec_matches(m, recs[ch[l] as int]) by {
            assert(ch[l] == assign[l].record);
            assert(sol.contains(assign[l].record));
            let b = choose|b: int| 0 <= b < sol.len() && sol[b] == assign[l].record;
            assert(spec_matches(m, recs[sol[b] as int]));
        }
    }
}

proof fn lemma_met_grows(m: MatchSpecModel, recs: Seq<PackageRecord>, a0: Seq<Choice>, a1: Seq<Choice>)
    requires
        met(m, recs, picked(a0)),
        a0.len() <= a1.len(),
        a1.subrange(0, a0.len() as int) == a0,
    ensures
        met(m, recs, picked(a1)),
{
    let k = choose|k: int| 0 <= k < picked(a0).len() && #[trigger] spec_matches(m, recs[picked(a0)[k] as int]);
    assert(a1[k] == a0[k]);
    assert(picked(a1)[k] == picked(a0)[k]);
}

/// Passing an edge that the chosen records meet keeps the bookkeeping.
proof fn lemma_advance(roots: Seq<MatchSpec>, recs: Seq<PackageRecord>, assign: Seq<Choice>, pending: Seq<Edge>, pos: int)
    requires
        progress_ok(roots, recs, assign, pending, pos),
        0 <= pos < pending.len(),
        edge_spec(pending[pos], roots, recs) is Some,
        edge_spec(pending[pos], roots, recs)->0.name is Some
            ==> met(edge_spec(pending[pos], roots, recs)->0, recs, picked(assign)),
    ensures
        progress_ok(roots, recs, assign, pending, pos + 1),
{
}

/// Choosing record `c` for the edge at `pos` and adding its dependency edges keeps the
/// bookkeeping.
#[verifier::rlimit(50)]
proof fn lemma_extend(roots: Seq<MatchSpec>, recs: Seq<PackageRecord>, a0: Seq<Choice>, p0: Seq<Edge>, pos: int,
    c: usize, a1: Seq<Choice>, p1: Seq<Edge>)
    requires
        progress_ok(roots, recs, a0, p0, pos),
        0 <= pos < p0.len(),
        c < recs.len(),
        edge_spec(p0[pos], roots, recs) is Some,
        spec_matches(edge_spec(p0[pos], roots, recs)->0, recs[c as int]),
        a1 == a0.push(Choice { record: c, reason: p0[pos] }),
        p1.len() == p0.len() + recs[c as int].depends.len(),
        p1.subrange(0, p0.len() as int) == p0,
        forall|j: int| 0 <= j < recs[c as int].depends.len() ==> #[trigger] p1[p0.len() + j] == (Edge::Depends { record: c, dep: j as usize }),
    ensures
        progress_ok(roots, recs, a1, p1, pos + 1),
{
    assert(a1.subrange(0, a0.len() as int) =~= a0);
    assert forall|q: int| 0 <= q < pos + 1 implies (#[trigger] edge_spec(p1[q], roots, recs)) is Some
        && (edge_spec(p1[q], roots, recs)->0.name is Some
            ==> met(edge_spec(p1[q], roots, recs)->0, recs, picked(a1))) by {
        assert(p1[q] == p0[q]);
        if q < pos {
            if edge_spec(p0[q], roots, recs)->0.name is Some {
                lemma_met_grows(edge_spec(p0[q], roots, recs)->0, recs, a0, a1);
            }
        } else {
            assert(picked(a1)[a0.len() as int] == c);
        }
    }
    assert forall|k: int, j: usize| 0 <= k < a1.len() && (j as int) < recs[a1[k].record as int].depends.len()
        implies #[trigger] p1.contains(Edge::Depends { record: a1[k].record, dep: j }) by {
        if k < a0.len() {
            assert(a1[k] == a0[k]);
            assert(p0.contains(Edge::Depends { record: a0[k].record, dep: j }));
            let q = choose|q: int| 0 <= q < p0.len() && p0[q] == Edge::Depends { record: a0[k].record, dep: j };
            assert(p1[q] == p0[q]);
        } else {
            assert(p1[p0.len() + j as int] == Edge::Depends { record: c, dep: j });
        }
    }
    assert forall|q: int| 0 <= q < p1.len() && (#[trigger] p1[q]) is Depends
        implies picked(a1).contains(p1[q]->record) by {
        if q < p0.len() {
            assert(p1[q] == p0[q]);
            assert(picked(a0).contains(p0[q]->record));
            let k = choose|k: int| 0 <= k < picked(a0).len() && picked(a0)[k] == p0[q]->record;
            assert(picked(a1)[k] == picked(a0)[k]);
        } else {
            assert(p1[q] == p1[p0.len() + (q - p0.len())]);
            assert(picked(a1)[a0.len() as int] == c);
        }
    }
    assert forall|i: usize| (i as int) < roots.len() implies #[trigger] p1.contains(Edge::Root(i)) by {
        assert(p0.contains(Edge::Root(i)));
        let q = choose|q: int| 0 <= q < p0.len() && p0[q] == Edge::Root(i);
        assert(p1[q] == p0[q]);
    }
}

proof fn lemma_choices_bounded(assign: Seq<Choice>, pending: Seq<Edge>, nroots: int, recs: Seq<PackageRecord>)
    requires
        state_wf(assign, pending, nroots, recs),
    ensures
        assign.len() <= recs.len(),
{
    let m = assign.map_values(|c: Choice| c.record as int);
    assert forall|a: int, b: int| 0 <= a < m.len() && 0 <= b < m.len() && a != b implies m[a] != m[b] by {
        assert(assign[a].record != assign[b].record);
    }
    assert(m.no_duplicates());
    m.unique_seq_to_set();
    lemma_int_range(0, recs.len() as int);
    assert forall|x: int| m.to_set().contains(x) implies set_int_range(0, recs.len() as int).contains(x) by {
        let k = choose|k: int| 0 <= k < m.len() && m[k] == x;
        assert(assign[k].record < recs.len());
    }
    lemma_len_subset(m.to_set(), set_int_range(0, recs.len() as int));
}

fn chosen_records(assign: &Vec<Choice>, n: usize) -> (r: Vec<usize>)
    requires
        forall|k: int| 0 <= k < assign@.len() ==> (#[trigger] assign@[k]).record < n,
    ensures
        r@.len() == assign@.len(),
        forall|k: int| 0 <= k < r@.len() ==> #[trigger] r@[k] == assign@[k].record && r@[k] < n,
        r@ == picked(assign@),
{
    let mut r: Vec<usize> = Vec::new();
    let mut k: usize = 0;
    while k < assign.len()
        invariant
            k <= assign@.len(),
            r@.len() == k,
            forall|k: int| 0 <= k < assign@.len() ==> (#[trigger] assign@[k]).record < n,
            forall|q: int| 0 <= q < k ==> #[trigger] r@[q] == assign@[q].record && r@[q] < n,
        decreases assign@.len() - k,
    {
        r.push(assign[k].record);
        k = k + 1;
    }
    assert(r@ =~= picked(assign@));
    r
}

/// Works through the pending edges from `pos` on, choosing records and backtracking.
fn search(
    roots: &Vec<MatchSpec>,
    index: &PackageIndex,
    assign: &mut Vec<Choice>,
    pending: &mut Vec<Edge>,
    pos: usize,
    conflict: &mut Option<(String, Vec<Edge>)>,
    Ghost(sol): Ghost<Seq<usize>>,
) -> (r: Result<Option<Vec<usize>>, SolveError>)
    requires
        state_wf(old(assign)@, old(pending)@, roots@.len() as int, index@),
        choices_ok(old(assign)@, roots@, index@),
        conflict_ok(*old(conflict), roots@, index@),
        pos <= old(pending)@.len(),
    ensures
        state_wf(final(assign)@, final(pending)@, roots@.len() as int, index@),
        choices_ok(final(assign)@, roots@, index@),
        conflict_ok(*final(conflict), roots@, index@),
        final(assign)@.len() >= old(assign)@.len(),
        final(assign)@.subrange(0, old(assign)@.len() as int) == old(assign)@,
        final(pending)@.len() >= old(pending)@.len(),
        final(pending)@.subrange(0, old(pending)@.len() as int) == old(pending)@,
        match r {
            Ok(Some(c)) => is_solution(roots@, index@, c@),
            _ => true,
        },
        error_ok(r, index@),
        progress_ok(roots@, index@, old(assign)@, old(pending)@, pos as int) && follows(sol, roots@, index@, old(assign)@) ==> !(r is Ok && r->Ok_0 is None),
    decreases index@.len() - old(assign)@.len(), old(pending)@.len() - pos, 2int,
{
    proof {
        lemma_choices_bounded(assign@, pending@, roots@.len() as int, index@);
        assert(assign@.subrange(0, assign@.len() as int) =~= assign@);
        assert(pending@.subrange(0, pending@.len() as int) =~= pending@);
    }
    if pos == pending.len() {
        let chosen = chosen_records(assign, index.len());
        let nroots = roots.len();
        proof {
            if progress_ok(roots@, index@, assign@, pending@, pos as int) && follows(sol, roots@, index@, assign@) {
                lemma_leaf(sol, roots@, index@, assign@, pending@);
            }
        }
        return match confirm_solution(roots, index, &chosen) {
            Ok(true) => Ok(Some(chosen)),
            Ok(false) => Ok(None),
            Err(e) => Err(e),
        };
    }
    match pending[pos] {
        Edge::Root(i) => step(roots, index, assign, pending, pos, &roots[i], conflict, Ghost(sol)),
        Edge::Depends { record, dep } => {
            let text = &index.record(record).depends[dep];
            match MatchSpec::parse(text.as_str()) {
                Ok(m) => {
                    if m.name.is_none() {
                        proof { assert(index@[record as int].depends@[dep as int]@ == text@); }
                        return Err(SolveError::DataIntegrity { record, text: text.clone() });
                    }
                    step(roots, index, assign, pending, pos, &m, conflict, Ghost(sol))
                },
                Err(_) => {
                    proof { assert(index@[record as int].depends@[dep as int]@ == text@); }
                    Err(SolveError::DataIntegrity { record, text: text.clone() })
                },
            }
        },
    }
}

proof fn lemma_no_candidate(recs: Seq<PackageRecord>, name: Seq<char>, cands: Seq<usize>, m: MatchSpecModel)
    requires
        recs.len() <= usize::MAX,
        is_candidate_list(recs, name, cands),
        forall|q: int| 0 <= q < cands.len() ==> !spec_matches(m, #[trigger] recs[cands[q] as int]),
    ensures
        forall|i: int| 0 <= i < recs.len() && recs[i].name@ == name ==> !spec_matches(m, #[trigger] recs[i]),
{
    assert forall|i: int| 0 <= i < recs.len() && recs[i].name@ == name implies !spec_matches(m, #[trigger] recs[i]) by {
        assert(cands.contains(i as usize));
        let q = choose|q: int| 0 <= q < cands.len() && cands[q] == i as usize;
        assert(!spec_matches(m, recs[cands[q] as int]));
    }
}

fn find_assigned(index: &PackageIndex, assign: &Vec<Choice>, name: &String) -> (r: Option<usize>)
    requires
        forall|k: int| 0 <= k < assign@.len() ==> (#[trigger] assign@[k]).record < index@.len(),
    ensures
        match r {
            Some(k) => k < assign@.len() && index@[assign@[k as int].record as int].name@ == name@,
            None => forall|q: int| 0 <= q < assign@.len() ==> index@[(#[trigger] assign@[q]).record as int].name@ != name@,
        },
{
    let mut k: usize = 0;
    while k < assign.len()
        invariant
            k <= assign@.len(),
            forall|k: int| 0 <= k < assign@.len() ==> (#[trigger] assign@[k]).record < index@.len(),
            forall|q: int| 0 <= q < k ==> index@[(#[trigger] assign@[q]).record as int].name@ != name@,
        decreases assign@.len() - k,
    {
        if index.record(assign[k].record).name == *name {
            return Some(k);
        }
        k = k + 1;
    }
    None
}

/// Meets the pending edge at `pos`, whose specification is `spec`, then searches on.
fn step(
    roots: &Vec<MatchSpec>,
    index: &PackageIndex,
    assign: &mut Vec<Choice>,
    pending: &mut Vec<Edge>,
    pos: usize,
    spec: &MatchSpec,
    conflict: &mut Option<(String, Vec<Edge>)>,
    Ghost(sol): Ghost<Seq<usize>>,
) -> (r: Result<Option<Vec<usize>>, SolveError>)
    requires
        state_wf(old(assign)@, old(pending)@, roots@.len() as int, index@),
        choices_ok(old(assign)@, roots@, index@),
        conflict_ok(*old(conflict), roots@, index@),
        pos < old(pending)@.len(),
        edge_spec(old(pending)@[pos as int], roots@, index@) == Some(spec@),
    ensures
        state_wf(final(assign)@, final(pending)@, roots@.len() as int, index@),
        choices_ok(final(assign)@, roots@, index@),
        conflict_ok(*final(conflict), roots@, index@),
        final(assign)@.len() >= old(assign)@.len(),
        final(assign)@.subrange(0, old(assign)@.len() as int) == old(assign)@,
        final(pending)@.len() >= old(pending)@.len(),
        final(pending)@.subrange(0, old(pending)@.len() as int) == old(pending)@,
        match r {
            Ok(Some(c)) => is_solution(roots@, index@, c@),
            _ => true,
        },
        error_ok(r, index@),
        progress_ok(roots@, index@, old(assign)@, old(pending)@, pos as int) && follows(sol, roots@, index@, old(assign)@) ==> !(r is Ok && r->Ok_0 is None),
    decreases index@.len() - old(assign)@.len(), old(pending)@.len() - pos, 1int,
{
    proof {
        lemma_choices_bounded(assign@, pending@, roots@.len() as int, index@);
    }
    let plen = pending.len();
    assert(pos + 1 <= plen);
    let ghost premise = progress_ok(roots@, index@, assign@, pending@, pos as int) && follows(sol, roots@, index@, assign@);
    let name = match &spec.name {
        Some(n) => n,
        None => {
            proof {
                if premise {
                    lemma_advance(roots@, index@, assign@, pending@, pos as int);
                }
            }
            return search(roots, index, assign, pending, pos + 1, conflict, Ghost(sol));
        },
    };
    match find_assigned(index, assign, name) {
        Some(k) => {
            let rec = index.record(assign[k].record);
            if spec.matches(rec) {
                proof {
                    if premise {
                        assert(picked(assign@)[k as int] == assign@[k as int].record);
                        assert(spec_matches(spec@, index@[picked(assign@)[k as int] as int]));
                        lemma_advance(roots@, index@, assign@, pending@, pos as int);
                    }
                }
                return search(roots, index, assign, pending, pos + 1, conflict, Ghost(sol));
            }
            proof {
                if premise {
                    lemma_edge_met(sol, roots@, index@, assign@, pending@, pos as int, pos as int);
                    let ks = choose|ks: int| 0 <= ks < sol.len() && #[trigger] spec_matches(spec@, index@[sol[ks] as int]);
                    assert(sol.contains(assign@[k as int].record));
                    let a = choose|a: int| 0 <= a < sol.len() && sol[a] == assign@[k as int].record;
                    lemma_sol_unique(sol, roots@, index@, a, ks);
                }
            }
            let e1 = assign[k].reason;
            let e2 = pending[pos];
            let nm = name.clone();
            let edges = vec![e1, e2];
            proof {
                assert(edges@ =~= seq![e1, e2]);
                let c = assign@[k as int];
                assert(spec_matches(edge_spec(c.reason, roots@, index@)->0, index@[c.record as int]));
                assert(explains(nm@, edges@, roots@, index@));
            }
            *conflict = Some((nm, edges));
            proof {
                assert(assign@.subrange(0, assign@.len() as int) =~= assign@);
                assert(pending@.subrange(0, pending@.len() as int) =~= pending@);
            }
            Ok(None)
        },
        None => try_candidates(roots, index, assign, pending, pos, spec, name, conflict, Ghost(sol)),
    }
}

/// Tries the candidates named `name` for the pending edge at `pos`, best first.
#[verifier::rlimit(100)]
fn try_candidates(
    roots: &Vec<MatchSpec>,
    index: &PackageIndex,
    assign: &mut Vec<Choice>,
    pending: &mut Vec<Edge>,
    pos: usize,
    spec: &MatchSpec,
    name: &String,
    conflict: &mut Option<(String, Vec<Edge>)>,
    Ghost(sol): Ghost<Seq<usize>>,
) -> (r: Result<Option<Vec<usize>>, SolveError>)
    requires
        state_wf(old(assign)@, old(pending)@, roots@.len() as int, index@),
        choices_ok(old(assign)@, roots@, index@),
        conflict_ok(*old(conflict), roots@, index@),
        pos < old(pending)@.len(),
        edge_spec(old(pending)@[pos as int], roots@, index@) == Some(spec@),
        spec@.name == Some(name@),
        forall|q: int| 0 <= q < old(assign)@.len() ==> index@[(#[trigger] old(assign)@[q]).record as int].name@ != name@,
    ensures
        state_wf(final(assign)@, final(pending)@, roots@.len() as int, index@),
        choices_ok(final(assign)@, roots@, index@),
        conflict_ok(*final(conflict), roots@, index@),
        final(assign)@.len() >= old(assign)@.len(),
        final(assign)@.subrange(0, old(assign)@.len() as int) == old(assign)@,
        final(pending)@.len() >= old(pending)@.len(),
        final(pending)@.subrange(0, old(pending)@.len() as int) == old(pending)@,
        match r {
            Ok(Some(c)) => is_solution(roots@, index@, c@),
            _ => true,
        },
        error_ok(r, index@),
        progress_ok(roots@, index@, old(assign)@, old(pending)@, pos as int) && follows(sol, roots@, index@, old(assign)@) ==> !(r is Ok && r->Ok_0 is None),
    decreases index@.len() - old(assign)@.len(), old(pending)@.len() - pos, 0int,
{
    proof {
        lemma_choices_bounded(assign@, pending@, roots@.len() as int, index@);
    }
    let ghost premise = progress_ok(roots@, index@, assign@, pending@, pos as int) && follows(sol, roots@, index@, assign@);
    proof {
        if premise {
            lemma_edge_met(sol, roots@, index@, assign@, pending@, pos as int, pos as int);
        }
    }
    let ghost target: Option<usize> = if premise {
        Some(sol[choose|ks: int| 0 <= ks < sol.len() && #[trigger] spec_matches(spec@, index@[sol[ks] as int])])
    } else {
        None
    };
    proof {
        if premise {
            let ks = choose|ks: int| 0 <= ks < sol.len() && #[trigger] spec_matches(spec@, index@[sol[ks] as int]);
            assert(sol[ks] < index@.len());
            assert(sol.contains(sol[ks]));
        }
    }
    let cands = index.candidates_for(name.as_str());
    let n_records = index.len();
    let reason = pending[pos];
    let ghost a0 = assign@;
    let ghost p0 = pending@;
    let mut any_match = false;
    let mut t: usize = 0;
    while t < cands.len()
        invariant
            t <= cands@.len(),
            is_candidate_list(index@, name@, cands@),
            assign@ == a0,
            pending@ == p0,
            a0 == old(assign)@,
            p0 == old(pending)@,
            pos < p0.len(),
            reason == p0[pos as int],
            edge_spec(reason, roots@, index@) == Some(spec@),
            spec@.name == Some(name@),
            state_wf(a0, p0, roots@.len() as int, index@),
            choices_ok(a0, roots@, index@),
            conflict_ok(*conflict, roots@, index@),
            a0.len() <= index@.len(),
            n_records == index@.len(),
            forall|q: int| 0 <= q < a0.len() ==> index@[(#[trigger] a0[q]).record as int].name@ != name@,
            !any_match ==> forall|q: int| 0 <= q < t ==> !spec_matches(spec@, #[trigger] index@[cands@[q] as int]),
            target is Some ==> progress_ok(roots@, index@, a0, p0, pos as int) && follows(sol, roots@, index@, a0),
            target is Some ==> target->0 < index@.len() && sol.contains(target->0),
            target is Some ==> spec_matches(spec@, index@[target->0 as int]),
            target is Some ==> forall|q: int| 0 <= q < t ==> #[trigger] cands@[q] != target->0,
            target is None ==> !premise,
            premise == (progress_ok(roots@, index@, a0, p0, pos as int) && follows(sol, roots@, index@, a0)),
        decreases cands@.len() - t,
    {
        let c = cands[t];
        let rec = index.record(c);
        if spec.matches(rec) {
            any_match = true;
            let la = assign.len();
            let lp = pending.len();
            proof {
                assert forall|q: int| 0 <= q < a0.len() implies a0[q].record != c by {
                    assert(index@[a0[q].record as int].name@ != name@);
                }
            }
            assign.push(Choice { record: c, reason });
            let mut j: usize = 0;
            while j < rec.depends.len()
                invariant
                    j <= rec.depends@.len(),
                    *rec == index@[c as int],
                    c < index@.len(),
                    pending@.len() == p0.len() + j,
                    forall|q: int| 0 <= q < j ==> #[trigger] pending@[p0.len() + q] == (Edge::Depends { record: c, dep: q as usize }),
                    pending@.subrange(0, p0.len() as int) == p0,
                    forall|q: int| 0 <= q < pending@.len() ==> edge_valid(#[trigger] pending@[q], roots@.len() as int, index@),
                decreases rec.depends@.len() - j,
            {
                pending.push(Edge::Depends { record: c, dep: j });
                proof {
                    assert(pending@.subrange(0, p0.len() as int) =~= p0);
                }
                j = j + 1;
            }
            let ghost a1 = assign@;
            let ghost p1 = pending@;
            proof {
                assert(a1 == a0.push(Choice { record: c, reason }));
                assert(state_wf(a1, p1, roots@.len() as int, index@));
                assert(choices_ok(a1, roots@, index@));
                lemma_choices_bounded(a1, p1, roots@.len() as int, index@);
            }
            proof {
                if target == Some(c) {
                    lemma_extend(roots@, index@, a0, p0, pos as int, c, a1, p1);
                    assert forall|k: int| 0 <= k < a1.len() implies sol.contains((#[trigger] a1[k]).record) by {
                        if k < a0.len() { assert(a1[k] == a0[k]); }
                    }
                }
            }
            let res = search(roots, index, assign, pending, pos + 1, conflict, Ghost(sol));
            proof {
                assert(assign@.subrange(0, la as int) =~= assign@.subrange(0, a1.len() as int).subrange(0, la as int));
                assert(a1.subrange(0, la as int) =~= a0);
                assert(pending@.subrange(0, lp as int) =~= pending@.subrange(0, p1.len() as int).subrange(0, lp as int));
                assert(p1.subrange(0, lp as int) =~= p0);
            }
            match res {
                Ok(Some(sol)) => return Ok(Some(sol)),
                Ok(None) => {},
                Err(e) => return Err(e),
            }
            assign.truncate(la);
            pending.truncate(lp);
            proof {
                assert(assign@ =~= a0);
                assert(pending@ =~= p0);
            }
        }
        t = t + 1;
    }
    proof {
        if target is Some {
            let x = target->0;
            assert(index@[x as int].name@ == name@);
            assert(cands@.contains(x));
        }
    }
    if !any_match {
        let nm = name.clone();
        let edges = vec![reason];
        proof {
            assert(edges@ =~= seq![reason]);
            lemma_no_candidate(index@, name@, cands@, spec@);
            assert(edge_spec(edges@[0], roots@, index@)->0 == spec@);
        }
        *conflict = Some((nm, edges));
    }
    proof {
        assert(assign@.subrange(0, assign@.len() as int) =~= assign@);
        assert(pending@.subrange(0, pending@.len() as int) =~= pending@);
    }
    Ok(None)
}

/// Resolves `roots` against `index`: a choice of one record per required package that
/// meets every root, every dependency of a chosen record, and every constraint of a
/// chosen record on a chosen package. Candidates are tried best first, requirements in
/// the order they are discovered. Where every root names its package, the search fails
/// as unsatisfiable only when no such choice exists.
pub fn solve(roots: &Vec<MatchSpec>, index: &PackageIndex) -> (r: Result<Solution, SolveError>)
    ensures
        match r {
            Ok(sol) => is_solution(roots@, index@, sol.records@),
            Err(SolveError::Unsatisfiable { name, edges }) => {
                &&& explains(name@, edges@, roots@, index@)
                &&& roots_named(roots@) ==> forall|sol: Seq<usize>| !is_solution(roots@, index@, sol)
            },
            Err(SolveError::DataIntegrity { record, text }) => bad_text(record, text@, index@),
        },
{
    let mut assign: Vec<Choice> = Vec::new();
    let mut pending: Vec<Edge> = Vec::new();
    let mut i: usize = 0;
    while i < roots.len()
        invariant
            i <= roots@.len(),
            pending@.len() == i,
            forall|q: int| 0 <= q < i ==> edge_valid(#[trigger] pending@[q], roots@.len() as int, index@),
            forall|q: int| 0 <= q < i ==> #[trigger] pending@[q] == Edge::Root(q as usize),
        decreases roots@.len() - i,
    {
        pending.push(Edge::Root(i));
        i = i + 1;
    }
    let mut conflict: Option<(String, Vec<Edge>)> = None;
    let ghost sol = choose|sol: Seq<usize>| is_solution(roots@, index@, sol);
    proof {
        assert forall|i: usize| (i as int) < roots@.len() implies #[trigger] pending@.contains(Edge::Root(i)) by {
            assert(pending@[i as int] == Edge::Root(i));
        }
        assert(progress_ok(roots@, index@, assign@, pending@, 0));
    }
    match search(roots, index, &mut assign, &mut pending, 0, &mut conflict, Ghost(sol)) {
        Ok(Some(records)) => Ok(Solution { records }),
        Ok(None) => match conflict {
            Some((name, edges)) => Err(SolveError::Unsatisfiable { name, edges }),
            None => Err(SolveError::Unsatisfiable { name: String::new(), edges: Vec::new() }),
        },
        Err(e) => Err(e),
    }
}

} // verus!
