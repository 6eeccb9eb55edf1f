//! Version constraints: parsing and membership.
use vstd::prelude::*;
use crate::text::{copy_range, find_char_in, find_in, string_from_chars};
use crate::version::{
    is_lex_char, key, key_at, key_of, lemma_version_chars, parse_version, version_eq, version_lt,
    Component, Version, VersionModel,
};

verus! {

/// The relation that a single constraint demands between a candidate and its version.
#[derive(Debug, Clone, Copy, PartialEq, Eq, Structural)]
pub enum Op {
    /// `==`, or a bare version
    Exact,
    /// `!=`
    NotEqual,
    /// `<`
    Less,
    /// `<=`
    LessEq,
    /// `>`
    Greater,
    /// `>=`
    GreaterEq,
    /// a trailing `.*`, or `=`
    StartsWith,
    /// `!=` with a trailing `.*`
    NotStartsWith,
    /// `~=`
    Compatible,
}

/// The meaning of a version constraint.
pub enum SpecModel {
    Any,
    Constraint(Op, VersionModel),
    And(Box<SpecModel>, Box<SpecModel>),
    Or(Box<SpecModel>, Box<SpecModel>),
}

/// A constraint on versions: a single comparison, or an AND or OR of two constraints.
#[derive(Debug, PartialEq, Eq)]
pub enum VersionSpec {
    /// `*`: every version.
    Any,
    Constraint(Op, Version),
    And(Box<VersionSpec>, Box<VersionSpec>),
    Or(Box<VersionSpec>, Box<VersionSpec>),
}

pub open spec fn spec_model(vs: VersionSpec) -> SpecModel
    decreases vs,
{
    match vs {
        VersionSpec::Any => SpecModel::Any,
        VersionSpec::Constraint(op, v) => SpecModel::Constraint(op, v@),
        VersionSpec::And(a, b) => SpecModel::And(Box::new(spec_model(*a)), Box::new(spec_model(*b))),
        VersionSpec::Or(a, b) => SpecModel::Or(Box::new(spec_model(*a)), Box::new(spec_model(*b))),
    }
}

impl View for VersionSpec {
    type V = SpecModel;

    open spec fn view(&self) -> SpecModel {
        spec_model(*self)
    }
}

/// `v` agrees with `prefix` on the first `prefix.len()` components and on the epoch.
pub open spec fn starts_with(v: VersionModel, epoch: nat, prefix: Seq<Component>) -> bool {
    &&& v.epoch == epoch
    &&& forall|i: int| 0 <= i < prefix.len() ==> #[trigger] key_at(v.comps, i) == key(prefix[i])
}

/// The components of a compatible-release bound without its last one.
pub open spec fn release_prefix(x: VersionModel) -> Seq<Component> {
    if x.comps.len() == 0 { x.comps } else { x.comps.subrange(0, x.comps.len() - 1) }
}

/// Whether `v` stands in relation `op` to `x`.
pub open spec fn op_matches(op: Op, x: VersionModel, v: VersionModel) -> bool {
    match op {
        Op::Exact => version_eq(v, x),
        Op::NotEqual => !version_eq(v, x),
        Op::Less => version_lt(v, x),
        Op::LessEq => version_lt(v, x) || version_eq(v, x),
        Op::Greater => version_lt(x, v),
        Op::GreaterEq => version_lt(x, v) || version_eq(v, x),
        Op::StartsWith => starts_with(v, x.epoch, x.comps),
        Op::NotStartsWith => !starts_with(v, x.epoch, x.comps),
        Op::Compatible => (version_lt(x, v) || version_eq(v, x)) && starts_with(v, x.epoch, release_prefix(x)),
    }
}

/// Whether a version satisfies a constraint.
pub open spec fn model_matches(m: SpecModel, v: VersionModel) -> bool
    decreases m,
{
    match m {
        SpecModel::Any => true,
        SpecModel::Constraint(op, x) => op_matches(op, x, v),
        SpecModel::And(a, b) => model_matches(*a, v) && model_matches(*b, v),
        SpecModel::Or(a, b) => model_matches(*a, v) || model_matches(*b, v),
    }
}

/// The operator at the start of `s[lo..hi]` and its length.
pub open spec fn op_prefix(s: Seq<char>, lo: int, hi: int) -> (Option<Op>, int) {
    if hi - lo >= 2 && s[lo + 1] == '=' && s[lo] == '=' { (Some(Op::Exact), 2) }
    else if hi - lo >= 2 && s[lo + 1] == '=' && s[lo] == '!' { (Some(Op::NotEqual), 2) }
    else if hi - lo >= 2 && s[lo + 1] == '=' && s[lo] == '<' { (Some(Op::LessEq), 2) }
    else if hi - lo >= 2 && s[lo + 1] == '=' && s[lo] == '>' { (Some(Op::GreaterEq), 2) }
    else if hi - lo >= 2 && s[lo + 1] == '=' && s[lo] == '~' { (Some(Op::Compatible), 2) }
    else if hi - lo >= 1 && s[lo] == '<' { (Some(Op::Less), 1) }
    else if hi - lo >= 1 && s[lo] == '>' { (Some(Op::Greater), 1) }
    else if hi - lo >= 1 && s[lo] == '=' { (Some(Op::StartsWith), 1) }
    else { (None, 0) }
}

/// The operator meant by a written operator with or without a trailing `.*`.
pub open spec fn effective_op(op: Option<Op>, glob: bool) -> Option<Op> {
    match op {
        None => if glob { Some(Op::StartsWith) } else { Some(Op::Exact) },
        Some(Op::Exact) => if glob { Some(Op::StartsWith) } else { Some(Op::Exact) },
        Some(Op::StartsWith) => Some(Op::StartsWith),
        Some(Op::NotEqual) => if glob { Some(Op::NotStartsWith) } else { Some(Op::NotEqual) },
        Some(o) => if glob { None } else { Some(o) },
    }
}

/// Whether `s[lo..hi]` ends with `.*`.
pub open spec fn has_glob_suffix(s: Seq<char>, lo: int, hi: int) -> bool {
    hi - lo >= 2 && s[hi - 2] == '.' && s[hi - 1] == '*'
}

/// The parse of one constraint `s[lo..hi]`: `*`, or an optional operator, a version and
/// an optional `.*`.
pub open spec fn parse_constraint(s: Seq<char>, lo: int, hi: int) -> Option<SpecModel> {
    if hi - lo == 1 && s[lo] == '*' {
        Some(SpecModel::Any)
    } else {
        let (op, n) = op_prefix(s, lo, hi);
        let vlo = lo + n;
        let glob = has_glob_suffix(s, vlo, hi);
        let vhi = if glob { hi - 2 } else { hi };
        match (effective_op(op, glob), parse_version(s.subrange(vlo, vhi))) {
            (Some(o), Some(v)) => Some(SpecModel::Constraint(o, v)),
            _ => None,
        }
    }
}

/// The parse of a comma-separated AND list `s[lo..hi]`.
pub open spec fn parse_and(s: Seq<char>, lo: int, hi: int) -> Option<SpecModel>
    decreases hi - lo,
{
    let comma = find_in(s, ',', lo, hi);
    if lo <= comma < hi {
        match (parse_constraint(s, lo, comma), parse_and(s, comma + 1, hi)) {
            (Some(a), Some(b)) => Some(SpecModel::And(Box::new(a), Box::new(b))),
            _ => None,
        }
    } else {
        parse_constraint(s, lo, hi)
    }
}

/// The parse of a `|`-separated OR list `s[lo..hi]` of AND lists.
pub open spec fn parse_or(s: Seq<char>, lo: int, hi: int) -> Option<SpecModel>
    decreases hi - lo,
{
    let bar = find_in(s, '|', lo, hi);
    if lo <= bar < hi {
        match (parse_and(s, lo, bar), parse_or(s, bar + 1, hi)) {
            (Some(a), Some(b)) => Some(SpecModel::Or(Box::new(a), Box::new(b))),
            _ => None,
        }
    } else {
        parse_and(s, lo, hi)
    }
}

/// The parse of a whole version constraint.
pub open spec fn parse_version_spec(s: Seq<char>) -> Option<SpecModel> {
    parse_or(s, 0, s.len() as int)
}

/// Why a version constraint was refused, with the offending text.
#[derive(Debug, Clone, PartialEq, Eq)]
pub struct ParseVersionSpecError {
    pub text: String,
}

fn op_prefix_exec(s: &Vec<char>, lo: usize, hi: usize) -> (r: (Option<Op>, usize))
    requires
        lo <= hi <= s@.len(),
    ensures
        (r.0, r.1 as int) == op_prefix(s@, lo as int, hi as int),
{
    if hi - lo >= 2 && s[lo + 1] == '=' && s[lo] == '=' { (Some(Op::Exact), 2) }
    else if hi - lo >= 2 && s[lo + 1] == '=' && s[lo] == '!' { (Some(Op::NotEqual), 2) }
    else if hi - lo >= 2 && s[lo + 1] == '=' && s[lo] == '<' { (Some(Op::LessEq), 2) }
    else if hi - lo >= 2 && s[lo + 1] == '=' && s[lo] == '>' { (Some(Op::GreaterEq), 2) }
    else if hi - lo >= 2 && s[lo + 1] == '=' && s[lo] == '~' { (Some(Op::Compatible), 2) }
    else if hi - lo >= 1 && s[lo] == '<' { (Some(Op::Less), 1) }
    else if hi - lo >= 1 && s[lo] == '>' { (Some(Op::Greater), 1) }
    else if hi - lo >= 1 && s[lo] == '=' { (Some(Op::StartsWith), 1) }
    else { (None, 0) }
}

fn effective_op_exec(op: Option<Op>, glob: bool) -> (r: Option<Op>)
    ensures
        r == effective_op(op, glob),
{
    match op {
        None => if glob { Some(Op::StartsWith) } else { Some(Op::Exact) },
        Some(Op::Exact) => if glob { Some(Op::StartsWith) } else { Some(Op::Exact) },
        Some(Op::StartsWith) => Some(Op::StartsWith),
        Some(Op::NotEqual) => if glob { Some(Op::NotStartsWith) } else { Some(Op::NotEqual) },
        Some(o) => if glob { None } else { Some(o) },
    }
}

fn parse_constraint_exec(s: &Vec<char>, lo: usize, hi: usize) -> (r: Option<VersionSpec>)
    requires
        lo <= hi <= s@.len(),
    ensures
        match r {
            Some(v) => parse_constraint(s@, lo as int, hi as int) == Some(v@) && leaf_ok(v),
            None => parse_constraint(s@, lo as int, hi as int) is None,
        },
{
    if hi - lo == 1 && s[lo] == '*' {
        return Some(VersionSpec::Any);
    }
    let (op, n) = op_prefix_exec(s, lo, hi);
    let vlo = lo + n;
    let glob = hi - vlo >= 2 && s[hi - 2] == '.' && s[hi - 1] == '*';
    let vhi = if glob { hi - 2 } else { hi };
    let o = match effective_op_exec(op, glob) {
        Some(o) => o,
        None => return None,
    };
    let vc = copy_range(s, vlo, vhi);
    let text = string_from_chars(&vc);
    match Version::parse_chars(&vc, text) {
        Ok(v) => Some(VersionSpec::Constraint(o, v)),
        Err(_) => None,
    }
}

fn parse_and_exec(s: &Vec<char>, lo: usize, hi: usize) -> (r: Option<VersionSpec>)
    requires
        lo <= hi <= s@.len(),
    ensures
        match r {
            Some(v) => parse_and(s@, lo as int, hi as int) == Some(v@) && and_ok(v),
            None => parse_and(s@, lo as int, hi as int) is None,
        },
    decreases hi - lo,
{
    let comma = find_char_in(s, ',', lo, hi);
    if comma < hi {
        let a = parse_constraint_exec(s, lo, comma);
        let b = parse_and_exec(s, comma + 1, hi);
        match (a, b) {
            (Some(a), Some(b)) => Some(VersionSpec::And(Box::new(a), Box::new(b))),
            _ => None,
        }
    } else {
        parse_constraint_exec(s, lo, hi)
    }
}

pub(crate) fn parse_or_exec(s: &Vec<char>, lo: usize, hi: usize) -> (r: Option<VersionSpec>)
    requires
        lo <= hi <= s@.len(),
    ensures
        match r {
            Some(v) => parse_or(s@, lo as int, hi as int) == Some(v@) && or_ok(v),
            None => parse_or(s@, lo as int, hi as int) is None,
        },
    decreases hi - lo,
{
    let bar = find_char_in(s, '|', lo, hi);
    if bar < hi {
        let a = parse_and_exec(s, lo, bar);
        let b = parse_or_exec(s, bar + 1, hi);
        match (a, b) {
            (Some(a), Some(b)) => Some(VersionSpec::Or(Box::new(a), Box::new(b))),
            _ => None,
        }
    } else {
        parse_and_exec(s, lo, hi)
    }
}


fn starts_with_exec(v: &Version, epoch: u64, prefix: &Vec<Component>, n: usize) -> (r: bool)
    requires
        n <= prefix@.len(),
    ensures
        r == starts_with(v@, epoch as nat, prefix@.subrange(0, n as int)),
{
    if v.epoch != epoch {
        return false;
    }
    let mut i: usize = 0;
    while i < n
        invariant
            i <= n <= prefix@.len(),
            forall|j: int| 0 <= j < i ==> #[trigger] key_at(v@.comps, j) == key(prefix@[j]),
        decreases n - i,
    {
        let a = if i < v.components.len() { v.components[i] } else { Component::Num(0) };
        if key_of(a) != key_of(prefix[i]) {
            assert(key_at(v@.comps, i as int) == key(a));
            assert(prefix@.subrange(0, n as int)[i as int] == prefix@[i as int]);
            return false;
        }
        i = i + 1;
    }
    true
}

fn op_matches_exec(op: Op, x: &Version, v: &Version) -> (r: bool)
    ensures
        r == op_matches(op, x@, v@),
{
    match op {
        Op::Exact => matches!(v.compare(x), std::cmp::Ordering::Equal),
        Op::NotEqual => !matches!(v.compare(x), std::cmp::Ordering::Equal),
        Op::Less => matches!(v.compare(x), std::cmp::Ordering::Less),
        Op::LessEq => !matches!(v.compare(x), std::cmp::Ordering::Greater),
        Op::Greater => matches!(v.compare(x), std::cmp::Ordering::Greater),
        Op::GreaterEq => !matches!(v.compare(x), std::cmp::Ordering::Less),
        Op::StartsWith => {
            let r = starts_with_exec(v, x.epoch, &x.components, x.components.len());
            assert(x@.comps.subrange(0, x@.comps.len() as int) =~= x@.comps);
            r
        },
        Op::NotStartsWith => {
            let r = starts_with_exec(v, x.epoch, &x.components, x.components.len());
            assert(x@.comps.subrange(0, x@.comps.len() as int) =~= x@.comps);
            !r
        },
        Op::Compatible => {
            if matches!(v.compare(x), std::cmp::Ordering::Less) {
                return false;
            }
            let n = if x.components.len() == 0 { 0 } else { x.components.len() - 1 };
            assert(x@.comps.len() == 0 ==> x@.comps.subrange(0, 0) =~= x@.comps);
            starts_with_exec(v, x.epoch, &x.components, n)
        },
    }
}

impl VersionSpec {
    /// Parses a version constraint such as `>=3.10,<3.12`, `1.2.*`, `~=2.1` or `1.0|2.0`.
    pub fn parse(s: &str) -> (r: Result<VersionSpec, ParseVersionSpecError>)
        ensures
            match r {
                Ok(v) => parse_version_spec(s@) == Some(v@) && or_ok(v),
                Err(e) => parse_version_spec(s@) is None && e.text@ == s@,
            },
    {
        let cs = crate::text::chars_of(s);
        match parse_or_exec(&cs, 0, cs.len()) {
            Some(v) => Ok(v),
            None => Err(ParseVersionSpecError { text: s.to_owned() }),
        }
    }

    /// Appends the canonical text of this constraint to `out`.
    pub fn write_text(&self, out: &mut Vec<char>)
        ensures
            final(out)@ == old(out)@ + format_spec(*self),
        decreases self,
    {
        match self {
            VersionSpec::Any => {
                out.push('*');
            },
            VersionSpec::Constraint(op, v) => {
                match op {
                    Op::Exact => { out.push('='); out.push('='); },
                    Op::NotEqual => { out.push('!'); out.push('='); },
                    Op::Less => { out.push('<'); },
                    Op::LessEq => { out.push('<'); out.push('='); },
                    Op::Greater => { out.push('>'); },
                    Op::GreaterEq => { out.push('>'); out.push('='); },
                    Op::StartsWith => {},
                    Op::NotStartsWith => { out.push('!'); out.push('='); },
                    Op::Compatible => { out.push('~'); out.push('='); },
                }
                let ghost mid = out@;
                let src = crate::text::chars_of(v.source.as_str());
                crate::text::push_all(out, &src);
                match op {
                    Op::StartsWith | Op::NotStartsWith => { out.push('.'); out.push('*'); },
                    _ => {},
                }
                assert(out@ =~= old(out)@ + format_spec(*self));
            },
            VersionSpec::And(a, b) => {
                a.write_text(out);
                out.push(',');
                b.write_text(out);
                assert(out@ =~= old(out)@ + format_spec(*self));
            },
            VersionSpec::Or(a, b) => {
                a.write_text(out);
                out.push('|');
                b.write_text(out);
                assert(out@ =~= old(out)@ + format_spec(*self));
            },
        }
    }

    /// The canonical text of this constraint.
    pub fn to_text(&self) -> (r: String)
        ensures
            r@ == format_spec(*self),
    {
        let mut out: Vec<char> = Vec::new();
        self.write_text(&mut out);
        assert(out@ =~= format_spec(*self));
        string_from_chars(&out)
    }

    /// Whether `v` satisfies this constraint.
    pub fn matches(&self, v: &Version) -> (r: bool)
        ensures
            r == model_matches(self@, v@),
        decreases self,
    {
        match self {
            VersionSpec::Any => true,
            VersionSpec::Constraint(op, x) => op_matches_exec(*op, x, v),
            VersionSpec::And(a, b) => a.matches(v) && b.matches(v),
            VersionSpec::Or(a, b) => a.matches(v) || b.matches(v),
        }
    }

    /// The constraint that holds where both `a` and `b` hold.
    pub fn and(a: VersionSpec, b: VersionSpec) -> (r: VersionSpec)
        ensures
            r@ == SpecModel::And(Box::new(a@), Box::new(b@)),
    {
        VersionSpec::And(Box::new(a), Box::new(b))
    }
}

/// A version that satisfies the AND of two constraints satisfies each of them.
pub proof fn lemma_and_monotonic(a: SpecModel, b: SpecModel, v: VersionModel)
    ensures
        model_matches(SpecModel::And(Box::new(a), Box::new(b)), v)
            ==> model_matches(a, v) && model_matches(b, v),
{
}


/// The operator text written before a version.
pub open spec fn op_text(op: Op) -> Seq<char> {
    match op {
        Op::Exact => seq!['=', '='],
        Op::NotEqual => seq!['!', '='],
        Op::Less => seq!['<'],
        Op::LessEq => seq!['<', '='],
        Op::Greater => seq!['>'],
        Op::GreaterEq => seq!['>', '='],
        Op::StartsWith => Seq::empty(),
        Op::NotStartsWith => seq!['!', '='],
        Op::Compatible => seq!['~', '='],
    }
}

/// The text written after a version.
pub open spec fn suffix_text(op: Op) -> Seq<char> {
    match op {
        Op::StartsWith => seq!['.', '*'],
        Op::NotStartsWith => seq!['.', '*'],
        _ => Seq::empty(),
    }
}

/// The canonical text of a constraint.
pub open spec fn format_spec(vs: VersionSpec) -> Seq<char>
    decreases vs,
{
    match vs {
        VersionSpec::Any => seq!['*'],
        VersionSpec::Constraint(op, v) => op_text(op) + v.source@ + suffix_text(op),
        VersionSpec::And(a, b) => format_spec(*a) + seq![','] + format_spec(*b),
        VersionSpec::Or(a, b) => format_spec(*a) + seq!['|'] + format_spec(*b),
    }
}

/// A single constraint whose version text parses to the version it holds.
pub open spec fn leaf_ok(vs: VersionSpec) -> bool {
    match vs {
        VersionSpec::Any => true,
        VersionSpec::Constraint(op, v) => parse_version(v.source@) == Some(v@),
        _ => false,
    }
}

/// An AND list of single constraints, nested to the right.
pub open spec fn and_ok(vs: VersionSpec) -> bool
    decreases vs,
{
    match vs {
        VersionSpec::And(a, b) => leaf_ok(*a) && and_ok(*b),
        _ => leaf_ok(vs),
    }
}

/// An OR list of AND lists, nested to the right: the shape that parsing produces.
pub open spec fn or_ok(vs: VersionSpec) -> bool
    decreases vs,
{
    match vs {
        VersionSpec::Or(a, b) => and_ok(*a) && or_ok(*b),
        _ => and_ok(vs),
    }
}

proof fn lemma_find_in_at(s: Seq<char>, c: char, lo: int, k: int, hi: int)
    requires
        lo <= k <= hi,
        forall|j: int| lo <= j < k ==> s[j] != c,
        k == hi || s[k] == c,
    ensures
        find_in(s, c, lo, hi) == k,
    decreases k - lo,
{
    if lo < k {
        lemma_find_in_at(s, c, lo + 1, k, hi);
    }
}

proof fn lemma_leaf_chars(vs: VersionSpec)
    requires
        leaf_ok(vs),
    ensures
        forall|j: int| 0 <= j < format_spec(vs).len() ==> #[trigger] format_spec(vs)[j] != ',' && format_spec(vs)[j] != '|',
{
    if let VersionSpec::Constraint(op, v) = vs {
        lemma_version_chars(v.source@);
        let t = format_spec(vs);
        let o = op_text(op);
        assert forall|j: int| 0 <= j < t.len() implies #[trigger] t[j] != ',' && t[j] != '|' by {
            if j < o.len() {
            } else if j < o.len() + v.source@.len() {
                assert(t[j] == v.source@[j - o.len()]);
            } else {
            }
        }
    }
}

proof fn lemma_and_chars(vs: VersionSpec)
    requires
        and_ok(vs),
    ensures
        forall|j: int| 0 <= j < format_spec(vs).len() ==> #[trigger] format_spec(vs)[j] != '|',
    decreases vs,
{
    match vs {
        VersionSpec::And(a, b) => {
            lemma_leaf_chars(*a);
            lemma_and_chars(*b);
            let t = format_spec(vs);
            let fa = format_spec(*a);
            assert forall|j: int| 0 <= j < t.len() implies #[trigger] t[j] != '|' by {
                if j < fa.len() {
                    assert(t[j] == fa[j]);
                } else if j > fa.len() {
                    assert(t[j] == format_spec(*b)[j - fa.len() - 1]);
                }
            }
        },
        _ => {
            lemma_leaf_chars(vs);
        },
    }
}

#[verifier::rlimit(50)]
#[verifier::spinoff_prover]
proof fn lemma_parse_single(s: Seq<char>, lo: int, hi: int, op: Op, v: Version)
    requires
        0 <= lo <= hi <= s.len(),
        parse_version(v.source@) == Some(v@),
        s.subrange(lo, hi) == op_text(op) + v.source@ + suffix_text(op),
    ensures
        parse_constraint(s, lo, hi) == Some(SpecModel::Constraint(op, v@)),
{
    let t = s.subrange(lo, hi);
    assert forall|j: int| 0 <= j < hi - lo implies s[lo + j] == #[trigger] t[j] by {}
    let src = v.source@;
    lemma_version_chars(src);
    let o = op_text(op);
    assert(t == o + src + suffix_text(op));
    assert(t.len() == o.len() + src.len() + suffix_text(op).len());
    assert(hi - lo == t.len());
    let os = o + src;
    assert(os[o.len() as int] == src[0]);
    assert(t[o.len() as int] == os[o.len() as int]);
    assert(s[lo + o.len()] == src[0]);
    if o.len() > 0 {
        assert(os[0] == o[0]);
        assert(t[0] == os[0]);
    }
    if o.len() == 2 {
        assert(os[1] == o[1]);
        assert(t[1] == os[1]);
    }
    assert(s[hi - 1] == t[t.len() - 1]);
    if suffix_text(op).len() == 0 {
        assert(t[t.len() - 1] == src[src.len() - 1]);
    } else {
        assert(s[hi - 2] == t[t.len() - 2]);
    }
    if o.len() == 0 {
        assert(s[lo] == src[0]);
    } else {
        assert(s[lo] == o[0]);
    }
    if o.len() == 1 {
        assert(s[lo + 1] == src[0]);
    } else if o.len() == 2 {
        assert(s[lo + 1] == o[1]);
    }
    let (wop, n) = op_prefix(s, lo, hi);
    assert(n == o.len());
    let vlo = lo + n;
    let vhi = if has_glob_suffix(s, vlo, hi) { hi - 2 } else { hi };
    assert(vhi == hi - suffix_text(op).len());
    assert(t.len() == o.len() + src.len() + suffix_text(op).len());
    assert forall|j: int| 0 <= j < src.len() implies s.subrange(vlo, vhi)[j] == #[trigger] src[j] by {
        assert(os[o.len() + j] == src[j]);
        assert(t[o.len() + j] == os[o.len() + j]);
        assert(s[vlo + j] == t[o.len() + j]);
    }
    assert(s.subrange(vlo, vhi) =~= src);
    assert(effective_op(wop, has_glob_suffix(s, vlo, hi)) == Some(op));
    assert(!(hi - lo == 1 && s[lo] == '*'));
    assert(parse_version(s.subrange(vlo, vhi)) == Some(v@));
}

proof fn lemma_parse_leaf(s: Seq<char>, lo: int, hi: int, vs: VersionSpec)
    requires
        0 <= lo <= hi <= s.len(),
        leaf_ok(vs),
        s.subrange(lo, hi) == format_spec(vs),
    ensures
        parse_constraint(s, lo, hi) == Some(vs@),
{
    match vs {
        VersionSpec::Constraint(op, v) => {
            assert(format_spec(vs) == op_text(op) + v.source@ + suffix_text(op));
            assert(vs@ == SpecModel::Constraint(op, v@));
            lemma_parse_single(s, lo, hi, op, v);
        },
        _ => {
            assert(vs is Any);
            assert(format_spec(vs) == seq!['*']);
            assert(vs@ == SpecModel::Any);
            let t = s.subrange(lo, hi);
            assert(t.len() == 1);
            assert(t[0] == '*');
            assert(s[lo] == t[0]);
        },
    }
}

#[verifier::rlimit(50)]
proof fn lemma_parse_and(s: Seq<char>, lo: int, hi: int, vs: VersionSpec)
    requires
        0 <= lo <= hi <= s.len(),
        and_ok(vs),
        s.subrange(lo, hi) == format_spec(vs),
    ensures
        parse_and(s, lo, hi) == Some(vs@),
    decreases vs,
{
    let t = s.subrange(lo, hi);
    assert forall|j: int| 0 <= j < hi - lo implies s[lo + j] == #[trigger] t[j] by {}
    match vs {
        VersionSpec::And(a, b) => {
            let fa = format_spec(*a);
            let k = lo + fa.len();
            assert(t.len() == fa.len() + 1 + format_spec(*b).len());
            lemma_leaf_chars(*a);
            assert forall|j: int| lo <= j < k implies s[j] != ',' by {
                assert(s[j] == t[j - lo]);
                assert(t[j - lo] == fa[j - lo]);
            }
            assert(s[k] == t[fa.len() as int]);
            lemma_find_in_at(s, ',', lo, k, hi);
            assert(s.subrange(lo, k) =~= fa);
            let fb = format_spec(*b);
            assert(t.len() == fa.len() + 1 + fb.len());
            assert forall|j: int| 0 <= j < fb.len() implies s.subrange(k + 1, hi)[j] == #[trigger] fb[j] by {
                assert(s[k + 1 + j] == t[fa.len() + 1 + j]);
            }
            assert(s.subrange(k + 1, hi) =~= fb);
            lemma_parse_leaf(s, lo, k, *a);
            lemma_parse_and(s, k + 1, hi, *b);
        },
        _ => {
            lemma_leaf_chars(vs);
            assert forall|j: int| lo <= j < hi implies s[j] != ',' by {
                assert(s[j] == t[j - lo]);
            }
            lemma_find_in_at(s, ',', lo, hi, hi);
            lemma_parse_leaf(s, lo, hi, vs);
        },
    }
}

#[verifier::rlimit(50)]
proof fn lemma_parse_or(s: Seq<char>, lo: int, hi: int, vs: VersionSpec)
    requires
        0 <= lo <= hi <= s.len(),
        or_ok(vs),
        s.subrange(lo, hi) == format_spec(vs),
    ensures
        parse_or(s, lo, hi) == Some(vs@),
    decreases vs,
{
    let t = s.subrange(lo, hi);
    assert forall|j: int| 0 <= j < hi - lo implies s[lo + j] == #[trigger] t[j] by {}
    match vs {
        VersionSpec::Or(a, b) => {
            let fa = format_spec(*a);
            let k = lo + fa.len();
            assert(t.len() == fa.len() + 1 + format_spec(*b).len());
            lemma_and_chars(*a);
            assert forall|j: int| lo <= j < k implies s[j] != '|' by {
                assert(s[j] == t[j - lo]);
                assert(t[j - lo] == fa[j - lo]);
            }
            assert(s[k] == t[fa.len() as int]);
            lemma_find_in_at(s, '|', lo, k, hi);
            assert(s.subrange(lo, k) =~= fa);
            let fb = format_spec(*b);
            assert(t.len() == fa.len() + 1 + fb.len());
            assert forall|j: int| 0 <= j < fb.len() implies s.subrange(k + 1, hi)[j] == #[trigger] fb[j] by {
                assert(s[k + 1 + j] == t[fa.len() + 1 + j]);
            }
            assert(s.subrange(k + 1, hi) =~= fb);
            lemma_parse_and(s, lo, k, *a);
            lemma_parse_or(s, k + 1, hi, *b);
        },
        _ => {
            lemma_and_chars(vs);
            assert forall|j: int| lo <= j < hi implies s[j] != '|' by {
                assert(s[j] == t[j - lo]);
            }
            lemma_find_in_at(s, '|', lo, hi, hi);
            lemma_parse_and(s, lo, hi, vs);
        },
    }
}

/// Formatting a parsed constraint and parsing the text again gives the same constraint.
pub proof fn lemma_version_spec_round_trip(s: Seq<char>, vs: VersionSpec)
    requires
        parse_version_spec(s) == Some(vs@),
        or_ok(vs),
    ensures
        parse_version_spec(format_spec(vs)) == parse_version_spec(s),
{
    let t = format_spec(vs);
    assert(t.subrange(0, t.len() as int) =~= t);
    lemma_parse_or(t, 0, t.len() as int, vs);
}

} // verus!
