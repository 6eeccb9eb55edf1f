//! Versions: parsing and their total order.
use vstd::prelude::*;
use crate::text::{chars_eq_str, chars_of};

verus! {

/// One component of a version: a number or one of the known release tags.
#[derive(Debug, Clone, Copy, PartialEq, Eq, Hash)]
pub enum Component {
    /// `dev`
    Dev,
    /// `a` or `alpha`
    Alpha,
    /// `b` or `beta`
    Beta,
    /// `rc`
    Rc,
    /// A non-negative integer.
    Num(u64),
    /// `post`
    Post,
}

/// The rank of a component in the version order: tags before a release sort below every
/// number, `post` above every number.
pub open spec fn key(c: Component) -> int {
    match c {
        Component::Dev => -4,
        Component::Alpha => -3,
        Component::Beta => -2,
        Component::Rc => -1,
        Component::Num(n) => n as int,
        Component::Post => 0x1_0000_0000_0000_0000,
    }
}

/// The key at position `i`, where a missing component counts as the number zero.
pub open spec fn key_at(cs: Seq<Component>, i: int) -> int {
    if 0 <= i < cs.len() { key(cs[i]) } else { 0 }
}

/// Two component sequences are equal once padded with zeros.
pub open spec fn comps_eq(a: Seq<Component>, b: Seq<Component>) -> bool {
    forall|i: int| 0 <= i ==> #[trigger] key_at(a, i) == key_at(b, i)
}

/// Position `i` is the first at which `a` and `b` differ, and `a` is lower there.
pub open spec fn lower_at(a: Seq<Component>, b: Seq<Component>, i: int) -> bool {
    &&& 0 <= i
    &&& key_at(a, i) < key_at(b, i)
    &&& forall|j: int| 0 <= j < i ==> #[trigger] key_at(a, j) == key_at(b, j)
}

/// `a` sorts before `b` once both are padded with zeros.
pub open spec fn comps_lt(a: Seq<Component>, b: Seq<Component>) -> bool {
    exists|i: int| #[trigger] lower_at(a, b, i)
}

/// The parsed form of a version.
pub struct VersionModel {
    pub epoch: nat,
    pub comps: Seq<Component>,
    pub has_local: bool,
    pub local: Seq<Component>,
}

/// Version equality: every field compares equal.
pub open spec fn version_eq(a: VersionModel, b: VersionModel) -> bool {
    &&& a.epoch == b.epoch
    &&& comps_eq(a.comps, b.comps)
    &&& a.has_local == b.has_local
    &&& comps_eq(a.local, b.local)
}

/// Version order: epoch, then components, then absence before presence of a local
/// part, then the local part.
pub open spec fn version_lt(a: VersionModel, b: VersionModel) -> bool {
    ||| a.epoch < b.epoch
    ||| a.epoch == b.epoch && comps_lt(a.comps, b.comps)
    ||| a.epoch == b.epoch && comps_eq(a.comps, b.comps) && !a.has_local && b.has_local
    ||| a.epoch == b.epoch && comps_eq(a.comps, b.comps) && a.has_local == b.has_local
        && comps_lt(a.local, b.local)
}

proof fn lemma_first_difference(a: Seq<Component>, b: Seq<Component>, n: int)
    requires
        0 <= n,
        exists|i: int| 0 <= i <= n && #[trigger] key_at(a, i) != key_at(b, i),
    ensures
        comps_lt(a, b) || comps_lt(b, a),
    decreases n,
{
    if forall|j: int| 0 <= j < n ==> #[trigger] key_at(a, j) == key_at(b, j) {
        if key_at(a, n) < key_at(b, n) {
            assert(lower_at(a, b, n));
        } else {
            assert(lower_at(b, a, n));
        }
    } else {
        lemma_first_difference(a, b, n - 1);
    }
}

/// Padded component sequences are totally ordered.
pub proof fn lemma_comps_total(a: Seq<Component>, b: Seq<Component>, c: Seq<Component>)
    ensures
        comps_eq(a, b) || comps_lt(a, b) || comps_lt(b, a),
        !(comps_eq(a, b) && comps_lt(a, b)),
        !(comps_eq(a, b) && comps_lt(b, a)),
        !(comps_lt(a, b) && comps_lt(b, a)),
        comps_eq(a, b) ==> comps_eq(b, a),
        comps_eq(a, b) && comps_eq(b, c) ==> comps_eq(a, c),
        comps_lt(a, b) && comps_lt(b, c) ==> comps_lt(a, c),
        comps_lt(a, b) && comps_eq(b, c) ==> comps_lt(a, c),
        comps_eq(a, b) && comps_lt(b, c) ==> comps_lt(a, c),
{
    if !comps_eq(a, b) {
        let i = choose|i: int| 0 <= i && #[trigger] key_at(a, i) != key_at(b, i);
        lemma_first_difference(a, b, i);
    }
    if comps_eq(a, b) && comps_lt(a, b) {
        let i = choose|i: int| #[trigger] lower_at(a, b, i);
        assert(key_at(a, i) == key_at(b, i));
    }
    if comps_eq(a, b) && comps_lt(b, a) {
        let i = choose|i: int| #[trigger] lower_at(b, a, i);
        assert(key_at(a, i) == key_at(b, i));
    }
    if comps_lt(a, b) && comps_lt(b, a) {
        let i = choose|i: int| #[trigger] lower_at(a, b, i);
        let k = choose|k: int| #[trigger] lower_at(b, a, k);
        if i < k {
            assert(key_at(b, i) == key_at(a, i));
        } else if k < i {
            assert(key_at(a, k) == key_at(b, k));
        }
    }
    if comps_lt(a, b) && comps_lt(b, c) {
        let i = choose|i: int| #[trigger] lower_at(a, b, i);
        let k = choose|k: int| #[trigger] lower_at(b, c, k);
        let m = if i < k { i } else { k };
        assert(lower_at(a, c, m));
    }
    if comps_lt(a, b) && comps_eq(b, c) {
        let i = choose|i: int| #[trigger] lower_at(a, b, i);
        assert(key_at(b, i) == key_at(c, i));
        assert(lower_at(a, c, i));
    }
    if comps_eq(a, b) && comps_lt(b, c) {
        let i = choose|i: int| #[trigger] lower_at(b, c, i);
        assert(key_at(a, i) == key_at(b, i));
        assert(lower_at(a, c, i));
    }
}

/// Versions are totally ordered: exactly one of `a < b`, `a == b`, `b < a` holds, and
/// `<` is transitive.
pub proof fn lemma_version_total_order(a: VersionModel, b: VersionModel, c: VersionModel)
    ensures
        version_lt(a, b) || version_eq(a, b) || version_lt(b, a),
        !(version_lt(a, b) && version_eq(a, b)),
        !(version_lt(a, b) && version_lt(b, a)),
        !(version_eq(a, b) && version_lt(b, a)),
        version_lt(a, b) && version_lt(b, c) ==> version_lt(a, c),
        version_eq(a, b) && version_eq(b, c) ==> version_eq(a, c),
        version_eq(a, b) ==> version_eq(b, a),
        !version_lt(a, a),
        version_eq(a, a),
        version_lt(a, b) && version_eq(b, c) ==> version_lt(a, c),
        version_eq(a, b) && version_lt(b, c) ==> version_lt(a, c),
{
    lemma_comps_total(a.comps, b.comps, c.comps);
    lemma_comps_total(a.local, b.local, c.local);
    lemma_comps_total(b.comps, a.comps, c.comps);
    lemma_comps_total(b.local, a.local, c.local);
    lemma_comps_total(a.comps, a.comps, a.comps);
    lemma_comps_total(a.local, a.local, a.local);
}

/// The release tag spelled by a word of lowercase letters.
pub open spec fn word_comp(w: Seq<char>) -> Option<Component> {
    if w == "dev"@ { Some(Component::Dev) }
    else if w == "a"@ || w == "alpha"@ { Some(Component::Alpha) }
    else if w == "b"@ || w == "beta"@ { Some(Component::Beta) }
    else if w == "rc"@ { Some(Component::Rc) }
    else if w == "post"@ { Some(Component::Post) }
    else { None }
}

pub open spec fn is_digit(c: char) -> bool {
    '0' <= c <= '9'
}

pub open spec fn is_letter(c: char) -> bool {
    'a' <= c <= 'z'
}

pub open spec fn is_separator(c: char) -> bool {
    c == '.' || c == '-' || c == '_'
}

/// The state of the component scanner after a prefix of the text.
/// `mode` is 0 between components, 1 inside a number, 2 inside a word.
pub struct LexState {
    pub comps: Seq<Component>,
    pub mode: int,
    pub num: int,
    pub start: int,
    pub err: bool,
}

pub open spec fn lex_init() -> LexState {
    LexState { comps: Seq::empty(), mode: 0, num: 0, start: 0, err: false }
}

/// Ends the component that is open at position `i`.
pub open spec fn lex_flush(s: Seq<char>, st: LexState, i: int) -> LexState {
    if st.mode == 1 {
        LexState { comps: st.comps.push(Component::Num(st.num as u64)), mode: 0, ..st }
    } else if st.mode == 2 {
        match word_comp(s.subrange(st.start, i)) {
            Some(w) => LexState { comps: st.comps.push(w), mode: 0, ..st },
            None => LexState { err: true, ..st },
        }
    } else {
        st
    }
}

/// Feeds the character at position `i` to the scanner.
pub open spec fn lex_step(s: Seq<char>, st: LexState, i: int) -> LexState {
    let c = s[i];
    if st.err {
        st
    } else if is_digit(c) {
        let d = c as int - '0' as int;
        if st.mode == 1 {
            if st.num * 10 + d > u64::MAX {
                LexState { err: true, ..st }
            } else {
                LexState { num: st.num * 10 + d, ..st }
            }
        } else {
            let f = lex_flush(s, st, i);
            LexState { mode: 1, num: d, ..f }
        }
    } else if is_letter(c) {
        if st.mode == 2 {
            st
        } else {
            let f = lex_flush(s, st, i);
            LexState { mode: 2, start: i, ..f }
        }
    } else if is_separator(c) {
        if st.mode == 0 {
            LexState { err: true, ..st }
        } else {
            lex_flush(s, st, i)
        }
    } else {
        LexState { err: true, ..st }
    }
}

/// The scanner state after the characters `lo..i`.
pub open spec fn lex_upto(s: Seq<char>, lo: int, i: int) -> LexState
    decreases i - lo,
{
    if i <= lo { lex_init() } else { lex_step(s, lex_upto(s, lo, i - 1), i - 1) }
}

/// The components of `s[lo..hi]`: numbers and tags, split at separators and wherever
/// digits meet letters. `None` when the range is empty, begins or ends with a separator,
/// holds two separators in a row, an unknown word, another character, or a number
/// beyond 64 bits.
pub open spec fn lex_range(s: Seq<char>, lo: int, hi: int) -> Option<Seq<Component>> {
    let st = lex_upto(s, lo, hi);
    if st.err || st.mode == 0 {
        None
    } else {
        let f = lex_flush(s, st, hi);
        if f.err { None } else { Some(f.comps) }
    }
}

/// The first position at or after `i` that holds `c`, or the length.
pub open spec fn find_from(s: Seq<char>, c: char, i: int) -> int
    decreases s.len() - i,
{
    if i >= s.len() { s.len() as int }
    else if s[i] == c { i }
    else { find_from(s, c, i + 1) }
}

/// The parse of a version text `[epoch!]components[+local]`.
pub open spec fn parse_version(s: Seq<char>) -> Option<VersionModel> {
    let bang = find_from(s, '!', 0);
    let epoch: Option<nat> = if bang < s.len() {
        match lex_range(s, 0, bang) {
            Some(e) => if e.len() == 1 && e[0] is Num { Some(e[0]->Num_0 as nat) } else { None },
            None => None,
        }
    } else {
        Some(0)
    };
    let start = if bang < s.len() { bang + 1 } else { 0 };
    let plus = find_from(s, '+', start);
    match (epoch, lex_range(s, start, plus)) {
        (Some(e), Some(comps)) => if plus < s.len() {
            match lex_range(s, plus + 1, s.len() as int) {
                Some(local) => Some(VersionModel { epoch: e, comps, has_local: true, local }),
                None => None,
            }
        } else {
            Some(VersionModel { epoch: e, comps, has_local: false, local: Seq::empty() })
        },
        _ => None,
    }
}

proof fn lemma_err_sticky(s: Seq<char>, lo: int, i: int, j: int)
    requires
        lo <= i <= j,
        lex_upto(s, lo, i).err,
    ensures
        lex_upto(s, lo, j).err,
    decreases j - i,
{
    if j > i {
        lemma_err_sticky(s, lo, i, j - 1);
    }
}

fn word_at(s: &Vec<char>, start: usize, end: usize) -> (r: Option<Component>)
    requires
        start <= end <= s@.len(),
    ensures
        r == word_comp(s@.subrange(start as int, end as int)),
{
    let mut w: Vec<char> = Vec::new();
    let mut i: usize = start;
    while i < end
        invariant
            start <= i <= end <= s@.len(),
            w@ == s@.subrange(start as int, i as int),
        decreases end - i,
    {
        w.push(s[i]);
        i = i + 1;
        assert(w@ =~= s@.subrange(start as int, i as int));
    }
    if chars_eq_str(&w, "dev") { Some(Component::Dev) }
    else if chars_eq_str(&w, "a") || chars_eq_str(&w, "alpha") { Some(Component::Alpha) }
    else if chars_eq_str(&w, "b") || chars_eq_str(&w, "beta") { Some(Component::Beta) }
    else if chars_eq_str(&w, "rc") { Some(Component::Rc) }
    else if chars_eq_str(&w, "post") { Some(Component::Post) }
    else { None }
}

/// Scans `s[lo..hi]` into components.
pub(crate) fn lex_exec(s: &Vec<char>, lo: usize, hi: usize) -> (r: Option<Vec<Component>>)
    requires
        lo <= hi <= s@.len(),
    ensures
        match r {
            Some(v) => lex_range(s@, lo as int, hi as int) == Some(v@),
            None => lex_range(s@, lo as int, hi as int) is None,
        },
{
    let mut comps: Vec<Component> = Vec::new();
    let mut mode: u8 = 0;
    let mut num: u64 = 0;
    let mut start: usize = lo;
    let mut i: usize = lo;
    proof { reveal_with_fuel(lex_upto, 1); }
    while i < hi
        invariant
            lo <= i <= hi <= s@.len(),
            lo <= start <= i,
            mode <= 2,
            ({
                let st = lex_upto(s@, lo as int, i as int);
                &&& !st.err
                &&& st.comps == comps@
                &&& st.mode == mode as int
                &&& (mode == 1 ==> st.num == num as int)
                &&& (mode == 2 ==> st.start == start as int)
            }),
        decreases hi - i,
    {
        let c = s[i];
        let ghost st = lex_upto(s@, lo as int, i as int);
        assert(lex_upto(s@, lo as int, i + 1) == lex_step(s@, st, i as int));
        if '0' <= c && c <= '9' {
            let d = (c as u32 - '0' as u32) as u64;
            if mode == 1 {
                if num > 1844674407370955161 || (num == 1844674407370955161 && d > 5) {
                    { proof { lemma_err_sticky(s@, lo as int, i + 1, hi as int); } return None; }
                }
                num = num * 10 + d;
            } else {
                if mode == 2 {
                    match word_at(s, start, i) {
                        Some(w) => comps.push(w),
                        None => { proof { lemma_err_sticky(s@, lo as int, i + 1, hi as int); } return None; },
                    }
                }
                mode = 1;
                num = d;
            }
        } else if 'a' <= c && c <= 'z' {
            if mode != 2 {
                if mode == 1 {
                    comps.push(Component::Num(num));
                }
                mode = 2;
                start = i;
            }
        } else if c == '.' || c == '-' || c == '_' {
            if mode == 0 {
                { proof { lemma_err_sticky(s@, lo as int, i + 1, hi as int); } return None; }
            } else if mode == 1 {
                comps.push(Component::Num(num));
            } else {
                match word_at(s, start, i) {
                    Some(w) => comps.push(w),
                    None => { proof { lemma_err_sticky(s@, lo as int, i + 1, hi as int); } return None; },
                }
            }
            mode = 0;
        } else {
            { proof { lemma_err_sticky(s@, lo as int, i + 1, hi as int); } return None; }
        }
        i = i + 1;
    }
    if mode == 0 {
        return None;
    } else if mode == 1 {
        comps.push(Component::Num(num));
    } else {
        match word_at(s, start, hi) {
            Some(w) => comps.push(w),
            None => return None,
        }
    }
    Some(comps)
}


fn find_char(s: &Vec<char>, c: char, from: usize) -> (r: usize)
    requires
        from <= s@.len(),
    ensures
        r as int == find_from(s@, c, from as int),
        from <= r <= s@.len(),
{
    let mut i: usize = from;
    while i < s.len()
        invariant
            from <= i <= s@.len(),
            find_from(s@, c, from as int) == find_from(s@, c, i as int),
        decreases s@.len() - i,
    {
        if s[i] == c {
            return i;
        }
        i = i + 1;
    }
    i
}

/// A parsed version. It keeps the text it was parsed from, which is its canonical form.
/// Two versions are equal when they compare equal, whatever their texts.
#[derive(Debug, Clone)]
pub struct Version {
    pub epoch: u64,
    pub components: Vec<Component>,
    pub has_local: bool,
    pub local: Vec<Component>,
    pub source: String,
}

impl View for Version {
    type V = VersionModel;

    open spec fn view(&self) -> VersionModel {
        VersionModel {
            epoch: self.epoch as nat,
            comps: self.components@,
            has_local: self.has_local,
            local: self.local@,
        }
    }
}

impl PartialEq for Version {
    fn eq(&self, other: &Version) -> (r: bool) {
        matches!(self.compare(other), std::cmp::Ordering::Equal)
    }
}

impl vstd::std_specs::cmp::PartialEqSpecImpl for Version {
    open spec fn obeys_eq_spec() -> bool {
        true
    }

    open spec fn eq_spec(&self, other: &Version) -> bool {
        version_eq(self@, other@)
    }
}

impl Eq for Version {
}

/// Why a version text was refused, with the text itself.
#[derive(Debug, Clone, PartialEq, Eq)]
pub struct ParseVersionError {
    pub text: String,
}

/// The text that a version was parsed from.
pub open spec fn version_text(v: &Version) -> Seq<char> {
    v.source@
}

impl Version {
    /// Parses a version from its characters.
    pub fn parse_chars(s: &Vec<char>, text: String) -> (r: Result<Version, ParseVersionError>)
        requires
            text@ == s@,
        ensures
            match r {
                Ok(v) => parse_version(s@) == Some(v@) && v.source@ == s@,
                Err(e) => parse_version(s@) is None && e.text@ == s@,
            },
    {
        let n = s.len();
        let bang = find_char(s, '!', 0);
        let mut epoch: u64 = 0;
        let mut start: usize = 0;
        if bang < n {
            match lex_exec(s, 0, bang) {
                Some(e) => {
                    if e.len() == 1 {
                        match e[0] {
                            Component::Num(x) => { epoch = x; },
                            _ => return Err(ParseVersionError { text }),
                        }
                    } else {
                        return Err(ParseVersionError { text });
                    }
                },
                None => return Err(ParseVersionError { text }),
            }
            start = bang + 1;
        }
        let plus = find_char(s, '+', start);
        let comps = match lex_exec(s, start, plus) {
            Some(c) => c,
            None => return Err(ParseVersionError { text }),
        };
        if plus < n {
            match lex_exec(s, plus + 1, n) {
                Some(local) => Ok(Version { epoch, components: comps, has_local: true, local, source: text }),
                None => Err(ParseVersionError { text }),
            }
        } else {
            Ok(Version { epoch, components: comps, has_local: false, local: Vec::new(), source: text })
        }
    }

    /// Parses a version such as `1.2.3`, `1!2.0`, `1.0rc1` or `1.0+local.1`.
    pub fn parse(s: &str) -> (r: Result<Version, ParseVersionError>)
        ensures
            match r {
                Ok(v) => parse_version(s@) == Some(v@) && v.source@ == s@,
                Err(e) => parse_version(s@) is None && e.text@ == s@,
            },
    {
        let cs = chars_of(s);
        Version::parse_chars(&cs, s.to_owned())
    }

    /// The canonical text of the version.
    pub fn to_text(&self) -> (r: String)
        ensures
            r@ == version_text(self),
    {
        self.source.clone()
    }

    /// Compares two versions.
    pub fn compare(&self, other: &Version) -> (r: std::cmp::Ordering)
        ensures
            (r == std::cmp::Ordering::Less) == version_lt(self@, other@),
            (r == std::cmp::Ordering::Equal) == version_eq(self@, other@),
            (r == std::cmp::Ordering::Greater) == version_lt(other@, self@),
    {
        proof { lemma_version_total_order(self@, other@, other@); }
        if self.epoch < other.epoch {
            return std::cmp::Ordering::Less;
        }
        if self.epoch > other.epoch {
            return std::cmp::Ordering::Greater;
        }
        let c = cmp_comps(&self.components, &other.components);
        if c < 0 {
            return std::cmp::Ordering::Less;
        }
        if c > 0 {
            return std::cmp::Ordering::Greater;
        }
        if !self.has_local && other.has_local {
            return std::cmp::Ordering::Less;
        }
        if self.has_local && !other.has_local {
            return std::cmp::Ordering::Greater;
        }
        let l = cmp_comps(&self.local, &other.local);
        if l < 0 {
            std::cmp::Ordering::Less
        } else if l > 0 {
            std::cmp::Ordering::Greater
        } else {
            std::cmp::Ordering::Equal
        }
    }
}

pub(crate) fn key_of(c: Component) -> (r: i128)
    ensures
        r as int == key(c),
{
    match c {
        Component::Dev => -4,
        Component::Alpha => -3,
        Component::Beta => -2,
        Component::Rc => -1,
        Component::Num(n) => n as i128,
        Component::Post => 0x1_0000_0000_0000_0000,
    }
}

fn key_at_exec(cs: &Vec<Component>, i: usize) -> (r: i128)
    ensures
        r as int == key_at(cs@, i as int),
{
    if i < cs.len() { key_of(cs[i]) } else { 0 }
}

/// Compares padded component sequences: negative, zero or positive.
pub fn cmp_comps(a: &Vec<Component>, b: &Vec<Component>) -> (r: i8)
    ensures
        (r < 0) == comps_lt(a@, b@),
        (r == 0) == comps_eq(a@, b@),
        (r > 0) == comps_lt(b@, a@),
{
    proof { lemma_comps_total(a@, b@, b@); }
    let n = if a.len() > b.len() { a.len() } else { b.len() };
    let mut i: usize = 0;
    while i < n
        invariant
            i <= n,
            n >= a@.len(),
            n >= b@.len(),
            forall|j: int| 0 <= j < i ==> #[trigger] key_at(a@, j) == key_at(b@, j),
        decreases n - i,
    {
        let x = key_at_exec(a, i);
        let y = key_at_exec(b, i);
        if x < y {
            assert(lower_at(a@, b@, i as int));
            return -1;
        }
        if x > y {
            assert(lower_at(b@, a@, i as int));
            return 1;
        }
        i = i + 1;
    }
    assert forall|j: int| 0 <= j implies #[trigger] key_at(a@, j) == key_at(b@, j) by {
        if j >= n {
        }
    }
    0
}

/// A character that a version's components may hold.
pub open spec fn is_lex_char(c: char) -> bool {
    is_digit(c) || is_letter(c) || is_separator(c)
}

proof fn lemma_lex_chars(s: Seq<char>, lo: int, i: int)
    requires
        lo <= i <= s.len(),
        !lex_upto(s, lo, i).err,
    ensures
        forall|j: int| lo <= j < i ==> is_lex_char(#[trigger] s[j]),
    decreases i - lo,
{
    if i > lo {
        let prev = lex_upto(s, lo, i - 1);
        assert(lex_upto(s, lo, i) == lex_step(s, prev, i - 1));
        lemma_lex_chars(s, lo, i - 1);
    }
}

proof fn lemma_lex_range_chars(s: Seq<char>, lo: int, hi: int)
    requires
        0 <= lo <= hi <= s.len(),
        lex_range(s, lo, hi) is Some,
    ensures
        lo < hi,
        forall|j: int| lo <= j < hi ==> is_lex_char(#[trigger] s[j]),
{
    lemma_lex_chars(s, lo, hi);
    if lo == hi {
        assert(lex_upto(s, lo, hi) == lex_init());
    }
}

proof fn lemma_find_from(s: Seq<char>, c: char, i: int)
    requires
        0 <= i <= s.len(),
    ensures
        i <= find_from(s, c, i) <= s.len(),
        find_from(s, c, i) < s.len() ==> s[find_from(s, c, i)] == c,
    decreases s.len() - i,
{
    if i < s.len() && s[i] != c {
        lemma_find_from(s, c, i + 1);
    }
}

/// Every character of a version text is a component character, `!` or `+`, and the
/// first one is a component character.
pub proof fn lemma_version_chars(s: Seq<char>)
    requires
        parse_version(s) is Some,
    ensures
        s.len() > 0,
        is_lex_char(s[0]),
        forall|j: int| 0 <= j < s.len() ==> is_lex_char(#[trigger] s[j]) || s[j] == '!' || s[j] == '+',
{
    let n = s.len() as int;
    let bang = find_from(s, '!', 0);
    lemma_find_from(s, '!', 0);
    let start = if bang < n { bang + 1 } else { 0 };
    let plus = find_from(s, '+', start);
    lemma_find_from(s, '+', start);
    if bang < n {
        lemma_lex_range_chars(s, 0, bang);
    }
    lemma_lex_range_chars(s, start, plus);
    if plus < n {
        lemma_lex_range_chars(s, plus + 1, n);
    }
    assert forall|j: int| 0 <= j < s.len() implies is_lex_char(#[trigger] s[j]) || s[j] == '!' || s[j] == '+' by {
        if bang < n && j < bang {
        } else if bang < n && j == bang {
        } else if j < plus {
        } else if j == plus {
        } else {
        }
    }
}

/// Formatting a parsed version and parsing the text again gives the same version.
pub proof fn lemma_version_round_trip(s: Seq<char>, v: Version)
    requires
        parse_version(s) == Some(v@),
        v.source@ == s,
    ensures
        parse_version(version_text(&v)) == Some(v@),
{
}

} // verus!
