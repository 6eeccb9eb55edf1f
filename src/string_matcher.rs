//! Matching of textual fields such as build strings: exact text or a glob pattern.
use vstd::prelude::*;
use crate::text::{chars_of, chars_eq};

verus! {

/// The meaning of a string matcher.
pub enum MatcherModel {
    Exact(Seq<char>),
    Glob(Seq<char>),
    Regex(Seq<char>),
}

/// A matcher for a textual field.
#[derive(Debug, Clone, PartialEq, Eq)]
pub enum StringMatcher {
    /// The field must equal the text.
    Exact(String),
    /// `*` stands for any run of characters, `?` for any one character.
    Glob(String),
    /// A regular expression written `^...$`.
    Regex(String),
}

impl View for StringMatcher {
    type V = MatcherModel;

    open spec fn view(&self) -> MatcherModel {
        match self {
            StringMatcher::Exact(s) => MatcherModel::Exact(s@),
            StringMatcher::Glob(s) => MatcherModel::Glob(s@),
            StringMatcher::Regex(s) => MatcherModel::Regex(s@),
        }
    }
}

/// Why a pattern was refused.
#[derive(Debug, Clone, PartialEq, Eq)]
pub enum ParseStringMatcherError {
    /// The pattern is empty.
    Empty,
    /// A `^...$` regular expression that does not compile.
    InvalidRegex(String),
}

/// Whether `p[i..]` matches `t[j..]` as a glob.
pub open spec fn glob_from(p: Seq<char>, t: Seq<char>, i: int, j: int) -> bool
    decreases p.len() - i + t.len() - j, p.len() - i,
{
    if i < 0 || j < 0 || i > p.len() || j > t.len() {
        false
    } else if i == p.len() {
        j == t.len()
    } else if p[i] == '*' {
        glob_from(p, t, i + 1, j) || (j < t.len() && glob_from(p, t, i, j + 1))
    } else if j == t.len() {
        false
    } else {
        (p[i] == '?' || p[i] == t[j]) && glob_from(p, t, i + 1, j + 1)
    }
}

/// Whether the whole of `t` matches the glob `p`.
pub open spec fn glob_matches(p: Seq<char>, t: Seq<char>) -> bool {
    glob_from(p, t, 0, 0)
}

/// Whether the regular expression `p` compiles.
pub uninterp spec fn regex_valid(p: Seq<char>) -> bool;

/// Whether the compiled regular expression `p` matches somewhere in `t`.
pub uninterp spec fn regex_matches(p: Seq<char>, t: Seq<char>) -> bool;

/// Relies on `regex::Regex::new`: whether the pattern compiles, which depends on the
/// pattern alone.
#[verifier::external_body]
fn regex_compiles(p: &str) -> (r: bool)
    ensures
        r == regex_valid(p@),
{
    regex::Regex::new(p).is_ok()
}

/// Relies on `regex::Regex::new` and `regex::Regex::is_match`: `None` where the pattern
/// does not compile, else whether it matches somewhere in `t`.
#[verifier::external_body]
fn regex_is_match(p: &str, t: &str) -> (r: Option<bool>)
    ensures
        r is Some == regex_valid(p@),
        r is Some ==> r->0 == regex_matches(p@, t@),
{
    regex::Regex::new(p).ok().map(|re| re.is_match(t))
}

pub open spec fn matcher_matches(m: MatcherModel, t: Seq<char>) -> bool {
    match m {
        MatcherModel::Exact(s) => s == t,
        MatcherModel::Glob(p) => glob_matches(p, t),
        MatcherModel::Regex(p) => regex_valid(p) && regex_matches(p, t),
    }
}

pub open spec fn has_glob_char(s: Seq<char>) -> bool {
    exists|i: int| 0 <= i < s.len() && (s[i] == '*' || s[i] == '?')
}

pub open spec fn is_regex(s: Seq<char>) -> bool {
    s.len() >= 2 && s[0] == '^' && s[s.len() - 1] == '$'
}

/// The matcher that a pattern text denotes.
pub open spec fn parse_matcher(s: Seq<char>) -> Option<MatcherModel> {
    if s.len() == 0 {
        None
    } else if is_regex(s) {
        if regex_valid(s) { Some(MatcherModel::Regex(s)) } else { None }
    } else if has_glob_char(s) {
        Some(MatcherModel::Glob(s))
    } else {
        Some(MatcherModel::Exact(s))
    }
}

fn glob_exec(p: &Vec<char>, t: &Vec<char>, i: usize, j: usize) -> (r: bool)
    requires
        i <= p@.len(),
        j <= t@.len(),
    ensures
        r == glob_from(p@, t@, i as int, j as int),
    decreases p@.len() - i + t@.len() - j, p@.len() - i,
{
    if i == p.len() {
        j == t.len()
    } else if p[i] == '*' {
        glob_exec(p, t, i + 1, j) || (j < t.len() && glob_exec(p, t, i, j + 1))
    } else if j == t.len() {
        false
    } else {
        (p[i] == '?' || p[i] == t[j]) && glob_exec(p, t, i + 1, j + 1)
    }
}

impl StringMatcher {
    /// Reads a pattern: `^...$` is a regular expression, compiled here so that a bad one
    /// is refused at once; other text with `*` or `?` is a glob; the rest must match
    /// exactly.
    pub fn parse(s: &str) -> (r: Result<StringMatcher, ParseStringMatcherError>)
        ensures
            match r {
                Ok(m) => parse_matcher(s@) == Some(m@),
                Err(e) => parse_matcher(s@) is None
                    && (s@.len() == 0 <==> e is Empty),
            },
    {
        let cs = chars_of(s);
        let n = cs.len();
        if n == 0 {
            return Err(ParseStringMatcherError::Empty);
        }
        if n >= 2 && cs[0] == '^' && cs[n - 1] == '$' {
            if regex_compiles(s) {
                return Ok(StringMatcher::Regex(s.to_owned()));
            }
            return Err(ParseStringMatcherError::InvalidRegex(s.to_owned()));
        }
        let mut i: usize = 0;
        while i < n
            invariant
                i <= n == cs@.len(),
                cs@ == s@,
                s@.len() > 0,
                !is_regex(s@),
                forall|j: int| 0 <= j < i ==> !(cs@[j] == '*' || cs@[j] == '?'),
            decreases n - i,
        {
            if cs[i] == '*' || cs[i] == '?' {
                assert(s@[i as int] == '*' || s@[i as int] == '?');
                assert(has_glob_char(s@));
                return Ok(StringMatcher::Glob(s.to_owned()));
            }
            i = i + 1;
        }
        Ok(StringMatcher::Exact(s.to_owned()))
    }

    /// Whether `candidate` matches.
    pub fn is_match(&self, candidate: &str) -> (r: bool)
        ensures
            r == matcher_matches(self@, candidate@),
    {
        let t = chars_of(candidate);
        match self {
            StringMatcher::Exact(s) => {
                let sc = chars_of(s.as_str());
                chars_eq(&sc, &t)
            },
            StringMatcher::Glob(p) => {
                let pc = chars_of(p.as_str());
                glob_exec(&pc, &t, 0, 0)
            },
            StringMatcher::Regex(p) => match regex_is_match(p.as_str(), candidate) {
                Some(b) => b,
                None => false,
            },
        }
    }
}

} // verus!
