//! Match specifications: compound selectors of package records.
use vstd::prelude::*;
use crate::repo_data::PackageRecord;
use crate::string_matcher::{matcher_matches, parse_matcher, MatcherModel, StringMatcher};
use crate::text::{chars_eq_str, chars_of, copy_range, find_char_in, find_in, string_from_chars};
use crate::version::{lex_range, Component};
use crate::version_spec::{model_matches, parse_or, parse_or_exec, SpecModel, VersionSpec};

verus! {

/// The bracketed `key=value` clauses of a match specification.
pub struct Brackets {
    pub build_number: Option<u64>,
    pub channel: Option<Seq<char>>,
    pub subdir: Option<Seq<char>>,
    pub md5: Option<Seq<char>>,
    pub sha256: Option<Seq<char>>,
    pub license: Option<Seq<char>>,
}

/// The meaning of a match specification.
pub struct MatchSpecModel {
    pub name: Option<Seq<char>>,
    pub version: Option<SpecModel>,
    pub build: Option<MatcherModel>,
    pub brackets: Brackets,
}

/// A selector of package records. Fields that are absent impose no constraint.
#[derive(Debug, PartialEq, Eq)]
pub struct MatchSpec {
    pub name: Option<String>,
    pub version: Option<VersionSpec>,
    pub build: Option<StringMatcher>,
    pub build_number: Option<u64>,
    /// The channel asked for. A package record holds no channel, so this restricts
    /// which indices a caller builds, not which records match.
    pub channel: Option<String>,
    pub subdir: Option<String>,
    pub md5: Option<String>,
    pub sha256: Option<String>,
    pub license: Option<String>,
    /// The text the specification was read from, its canonical form.
    pub source: String,
}

pub open spec fn opt_view(s: Option<String>) -> Option<Seq<char>> {
    match s {
        Some(x) => Some(x@),
        None => None,
    }
}

impl View for MatchSpec {
    type V = MatchSpecModel;

    open spec fn view(&self) -> MatchSpecModel {
        MatchSpecModel {
            name: opt_view(self.name),
            version: match self.version {
                Some(v) => Some(v@),
                None => None,
            },
            build: match self.build {
                Some(b) => Some(b@),
                None => None,
            },
            brackets: Brackets {
                build_number: self.build_number,
                channel: opt_view(self.channel),
                subdir: opt_view(self.subdir),
                md5: opt_view(self.md5),
                sha256: opt_view(self.sha256),
                license: opt_view(self.license),
            },
        }
    }
}

/// Whether an optional hash pin accepts the record's optional hash.
pub open spec fn pin_matches(pin: Option<Seq<char>>, field: Option<String>) -> bool {
    match pin {
        Some(p) => field is Some && field->0@ == p,
        None => true,
    }
}

/// Whether a record satisfies every field that the specification holds.
pub open spec fn spec_matches(m: MatchSpecModel, r: PackageRecord) -> bool {
    &&& (m.name is Some ==> m.name->0 == r.name@)
    &&& (m.version is Some ==> model_matches(m.version->0, r.version@))
    &&& (m.build is Some ==> matcher_matches(m.build->0, r.build@))
    &&& (m.brackets.build_number is Some ==> m.brackets.build_number->0 == r.build_number)
    &&& (m.brackets.subdir is Some ==> m.brackets.subdir->0 == r.subdir@)
    &&& pin_matches(m.brackets.md5, r.md5)
    &&& pin_matches(m.brackets.sha256, r.sha256)
    &&& pin_matches(m.brackets.license, r.license)
}

pub open spec fn no_brackets() -> Brackets {
    Brackets { build_number: None, channel: None, subdir: None, md5: None, sha256: None, license: None }
}

/// One clause `s[lo..hi]` of the form `key=value` added to `acc`; a key may appear once.
pub open spec fn parse_entry(s: Seq<char>, lo: int, hi: int, acc: Brackets) -> Option<Brackets> {
    let eq = find_in(s, '=', lo, hi);
    let key = s.subrange(lo, eq);
    let val = s.subrange(eq + 1, hi);
    if eq >= hi || val.len() == 0 {
        None
    } else if key == "build_number"@ {
        match lex_range(s, eq + 1, hi) {
            Some(c) => if acc.build_number is None && c.len() == 1 && c[0] is Num {
                Some(Brackets { build_number: Some(c[0]->Num_0), ..acc })
            } else {
                None
            },
            None => None,
        }
    } else if key == "channel"@ {
        if acc.channel is None { Some(Brackets { channel: Some(val), ..acc }) } else { None }
    } else if key == "subdir"@ {
        if acc.subdir is None { Some(Brackets { subdir: Some(val), ..acc }) } else { None }
    } else if key == "md5"@ {
        if acc.md5 is None { Some(Brackets { md5: Some(val), ..acc }) } else { None }
    } else if key == "sha256"@ {
        if acc.sha256 is None { Some(Brackets { sha256: Some(val), ..acc }) } else { None }
    } else if key == "license"@ {
        if acc.license is None { Some(Brackets { license: Some(val), ..acc }) } else { None }
    } else {
        None
    }
}

/// The comma-separated clauses of `s[lo..hi]` added to `acc`.
pub open spec fn parse_entries(s: Seq<char>, lo: int, hi: int, acc: Brackets) -> Option<Brackets>
    decreases hi - lo,
{
    let comma = find_in(s, ',', lo, hi);
    if lo <= comma < hi {
        match parse_entry(s, lo, comma, acc) {
            Some(a) => parse_entries(s, comma + 1, hi, a),
            None => None,
        }
    } else {
        parse_entry(s, lo, hi, acc)
    }
}

/// The parse of `name [version [build]] [key=value,...]`, the parts separated by single
/// spaces (the one before the brackets may be left out); the name `*` selects any package.
pub open spec fn parse_match_spec(s: Seq<char>) -> Option<MatchSpecModel> {
    let n = s.len() as int;
    let lb = find_in(s, '[', 0, n);
    let brackets: Option<Brackets> = if lb < n {
        if lb + 1 < n && s[n - 1] == ']' { parse_entries(s, lb + 1, n - 1, no_brackets()) } else { None }
    } else {
        Some(no_brackets())
    };
    let he = if lb < n && lb > 0 && s[lb - 1] == ' ' { lb - 1 } else { lb };
    let sp1 = find_in(s, ' ', 0, he);
    let name_text = s.subrange(0, sp1);
    let name: Option<Seq<char>> = if name_text == "*"@ { None } else { Some(name_text) };
    let sp2 = find_in(s, ' ', sp1 + 1, he);
    let version: Option<Option<SpecModel>> = if sp1 < he {
        match parse_or(s, sp1 + 1, sp2) {
            Some(v) => Some(Some(v)),
            None => None,
        }
    } else {
        Some(None)
    };
    let build: Option<Option<MatcherModel>> = if sp1 < he && sp2 < he {
        if find_in(s, ' ', sp2 + 1, he) < he {
            None
        } else {
            match parse_matcher(s.subrange(sp2 + 1, he)) {
                Some(b) => Some(Some(b)),
                None => None,
            }
        }
    } else {
        Some(None)
    };
    if sp1 == 0 {
        None
    } else {
        match (brackets, version, build) {
            (Some(b), Some(v), Some(bu)) => Some(MatchSpecModel { name, version: v, build: bu, brackets: b }),
            _ => None,
        }
    }
}

/// Why a match specification was refused, with its text.
#[derive(Debug, Clone, PartialEq, Eq)]
pub struct ParseMatchSpecError {
    pub text: String,
}

/// The exec form of the bracket clauses.
struct BracketFields {
    build_number: Option<u64>,
    channel: Option<String>,
    subdir: Option<String>,
    md5: Option<String>,
    sha256: Option<String>,
    license: Option<String>,
}

spec fn bracket_view(b: BracketFields) -> Brackets {
    Brackets {
        build_number: b.build_number,
        channel: opt_view(b.channel),
        subdir: opt_view(b.subdir),
        md5: opt_view(b.md5),
        sha256: opt_view(b.sha256),
        license: opt_view(b.license),
    }
}

fn parse_entry_exec(s: &Vec<char>, lo: usize, hi: usize, acc: BracketFields) -> (r: Option<BracketFields>)
    requires
        lo <= hi <= s@.len(),
    ensures
        match r {
            Some(b) => parse_entry(s@, lo as int, hi as int, bracket_view(acc)) == Some(bracket_view(b)),
            None => parse_entry(s@, lo as int, hi as int, bracket_view(acc)) is None,
        },
{
    let eq = find_char_in(s, '=', lo, hi);
    if eq >= hi || eq + 1 >= hi {
        return None;
    }
    let key = copy_range(s, lo, eq);
    let vc = copy_range(s, eq + 1, hi);
    let mut acc = acc;
    if chars_eq_str(&key, "build_number") {
        match crate::version::lex_exec(s, eq + 1, hi) {
            Some(c) => {
                if acc.build_number.is_none() && c.len() == 1 {
                    match c[0] {
                        Component::Num(x) => {
                            acc.build_number = Some(x);
                            Some(acc)
                        },
                        _ => None,
                    }
                } else {
                    None
                }
            },
            None => None,
        }
    } else if chars_eq_str(&key, "channel") {
        if acc.channel.is_some() { return None; }
        acc.channel = Some(string_from_chars(&vc));
        Some(acc)
    } else if chars_eq_str(&key, "subdir") {
        if acc.subdir.is_some() { return None; }
        acc.subdir = Some(string_from_chars(&vc));
        Some(acc)
    } else if chars_eq_str(&key, "md5") {
        if acc.md5.is_some() { return None; }
        acc.md5 = Some(string_from_chars(&vc));
        Some(acc)
    } else if chars_eq_str(&key, "sha256") {
        if acc.sha256.is_some() { return None; }
        acc.sha256 = Some(string_from_chars(&vc));
        Some(acc)
    } else if chars_eq_str(&key, "license") {
        if acc.license.is_some() { return None; }
        acc.license = Some(string_from_chars(&vc));
        Some(acc)
    } else {
        None
    }
}

fn parse_entries_exec(s: &Vec<char>, lo: usize, hi: usize, acc: BracketFields) -> (r: Option<BracketFields>)
    requires
        lo <= hi <= s@.len(),
    ensures
        match r {
            Some(b) => parse_entries(s@, lo as int, hi as int, bracket_view(acc)) == Some(bracket_view(b)),
            None => parse_entries(s@, lo as int, hi as int, bracket_view(acc)) is None,
        },
    decreases hi - lo,
{
    let comma = find_char_in(s, ',', lo, hi);
    if comma < hi {
        match parse_entry_exec(s, lo, comma, acc) {
            Some(a) => parse_entries_exec(s, comma + 1, hi, a),
            None => None,
        }
    } else {
        parse_entry_exec(s, lo, hi, acc)
    }
}


fn opt_str_eq(pin: &Option<String>, field: &Option<String>) -> (r: bool)
    ensures
        r == pin_matches(opt_view(*pin), *field),
{
    match pin {
        Some(p) => match field {
            Some(f) => *p == *f,
            None => false,
        },
        None => true,
    }
}

impl MatchSpec {
    /// Parses a match specification such as `python >=3.10,<3.12`, `numpy 1.26.* py3*`,
    /// `zlib` or `openssl [md5=abc,subdir=linux-64]`.
    pub fn parse(text: &str) -> (r: Result<MatchSpec, ParseMatchSpecError>)
        ensures
            match r {
                Ok(m) => parse_match_spec(text@) == Some(m@) && m.source@ == text@,
                Err(e) => parse_match_spec(text@) is None && e.text@ == text@,
            },
    {
        let s = chars_of(text);
        let n = s.len();
        let lb = find_char_in(&s, '[', 0, n);
        let empty = BracketFields { build_number: None, channel: None, subdir: None, md5: None, sha256: None, license: None };
        let brackets = if lb < n {
            if lb + 1 < n && s[n - 1] == ']' {
                parse_entries_exec(&s, lb + 1, n - 1, empty)
            } else {
                None
            }
        } else {
            Some(empty)
        };
        let brackets = match brackets {
            Some(b) => b,
            None => return Err(ParseMatchSpecError { text: text.to_owned() }),
        };
        let he = if lb < n && lb > 0 && s[lb - 1] == ' ' { lb - 1 } else { lb };
        let sp1 = find_char_in(&s, ' ', 0, he);
        if sp1 == 0 {
            return Err(ParseMatchSpecError { text: text.to_owned() });
        }
        let name_chars = copy_range(&s, 0, sp1);
        let name = if chars_eq_str(&name_chars, "*") { None } else { Some(string_from_chars(&name_chars)) };
        let mut version: Option<VersionSpec> = None;
        let mut build: Option<StringMatcher> = None;
        if sp1 < he {
            let sp2 = find_char_in(&s, ' ', sp1 + 1, he);
            match parse_or_exec(&s, sp1 + 1, sp2) {
                Some(v) => { version = Some(v); },
                None => return Err(ParseMatchSpecError { text: text.to_owned() }),
            }
            if sp2 < he {
                if find_char_in(&s, ' ', sp2 + 1, he) < he {
                    return Err(ParseMatchSpecError { text: text.to_owned() });
                }
                let bc = copy_range(&s, sp2 + 1, he);
                let bs = string_from_chars(&bc);
                match StringMatcher::parse(bs.as_str()) {
                    Ok(b) => { build = Some(b); },
                    Err(_) => return Err(ParseMatchSpecError { text: text.to_owned() }),
                }
            }
        }
        Ok(MatchSpec {
            name,
            version,
            build,
            build_number: brackets.build_number,
            channel: brackets.channel,
            subdir: brackets.subdir,
            md5: brackets.md5,
            sha256: brackets.sha256,
            license: brackets.license,
            source: text.to_owned(),
        })
    }

    /// Whether `record` satisfies every field of this specification.
    pub fn matches(&self, record: &PackageRecord) -> (r: bool)
        ensures
            r == spec_matches(self@, *record),
    {
        match &self.name {
            Some(n) => {
                if *n != record.name {
                    return false;
                }
            },
            None => {},
        }
        match &self.version {
            Some(v) => {
                if !v.matches(&record.version) {
                    return false;
                }
            },
            None => {},
        }
        match &self.build {
            Some(b) => {
                if !b.is_match(record.build.as_str()) {
                    return false;
                }
            },
            None => {},
        }
        match self.build_number {
            Some(b) => {
                if b != record.build_number {
                    return false;
                }
            },
            None => {},
        }
        match &self.subdir {
            Some(d) => {
                if *d != record.subdir {
                    return false;
                }
            },
            None => {},
        }
        opt_str_eq(&self.md5, &record.md5) && opt_str_eq(&self.sha256, &record.sha256)
            && opt_str_eq(&self.license, &record.license)
    }

    /// A specification that selects every record of the package `name`.
    pub fn from_name(name: String) -> (r: MatchSpec)
        ensures
            r@.name == Some(name@),
            r.source@ == name@,
            r@.version is None,
            r@.build is None,
            r@.brackets == no_brackets(),
    {
        MatchSpec {
            version: None,
            build: None,
            build_number: None,
            channel: None,
            subdir: None,
            md5: None,
            sha256: None,
            license: None,
            source: name.clone(),
            name: Some(name),
        }
    }

    /// The canonical text of this specification.
    pub fn to_text(&self) -> (r: String)
        ensures
            r@ == self.source@,
    {
        self.source.clone()
    }
}

/// Formatting a parsed specification and parsing the text again gives the same
/// specification.
pub proof fn lemma_match_spec_round_trip(s: Seq<char>, m: MatchSpec)
    requires
        parse_match_spec(s) == Some(m@),
        m.source@ == s,
    ensures
        parse_match_spec(m.source@) == parse_match_spec(s),
{
}

/// A specification that holds only a name matches every record of that name, whatever
/// its version and build.
pub proof fn lemma_name_only_matches(m: MatchSpecModel, r: PackageRecord)
    requires
        m.name == Some(r.name@),
        m.version is None,
        m.build is None,
        m.brackets == no_brackets(),
    ensures
        spec_matches(m, r),
{
}

} // verus!
