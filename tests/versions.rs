use std::cmp::Ordering;

use rattler::{Component, ParseStringMatcherError, StringMatcher, Version, VersionSpec};

fn v(s: &str) -> Version {
    Version::parse(s).unwrap()
}

fn spec(s: &str) -> VersionSpec {
    VersionSpec::parse(s).unwrap()
}

#[test]
fn version_components() {
    let x = v("1.0a1");
    assert_eq!(x.components, vec![Component::Num(1), Component::Num(0), Component::Alpha, Component::Num(1)]);
    assert_eq!(x.epoch, 0);
    let y = v("2!1.2-post_3+rc.7");
    assert_eq!(y.epoch, 2);
    assert_eq!(y.components, vec![Component::Num(1), Component::Num(2), Component::Post, Component::Num(3)]);
    assert!(y.has_local);
    assert_eq!(y.local, vec![Component::Rc, Component::Num(7)]);
}

#[test]
fn version_parse_errors() {
    for bad in ["", "1..2", ".1", "1.", "a!1", "1!", "1+", "1.0foo", "1 0", "99999999999999999999"] {
        assert!(Version::parse(bad).is_err(), "{bad}");
    }
}

#[test]
fn version_order() {
    let ordered = ["1.0dev", "1.0a1", "1.0b2", "1.0rc1", "1.0", "1.0.1", "1.0post1", "1.1", "1.10", "1!0.1"];
    for i in 0..ordered.len() {
        for j in 0..ordered.len() {
            let want = i.cmp(&j);
            assert_eq!(v(ordered[i]).compare(&v(ordered[j])), want, "{} vs {}", ordered[i], ordered[j]);
        }
    }
}

#[test]
fn version_padding_and_local() {
    assert_eq!(v("1.0").compare(&v("1.0.0")), Ordering::Equal);
    assert_eq!(v("1.0").compare(&v("1.0+0")), Ordering::Less);
    assert_eq!(v("1.0+1").compare(&v("1.0+2")), Ordering::Less);
    assert_eq!(v("1.0a").compare(&v("1.0alpha")), Ordering::Equal);
}

#[test]
fn version_total_order_sample() {
    let a = v("1.2");
    let b = v("1.2.1");
    let c = v("1.3rc1");
    assert_eq!(a.compare(&b), Ordering::Less);
    assert_eq!(b.compare(&c), Ordering::Less);
    assert_eq!(a.compare(&c), Ordering::Less);
    assert_eq!(c.compare(&a), Ordering::Greater);
}

#[test]
fn version_round_trip() {
    for s in ["1.2.3", "1!2.0", "1.0rc1+dev.2", "2023.01_post"] {
        let x = v(s);
        assert_eq!(x.to_text(), s);
        let y = v(&x.to_text());
        assert_eq!(x, y);
    }
}

#[test]
fn glob_version_spec() {
    let s = spec("1.2.*");
    assert!(s.matches(&v("1.2.0")));
    assert!(s.matches(&v("1.2.99")));
    assert!(!s.matches(&v("1.3.0")));
    assert!(!s.matches(&v("1.20.0")));
}

#[test]
fn range_version_spec() {
    let s = spec(">=3.10,<3.12");
    assert!(!s.matches(&v("3.9.0")));
    assert!(s.matches(&v("3.10.4")));
    assert!(s.matches(&v("3.11.2")));
    assert!(!s.matches(&v("3.12.0")));
}

#[test]
fn other_operators() {
    assert!(spec("==1.0").matches(&v("1.0.0")));
    assert!(!spec("!=1.0").matches(&v("1.0")));
    assert!(spec("<=1.0").matches(&v("1.0")));
    assert!(spec(">1.0").matches(&v("1.0.1")));
    assert!(spec("=1.2").matches(&v("1.2.5")));
    assert!(!spec("!=1.2.*").matches(&v("1.2.5")));
    assert!(spec("1.0").matches(&v("1.0")));
    assert!(!spec("1.0").matches(&v("1.0.1")));
    assert!(spec("*").matches(&v("7")));
}

#[test]
fn compatible_release() {
    let s = spec("~=2.1");
    assert!(s.matches(&v("2.1")));
    assert!(s.matches(&v("2.9")));
    assert!(!s.matches(&v("3.0")));
    assert!(!s.matches(&v("2.0")));
}

#[test]
fn or_of_and_groups() {
    let s = spec("1.0|>=2,<3");
    assert!(s.matches(&v("1.0")));
    assert!(s.matches(&v("2.5")));
    assert!(!s.matches(&v("1.5")));
    assert!(!s.matches(&v("3.0")));
}

#[test]
fn and_composition_implies_each_part() {
    let both = VersionSpec::and(spec(">=1"), spec("<2"));
    for s in ["0.5", "1.0", "1.5", "2.0"] {
        let x = v(s);
        if both.matches(&x) {
            assert!(spec(">=1").matches(&x) && spec("<2").matches(&x));
        }
    }
    assert!(both.matches(&v("1.5")));
    assert!(!both.matches(&v("2.0")));
}

#[test]
fn version_spec_parse_errors() {
    for bad in ["", ">=", ">=1.*", "1,", "|1", "1||2", "<>1", ">=1.0 "] {
        assert!(VersionSpec::parse(bad).is_err(), "{bad}");
    }
}

#[test]
fn string_matchers() {
    let e = StringMatcher::parse("py310_0").unwrap();
    assert_eq!(e, StringMatcher::Exact("py310_0".to_string()));
    assert!(e.is_match("py310_0"));
    assert!(!e.is_match("py310_1"));
    let g = StringMatcher::parse("py3*_?").unwrap();
    assert!(matches!(g, StringMatcher::Glob(_)));
    assert!(g.is_match("py310_0"));
    assert!(g.is_match("py3_1"));
    assert!(!g.is_match("py310_10"));
    assert!(StringMatcher::parse("").is_err());
}

#[test]
fn regex_matchers() {
    let r = StringMatcher::parse("^py3[0-9]+_[0-9]$").unwrap();
    assert_eq!(r, StringMatcher::Regex("^py3[0-9]+_[0-9]$".to_string()));
    assert!(r.is_match("py310_0"));
    assert!(!r.is_match("py27_0"));
    assert!(!r.is_match("py310_10"));
    assert_eq!(
        StringMatcher::parse("^py(3$"),
        Err(ParseStringMatcherError::InvalidRegex("^py(3$".to_string()))
    );
}

#[test]
fn version_spec_round_trip() {
    for (text, canonical) in [
        (">=3.10,<3.12", ">=3.10,<3.12"),
        ("1.2.*", "1.2.*"),
        ("=1.2", "1.2.*"),
        ("1.0", "==1.0"),
        ("~=2.1|!=3.0.*,>1", "~=2.1|!=3.0.*,>1"),
        ("*", "*"),
    ] {
        let s = spec(text);
        assert_eq!(s.to_text(), canonical);
        assert_eq!(spec(&s.to_text()), s);
    }
}

#[test]
fn version_equality_follows_order() {
    assert_eq!(v("1.0"), v("1.0.0"));
    assert_ne!(v("1.0"), v("1.0+0"));
    assert_eq!(v("1.0a1"), v("1.0alpha1"));
}
