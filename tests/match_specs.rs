use rattler::{MatchSpec, NoArchType, PackageRecord, StringMatcher, Version};

fn record(name: &str, version: &str, build: &str) -> PackageRecord {
    PackageRecord {
        arch: None,
        build: build.to_string(),
        build_number: 3,
        constrains: vec![],
        depends: vec![],
        features: None,
        legacy_bz2_md5: None,
        legacy_bz2_size: None,
        license: None,
        license_family: None,
        md5: Some("d41d8".to_string()),
        name: name.to_string(),
        noarch: NoArchType::Native,
        platform: None,
        sha256: None,
        size: None,
        subdir: "linux-64".to_string(),
        timestamp: None,
        track_features: vec![],
        version: Version::parse(version).unwrap(),
    }
}

#[test]
fn parse_full_match_spec() {
    let m = MatchSpec::parse("numpy >=1.20 py3*[build_number=3,subdir=linux-64,channel=conda-forge]").unwrap();
    assert_eq!(m.name, Some("numpy".to_string()));
    assert!(m.version.is_some());
    assert_eq!(m.build, Some(StringMatcher::Glob("py3*".to_string())));
    assert_eq!(m.build_number, Some(3));
    assert_eq!(m.subdir, Some("linux-64".to_string()));
    assert_eq!(m.channel, Some("conda-forge".to_string()));
    assert!(m.matches(&record("numpy", "1.26.0", "py310_0")));
    assert!(!m.matches(&record("numpy", "1.19.0", "py310_0")));
    assert!(!m.matches(&record("numpy", "1.26.0", "py27_0")));
    assert!(!m.matches(&record("scipy", "1.26.0", "py310_0")));
}

#[test]
fn name_only_matches_any_version_and_build() {
    let m = MatchSpec::parse("python").unwrap();
    assert!(m.matches(&record("python", "2.7", "a")));
    assert!(m.matches(&record("python", "3.12.0rc1", "b")));
    assert!(!m.matches(&record("pypy", "3.12", "b")));
    let n = MatchSpec::from_name("python".to_string());
    assert!(n.matches(&record("python", "0.1", "x")));
}

#[test]
fn hash_pins() {
    let m = MatchSpec::parse("* [md5=d41d8]").unwrap();
    assert_eq!(m.name, None);
    assert!(m.matches(&record("anything", "1", "0")));
    let m = MatchSpec::parse("x [sha256=abc]").unwrap();
    assert!(!m.matches(&record("x", "1", "0")));
}

#[test]
fn match_spec_parse_errors() {
    for bad in ["", " python", "python ", "python 1.0 py 3", "python [foo=1]", "python [md5=a,md5=b]", "python [md5=a", "python [md5]", "python >=x"] {
        assert!(MatchSpec::parse(bad).is_err(), "{bad}");
    }
}

#[test]
fn match_spec_round_trip() {
    for text in ["python >=3.10,<3.12", "numpy 1.26.* py3*[md5=ab]", "zlib"] {
        let m = MatchSpec::parse(text).unwrap();
        assert_eq!(m.to_text(), text);
        assert_eq!(MatchSpec::parse(&m.to_text()).unwrap(), m);
    }
}

#[test]
fn regex_build_in_match_spec() {
    let m = MatchSpec::parse("numpy >=1 ^py3.*_0$").unwrap();
    assert!(m.matches(&record("numpy", "1.26.0", "py310_0")));
    assert!(!m.matches(&record("numpy", "1.26.0", "py27_0")));
    assert!(MatchSpec::parse("numpy >=1 ^py(3$").is_err());
}

#[test]
fn license_bracket() {
    let m = MatchSpec::parse("zlib [license=Zlib]").unwrap();
    assert_eq!(m.license, Some("Zlib".to_string()));
    let mut r = record("zlib", "1.2", "0");
    assert!(!m.matches(&r));
    r.license = Some("Zlib".to_string());
    assert!(m.matches(&r));
    assert!(MatchSpec::parse("zlib [license=a,license=b]").is_err());
}
