use rattler::{determine_subdir, ConvertSubdirError, Platform};

#[test]
fn test_determine_subdir() {
    assert_eq!(
        determine_subdir(Some("osx".to_string()), Some("x86_64".to_string())).unwrap(),
        "osx-64"
    );
}

#[test]
fn subdir_of_each_known_pair() {
    let cases = [
        ("linux", "x86", "linux-32"),
        ("linux", "x86_64", "linux-64"),
        ("linux", "aarch64", "linux-aarch64"),
        ("linux", "ppc64le", "linux-ppc64le"),
        ("osx", "arm64", "osx-arm64"),
        ("win", "32", "win-32"),
        ("win", "64", "win-64"),
        ("win", "arm64", "win-arm64"),
    ];
    for (p, a, want) in cases {
        assert_eq!(determine_subdir(Some(p.to_string()), Some(a.to_string())).unwrap(), want);
    }
}

#[test]
fn subdir_missing_platform() {
    assert_eq!(
        determine_subdir(None, Some("x86_64".to_string())),
        Err(ConvertSubdirError::PlatformEmpty)
    );
    assert_eq!(determine_subdir(None, None), Err(ConvertSubdirError::PlatformEmpty));
}

#[test]
fn subdir_missing_arch() {
    assert_eq!(
        determine_subdir(Some("linux".to_string()), None),
        Err(ConvertSubdirError::ArchEmpty)
    );
}

#[test]
fn subdir_unknown_combination() {
    assert_eq!(
        determine_subdir(Some("osx".to_string()), Some("x86".to_string())),
        Err(ConvertSubdirError::NoKnownCombination {
            platform: "osx".to_string(),
            arch: "x86".to_string()
        })
    );
}

#[test]
fn platform_names() {
    assert_eq!(Platform::NoArch.as_subdir(), "noarch");
    assert_eq!(Platform::LinuxS390X.as_subdir(), "linux-s390x");
}
