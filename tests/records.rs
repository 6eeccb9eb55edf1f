use rattler::{empty_channel, ConvertSubdirError, IndexJson, NoArchType, PackageRecord, Platform, Version};

fn index_json(subdir: Option<&str>, platform: Option<&str>, arch: Option<&str>) -> IndexJson {
    IndexJson {
        name: "zlib".to_string(),
        version: Version::parse("1.2.8").unwrap(),
        build: "vc10_0".to_string(),
        build_number: 0,
        arch: arch.map(|s| s.to_string()),
        noarch: NoArchType::Native,
        platform: platform.map(|s| s.to_string()),
        license: Some("zlib".to_string()),
        license_family: None,
        depends: vec!["vc 10.*".to_string()],
        constrains: vec![],
        track_features: vec![],
        features: None,
        timestamp: Some(1),
        subdir: subdir.map(|s| s.to_string()),
    }
}

#[test]
fn record_from_index_json_keeps_subdir() {
    let rec = PackageRecord::from_index_json(
        index_json(Some("win-64"), Some("win"), Some("x86_64")),
        Some(42),
        Some("abc".to_string()),
        None,
    )
    .unwrap();
    assert_eq!(rec.subdir, "win-64");
    assert_eq!(rec.name, "zlib");
    assert_eq!(rec.size, Some(42));
    assert_eq!(rec.sha256, Some("abc".to_string()));
    assert_eq!(rec.md5, None);
    assert_eq!(rec.depends, vec!["vc 10.*".to_string()]);
    assert_eq!(rec.legacy_bz2_md5, None);
}

#[test]
fn record_from_index_json_derives_subdir() {
    let rec = PackageRecord::from_index_json(index_json(None, Some("osx"), Some("x86_64")), None, None, None)
        .unwrap();
    assert_eq!(rec.subdir, "osx-64");
}

#[test]
fn record_from_index_json_without_platform() {
    let err = PackageRecord::from_index_json(index_json(None, None, Some("x86_64")), None, None, None);
    assert_eq!(err, Err(ConvertSubdirError::PlatformEmpty));
}

#[test]
fn empty_channel_location() {
    let c = empty_channel("/src/rattler");
    assert_eq!(c.base_url, "file:///src/rattler/resources/channels/empty/");
    assert_eq!(c.platforms, vec![Platform::NoArch]);
}

#[test]
fn noarch_is_none() {
    assert!(NoArchType::Native.is_none());
    assert!(!NoArchType::Python.is_none());
}

#[test]
fn repo_data_records_are_located() {
    let rec = |subdir: &str, name: &str| {
        let mut r = PackageRecord::from_index_json(index_json(Some(subdir), None, None), None, None, None).unwrap();
        r.name = name.to_string();
        r
    };
    let data = rattler::RepoData {
        info: Some(rattler::ChannelInfo { subdir: "linux-64".to_string() }),
        packages: vec![("a-1-0.tar.bz2".to_string(), rec("linux-64", "a"))],
        conda_packages: vec![
            ("b-1-0.conda".to_string(), rec("linux-64", "b")),
            ("c-1-0.conda".to_string(), rec("noarch", "c")),
        ],
        removed: vec![],
        version: Some(1),
    };
    let channel = rattler::Channel { base_url: "https://conda.example/main/".to_string(), platforms: vec![] };
    let out = data.into_repo_data_records(&channel);
    let urls: Vec<&str> = out.iter().map(|r| r.url.as_str()).collect();
    assert_eq!(
        urls,
        vec![
            "https://conda.example/main/linux-64/a-1-0.tar.bz2",
            "https://conda.example/main/linux-64/b-1-0.conda",
            "https://conda.example/main/noarch/c-1-0.conda"
        ]
    );
    assert_eq!(out[2].package_record.name, "c");
    assert_eq!(out[1].file_name, "b-1-0.conda");
    assert_eq!(out[0].channel, "https://conda.example/main/");
}

#[test]
fn record_text() {
    let rec = PackageRecord::from_index_json(index_json(Some("win-64"), None, None), None, None, None).unwrap();
    assert_eq!(rec.to_text(), "zlib=1.2.8=vc10_0");
}

#[test]
fn repo_data_base_without_slash() {
    let rec = PackageRecord::from_index_json(index_json(Some("noarch"), None, None), None, None, None).unwrap();
    let data = rattler::RepoData {
        info: None,
        packages: vec![("zlib-1.2.8-0.tar.bz2".to_string(), rec)],
        conda_packages: vec![],
        removed: vec![],
        version: None,
    };
    let channel = rattler::Channel { base_url: "file:///srv/channel".to_string(), platforms: vec![] };
    let out = data.into_repo_data_records(&channel);
    assert_eq!(out[0].url, "file:///srv/channel/noarch/zlib-1.2.8-0.tar.bz2");
}
