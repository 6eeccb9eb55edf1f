use rattler::{solve, Edge, MatchSpec, NoArchType, PackageIndex, PackageRecord, SolveError, Version};

fn record(name: &str, version: &str, depends: &[&str]) -> PackageRecord {
    PackageRecord {
        arch: None,
        build: "0".to_string(),
        build_number: 0,
        constrains: vec![],
        depends: depends.iter().map(|s| s.to_string()).collect(),
        features: None,
        legacy_bz2_md5: None,
        legacy_bz2_size: None,
        license: None,
        license_family: None,
        md5: None,
        name: name.to_string(),
        noarch: NoArchType::Native,
        platform: None,
        sha256: None,
        size: None,
        subdir: "linux-64".to_string(),
        timestamp: None,
        track_features: vec![],
        version: Version::parse(version).unwrap(),
    }
}

fn roots(specs: &[&str]) -> Vec<MatchSpec> {
    specs.iter().map(|s| MatchSpec::parse(s).unwrap()).collect()
}

fn chosen(index: &PackageIndex, records: &[usize]) -> Vec<String> {
    let mut out: Vec<String> = records
        .iter()
        .map(|&i| format!("{}={}", index.record(i).name, index.record(i).version.to_text()))
        .collect();
    out.sort();
    out
}

#[test]
fn picks_highest_version_in_range() {
    let index = PackageIndex::build(vec![
        record("python", "3.9.0", &[]),
        record("python", "3.10.4", &[]),
        record("python", "3.11.2", &[]),
        record("python", "3.12.0", &[]),
    ]);
    let sol = solve(&roots(&["python >=3.10,<3.12"]), &index).unwrap();
    assert_eq!(chosen(&index, &sol.records), vec!["python=3.11.2"]);
}

#[test]
fn reports_conflicting_edges() {
    let index = PackageIndex::build(vec![
        record("pkgA", "1.5", &[]),
        record("pkgA", "2.1", &[]),
        record("pkgB", "1.0", &["pkgA <2.0"]),
    ]);
    let err = solve(&roots(&["pkgA >=2.0", "pkgB"]), &index).unwrap_err();
    match err {
        SolveError::Unsatisfiable { name, edges } => {
            assert_eq!(name, "pkgA");
            assert_eq!(edges, vec![Edge::Root(0), Edge::Depends { record: 2, dep: 0 }]);
        }
        other => panic!("unexpected {other:?}"),
    }
}

#[test]
fn cycles_terminate() {
    let index = PackageIndex::build(vec![record("pkgX", "1.0", &["pkgY"]), record("pkgY", "1.0", &["pkgX"])]);
    let sol = solve(&roots(&["pkgX"]), &index).unwrap();
    assert_eq!(chosen(&index, &sol.records), vec!["pkgX=1.0", "pkgY=1.0"]);
}

#[test]
fn solving_twice_gives_the_same_solution() {
    let index = PackageIndex::build(vec![
        record("a", "1.0", &["b >=1"]),
        record("a", "2.0", &["b >=2"]),
        record("b", "1.5", &[]),
        record("b", "2.5", &["c"]),
        record("c", "0.1", &[]),
    ]);
    let r = roots(&["a"]);
    let first = solve(&r, &index).unwrap();
    let second = solve(&r, &index).unwrap();
    assert_eq!(first, second);
    assert_eq!(chosen(&index, &first.records), vec!["a=2.0", "b=2.5", "c=0.1"]);
}

#[test]
fn backtracks_to_an_older_version() {
    let index = PackageIndex::build(vec![
        record("app", "2.0", &["lib >=3"]),
        record("app", "1.0", &["lib <3"]),
        record("lib", "2.0", &[]),
    ]);
    let sol = solve(&roots(&["app"]), &index).unwrap();
    assert_eq!(chosen(&index, &sol.records), vec!["app=1.0", "lib=2.0"]);
}

#[test]
fn constrains_restrict_only_installed_packages() {
    let mut top = record("top", "1.0", &[]);
    top.constrains = vec!["opt <2".to_string()];
    let index = PackageIndex::build(vec![top.clone(), record("opt", "2.0", &[]), record("opt", "1.0", &[])]);
    let sol = solve(&roots(&["top"]), &index).unwrap();
    assert_eq!(chosen(&index, &sol.records), vec!["top=1.0"]);
    let sol = solve(&roots(&["top", "opt"]), &index).unwrap();
    assert_eq!(chosen(&index, &sol.records), vec!["opt=1.0", "top=1.0"]);
}

#[test]
fn missing_package_is_unsatisfiable() {
    let index = PackageIndex::build(vec![record("a", "1.0", &[])]);
    let err = solve(&roots(&["zzz"]), &index).unwrap_err();
    assert_eq!(err, SolveError::Unsatisfiable { name: "zzz".to_string(), edges: vec![Edge::Root(0)] });
}

#[test]
fn broken_dependency_text_is_an_integrity_error() {
    let index = PackageIndex::build(vec![record("a", "1.0", &["b >=1..2"])]);
    let err = solve(&roots(&["a"]), &index).unwrap_err();
    assert_eq!(err, SolveError::DataIntegrity { record: 0, text: "b >=1..2".to_string() });
}

#[test]
fn candidates_sorted_best_first() {
    let mut tf = record("p", "1.0", &[]);
    tf.track_features = vec!["x".to_string()];
    let mut b1 = record("p", "1.0", &[]);
    b1.build_number = 1;
    let index = PackageIndex::build(vec![record("p", "0.9", &[]), tf, record("q", "5", &[]), b1, record("p", "1.0", &[])]);
    assert_eq!(index.candidates_for("p"), vec![3, 4, 1, 0]);
    assert!(index.candidates_for("none").is_empty());
}

#[test]
fn violated_constraint_is_unsatisfiable() {
    let mut top = record("top", "1.0", &[]);
    top.constrains = vec!["opt <2".to_string()];
    let index = PackageIndex::build(vec![top, record("opt", "2.0", &[])]);
    let err = solve(&roots(&["top", "opt >=2"]), &index).unwrap_err();
    assert!(matches!(err, SolveError::Unsatisfiable { .. }));
}

#[test]
fn empty_roots_give_empty_solution() {
    let index = PackageIndex::build(vec![record("a", "1.0", &[])]);
    let sol = solve(&Vec::new(), &index).unwrap();
    assert!(sol.records.is_empty());
}
