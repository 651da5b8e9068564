use lib::pkg::rapt::{parse_dep, plan_install, Error, RepoPackage};

fn pkg(name: &str, deps: &[&str]) -> RepoPackage {
    RepoPackage {
        name: name.into(),
        version: "1.0.0".into(),
        arch: "x86_64".into(),
        filename: format!("{}.rpk", name),
        depends: deps.iter().map(|d| d.to_string()).collect(),
    }
}

#[test]
fn parse_dep_name_only() {
    let d = parse_dep("zlib").unwrap();
    assert_eq!(d.name, "zlib");
    assert!(d.constraint.is_none());
}

#[test]
fn parse_dep_with_constraint() {
    let d = parse_dep("libc-lite >= 0.1.0, < 1.0.0").unwrap();
    assert_eq!(d.name, "libc-lite");
    assert!(d.constraint.is_some());
}

#[test]
fn plan_topo_order() {
    let index = vec![
        RepoPackage {
            name: "libc-lite".into(),
            version: "0.1.0".into(),
            arch: "x86_64".into(),
            filename: "libc-lite.rpk".into(),
            depends: vec![],
        },
        RepoPackage {
            name: "demo".into(),
            version: "1.0.0".into(),
            arch: "x86_64".into(),
            filename: "demo.rpk".into(),
            depends: vec!["libc-lite >= 0.1.0".into()],
        },
    ];

    let plan = plan_install(&index, &["demo"]).unwrap();
    assert_eq!(plan.len(), 2);
    assert_eq!(plan[0].name, "libc-lite");
    assert_eq!(plan[1].name, "demo");
}

#[test]
fn parse_dep_trims_and_splits() {
    let d = parse_dep("  zlib\t>= 1.2  ").unwrap();
    assert_eq!(d.name, "zlib");
    assert_eq!(d.constraint.as_deref(), Some(">= 1.2"));
    assert_eq!(parse_dep("   "), Err(Error::EmptyName));
    assert_eq!(parse_dep(""), Err(Error::EmptyName));
}

#[test]
fn plan_reports_missing_package() {
    let index = vec![pkg("demo", &["nosuch"])];
    assert_eq!(plan_install(&index, &["demo"]), Err(Error::MissingPackage("nosuch".into())));
    assert_eq!(plan_install(&index, &["other"]), Err(Error::MissingPackage("other".into())));
}

#[test]
fn plan_reports_blank_dependency() {
    let index = vec![pkg("demo", &["  "])];
    assert_eq!(plan_install(&index, &["demo"]), Err(Error::EmptyName));
}

#[test]
fn plan_reports_cycle() {
    let index = vec![pkg("a", &["b"]), pkg("b", &["a"]), pkg("c", &[])];
    assert_eq!(plan_install(&index, &["a"]), Err(Error::CyclicDependency));
    let plan = plan_install(&index, &["c"]).unwrap();
    assert_eq!(plan.len(), 1);
}

#[test]
fn plan_lists_shared_dependency_once_before_users() {
    let index = vec![
        pkg("app", &["gui", "net"]),
        pkg("gui", &["core"]),
        pkg("net", &["core >= 1"]),
        pkg("core", &[]),
        pkg("core", &["ignored"]),
    ];
    let plan = plan_install(&index, &["app", "net"]).unwrap();
    let names: Vec<&str> = plan.iter().map(|s| s.name.as_str()).collect();
    assert_eq!(names.len(), 4);
    let pos = |n: &str| names.iter().position(|x| *x == n).unwrap();
    assert!(pos("core") < pos("gui"));
    assert!(pos("core") < pos("net"));
    assert!(pos("gui") < pos("app"));
    assert!(pos("net") < pos("app"));
    assert_eq!(plan[pos("core")].filename, "core.rpk");
}
