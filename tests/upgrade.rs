use cargo_edit::manifest_new;
use cargo_edit::upgrade::UpgradeTarget;
use cargo_edit::value::{Table, Value};
use cargo_edit::{Manifest, ManifestError};

fn s(x: &str) -> Value {
    Value::Str(x.to_string())
}

fn table(entries: Vec<(&str, Value)>) -> Table {
    Table { entries: entries.into_iter().map(|(k, v)| (k.to_string(), v)).collect() }
}

fn sample() -> Manifest {
    Manifest {
        data: table(vec![
            ("package", Value::Table(table(vec![("name", s("demo"))]))),
            (
                "dependencies",
                Value::Table(table(vec![
                    ("local", Value::Table(table(vec![("path", s("../local"))]))),
                    (
                        "serde",
                        Value::Table(table(vec![
                            ("version", s("0.9")),
                            ("features", Value::Array(vec![s("derive")])),
                        ])),
                    ),
                ])),
            ),
            ("dev-dependencies", Value::Table(table(vec![("regex", s("0.1"))]))),
        ]),
    }
}

#[test]
fn upgrade_skips_overrides() {
    let m = sample();
    let targets = m.upgrade_targets(&[]);
    assert_eq!(targets.len(), 2);
    assert_eq!(targets[0].path, vec!["dependencies".to_string()]);
    assert_eq!(targets[0].name, "serde");
    assert_eq!(targets[1].path, vec!["dev-dependencies".to_string()]);
    assert_eq!(targets[1].name, "regex");
    let only = m.upgrade_targets(&["regex".to_string(), "local".to_string()]);
    assert_eq!(only.len(), 1);
    assert_eq!(only[0].name, "regex");
}

#[test]
fn failed_lookup_changes_nothing() {
    let mut m = sample();
    let before = m.clone();
    let targets = m.upgrade_targets(&[]);
    let r = m.apply_upgrades(&targets, &[Some("1.0".to_string()), None]);
    assert_eq!(r, Err(ManifestError::RegistryLookupFailed("regex".to_string())));
    assert_eq!(m, before);
}

#[test]
fn successful_lookups_update_versions() {
    let mut m = sample();
    let targets = m.upgrade_targets(&[]);
    m.apply_upgrades(&targets, &[Some("1.0".to_string()), Some("0.2".to_string())]).unwrap();
    let expected = table(vec![
        ("package", Value::Table(table(vec![("name", s("demo"))]))),
        (
            "dependencies",
            Value::Table(table(vec![
                ("local", Value::Table(table(vec![("path", s("../local"))]))),
                (
                    "serde",
                    Value::Table(table(vec![
                        ("version", s("1.0")),
                        ("features", Value::Array(vec![s("derive")])),
                    ])),
                ),
            ])),
        ),
        ("dev-dependencies", Value::Table(table(vec![("regex", s("0.2"))]))),
    ]);
    assert_eq!(m.data, expected);
}

#[test]
fn upgrade_never_creates_entries() {
    let mut m = sample();
    let before = m.clone();
    let targets = vec![UpgradeTarget { path: vec!["build-dependencies".to_string()], name: "x".to_string() }];
    m.apply_upgrades(&targets, &[Some("9".to_string())]).unwrap();
    assert_eq!(m, before);
}

#[test]
fn lists_all_dependency_entries() {
    let data = table(vec![
        ("dependencies", Value::Table(table(vec![("a", s("1"))]))),
        ("dev-dependencies", Value::Table(table(vec![("b", s("1"))]))),
        (
            "target",
            Value::Table(table(vec![(
                "wasm32",
                Value::Table(table(vec![("dependencies", Value::Table(table(vec![("c", s("1"))])))])),
            )])),
        ),
    ]);
    let m = manifest_new::Manifest::open(data);
    let deps = m.get_all_deps();
    let names: Vec<&str> = deps.iter().map(|d| d.name().as_str()).collect();
    assert_eq!(names, vec!["b", "a", "c"]);
    assert_eq!(
        deps[2].path(),
        &vec!["target".to_string(), "wasm32".to_string(), "dependencies".to_string()]
    );
}

#[test]
fn set_dep_version_keeps_table_fields() {
    let data = table(vec![(
        "dependencies",
        Value::Table(table(vec![(
            "a",
            Value::Table(table(vec![("version", s("1")), ("optional", Value::Bool(true))])),
        )])),
    )]);
    let mut m = manifest_new::Manifest::open(data);
    let dep = m.get_all_deps().remove(0);
    m.set_dep_version(dep, "2".to_string());
    let expected = table(vec![(
        "dependencies",
        Value::Table(table(vec![(
            "a",
            Value::Table(table(vec![("version", s("2")), ("optional", Value::Bool(true))])),
        )])),
    )]);
    assert_eq!(m.data, expected);
}
