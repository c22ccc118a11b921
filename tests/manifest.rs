use cargo_edit::manifest::CargoFile;
use cargo_edit::value::{Table, Value};
use cargo_edit::{Dependency, Manifest, ManifestError};

fn s(x: &str) -> Value {
    Value::Str(x.to_string())
}

fn table(entries: Vec<(&str, Value)>) -> Table {
    Table { entries: entries.into_iter().map(|(k, v)| (k.to_string(), v)).collect() }
}

#[test]
fn add_remove_dependency() {
    let mut manifest = Manifest { data: Table::new() };
    let clone = manifest.clone();
    let dep = Dependency::new("cargo-edit").set_version("0.1.0");
    let _ = manifest.insert_into_table(&["dependencies".to_owned()], &dep);
    assert!(manifest.remove_from_table("dependencies", &dep.name).is_ok());
    assert_eq!(manifest, clone);
}

#[test]
fn update_dependency() {
    let mut manifest = Manifest { data: Table::new() };
    let dep = Dependency::new("cargo-edit").set_version("0.1.0");
    manifest.insert_into_table(&["dependencies".to_owned()], &dep).unwrap();

    let new_dep = Dependency::new("cargo-edit").set_version("0.2.0");
    manifest.update_table_entry(&["dependencies".to_owned()], &new_dep).unwrap();
}

#[test]
fn update_wrong_dependency() {
    let mut manifest = Manifest { data: Table::new() };
    let dep = Dependency::new("cargo-edit").set_version("0.1.0");
    manifest.insert_into_table(&["dependencies".to_owned()], &dep).unwrap();
    let original = manifest.clone();

    let new_dep = Dependency::new("wrong-dep").set_version("0.2.0");
    manifest.update_table_entry(&["dependencies".to_owned()], &new_dep).unwrap();

    assert_eq!(manifest, original);
}

#[test]
fn remove_dependency_no_section() {
    let mut manifest = Manifest { data: Table::new() };
    let dep = Dependency::new("cargo-edit").set_version("0.1.0");
    assert!(manifest.remove_from_table("dependencies", &dep.name).is_err());
}

#[test]
fn remove_dependency_non_existent() {
    let mut manifest = Manifest { data: Table::new() };
    let dep = Dependency::new("cargo-edit").set_version("0.1.0");
    let other_dep = Dependency::new("other-dep").set_version("0.1.0");
    let _ = manifest.insert_into_table(&["dependencies".to_owned()], &other_dep);
    assert!(manifest.remove_from_table("dependencies", &dep.name).is_err());
}

#[test]
fn insert_creates_nested_tables() {
    let mut manifest = Manifest { data: Table::new() };
    let dep = Dependency::new("foo").set_version("1");
    let path = vec!["target".to_owned(), "x86_64-unknown".to_owned(), "dependencies".to_owned()];
    manifest.insert_into_table(&path, &dep).unwrap();
    let expected = table(vec![(
        "target",
        Value::Table(table(vec![(
            "x86_64-unknown",
            Value::Table(table(vec![("dependencies", Value::Table(table(vec![("foo", s("1"))])))])),
        )])),
    )]);
    assert_eq!(manifest.data, expected);
}

#[test]
fn insert_into_non_table_is_path_conflict() {
    let mut manifest = Manifest { data: table(vec![("dependencies", s("oops"))]) };
    let before = manifest.clone();
    let dep = Dependency::new("foo").set_version("1");
    let r = manifest.insert_into_table(&["dependencies".to_owned()], &dep);
    assert_eq!(r, Err(ManifestError::PathConflict("dependencies".to_string())));
    assert_eq!(manifest, before);
}

#[test]
fn insert_merges_into_existing_entry() {
    let old = Value::Table(table(vec![
        ("version", s("1.0")),
        ("features", Value::Array(vec![s("a")])),
    ]));
    let mut manifest = Manifest {
        data: table(vec![("dependencies", Value::Table(table(vec![("foo", old)])))]),
    };
    let dep = Dependency::new("foo").set_version("2.0");
    manifest.insert_into_table(&["dependencies".to_owned()], &dep).unwrap();
    let expected = table(vec![(
        "dependencies",
        Value::Table(table(vec![(
            "foo",
            Value::Table(table(vec![
                ("version", s("2.0")),
                ("features", Value::Array(vec![s("a")])),
            ])),
        )])),
    )]);
    assert_eq!(manifest.data, expected);
}

#[test]
fn insert_then_remove_restores_document() {
    let before_insert = Manifest {
        data: table(vec![
            ("package", Value::Table(table(vec![("name", s("demo"))]))),
            ("dependencies", Value::Table(table(vec![("serde", s("1"))]))),
        ]),
    };
    let mut manifest = before_insert.clone();
    let dep = Dependency::new("regex").set_version("0.2").set_optional(true);
    manifest.insert_into_table(&["dependencies".to_owned()], &dep).unwrap();
    assert_ne!(manifest, before_insert);
    manifest.remove_from_table("dependencies", "regex").unwrap();
    assert_eq!(manifest, before_insert);
}

#[test]
fn update_absent_name_leaves_document_unchanged() {
    let mut manifest = Manifest {
        data: table(vec![("dependencies", Value::Table(table(vec![("serde", s("1"))])))]),
    };
    let before = manifest.clone();
    let dep = Dependency::new("regex").set_version("0.2");
    assert_eq!(manifest.update_table_entry(&["dependencies".to_owned()], &dep), Ok(()));
    assert_eq!(manifest, before);
    let dep = Dependency::new("serde").set_version("2");
    assert_eq!(manifest.update_table_entry(&["dev-dependencies".to_owned()], &dep), Ok(()));
    assert_eq!(manifest, before);
}

#[test]
fn remove_error_cases() {
    let mut manifest = Manifest {
        data: table(vec![
            ("dependencies", Value::Table(table(vec![("serde", s("1"))]))),
            ("dev-dependencies", Value::Table(table(vec![("a", s("1")), ("b", s("2"))]))),
        ]),
    };
    assert_eq!(
        manifest.remove_from_table("build-dependencies", "serde"),
        Err(ManifestError::NonExistentTable("build-dependencies".to_string()))
    );
    assert_eq!(
        manifest.remove_from_table("dependencies", "regex"),
        Err(ManifestError::NonExistentDependency("regex".to_string(), "dependencies".to_string()))
    );
    assert_eq!(manifest.remove_from_table("dev-dependencies", "a"), Ok(()));
    assert_eq!(manifest.remove_from_table("dependencies", "serde"), Ok(()));
    let expected = table(vec![("dev-dependencies", Value::Table(table(vec![("b", s("2"))])))]);
    assert_eq!(manifest.data, expected);
}

#[test]
fn enumerates_target_sections() {
    let manifest = Manifest {
        data: table(vec![
            ("dependencies", Value::Table(table(vec![("serde", s("1"))]))),
            (
                "target",
                Value::Table(table(vec![(
                    "x86_64-unknown",
                    Value::Table(table(vec![("dependencies", Value::Table(table(vec![("foo", s("1"))])))])),
                )])),
            ),
        ]),
    };
    let sections = manifest.get_sections();
    assert_eq!(sections.len(), 2);
    assert_eq!(sections[0].0, vec!["dependencies".to_string()]);
    assert_eq!(
        sections[1].0,
        vec!["target".to_string(), "x86_64-unknown".to_string(), "dependencies".to_string()]
    );
    assert_eq!(sections[1].1, &table(vec![("foo", s("1"))]));
}

#[test]
fn enumeration_reflects_mutations() {
    let mut manifest = Manifest { data: Table::new() };
    assert_eq!(manifest.get_sections().len(), 0);
    let dep = Dependency::new("foo").set_version("1");
    manifest.insert_into_table(&["build-dependencies".to_owned()], &dep).unwrap();
    manifest.insert_into_table(&["dependencies".to_owned()], &dep).unwrap();
    let sections = manifest.get_sections();
    assert_eq!(sections.len(), 2);
    assert_eq!(sections[0].0, vec!["dependencies".to_string()]);
    assert_eq!(sections[1].0, vec!["build-dependencies".to_string()]);
}

#[test]
fn add_deps_inserts_each() {
    let mut manifest = Manifest { data: Table::new() };
    let deps = vec![
        Dependency::new("a").set_version("1"),
        Dependency::new("b").set_path("../b"),
    ];
    manifest.add_deps(&["dependencies".to_owned()], &deps).unwrap();
    let expected = table(vec![(
        "dependencies",
        Value::Table(table(vec![("a", s("1")), ("b", Value::Table(table(vec![("path", s("../b"))])))])),
    )]);
    assert_eq!(manifest.data, expected);
}

#[test]
fn header_is_taken_out_first() {
    let manifest = Manifest {
        data: table(vec![
            ("dependencies", Value::Table(table(vec![("serde", s("1"))]))),
            ("package", Value::Table(table(vec![("name", s("demo"))]))),
            ("features", Value::Table(Table::new())),
        ]),
    };
    let (name, header, rest) = manifest.header_first().unwrap();
    assert_eq!(name, "package");
    assert_eq!(header, Value::Table(table(vec![("name", s("demo"))])));
    assert_eq!(
        rest,
        table(vec![
            ("dependencies", Value::Table(table(vec![("serde", s("1"))]))),
            ("features", Value::Table(Table::new())),
        ])
    );
}

#[test]
fn header_project_alias_and_missing_header() {
    let manifest = Manifest { data: table(vec![("project", Value::Table(Table::new()))]) };
    let (name, _, rest) = manifest.header_first().unwrap();
    assert_eq!(name, "project");
    assert_eq!(rest, Table::new());
    let manifest = Manifest { data: table(vec![("dependencies", Value::Table(Table::new()))]) };
    assert_eq!(manifest.header_first(), Err(ManifestError::MissingManifest));
}

#[test]
fn cargo_file_names() {
    assert_eq!(CargoFile::Config.name(), "Cargo.toml");
    assert_eq!(CargoFile::Lock.name(), "Cargo.lock");
}

#[test]
fn line_and_column_of_offset() {
    let text = b"[package]\nname = 1\n";
    assert_eq!(cargo_edit::errors::line_col(text, 0), (0, 0));
    assert_eq!(cargo_edit::errors::line_col(text, 12), (1, 2));
    assert_eq!(cargo_edit::errors::line_col(text, text.len()), (2, 0));
}
