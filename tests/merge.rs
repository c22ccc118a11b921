use cargo_edit::args::{Args, DependencyKind};
use cargo_edit::dependency::{GitReference, Source};
use cargo_edit::merge::merge_dependencies;
use cargo_edit::value::{Table, Value};
use cargo_edit::Dependency;

fn s(x: &str) -> Value {
    Value::Str(x.to_string())
}

fn table(entries: Vec<(&str, Value)>) -> Table {
    Table { entries: entries.into_iter().map(|(k, v)| (k.to_string(), v)).collect() }
}

#[test]
fn merge_keeps_ancillary_fields() {
    let old = Value::Table(table(vec![
        ("version", s("1.0")),
        ("features", Value::Array(vec![s("a")])),
    ]));
    let new = Dependency::new("foo").set_version("2.0");
    let merged = merge_dependencies(old, &new);
    assert_eq!(
        merged,
        Value::Table(table(vec![
            ("version", s("2.0")),
            ("features", Value::Array(vec![s("a")])),
        ]))
    );
}

#[test]
fn merge_replaces_trivial_old() {
    let new = Dependency::new("foo").set_version("2.0").set_features(vec!["a".to_string()]);
    let merged = merge_dependencies(s("1.0"), &new);
    assert_eq!(
        merged,
        Value::Table(table(vec![
            ("version", s("2.0")),
            ("features", Value::Array(vec![s("a")])),
        ]))
    );
}

#[test]
fn merge_replaces_single_key_table() {
    let old = Value::Table(table(vec![("optional", Value::Bool(true))]));
    let new = Dependency::new("foo").set_version("3");
    assert_eq!(merge_dependencies(old, &new), s("3"));
}

#[test]
fn merge_drops_old_source_keys() {
    let old = Value::Table(table(vec![
        ("path", s("../foo")),
        ("optional", Value::Bool(true)),
    ]));
    let new = Dependency::new("foo").set_git("https://example.com/foo", Some(GitReference::Branch("main".to_string())));
    assert_eq!(
        merge_dependencies(old, &new),
        Value::Table(table(vec![
            ("optional", Value::Bool(true)),
            ("git", s("https://example.com/foo")),
            ("branch", s("main")),
        ]))
    );
}

#[test]
fn merge_into_empty_table_writes_version() {
    let old = Value::Table(Table::new());
    let new = Dependency::new("foo").set_version("1.2");
    assert_eq!(merge_dependencies(old, &new), Value::Table(table(vec![("version", s("1.2"))])));
}

#[test]
fn bare_version_is_written_as_string() {
    let dep = Dependency::new("foo").set_version("1.2.3");
    assert_eq!(dep.to_toml(), ("foo".to_string(), s("1.2.3")));
    let dep = Dependency::new("foo");
    assert_eq!(dep.to_toml(), ("foo".to_string(), s("*")));
}

#[test]
fn full_declaration_is_written_as_table() {
    let dep = Dependency::new("foo")
        .set_version("1.0")
        .set_features(vec!["f1".to_string(), "f2".to_string()])
        .set_optional(true)
        .set_default_features(false);
    assert_eq!(
        dep.to_toml().1,
        Value::Table(table(vec![
            ("version", s("1.0")),
            ("features", Value::Array(vec![s("f1"), s("f2")])),
            ("optional", Value::Bool(true)),
            ("default-features", Value::Bool(false)),
        ]))
    );
    let dep = Dependency::new("bar").set_git("https://example.com/bar", Some(GitReference::Rev("abc".to_string())));
    assert_eq!(dep.source, Some(Source::Git("https://example.com/bar".to_string(), Some(GitReference::Rev("abc".to_string())))));
    assert_eq!(
        dep.to_toml().1,
        Value::Table(table(vec![("git", s("https://example.com/bar")), ("rev", s("abc"))]))
    );
    let dep = Dependency::new("baz").set_path("../baz").set_version("0.3");
    assert_eq!(
        dep.to_toml().1,
        Value::Table(table(vec![("version", s("0.3")), ("path", s("../baz"))]))
    );
}

#[test]
fn deep_copy_is_equal() {
    let v = Value::Table(table(vec![
        ("a", Value::Array(vec![s("x"), Value::Raw("3".to_string())])),
        ("b", Value::Table(table(vec![("c", Value::Bool(false))]))),
    ]));
    assert_eq!(v.deep_copy(), v);
    assert_eq!(v.clone(), v);
}

#[test]
fn table_operations() {
    let mut t = table(vec![("a", s("1")), ("b", s("2"))]);
    assert_eq!(t.position(&"b".to_string()), Some(1));
    assert_eq!(t.get(&"c".to_string()), None);
    t.set("a".to_string(), s("3"));
    t.set("c".to_string(), s("4"));
    assert_eq!(t, table(vec![("a", s("3")), ("b", s("2")), ("c", s("4"))]));
    assert_eq!(t.remove(&"b".to_string()), Some(s("2")));
    assert_eq!(t.remove(&"b".to_string()), None);
    assert_eq!(t.len(), 2);
}

#[test]
fn dependency_type_from_flags() {
    let mut args = Args::default();
    assert_eq!(args.arg_crate, "demo");
    assert_eq!(args.get_dependency_type(), DependencyKind::Normal);
    args.flag_dev = true;
    assert_eq!(args.get_dependency_type(), DependencyKind::Development);
    args.flag_dev = false;
    args.flag_build = true;
    assert_eq!(args.get_dependency_type(), DependencyKind::Build);
    assert_eq!(DependencyKind::Build.section_name(), "build-dependencies");
    assert_eq!(DependencyKind::Development.section_name(), "dev-dependencies");
    assert_eq!(DependencyKind::Normal.section_name(), "dependencies");
}

#[test]
fn reads_declarations_back() {
    let d = Dependency::from_toml("foo", &s("1.0")).unwrap();
    assert_eq!(d, Dependency::new("foo").set_version("1.0"));
    let written = Dependency::new("bar")
        .set_version("0.2")
        .set_git("https://example.com/bar", Some(GitReference::Tag("v1".to_string())))
        .set_features(vec!["x".to_string()])
        .set_optional(true)
        .set_default_features(false);
    let (name, value) = written.to_toml();
    assert_eq!(Dependency::from_toml(&name, &value), Some(written));
    let path_dep = Value::Table(table(vec![("path", s("../p")), ("registry", s("other"))]));
    assert_eq!(
        Dependency::from_toml("p", &path_dep),
        Some(Dependency::new("p").set_path("../p"))
    );
}

#[test]
fn rejects_ill_typed_declarations() {
    assert_eq!(Dependency::from_toml("foo", &Value::Bool(true)), None);
    let bad = Value::Table(table(vec![("version", Value::Bool(true))]));
    assert_eq!(Dependency::from_toml("foo", &bad), None);
    let bad = Value::Table(table(vec![("features", Value::Array(vec![s("a"), Value::Bool(false)]))]));
    assert_eq!(Dependency::from_toml("foo", &bad), None);
}
