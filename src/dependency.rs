//! The declaration of one dependency, independent of how it is written.
use vstd::prelude::*;
use crate::value::{
    Entries, Node, Table, Value, items_model, lemma_get_concat, lemma_get_small, lemma_items_model,
    tbl_get, value_model,
};

verus! {

/// Which revision of a git repository to take.
#[derive(Clone, Debug, PartialEq)]
pub enum GitReference {
    Branch(String),
    Tag(String),
    Rev(String),
}

/// Where a dependency comes from, when not from the registry.
#[derive(Clone, Debug, PartialEq)]
pub enum Source {
    /// A git repository: its url, and the revision to take.
    Git(String, Option<GitReference>),
    /// A directory on the local file system.
    Path(String),
}

/// One dependency as the user wants it declared.
#[derive(Clone, Debug, PartialEq)]
pub struct Dependency {
    /// The name of the crate.
    pub name: String,
    /// The version requirement.
    pub version: Option<String>,
    /// Where the crate comes from, when not from the registry.
    pub source: Option<Source>,
    /// The features to enable, each once.
    pub features: Option<Vec<String>>,
    /// Whether the dependency is optional.
    pub optional: Option<bool>,
    /// Whether the crate's default features are on.
    pub default_features: Option<bool>,
}

/// No string occurs twice in `s`.
pub open spec fn distinct(s: Seq<String>) -> bool {
    forall|i: int, j: int| 0 <= i < j < s.len() ==> s[i]@ != s[j]@
}

/// One entry under `k` when there is a value, none otherwise.
pub open spec fn opt_entry(k: Seq<char>, v: Option<Node>) -> Entries {
    match v {
        Some(n) => seq![(k, n)],
        None => Seq::empty(),
    }
}

pub open spec fn str_node(s: Option<String>) -> Option<Node> {
    match s {
        Some(v) => Some(Node::Str(v@)),
        None => None,
    }
}

pub open spec fn bool_node(b: Option<bool>) -> Option<Node> {
    match b {
        Some(v) => Some(Node::Bool(v)),
        None => None,
    }
}

/// The model of a list of features: an array of strings.
pub open spec fn features_node(f: Option<Vec<String>>) -> Option<Node> {
    match f {
        Some(v) => Some(Node::Array(Seq::new(v@.len(), |i: int| Node::Str(v@[i]@)))),
        None => None,
    }
}

/// The entries that state a source.
pub open spec fn source_entries(s: Option<Source>) -> Entries {
    match s {
        None => Seq::empty(),
        Some(Source::Path(p)) => seq![("path"@, Node::Str(p@))],
        Some(Source::Git(url, r)) => seq![("git"@, Node::Str(url@))] + match r {
            None => Seq::empty(),
            Some(GitReference::Branch(b)) => seq![("branch"@, Node::Str(b@))],
            Some(GitReference::Tag(t)) => seq![("tag"@, Node::Str(t@))],
            Some(GitReference::Rev(v)) => seq![("rev"@, Node::Str(v@))],
        },
    }
}

impl Dependency {
    /// The name is not empty and no feature is listed twice.
    pub open spec fn wf(&self) -> bool {
        &&& self.name@.len() > 0
        &&& match self.features {
            Some(f) => distinct(f@),
            None => true,
        }
    }

    /// Nothing but (at most) a version is set: the declaration is written as a bare string.
    pub open spec fn is_bare(&self) -> bool {
        &&& self.source.is_none()
        &&& self.features.is_none()
        &&& self.optional.is_none()
        &&& self.default_features.is_none()
    }

    /// The fields that are set, in the order in which they are written.
    pub open spec fn fields(&self) -> Entries {
        opt_entry("version"@, str_node(self.version)) + source_entries(self.source) + opt_entry(
            "features"@,
            features_node(self.features),
        ) + opt_entry("optional"@, bool_node(self.optional)) + opt_entry(
            "default-features"@,
            bool_node(self.default_features),
        )
    }

    /// How the declaration is written: a bare version string ("*" where no version is set)
    /// when nothing else is set, else a table of the fields that are set.
    pub open spec fn to_node(&self) -> Node {
        if self.is_bare() {
            Node::Str(
                match self.version {
                    Some(v) => v@,
                    None => "*"@,
                },
            )
        } else {
            Node::Table(self.fields())
        }
    }

    /// A dependency on `name`, with nothing else set.
    pub fn new(name: &str) -> (r: Dependency)
        requires
            name@.len() > 0,
        ensures
            r.wf(),
            r.name@ == name@,
            r.version.is_none(),
            r.is_bare(),
    {
        Dependency {
            name: name.to_owned(),
            version: None,
            source: None,
            features: None,
            optional: None,
            default_features: None,
        }
    }

    /// Sets the version requirement.
    pub fn set_version(self, version: &str) -> (r: Dependency)
        requires
            self.wf(),
        ensures
            r.wf(),
            r == (Dependency { version: r.version, ..self }),
            r.version matches Some(v) && v@ == version@,
    {
        Dependency { version: Some(version.to_owned()), ..self }
    }

    /// Takes the crate from a git repository.
    pub fn set_git(self, url: &str, reference: Option<GitReference>) -> (r: Dependency)
        requires
            self.wf(),
        ensures
            r.wf(),
            r == (Dependency { source: r.source, ..self }),
            r.source matches Some(Source::Git(u, g)) && u@ == url@ && g == reference,
    {
        Dependency { source: Some(Source::Git(url.to_owned(), reference)), ..self }
    }

    /// Takes the crate from a local directory.
    pub fn set_path(self, path: &str) -> (r: Dependency)
        requires
            self.wf(),
        ensures
            r.wf(),
            r == (Dependency { source: r.source, ..self }),
            r.source matches Some(Source::Path(p)) && p@ == path@,
    {
        Dependency { source: Some(Source::Path(path.to_owned())), ..self }
    }

    /// Sets the features to enable.
    pub fn set_features(self, features: Vec<String>) -> (r: Dependency)
        requires
            self.wf(),
            distinct(features@),
        ensures
            r.wf(),
            r == (Dependency { features: Some(features), ..self }),
    {
        Dependency { features: Some(features), ..self }
    }

    /// Sets whether the dependency is optional.
    pub fn set_optional(self, optional: bool) -> (r: Dependency)
        requires
            self.wf(),
        ensures
            r.wf(),
            r == (Dependency { optional: Some(optional), ..self }),
    {
        Dependency { optional: Some(optional), ..self }
    }

    /// Sets whether the crate's default features are on.
    pub fn set_default_features(self, default_features: bool) -> (r: Dependency)
        requires
            self.wf(),
        ensures
            r.wf(),
            r == (Dependency { default_features: Some(default_features), ..self }),
    {
        Dependency { default_features: Some(default_features), ..self }
    }

    /// The name and the written form of the declaration.
    pub fn to_toml(&self) -> (r: (String, Value))
        ensures
            r.0@ == self.name@,
            value_model(r.1) == self.to_node(),
    {
        let v = if self.source.is_none() && self.features.is_none() && self.optional.is_none()
            && self.default_features.is_none() {
            match &self.version {
                Some(v) => Value::Str(v.clone()),
                None => Value::Str("*".to_owned()),
            }
        } else {
            Value::Table(self.fields_table())
        };
        (self.name.clone(), v)
    }

    /// Reads the declaration of `name` from its written form: a bare string is its version;
    /// a table gives each field that it holds (other keys are left aside). Gives `None`
    /// for any other value, and for a table where a known field has the wrong type.
    pub fn from_toml(name: &str, value: &Value) -> (r: Option<Dependency>)
        ensures
            match value_model(*value) {
                Node::Str(v) => r matches Some(d) && d.name@ == name@ && str_view(d.version) == Some(
                    v,
                ) && d.is_bare(),
                Node::Table(es) => if fields_valid(es) {
                    r matches Some(d) && d.name@ == name@ && str_view(d.version) == str_field(
                        tbl_get(es, "version"@),
                    ).unwrap() && source_read(d.source, es) && features_view(d.features)
                        == features_field(tbl_get(es, "features"@)).unwrap() && d.optional
                        == bool_field(tbl_get(es, "optional"@)).unwrap() && d.default_features
                        == bool_field(tbl_get(es, "default-features"@)).unwrap()
                } else {
                    r is None
                },
                _ => r is None,
            },
    {
        match value {
            Value::Str(v) => Some(Dependency {
                name: name.to_owned(),
                version: Some(v.clone()),
                source: None,
                features: None,
                optional: None,
                default_features: None,
            }),
            Value::Table(t) => {
                let version = read_str(t, "version")?;
                let path = read_str(t, "path")?;
                let git = read_str(t, "git")?;
                let branch = read_str(t, "branch")?;
                let tag = read_str(t, "tag")?;
                let rev = read_str(t, "rev")?;
                let features = read_features(t)?;
                let optional = read_bool(t, "optional")?;
                let default_features = read_bool(t, "default-features")?;
                let source = match git {
                    Some(u) => {
                        let r = match (branch, tag, rev) {
                            (Some(b), _, _) => Some(GitReference::Branch(b)),
                            (None, Some(g), _) => Some(GitReference::Tag(g)),
                            (None, None, Some(v)) => Some(GitReference::Rev(v)),
                            (None, None, None) => None,
                        };
                        Some(Source::Git(u, r))
                    },
                    None => match path {
                        Some(p) => Some(Source::Path(p)),
                        None => None,
                    },
                };
                Some(Dependency {
                    name: name.to_owned(),
                    version,
                    source,
                    features,
                    optional,
                    default_features,
                })
            },
            _ => None,
        }
    }

    fn fields_table(&self) -> (t: Table)
        ensures
            t.model() == self.fields(),
    {
        let mut t = Table::new();
        if let Some(v) = &self.version {
            t.append_entry("version".to_owned(), Value::Str(v.clone()));
        }
        assert(t.model() =~= opt_entry("version"@, str_node(self.version)));
        let ghost before = t.model();
        match &self.source {
            Some(Source::Path(p)) => {
                t.append_entry("path".to_owned(), Value::Str(p.clone()));
            },
            Some(Source::Git(url, r)) => {
                t.append_entry("git".to_owned(), Value::Str(url.clone()));
                match r {
                    Some(GitReference::Branch(b)) => {
                        t.append_entry("branch".to_owned(), Value::Str(b.clone()));
                    },
                    Some(GitReference::Tag(g)) => {
                        t.append_entry("tag".to_owned(), Value::Str(g.clone()));
                    },
                    Some(GitReference::Rev(v)) => {
                        t.append_entry("rev".to_owned(), Value::Str(v.clone()));
                    },
                    None => {},
                }
            },
            None => {},
        }
        assert(t.model() =~= before + source_entries(self.source));
        let ghost before = t.model();
        if let Some(f) = &self.features {
            let a = features_value(f);
            t.append_entry("features".to_owned(), a);
        }
        assert(t.model() =~= before + opt_entry("features"@, features_node(self.features)));
        let ghost before = t.model();
        if let Some(b) = self.optional {
            t.append_entry("optional".to_owned(), Value::Bool(b));
        }
        assert(t.model() =~= before + opt_entry("optional"@, bool_node(self.optional)));
        let ghost before = t.model();
        if let Some(b) = self.default_features {
            t.append_entry("default-features".to_owned(), Value::Bool(b));
        }
        assert(t.model() =~= before + opt_entry(
            "default-features"@,
            bool_node(self.default_features),
        ));
        t
    }
}

/// A string field as read: `Some(None)` where absent, `None` where it is no string.
pub open spec fn str_field(n: Option<Node>) -> Option<Option<Seq<char>>> {
    match n {
        None => Some(None),
        Some(Node::Str(s)) => Some(Some(s)),
        _ => None,
    }
}

/// A boolean field as read: `Some(None)` where absent, `None` where it is no boolean.
pub open spec fn bool_field(n: Option<Node>) -> Option<Option<bool>> {
    match n {
        None => Some(None),
        Some(Node::Bool(b)) => Some(Some(b)),
        _ => None,
    }
}

/// A list of features as read: `Some(None)` where absent, `None` where it is no array of
/// strings.
pub open spec fn features_field(n: Option<Node>) -> Option<Option<Seq<Seq<char>>>> {
    match n {
        None => Some(None),
        Some(Node::Array(items)) => if forall|i: int| 0 <= i < items.len() ==> items[i] is Str {
            Some(Some(items.map_values(|x: Node| x->Str_0)))
        } else {
            None
        },
        _ => None,
    }
}

/// Every field of a declaration table that this library knows has the right type.
pub open spec fn fields_valid(es: Entries) -> bool {
    &&& str_field(tbl_get(es, "version"@)) is Some
    &&& str_field(tbl_get(es, "path"@)) is Some
    &&& str_field(tbl_get(es, "git"@)) is Some
    &&& str_field(tbl_get(es, "branch"@)) is Some
    &&& str_field(tbl_get(es, "tag"@)) is Some
    &&& str_field(tbl_get(es, "rev"@)) is Some
    &&& features_field(tbl_get(es, "features"@)) is Some
    &&& bool_field(tbl_get(es, "optional"@)) is Some
    &&& bool_field(tbl_get(es, "default-features"@)) is Some
}

pub open spec fn str_view(s: Option<String>) -> Option<Seq<char>> {
    match s {
        Some(v) => Some(v@),
        None => None,
    }
}

pub open spec fn features_view(f: Option<Vec<String>>) -> Option<Seq<Seq<char>>> {
    match f {
        Some(v) => Some(v@.map_values(|x: String| x@)),
        None => None,
    }
}

/// The source that a declaration table states: a git repository where it has `git`
/// (with its `branch`, else `tag`, else `rev`), else a directory where it has `path`.
pub open spec fn source_read(s: Option<Source>, es: Entries) -> bool {
    let git = str_field(tbl_get(es, "git"@)).unwrap();
    let path = str_field(tbl_get(es, "path"@)).unwrap();
    let branch = str_field(tbl_get(es, "branch"@)).unwrap();
    let tag = str_field(tbl_get(es, "tag"@)).unwrap();
    let rev = str_field(tbl_get(es, "rev"@)).unwrap();
    match git {
        Some(u) => s matches Some(Source::Git(url, r)) && url@ == u && match (branch, tag, rev) {
            (Some(b), _, _) => r matches Some(GitReference::Branch(x)) && x@ == b,
            (None, Some(t), _) => r matches Some(GitReference::Tag(x)) && x@ == t,
            (None, None, Some(v)) => r matches Some(GitReference::Rev(x)) && x@ == v,
            (None, None, None) => r is None,
        },
        None => match path {
            Some(p) => s matches Some(Source::Path(x)) && x@ == p,
            None => s is None,
        },
    }
}

proof fn lemma_get_field(d: Dependency, k: Seq<char>)
    ensures
        tbl_get(d.fields(), k) == if k == "version"@ && d.version is Some {
            str_node(d.version)
        } else if tbl_get(source_entries(d.source), k) is Some {
            tbl_get(source_entries(d.source), k)
        } else if k == "features"@ && d.features is Some {
            features_node(d.features)
        } else if k == "optional"@ && d.optional is Some {
            bool_node(d.optional)
        } else if k == "default-features"@ && d.default_features is Some {
            bool_node(d.default_features)
        } else {
            None::<Node>
        },
{
    let v = opt_entry("version"@, str_node(d.version));
    let s = source_entries(d.source);
    let f = opt_entry("features"@, features_node(d.features));
    let o = opt_entry("optional"@, bool_node(d.optional));
    let df = opt_entry("default-features"@, bool_node(d.default_features));
    lemma_get_concat(v + s + f + o, df, k);
    lemma_get_concat(v + s + f, o, k);
    lemma_get_concat(v + s, f, k);
    lemma_get_concat(v, s, k);
    lemma_get_small(v, k);
    lemma_get_small(f, k);
    lemma_get_small(o, k);
    lemma_get_small(df, k);
}

/// What the source entries hold under each key.
proof fn lemma_get_source(s: Option<Source>, k: Seq<char>)
    ensures
        tbl_get(source_entries(s), k) == match s {
            Some(Source::Path(p)) => if k == "path"@ {
                Some(Node::Str(p@))
            } else {
                None
            },
            Some(Source::Git(u, r)) => if k == "git"@ {
                Some(Node::Str(u@))
            } else {
                match r {
                    Some(GitReference::Branch(x)) => if k == "branch"@ {
                        Some(Node::Str(x@))
                    } else {
                        None
                    },
                    Some(GitReference::Tag(x)) => if k == "tag"@ {
                        Some(Node::Str(x@))
                    } else {
                        None
                    },
                    Some(GitReference::Rev(x)) => if k == "rev"@ {
                        Some(Node::Str(x@))
                    } else {
                        None
                    },
                    None => None,
                }
            },
            None => None::<Node>,
        },
{
    lemma_get_small(source_entries(s), k);
}

proof fn lemma_keys_distinct()
    ensures
        "version"@ != "path"@ && "version"@ != "git"@ && "version"@ != "branch"@ && "version"@
            != "tag"@ && "version"@ != "rev"@ && "version"@ != "features"@ && "version"@
            != "optional"@ && "version"@ != "default-features"@,
        "path"@ != "git"@ && "path"@ != "branch"@ && "path"@ != "tag"@ && "path"@ != "rev"@
            && "path"@ != "features"@ && "path"@ != "optional"@ && "path"@ != "default-features"@,
        "git"@ != "branch"@ && "git"@ != "tag"@ && "git"@ != "rev"@ && "git"@ != "features"@
            && "git"@ != "optional"@ && "git"@ != "default-features"@,
        "branch"@ != "tag"@ && "branch"@ != "rev"@ && "branch"@ != "features"@ && "branch"@
            != "optional"@ && "branch"@ != "default-features"@,
        "tag"@ != "rev"@ && "tag"@ != "features"@ && "tag"@ != "optional"@ && "tag"@
            != "default-features"@,
        "rev"@ != "features"@ && "rev"@ != "optional"@ && "rev"@ != "default-features"@,
        "features"@ != "optional"@ && "features"@ != "default-features"@,
        "optional"@ != "default-features"@,
{
    reveal_strlit("version");
    reveal_strlit("path");
    reveal_strlit("git");
    reveal_strlit("branch");
    reveal_strlit("tag");
    reveal_strlit("rev");
    reveal_strlit("features");
    reveal_strlit("optional");
    reveal_strlit("default-features");
    assert("version"@.len() == 7);
    assert("path"@.len() == 4);
    assert("git"@.len() == 3);
    assert("branch"@.len() == 6);
    assert("tag"@.len() == 3);
    assert("rev"@.len() == 3);
    assert("features"@.len() == 8);
    assert("optional"@.len() == 8);
    assert("default-features"@.len() == 16);
    assert("git"@[0] != "tag"@[0]);
    assert("git"@[0] != "rev"@[0]);
    assert("tag"@[0] != "rev"@[0]);
    assert("features"@[0] != "optional"@[0]);
}

/// Reading back what `to_toml` writes gives the declaration's own fields: a bare string
/// is its version; in a table every known field has the right type and holds what the
/// declaration sets.
pub proof fn lemma_read_written(d: Dependency)
    ensures
        match d.to_node() {
            Node::Str(v) => d.is_bare() && (d.version is Some ==> str_view(d.version) == Some(v)),
            Node::Table(es) => {
                &&& fields_valid(es)
                &&& str_field(tbl_get(es, "version"@)).unwrap() == str_view(d.version)
                &&& source_read(d.source, es)
                &&& features_field(tbl_get(es, "features"@)).unwrap() == features_view(d.features)
                &&& bool_field(tbl_get(es, "optional"@)).unwrap() == d.optional
                &&& bool_field(tbl_get(es, "default-features"@)).unwrap() == d.default_features
            },
            _ => false,
        },
{
    if !d.is_bare() {
        let es = d.fields();
        lemma_keys_distinct();
        lemma_get_field(d, "version"@);
        lemma_get_source(d.source, "version"@);
        assert(str_field(tbl_get(es, "version"@)).unwrap() == str_view(d.version));
        lemma_get_field(d, "path"@);
        lemma_get_source(d.source, "path"@);
        lemma_get_field(d, "git"@);
        lemma_get_source(d.source, "git"@);
        lemma_get_field(d, "branch"@);
        lemma_get_source(d.source, "branch"@);
        lemma_get_field(d, "tag"@);
        lemma_get_source(d.source, "tag"@);
        lemma_get_field(d, "rev"@);
        lemma_get_source(d.source, "rev"@);
        assert(source_read(d.source, es));
        lemma_get_field(d, "features"@);
        lemma_get_source(d.source, "features"@);
        if let Some(f) = d.features {
            assert(f@.map_values(|x: String| x@) =~= Seq::new(f@.len(), |i: int| Node::Str(f@[i]@)).map_values(
                |x: Node| x->Str_0,
            ));
        }
        assert(features_field(tbl_get(es, "features"@)).unwrap() == features_view(d.features));
        lemma_get_field(d, "optional"@);
        lemma_get_source(d.source, "optional"@);
        lemma_get_field(d, "default-features"@);
        lemma_get_source(d.source, "default-features"@);
    }
}

fn read_str(t: &Table, k: &str) -> (r: Option<Option<String>>)
    ensures
        match str_field(tbl_get(t.model(), k@)) {
            Some(f) => r matches Some(o) && str_view(o) == f,
            None => r is None,
        },
{
    match t.get(&k.to_owned()) {
        None => Some(None),
        Some(Value::Str(s)) => Some(Some(s.clone())),
        _ => None,
    }
}

fn read_bool(t: &Table, k: &str) -> (r: Option<Option<bool>>)
    ensures
        r == bool_field(tbl_get(t.model(), k@)),
{
    match t.get(&k.to_owned()) {
        None => Some(None),
        Some(Value::Bool(b)) => Some(Some(*b)),
        _ => None,
    }
}

fn read_features(t: &Table) -> (r: Option<Option<Vec<String>>>)
    ensures
        match features_field(tbl_get(t.model(), "features"@)) {
            Some(f) => r matches Some(o) && features_view(o) == f,
            None => r is None,
        },
{
    match t.get(&"features".to_owned()) {
        None => Some(None),
        Some(Value::Array(items)) => {
            proof {
                lemma_items_model(items@, items@.len() as int);
            }
            let ghost m = items_model(items@, items@.len() as int);
            let mut out: Vec<String> = Vec::new();
            let mut i: usize = 0;
            while i < items.len()
                invariant
                    0 <= i <= items@.len(),
                    m == items_model(items@, items@.len() as int),
                    tbl_get(t.model(), "features"@) == Some(Node::Array(m)),
                    m.len() == items@.len(),
                    forall|j: int| 0 <= j < items@.len() ==> #[trigger] m[j] == value_model(items@[j]),
                    forall|j: int| 0 <= j < i ==> m[j] is Str,
                    out@.len() == i,
                    forall|j: int| 0 <= j < i ==> #[trigger] out@[j]@ == m[j]->Str_0,
                decreases items@.len() - i,
            {
                match &items[i] {
                    Value::Str(s) => {
                        out.push(s.clone());
                    },
                    _ => {
                        assert(!(m[i as int] is Str));
                        return None;
                    },
                }
                i = i + 1;
            }
            proof {
                assert(out@.map_values(|x: String| x@) =~= m.map_values(|x: Node| x->Str_0));
            }
            Some(Some(out))
        },
        _ => None,
    }
}

/// An array of the given strings.
fn features_value(f: &Vec<String>) -> (r: Value)
    ensures
        Some(value_model(r)) == features_node(Some(*f)),
{
    let mut items: Vec<Value> = Vec::new();
    let mut i: usize = 0;
    while i < f.len()
        invariant
            0 <= i <= f@.len(),
            items@.len() == i,
            forall|j: int| 0 <= j < i ==> items@[j] == Value::Str(f@[j]),
        decreases f@.len() - i,
    {
        items.push(Value::Str(f[i].clone()));
        i = i + 1;
    }
    proof {
        lemma_items_model(items@, items@.len() as int);
        assert(items_model(items@, items@.len() as int) =~= Seq::new(
            f@.len(),
            |j: int| Node::Str(f@[j]@),
        ));
    }
    Value::Array(items)
}

} // verus!
