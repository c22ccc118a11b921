//! A listing of every dependency entry of a document, with the path that leads to it.
use vstd::prelude::*;
use crate::manifest::{copy_path, edit_at, opt_section, path_view, push_section, sections_view};
use crate::upgrade::{entry_mergeable, upgrade_step};
use crate::value::{Entries, Node, Table, Value, tbl_get};

verus! {

/// A document whose dependency entries are listed and changed one by one.
#[derive(Debug)]
pub struct Manifest {
    /// The document's root table.
    pub data: Table,
}

/// A dependency entry: its name and the path of the section that holds it.
#[derive(Debug)]
pub struct Dependency {
    /// The name of the dependency.
    pub name: String,
    /// The path of the section that holds the entry.
    pub path: Vec<String>,
}

impl Dependency {
    /// The name of the dependency.
    pub fn name(&self) -> (r: &String)
        ensures
            r@ == self.name@,
    {
        &self.name
    }

    /// The path of the section that holds the entry.
    pub fn path(&self) -> (r: &Vec<String>)
        ensures
            path_view(r@) == path_view(self.path@),
    {
        &self.path
    }
}

/// The sections named `k` of the first `n` targets of `ts`.
pub open spec fn target_kind(ts: Entries, k: Seq<char>, n: int) -> Seq<(Seq<Seq<char>>, Entries)>
    decreases n,
{
    if n <= 0 || n > ts.len() {
        Seq::empty()
    } else {
        target_kind(ts, k, n - 1) + match ts[n - 1].1 {
            Node::Table(c) => opt_section(c, seq!["target"@, ts[n - 1].0], k),
            _ => Seq::empty(),
        }
    }
}

/// The sections named `k`: the one at the root, then those of the targets.
pub open spec fn kind_sections(es: Entries, k: Seq<char>) -> Seq<(Seq<Seq<char>>, Entries)> {
    opt_section(es, Seq::empty(), k) + match tbl_get(es, "target"@) {
        Some(Node::Table(ts)) => target_kind(ts, k, ts.len() as int),
        _ => Seq::empty(),
    }
}

/// The development, then the build, then the normal sections.
pub open spec fn listed_sections(es: Entries) -> Seq<(Seq<Seq<char>>, Entries)> {
    kind_sections(es, "dev-dependencies"@) + kind_sections(es, "build-dependencies"@)
        + kind_sections(es, "dependencies"@)
}

/// The first `n` entries of the section `es` at `path`, each as (section path, name).
pub open spec fn entry_list(path: Seq<Seq<char>>, es: Entries, n: int) -> Seq<
    (Seq<Seq<char>>, Seq<char>),
>
    decreases n,
{
    if n <= 0 || n > es.len() {
        Seq::empty()
    } else {
        entry_list(path, es, n - 1).push((path, es[n - 1].0))
    }
}

/// The entries of the first `n` sections of `secs`.
pub open spec fn entries_of(secs: Seq<(Seq<Seq<char>>, Entries)>, n: int) -> Seq<
    (Seq<Seq<char>>, Seq<char>),
>
    decreases n,
{
    if n <= 0 || n > secs.len() {
        Seq::empty()
    } else {
        entries_of(secs, n - 1) + entry_list(secs[n - 1].0, secs[n - 1].1, secs[n - 1].1.len() as int)
    }
}

/// Every dependency entry of the document, section by section.
pub open spec fn all_deps(es: Entries) -> Seq<(Seq<Seq<char>>, Seq<char>)> {
    entries_of(listed_sections(es), listed_sections(es).len() as int)
}

fn kind_list<'a>(t: &'a Table, k: &str) -> (r: Vec<(Vec<String>, &'a Table)>)
    ensures
        sections_view(r@) == kind_sections(t.model(), k@),
{
    let mut out: Vec<(Vec<String>, &Table)> = Vec::new();
    let root: Vec<String> = Vec::new();
    proof {
        assert(path_view(root@) =~= Seq::<Seq<char>>::empty());
        assert(sections_view(out@) =~= Seq::<(Seq<Seq<char>>, Entries)>::empty());
    }
    push_section(&mut out, t, &root, k);
    let target = "target".to_owned();
    match t.get(&target) {
        Some(Value::Table(ts)) => {
            let ghost base = sections_view(out@);
            let mut j: usize = 0;
            proof {
                ts.lemma_model();
                assert(base + target_kind(ts.model(), k@, 0) =~= base);
            }
            while j < ts.entries.len()
                invariant
                    0 <= j <= ts.entries@.len(),
                    target@ == "target"@,
                    ts.model().len() == ts.entries@.len(),
                    sections_view(out@) == base + target_kind(ts.model(), k@, j as int),
                decreases ts.entries@.len() - j,
            {
                proof {
                    ts.lemma_model();
                }
                let e = &ts.entries[j];
                match &e.1 {
                    Value::Table(c) => {
                        let mut prefix: Vec<String> = Vec::new();
                        prefix.push(target.clone());
                        prefix.push(e.0.clone());
                        proof {
                            assert(prefix@[0]@ == "target"@);
                            assert(prefix@[1]@ == e.0@);
                            assert(path_view(prefix@) =~= seq!["target"@, e.0@]);
                        }
                        push_section(&mut out, c, &prefix, k);
                    },
                    _ => {},
                }
                proof {
                    assert(sections_view(out@) =~= base + target_kind(ts.model(), k@, j + 1));
                }
                j = j + 1;
            }
        },
        _ => {},
    }
    proof {
        assert(sections_view(out@) =~= kind_sections(t.model(), k@));
    }
    out
}

pub open spec fn deps_view(v: Seq<Dependency>) -> Seq<(Seq<Seq<char>>, Seq<char>)> {
    Seq::new(v.len(), |i: int| (path_view(v[i].path@), v[i].name@))
}

fn push_entries(out: &mut Vec<Dependency>, secs: &Vec<(Vec<String>, &Table)>)
    ensures
        deps_view(final(out)@) == deps_view(old(out)@) + entries_of(
            sections_view(secs@),
            secs@.len() as int,
        ),
{
    let ghost start = deps_view(out@);
    let ghost sv = sections_view(secs@);
    let mut i: usize = 0;
    proof {
        assert(start + entries_of(sv, 0) =~= start);
    }
    while i < secs.len()
        invariant
            0 <= i <= secs@.len(),
            sv == sections_view(secs@),
            sv.len() == secs@.len(),
            deps_view(out@) == start + entries_of(sv, i as int),
        decreases secs@.len() - i,
    {
        let (path, t) = &secs[i];
        let ghost base = deps_view(out@);
        let ghost es = t.model();
        let mut j: usize = 0;
        proof {
            t.lemma_model();
            assert(sv[i as int] == (path_view(path@), es));
            assert(base + entry_list(path_view(path@), es, 0) =~= base);
        }
        while j < t.entries.len()
            invariant
                0 <= j <= t.entries@.len(),
                es == t.model(),
                es.len() == t.entries@.len(),
                deps_view(out@) == base + entry_list(path_view(path@), es, j as int),
            decreases t.entries@.len() - j,
        {
            proof {
                t.lemma_model();
            }
            let ghost before = deps_view(out@);
            let p = copy_path(path);
            out.push(Dependency { name: t.entries[j].0.clone(), path: p });
            proof {
                assert(deps_view(out@) =~= before.push((path_view(path@), es[j as int].0)));
                assert(deps_view(out@) =~= base + entry_list(path_view(path@), es, j + 1));
            }
            j = j + 1;
        }
        proof {
            assert(deps_view(out@) =~= start + entries_of(sv, i + 1));
        }
        i = i + 1;
    }
}

impl Manifest {
    pub open spec fn model(&self) -> Entries {
        self.data.model()
    }

    /// A manifest over the given document.
    pub fn open(data: Table) -> (r: Manifest)
        ensures
            r.model() == data.model(),
    {
        Manifest { data }
    }

    /// Every dependency entry: those of the development sections, then of the build
    /// sections, then of the normal sections; for each kind the root section first, then
    /// the targets' sections in order.
    pub fn get_all_deps(&self) -> (r: Vec<Dependency>)
        ensures
            deps_view(r@) == all_deps(self.model()),
    {
        let mut out: Vec<Dependency> = Vec::new();
        let dev = kind_list(&self.data, "dev-dependencies");
        let build = kind_list(&self.data, "build-dependencies");
        let normal = kind_list(&self.data, "dependencies");
        proof {
            assert(deps_view(out@) =~= Seq::<(Seq<Seq<char>>, Seq<char>)>::empty());
        }
        push_entries(&mut out, &dev);
        push_entries(&mut out, &build);
        push_entries(&mut out, &normal);
        proof {
            lemma_entries_concat(sections_view(dev@), sections_view(build@));
            lemma_entries_concat(
                sections_view(dev@) + sections_view(build@),
                sections_view(normal@),
            );
            assert(sections_view(dev@) + sections_view(build@) + sections_view(normal@)
                == listed_sections(self.model()));
            assert(deps_view(out@) =~= all_deps(self.model()));
        }
        out
    }

    /// Gives the entry of `dependency` the version `version`, merged as a bare version
    /// requirement: the rest of a table entry stays. Nothing changes where the entry is
    /// gone, or where it is neither a string nor a table.
    pub fn set_dep_version(&mut self, dependency: Dependency, version: String)
        ensures
            final(self).model() == upgrade_step(
                old(self).model(),
                dependency.path@,
                dependency.name@,
                version@,
            ),
    {
        let dep = crate::dependency::Dependency {
            name: dependency.name,
            version: Some(version),
            source: None,
            features: None,
            optional: None,
            default_features: None,
        };
        let path = dependency.path;
        if entry_mergeable(&self.data, path.as_slice(), 0, &dep.name) {
            let _ = edit_at(&mut self.data, path.as_slice(), 0, &dep, false);
        }
    }
}

proof fn lemma_entries_concat(a: Seq<(Seq<Seq<char>>, Entries)>, b: Seq<(Seq<Seq<char>>, Entries)>)
    ensures
        entries_of(a + b, (a + b).len() as int) == entries_of(a, a.len() as int) + entries_of(
            b,
            b.len() as int,
        ),
    decreases b.len(),
{
    if b.len() == 0 {
        assert(a + b =~= a);
        assert(entries_of(a, a.len() as int) + entries_of(b, 0) =~= entries_of(a, a.len() as int));
    } else {
        let b1 = b.drop_last();
        lemma_entries_concat(a, b1);
        assert((a + b).drop_last() =~= a + b1);
        lemma_entries_prefix(a + b, (a + b).len() - 1);
        lemma_entries_prefix(b, b.len() - 1);
        assert((a + b).last() == b.last());
    }
}

proof fn lemma_entries_prefix(s: Seq<(Seq<Seq<char>>, Entries)>, n: int)
    requires
        0 <= n <= s.len(),
    ensures
        entries_of(s, n) == entries_of(s.subrange(0, n), n),
    decreases n,
{
    if n > 0 {
        lemma_entries_prefix(s, n - 1);
        lemma_entries_prefix(s.subrange(0, n), n - 1);
        assert(s.subrange(0, n).subrange(0, n - 1) =~= s.subrange(0, n - 1));
    }
}

} // verus!
