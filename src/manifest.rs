//! A manifest document and the edits made to its dependency sections.
use vstd::prelude::*;
use crate::dependency::Dependency;
use crate::errors::ManifestError;
use crate::merge::{merge_dependencies, merge_model, mergeable};
use crate::value::{
    Entries, Node, Table, Value, is_first, key_pos, lemma_get_set, lemma_push_new, lemma_same_keys,
    tbl_get, tbl_remove, tbl_set, unique_keys, value_model, lemma_unique_kept,
};

verus! {

/// A manifest: the root table of the document.
#[derive(Debug, PartialEq)]
pub struct Manifest {
    /// The document's root table.
    pub data: Table,
}

impl Clone for Manifest {
    fn clone(&self) -> (r: Manifest)
        ensures
            r.data.model() == self.data.model(),
    {
        Manifest { data: self.data.deep_copy() }
    }
}

/// A file that a manifest search looks for.
#[derive(Clone, Copy, Debug, PartialEq, Eq, Structural)]
pub enum CargoFile {
    Config,
    Lock,
}

impl CargoFile {
    /// The file's name.
    pub fn name(&self) -> (r: &'static str)
        ensures
            r@ == match self {
                CargoFile::Config => "Cargo.toml"@,
                CargoFile::Lock => "Cargo.lock"@,
            },
    {
        match self {
            CargoFile::Config => "Cargo.toml",
            CargoFile::Lock => "Cargo.lock",
        }
    }
}

/// The table under key `k`, or no entries where there is none.
pub open spec fn child(es: Entries, k: Seq<char>) -> Entries {
    match tbl_get(es, k) {
        Some(Node::Table(c)) => c,
        _ => Seq::empty(),
    }
}

/// The first segment of `path`, from position `d` on, that holds something other than
/// a table.
pub open spec fn conflict(es: Entries, path: Seq<String>, d: int) -> Option<Seq<char>>
    decreases path.len() - d,
{
    if d < 0 || d >= path.len() {
        None
    } else {
        match tbl_get(es, path[d]@) {
            Some(Node::Table(c)) => conflict(c, path, d + 1),
            Some(_) => Some(path[d]@),
            None => None,
        }
    }
}

/// The table that `path`, from position `d` on, leads to; no entries where it leads
/// nowhere.
pub open spec fn section(es: Entries, path: Seq<String>, d: int) -> Entries
    decreases path.len() - d,
{
    if d < 0 || d >= path.len() {
        es
    } else {
        section(child(es, path[d]@), path, d + 1)
    }
}

/// `es` with the table at `path` (from position `d` on) replaced by `sec`, the tables on
/// the way created where missing.
pub open spec fn with_section(es: Entries, path: Seq<String>, d: int, sec: Entries) -> Entries
    decreases path.len() - d,
{
    if d < 0 || d >= path.len() {
        sec
    } else {
        tbl_set(
            es,
            path[d]@,
            Node::Table(with_section(child(es, path[d]@), path, d + 1, sec)),
        )
    }
}

/// The section `sec` with the declaration `new` of `name` put in: merged into the old
/// entry where there is one, appended where not.
pub open spec fn placed(sec: Entries, name: Seq<char>, new: Node) -> Entries {
    match tbl_get(sec, name) {
        Some(o) => tbl_set(sec, name, merge_model(o, new)),
        None => tbl_set(sec, name, new),
    }
}

/// The entry of `name` at `path` can be merged into, or there is none.
pub open spec fn entry_ok(es: Entries, path: Seq<String>, d: int, name: Seq<char>) -> bool {
    match tbl_get(section(es, path, d), name) {
        Some(o) => mergeable(o),
        None => true,
    }
}

/// The document after putting `new` in as `name` at `path`: always where `create` holds,
/// else only where the entry exists already.
pub open spec fn edited(
    es: Entries,
    path: Seq<String>,
    d: int,
    name: Seq<char>,
    new: Node,
    create: bool,
) -> Entries {
    if create || tbl_get(section(es, path, d), name).is_some() {
        with_section(es, path, d, placed(section(es, path, d), name, new))
    } else {
        es
    }
}

pub(crate) proof fn lemma_empty_path(path: Seq<String>, d: int)
    ensures
        conflict(Seq::empty(), path, d).is_none(),
        section(Seq::empty(), path, d) == Seq::<(Seq<char>, Node)>::empty(),
    decreases path.len() - d,
{
    if 0 <= d < path.len() {
        let e = Seq::<(Seq<char>, Node)>::empty();
        assert(key_pos(e, path[d]@) == -1);
        lemma_empty_path(path, d + 1);
    }
}

/// The document after removing `name` from the section `table`; a section left empty is
/// removed as well.
pub open spec fn after_remove(es: Entries, table: Seq<char>, name: Seq<char>) -> Entries {
    let rest = tbl_remove(child(es, table), name);
    if rest.len() == 0 {
        tbl_remove(es, table)
    } else {
        tbl_set(es, table, Node::Table(rest))
    }
}

/// The section that `with_section` puts in is found at its path.
pub proof fn lemma_section_with(es: Entries, path: Seq<String>, d: int, sec: Entries)
    requires
        0 <= d <= path.len(),
    ensures
        section(with_section(es, path, d, sec), path, d) == sec,
        conflict(with_section(es, path, d, sec), path, d).is_none(),
    decreases path.len() - d,
{
    if d < path.len() {
        let inner = with_section(child(es, path[d]@), path, d + 1, sec);
        lemma_get_set(es, path[d]@, Node::Table(inner), path[d]@);
        lemma_section_with(child(es, path[d]@), path, d + 1, sec);
    }
}

/// Every declaration is written as a string or a table, and so is every merge of one.
pub proof fn lemma_written_mergeable(old: Node, dep: Dependency)
    requires
        mergeable(old),
    ensures
        mergeable(dep.to_node()),
        mergeable(merge_model(old, dep.to_node())),
{
}

/// Putting in one declaration keeps every entry of the section mergeable.
pub proof fn lemma_entry_ok_kept(es: Entries, path: Seq<String>, dep: Dependency, m: Seq<char>)
    requires
        entry_ok(es, path, 0, dep.name@),
        entry_ok(es, path, 0, m),
    ensures
        entry_ok(edited(es, path, 0, dep.name@, dep.to_node(), true), path, 0, m),
        conflict(edited(es, path, 0, dep.name@, dep.to_node(), true), path, 0).is_none(),
{
    let sec = section(es, path, 0);
    let new_sec = placed(sec, dep.name@, dep.to_node());
    lemma_section_with(es, path, 0, new_sec);
    match tbl_get(sec, dep.name@) {
        Some(o) => {
            lemma_written_mergeable(o, dep);
            lemma_get_set(sec, dep.name@, merge_model(o, dep.to_node()), m);
        },
        None => {
            lemma_get_set(sec, dep.name@, dep.to_node(), m);
        },
    }
}

/// The document after putting in the first `n` declarations of `deps`, one by one.
pub open spec fn inserted_all(es: Entries, path: Seq<String>, deps: Seq<Dependency>, n: int) -> Entries
    decreases n,
{
    if n <= 0 || n > deps.len() {
        es
    } else {
        let prev = inserted_all(es, path, deps, n - 1);
        edited(prev, path, 0, deps[n - 1].name@, deps[n - 1].to_node(), true)
    }
}

/// Putting in a declaration keeps the document's keys unique.
pub proof fn lemma_edited_unique(
    es: Entries,
    path: Seq<String>,
    name: Seq<char>,
    new: Node,
    create: bool,
)
    requires
        unique_keys(es),
    ensures
        unique_keys(edited(es, path, 0, name, new, create)),
{
    let sec = section(es, path, 0);
    if path.len() == 0 {
        match tbl_get(sec, name) {
            Some(o) => lemma_unique_kept(es, name, merge_model(o, new)),
            None => lemma_unique_kept(es, name, new),
        }
    } else {
        let inner = with_section(child(es, path[0]@), path, 1, placed(sec, name, new));
        lemma_unique_kept(es, path[0]@, Node::Table(inner));
    }
}

/// Putting a declaration into a section (an existing non-empty one, or a new one) under a
/// name that the section does not hold, and then removing that name, gives back the
/// document as it was.
pub proof fn lemma_insert_then_remove(es: Entries, table: String, dep: Dependency)
    requires
        match tbl_get(es, table@) {
            None => true,
            Some(Node::Table(sec)) => sec.len() > 0 && tbl_get(sec, dep.name@).is_none(),
            Some(_) => false,
        },
    ensures
        ({
            let after = edited(es, seq![table], 0, dep.name@, dep.to_node(), true);
            &&& conflict(es, seq![table], 0).is_none()
            &&& tbl_get(after, table@) matches Some(Node::Table(sec)) && tbl_get(
                sec,
                dep.name@,
            ).is_some()
            &&& after_remove(after, table@, dep.name@) == es
        }),
{
    let path = seq![table];
    let name = dep.name@;
    let new = dep.to_node();
    let sec = child(es, table@);
    assert(path.len() == 1 && path[0] == table);
    assert(section(sec, path, 1) == sec);
    assert(section(es, path, 0) == sec);
    assert(tbl_get(sec, name).is_none()) by {
        if tbl_get(es, table@).is_none() {
            assert(key_pos(sec, name) == -1);
        }
    }
    let s = sec.push((name, new));
    lemma_push_new(sec, (name, new), name);
    assert(placed(sec, name, new) == s);
    let after = tbl_set(es, table@, Node::Table(s));
    assert(with_section(child(es, table@), path, 1, s) == s);
    assert(with_section(es, path, 0, s) == after);
    lemma_get_set(es, table@, Node::Table(s), table@);
    assert(child(after, table@) == s);
    assert(tbl_remove(s, name) =~= sec);
    assert(edited(es, path, 0, name, new, true) == after);
    assert(tbl_get(s, name).is_some());
    if let Some(Node::Table(c)) = tbl_get(es, table@) {
        assert(conflict(c, path, 1).is_none());
    }
    assert(conflict(es, path, 0).is_none());
    let p = key_pos(es, table@);
    if p >= 0 {
        assert(is_first(es, table@, p));
        lemma_same_keys(es, after, table@);
        assert(tbl_set(after, table@, Node::Table(sec)) =~= es);
    } else {
        lemma_push_new(es, (table@, Node::Table(s)), table@);
        assert(tbl_remove(after, table@) =~= es);
    }
}

/// The path of segments, as strings.
pub open spec fn path_view(p: Seq<String>) -> Seq<Seq<char>> {
    p.map_values(|s: String| s@)
}

/// The section named `k` of `es`, listed under its path, where `es` holds it as a table.
pub open spec fn opt_section(es: Entries, prefix: Seq<Seq<char>>, k: Seq<char>) -> Seq<
    (Seq<Seq<char>>, Entries),
> {
    match tbl_get(es, k) {
        Some(Node::Table(s)) => seq![(prefix.push(k), s)],
        _ => Seq::empty(),
    }
}

/// The normal, development and build sections of `es`, in that order.
pub open spec fn section_list(es: Entries, prefix: Seq<Seq<char>>) -> Seq<
    (Seq<Seq<char>>, Entries),
> {
    opt_section(es, prefix, "dependencies"@) + opt_section(es, prefix, "dev-dependencies"@)
        + opt_section(es, prefix, "build-dependencies"@)
}

/// The sections of the first `n` targets of the target table `ts`.
pub open spec fn target_sections(ts: Entries, n: int) -> Seq<(Seq<Seq<char>>, Entries)>
    decreases n,
{
    if n <= 0 || n > ts.len() {
        Seq::empty()
    } else {
        target_sections(ts, n - 1) + match ts[n - 1].1 {
            Node::Table(c) => section_list(c, seq!["target"@, ts[n - 1].0]),
            _ => Seq::empty(),
        }
    }
}

/// Every dependency section of the document: those at the root, then those of each
/// target under `target`, in the order of the targets.
pub open spec fn all_sections(es: Entries) -> Seq<(Seq<Seq<char>>, Entries)> {
    section_list(es, Seq::empty()) + match tbl_get(es, "target"@) {
        Some(Node::Table(ts)) => target_sections(ts, ts.len() as int),
        _ => Seq::empty(),
    }
}

/// The model of a list of sections.
pub open spec fn sections_view(v: Seq<(Vec<String>, &Table)>) -> Seq<(Seq<Seq<char>>, Entries)> {
    Seq::new(v.len(), |i: int| (path_view(v[i].0@), v[i].1.model()))
}

proof fn lemma_target_listed(ts: Entries, n: int, j: int, s: Entries)
    requires
        0 <= j < n <= ts.len(),
        ts[j].1 matches Node::Table(c) && tbl_get(c, "dependencies"@) == Some(Node::Table(s)),
    ensures
        target_sections(ts, n).contains((seq!["target"@, ts[j].0, "dependencies"@], s)),
    decreases n,
{
    let e = (seq!["target"@, ts[j].0, "dependencies"@], s);
    let prev = target_sections(ts, n - 1);
    if j < n - 1 {
        lemma_target_listed(ts, n - 1, j, s);
        let i = choose|i: int| 0 <= i < prev.len() && prev[i] == e;
        assert(target_sections(ts, n)[i] == e);
    } else {
        let c = ts[j].1->Table_0;
        let list = section_list(c, seq!["target"@, ts[j].0]);
        assert(seq!["target"@, ts[j].0].push("dependencies"@) =~= seq![
            "target"@,
            ts[j].0,
            "dependencies"@,
        ]);
        assert(list[0] == e);
        assert(target_sections(ts, n)[prev.len() as int] == e);
    }
}

/// Each target's normal section is listed by the enumeration, under the path
/// `target.<target>.dependencies`.
pub proof fn lemma_target_section_listed(es: Entries, ts: Entries, j: int, s: Entries)
    requires
        tbl_get(es, "target"@) == Some(Node::Table(ts)),
        0 <= j < ts.len(),
        ts[j].1 matches Node::Table(c) && tbl_get(c, "dependencies"@) == Some(Node::Table(s)),
    ensures
        all_sections(es).contains((seq!["target"@, ts[j].0, "dependencies"@], s)),
{
    let e = (seq!["target"@, ts[j].0, "dependencies"@], s);
    lemma_target_listed(ts, ts.len() as int, j, s);
    let t = target_sections(ts, ts.len() as int);
    let i = choose|i: int| 0 <= i < t.len() && t[i] == e;
    let root = section_list(es, Seq::empty());
    assert(all_sections(es)[root.len() + i] == e);
}

/// The name of the header table: `package`, else `project`.
pub open spec fn header_key(es: Entries) -> Option<Seq<char>> {
    if tbl_get(es, "package"@).is_some() {
        Some("package"@)
    } else if tbl_get(es, "project"@).is_some() {
        Some("project"@)
    } else {
        None
    }
}

/// A document whose header table comes first is the header followed by the rest, as
/// `header_first` splits it: writing the header and then the rest gives the document back.
pub proof fn lemma_header_first_round_trip(es: Entries)
    requires
        es.len() > 0,
        header_key(es) == Some(es[0].0),
    ensures
        ({
            let h = es[0].0;
            seq![(h, tbl_get(es, h).unwrap())] + tbl_remove(es, h) == es
        }),
{
    let h = es[0].0;
    assert(is_first(es, h, 0));
    crate::value::lemma_first_unique(es, h, 0);
    assert(seq![(h, tbl_get(es, h).unwrap())] + tbl_remove(es, h) =~= es);
}

/// A copy of a path.
pub(crate) fn copy_path(p: &Vec<String>) -> (r: Vec<String>)
    ensures
        path_view(r@) == path_view(p@),
{
    let mut r: Vec<String> = Vec::new();
    let mut i: usize = 0;
    while i < p.len()
        invariant
            0 <= i <= p@.len(),
            path_view(r@) == path_view(p@.subrange(0, i as int)),
        decreases p@.len() - i,
    {
        r.push(p[i].clone());
        proof {
            assert(path_view(p@.subrange(0, i + 1)) =~= path_view(p@.subrange(0, i as int)).push(
                p@[i as int]@,
            ));
        }
        i = i + 1;
    }
    proof {
        assert(p@.subrange(0, p@.len() as int) =~= p@);
    }
    r
}

/// A copy of `prefix` with `k` appended.
fn extend_path(prefix: &Vec<String>, k: &String) -> (r: Vec<String>)
    ensures
        path_view(r@) == path_view(prefix@).push(k@),
{
    let mut r = copy_path(prefix);
    let ghost before = r@;
    r.push(k.clone());
    proof {
        assert(path_view(r@) =~= path_view(before).push(k@));
    }
    r
}

pub(crate) fn push_section<'a>(
    out: &mut Vec<(Vec<String>, &'a Table)>,
    t: &'a Table,
    prefix: &Vec<String>,
    k: &str,
)
    ensures
        sections_view(final(out)@) == sections_view(old(out)@) + opt_section(
            t.model(),
            path_view(prefix@),
            k@,
        ),
{
    let key = k.to_owned();
    let ghost before = sections_view(out@);
    match t.get(&key) {
        Some(Value::Table(s)) => {
            let p = extend_path(prefix, &key);
            out.push((p, s));
        },
        _ => {},
    }
    proof {
        assert(sections_view(out@) =~= before + opt_section(t.model(), path_view(prefix@), k@));
    }
}

fn push_sections<'a>(out: &mut Vec<(Vec<String>, &'a Table)>, t: &'a Table, prefix: &Vec<String>)
    ensures
        sections_view(final(out)@) == sections_view(old(out)@) + section_list(
            t.model(),
            path_view(prefix@),
        ),
{
    let ghost before = sections_view(out@);
    push_section(out, t, prefix, "dependencies");
    push_section(out, t, prefix, "dev-dependencies");
    push_section(out, t, prefix, "build-dependencies");
    proof {
        let pv = path_view(prefix@);
        assert(sections_view(out@) =~= before + section_list(t.model(), pv));
    }
}

pub(crate) fn edit_at(t: &mut Table, path: &[String], d: usize, dep: &Dependency, create: bool) -> (r: Result<
    (),
    String,
>)
    requires
        d <= path@.len(),
        entry_ok(old(t).model(), path@, d as int, dep.name@),
    ensures
        match conflict(old(t).model(), path@, d as int) {
            Some(s) => r matches Err(e) && e@ == s && final(t).model() == old(t).model(),
            None => r is Ok && final(t).model() == edited(
                old(t).model(),
                path@,
                d as int,
                dep.name@,
                dep.to_node(),
                create,
            ),
        },
    decreases path@.len() - d,
{
    let ghost es = t.model();
    if d == path.len() {
        match t.position(&dep.name) {
            Some(i) => {
                let (k, old_value) = t.take_at(i);
                let merged = merge_dependencies(old_value, dep);
                t.put_at(i, k, merged);
                proof {
                    assert(t.model() =~= tbl_set(
                        es,
                        dep.name@,
                        merge_model(es[i as int].1, dep.to_node()),
                    ));
                }
            },
            None => {
                if create {
                    let (k, v) = dep.to_toml();
                    t.append_entry(k, v);
                }
            },
        }
        Ok(())
    } else {
        let seg = &path[d];
        match t.position(seg) {
            None => {
                proof {
                    lemma_empty_path(path@, d as int + 1);
                    assert(child(es, seg@) == Seq::<(Seq<char>, Node)>::empty());
                }
                if create {
                    let mut c = Table::new();
                    let _ = edit_at(&mut c, path, d + 1, dep, create);
                    t.append_entry(seg.clone(), Value::Table(c));
                }
                Ok(())
            },
            Some(i) => {
                let (k, v) = t.take_at(i);
                match v {
                    Value::Table(c) => {
                        let mut c = c;
                        let r = edit_at(&mut c, path, d + 1, dep, create);
                        t.put_at(i, k, Value::Table(c));
                        proof {
                            assert(t.model() =~= tbl_set(es, seg@, Node::Table(c.model())));
                            if !create && tbl_get(section(es, path@, d as int), dep.name@).is_none() {
                                assert(es.update(i as int, es[i as int]) =~= es);
                            }
                        }
                        r
                    },
                    other => {
                        t.put_at(i, k, other);
                        proof {
                            assert(t.model() =~= es);
                        }
                        Err(seg.clone())
                    },
                }
            },
        }
    }
}

impl Manifest {
    /// Puts `dep` into the table at `table_path`, creating the tables on the way: merged
    /// into the old entry of its name where there is one, appended where not.
    pub fn insert_into_table(&mut self, table_path: &[String], dep: &Dependency) -> (r: Result<
        (),
        ManifestError,
    >)
        requires
            entry_ok(old(self).data.model(), table_path@, 0, dep.name@),
        ensures
            match conflict(old(self).data.model(), table_path@, 0) {
                Some(s) => r matches Err(ManifestError::PathConflict(e)) && e@ == s
                    && final(self).data.model() == old(self).data.model(),
                None => r is Ok && final(self).data.model() == edited(
                    old(self).data.model(),
                    table_path@,
                    0,
                    dep.name@,
                    dep.to_node(),
                    true,
                ),
            },
            old(self).data.wf() ==> final(self).data.wf(),
    {
        proof {
            if self.data.wf() {
                lemma_edited_unique(self.data.model(), table_path@, dep.name@, dep.to_node(), true);
            }
        }
        match edit_at(&mut self.data, table_path, 0, dep, true) {
            Ok(()) => Ok(()),
            Err(s) => Err(ManifestError::PathConflict(s)),
        }
    }

    /// Merges `dep` into the entry of its name in the table at `table_path`, if (and only
    /// if) there is one: nothing is created.
    pub fn update_table_entry(&mut self, table_path: &[String], dep: &Dependency) -> (r: Result<
        (),
        ManifestError,
    >)
        requires
            entry_ok(old(self).data.model(), table_path@, 0, dep.name@),
        ensures
            match conflict(old(self).data.model(), table_path@, 0) {
                Some(s) => r matches Err(ManifestError::PathConflict(e)) && e@ == s
                    && final(self).data.model() == old(self).data.model(),
                None => r is Ok && final(self).data.model() == edited(
                    old(self).data.model(),
                    table_path@,
                    0,
                    dep.name@,
                    dep.to_node(),
                    false,
                ),
            },
            old(self).data.wf() ==> final(self).data.wf(),
    {
        proof {
            if self.data.wf() {
                lemma_edited_unique(self.data.model(), table_path@, dep.name@, dep.to_node(), false);
            }
        }
        match edit_at(&mut self.data, table_path, 0, dep, false) {
            Ok(()) => Ok(()),
            Err(s) => Err(ManifestError::PathConflict(s)),
        }
    }

    /// Removes the entry `name` from the section `table`. A section that this leaves empty
    /// is removed too.
    pub fn remove_from_table(&mut self, table: &str, name: &str) -> (r: Result<(), ManifestError>)
        ensures
            match tbl_get(old(self).data.model(), table@) {
                Some(Node::Table(sec)) => if tbl_get(sec, name@).is_some() {
                    r is Ok && final(self).data.model() == after_remove(
                        old(self).data.model(),
                        table@,
                        name@,
                    )
                } else {
                    r matches Err(ManifestError::NonExistentDependency(n, t)) && n@ == name@ && t@
                        == table@ && final(self).data.model() == old(self).data.model()
                },
                _ => r matches Err(ManifestError::NonExistentTable(t)) && t@ == table@
                    && final(self).data.model() == old(self).data.model(),
            },
            old(self).data.wf() ==> final(self).data.wf(),
    {
        proof {
            if self.data.wf() {
                let es = self.data.model();
                let rest = tbl_remove(child(es, table@), name@);
                lemma_unique_kept(es, table@, Node::Table(rest));
            }
        }
        let key = table.to_owned();
        let dep_name = name.to_owned();
        let ghost es = self.data.model();
        match self.data.position(&key) {
            None => Err(ManifestError::NonExistentTable(key)),
            Some(i) => {
                let (k, v) = self.data.take_at(i);
                match v {
                    Value::Table(sec) => {
                        let mut sec = sec;
                        match sec.remove(&dep_name) {
                            None => {
                                self.data.put_at(i, k, Value::Table(sec));
                                proof {
                                    assert(self.data.model() =~= es);
                                }
                                Err(ManifestError::NonExistentDependency(dep_name, key))
                            },
                            Some(_) => {
                                if sec.len() > 0 {
                                    self.data.put_at(i, k, Value::Table(sec));
                                    proof {
                                        assert(self.data.model() =~= after_remove(
                                            es,
                                            table@,
                                            name@,
                                        ));
                                    }
                                }
                                Ok(())
                            },
                        }
                    },
                    other => {
                        self.data.put_at(i, k, other);
                        proof {
                            assert(self.data.model() =~= es);
                        }
                        Err(ManifestError::NonExistentTable(key))
                    },
                }
            },
        }
    }

    /// Every dependency section with its path: the normal, development and build sections
    /// at the root, then the same three of each target under `target`.
    pub fn get_sections(&self) -> (r: Vec<(Vec<String>, &Table)>)
        ensures
            sections_view(r@) == all_sections(self.data.model()),
    {
        let mut out: Vec<(Vec<String>, &Table)> = Vec::new();
        let root: Vec<String> = Vec::new();
        proof {
            assert(path_view(root@) =~= Seq::<Seq<char>>::empty());
            assert(sections_view(out@) =~= Seq::<(Seq<Seq<char>>, Entries)>::empty());
        }
        push_sections(&mut out, &self.data, &root);
        let target = "target".to_owned();
        match self.data.get(&target) {
            Some(Value::Table(ts)) => {
                let ghost base = sections_view(out@);
                let mut j: usize = 0;
                proof {
                    ts.lemma_model();
                    assert(base + target_sections(ts.model(), 0) =~= base);
                }
                while j < ts.entries.len()
                    invariant
                        0 <= j <= ts.entries@.len(),
                        target@ == "target"@,
                        ts.model().len() == ts.entries@.len(),
                        sections_view(out@) == base + target_sections(ts.model(), j as int),
                    decreases ts.entries@.len() - j,
                {
                    proof {
                        ts.lemma_model();
                    }
                    let ghost mid = sections_view(out@);
                    let e = &ts.entries[j];
                    match &e.1 {
                        Value::Table(c) => {
                            let mut prefix: Vec<String> = Vec::new();
                            prefix.push(target.clone());
                            prefix.push(e.0.clone());
                            proof {
                                assert(prefix@[0]@ == "target"@);
                                assert(prefix@[1]@ == e.0@);
                                assert(path_view(prefix@) =~= seq!["target"@, e.0@]);
                            }
                            push_sections(&mut out, c, &prefix);
                        },
                        _ => {},
                    }
                    proof {
                        assert(sections_view(out@) =~= base + target_sections(
                            ts.model(),
                            j + 1,
                        ));
                    }
                    j = j + 1;
                }
            },
            _ => {},
        }
        proof {
            assert(sections_view(out@) =~= all_sections(self.data.model()));
        }
        out
    }

    /// Takes the header table out of the document: the table `package`, or where there is
    /// none the table `project`. Gives its name, its value, and the rest of the document in
    /// its order; a document without either fails with `MissingManifest`.
    pub fn header_first(self) -> (r: Result<(String, Value, Table), ManifestError>)
        ensures
            match header_key(self.data.model()) {
                Some(h) => r matches Ok((name, v, rest)) && name@ == h && tbl_get(
                    self.data.model(),
                    h,
                ) == Some(value_model(v)) && rest.model() == tbl_remove(self.data.model(), h),
                None => r == Err::<(String, Value, Table), ManifestError>(
                    ManifestError::MissingManifest,
                ),
            },
    {
        let mut data = self.data;
        let package = "package".to_owned();
        match data.remove(&package) {
            Some(v) => Ok((package, v, data)),
            None => {
                let project = "project".to_owned();
                match data.remove(&project) {
                    Some(v) => Ok((project, v, data)),
                    None => Err(ManifestError::MissingManifest),
                }
            },
        }
    }

    /// Puts each of `deps` into the table at `table_path`, in order, as
    /// `insert_into_table` does.
    pub fn add_deps(&mut self, table_path: &[String], deps: &[Dependency]) -> (r: Result<
        (),
        ManifestError,
    >)
        requires
            forall|i: int|
                0 <= i < deps@.len() ==> entry_ok(
                    old(self).data.model(),
                    table_path@,
                    0,
                    #[trigger] deps@[i].name@,
                ),
        ensures
            match conflict(old(self).data.model(), table_path@, 0) {
                Some(s) => if deps@.len() == 0 {
                    r is Ok && final(self).data.model() == old(self).data.model()
                } else {
                    r matches Err(ManifestError::PathConflict(e)) && e@ == s
                        && final(self).data.model() == old(self).data.model()
                },
                None => r is Ok && final(self).data.model() == inserted_all(
                    old(self).data.model(),
                    table_path@,
                    deps@,
                    deps@.len() as int,
                ),
            },
            old(self).data.wf() ==> final(self).data.wf(),
    {
        let ghost es0 = self.data.model();
        let mut i: usize = 0;
        while i < deps.len()
            invariant
                0 <= i <= deps@.len(),
                es0 == old(self).data.model(),
                old(self).data.wf() ==> self.data.wf(),
                i > 0 ==> conflict(es0, table_path@, 0).is_none(),
                i > 0 ==> conflict(self.data.model(), table_path@, 0).is_none(),
                self.data.model() == inserted_all(es0, table_path@, deps@, i as int),
                forall|j: int|
                    0 <= j < deps@.len() ==> entry_ok(
                        self.data.model(),
                        table_path@,
                        0,
                        #[trigger] deps@[j].name@,
                    ),
            decreases deps@.len() - i,
        {
            let ghost before = self.data.model();
            let dep = &deps[i];
            let r = self.insert_into_table(table_path, dep);
            if r.is_err() {
                proof {
                    assert(conflict(before, table_path@, 0).is_some());
                    assert(i == 0);
                    assert(before == es0);
                    assert(self.data.model() == es0);
                }
                return r;
            }
            proof {
                assert forall|j: int| 0 <= j < deps@.len() implies entry_ok(
                    self.data.model(),
                    table_path@,
                    0,
                    #[trigger] deps@[j].name@,
                ) by {
                    lemma_entry_ok_kept(before, table_path@, deps@[i as int], deps@[j].name@);
                }
                lemma_entry_ok_kept(before, table_path@, deps@[i as int], deps@[i as int].name@);
            }
            i = i + 1;
        }
        Ok(())
    }
}

} // verus!
