//! Upgrading the registry dependencies of a manifest to their latest versions.
//!
//! The lookups themselves are made by the caller: `upgrade_targets` lists what to look
//! up, and `apply_upgrades` takes what came back and changes the document only when every
//! lookup succeeded.
use vstd::prelude::*;
use crate::dependency::Dependency;
use crate::errors::ManifestError;
use crate::manifest::{
    Manifest, all_sections, conflict, copy_path, edited, entry_ok, path_view, section, sections_view,
};
use crate::merge::mergeable;
use crate::value::{Entries, Node, Table, Value, key_pos, tbl_get, value_model};

verus! {

/// An entry to look up in the registry: the path of its section, and its name.
#[derive(Clone, Debug, PartialEq)]
pub struct UpgradeTarget {
    pub path: Vec<String>,
    pub name: String,
}

/// The entry says where its crate comes from (a `path` or `git` key): it is never
/// upgraded.
pub open spec fn has_source_override(n: Node) -> bool {
    n matches Node::Table(es) && (key_pos(es, "path"@) >= 0 || key_pos(es, "git"@) >= 0)
}

/// No names were given, or `name` is one of them.
pub open spec fn selected(only: Seq<String>, name: Seq<char>) -> bool {
    only.len() == 0 || exists|i: int| 0 <= i < only.len() && only[i]@ == name
}

/// An entry that an upgrade looks up: selected, a declaration (a string or a table), and
/// without a source override.
pub open spec fn upgradable(only: Seq<String>, e: (Seq<char>, Node)) -> bool {
    selected(only, e.0) && mergeable(e.1) && !has_source_override(e.1)
}

/// The entries to look up among the first `n` of the section `es` at `path`.
pub open spec fn picks_in(path: Seq<Seq<char>>, es: Entries, only: Seq<String>, n: int) -> Seq<
    (Seq<Seq<char>>, Seq<char>),
>
    decreases n,
{
    if n <= 0 || n > es.len() {
        Seq::empty()
    } else {
        picks_in(path, es, only, n - 1) + if upgradable(only, es[n - 1]) {
            seq![(path, es[n - 1].0)]
        } else {
            Seq::empty()
        }
    }
}

/// The entries to look up in the first `n` sections of `secs`.
pub open spec fn picks(secs: Seq<(Seq<Seq<char>>, Entries)>, only: Seq<String>, n: int) -> Seq<
    (Seq<Seq<char>>, Seq<char>),
>
    decreases n,
{
    if n <= 0 || n > secs.len() {
        Seq::empty()
    } else {
        picks(secs, only, n - 1) + picks_in(
            secs[n - 1].0,
            secs[n - 1].1,
            only,
            secs[n - 1].1.len() as int,
        )
    }
}

/// The entries of the document to look up, in the order of the sections and of their
/// entries.
pub open spec fn upgrade_plan(es: Entries, only: Seq<String>) -> Seq<(Seq<Seq<char>>, Seq<char>)> {
    picks(all_sections(es), only, all_sections(es).len() as int)
}

pub open spec fn targets_view(t: Seq<UpgradeTarget>) -> Seq<(Seq<Seq<char>>, Seq<char>)> {
    Seq::new(t.len(), |i: int| (path_view(t[i].path@), t[i].name@))
}

/// `i` is the first lookup that found nothing.
pub open spec fn is_first_missing(versions: Seq<Option<String>>, i: int) -> bool {
    &&& 0 <= i < versions.len()
    &&& versions[i] is None
    &&& forall|j: int| 0 <= j < i ==> versions[j] is Some
}

/// One upgrade: the entry `name` at `path` takes `version`, merged as a bare version,
/// where the path leads to tables only and the entry exists and can be merged into.
pub open spec fn upgrade_step(es: Entries, path: Seq<String>, name: Seq<char>, version: Seq<char>) -> Entries {
    if conflict(es, path, 0).is_none() && entry_ok(es, path, 0, name) {
        edited(es, path, 0, name, Node::Str(version), false)
    } else {
        es
    }
}

/// The document after the first `n` upgrades.
pub open spec fn upgraded(
    es: Entries,
    targets: Seq<UpgradeTarget>,
    versions: Seq<Option<String>>,
    n: int,
) -> Entries
    decreases n,
{
    if n <= 0 || n > targets.len() || n > versions.len() {
        es
    } else {
        upgrade_step(
            upgraded(es, targets, versions, n - 1),
            targets[n - 1].path@,
            targets[n - 1].name@,
            versions[n - 1].unwrap()@,
        )
    }
}

proof fn lemma_picks_in_sound(path: Seq<Seq<char>>, es: Entries, only: Seq<String>, n: int)
    requires
        0 <= n <= es.len(),
    ensures
        forall|k: int|
            0 <= k < picks_in(path, es, only, n).len() ==> exists|j: int|
                0 <= j < n && #[trigger] picks_in(path, es, only, n)[k] == (path, es[j].0)
                    && upgradable(only, es[j]),
    decreases n,
{
    if n > 0 {
        lemma_picks_in_sound(path, es, only, n - 1);
        let prev = picks_in(path, es, only, n - 1);
        let cur = picks_in(path, es, only, n);
        assert forall|k: int| 0 <= k < cur.len() implies exists|j: int|
            0 <= j < n && #[trigger] cur[k] == (path, es[j].0) && upgradable(only, es[j]) by {
            if k < prev.len() {
                assert(cur[k] == prev[k]);
                let j = choose|j: int|
                    0 <= j < n - 1 && #[trigger] prev[k] == (path, es[j].0) && upgradable(
                        only,
                        es[j],
                    );
                assert(0 <= j < n && cur[k] == (path, es[j].0) && upgradable(only, es[j]));
            } else {
                assert(cur[k] == (path, es[n - 1].0));
            }
        }
    }
}

proof fn lemma_picks_sound(secs: Seq<(Seq<Seq<char>>, Entries)>, only: Seq<String>, n: int)
    requires
        0 <= n <= secs.len(),
    ensures
        forall|k: int|
            0 <= k < picks(secs, only, n).len() ==> exists|i: int, j: int|
                0 <= i < n && 0 <= j < secs[i].1.len() && #[trigger] picks(secs, only, n)[k] == (
                    secs[i].0,
                    secs[i].1[j].0,
                ) && upgradable(only, secs[i].1[j]),
    decreases n,
{
    if n > 0 {
        lemma_picks_sound(secs, only, n - 1);
        let s = secs[n - 1];
        lemma_picks_in_sound(s.0, s.1, only, s.1.len() as int);
        let prev = picks(secs, only, n - 1);
        let last = picks_in(s.0, s.1, only, s.1.len() as int);
        let cur = picks(secs, only, n);
        assert forall|k: int| 0 <= k < cur.len() implies exists|i: int, j: int|
            0 <= i < n && 0 <= j < secs[i].1.len() && #[trigger] cur[k] == (
                secs[i].0,
                secs[i].1[j].0,
            ) && upgradable(only, secs[i].1[j]) by {
            if k < prev.len() {
                assert(cur[k] == prev[k]);
                let (i, j) = choose|i: int, j: int|
                    0 <= i < n - 1 && 0 <= j < secs[i].1.len() && #[trigger] prev[k] == (
                        secs[i].0,
                        secs[i].1[j].0,
                    ) && upgradable(only, secs[i].1[j]);
                assert(0 <= i < n && cur[k] == (secs[i].0, secs[i].1[j].0));
            } else {
                let m = k - prev.len();
                assert(cur[k] == last[m]);
                let j = choose|j: int|
                    0 <= j < s.1.len() && #[trigger] last[m] == (s.0, s.1[j].0) && upgradable(
                        only,
                        s.1[j],
                    );
                assert(cur[k] == (secs[n - 1].0, secs[n - 1].1[j].0));
            }
        }
    }
}

/// An upgrade looks up only entries without a source override: each entry of the plan is
/// an entry of one of the document's dependency sections that has neither a `path` nor a
/// `git` key, and whose name was selected.
pub proof fn lemma_plan_skips_overrides(es: Entries, only: Seq<String>)
    ensures
        forall|k: int|
            0 <= k < upgrade_plan(es, only).len() ==> exists|i: int, j: int|
                0 <= i < all_sections(es).len() && 0 <= j < all_sections(es)[i].1.len()
                    && #[trigger] upgrade_plan(es, only)[k] == (
                    all_sections(es)[i].0,
                    all_sections(es)[i].1[j].0,
                ) && !has_source_override(all_sections(es)[i].1[j].1) && selected(
                    only,
                    all_sections(es)[i].1[j].0,
                ),
{
    let secs = all_sections(es);
    lemma_picks_sound(secs, only, secs.len() as int);
}

fn is_selected(only: &[String], name: &String) -> (r: bool)
    ensures
        r == selected(only@, name@),
{
    if only.len() == 0 {
        return true;
    }
    let mut i: usize = 0;
    while i < only.len()
        invariant
            0 <= i <= only@.len(),
            forall|j: int| 0 <= j < i ==> only@[j]@ != name@,
        decreases only@.len() - i,
    {
        if only[i] == *name {
            return true;
        }
        i = i + 1;
    }
    false
}

fn is_upgradable(only: &[String], name: &String, v: &Value) -> (r: bool)
    ensures
        r == upgradable(only@, (name@, value_model(*v))),
{
    if !is_selected(only, name) {
        return false;
    }
    match v {
        Value::Str(_) => true,
        Value::Table(t) => {
            let path = "path".to_owned();
            let git = "git".to_owned();
            t.position(&path).is_none() && t.position(&git).is_none()
        },
        _ => false,
    }
}

/// Whether the entry `name` at `path`, from position `d` on, can be merged into.
pub(crate) fn entry_mergeable(t: &Table, path: &[String], d: usize, name: &String) -> (r: bool)
    requires
        d <= path@.len(),
    ensures
        r == entry_ok(t.model(), path@, d as int, name@),
    decreases path@.len() - d,
{
    if d == path.len() {
        match t.get(name) {
            Some(Value::Str(_)) => true,
            Some(Value::Table(_)) => true,
            Some(_) => false,
            None => true,
        }
    } else {
        match t.get(&path[d]) {
            Some(Value::Table(c)) => entry_mergeable(c, path, d + 1, name),
            _ => {
                proof {
                    crate::manifest::lemma_empty_path(path@, d as int + 1);
                }
                true
            },
        }
    }
}

impl Manifest {
    /// The entries that an upgrade looks up in the registry: in every dependency section,
    /// each entry that is selected (`only_update` is empty, or names it) and that is a
    /// string or a table without a `path` or `git` key.
    pub fn upgrade_targets(&self, only_update: &[String]) -> (r: Vec<UpgradeTarget>)
        ensures
            targets_view(r@) == upgrade_plan(self.data.model(), only_update@),
    {
        let secs = self.get_sections();
        let ghost sv = sections_view(secs@);
        let mut out: Vec<UpgradeTarget> = Vec::new();
        let mut i: usize = 0;
        proof {
            assert(targets_view(out@) =~= picks(sv, only_update@, 0));
        }
        while i < secs.len()
            invariant
                0 <= i <= secs@.len(),
                sv == sections_view(secs@),
                sv.len() == secs@.len(),
                targets_view(out@) == picks(sv, only_update@, i as int),
            decreases secs@.len() - i,
        {
            let (path, t) = &secs[i];
            let ghost base = targets_view(out@);
            let ghost es = t.model();
            let mut j: usize = 0;
            proof {
                t.lemma_model();
                assert(sv[i as int] == (path_view(path@), es));
                assert(base + picks_in(path_view(path@), es, only_update@, 0) =~= base);
            }
            while j < t.entries.len()
                invariant
                    0 <= j <= t.entries@.len(),
                    es == t.model(),
                    es.len() == t.entries@.len(),
                    targets_view(out@) == base + picks_in(path_view(path@), es, only_update@, j as int),
                decreases t.entries@.len() - j,
            {
                proof {
                    t.lemma_model();
                }
                let e = &t.entries[j];
                let ghost before = targets_view(out@);
                assert(es[j as int] == (e.0@, value_model(e.1)));
                if is_upgradable(only_update, &e.0, &e.1) {
                    let p = copy_path(path);
                    out.push(UpgradeTarget { path: p, name: e.0.clone() });
                    assert(targets_view(out@) =~= before.push((path_view(path@), e.0@)));
                } else {
                    assert(targets_view(out@) =~= before);
                }
                proof {
                    assert(targets_view(out@) =~= base + picks_in(
                        path_view(path@),
                        es,
                        only_update@,
                        j + 1,
                    ));
                }
                j = j + 1;
            }
            i = i + 1;
        }
        proof {
            assert(sv == all_sections(self.data.model()));
        }
        out
    }

    /// Applies the versions that the registry gave, one for each target in order. Where a
    /// lookup found nothing, the whole upgrade fails with the name of the first such
    /// target and the document is left as it was; else each target's entry takes its new
    /// version, merged as a bare version requirement.
    pub fn apply_upgrades(&mut self, targets: &[UpgradeTarget], versions: &[Option<String>]) -> (r:
        Result<(), ManifestError>)
        requires
            targets@.len() == versions@.len(),
        ensures
            (exists|i: int| is_first_missing(versions@, i)) ==> {
                let i = choose|i: int| is_first_missing(versions@, i);
                &&& r matches Err(ManifestError::RegistryLookupFailed(n)) && n@ == targets@[i].name@
                &&& final(self).data.model() == old(self).data.model()
            },
            (forall|i: int| 0 <= i < versions@.len() ==> versions@[i] is Some) ==> {
                &&& r is Ok
                &&& final(self).data.model() == upgraded(
                    old(self).data.model(),
                    targets@,
                    versions@,
                    targets@.len() as int,
                )
            },
            old(self).data.wf() ==> final(self).data.wf(),
    {
        let mut i: usize = 0;
        while i < versions.len()
            invariant
                0 <= i <= versions@.len(),
                targets@.len() == versions@.len(),
                forall|j: int| 0 <= j < i ==> versions@[j] is Some,
            decreases versions@.len() - i,
        {
            if versions[i].is_none() {
                proof {
                    assert(is_first_missing(versions@, i as int));
                    let c = choose|c: int| is_first_missing(versions@, c);
                    if c < i {
                    } else if c > i {
                        assert(versions@[i as int] is Some);
                    }
                }
                return Err(ManifestError::RegistryLookupFailed(targets[i].name.clone()));
            }
            i = i + 1;
        }
        let ghost es0 = self.data.model();
        let mut k: usize = 0;
        while k < targets.len()
            invariant
                0 <= k <= targets@.len(),
                targets@.len() == versions@.len(),
                es0 == old(self).data.model(),
                old(self).data.wf() ==> self.data.wf(),
                forall|j: int| 0 <= j < versions@.len() ==> versions@[j] is Some,
                self.data.model() == upgraded(es0, targets@, versions@, k as int),
            decreases targets@.len() - k,
        {
            let target = &targets[k];
            let version = match &versions[k] {
                Some(v) => v.clone(),
                None => String::new(),
            };
            let dep = Dependency {
                name: target.name.clone(),
                version: Some(version),
                source: None,
                features: None,
                optional: None,
                default_features: None,
            };
            if entry_mergeable(&self.data, target.path.as_slice(), 0, &target.name) {
                let _ = self.update_table_entry(target.path.as_slice(), &dep);
            }
            k = k + 1;
        }
        proof {
            if exists|i: int| is_first_missing(versions@, i) {
                let i = choose|i: int| is_first_missing(versions@, i);
                assert(versions@[i] is Some);
            }
        }
        Ok(())
    }
}

} // verus!
