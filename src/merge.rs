//! Merging a new declaration into the entry that a section holds already.
use vstd::prelude::*;
use crate::dependency::Dependency;
use crate::value::{
    Entries, Node, Table, Value, key_pos, lemma_get_remove, lemma_get_set, tbl_get, tbl_remove,
    tbl_set, value_model,
};

verus! {

/// An entry that a merge can start from: a string or a table.
pub open spec fn mergeable(old: Node) -> bool {
    old is Str || old is Table
}

/// An entry that holds at most one fact (a string, or a table of one key): a new
/// declaration replaces it whole.
pub open spec fn replaceable(old: Node) -> bool {
    old is Str || (old matches Node::Table(es) && es.len() == 1)
}

/// `es` with each entry of `ns` put in, in order; later keys win.
pub open spec fn set_all(es: Entries, ns: Entries) -> Entries
    decreases ns.len(),
{
    if ns.len() == 0 {
        es
    } else {
        tbl_set(set_all(es, ns.drop_last()), ns.last().0, ns.last().1)
    }
}

/// `es` without the source keys (version, path, git) that `ns` does not set.
pub open spec fn drop_stale_sources(es: Entries, ns: Entries) -> Entries {
    let a = if key_pos(ns, "version"@) < 0 { tbl_remove(es, "version"@) } else { es };
    let b = if key_pos(ns, "path"@) < 0 { tbl_remove(a, "path"@) } else { a };
    if key_pos(ns, "git"@) < 0 { tbl_remove(b, "git"@) } else { b }
}

/// The written form of a new declaration as table entries: a bare string stands for
/// its version.
pub open spec fn as_entries(new: Node) -> Entries {
    match new {
        Node::Table(ns) => ns,
        _ => seq![("version"@, new)],
    }
}

/// The merge of a new written declaration `new` into an old entry `old`: a replaceable
/// old entry gives way to `new`; otherwise every key of `new` is put into the old table,
/// the old source keys that `new` does not set are dropped, and all other old keys stay.
pub open spec fn merge_model(old: Node, new: Node) -> Node {
    if replaceable(old) {
        new
    } else {
        match old {
            Node::Table(es) => Node::Table(
                drop_stale_sources(set_all(es, as_entries(new)), as_entries(new)),
            ),
            _ => new,
        }
    }
}

proof fn lemma_set_all_other(es: Entries, ns: Entries, k: Seq<char>)
    requires
        tbl_get(ns, k) is None,
    ensures
        tbl_get(set_all(es, ns), k) == tbl_get(es, k),
    decreases ns.len(),
{
    if ns.len() > 0 {
        let init = ns.drop_last();
        assert(ns =~= init + seq![ns.last()]);
        crate::value::lemma_get_concat(init, seq![ns.last()], k);
        crate::value::lemma_get_small(seq![ns.last()], k);
        lemma_set_all_other(es, init, k);
        lemma_get_set(set_all(es, init), ns.last().0, ns.last().1, k);
    }
}

/// A merge into a table of several keys leaves every key other than version, path and
/// git that the new declaration does not set as it was (features, optional, and the like).
pub proof fn lemma_merge_keeps_other_keys(es: Entries, new: Node, k: Seq<char>)
    requires
        es.len() != 1,
        k != "version"@,
        k != "path"@,
        k != "git"@,
        tbl_get(as_entries(new), k) is None,
    ensures
        merge_model(Node::Table(es), new) matches Node::Table(m) && tbl_get(m, k) == tbl_get(es, k),
{
    let ns = as_entries(new);
    let a = set_all(es, ns);
    lemma_set_all_other(es, ns, k);
    lemma_get_remove(a, "version"@, k);
    let b = if key_pos(ns, "version"@) < 0 { tbl_remove(a, "version"@) } else { a };
    lemma_get_remove(b, "path"@, k);
    let c = if key_pos(ns, "path"@) < 0 { tbl_remove(b, "path"@) } else { b };
    lemma_get_remove(c, "git"@, k);
}

/// Merges the declaration `new` into the old entry `old`.
pub fn merge_dependencies(old: Value, new: &Dependency) -> (r: Value)
    requires
        mergeable(value_model(old)),
    ensures
        value_model(r) == merge_model(value_model(old), new.to_node()),
{
    let (_, new_value) = new.to_toml();
    merge_values(old, new_value)
}

fn merge_values(old: Value, new: Value) -> (r: Value)
    requires
        mergeable(value_model(old)),
    ensures
        value_model(r) == merge_model(value_model(old), value_model(new)),
{
    match old {
        Value::Table(t) => {
            if t.len() == 1 {
                return new;
            }
            let mut t = t;
            let ghost new_model = value_model(new);
            let mut ns = match new {
                Value::Table(n) => n,
                other => {
                    let mut n = Table::new();
                    n.append_entry("version".to_owned(), other);
                    n
                },
            };
            assert(ns.model() =~= as_entries(new_model));
            let version = "version".to_owned();
            let path = "path".to_owned();
            let git = "git".to_owned();
            let has_version = ns.position(&version).is_some();
            let has_path = ns.position(&path).is_some();
            let has_git = ns.position(&git).is_some();
            let ghost es0 = t.model();
            let ghost ns0 = ns.model();
            let ghost mut c: int = 0;
            assert(ns0.subrange(0, 0) =~= Seq::<(Seq<char>, Node)>::empty());
            assert(ns0.subrange(0, ns0.len() as int) =~= ns0);
            while ns.len() > 0
                invariant
                    0 <= c <= ns0.len(),
                    ns.model() == ns0.subrange(c, ns0.len() as int),
                    t.model() == set_all(es0, ns0.subrange(0, c)),
                decreases ns.model().len(),
            {
                let (k, v) = ns.pop_front();
                proof {
                    assert(ns0.subrange(0, c + 1).drop_last() =~= ns0.subrange(0, c));
                    assert(ns.model() =~= ns0.subrange(c + 1, ns0.len() as int));
                }
                t.set(k, v);
                proof {
                    c = c + 1;
                }
            }
            assert(ns0.subrange(0, c) =~= ns0);
            if !has_version {
                t.remove(&version);
            }
            if !has_path {
                t.remove(&path);
            }
            if !has_git {
                t.remove(&git);
            }
            Value::Table(t)
        },
        _ => new,
    }
}

} // verus!
