//! The document tree of a manifest: ordered tables of named values.
use vstd::prelude::*;

verus! {

/// A value of the document tree.
#[derive(Debug, PartialEq)]
pub enum Value {
    /// A string.
    Str(String),
    /// A boolean.
    Bool(bool),
    /// A scalar that this library never interprets (a number or a date), as written.
    Raw(String),
    /// An ordered list of values.
    Array(Vec<Value>),
    /// A nested table.
    Table(Table),
}

/// An ordered table of named values.
#[derive(Debug, PartialEq)]
pub struct Table {
    /// The entries, in order; a lookup finds the first entry under a key.
    pub entries: Vec<(String, Value)>,
}

/// The mathematical model of a `Value`.
pub enum Node {
    /// A string, as characters.
    Str(Seq<char>),
    /// A boolean.
    Bool(bool),
    /// An uninterpreted scalar, as written.
    Raw(Seq<char>),
    /// The models of the items, in order.
    Array(Seq<Node>),
    /// The keys and the models of the values, in order.
    Table(Seq<(Seq<char>, Node)>),
}

/// Model of the first `n` items of an array.
pub open spec fn items_model(s: Seq<Value>, n: int) -> Seq<Node>
    decreases s, n,
{
    if 0 < n <= s.len() {
        items_model(s, n - 1).push(value_model(s[n - 1]))
    } else {
        Seq::empty()
    }
}

/// Model of the first `n` entries of a table.
pub open spec fn entries_model(s: Seq<(String, Value)>, n: int) -> Seq<(Seq<char>, Node)>
    decreases s, n,
{
    if 0 < n <= s.len() {
        entries_model(s, n - 1).push((s[n - 1].0@, value_model(s[n - 1].1)))
    } else {
        Seq::empty()
    }
}

/// The model of a value: the same tree, with strings as character sequences.
pub open spec fn value_model(v: Value) -> Node
    decreases v, 0int,
{
    match v {
        Value::Str(s) => Node::Str(s@),
        Value::Bool(b) => Node::Bool(b),
        Value::Raw(s) => Node::Raw(s@),
        Value::Array(a) => Node::Array(items_model(a@, a@.len() as int)),
        Value::Table(t) => Node::Table(entries_model(t.entries@, t.entries@.len() as int)),
    }
}

impl Value {
    /// A copy of the value, with the same model.
    pub fn deep_copy(&self) -> (r: Value)
        ensures
            value_model(r) == value_model(*self),
        decreases *self,
    {
        match self {
            Value::Str(s) => Value::Str(s.clone()),
            Value::Bool(b) => Value::Bool(*b),
            Value::Raw(s) => Value::Raw(s.clone()),
            Value::Array(a) => {
                let mut out: Vec<Value> = Vec::new();
                let mut i: usize = 0;
                while i < a.len()
                    invariant
                        0 <= i <= a@.len(),
                        *self == Value::Array(*a),
                        out@.len() == i,
                        forall|j: int| 0 <= j < i ==> value_model(#[trigger] out@[j]) == value_model(a@[j]),
                    decreases a@.len() - i,
                {
                    proof {
                        vstd::std_specs::vec::axiom_vec_index_decreases(*a, i as int);
                        assert(decreases_to!(*self => self->Array_0));
                        assert(decreases_to!(*a => a[i as int]));
                        assert(decreases_to!(*self => a[i as int]));

                    }
                    out.push(a[i].deep_copy());
                    i = i + 1;
                }
                proof {
                    lemma_items_model(out@, out@.len() as int);
                    lemma_items_model(a@, a@.len() as int);
                    assert(items_model(out@, out@.len() as int) =~= items_model(a@, a@.len() as int));
                }
                Value::Array(out)
            },
            Value::Table(t) => Value::Table(t.deep_copy()),
        }
    }
}

impl Table {
    /// A copy of the table, with the same model.
    pub fn deep_copy(&self) -> (r: Table)
        ensures
            r.model() == self.model(),
        decreases *self,
    {
        let mut out: Vec<(String, Value)> = Vec::new();
        let mut i: usize = 0;
        while i < self.entries.len()
            invariant
                0 <= i <= self.entries@.len(),
                out@.len() == i,
                forall|j: int|
                    0 <= j < i ==> (#[trigger] out@[j]).0@ == self.entries@[j].0@ && value_model(
                        out@[j].1,
                    ) == value_model(self.entries@[j].1),
            decreases self.entries@.len() - i,
        {
            assert(decreases_to!(*self => self.entries@[i as int].1));
            let e = &self.entries[i];
            out.push((e.0.clone(), e.1.deep_copy()));
            i = i + 1;
        }
        let r = Table { entries: out };
        proof {
            r.lemma_model();
            self.lemma_model();
            assert(r.model() =~= self.model());
        }
        r
    }
}

impl Clone for Value {
    fn clone(&self) -> (r: Value)
        ensures
            value_model(r) == value_model(*self),
    {
        self.deep_copy()
    }
}

impl Clone for Table {
    fn clone(&self) -> (r: Table)
        ensures
            r.model() == self.model(),
    {
        self.deep_copy()
    }
}

/// The model of a table: its keys and the models of its values, in order.
pub type Entries = Seq<(Seq<char>, Node)>;

pub proof fn lemma_items_model(s: Seq<Value>, n: int)
    requires
        0 <= n <= s.len(),
    ensures
        items_model(s, n).len() == n,
        forall|i: int| 0 <= i < n ==> #[trigger] items_model(s, n)[i] == value_model(s[i]),
    decreases n,
{
    if n > 0 {
        lemma_items_model(s, n - 1);
    }
}

pub proof fn lemma_entries_model(s: Seq<(String, Value)>, n: int)
    requires
        0 <= n <= s.len(),
    ensures
        entries_model(s, n).len() == n,
        forall|i: int|
            0 <= i < n ==> #[trigger] entries_model(s, n)[i] == (s[i].0@, value_model(s[i].1)),
    decreases n,
{
    if n > 0 {
        lemma_entries_model(s, n - 1);
    }
}

/// `i` is the first position of key `k` in `es`.
pub open spec fn is_first(es: Entries, k: Seq<char>, i: int) -> bool {
    &&& 0 <= i < es.len()
    &&& es[i].0 == k
    &&& forall|j: int| 0 <= j < i ==> es[j].0 != k
}

/// The first position of key `k` in `es`, or -1 where `k` is absent.
pub open spec fn key_pos(es: Entries, k: Seq<char>) -> int {
    if exists|i: int| is_first(es, k, i) {
        choose|i: int| is_first(es, k, i)
    } else {
        -1
    }
}

/// The value under key `k`.
pub open spec fn tbl_get(es: Entries, k: Seq<char>) -> Option<Node> {
    if key_pos(es, k) >= 0 {
        Some(es[key_pos(es, k)].1)
    } else {
        None
    }
}

/// `es` with `v` under key `k`: in place where `k` is present, appended where not.
pub open spec fn tbl_set(es: Entries, k: Seq<char>, v: Node) -> Entries {
    if key_pos(es, k) >= 0 {
        es.update(key_pos(es, k), (k, v))
    } else {
        es.push((k, v))
    }
}

/// `es` without its entry for key `k`.
pub open spec fn tbl_remove(es: Entries, k: Seq<char>) -> Entries {
    if key_pos(es, k) >= 0 {
        es.remove(key_pos(es, k))
    } else {
        es
    }
}

pub proof fn lemma_first_unique(es: Entries, k: Seq<char>, i: int)
    requires
        is_first(es, k, i),
    ensures
        key_pos(es, k) == i,
{
    let c = key_pos(es, k);
    assert(is_first(es, k, c));
    if c < i {
        assert(es[c].0 != k);
    } else if i < c {
        assert(es[i].0 != k);
    }
}

pub proof fn lemma_absent(es: Entries, k: Seq<char>)
    requires
        forall|j: int| 0 <= j < es.len() ==> es[j].0 != k,
    ensures
        key_pos(es, k) == -1,
{
}

/// A key that occurs has a first position.
pub proof fn lemma_present(es: Entries, k: Seq<char>, i: int)
    requires
        0 <= i < es.len(),
        es[i].0 == k,
    ensures
        0 <= key_pos(es, k) <= i,
        is_first(es, k, key_pos(es, k)),
    decreases i,
{
    if exists|j: int| 0 <= j < i && es[j].0 == k {
        let j = choose|j: int| 0 <= j < i && es[j].0 == k;
        lemma_present(es, k, j);
    } else {
        lemma_first_unique(es, k, i);
    }
}

/// The position of a key is kept by a change that keeps all keys.
pub proof fn lemma_same_keys(a: Entries, b: Entries, k: Seq<char>)
    requires
        a.len() == b.len(),
        forall|j: int| 0 <= j < a.len() ==> a[j].0 == b[j].0,
    ensures
        key_pos(a, k) == key_pos(b, k),
{
    if key_pos(a, k) >= 0 {
        lemma_first_unique(b, k, key_pos(a, k));
    } else if key_pos(b, k) >= 0 {
        lemma_first_unique(a, k, key_pos(b, k));
    }
}

/// Appending an entry under a new key keeps the other positions.
pub proof fn lemma_push_new(es: Entries, e: (Seq<char>, Node), k: Seq<char>)
    requires
        key_pos(es, e.0) == -1,
    ensures
        key_pos(es.push(e), e.0) == es.len(),
        k != e.0 ==> key_pos(es.push(e), k) == key_pos(es, k),
{
    let p = es.push(e);
    if exists|j: int| 0 <= j < es.len() && es[j].0 == e.0 {
        let j = choose|j: int| 0 <= j < es.len() && es[j].0 == e.0;
        lemma_present(es, e.0, j);
    }
    assert(is_first(p, e.0, es.len() as int));
    lemma_first_unique(p, e.0, es.len() as int);
    if k != e.0 {
        if key_pos(es, k) >= 0 {
            lemma_first_unique(p, k, key_pos(es, k));
        } else {
            if exists|j: int| 0 <= j < es.len() && es[j].0 == k {
                let j = choose|j: int| 0 <= j < es.len() && es[j].0 == k;
                lemma_present(es, k, j);
            }
            lemma_absent(p, k);
        }
    }
}

/// No key occurs twice.
pub open spec fn unique_keys(es: Entries) -> bool {
    forall|i: int, j: int| 0 <= i < j < es.len() ==> es[i].0 != es[j].0
}

/// `tbl_set` and `tbl_remove` keep keys unique.
pub proof fn lemma_unique_kept(es: Entries, k: Seq<char>, v: Node)
    requires
        unique_keys(es),
    ensures
        unique_keys(tbl_set(es, k, v)),
        unique_keys(tbl_remove(es, k)),
{
    if key_pos(es, k) < 0 {
        if exists|j: int| 0 <= j < es.len() && es[j].0 == k {
            let j = choose|j: int| 0 <= j < es.len() && es[j].0 == k;
            lemma_present(es, k, j);
        }
    } else {
        assert(is_first(es, k, key_pos(es, k)));
    }
}

/// A key is looked up in the first part of a table, then in the second.
pub proof fn lemma_get_concat(a: Entries, b: Entries, k: Seq<char>)
    ensures
        tbl_get(a + b, k) == if tbl_get(a, k) is Some {
            tbl_get(a, k)
        } else {
            tbl_get(b, k)
        },
{
    let ab = a + b;
    if key_pos(a, k) >= 0 {
        let p = key_pos(a, k);
        assert(is_first(a, k, p));
        assert(is_first(ab, k, p));
        lemma_first_unique(ab, k, p);
    } else {
        if exists|j: int| 0 <= j < a.len() && a[j].0 == k {
            let j = choose|j: int| 0 <= j < a.len() && a[j].0 == k;
            lemma_present(a, k, j);
        }
        if key_pos(b, k) >= 0 {
            let q = key_pos(b, k);
            assert(is_first(b, k, q));
            assert(is_first(ab, k, a.len() + q));
            lemma_first_unique(ab, k, a.len() + q);
        } else {
            if exists|j: int| 0 <= j < b.len() && b[j].0 == k {
                let j = choose|j: int| 0 <= j < b.len() && b[j].0 == k;
                lemma_present(b, k, j);
            }
            assert forall|j: int| 0 <= j < ab.len() implies ab[j].0 != k by {
                if j >= a.len() {
                    assert(ab[j] == b[j - a.len()]);
                }
            }
            lemma_absent(ab, k);
        }
    }
}

/// Looking a key up in a table of at most two entries.
pub proof fn lemma_get_small(es: Entries, k: Seq<char>)
    requires
        es.len() <= 2,
    ensures
        tbl_get(es, k) == if es.len() > 0 && es[0].0 == k {
            Some(es[0].1)
        } else if es.len() > 1 && es[1].0 == k {
            Some(es[1].1)
        } else {
            None::<Node>
        },
{
    if es.len() > 0 && es[0].0 == k {
        lemma_first_unique(es, k, 0);
    } else if es.len() > 1 && es[1].0 == k {
        lemma_first_unique(es, k, 1);
    } else {
        lemma_absent(es, k);
    }
}

/// Removing one key leaves what the other keys map to.
pub proof fn lemma_get_remove(es: Entries, r: Seq<char>, k: Seq<char>)
    requires
        k != r,
    ensures
        tbl_get(tbl_remove(es, r), k) == tbl_get(es, k),
{
    let p = key_pos(es, r);
    if p >= 0 {
        assert(is_first(es, r, p));
        let t = es.remove(p);
        let q = key_pos(es, k);
        if q >= 0 {
            assert(is_first(es, k, q));
            let q2 = if q < p { q } else { q - 1 };
            assert(t[q2] == es[q]);
            assert forall|j: int| 0 <= j < q2 implies t[j].0 != k by {
                if j < p {
                    assert(t[j] == es[j]);
                } else {
                    assert(t[j] == es[j + 1]);
                }
            }
            assert(is_first(t, k, q2));
            lemma_first_unique(t, k, q2);
        } else {
            if exists|j: int| 0 <= j < es.len() && es[j].0 == k {
                let j = choose|j: int| 0 <= j < es.len() && es[j].0 == k;
                lemma_present(es, k, j);
            }
            assert forall|j: int| 0 <= j < t.len() implies t[j].0 != k by {
                if j < p {
                    assert(t[j] == es[j]);
                } else {
                    assert(t[j] == es[j + 1]);
                }
            }
            lemma_absent(t, k);
        }
    }
}

/// What a key maps to after `tbl_set`.
pub proof fn lemma_get_set(es: Entries, k: Seq<char>, v: Node, m: Seq<char>)
    ensures
        tbl_get(tbl_set(es, k, v), m) == if m == k {
            Some(v)
        } else {
            tbl_get(es, m)
        },
{
    let p = key_pos(es, k);
    if p >= 0 {
        assert(is_first(es, k, p));
        let u = es.update(p, (k, v));
        lemma_same_keys(es, u, m);
    } else {
        lemma_push_new(es, (k, v), m);
    }
}

impl Table {
    pub open spec fn model(&self) -> Entries {
        entries_model(self.entries@, self.entries@.len() as int)
    }

    pub proof fn lemma_model(&self)
        ensures
            self.model().len() == self.entries@.len(),
            forall|i: int|
                0 <= i < self.entries@.len() ==> #[trigger] self.model()[i] == (
                    self.entries@[i].0@,
                    value_model(self.entries@[i].1),
                ),
    {
        lemma_entries_model(self.entries@, self.entries@.len() as int);
    }

    /// No key of the table occurs twice.
    pub open spec fn wf(&self) -> bool {
        unique_keys(self.model())
    }

    /// An empty table.
    pub fn new() -> (t: Table)
        ensures
            t.model() == Seq::<(Seq<char>, Node)>::empty(),
            t.wf(),
    {
        Table { entries: Vec::new() }
    }

    /// The number of entries.
    pub fn len(&self) -> (r: usize)
        ensures
            r == self.model().len(),
    {
        proof {
            self.lemma_model();
        }
        self.entries.len()
    }

    /// The position of the entry under `key`.
    pub fn position(&self, key: &String) -> (r: Option<usize>)
        ensures
            match r {
                Some(i) => i == key_pos(self.model(), key@),
                None => key_pos(self.model(), key@) == -1,
            },
    {
        proof {
            self.lemma_model();
        }
        let mut i: usize = 0;
        while i < self.entries.len()
            invariant
                0 <= i <= self.entries@.len(),
                self.model().len() == self.entries@.len(),
                forall|j: int| 0 <= j < i ==> self.model()[j].0 != key@,
            decreases self.entries@.len() - i,
        {
            proof {
                self.lemma_model();
            }
            if self.entries[i].0 == *key {
                proof {
                    lemma_first_unique(self.model(), key@, i as int);
                }
                return Some(i);
            }
            i = i + 1;
        }
        proof {
            lemma_absent(self.model(), key@);
        }
        None
    }

    /// The value under `key`.
    pub fn get(&self, key: &String) -> (r: Option<&Value>)
        ensures
            match r {
                Some(v) => tbl_get(self.model(), key@) == Some(value_model(*v)),
                None => tbl_get(self.model(), key@).is_none(),
            },
    {
        proof {
            self.lemma_model();
        }
        match self.position(key) {
            Some(i) => Some(&self.entries[i].1),
            None => None,
        }
    }

    /// Puts `value` under `key`: in place where the key is present, at the end where not.
    pub fn set(&mut self, key: String, value: Value)
        ensures
            final(self).model() == tbl_set(old(self).model(), key@, value_model(value)),
            old(self).wf() ==> final(self).wf(),
    {
        proof {
            if self.wf() {
                lemma_unique_kept(self.model(), key@, value_model(value));
            }
        }
        proof {
            self.lemma_model();
        }
        let ghost m = self.model();
        match self.position(&key) {
            Some(i) => {
                self.entries.remove(i);
                self.entries.insert(i, (key, value));
            },
            None => {
                self.entries.push((key, value));
            },
        }
        proof {
            self.lemma_model();
            assert(self.model() =~= tbl_set(m, key@, value_model(value)));
        }
    }

    /// Appends an entry, whether or not its key is present already.
    pub(crate) fn append_entry(&mut self, key: String, value: Value)
        ensures
            final(self).model() == old(self).model().push((key@, value_model(value))),
    {
        proof {
            self.lemma_model();
        }
        let ghost m = self.model();
        self.entries.push((key, value));
        proof {
            self.lemma_model();
            assert(self.model() =~= m.push((key@, value_model(value))));
        }
    }

    /// Takes out the entry at position `i`.
    pub(crate) fn take_at(&mut self, i: usize) -> (r: (String, Value))
        requires
            i < old(self).model().len(),
        ensures
            (r.0@, value_model(r.1)) == old(self).model()[i as int],
            final(self).model() == old(self).model().remove(i as int),
    {
        proof {
            self.lemma_model();
        }
        let ghost m = self.model();
        let r = self.entries.remove(i);
        proof {
            self.lemma_model();
            assert(self.model() =~= m.remove(i as int));
        }
        r
    }

    /// Puts an entry back at position `i`.
    pub(crate) fn put_at(&mut self, i: usize, key: String, value: Value)
        requires
            i <= old(self).model().len(),
        ensures
            final(self).model() == old(self).model().insert(i as int, (key@, value_model(value))),
    {
        proof {
            self.lemma_model();
        }
        let ghost m = self.model();
        self.entries.insert(i, (key, value));
        proof {
            self.lemma_model();
            assert(self.model() =~= m.insert(i as int, (key@, value_model(value))));
        }
    }

    /// Takes out the first entry.
    pub(crate) fn pop_front(&mut self) -> (r: (String, Value))
        requires
            old(self).model().len() > 0,
        ensures
            (r.0@, value_model(r.1)) == old(self).model()[0],
            final(self).model() == old(self).model().drop_first(),
    {
        proof {
            self.lemma_model();
        }
        let ghost m = self.model();
        let r = self.entries.remove(0);
        proof {
            self.lemma_model();
            assert(self.model() =~= m.drop_first());
        }
        r
    }

    /// Takes out the entry under `key`.
    pub fn remove(&mut self, key: &String) -> (r: Option<Value>)
        ensures
            match r {
                Some(v) => tbl_get(old(self).model(), key@) == Some(value_model(v)),
                None => tbl_get(old(self).model(), key@).is_none(),
            },
            final(self).model() == tbl_remove(old(self).model(), key@),
            old(self).wf() ==> final(self).wf(),
    {
        proof {
            if self.wf() {
                lemma_unique_kept(self.model(), key@, Node::Bool(true));
            }
        }
        proof {
            self.lemma_model();
        }
        let ghost m = self.model();
        match self.position(key) {
            Some(i) => {
                let (_, v) = self.entries.remove(i);
                proof {
                    self.lemma_model();
                    assert(self.model() =~= tbl_remove(m, key@));
                }
                Some(v)
            },
            None => None,
        }
    }
}

} // verus!
