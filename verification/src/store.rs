use vstd::prelude::*;
use crate::proto::{Value, ValueV, Kvpair, KvpairV, views_of};

verus! {

// The in-memory backend: a list of tables, each a list of entries. Keys
// are unique at both levels, and lookups are by the first (hence only)
// match.

/// The first value associated with a key.
pub open spec fn assoc<X>(s: Seq<(String, X)>, k: Seq<char>) -> Option<X>
    decreases s.len(),
{
    if s.len() == 0 {
        Option::None
    } else if s[0].0@ == k {
        Option::Some(s[0].1)
    } else {
        assoc(s.drop_first(), k)
    }
}

/// No two entries share a key.
pub open spec fn distinct_keys<X>(s: Seq<(String, X)>) -> bool {
    forall|i: int, j: int| 0 <= i < j < s.len() ==> s[i].0@ != s[j].0@
}

/// A key misses exactly when no entry carries it.
pub(crate) proof fn lemma_assoc_none<X>(s: Seq<(String, X)>, k: Seq<char>)
    ensures
        (assoc(s, k) is None) <==> (forall|j: int| 0 <= j < s.len() ==> s[j].0@ != k),
    decreases s.len(),
{
    if s.len() > 0 {
        lemma_assoc_none(s.drop_first(), k);
        if s[0].0@ == k {
            assert(!(forall|j: int| 0 <= j < s.len() ==> s[j].0@ != k)) by {
                assert(s[0].0@ == k);
            }
        } else {
            if assoc(s, k) is None {
                assert forall|j: int| 0 <= j < s.len() implies s[j].0@ != k by {
                    if j > 0 {
                        assert(s.drop_first()[j - 1] == s[j]);
                    }
                }
            }
            if forall|j: int| 0 <= j < s.len() ==> s[j].0@ != k {
                assert forall|j: int| 0 <= j < s.drop_first().len() implies s.drop_first()[j].0@
                    != k by {
                    assert(s.drop_first()[j] == s[j + 1]);
                }
            }
        }
    }
}

pub(crate) proof fn lemma_assoc_at<X>(s: Seq<(String, X)>, k: Seq<char>, i: int)
    requires
        0 <= i < s.len(),
        s[i].0@ == k,
        forall|j: int| 0 <= j < i ==> s[j].0@ != k,
    ensures
        assoc(s, k) == Option::Some(s[i].1),
    decreases i,
{
    if i == 0 {
    } else {
        assert(s.drop_first() =~= s.skip(1));
        lemma_assoc_at(s.skip(1), k, i - 1);
    }
}

pub(crate) proof fn lemma_assoc_update<X>(s: Seq<(String, X)>, i: int, y: X, k: Seq<char>)
    requires
        0 <= i < s.len(),
        forall|j: int| 0 <= j < i ==> s[j].0@ != s[i].0@,
    ensures
        assoc(s.update(i, (s[i].0, y)), k) == if k == s[i].0@ {
            Option::Some(y)
        } else {
            assoc(s, k)
        },
    decreases i,
{
    let s2 = s.update(i, (s[i].0, y));
    if i == 0 {
        assert(s2[0] == (s[0].0, y));
        if s[0].0@ != k {
            assert(s2.drop_first() =~= s.drop_first());
        }
    } else {
        assert(s2[0] == s[0]);
        if s[0].0@ == k {
        } else {
            assert(s2.drop_first() =~= s.drop_first().update(i - 1, (s.drop_first()[i - 1].0, y)));
            lemma_assoc_update(s.drop_first(), i - 1, y, k);
        }
    }
}

pub(crate) proof fn lemma_assoc_push<X>(s: Seq<(String, X)>, kv: (String, X), k: Seq<char>)
    ensures
        assoc(s, k) is Some ==> assoc(s.push(kv), k) == assoc(s, k),
        assoc(s, k) is None && kv.0@ == k ==> assoc(s.push(kv), k) == Option::Some(kv.1),
        assoc(s, k) is None && kv.0@ != k ==> assoc(s.push(kv), k) is None,
    decreases s.len(),
{
    if s.len() == 0 {
        assert(s.push(kv)[0] == kv);
        assert(s.push(kv).drop_first() =~= Seq::<(String, X)>::empty());
        if kv.0@ != k {
            assert(assoc(Seq::<(String, X)>::empty(), k) is None);
            assert(assoc(s.push(kv), k) is None);
        }
    } else {
        assert(s.push(kv)[0] == s[0]);
        if s[0].0@ != k {
            assert(s.push(kv).drop_first() =~= s.drop_first().push(kv));
            lemma_assoc_push(s.drop_first(), kv, k);
            if assoc(s, k) is None && kv.0@ != k {
                assert(assoc(s.drop_first(), k) is None);
                assert(assoc(s.drop_first().push(kv), k) is None);
                assert(assoc(s.push(kv), k) is None);
            }
        }
    }
}

pub(crate) proof fn lemma_assoc_remove<X>(s: Seq<(String, X)>, i: int, k: Seq<char>)
    requires
        0 <= i < s.len(),
        distinct_keys(s),
    ensures
        assoc(s.remove(i), k) == if k == s[i].0@ {
            Option::None::<X>
        } else {
            assoc(s, k)
        },
    decreases i,
{
    if i == 0 {
        assert(s.remove(0) =~= s.drop_first());
        if s[0].0@ == k {
            lemma_assoc_none(s.drop_first(), k);
            assert(forall|j: int| 0 <= j < s.drop_first().len() ==> s.drop_first()[j] == s[j + 1]);
        }
    } else {
        assert(s.remove(i)[0] == s[0]);
        if s[0].0@ == k {
        } else {
            assert(s.remove(i).drop_first() =~= s.drop_first().remove(i - 1));
            assert(distinct_keys(s.drop_first())) by {
                assert(forall|a: int|
                    0 <= a < s.drop_first().len() ==> s.drop_first()[a] == s[a + 1]);
            }
            lemma_assoc_remove(s.drop_first(), i - 1, k);
        }
    }
}

proof fn lemma_distinct_remove<X>(s: Seq<(String, X)>, i: int)
    requires
        0 <= i < s.len(),
        distinct_keys(s),
    ensures
        distinct_keys(s.remove(i)),
{
    assert forall|a: int, b: int| 0 <= a < b < s.remove(i).len() implies s.remove(i)[a].0@
        != s.remove(i)[b].0@ by {
        assert(s.remove(i)[a] == if a < i {
            s[a]
        } else {
            s[a + 1]
        });
        assert(s.remove(i)[b] == if b < i {
            s[b]
        } else {
            s[b + 1]
        });
    }
}

/// The pairs a table's entries make, with no expiration.
pub open spec fn pairs_of(es: Seq<(String, Value)>) -> Seq<KvpairV> {
    es.map_values(
        |e: (String, Value)| KvpairV { key: e.0@, value: e.1@, expires: Option::None },
    )
}

/// The in-memory storage backend.
pub struct MemTable {
    tables: Vec<(String, Vec<(String, Value)>)>,
}

impl MemTable {
    /// Keys are unique among tables and within each table.
    pub closed spec fn wf(self) -> bool {
        &&& distinct_keys(self.tables@)
        &&& forall|i: int|
            0 <= i < self.tables@.len() ==> distinct_keys(#[trigger] self.tables@[i].1@)
    }

    /// The entries of a table, in insertion order.
    pub closed spec fn spec_table(self, t: Seq<char>) -> Option<Seq<(String, Value)>> {
        match assoc(self.tables@, t) {
            Option::None => Option::None,
            Option::Some(es) => Option::Some(es@),
        }
    }

    /// The value stored under a table and key.
    pub closed spec fn spec_get(self, t: Seq<char>, k: Seq<char>) -> Option<ValueV> {
        match self.spec_table(t) {
            Option::None => Option::None,
            Option::Some(es) => match assoc(es, k) {
                Option::None => Option::None,
                Option::Some(v) => Option::Some(v@),
            },
        }
    }

    /// An empty store.
    pub fn new() -> (r: MemTable)
        ensures
            r.wf(),
            forall|t: Seq<char>, k: Seq<char>| #[trigger] r.spec_get(t, k) is None,
    {
        MemTable { tables: Vec::new() }
    }

    /// The current value, or nothing when the key misses.
    pub fn get(&self, table: &String, key: &String) -> (r: Option<Value>)
        ensures
            match r {
                Some(v) => self.spec_get(table@, key@) == Some(v@),
                None => self.spec_get(table@, key@) is None,
            },
    {
        match find_key(&self.tables, table) {
            None => None,
            Some(ti) => {
                match find_key(&self.tables[ti].1, key) {
                    None => None,
                    Some(ei) => Some(self.tables[ti].1[ei].1.dup()),
                }
            },
        }
    }

    /// Whether the key is present.
    pub fn contains(&self, table: &String, key: &String) -> (r: bool)
        ensures
            r == (self.spec_get(table@, key@) is Some),
    {
        match self.get(table, key) {
            Some(_) => true,
            None => false,
        }
    }

    /// Inserts or overwrites; afterwards a get of the same key yields
    /// the value just set, and every other key is untouched. Returns the
    /// previous value, if any.
    pub fn set(&mut self, table: &String, key: &String, value: Value) -> (r: Option<Value>)
        requires
            old(self).wf(),
        ensures
            final(self).wf(),
            match r {
                Some(v) => old(self).spec_get(table@, key@) == Some(v@),
                None => old(self).spec_get(table@, key@) is None,
            },
            final(self).spec_get(table@, key@) == Some(value@),
            forall|t2: Seq<char>, k2: Seq<char>|
                !(t2 == table@ && k2 == key@) ==> #[trigger] final(self).spec_get(t2, k2) == old(
                    self,
                ).spec_get(t2, k2),
    {
        let ghost v0 = value@;
        match find_key(&self.tables, table) {
            None => {
                proof {
                    lemma_assoc_none(self.tables@, table@);
                }
                let mut es: Vec<(String, Value)> = Vec::new();
                es.push((key.clone(), value));
                let ghost esv = es@;
                self.tables.push((table.clone(), es));
                proof {
                    let ghost tsv = old(self).tables@;
                    assert forall|t2: Seq<char>| true implies assoc(self.tables@, t2) == (
                    if assoc(tsv, t2) is Some {
                        assoc(tsv, t2)
                    } else if table@ == t2 {
                        Option::Some(self.tables@[tsv.len() as int].1)
                    } else {
                        Option::None
                    }) by {
                        lemma_assoc_push(tsv, self.tables@[tsv.len() as int], t2);
                    }
                    assert(esv[0].0@ == key@ && esv[0].1@ == v0);
                    assert(esv.drop_first() =~= Seq::<(String, Value)>::empty());
                    assert(distinct_keys(esv));
                    assert(final(self).wf()) by {
                        assert(forall|i: int|
                            0 <= i < tsv.len() ==> self.tables@[i] == tsv[i]);
                    }
                    assert forall|t2: Seq<char>, k2: Seq<char>|
                        !(t2 == table@ && k2 == key@) implies self.spec_get(t2, k2) == old(
                        self,
                    ).spec_get(t2, k2) by {
                        if t2 == table@ {
                            assert(assoc(tsv, t2) is None);
                            assert(assoc(self.tables@, t2) == Option::Some(
                                self.tables@[tsv.len() as int].1,
                            ));
                            assert(self.tables@[tsv.len() as int].1@ == esv);
                            assert(esv.len() == 1 && esv[0].0@ == key@);
                            assert(esv.drop_first() =~= Seq::<(String, Value)>::empty());
                            assert(assoc(Seq::<(String, Value)>::empty(), k2) is None);
                            assert(assoc(esv, k2) is None);
                            assert(self.spec_get(t2, k2) is None);
                        }
                    }
                }
                None
            },
            Some(ti) => {
                let (name, mut es) = self.tables.remove(ti);
                let ghost tsv = old(self).tables@;
                let ghost esv = es@;
                let r: Option<Value>;
                match find_key(&es, key) {
                    None => {
                        proof {
                            lemma_assoc_none(esv, key@);
                        }
                        es.push((key.clone(), value));
                        r = None;
                        proof {
                            assert forall|k2: Seq<char>| true implies assoc(es@, k2) == (
                            if assoc(esv, k2) is Some {
                                assoc(esv, k2)
                            } else if key@ == k2 {
                                Option::Some(es@[esv.len() as int].1)
                            } else {
                                Option::None
                            }) by {
                                lemma_assoc_push(esv, es@[esv.len() as int], k2);
                            }
                        }
                    },
                    Some(ei) => {
                        let (k0, old_v) = es.remove(ei);
                        es.insert(ei, (k0, value));
                        r = Some(old_v);
                        proof {
                            assert(es@ =~= esv.update(ei as int, (esv[ei as int].0, value)));
                            assert forall|k2: Seq<char>| true implies assoc(es@, k2) == (
                            if k2 == esv[ei as int].0@ {
                                Option::Some(es@[ei as int].1)
                            } else {
                                assoc(esv, k2)
                            }) by {
                                lemma_assoc_update(esv, ei as int, value, k2);
                            }
                            assert(distinct_keys(es@));
                        }
                    },
                }
                let ghost esv2 = es@;
                self.tables.insert(ti, (name, es));
                proof {
                    let newes = self.tables@[ti as int].1;
                    assert(newes@ == esv2);
                    assert(tsv[ti as int].1@ == esv);
                    assert(self.tables@ =~= tsv.update(ti as int, (tsv[ti as int].0, newes)));
                    assert forall|t2: Seq<char>| true implies assoc(self.tables@, t2) == (
                    if t2 == tsv[ti as int].0@ {
                        Option::Some(newes)
                    } else {
                        assoc(tsv, t2)
                    }) by {
                        lemma_assoc_update(tsv, ti as int, newes, t2);
                    }
                    assert(final(self).wf());
                    assert forall|t2: Seq<char>, k2: Seq<char>|
                        !(t2 == table@ && k2 == key@) implies self.spec_get(t2, k2) == old(
                        self,
                    ).spec_get(t2, k2) by {
                        if t2 == table@ {
                            assert(assoc(self.tables@, t2) == Option::Some(newes));
                            assert(assoc(tsv, t2) == Option::Some(tsv[ti as int].1));
                            assert(assoc(esv2, k2) == assoc(esv, k2));
                        }
                    }
                }
                r
            },
        }
    }

    /// Removes the key; afterwards a get of the same key misses, and
    /// every other key is untouched. Returns the removed value, if any.
    pub fn del(&mut self, table: &String, key: &String) -> (r: Option<Value>)
        requires
            old(self).wf(),
        ensures
            final(self).wf(),
            match r {
                Some(v) => old(self).spec_get(table@, key@) == Some(v@),
                None => old(self).spec_get(table@, key@) is None,
            },
            final(self).spec_get(table@, key@) is None,
            forall|t2: Seq<char>, k2: Seq<char>|
                !(t2 == table@ && k2 == key@) ==> #[trigger] final(self).spec_get(t2, k2) == old(
                    self,
                ).spec_get(t2, k2),
    {
        match find_key(&self.tables, table) {
            None => None,
            Some(ti) => {
                let (name, mut es) = self.tables.remove(ti);
                let ghost tsv = old(self).tables@;
                let ghost esv = es@;
                let r: Option<Value>;
                match find_key(&es, key) {
                    None => {
                        r = None;
                    },
                    Some(ei) => {
                        let (_k0, old_v) = es.remove(ei);
                        r = Some(old_v);
                        proof {
                            assert forall|k2: Seq<char>| true implies assoc(es@, k2) == (
                            if k2 == key@ {
                                Option::None::<Value>
                            } else {
                                assoc(esv, k2)
                            }) by {
                                lemma_assoc_remove(esv, ei as int, k2);
                            }
                            lemma_distinct_remove(esv, ei as int);
                        }
                    },
                }
                let ghost esv2 = es@;
                self.tables.insert(ti, (name, es));
                proof {
                    let newes = self.tables@[ti as int].1;
                    assert(newes@ == esv2);
                    assert(tsv[ti as int].1@ == esv);
                    assert(self.tables@ =~= tsv.update(ti as int, (tsv[ti as int].0, newes)));
                    assert forall|t2: Seq<char>| true implies assoc(self.tables@, t2) == (
                    if t2 == tsv[ti as int].0@ {
                        Option::Some(newes)
                    } else {
                        assoc(tsv, t2)
                    }) by {
                        lemma_assoc_update(tsv, ti as int, newes, t2);
                    }
                    assert(final(self).wf());
                    assert forall|t2: Seq<char>, k2: Seq<char>|
                        !(t2 == table@ && k2 == key@) implies self.spec_get(t2, k2) == old(
                        self,
                    ).spec_get(t2, k2) by {
                        if t2 == table@ {
                            assert(assoc(self.tables@, t2) == Option::Some(newes));
                            assert(assoc(tsv, t2) == Option::Some(tsv[ti as int].1));
                            assert(assoc(esv2, k2) == assoc(esv, k2));
                        }
                    }
                }
                r
            },
        }
    }

    /// A snapshot of every pair in the table, in insertion order, with
    /// no expirations.
    pub fn get_all(&self, table: &String) -> (r: Vec<Kvpair>)
        ensures
            views_of(r@) == match self.spec_table(table@) {
                Some(es) => pairs_of(es),
                None => Seq::<KvpairV>::empty(),
            },
    {
        let mut out: Vec<Kvpair> = Vec::new();
        match find_key(&self.tables, table) {
            None => {
                proof {
                    assert(views_of(out@) =~= Seq::<KvpairV>::empty());
                }
            },
            Some(ti) => {
                let es = &self.tables[ti].1;
                let mut i: usize = 0;
                proof {
                    assert(views_of(out@) =~= pairs_of(es@.take(0)));
                }
                while i < es.len()
                    invariant
                        i <= es@.len(),
                        views_of(out@) == pairs_of(es@.take(i as int)),
                    decreases es@.len() - i,
                {
                    let ghost pre = out@;
                    out.push(
                        Kvpair { key: es[i].0.clone(), value: es[i].1.dup(), expires: None },
                    );
                    proof {
                        let p = out@[out@.len() - 1];
                        assert(p@ == (KvpairV {
                            key: es@[i as int].0@,
                            value: es@[i as int].1@,
                            expires: None,
                        }));
                        assert(views_of(out@) =~= views_of(pre).push(p@));
                        assert(es@.take(i + 1 as int) =~= es@.take(i as int).push(es@[i as int]));
                        assert(pairs_of(es@.take(i as int).push(es@[i as int]))
                            =~= pairs_of(es@.take(i as int)).push(p@));
                        assert(views_of(out@) =~= pairs_of(es@.take(i + 1 as int)));
                    }
                    i = i + 1;
                }
                proof {
                    assert(es@.take(es@.len() as int) =~= es@);
                }
            },
        }
        out
    }
}

/// The position of the entry carrying the key, scanning forward.
pub(crate) fn find_key<X>(v: &Vec<(String, X)>, k: &String) -> (r: Option<usize>)
    ensures
        match r {
            Some(i) => i < v@.len() && v@[i as int].0@ == k@ && assoc(v@, k@) == Some(
                v@[i as int].1,
            ) && (forall|j: int| 0 <= j < i ==> v@[j].0@ != k@),
            None => assoc(v@, k@) is None,
        },
{
    let mut i: usize = 0;
    while i < v.len()
        invariant
            i <= v@.len(),
            forall|j: int| 0 <= j < i ==> v@[j].0@ != k@,
        decreases v@.len() - i,
    {
        if v[i].0 == *k {
            proof {
                lemma_assoc_at(v@, k@, i as int);
            }
            return Some(i);
        }
        i = i + 1;
    }
    proof {
        lemma_assoc_none(v@, k@);
    }
    None
}

} // verus!
