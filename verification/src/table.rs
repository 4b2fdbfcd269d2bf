//! The route table: a mapping from (method, path) to a handler reference,
//! with unique keys. Each entry remembers the source file it came from, so
//! that a duplicate route can be reported with both files named.
use vstd::prelude::*;

verus! {

/// One registered route: the key, the handler, and the file that defined it.
pub struct RouteEntry<H> {
    pub method: String,
    pub path: String,
    pub source: String,
    pub handler: H,
}

/// The error for two files that resolve to the same (method, path).
#[derive(Debug)]
pub struct DuplicateRoute {
    pub method: String,
    pub path: String,
    pub existing_source: String,
    pub new_source: String,
}

impl<H> RouteEntry<H> {
    /// The (method, path) key of this entry, as sequences.
    pub open spec fn key(self) -> (Seq<char>, Seq<char>) {
        (self.method@, self.path@)
    }
}

/// The abstract contents of a table: key to (source file, handler).
pub open spec fn map_of<H>(es: Seq<RouteEntry<H>>) -> Map<
    (Seq<char>, Seq<char>),
    (Seq<char>, H),
>
    decreases es.len(),
{
    if es.len() == 0 {
        Map::empty()
    } else {
        map_of(es.drop_last()).insert(es.last().key(), (es.last().source@, es.last().handler))
    }
}

/// A key is in the map exactly when some entry carries it.
pub proof fn lemma_map_of_contains<H>(es: Seq<RouteEntry<H>>, k: (Seq<char>, Seq<char>))
    ensures
        map_of(es).contains_key(k) <==> exists|i: int| 0 <= i < es.len() && es[i].key() == k,
    decreases es.len(),
{
    if es.len() > 0 {
        lemma_map_of_contains(es.drop_last(), k);
        if map_of(es).contains_key(k) {
            if es.last().key() == k {
                assert(es[es.len() - 1].key() == k);
            }
        }
        if exists|i: int| 0 <= i < es.len() && es[i].key() == k {
            let i = choose|i: int| 0 <= i < es.len() && es[i].key() == k;
            if i < es.len() - 1 {
                assert(es.drop_last()[i].key() == k);
            }
        }
    }
}

/// With pairwise-distinct keys, the map sends each entry's key to that
/// entry's source and handler.
pub proof fn lemma_map_of_index<H>(es: Seq<RouteEntry<H>>, i: int)
    requires
        0 <= i < es.len(),
        forall|p: int, q: int|
            0 <= p < q < es.len() ==> (#[trigger] es[p].key()) != (#[trigger] es[q].key()),
    ensures
        map_of(es).contains_key(es[i].key()),
        map_of(es)[es[i].key()] == (es[i].source@, es[i].handler),
    decreases es.len(),
{
    lemma_map_of_contains(es, es[i].key());
    if i < es.len() - 1 {
        assert(es.drop_last()[i] == es[i]);
        lemma_map_of_index(es.drop_last(), i);
        assert(es[i].key() != es.last().key());
    }
}

/// The table itself. Built once per load pass, read by the engine.
pub struct RouteTable<H> {
    pub entries: Vec<RouteEntry<H>>,
}

/// How one insertion transforms a table's contents: an occupied key leaves
/// the map unchanged and reports the source file already holding the key;
/// a fresh key extends the map.
pub open spec fn spec_insert<H>(
    m: Map<(Seq<char>, Seq<char>), (Seq<char>, H)>,
    method: Seq<char>,
    path: Seq<char>,
    source: Seq<char>,
    handler: H,
) -> (Map<(Seq<char>, Seq<char>), (Seq<char>, H)>, Option<Seq<char>>) {
    if m.contains_key((method, path)) {
        (m, Some(m[(method, path)].0))
    } else {
        (m.insert((method, path), (source, handler)), None)
    }
}

impl<H> RouteTable<H> {
    /// Keys are pairwise distinct.
    pub open spec fn wf(self) -> bool {
        forall|p: int, q: int|
            0 <= p < q < self.entries@.len() ==> (#[trigger] self.entries@[p].key())
                != (#[trigger] self.entries@[q].key())
    }

    /// The table's contents as a map.
    pub open spec fn view(self) -> Map<(Seq<char>, Seq<char>), (Seq<char>, H)> {
        map_of(self.entries@)
    }

    /// An empty table.
    pub fn new() -> (r: RouteTable<H>)
        ensures
            r.wf(),
            r.view() == Map::<(Seq<char>, Seq<char>), (Seq<char>, H)>::empty(),
    {
        RouteTable { entries: Vec::new() }
    }

    /// The entry whose key equals (method, path), if one exists.
    fn position_of(&self, method: &str, path: &str) -> (r: Option<usize>)
        ensures
            match r {
                Some(i) => i < self.entries@.len() && self.entries@[i as int].key() == (
                    method@,
                    path@,
                ),
                None => forall|i: int|
                    0 <= i < self.entries@.len() ==> (#[trigger] self.entries@[i].key()) != (
                        method@,
                        path@,
                    ),
            },
    {
        let n = self.entries.len();
        let mut i: usize = 0;
        while i < n
            invariant
                i <= n,
                n == self.entries@.len(),
                forall|j: int|
                    0 <= j < i ==> (#[trigger] self.entries@[j].key()) != (method@, path@),
            decreases n - i,
        {
            let e = &self.entries[i];
            if crate::scan::str_eq(e.method.as_str(), method) && crate::scan::str_eq(
                e.path.as_str(),
                path,
            ) {
                return Some(i);
            }
            i = i + 1;
        }
        None
    }

    /// Exact-match lookup; no parameter or wildcard segments.
    pub fn lookup(&self, method: &str, path: &str) -> (r: Option<&H>)
        requires
            self.wf(),
        ensures
            match r {
                Some(h) => self.view().contains_key((method@, path@)) && *h == self.view()[
                    (method@, path@)
                ].1,
                None => !self.view().contains_key((method@, path@)),
            },
    {
        proof {
            lemma_map_of_contains(self.entries@, (method@, path@));
        }
        match self.position_of(method, path) {
            Some(i) => {
                proof {
                    lemma_map_of_index(self.entries@, i as int);
                }
                Some(&self.entries[i].handler)
            },
            None => None,
        }
    }

    /// Registers a route. A key already present is a fatal configuration
    /// error: the result names the file that holds the key and the file
    /// that collided with it, and the table is left unchanged.
    pub fn insert(&mut self, method: String, path: String, source: String, handler: H) -> (r:
        Result<(), DuplicateRoute>)
        requires
            old(self).wf(),
        ensures
            final(self).wf(),
            match r {
                Ok(()) => !old(self).view().contains_key((method@, path@)) && final(self).view()
                    == spec_insert(old(self).view(), method@, path@, source@, handler).0,
                Err(d) => {
                    &&& old(self).view().contains_key((method@, path@))
                    &&& d.method@ == method@
                    &&& d.path@ == path@
                    &&& d.existing_source@ == old(self).view()[(method@, path@)].0
                    &&& d.new_source == source
                    &&& final(self).view() == old(self).view()
                },
            },
    {
        proof {
            lemma_map_of_contains(self.entries@, (method@, path@));
        }
        match self.position_of(method.as_str(), path.as_str()) {
            Some(i) => {
                proof {
                    lemma_map_of_index(self.entries@, i as int);
                }
                let existing = self.entries[i].source.clone();
                Err(DuplicateRoute {
                    method,
                    path,
                    existing_source: existing,
                    new_source: source,
                })
            },
            None => {
                let e = RouteEntry { method, path, source, handler };
                self.entries.push(e);
                proof {
                    assert(self.entries@.drop_last() =~= old(self).entries@);
                }
                Ok(())
            },
        }
    }
}

/// Two files that resolve to the same (method, path) are always caught:
/// after a first file registers a key, a second insertion with that key is
/// refused, the report names the first file's source alongside the second,
/// and the table keeps only the first registration.
pub proof fn lemma_duplicate_route_rejected<H>(
    m: Map<(Seq<char>, Seq<char>), (Seq<char>, H)>,
    method: Seq<char>,
    path: Seq<char>,
    first_source: Seq<char>,
    first_handler: H,
    second_source: Seq<char>,
    second_handler: H,
)
    requires
        !m.contains_key((method, path)),
    ensures
        spec_insert(m, method, path, first_source, first_handler).1 is None,
        spec_insert(
            spec_insert(m, method, path, first_source, first_handler).0,
            method,
            path,
            second_source,
            second_handler,
        ).1 == Some(first_source),
        spec_insert(
            spec_insert(m, method, path, first_source, first_handler).0,
            method,
            path,
            second_source,
            second_handler,
        ).0 == spec_insert(m, method, path, first_source, first_handler).0,
{
}

} // verus!
