use crate::error::{Error, TensorNodeError};
use crate::seed::Seed;
use crate::tensor::TensorNode;
use vstd::prelude::*;

verus! {

/// What the registry holds under a name: source text not built yet, or
/// what was built from it.
#[derive(Debug)]
pub enum CacheSlot<T> {
    Source(String),
    Built(T),
}

/// A registry of definitions by name.
#[derive(Debug)]
pub struct NodeCache<T> {
    entries: Vec<(String, CacheSlot<T>)>,
}

/// A script that an outside host runs, by name.
#[derive(Debug)]
pub struct PythonScript {
    pub name: String,
    pub source: String,
}

/// `e` reports that no definition is registered under `name`.
pub open spec fn is_no_such_node(e: Error, name: Seq<char>) -> bool {
    match e.tensor_node_error() {
        Some(TensorNodeError::NoSuchNode { name: n }) => n@ == name,
        _ => false,
    }
}

/// `e` reports that a definition asked for as `expected` calls itself `given`.
pub open spec fn is_mismatched_name(e: Error, expected: Seq<char>, given: Seq<char>) -> bool {
    match e.tensor_node_error() {
        Some(TensorNodeError::MismatchedName { expected: x, given: g }) => x@ == expected && g@
            == given,
        _ => false,
    }
}

impl<T> NodeCache<T> {
    pub closed spec fn wf(&self) -> bool {
        forall|i: int, j: int|
            0 <= i < self.entries@.len() && 0 <= j < self.entries@.len() && i != j
                ==> #[trigger] self.entries@[i].0@ != #[trigger] self.entries@[j].0@
    }

    /// What the registry holds, by name.
    pub closed spec fn view(&self) -> Map<Seq<char>, CacheSlot<T>> {
        Map::new(
            |k: Seq<char>| exists|i: int| 0 <= i < self.entries@.len() && #[trigger] self.entries@[i].0@ == k,
            |k: Seq<char>|
                self.entries@[choose|i: int|
                    0 <= i < self.entries@.len() && #[trigger] self.entries@[i].0@ == k].1,
        )
    }

    pub fn new() -> (r: NodeCache<T>)
        ensures
            r.wf(),
            r@ == Map::<Seq<char>, CacheSlot<T>>::empty(),
    {
        let r = NodeCache { entries: Vec::new() };
        assert(r@ =~= Map::<Seq<char>, CacheSlot<T>>::empty());
        r
    }

    fn find(&self, name: &str) -> (r: Option<usize>)
        requires
            self.wf(),
        ensures
            r matches Some(i) ==> i < self.entries@.len() && self.entries@[i as int].0@ == name@,
            r is None ==> !self@.contains_key(name@),
    {
        let key = name.to_string();
        let mut i: usize = 0;
        while i < self.entries.len()
            invariant
                key@ == name@,
                i <= self.entries@.len(),
                forall|j: int| 0 <= j < i ==> #[trigger] self.entries@[j].0@ != name@,
            decreases self.entries@.len() - i,
        {
            if self.entries[i].0 == key {
                return Some(i);
            }
            i = i + 1;
        }
        None
    }

    proof fn lemma_view_at(&self, i: int)
        requires
            self.wf(),
            0 <= i < self.entries@.len(),
        ensures
            self@.contains_key(self.entries@[i].0@),
            self@[self.entries@[i].0@] == self.entries@[i].1,
    {
        let k = self.entries@[i].0@;
        assert(self.entries@[i].0@ == k);
        let c = choose|j: int| 0 <= j < self.entries@.len() && #[trigger] self.entries@[j].0@ == k;
        assert(self.entries@[c].0@ == self.entries@[i].0@);
    }

    /// Puts `slot` under `name`, replacing what was there.
    fn put(&mut self, name: String, slot: CacheSlot<T>)
        requires
            old(self).wf(),
        ensures
            final(self).wf(),
            final(self)@ == old(self)@.insert(name@, slot),
    {
        let ghost key = name@;
        let ghost old_entries = self.entries@;
        match self.find(name.as_str()) {
            Some(i) => {
                self.entries.set(i, (name, slot));
                proof {
                    assert forall|a: int, b: int|
                        0 <= a < self.entries@.len() && 0 <= b < self.entries@.len() && a != b
                            implies #[trigger] self.entries@[a].0@ != #[trigger] self.entries@[b].0@ by {
                        assert(old_entries[a].0@ == self.entries@[a].0@);
                        assert(old_entries[b].0@ == self.entries@[b].0@);
                    }
                    assert forall|k: Seq<char>| #[trigger] self@.contains_key(k) == old(self)@.insert(key, slot).contains_key(k) by {
                        if exists|j: int| 0 <= j < old_entries.len() && #[trigger] old_entries[j].0@ == k {
                            let j = choose|j: int| 0 <= j < old_entries.len() && #[trigger] old_entries[j].0@ == k;
                            assert(self.entries@[j].0@ == k);
                        }
                        if exists|j: int| 0 <= j < self.entries@.len() && #[trigger] self.entries@[j].0@ == k {
                            let j = choose|j: int| 0 <= j < self.entries@.len() && #[trigger] self.entries@[j].0@ == k;
                            assert(old_entries[j].0@ == k);
                        }
                    }
                    assert forall|k: Seq<char>| #[trigger] self@.contains_key(k) implies self@[k] == old(self)@.insert(key, slot)[k] by {
                        let j = choose|j: int| 0 <= j < self.entries@.len() && #[trigger] self.entries@[j].0@ == k;
                        self.lemma_view_at(j);
                        old(self).lemma_view_at(j);
                    }
                    assert(self@ =~= old(self)@.insert(key, slot));
                }
            },
            None => {
                self.entries.push((name, slot));
                proof {
                    let n = old_entries.len() as int;
                    assert forall|a: int, b: int|
                        0 <= a < self.entries@.len() && 0 <= b < self.entries@.len() && a != b
                            implies #[trigger] self.entries@[a].0@ != #[trigger] self.entries@[b].0@ by {
                        if a == n {
                            assert(old_entries[b].0@ == self.entries@[b].0@);
                            assert(old(self)@.contains_key(old_entries[b].0@)) by {
                                old(self).lemma_view_at(b);
                            }
                        } else if b == n {
                            assert(old_entries[a].0@ == self.entries@[a].0@);
                            assert(old(self)@.contains_key(old_entries[a].0@)) by {
                                old(self).lemma_view_at(a);
                            }
                        }
                    }
                    assert forall|k: Seq<char>| #[trigger] self@.contains_key(k) == old(self)@.insert(key, slot).contains_key(k) by {
                        if exists|j: int| 0 <= j < old_entries.len() && #[trigger] old_entries[j].0@ == k {
                            let j = choose|j: int| 0 <= j < old_entries.len() && #[trigger] old_entries[j].0@ == k;
                            assert(self.entries@[j].0@ == k);
                        }
                        if k == key {
                            assert(self.entries@[n].0@ == k);
                        }
                        if exists|j: int| 0 <= j < self.entries@.len() && #[trigger] self.entries@[j].0@ == k {
                            let j = choose|j: int| 0 <= j < self.entries@.len() && #[trigger] self.entries@[j].0@ == k;
                            if j < n {
                                assert(old_entries[j].0@ == k);
                            }
                        }
                    }
                    assert forall|k: Seq<char>| #[trigger] self@.contains_key(k) implies self@[k] == old(self)@.insert(key, slot)[k] by {
                        let j = choose|j: int| 0 <= j < self.entries@.len() && #[trigger] self.entries@[j].0@ == k;
                        self.lemma_view_at(j);
                        if j < n {
                            old(self).lemma_view_at(j);
                        }
                    }
                    assert(self@ =~= old(self)@.insert(key, slot));
                }
            },
        }
    }

    /// Registers source text under `name`, replacing what was there.
    pub fn add_source(&mut self, name: String, source: String)
        requires
            old(self).wf(),
        ensures
            final(self).wf(),
            final(self)@ == old(self)@.insert(name@, CacheSlot::Source(source)),
    {
        self.put(name, CacheSlot::Source(source));
    }

    /// Keeps what was built under `name`, so that it is built once.
    pub fn add_built(&mut self, name: String, built: T)
        requires
            old(self).wf(),
        ensures
            final(self).wf(),
            final(self)@ == old(self)@.insert(name@, CacheSlot::Built(built)),
    {
        self.put(name, CacheSlot::Built(built));
    }

    /// What is registered under `name`: built, or source to build.
    pub fn get(&self, name: &str) -> (r: Result<&CacheSlot<T>, Error>)
        requires
            self.wf(),
        ensures
            r matches Ok(s) ==> self@.contains_key(name@) && *s == self@[name@],
            r matches Err(e) ==> !self@.contains_key(name@) && is_no_such_node(e, name@),
    {
        match self.find(name) {
            Some(i) => {
                proof {
                    self.lemma_view_at(i as int);
                }
                Ok(&self.entries[i].1)
            },
            None => Err(
                Error::from_tensor_node(TensorNodeError::NoSuchNode { name: name.to_string() }),
            ),
        }
    }
}

/// A definition parsed for `expected` must call itself so.
pub fn check_name(expected: &str, given: String) -> (r: Result<(), Error>)
    ensures
        r is Ok <==> expected@ == given@,
        r matches Err(e) ==> is_mismatched_name(e, expected@, given@),
{
    let expected = expected.to_string();
    if expected == given {
        Ok(())
    } else {
        Err(Error::from_tensor_node(TensorNodeError::MismatchedName { expected, given }))
    }
}

/// The registries of node and script definitions, with the seed of ids.
#[derive(Debug)]
pub struct NodeRoot {
    seed: Seed,
    sources: NodeCache<TensorNode>,
    externs: NodeCache<PythonScript>,
}

impl NodeRoot {
    pub closed spec fn wf(&self) -> bool {
        self.sources.wf() && self.externs.wf()
    }

    /// The smallest id that the root may issue next.
    pub closed spec fn next_id(&self) -> u64 {
        self.seed.next_id()
    }

    /// A fresh id, greater than every one the root issued before.
    pub fn generate(&mut self) -> (r: u64)
        requires
            old(self).next_id() < u64::MAX,
        ensures
            r == old(self).next_id(),
            final(self).next_id() == r + 1,
            final(self).wf() == old(self).wf(),
            final(self).nodes() == old(self).nodes(),
            final(self).scripts() == old(self).scripts(),
    {
        self.seed.generate()
    }

    pub closed spec fn nodes(&self) -> Map<Seq<char>, CacheSlot<TensorNode>> {
        self.sources@
    }

    pub closed spec fn scripts(&self) -> Map<Seq<char>, CacheSlot<PythonScript>> {
        self.externs@
    }

    pub fn new() -> (r: NodeRoot)
        ensures
            r.wf(),
            r.nodes() == Map::<Seq<char>, CacheSlot<TensorNode>>::empty(),
            r.scripts() == Map::<Seq<char>, CacheSlot<PythonScript>>::empty(),
            r.next_id() == 1,
    {
        NodeRoot { seed: Seed::new(), sources: NodeCache::new(), externs: NodeCache::new() }
    }

    pub fn add_source(&mut self, name: String, source: String)
        requires
            old(self).wf(),
        ensures
            final(self).wf(),
            final(self).nodes() == old(self).nodes().insert(name@, CacheSlot::Source(source)),
            final(self).scripts() == old(self).scripts(),
            final(self).next_id() == old(self).next_id(),
    {
        self.sources.add_source(name, source);
    }

    pub fn add_extern_source(&mut self, name: String, source: String)
        requires
            old(self).wf(),
        ensures
            final(self).wf(),
            final(self).scripts() == old(self).scripts().insert(name@, CacheSlot::Source(source)),
            final(self).nodes() == old(self).nodes(),
            final(self).next_id() == old(self).next_id(),
    {
        self.externs.add_source(name, source);
    }

    pub fn add_built(&mut self, name: String, node: TensorNode)
        requires
            old(self).wf(),
        ensures
            final(self).wf(),
            final(self).nodes() == old(self).nodes().insert(name@, CacheSlot::Built(node)),
            final(self).scripts() == old(self).scripts(),
            final(self).next_id() == old(self).next_id(),
    {
        self.sources.add_built(name, node);
    }

    pub fn add_built_extern(&mut self, name: String, script: PythonScript)
        requires
            old(self).wf(),
        ensures
            final(self).wf(),
            final(self).scripts() == old(self).scripts().insert(name@, CacheSlot::Built(script)),
            final(self).nodes() == old(self).nodes(),
            final(self).next_id() == old(self).next_id(),
    {
        self.externs.add_built(name, script);
    }

    /// What is registered as the node `name`.
    pub fn get(&self, name: &str) -> (r: Result<&CacheSlot<TensorNode>, Error>)
        requires
            self.wf(),
        ensures
            r matches Ok(s) ==> self.nodes().contains_key(name@) && *s == self.nodes()[name@],
            r matches Err(e) ==> !self.nodes().contains_key(name@) && is_no_such_node(e, name@),
    {
        self.sources.get(name)
    }

    /// Decides whether the node `name` is still to be built: its source text
    /// where it is, `None` where it was built already.  Building it and
    /// keeping the result with `add_built` makes later requests find it.
    pub fn source_to_build(&self, name: &str) -> (r: Result<Option<String>, Error>)
        requires
            self.wf(),
        ensures
            r is Ok <==> self.nodes().contains_key(name@),
            r matches Ok(Some(t)) ==> self.nodes()[name@] == CacheSlot::<TensorNode>::Source(t),
            r matches Ok(None) ==> self.nodes()[name@] is Built,
            r matches Err(e) ==> is_no_such_node(e, name@),
    {
        match self.sources.get(name) {
            Ok(CacheSlot::Source(t)) => Ok(Some(t.clone())),
            Ok(CacheSlot::Built(_)) => Ok(None),
            Err(e) => Err(e),
        }
    }

    /// What is registered as the script `name`.
    pub fn get_extern(&self, name: &str) -> (r: Result<&CacheSlot<PythonScript>, Error>)
        requires
            self.wf(),
        ensures
            r matches Ok(s) ==> self.scripts().contains_key(name@) && *s == self.scripts()[name@],
            r matches Err(e) ==> !self.scripts().contains_key(name@) && is_no_such_node(e, name@),
    {
        self.externs.get(name)
    }
}

} // verus!
