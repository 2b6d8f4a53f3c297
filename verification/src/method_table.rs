//! The per-namespace method table: an immutable mapping from method name to
//! an invocable handler, with method names unique within the table.

use vstd::prelude::*;

verus! {

/// The name/handler pairs of one namespace, as a mathematical sequence.
pub type EntrySeq<H> = Seq<(Seq<char>, H)>;

/// No method name occurs twice in the sequence of entries.
pub open spec fn unique_names<H>(s: EntrySeq<H>) -> bool {
    forall|i: int, j: int| 0 <= i < j < s.len() ==> s[i].0 != s[j].0
}

/// The mapping that a sequence of name/handler pairs denotes.
/// Later entries win, but under `unique_names` the order is irrelevant.
pub open spec fn entries_map<H>(s: EntrySeq<H>) -> Map<Seq<char>, H>
    decreases s.len(),
{
    if s.len() == 0 {
        Map::empty()
    } else {
        entries_map(s.drop_last()).insert(s.last().0, s.last().1)
    }
}

/// A name is in the domain of `entries_map` exactly when some entry carries it.
pub proof fn lemma_entries_map_dom<H>(s: EntrySeq<H>, n: Seq<char>)
    ensures
        entries_map(s).contains_key(n) <==> exists|i: int| 0 <= i < s.len() && s[i].0 == n,
    decreases s.len(),
{
    if s.len() > 0 {
        lemma_entries_map_dom(s.drop_last(), n);
        if s.last().0 == n {
            assert(s[s.len() - 1].0 == n);
        } else if entries_map(s).contains_key(n) {
            let i = choose|i: int| 0 <= i < s.drop_last().len() && s.drop_last()[i].0 == n;
            assert(s[i].0 == n);
        } else if exists|i: int| 0 <= i < s.len() && s[i].0 == n {
            let i = choose|i: int| 0 <= i < s.len() && s[i].0 == n;
            assert(s.drop_last()[i].0 == n);
        }
    }
}

/// Under unique names, each entry's handler is the one the map assigns to it.
pub proof fn lemma_entries_map_index<H>(s: EntrySeq<H>, i: int)
    requires
        unique_names(s),
        0 <= i < s.len(),
    ensures
        entries_map(s).contains_key(s[i].0),
        entries_map(s)[s[i].0] == s[i].1,
    decreases s.len(),
{
    lemma_entries_map_dom(s, s[i].0);
    if i < s.len() - 1 {
        assert(s.drop_last()[i] == s[i]);
        lemma_entries_map_index(s.drop_last(), i);
        assert(s[i].0 != s.last().0);
    }
}

/// Under unique names, the map is finite and exactly as large as the sequence.
pub proof fn lemma_entries_map_len<H>(s: EntrySeq<H>)
    requires
        unique_names(s),
    ensures
        entries_map(s).dom().finite(),
        entries_map(s).dom().len() == s.len(),
    decreases s.len(),
{
    if s.len() > 0 {
        lemma_entries_map_len(s.drop_last());
        lemma_entries_map_dom(s.drop_last(), s.last().0);
    }
}

/// One namespace's contribution: a mapping from method name to handler,
/// produced by that namespace's handler set and unique by construction.
///
/// The handler type `H` is opaque to the registry: a cheaply copyable handle
/// (an identifier, an index into a handler arena) that the invocation layer
/// resolves to the actual invocable unit.
pub struct MethodTable<H> {
    entries: Vec<(String, H)>,
}

impl<H> MethodTable<H> {
    /// The entries as a mathematical sequence of (name, handler) pairs.
    pub closed spec fn entries_view(self) -> EntrySeq<H> {
        self.entries@.map_values(|e: (String, H)| (e.0@, e.1))
    }

    /// The mapping from method name to handler that this table denotes.
    pub open spec fn methods(self) -> Map<Seq<char>, H> {
        entries_map(self.entries_view())
    }

    /// The set of method names the table binds.
    pub open spec fn names(self) -> Set<Seq<char>> {
        self.methods().dom()
    }

    /// Well-formed: no method name is bound twice.
    pub open spec fn wf(self) -> bool {
        unique_names(self.entries_view())
    }
}

impl<H: Copy> MethodTable<H> {
    /// An empty method table.
    pub fn new() -> (t: Self)
        ensures
            t.wf(),
            t.methods() == Map::<Seq<char>, H>::empty(),
    {
        let t = MethodTable { entries: Vec::new() };
        proof {
            assert(t.entries_view() =~= Seq::<(Seq<char>, H)>::empty());
        }
        t
    }

    /// The index of the entry carrying `name`, if any.
    fn find(&self, name: &String) -> (r: Option<usize>)
        ensures
            match r {
                Some(i) => i < self.entries_view().len() && self.entries_view()[i as int].0
                    == name@,
                None => forall|k: int|
                    0 <= k < self.entries_view().len() ==> self.entries_view()[k].0 != name@,
            },
    {
        let n = self.entries.len();
        let mut i: usize = 0;
        while i < n
            invariant
                i <= n,
                n == self.entries.len(),
                forall|k: int| 0 <= k < i ==> self.entries_view()[k].0 != name@,
            decreases n - i,
        {
            if self.entries[i].0 == *name {
                return Some(i);
            }
            i += 1;
        }
        None
    }

    /// Whether the table binds `name`.
    pub fn contains_method(&self, name: &String) -> (r: bool)
        ensures
            r == self.names().contains(name@),
    {
        proof {
            lemma_entries_map_dom(self.entries_view(), name@);
        }
        self.find(name).is_some()
    }

    /// Bind `name` to `handler`, unless `name` is already bound.
    ///
    /// Returns whether the binding was added; an existing binding is never
    /// overwritten, so the table's names stay unique.
    pub fn register(&mut self, name: String, handler: H) -> (added: bool)
        requires
            old(self).wf(),
        ensures
            final(self).wf(),
            added == !old(self).names().contains(name@),
            added ==> final(self).methods() == old(self).methods().insert(name@, handler),
            !added ==> *final(self) == *old(self),
    {
        proof {
            lemma_entries_map_dom(self.entries_view(), name@);
        }
        match self.find(&name) {
            Some(_) => false,
            None => {
                let ghost pre = self.entries_view();
                self.entries.push((name, handler));
                proof {
                    assert(self.entries_view() =~= pre.push((name@, handler)));
                    assert(self.entries_view().drop_last() =~= pre);
                    lemma_entries_map_dom(pre, name@);
                }
                true
            },
        }
    }

    /// The handler bound to `name`, if any.
    pub fn get(&self, name: &String) -> (r: Option<H>)
        requires
            self.wf(),
        ensures
            match r {
                Some(h) => self.methods().contains_key(name@) && self.methods()[name@] == h,
                None => !self.methods().contains_key(name@),
            },
    {
        proof {
            lemma_entries_map_dom(self.entries_view(), name@);
        }
        match self.find(name) {
            Some(i) => {
                proof {
                    lemma_entries_map_index(self.entries_view(), i as int);
                }
                Some(self.entries[i].1)
            },
            None => None,
        }
    }

    /// How many methods the table binds.
    pub fn len(&self) -> (n: usize)
        requires
            self.wf(),
        ensures
            n == self.names().len(),
            n == self.entries_view().len(),
    {
        proof {
            lemma_entries_map_len(self.entries_view());
        }
        self.entries.len()
    }

    /// How many entries the table holds, for iteration.
    pub fn entry_count(&self) -> (n: usize)
        ensures
            n == self.entries_view().len(),
    {
        self.entries.len()
    }

    /// The `i`-th name/handler pair, for iteration.
    pub fn entry_at(&self, i: usize) -> (e: (String, H))
        requires
            i < self.entries_view().len(),
        ensures
            e.0@ == self.entries_view()[i as int].0,
            e.1 == self.entries_view()[i as int].1,
    {
        let name = self.entries[i].0.clone();
        (name, self.entries[i].1)
    }
}

} // verus!
