//! The namespace registry and the collision-checking dispatch-table merge.
//!
//! A registry maps each supported namespace to the method table its handler
//! set contributed.  Building the dispatch table flattens every namespace's
//! table into one name-keyed table, and fails with a
//! [`NamespaceCollisionError`] instead of overwriting when two namespaces
//! define the same method name.

use vstd::prelude::*;

use crate::method_table::{entries_map, lemma_entries_map_dom, MethodTable};

verus! {

/// The RPC namespaces this registry supports: a closed set, fixed at build
/// time, with structural equality.
#[derive(Debug, Clone, Copy, PartialEq, Eq, Hash, Structural)]
pub enum KakarotRpcModule {
    Eth,
    Alchemy,
}

/// Two namespaces both defined the same method name, so no dispatch table
/// can be produced: the merged table could not represent both handlers.
#[derive(Debug)]
pub struct NamespaceCollisionError {
    /// The method name that both namespaces define.
    pub method: String,
    /// The namespace that contributed the name first.
    pub first: KakarotRpcModule,
    /// The namespace whose table also defines the name.
    pub second: KakarotRpcModule,
}

/// The registry's contents, as a mathematical sequence of namespace/table
/// pairs.
pub type ModuleSeq<H> = Seq<(KakarotRpcModule, MethodTable<H>)>;

/// Every table in the registry is well-formed.
pub open spec fn tables_wf<H>(mods: ModuleSeq<H>) -> bool {
    forall|i: int| 0 <= i < mods.len() ==> (#[trigger] mods[i].1).wf()
}

/// No namespace tag occurs twice.
pub open spec fn distinct_tags<H>(mods: ModuleSeq<H>) -> bool {
    forall|i: int, j: int| 0 <= i < j < mods.len() ==> mods[i].0 != mods[j].0
}

/// No method name is defined by two different namespaces.
pub open spec fn no_collisions<H>(mods: ModuleSeq<H>) -> bool {
    forall|i: int, j: int|
        0 <= i < j < mods.len() ==> (#[trigger] mods[i].1).names().disjoint(
            (#[trigger] mods[j].1).names(),
        )
}

/// The flattened mapping from method name to handler.  Later namespaces win,
/// but under `no_collisions` the order is irrelevant.
pub open spec fn merged_map<H>(mods: ModuleSeq<H>) -> Map<Seq<char>, H>
    decreases mods.len(),
{
    if mods.len() == 0 {
        Map::empty()
    } else {
        merged_map(mods.drop_last()).union_prefer_right(mods.last().1.methods())
    }
}

/// The namespace `tag` is in the registry and its table defines `n`.
pub open spec fn tag_defines<H>(mods: ModuleSeq<H>, tag: KakarotRpcModule, n: Seq<char>) -> bool {
    exists|i: int| 0 <= i < mods.len() && mods[i].0 == tag && (#[trigger] mods[i].1).names().contains(n)
}

/// A name is in the merged mapping exactly when some namespace defines it.
pub proof fn lemma_merged_map_dom<H>(mods: ModuleSeq<H>, n: Seq<char>)
    ensures
        merged_map(mods).contains_key(n) <==> exists|i: int|
            0 <= i < mods.len() && (#[trigger] mods[i].1).names().contains(n),
    decreases mods.len(),
{
    if mods.len() > 0 {
        lemma_merged_map_dom(mods.drop_last(), n);
        if mods.last().1.names().contains(n) {
            assert(mods[mods.len() - 1].1.names().contains(n));
        } else if merged_map(mods).contains_key(n) {
            let i = choose|i: int|
                0 <= i < mods.drop_last().len() && (#[trigger] mods.drop_last()[i].1).names().contains(n);
            assert(mods[i].1.names().contains(n));
        } else if exists|i: int| 0 <= i < mods.len() && (#[trigger] mods[i].1).names().contains(n) {
            let i = choose|i: int| 0 <= i < mods.len() && (#[trigger] mods[i].1).names().contains(n);
            assert(mods.drop_last()[i].1.names().contains(n));
        }
    }
}

/// In a collision-free registry every namespace's bindings survive the merge
/// unchanged: the handler behind a merged name is the one of the namespace
/// that defined it.
pub proof fn lemma_merged_map_value<H>(mods: ModuleSeq<H>, i: int, n: Seq<char>)
    requires
        no_collisions(mods),
        0 <= i < mods.len(),
        mods[i].1.names().contains(n),
    ensures
        merged_map(mods).contains_key(n),
        merged_map(mods)[n] == mods[i].1.methods()[n],
    decreases mods.len(),
{
    if i < mods.len() - 1 {
        let prefix = mods.drop_last();
        assert forall|a: int, b: int| 0 <= a < b < prefix.len() implies (
        #[trigger] prefix[a].1).names().disjoint((#[trigger] prefix[b].1).names()) by {
            assert(mods[a].1.names().disjoint(mods[b].1.names()));
        };
        assert(prefix[i] == mods[i]);
        lemma_merged_map_value(prefix, i, n);
        assert(mods[i].1.names().disjoint(mods[mods.len() - 1].1.names()));
        assert(!mods.last().1.names().contains(n));
    }
}

/// What a successful or failed dispatch-table build guarantees.
///
/// On success the registry was collision-free and the table binds exactly the
/// union of every namespace's methods; on failure a genuine cross-namespace
/// collision exists and the error names the offending method and the two
/// namespaces that both define it.
pub open spec fn build_post<H>(
    mods: ModuleSeq<H>,
    r: Result<DispatchTable<H>, NamespaceCollisionError>,
) -> bool {
    match r {
        Ok(t) => no_collisions(mods) && t.wf() && t.methods() == merged_map(mods),
        Err(e) => !no_collisions(mods) && e.first != e.second && tag_defines(mods, e.first, e.method@)
            && tag_defines(mods, e.second, e.method@),
    }
}

/// The merged, flattened, name-unique table that the invocation layer routes
/// incoming calls with.  Namespaces are erased: the method name is the sole
/// routing key.
pub struct DispatchTable<H> {
    table: MethodTable<H>,
}

impl<H> DispatchTable<H> {
    /// The single method table holding the merged bindings.
    pub closed spec fn table_view(self) -> MethodTable<H> {
        self.table
    }

    /// The mapping from method name to handler that the table routes with.
    pub open spec fn methods(self) -> Map<Seq<char>, H> {
        self.table_view().methods()
    }

    /// The set of method names the table can route.
    pub open spec fn names(self) -> Set<Seq<char>> {
        self.methods().dom()
    }

    /// Well-formed: no method name is bound twice.
    pub open spec fn wf(self) -> bool {
        self.table_view().wf()
    }
}

impl<H: Copy> DispatchTable<H> {
    /// The handler that calls to `name` are routed to, if any.
    pub fn get(&self, name: &String) -> (r: Option<H>)
        requires
            self.wf(),
        ensures
            match r {
                Some(h) => self.methods().contains_key(name@) && self.methods()[name@] == h,
                None => !self.methods().contains_key(name@),
            },
    {
        self.table.get(name)
    }

    /// Whether the table can route calls to `name`.
    pub fn contains_method(&self, name: &String) -> (r: bool)
        ensures
            r == self.names().contains(name@),
    {
        self.table.contains_method(name)
    }

    /// How many methods the table can route.
    pub fn len(&self) -> (n: usize)
        requires
            self.wf(),
        ensures
            n == self.names().len(),
    {
        self.table.len()
    }
}

/// Flatten the given namespace tables into one dispatch table, or report the
/// first cross-namespace method-name collision found.
///
/// No silent overwrite: an existing binding is never replaced, and a partial
/// table is never returned.
#[verifier::loop_isolation(false)]
pub fn merge_tables<H: Copy>(
    modules: &Vec<(KakarotRpcModule, MethodTable<H>)>,
) -> (r: Result<DispatchTable<H>, NamespaceCollisionError>)
    requires
        distinct_tags(modules@),
        tables_wf(modules@),
    ensures
        build_post(modules@, r),
{
    let mut acc: MethodTable<H> = MethodTable::new();
    let mut mi: usize = 0;
    while mi < modules.len()
        invariant
            mi <= modules@.len(),
            acc.wf(),
            acc.methods() == merged_map(modules@.take(mi as int)),
            no_collisions(modules@.take(mi as int)),
        decreases modules@.len() - mi,
    {
        let count = modules[mi].1.entry_count();
        let mut ei: usize = 0;
        while ei < count
            invariant
                mi < modules@.len(),
                ei <= count,
                count == modules@[mi as int].1.entries_view().len(),
                acc.wf(),
                acc.methods() == merged_map(modules@.take(mi as int)).union_prefer_right(
                    entries_map(modules@[mi as int].1.entries_view().take(ei as int)),
                ),
                forall|q: int|
                    0 <= q < ei ==> !merged_map(modules@.take(mi as int)).contains_key(
                        modules@[mi as int].1.entries_view()[q].0,
                    ),
            decreases count - ei,
        {
            let ghost view = modules@[mi as int].1.entries_view();
            let (method_name, handler) = modules[mi].1.entry_at(ei);
            let ghost name_v = method_name@;
            if acc.contains_method(&method_name) {
                proof {
                    assert(modules@[mi as int].1.wf());
                    if !merged_map(modules@.take(mi as int)).contains_key(name_v) {
                        // The name must then come from this very table's
                        // already-processed entries, which its own
                        // uniqueness rules out.
                        assert(entries_map(view.take(ei as int)).contains_key(name_v));
                        lemma_entries_map_dom(view.take(ei as int), name_v);
                        let q = choose|q: int|
                            0 <= q < view.take(ei as int).len() && view.take(ei as int)[q].0 == name_v;
                        assert(view[q].0 == view[ei as int].0);
                        assert(false);
                    }
                    lemma_merged_map_dom(modules@.take(mi as int), name_v);
                }
                // Some earlier namespace already contributed this name; find
                // it to report the collision precisely.
                let mut p: usize = 0;
                while p < mi
                    invariant
                        p <= mi,
                        exists|q: int|
                            p <= q < mi && (#[trigger] modules@[q].1).names().contains(name_v),
                    decreases mi - p,
                {
                    if modules[p].1.contains_method(&method_name) {
                        proof {
                            lemma_entries_map_dom(view, name_v);
                            assert(modules@[mi as int].1.names().contains(name_v));
                            assert(!modules@[p as int].1.names().disjoint(
                                modules@[mi as int].1.names(),
                            ));
                        }
                        return Err(NamespaceCollisionError {
                            method: method_name,
                            first: modules[p].0,
                            second: modules[mi].0,
                        });
                    }
                    p += 1;
                }
                proof {
                    assert(false);
                }
                unreached()
            } else {
                let added = acc.register(method_name, handler);
                proof {
                    assert(added);
                    assert(view.take(ei + 1).drop_last() =~= view.take(ei as int));
                    assert(view.take(ei + 1).last() == view[ei as int]);
                    assert(entries_map(view.take(ei + 1)) == entries_map(view.take(ei as int)).insert(
                        name_v,
                        handler,
                    ));
                    assert(acc.methods() =~= merged_map(modules@.take(mi as int)).union_prefer_right(
                        entries_map(view.take(ei + 1)),
                    ));
                }
                ei += 1;
            }
        }
        proof {
            let ghost view = modules@[mi as int].1.entries_view();
            assert(view.take(count as int) =~= view);
            assert(modules@.take(mi + 1).drop_last() =~= modules@.take(mi as int));
            assert(modules@.take(mi + 1).last() == modules@[mi as int]);
            assert(acc.methods() == merged_map(modules@.take(mi + 1)));
            assert forall|i: int| 0 <= i < mi as int implies (#[trigger] modules@[i].1).names().disjoint(
                modules@[mi as int].1.names(),
            ) by {
                assert forall|a: Seq<char>|
                    (#[trigger] modules@[i].1.names().contains(a))
                        implies !modules@[mi as int].1.names().contains(a) by {
                    if modules@[mi as int].1.names().contains(a) {
                        lemma_entries_map_dom(view, a);
                        let q = choose|q: int| 0 <= q < view.len() && view[q].0 == a;
                        assert(!merged_map(modules@.take(mi as int)).contains_key(view[q].0));
                        lemma_merged_map_dom(modules@.take(mi as int), a);
                        assert(modules@.take(mi as int)[i].1.names().contains(a));
                        assert(false);
                    }
                };
            };
            assert forall|i: int, j: int| 0 <= i < j < mi + 1 implies (#[trigger] modules@[i].1).names().disjoint(
                (#[trigger] modules@[j].1).names(),
            ) by {
                if j < mi as int {
                    assert(modules@.take(mi as int)[i].1.names().disjoint(
                        modules@.take(mi as int)[j].1.names(),
                    ));
                }
            };
            assert(no_collisions(modules@.take(mi + 1)));
        }
        mi += 1;
    }
    proof {
        assert(modules@.take(modules@.len() as int) =~= modules@);
    }
    Ok(DispatchTable { table: acc })
}

/// The registry: one method table per supported namespace, populated eagerly
/// and in full at construction, then immutable.
///
/// The handler type `H` is the opaque, cheaply copyable handle that the
/// invocation layer resolves to an invocable unit.
pub struct KakarotRpcModuleBuilder<H> {
    modules: Vec<(KakarotRpcModule, MethodTable<H>)>,
}

impl<H> KakarotRpcModuleBuilder<H> {
    /// The registry's namespace/table pairs, as a mathematical sequence.
    pub closed spec fn modules_view(self) -> ModuleSeq<H> {
        self.modules@
    }

    /// Well-formed: one table per namespace tag, each internally name-unique.
    pub open spec fn wf(self) -> bool {
        distinct_tags(self.modules_view()) && tables_wf(self.modules_view())
    }
}

impl<H: Copy> KakarotRpcModuleBuilder<H> {
    /// Build the registry from the table each supported namespace's handler
    /// set contributed: `eth_methods` for [`KakarotRpcModule::Eth`] and
    /// `alchemy_methods` for [`KakarotRpcModule::Alchemy`].
    ///
    /// Construction is eager and total: every supported namespace gets its
    /// slot, and the registry never changes afterwards.
    pub fn new(eth_methods: MethodTable<H>, alchemy_methods: MethodTable<H>) -> (b: Self)
        requires
            eth_methods.wf(),
            alchemy_methods.wf(),
        ensures
            b.wf(),
            b.modules_view() == seq![
                (KakarotRpcModule::Eth, eth_methods),
                (KakarotRpcModule::Alchemy, alchemy_methods),
            ],
    {
        let mut modules: Vec<(KakarotRpcModule, MethodTable<H>)> = Vec::new();
        modules.push((KakarotRpcModule::Eth, eth_methods));
        modules.push((KakarotRpcModule::Alchemy, alchemy_methods));
        let b = KakarotRpcModuleBuilder { modules };
        proof {
            assert(b.modules_view() =~= seq![
                (KakarotRpcModule::Eth, eth_methods),
                (KakarotRpcModule::Alchemy, alchemy_methods),
            ]);
        }
        b
    }

    /// Produce the dispatch table: the union of every namespace's methods,
    /// keyed by method name alone, or a [`NamespaceCollisionError`] if two
    /// namespaces define the same name.
    ///
    /// A pure read of the immutable registry: it can be called any number of
    /// times, and never returns a partially merged table.
    pub fn rpc_module(&self) -> (r: Result<DispatchTable<H>, NamespaceCollisionError>)
        requires
            self.wf(),
        ensures
            build_post(self.modules_view(), r),
    {
        merge_tables(&self.modules)
    }
}

} // verus!
