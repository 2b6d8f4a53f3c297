//! The guarantees the registry gives across operations: merge size on
//! disjoint namespaces, failure on any cross-namespace collision, idempotence
//! of the build, and isolation between namespaces.

use vstd::prelude::*;

use crate::method_table::lemma_entries_map_len;
use crate::registry::{
    build_post, lemma_merged_map_dom, merged_map, no_collisions, tables_wf, DispatchTable,
    ModuleSeq, NamespaceCollisionError,
};

verus! {

/// The sum of the namespaces' table sizes.
pub open spec fn total_methods<H>(mods: ModuleSeq<H>) -> nat
    decreases mods.len(),
{
    if mods.len() == 0 {
        0
    } else {
        total_methods(mods.drop_last()) + mods.last().1.names().len()
    }
}

/// With no shared method names across namespaces, the merged table is exactly
/// as large as the namespace tables together: nothing is dropped and nothing
/// is duplicated.
pub proof fn lemma_disjoint_merge_len<H>(mods: ModuleSeq<H>)
    requires
        tables_wf(mods),
        no_collisions(mods),
    ensures
        merged_map(mods).dom().finite(),
        merged_map(mods).dom().len() == total_methods(mods),
    decreases mods.len(),
{
    if mods.len() > 0 {
        let prefix = mods.drop_last();
        assert forall|i: int| 0 <= i < prefix.len() implies (#[trigger] prefix[i].1).wf() by {
            assert(mods[i].1.wf());
        };
        assert forall|i: int, j: int| 0 <= i < j < prefix.len() implies (
        #[trigger] prefix[i].1).names().disjoint((#[trigger] prefix[j].1).names()) by {
            assert(mods[i].1.names().disjoint(mods[j].1.names()));
        };
        lemma_disjoint_merge_len(prefix);
        assert(mods[mods.len() - 1].1.wf());
        lemma_entries_map_len(mods.last().1.entries_view());
        let a = merged_map(prefix).dom();
        let b = mods.last().1.names();
        assert forall|n: Seq<char>| a.contains(n) implies !b.contains(n) by {
            lemma_merged_map_dom(prefix, n);
            let i = choose|i: int|
                0 <= i < prefix.len() && (#[trigger] prefix[i].1).names().contains(n);
            assert(mods[i].1.names().contains(n));
            assert(mods[i].1.names().disjoint(mods[mods.len() - 1].1.names()));
        };
        vstd::set_lib::lemma_set_disjoint_lens(a, b);
        assert(merged_map(mods).dom() =~= a + b);
    }
}

/// A registry of disjoint namespaces always yields a dispatch table, and the
/// table is exactly as large as the namespace tables together.
pub proof fn lemma_disjoint_merge_succeeds<H>(
    mods: ModuleSeq<H>,
    r: Result<DispatchTable<H>, NamespaceCollisionError>,
)
    requires
        tables_wf(mods),
        no_collisions(mods),
        build_post(mods, r),
    ensures
        r is Ok,
        r->Ok_0.names().len() == total_methods(mods),
{
    lemma_disjoint_merge_len(mods);
}

/// Any method name defined by two different namespaces makes the registry
/// collide, whatever the rest of the tables hold.
pub proof fn lemma_shared_name_collides<H>(mods: ModuleSeq<H>, i: int, j: int, n: Seq<char>)
    requires
        0 <= i < mods.len(),
        0 <= j < mods.len(),
        i != j,
        mods[i].1.names().contains(n),
        mods[j].1.names().contains(n),
    ensures
        !no_collisions(mods),
{
    if i < j {
        assert(!mods[i].1.names().disjoint(mods[j].1.names()));
    } else {
        assert(!mods[j].1.names().disjoint(mods[i].1.names()));
    }
}

/// A registry in which two namespaces define the same method name never
/// yields a dispatch table: every build outcome is a collision error, and the
/// error names a method that its two distinct namespaces really both define.
pub proof fn lemma_collision_forces_failure<H>(
    mods: ModuleSeq<H>,
    i: int,
    j: int,
    n: Seq<char>,
    r: Result<DispatchTable<H>, NamespaceCollisionError>,
)
    requires
        0 <= i < mods.len(),
        0 <= j < mods.len(),
        i != j,
        mods[i].1.names().contains(n),
        mods[j].1.names().contains(n),
        build_post(mods, r),
    ensures
        r is Err,
{
    lemma_shared_name_collides(mods, i, j, n);
}

/// Building the dispatch table is a pure read of the immutable registry: any
/// two build outcomes from the same registry agree on success or failure, and
/// two successfully built tables bind exactly the same methods to the same
/// handlers.
pub proof fn lemma_build_idempotent<H>(
    mods: ModuleSeq<H>,
    r1: Result<DispatchTable<H>, NamespaceCollisionError>,
    r2: Result<DispatchTable<H>, NamespaceCollisionError>,
)
    requires
        build_post(mods, r1),
        build_post(mods, r2),
    ensures
        r1 is Ok <==> r2 is Ok,
        r1 is Ok ==> r1->Ok_0.methods() == r2->Ok_0.methods(),
        r1 is Ok ==> r1->Ok_0.names() == r2->Ok_0.names(),
{
}

/// The two mappings agree everywhere except possibly at `n`.
pub open spec fn agree_except<H>(m1: Map<Seq<char>, H>, m2: Map<Seq<char>, H>, n: Seq<char>) -> bool {
    forall|k: Seq<char>|
        #![trigger m1.contains_key(k)]
        #![trigger m2.contains_key(k)]
        k != n ==> (m1.contains_key(k) == m2.contains_key(k) && (m1.contains_key(k)
            ==> m1[k] == m2[k]))
}

/// Namespace isolation: changing one namespace's table only at method `n`
/// (holding every other namespace fixed) changes the merged table at most at
/// `n`.  Every other method's presence and handler are unaffected.
pub proof fn lemma_namespace_isolation<H>(
    mods1: ModuleSeq<H>,
    mods2: ModuleSeq<H>,
    k: int,
    n: Seq<char>,
)
    requires
        mods1.len() == mods2.len(),
        0 <= k < mods1.len(),
        forall|i: int| 0 <= i < mods1.len() && i != k ==> mods1[i] == mods2[i],
        agree_except(mods1[k].1.methods(), mods2[k].1.methods(), n),
    ensures
        agree_except(merged_map(mods1), merged_map(mods2), n),
    decreases mods1.len(),
{
    let len = mods1.len();
    if len > 0 {
        let a1 = merged_map(mods1.drop_last());
        let a2 = merged_map(mods2.drop_last());
        let b1 = mods1.last().1.methods();
        let b2 = mods2.last().1.methods();
        if k == len - 1 {
            assert(mods1.drop_last() =~= mods2.drop_last());
            assert forall|kk: Seq<char>|
                #![trigger merged_map(mods1).contains_key(kk)]
                #![trigger merged_map(mods2).contains_key(kk)]
                kk != n implies (merged_map(mods1).contains_key(kk) == merged_map(
                mods2,
            ).contains_key(kk) && (merged_map(mods1).contains_key(kk) ==> merged_map(mods1)[kk]
                == merged_map(mods2)[kk])) by {
                assert(b1.contains_key(kk) == b2.contains_key(kk));
                if b1.contains_key(kk) {
                    assert(b1[kk] == b2[kk]);
                }
            };
        } else {
            assert forall|i: int| 0 <= i < mods1.drop_last().len() && i != k implies mods1.drop_last()[i]
                == mods2.drop_last()[i] by {
                assert(mods1[i] == mods2[i]);
            };
            assert(mods1.drop_last()[k] == mods1[k]);
            assert(mods2.drop_last()[k] == mods2[k]);
            lemma_namespace_isolation(mods1.drop_last(), mods2.drop_last(), k, n);
            assert(mods1.last() == mods2.last());
            assert forall|kk: Seq<char>|
                #![trigger merged_map(mods1).contains_key(kk)]
                #![trigger merged_map(mods2).contains_key(kk)]
                kk != n implies (merged_map(mods1).contains_key(kk) == merged_map(
                mods2,
            ).contains_key(kk) && (merged_map(mods1).contains_key(kk) ==> merged_map(mods1)[kk]
                == merged_map(mods2)[kk])) by {
                assert(a1.contains_key(kk) == a2.contains_key(kk));
                if a1.contains_key(kk) {
                    assert(a1[kk] == a2[kk]);
                }
            };
        }
    }
}

} // verus!
