//! The entity store model, the target resolver and the batch injector.
//!
//! One sweep discovers every node that carries metadata and no processed
//! marker, materializes each node's blob, decides by the naming convention
//! whether the records belong on the node itself or on its structural
//! parent, injects every insertable record, and marks each discovered source
//! node processed, so that a second sweep over the same store finds nothing
//! left to do.

use vstd::prelude::*;
use crate::catalog::{ensured, TypeCatalog, TypeDescriptor};
use crate::materialize::{
    entry_views, lemma_entry_views_push, materialize_entries, materialize_spec, MaterializeError,
    MaterializedEntry,
};
use crate::text::{contains_spec, ends_with_spec, str_contains, str_ends_with};

verus! {

/// One node of the imported scene hierarchy, as the pipeline sees it: its
/// identity, display name, structural parent, the metadata blob the importer
/// attached (if any), the processed marker, and the component records that
/// have been injected onto it.
pub struct SceneNode {
    pub id: u64,
    pub name: String,
    pub parent: u64,
    pub metadata: Option<String>,
    pub processed: bool,
    pub components: Vec<MaterializedEntry>,
}

/// The naming convention: a node whose name contains `"components"` or ends
/// with `"_pa"` holds metadata on behalf of its structural parent.
pub open spec fn redirect_spec(name: Seq<char>) -> bool {
    contains_spec(name, "components"@) || ends_with_spec(name, "_pa"@)
}

/// Whether a node's materialized records are redirected to its parent.
pub fn redirects_to_parent(name: &str) -> (r: bool)
    ensures
        r == redirect_spec(name@),
{
    str_contains(name, "components") || str_ends_with(name, "_pa")
}

/// The entity a node's records are attached to: its parent when the naming
/// convention redirects, the node itself otherwise.
pub open spec fn target_id_spec(n: SceneNode) -> u64 {
    if redirect_spec(n.name@) {
        n.parent
    } else {
        n.id
    }
}

/// Resolves the destination entity for a node's records.
pub fn target_entity(id: u64, name: &str, parent: u64) -> (r: u64)
    ensures
        r == (if redirect_spec(name@) {
            parent
        } else {
            id
        }),
{
    if redirects_to_parent(name) {
        parent
    } else {
        id
    }
}

/// The records of a materialized batch whose type can be inserted; the
/// others are skipped during injection.
pub open spec fn keep_insertable(s: Seq<(Seq<char>, Seq<char>, bool)>) -> Seq<
    (Seq<char>, Seq<char>, bool),
>
    decreases s.len(),
{
    if s.len() <= 0 {
        Seq::empty()
    } else {
        keep_insertable(s.drop_last()) + (if s.last().2 {
            seq![s.last()]
        } else {
            Seq::empty()
        })
    }
}

/// Node `k` carries metadata and no processed marker: the discovery query.
pub open spec fn discovered(nodes: Seq<SceneNode>, k: int) -> bool {
    0 <= k < nodes.len() && nodes[k].metadata is Some && !nodes[k].processed
}

/// No node is left for a sweep to discover.
pub open spec fn no_unprocessed(nodes: Seq<SceneNode>) -> bool {
    forall|k: int| 0 <= k < nodes.len() ==> !discovered(nodes, k)
}

/// What one node's metadata materializes to against the catalog.
pub open spec fn node_output(n: SceneNode, descs: Seq<TypeDescriptor>) -> Option<
    Seq<(Seq<char>, Seq<char>, bool)>,
> {
    match n.metadata {
        Some(m) => materialize_spec(m@, descs),
        None => Some(Seq::empty()),
    }
}

/// The records a sweep adds to the node carrying id `nodes[j].id`, drawn
/// from the discovered sources with index below `upto`, in source order.
pub open spec fn added_to(
    nodes: Seq<SceneNode>,
    descs: Seq<TypeDescriptor>,
    j: int,
    upto: int,
) -> Seq<(Seq<char>, Seq<char>, bool)>
    decreases upto,
{
    if upto <= 0 {
        Seq::empty()
    } else {
        let prev = added_to(nodes, descs, j, upto - 1);
        let k = upto - 1;
        if discovered(nodes, k) && (node_output(nodes[k], descs) is Some) && target_id_spec(
            nodes[k],
        ) == nodes[j].id {
            prev + keep_insertable(node_output(nodes[k], descs).unwrap())
        } else {
            prev
        }
    }
}

/// Everything about a node except its marker and its components.
pub open spec fn node_identity_kept(a: SceneNode, b: SceneNode) -> bool {
    &&& a.id == b.id
    &&& a.name@ == b.name@
    &&& a.parent == b.parent
    &&& (a.metadata is Some <==> b.metadata is Some)
    &&& (a.metadata is Some ==> a.metadata.unwrap()@ == b.metadata.unwrap()@)
}

/// The two stores hold the same nodes, record for record.
pub open spec fn nodes_like(a: Seq<SceneNode>, b: Seq<SceneNode>) -> bool {
    &&& a.len() == b.len()
    &&& forall|j: int|
        0 <= j < a.len() ==> {
            &&& node_identity_kept(#[trigger] a[j], b[j])
            &&& a[j].processed == b[j].processed
            &&& entry_views(a[j].components@) == entry_views(b[j].components@)
        }
}

/// Some node carries id `id`.
pub open spec fn has_id(nodes: Seq<SceneNode>, id: u64) -> bool {
    exists|j: int| 0 <= j < nodes.len() && nodes[j].id == id
}

/// The store's hierarchy invariant: ids are unique and every node's parent
/// id belongs to some node.
pub open spec fn store_wf(nodes: Seq<SceneNode>) -> bool {
    &&& forall|a: int, b: int| 0 <= a < b < nodes.len() ==> nodes[a].id != nodes[b].id
    &&& forall|a: int| 0 <= a < nodes.len() ==> has_id(nodes, (#[trigger] nodes[a]).parent)
}

/// A store with nothing to discover gains nothing from a sweep.
proof fn lemma_added_to_empty(
    nodes: Seq<SceneNode>,
    descs: Seq<TypeDescriptor>,
    j: int,
    upto: int,
)
    requires
        no_unprocessed(nodes),
    ensures
        added_to(nodes, descs, j, upto) == Seq::<(Seq<char>, Seq<char>, bool)>::empty(),
    decreases upto,
{
    if upto > 0 {
        lemma_added_to_empty(nodes, descs, j, upto - 1);
    }
}

fn duplicate_entry(e: &MaterializedEntry) -> (r: MaterializedEntry)
    ensures
        r.type_path@ == e.type_path@,
        r.value_text@ == e.value_text@,
        r.insertable == e.insertable,
{
    MaterializedEntry {
        type_path: e.type_path.clone(),
        value_text: e.value_text.clone(),
        insertable: e.insertable,
    }
}

#[verifier::loop_isolation(false)]
fn clone_entries(src: &Vec<MaterializedEntry>) -> (r: Vec<MaterializedEntry>)
    ensures
        entry_views(r@) == entry_views(src@),
{
    let m = src.len();
    let mut r: Vec<MaterializedEntry> = Vec::new();
    let mut t: usize = 0;
    proof {
        assert(entry_views(src@.take(0)) =~= entry_views(r@));
    }
    while t < m
        invariant
            t <= m,
            entry_views(r@) == entry_views(src@.take(t as int)),
        decreases m - t,
    {
        let e = duplicate_entry(&src[t]);
        proof {
            lemma_entry_views_push(r@, e);
            lemma_entry_views_push(src@.take(t as int), src@[t as int]);
            assert(src@.take(t as int).push(src@[t as int]) =~= src@.take(t + 1));
        }
        r.push(e);
        t += 1;
    }
    proof {
        assert(src@.take(m as int) =~= src@);
    }
    r
}

#[verifier::loop_isolation(false)]
fn append_insertable(dst: &mut Vec<MaterializedEntry>, src: &Vec<MaterializedEntry>)
    ensures
        entry_views(final(dst)@) == entry_views(old(dst)@) + keep_insertable(entry_views(src@)),
{
    let m = src.len();
    let mut t: usize = 0;
    proof {
        assert(entry_views(src@).take(0) =~= Seq::<(Seq<char>, Seq<char>, bool)>::empty());
        assert(entry_views(dst@) + keep_insertable(Seq::empty()) =~= entry_views(dst@));
    }
    while t < m
        invariant
            t <= m,
            entry_views(dst@) == entry_views(old(dst)@) + keep_insertable(
                entry_views(src@).take(t as int),
            ),
        decreases m - t,
    {
        let ghost pre = entry_views(src@).take(t as int);
        let ghost nxt = entry_views(src@).take(t + 1);
        proof {
            assert(nxt.drop_last() =~= pre);
            assert(nxt.last() == entry_views(src@)[t as int]);
        }
        if src[t].insertable {
            let e = duplicate_entry(&src[t]);
            proof {
                lemma_entry_views_push(dst@, e);
                assert(seq![(e.type_path@, e.value_text@, e.insertable)] =~= seq![
                    entry_views(src@)[t as int],
                ]);
                assert(keep_insertable(nxt) == keep_insertable(pre) + seq![
                    entry_views(src@)[t as int],
                ]);
                assert((entry_views(old(dst)@) + keep_insertable(pre)) + seq![
                    entry_views(src@)[t as int],
                ] =~= entry_views(old(dst)@) + keep_insertable(nxt));
            }
            dst.push(e);
        } else {
            proof {
                assert(keep_insertable(nxt) =~= keep_insertable(pre));
            }
        }
        t += 1;
    }
    proof {
        assert(entry_views(src@).take(m as int) =~= entry_views(src@));
    }
}

/// The entity store this pipeline mutates: the scene nodes, with their
/// components and processed markers.
pub struct EntityStore {
    pub nodes: Vec<SceneNode>,
}

impl EntityStore {
    /// One full pass of the component materialization pipeline.
    ///
    /// Every discovered node (metadata present, marker absent) has its blob
    /// materialized; a fatal materialization aborts the sweep with the store
    /// untouched.  Otherwise every insertable record is injected onto its
    /// destination entity, in source order, and every discovered source is
    /// marked processed, so a second sweep over the unchanged store discovers
    /// nothing and changes nothing.
    #[verifier::loop_isolation(false)]
    #[verifier::rlimit(100)]
    pub fn sweep(&mut self, catalog: &TypeCatalog) -> (r: Result<(), MaterializeError>)
        requires
            store_wf(old(self).nodes@),
        ensures
            store_wf(final(self).nodes@),
            r is Err ==> *final(self) == *old(self),
            (r is Ok) <==> (forall|k: int|
                discovered(old(self).nodes@, k) ==> node_output(
                    old(self).nodes@[k],
                    catalog.descriptors@,
                ) is Some),
            r is Ok ==> final(self).nodes@.len() == old(self).nodes@.len(),
            r is Ok ==> forall|j: int|
                0 <= j < old(self).nodes@.len() ==> node_identity_kept(
                    #[trigger] final(self).nodes@[j],
                    old(self).nodes@[j],
                ),
            r is Ok ==> forall|j: int|
                0 <= j < old(self).nodes@.len() ==> (#[trigger] final(self).nodes@[j]).processed
                    == (old(self).nodes@[j].processed || discovered(old(self).nodes@, j)),
            r is Ok ==> forall|j: int|
                0 <= j < old(self).nodes@.len() ==> entry_views(
                    (#[trigger] final(self).nodes@[j]).components@,
                ) == entry_views(old(self).nodes@[j].components@) + added_to(
                    old(self).nodes@,
                    catalog.descriptors@,
                    j,
                    old(self).nodes@.len() as int,
                ),
            r is Ok ==> no_unprocessed(final(self).nodes@),
            no_unprocessed(old(self).nodes@) ==> r is Ok && nodes_like(
                final(self).nodes@,
                old(self).nodes@,
            ),
    {
        let ghost base = old(self).nodes@;
        let ghost descs = catalog.descriptors@;
        let n = self.nodes.len();
        let mut results: Vec<Option<Vec<MaterializedEntry>>> = Vec::new();
        let mut k: usize = 0;
        while k < n
            invariant
                k <= n,
                results@.len() == k,
                forall|t: int|
                    0 <= t < k ==> ((#[trigger] results@[t]) is Some <==> discovered(base, t)),
                forall|t: int|
                    0 <= t < k ==> ((#[trigger] results@[t]) is Some ==> {
                        &&& node_output(base[t], descs) is Some
                        &&& entry_views(results@[t].unwrap()@) == node_output(
                            base[t],
                            descs,
                        ).unwrap()
                    }),
            decreases n - k,
        {
            let node = &self.nodes[k];
            let mut item: Option<Vec<MaterializedEntry>> = None;
            if !node.processed {
                match &node.metadata {
                    Some(blob) => {
                        match materialize_entries(blob.as_str(), catalog) {
                            Ok(v) => {
                                item = Some(v);
                            },
                            Err(e) => {
                                proof {
                                    assert(discovered(base, k as int));
                                    assert(node_output(base[k as int], descs) is None);
                                }
                                return Err(e);
                            },
                        }
                    },
                    None => {
                    },
                }
            }
            results.push(item);
            k += 1;
        }
        let mut new_nodes: Vec<SceneNode> = Vec::new();
        let mut j: usize = 0;
        while j < n
            invariant
                j <= n,
                new_nodes@.len() == j,
                forall|t: int|
                    0 <= t < j ==> {
                        &&& node_identity_kept(#[trigger] new_nodes@[t], base[t])
                        &&& new_nodes@[t].processed == (base[t].processed || discovered(base, t))
                        &&& entry_views(new_nodes@[t].components@) == entry_views(
                            base[t].components@,
                        ) + added_to(base, descs, t, n as int)
                    },
            decreases n - j,
        {
            let node = &self.nodes[j];
            let mut comps = clone_entries(&node.components);
            let mut k2: usize = 0;
            while k2 < n
                invariant
                    k2 <= n,
                    entry_views(comps@) == entry_views(base[j as int].components@) + added_to(
                        base,
                        descs,
                        j as int,
                        k2 as int,
                    ),
                decreases n - k2,
            {
                let ghost before = entry_views(comps@);
                match &results[k2] {
                    Some(v) => {
                        let src = &self.nodes[k2];
                        let tgt = target_entity(src.id, src.name.as_str(), src.parent);
                        proof {
                            assert(tgt == target_id_spec(base[k2 as int]));
                        }
                        if tgt == node.id {
                            append_insertable(&mut comps, v);
                            proof {
                                let outk = node_output(base[k2 as int], descs).unwrap();
                                assert(entry_views(v@) == outk);
                                assert((entry_views(base[j as int].components@) + added_to(
                                    base,
                                    descs,
                                    j as int,
                                    k2 as int,
                                )) + keep_insertable(outk) =~= entry_views(
                                    base[j as int].components@,
                                ) + (added_to(base, descs, j as int, k2 as int)
                                    + keep_insertable(outk)));
                            }
                        }
                    },
                    None => {
                    },
                }
                k2 += 1;
            }
            let marked = node.processed || results[j].is_some();
            let fresh = SceneNode {
                id: node.id,
                name: node.name.clone(),
                parent: node.parent,
                metadata: match &node.metadata {
                    Some(s) => Some(s.clone()),
                    None => None,
                },
                processed: marked,
                components: comps,
            };
            new_nodes.push(fresh);
            j += 1;
        }
        self.nodes = new_nodes;
        proof {
            let cur = self.nodes@;
            assert forall|k3: int| discovered(base, k3) implies node_output(base[k3], descs)
                is Some by {
                assert(results@[k3] is Some);
            }
            assert forall|a: int, b: int| 0 <= a < b < cur.len() implies cur[a].id != cur[b].id by {
                assert(node_identity_kept(cur[a], base[a]));
                assert(node_identity_kept(cur[b], base[b]));
            }
            assert forall|a: int| 0 <= a < cur.len() implies has_id(
                cur,
                (#[trigger] cur[a]).parent,
            ) by {
                assert(node_identity_kept(cur[a], base[a]));
                assert(has_id(base, base[a].parent));
                let w = choose|w: int| 0 <= w < base.len() && base[w].id == base[a].parent;
                assert(node_identity_kept(cur[w], base[w]));
                assert(cur[w].id == cur[a].parent);
            }
            assert forall|t: int| 0 <= t < cur.len() implies !discovered(cur, t) by {
                assert(node_identity_kept(cur[t], base[t]));
            }
            if no_unprocessed(base) {
                assert forall|t: int| 0 <= t < cur.len() implies {
                    &&& node_identity_kept(cur[t], base[t])
                    &&& cur[t].processed == base[t].processed
                    &&& entry_views(cur[t].components@) == entry_views(base[t].components@)
                } by {
                    lemma_added_to_empty(base, descs, t, n as int);
                    assert(entry_views(base[t].components@) + Seq::<
                        (Seq<char>, Seq<char>, bool),
                    >::empty() =~= entry_views(base[t].components@));
                }
                assert(nodes_like(cur, base));
            }
        }
        Ok(())
    }
}

/// The whole pipeline pass as the engine runs it: the well-known container
/// types are registered first, then the store is swept once against the
/// topped-up catalog.
pub fn add_components_from_gltf_extras(
    store: &mut EntityStore,
    catalog: &mut TypeCatalog,
) -> (r: Result<(), MaterializeError>)
    requires
        store_wf(old(store).nodes@),
    ensures
        ensured(old(catalog).descriptors@, final(catalog).descriptors@),
        store_wf(final(store).nodes@),
        r is Err ==> *final(store) == *old(store),
        (r is Ok) <==> (forall|k: int|
            discovered(old(store).nodes@, k) ==> node_output(
                old(store).nodes@[k],
                final(catalog).descriptors@,
            ) is Some),
        r is Ok ==> final(store).nodes@.len() == old(store).nodes@.len(),
        r is Ok ==> forall|j: int|
            0 <= j < old(store).nodes@.len() ==> node_identity_kept(
                #[trigger] final(store).nodes@[j],
                old(store).nodes@[j],
            ),
        r is Ok ==> forall|j: int|
            0 <= j < old(store).nodes@.len() ==> (#[trigger] final(store).nodes@[j]).processed
                == (old(store).nodes@[j].processed || discovered(old(store).nodes@, j)),
        r is Ok ==> forall|j: int|
            0 <= j < old(store).nodes@.len() ==> entry_views(
                (#[trigger] final(store).nodes@[j]).components@,
            ) == entry_views(old(store).nodes@[j].components@) + added_to(
                old(store).nodes@,
                final(catalog).descriptors@,
                j,
                old(store).nodes@.len() as int,
            ),
        r is Ok ==> no_unprocessed(final(store).nodes@),
        no_unprocessed(old(store).nodes@) ==> r is Ok && nodes_like(
            final(store).nodes@,
            old(store).nodes@,
        ),
{
    catalog.ensure_registered();
    store.sweep(catalog)
}

} // verus!
