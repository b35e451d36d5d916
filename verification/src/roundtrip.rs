//! The save/load round trip: a workcell document built from a live graph
//! reloads into a graph isomorphic to the one it came from.
//!
//! The correspondence is by assigned ID: every persisted entity of the
//! original graph reappears in the reloaded graph under the same ID, with
//! the same payload, parented to the entity carrying its parent's ID — and
//! the reloaded graph holds exactly one live slot per persisted entity, so
//! the correspondence is a bijection (IDs are unique on both sides).

use vstd::prelude::*;

use crate::graph::{
    anchor_with_id, assigned_id, broken_constraint, collect_constraints, collect_frames,
    entity_wf, lemma_collect_constraints_keys,
    collect_models, constrained_anchor, constraint_entry, frame_entry, frame_entry_sourced,
    frame_slot_collected, graph_wf, ids_assigned, lemma_assigned_distinct,
    lemma_collect_constraints_entries, lemma_collect_frames_entries, lemma_collect_models_entries,
    lemma_id_density, lemma_rank_bound, lemma_rank_strict, model_entry, model_entry_sourced,
    model_slot_collected, model_with_id, n_visited, parent_sid, rank, visited, EntityKind,
    GraphEntity,
};
use crate::ids::{get_of, unique_keys};
use crate::wload::{
    ascending_keys, entry_resolves, helper_entity, key_before, lemma_merge_ascending, merge_docs,
    spawned_entity, wf_workcell_doc, DocEntry,
};
use crate::workcell::{Frame, MeshConstraint, Model, Parented, Workcell};

verus! {

/// The document holds exactly what the builder collects from the graph.
pub open spec fn saved_doc(g: Seq<GraphEntity>, root: int, w: &Workcell) -> bool {
    &&& match g[root].kind {
        EntityKind::Root { properties } => w.properties == properties,
        _ => false,
    }
    &&& w.frames@ == collect_frames(g, g.len() as int)
    &&& w.models@ == collect_models(g, g.len() as int)
    &&& w.mesh_constraints@ == collect_constraints(g, g.len() as int)
}

/// The reloaded graph holds exactly what the loader spawns from the
/// document.
pub open spec fn loaded_graph(w: &Workcell, g2: Seq<GraphEntity>) -> bool {
    let c = merge_docs(w.frames@, w.models@);
    let cons = w.mesh_constraints@;
    &&& g2.len() == 1 + c.len()
    &&& g2[0] == (GraphEntity {
        parent: None,
        pending: false,
        site_id: Some(0u32),
        kind: EntityKind::Root { properties: w.properties },
    })
    &&& forall|j: int|
        0 <= j < c.len() ==> g2[1 + j] == (if entry_resolves(c, cons, j) {
            spawned_entity(c, cons, j)
        } else {
            helper_entity()
        })
}

/// Every visited non-root entity's parent is the root or itself visited.
pub open spec fn parents_persisted(g: Seq<GraphEntity>, root: int) -> bool {
    forall|i: int|
        #[trigger] visited(g, i, root) && i != root ==> match g[i].parent {
            Some(p) => p as int == root || visited(g, p as int, root),
            None => false,
        }
}

/// Collected frame keys come from ID-carrying anchor slots, in ascending
/// ID order.
proof fn lemma_frames_keys_ascending(g: Seq<GraphEntity>, root: int, m: int)
    requires
        ids_assigned(g, root),
        0 <= root < g.len(),
        g.len() < u32::MAX as int,
        g[root].kind is Root,
        0 <= m <= g.len(),
    ensures
        ascending_keys(collect_frames(g, m)),
        forall|idx: int|
            0 <= idx < collect_frames(g, m).len() ==> (#[trigger] collect_frames(g, m)[idx]).0
                != 0,
    decreases m,
{
    lemma_collect_frames_entries(g, m);
    let s = collect_frames(g, m);
    assert forall|idx: int| 0 <= idx < s.len() implies (#[trigger] s[idx]).0 != 0 by {
        assert(frame_entry_sourced(g, m, idx));
        let j = choose|j: int|
            0 <= j < m && #[trigger] anchor_with_id(g, j) && collect_frames(g, m)[idx]
                == frame_entry(g, j);
        assert(visited(g, j, root));
        assert(j != root);
        lemma_rank_bound(g, j, root);
    }
    if m > 0 {
        lemma_frames_keys_ascending(g, root, m - 1);
        let s0 = collect_frames(g, m - 1);
        lemma_collect_frames_entries(g, m - 1);
        assert forall|i1: int, i2: int| 0 <= i1 < i2 < s.len() implies s[i1].0 < s[i2].0 by {
            if i2 < s0.len() {
                assert(s[i1] == s0[i1] && s[i2] == s0[i2]);
            } else {
                // The appended entry comes from slot m-1; earlier entries
                // come from earlier slots, whose assigned IDs are smaller.
                assert(frame_entry_sourced(g, m - 1, i1));
                let j1 = choose|j: int|
                    0 <= j < m - 1 && #[trigger] anchor_with_id(g, j) && collect_frames(
                        g,
                        m - 1,
                    )[i1] == frame_entry(g, j);
                assert(s[i1] == frame_entry(g, j1));
                assert(s[i2] == frame_entry(g, m - 1));
                assert(visited(g, j1, root) && j1 != root);
                assert(visited(g, m - 1, root) && m - 1 != root);
                lemma_rank_strict(g, j1, m - 1, root);
                lemma_rank_bound(g, j1, root);
                lemma_rank_bound(g, m - 1, root);
            }
        }
    }
}

/// Collected model keys are ascending and non-zero as well.
proof fn lemma_models_keys_ascending(g: Seq<GraphEntity>, root: int, m: int)
    requires
        ids_assigned(g, root),
        0 <= root < g.len(),
        g.len() < u32::MAX as int,
        g[root].kind is Root,
        0 <= m <= g.len(),
    ensures
        ascending_keys(collect_models(g, m)),
        forall|idx: int|
            0 <= idx < collect_models(g, m).len() ==> (#[trigger] collect_models(g, m)[idx]).0
                != 0,
    decreases m,
{
    lemma_collect_models_entries(g, m);
    let s = collect_models(g, m);
    assert forall|idx: int| 0 <= idx < s.len() implies (#[trigger] s[idx]).0 != 0 by {
        assert(model_entry_sourced(g, m, idx));
        let j = choose|j: int|
            0 <= j < m && #[trigger] model_with_id(g, j) && collect_models(g, m)[idx]
                == model_entry(g, j);
        assert(visited(g, j, root));
        assert(j != root);
        lemma_rank_bound(g, j, root);
    }
    if m > 0 {
        lemma_models_keys_ascending(g, root, m - 1);
        let s0 = collect_models(g, m - 1);
        lemma_collect_models_entries(g, m - 1);
        assert forall|i1: int, i2: int| 0 <= i1 < i2 < s.len() implies s[i1].0 < s[i2].0 by {
            if i2 < s0.len() {
                assert(s[i1] == s0[i1] && s[i2] == s0[i2]);
            } else {
                assert(model_entry_sourced(g, m - 1, i1));
                let j1 = choose|j: int|
                    0 <= j < m - 1 && #[trigger] model_with_id(g, j) && collect_models(
                        g,
                        m - 1,
                    )[i1] == model_entry(g, j);
                assert(s[i1] == model_entry(g, j1));
                assert(s[i2] == model_entry(g, m - 1));
                assert(visited(g, j1, root) && j1 != root);
                assert(visited(g, m - 1, root) && m - 1 != root);
                lemma_rank_strict(g, j1, m - 1, root);
                lemma_rank_bound(g, j1, root);
                lemma_rank_bound(g, m - 1, root);
            }
        }
    }
}

/// A document built from an ID-assigned graph is one the loader accepts.
pub proof fn lemma_built_doc_wf(g: Seq<GraphEntity>, root: int, w: &Workcell)
    requires
        ids_assigned(g, root),
        0 <= root < g.len(),
        g.len() < u32::MAX as int,
        g[root].kind is Root,
        saved_doc(g, root, w),
    ensures
        wf_workcell_doc(w),
{
    let n = g.len() as int;
    lemma_frames_keys_ascending(g, root, n);
    lemma_models_keys_ascending(g, root, n);
    lemma_collect_frames_entries(g, n);
    lemma_collect_models_entries(g, n);
    lemma_assigned_distinct(g, root);
    assert forall|i: int, j: int|
        0 <= i < w.frames@.len() && 0 <= j < w.models@.len() implies (#[trigger] w.frames@[i]).0
        != (#[trigger] w.models@[j]).0 by {
        assert(frame_entry_sourced(g, n, i));
        assert(model_entry_sourced(g, n, j));
        let j1 = choose|x: int|
            0 <= x < n && #[trigger] anchor_with_id(g, x) && collect_frames(g, n)[i]
                == frame_entry(g, x);
        let j2 = choose|x: int|
            0 <= x < n && #[trigger] model_with_id(g, x) && collect_models(g, n)[j]
                == model_entry(g, x);
        assert(j1 != j2);
        assert(g[j1].site_id is Some && g[j2].site_id is Some);
    }
}


/// The merged entry list holds the pair `(k, e)` somewhere.
pub open spec fn in_merged(
    fs: Seq<(u32, Parented<Frame>)>,
    ms: Seq<(u32, Parented<Model>)>,
    k: u32,
    e: DocEntry,
) -> bool {
    exists|j: int|
        0 <= j < merge_docs(fs, ms).len() && #[trigger] merge_docs(fs, ms)[j] == (k, e)
}

/// Every frame entry of the document stands in the merge.
proof fn lemma_merge_member_frame(
    fs: Seq<(u32, Parented<Frame>)>,
    ms: Seq<(u32, Parented<Model>)>,
    idx: int,
)
    requires
        0 <= idx < fs.len(),
    ensures
        in_merged(fs, ms, fs[idx].0, DocEntry::Frame(fs[idx].1)),
    decreases fs.len() + ms.len(),
{
    let c = merge_docs(fs, ms);
    if ms.len() == 0 {
        assert(c[idx] == (fs[idx].0, DocEntry::Frame(fs[idx].1)));
    } else if fs[0].0 <= ms[0].0 {
        if idx == 0 {
            assert(c[0] == (fs[0].0, DocEntry::Frame(fs[0].1)));
        } else {
            lemma_merge_member_frame(fs.drop_first(), ms, idx - 1);
            let j = choose|j: int|
                0 <= j < merge_docs(fs.drop_first(), ms).len() && #[trigger] merge_docs(
                    fs.drop_first(),
                    ms,
                )[j] == (fs.drop_first()[idx - 1].0, DocEntry::Frame(fs.drop_first()[idx - 1].1));
            assert(c[j + 1] == (fs[idx].0, DocEntry::Frame(fs[idx].1)));
        }
    } else {
        lemma_merge_member_frame(fs, ms.drop_first(), idx);
        let j = choose|j: int|
            0 <= j < merge_docs(fs, ms.drop_first()).len() && #[trigger] merge_docs(
                fs,
                ms.drop_first(),
            )[j] == (fs[idx].0, DocEntry::Frame(fs[idx].1));
        assert(c[j + 1] == (fs[idx].0, DocEntry::Frame(fs[idx].1)));
    }
}

/// Every model entry of the document stands in the merge.
proof fn lemma_merge_member_model(
    fs: Seq<(u32, Parented<Frame>)>,
    ms: Seq<(u32, Parented<Model>)>,
    idx: int,
)
    requires
        0 <= idx < ms.len(),
    ensures
        in_merged(fs, ms, ms[idx].0, DocEntry::Model(ms[idx].1)),
    decreases fs.len() + ms.len(),
{
    let c = merge_docs(fs, ms);
    if fs.len() == 0 {
        assert(c[idx] == (ms[idx].0, DocEntry::Model(ms[idx].1)));
    } else if fs[0].0 <= ms[0].0 {
        lemma_merge_member_model(fs.drop_first(), ms, idx);
        let j = choose|j: int|
            0 <= j < merge_docs(fs.drop_first(), ms).len() && #[trigger] merge_docs(
                fs.drop_first(),
                ms,
            )[j] == (ms[idx].0, DocEntry::Model(ms[idx].1));
        assert(c[j + 1] == (ms[idx].0, DocEntry::Model(ms[idx].1)));
    } else {
        if idx == 0 {
            assert(c[0] == (ms[0].0, DocEntry::Model(ms[0].1)));
        } else {
            lemma_merge_member_model(fs, ms.drop_first(), idx - 1);
            let j = choose|j: int|
                0 <= j < merge_docs(fs, ms.drop_first()).len() && #[trigger] merge_docs(
                    fs,
                    ms.drop_first(),
                )[j] == (ms.drop_first()[idx - 1].0, DocEntry::Model(ms.drop_first()[idx - 1].1));
            assert(c[j + 1] == (ms[idx].0, DocEntry::Model(ms[idx].1)));
        }
    }
}

/// Every merged entry comes from the document map of its kind.
proof fn lemma_merge_source(
    fs: Seq<(u32, Parented<Frame>)>,
    ms: Seq<(u32, Parented<Model>)>,
    j: int,
)
    requires
        0 <= j < merge_docs(fs, ms).len(),
    ensures
        match merge_docs(fs, ms)[j].1 {
            DocEntry::Frame(v) => exists|idx: int|
                0 <= idx < fs.len() && #[trigger] fs[idx] == (merge_docs(fs, ms)[j].0, v),
            DocEntry::Model(v) => exists|idx: int|
                0 <= idx < ms.len() && #[trigger] ms[idx] == (merge_docs(fs, ms)[j].0, v),
        },
    decreases fs.len() + ms.len(),
{
    let c = merge_docs(fs, ms);
    if fs.len() == 0 {
        assert(c[j] == (ms[j].0, DocEntry::Model(ms[j].1)));
    } else if ms.len() == 0 {
        assert(c[j] == (fs[j].0, DocEntry::Frame(fs[j].1)));
    } else if fs[0].0 <= ms[0].0 {
        if j == 0 {
            assert(fs[0] == (c[0].0, fs[0].1));
        } else {
            lemma_merge_source(fs.drop_first(), ms, j - 1);
            assert(c[j] == merge_docs(fs.drop_first(), ms)[j - 1]);
            match c[j].1 {
                DocEntry::Frame(v) => {
                    let idx = choose|idx: int|
                        0 <= idx < fs.drop_first().len() && #[trigger] fs.drop_first()[idx] == (
                            c[j].0,
                            v,
                        );
                    assert(fs[idx + 1] == (c[j].0, v));
                },
                DocEntry::Model(v) => {},
            }
        }
    } else {
        if j == 0 {
            assert(ms[0] == (c[0].0, ms[0].1));
        } else {
            lemma_merge_source(fs, ms.drop_first(), j - 1);
            assert(c[j] == merge_docs(fs, ms.drop_first())[j - 1]);
            match c[j].1 {
                DocEntry::Model(v) => {
                    let idx = choose|idx: int|
                        0 <= idx < ms.drop_first().len() && #[trigger] ms.drop_first()[idx] == (
                            c[j].0,
                            v,
                        );
                    assert(ms[idx + 1] == (c[j].0, v));
                },
                DocEntry::Frame(v) => {},
            }
        }
    }
}

/// With unique keys, the stored entry is what lookup returns.
proof fn lemma_get_of_at<T>(s: Seq<(u32, T)>, idx: int)
    requires
        unique_keys(s),
        0 <= idx < s.len(),
    ensures
        get_of(s, s[idx].0) == Some(s[idx].1),
    decreases s.len(),
{
    if idx == 0 {
    } else {
        assert(s[0].0 != s[idx].0);
        assert(forall|x: int|
            0 <= x < s.drop_first().len() ==> (#[trigger] s.drop_first()[x]) == s[x + 1]);
        lemma_get_of_at(s.drop_first(), idx - 1);
    }
}

/// The frames and models each persisted entity contributed amount to the
/// whole visited set: one document entry per visited non-root entity.
proof fn lemma_collect_counts(g: Seq<GraphEntity>, root: int, m: int)
    requires
        ids_assigned(g, root),
        0 <= root < g.len(),
        g[root].kind is Root,
        0 <= m <= g.len(),
    ensures
        collect_frames(g, m).len() + collect_models(g, m).len() == rank(g, m, root),
    decreases m,
{
    if m > 0 {
        lemma_collect_counts(g, root, m - 1);
    }
}


/// Constraint entries, like frame entries, carry ascending and therefore
/// unique keys.
proof fn lemma_constraints_unique(g: Seq<GraphEntity>, root: int, m: int)
    requires
        ids_assigned(g, root),
        0 <= root < g.len(),
        g.len() < u32::MAX as int,
        g[root].kind is Root,
        0 <= m <= g.len(),
    ensures
        ascending_keys(collect_constraints(g, m)),
        unique_keys(collect_constraints(g, m)),
    decreases m,
{
    lemma_collect_constraints_entries(g, m);
    let s = collect_constraints(g, m);
    if m > 0 {
        lemma_constraints_unique(g, root, m - 1);
        let s0 = collect_constraints(g, m - 1);
        lemma_collect_constraints_entries(g, m - 1);
        assert forall|i1: int, i2: int| 0 <= i1 < i2 < s.len() implies s[i1].0 < s[i2].0 by {
            if i2 < s0.len() {
                assert(s[i1] == s0[i1] && s[i2] == s0[i2]);
            } else {
                assert(crate::graph::constraint_entry_sourced(g, m - 1, i1));
                let j1 = choose|j: int|
                    0 <= j < m - 1 && #[trigger] constrained_anchor(g, j) && collect_constraints(
                        g,
                        m - 1,
                    )[i1] == constraint_entry(g, j);
                assert(s[i1] == constraint_entry(g, j1));
                assert(s[i2] == constraint_entry(g, m - 1));
                assert(visited(g, j1, root) && j1 != root);
                assert(visited(g, m - 1, root) && m - 1 != root);
                lemma_rank_strict(g, j1, m - 1, root);
                lemma_rank_bound(g, j1, root);
                lemma_rank_bound(g, m - 1, root);
            }
        }
    }
}

/// The reloaded entity at slot `x` mirrors the original anchor at slot `i`:
/// same assigned ID, same anchor payload, a parent slot carrying the
/// parent's ID, and a constraint (when one exists) with the same element
/// and pose whose target slot carries the target's ID.
pub open spec fn anchor_corresponds(
    g: Seq<GraphEntity>,
    i: int,
    g2: Seq<GraphEntity>,
    x: int,
) -> bool {
    &&& g2[x].site_id == g[i].site_id
    &&& !g2[x].pending
    &&& match (g[i].kind, g2[x].kind) {
        (
            EntityKind::Anchor { anchor: a1, constraint: c1 },
            EntityKind::Anchor { anchor: a2, constraint: c2 },
        ) => {
            &&& a2 == a1
            &&& match (c1, c2) {
                (None, None) => true,
                (Some(k1), Some(k2)) => {
                    &&& k2.element == k1.element
                    &&& k2.relative_pose == k1.relative_pose
                    &&& 0 <= (k2.entity as int) < g2.len()
                    &&& g2[k2.entity as int].site_id == g[k1.entity as int].site_id
                },
                _ => false,
            }
        },
        _ => false,
    }
    &&& match g2[x].parent {
        Some(ps) => (ps as int) < g2.len() && g2[ps as int].site_id == parent_sid(g, i),
        None => false,
    }
}

/// The reloaded entity at slot `x` mirrors the original model at slot `i`.
pub open spec fn model_corresponds(
    g: Seq<GraphEntity>,
    i: int,
    g2: Seq<GraphEntity>,
    x: int,
) -> bool {
    &&& g2[x].site_id == g[i].site_id
    &&& !g2[x].pending
    &&& match (g[i].kind, g2[x].kind) {
        (EntityKind::Model { model: m1 }, EntityKind::Model { model: m2 }) => m2 == m1,
        _ => false,
    }
    &&& match g2[x].parent {
        Some(ps) => (ps as int) < g2.len() && g2[ps as int].site_id == parent_sid(g, i),
        None => false,
    }
}

/// Round trip: a workcell document built from a live graph — IDs assigned,
/// every persisted entity's parent itself persisted or the root, no broken
/// mesh constraint — reloads into a graph with exactly one slot per
/// persisted entity, in which every original anchor and model reappears
/// under its ID with its payload and its parent/constraint structure. Since
/// assigned IDs are unique on both sides, that correspondence is a
/// bijection: the two graphs are isomorphic up to renumbering of slots.
#[verifier::rlimit(100)]
pub proof fn lemma_round_trip(g: Seq<GraphEntity>, root: int, w: &Workcell, g2: Seq<GraphEntity>)
    requires
        rt_premises(g, root, w),
        loaded_graph(w, g2),
    ensures
        forall|j: int|
            0 <= j < merge_docs(w.frames@, w.models@).len() ==> #[trigger] entry_resolves(
                merge_docs(w.frames@, w.models@),
                w.mesh_constraints@,
                j,
            ),
        g2.len() == n_visited(g, root),
        forall|i: int|
            #[trigger] anchor_with_id(g, i) ==> exists|x: int|
                1 <= x < g2.len() && anchor_corresponds(g, i, g2, x),
        forall|i: int|
            #[trigger] model_with_id(g, i) ==> exists|x: int|
                1 <= x < g2.len() && model_corresponds(g, i, g2, x),
{
    let n = g.len() as int;
    let fs = w.frames@;
    let ms = w.models@;
    let cons = w.mesh_constraints@;
    let c = merge_docs(fs, ms);
    lemma_built_doc_wf(g, root, w);
    lemma_merge_ascending(fs, ms);
    lemma_collect_frames_entries(g, n);
    lemma_collect_models_entries(g, n);
    lemma_collect_constraints_entries(g, n);
    lemma_assigned_distinct(g, root);
    lemma_constraints_unique(g, root, n);
    lemma_collect_counts(g, root, n);

    // Counts: one slot per visited non-root entity, plus the root.
    assert(g2.len() == n_visited(g, root));

    // Every merged key is the assigned ID of a persisted slot, and every
    // persisted slot's entry stands in the merge.
    assert forall|j: int| 0 <= j < c.len() implies #[trigger] entry_resolves(c, cons, j) by {
        lemma_merge_source(fs, ms, j);
        match c[j].1 {
            DocEntry::Frame(v) => {
                let idx = choose|idx: int| 0 <= idx < fs.len() && #[trigger] fs[idx] == (c[j].0, v);
                assert(frame_entry_sourced(g, n, idx));
                let s1 = choose|x: int|
                    0 <= x < n && #[trigger] anchor_with_id(g, x) && collect_frames(g, n)[idx]
                        == frame_entry(g, x);
                lemma_entry_parent_resolves(g, root, w, j, s1);
                // The constraint, when one is keyed by this ID, targets an
                // entry the merge holds.
                match get_of(cons, c[j].0) {
                    None => {},
                    Some(mc) => {
                        crate::ids::lemma_get_of_has_key(cons, c[j].0);
                        let ci = choose|ci: int|
                            0 <= ci < cons.len() && cons[ci].0 == c[j].0 && cons[ci].1 == mc;
                        assert(crate::graph::constraint_entry_sourced(g, n, ci));
                        let sc = choose|x: int|
                            0 <= x < n && #[trigger] constrained_anchor(g, x)
                                && collect_constraints(g, n)[ci] == constraint_entry(g, x);
                        // The target slot carries an ID, so its entry is
                        // somewhere in the merge.
                        match g[sc].kind {
                            EntityKind::Anchor { anchor, constraint } => {
                                let k1 = constraint->0;
                                let t = k1.entity as int;
                                assert(entity_wf(g[sc], sc, g.len() as int)) by {
                                    assert(graph_wf(g));
                                }
                                assert(0 <= t < g.len());
                                assert(g[t].site_id is Some);
                                assert(visited(g, t, root));
                                assert(mc.entity == g[t].site_id->0);
                                lemma_persisted_in_merge(g, root, w, t);
                                let y = choose|y: int|
                                    0 <= y < c.len() && (#[trigger] c[y]).0 == g[t].site_id->0;
                                assert(key_before(c, c.len() as int, mc.entity));
                            },
                            _ => {
                                assert(false);
                            },
                        }
                    },
                }
            },
            DocEntry::Model(v) => {
                let idx = choose|idx: int| 0 <= idx < ms.len() && #[trigger] ms[idx] == (c[j].0, v);
                assert(model_entry_sourced(g, n, idx));
                let s1 = choose|x: int|
                    0 <= x < n && #[trigger] model_with_id(g, x) && collect_models(g, n)[idx]
                        == model_entry(g, x);
                lemma_entry_parent_resolves(g, root, w, j, s1);
            },
        }
    }

    // Anchors correspond.
    assert forall|i: int| #[trigger] anchor_with_id(g, i) implies exists|x: int|
        1 <= x < g2.len() && anchor_corresponds(g, i, g2, x) by {
        assert(frame_slot_collected(g, n, i));
        let idx = choose|idx: int|
            0 <= idx < collect_frames(g, n).len() && #[trigger] collect_frames(g, n)[idx]
                == frame_entry(g, i);
        lemma_merge_member_frame(fs, ms, idx);
        let j = choose|j: int|
            0 <= j < merge_docs(fs, ms).len() && #[trigger] merge_docs(fs, ms)[j] == (
                fs[idx].0,
                DocEntry::Frame(fs[idx].1),
            );
        assert(entry_resolves(c, cons, j));
        assert(g2[1 + j] == spawned_entity(c, cons, j));
        lemma_anchor_spawn_corresponds(g, root, w, g2, i, j);
        assert(anchor_corresponds(g, i, g2, 1 + j));
    }

    // Models correspond.
    assert forall|i: int| #[trigger] model_with_id(g, i) implies exists|x: int|
        1 <= x < g2.len() && model_corresponds(g, i, g2, x) by {
        assert(model_slot_collected(g, n, i));
        let idx = choose|idx: int|
            0 <= idx < collect_models(g, n).len() && #[trigger] collect_models(g, n)[idx]
                == model_entry(g, i);
        lemma_merge_member_model(fs, ms, idx);
        let j = choose|j: int|
            0 <= j < merge_docs(fs, ms).len() && #[trigger] merge_docs(fs, ms)[j] == (
                ms[idx].0,
                DocEntry::Model(ms[idx].1),
            );
        assert(entry_resolves(c, cons, j));
        assert(g2[1 + j] == spawned_entity(c, cons, j));
        lemma_model_spawn_corresponds(g, root, w, g2, i, j);
        assert(model_corresponds(g, i, g2, 1 + j));
    }
}


/// What the round trip assumes of the saved graph and its document.
pub open spec fn rt_premises(g: Seq<GraphEntity>, root: int, w: &Workcell) -> bool {
    &&& graph_wf(g)
    &&& 0 <= root < g.len()
    &&& g.len() < u32::MAX as int
    &&& ids_assigned(g, root)
    &&& g[root].kind is Root
    &&& parents_persisted(g, root)
    &&& (forall|i: int| !broken_constraint(g, i))
    &&& (forall|i: int|
        0 <= i < g.len() ==> match (#[trigger] g[i]).kind {
            EntityKind::Anchor { anchor, constraint } => match constraint {
                Some(cst) => cst.entity as int != root,
                None => true,
            },
            _ => true,
        })
    &&& saved_doc(g, root, w)
}

/// A persisted non-root slot's assigned ID is a key of the merged entry
/// list.
proof fn lemma_persisted_in_merge(g: Seq<GraphEntity>, root: int, w: &Workcell, t: int)
    requires
        rt_premises(g, root, w),
        visited(g, t, root),
        t != root,
    ensures
        exists|y: int|
            0 <= y < merge_docs(w.frames@, w.models@).len() && (#[trigger] merge_docs(
                w.frames@,
                w.models@,
            )[y]).0 == g[t].site_id->0,
{
    let n = g.len() as int;
    let fs = w.frames@;
    let ms = w.models@;
    lemma_collect_frames_entries(g, n);
    lemma_collect_models_entries(g, n);
    if anchor_with_id(g, t) {
        assert(frame_slot_collected(g, n, t));
        let idx = choose|idx: int|
            0 <= idx < collect_frames(g, n).len() && #[trigger] collect_frames(g, n)[idx]
                == frame_entry(g, t);
        lemma_merge_member_frame(fs, ms, idx);
        let y = choose|y: int|
            0 <= y < merge_docs(fs, ms).len() && #[trigger] merge_docs(fs, ms)[y] == (
                fs[idx].0,
                DocEntry::Frame(fs[idx].1),
            );
        assert(merge_docs(fs, ms)[y].0 == g[t].site_id->0);
    } else {
        assert(model_with_id(g, t));
        assert(model_slot_collected(g, n, t));
        let idx = choose|idx: int|
            0 <= idx < collect_models(g, n).len() && #[trigger] collect_models(g, n)[idx]
                == model_entry(g, t);
        lemma_merge_member_model(fs, ms, idx);
        let y = choose|y: int|
            0 <= y < merge_docs(fs, ms).len() && #[trigger] merge_docs(fs, ms)[y] == (
                ms[idx].0,
                DocEntry::Model(ms[idx].1),
            );
        assert(merge_docs(fs, ms)[y].0 == g[t].site_id->0);
    }
}

/// The parent reference of a merged entry resolves: it is the root's ID or
/// the ID of an entry merged in earlier.
#[verifier::rlimit(100)]
proof fn lemma_entry_parent_resolves(
    g: Seq<GraphEntity>,
    root: int,
    w: &Workcell,
    j: int,
    s1: int,
)
    requires
        rt_premises(g, root, w),
        visited(g, s1, root),
        s1 != root,
        0 <= j < merge_docs(w.frames@, w.models@).len(),
        merge_docs(w.frames@, w.models@)[j].0 == g[s1].site_id->0,
        merge_docs(w.frames@, w.models@)[j].1.parent() == parent_sid(g, s1),
    ensures
        match merge_docs(w.frames@, w.models@)[j].1.parent() {
            None => true,
            Some(p) => p == 0 || key_before(merge_docs(w.frames@, w.models@), j, p),
        },
{
    let c = merge_docs(w.frames@, w.models@);
    lemma_built_doc_wf(g, root, w);
    lemma_merge_ascending(w.frames@, w.models@);
    match g[s1].parent {
        None => {
            assert(false);
        },
        Some(p0) => {
            if p0 as int == root {
                assert(parent_sid(g, s1) == g[root].site_id);
                assert(visited(g, root, root));
                assert(g[root].site_id == Some(0u32));
            } else {
                assert(visited(g, p0 as int, root));
                let pid = g[p0 as int].site_id->0;
                lemma_persisted_in_merge(g, root, w, p0 as int);
                let y = choose|y: int|
                    0 <= y < c.len() && (#[trigger] c[y]).0 == g[p0 as int].site_id->0;
                // The parent was assigned a smaller ID, and merged keys
                // ascend, so its entry stands before this one.
                assert(entity_wf(g[s1], s1, g.len() as int)) by {
                    assert(graph_wf(g));
                }
                lemma_rank_strict(g, p0 as int, s1, root);
                lemma_rank_bound(g, p0 as int, root);
                lemma_rank_bound(g, s1, root);
                assert(g[p0 as int].site_id == Some(
                    assigned_id(g, p0 as int, root) as u32,
                ));
                assert(g[s1].site_id == Some(assigned_id(g, s1, root) as u32));
                assert((pid as int) < (g[s1].site_id->0 as int));
                assert(y < j) by {
                    if y > j {
                        assert(c[j].0 < c[y].0);
                    }
                }
                assert(key_before(c, j, pid));
            }
        },
    }
}


/// The parent slot a resolved entry gets points at the entity carrying the
/// parent's assigned ID.
#[verifier::rlimit(100)]
#[verifier::spinoff_prover]
proof fn lemma_parent_slot(
    g: Seq<GraphEntity>,
    root: int,
    w: &Workcell,
    g2: Seq<GraphEntity>,
    i: int,
    j: int,
)
    requires
        rt_premises(g, root, w),
        loaded_graph(w, g2),
        forall|x: int|
            0 <= x < merge_docs(w.frames@, w.models@).len() ==> #[trigger] entry_resolves(
                merge_docs(w.frames@, w.models@),
                w.mesh_constraints@,
                x,
            ),
        visited(g, i, root),
        i != root,
        0 <= j < merge_docs(w.frames@, w.models@).len(),
        merge_docs(w.frames@, w.models@)[j].0 == g[i].site_id->0,
        merge_docs(w.frames@, w.models@)[j].1.parent() == parent_sid(g, i),
    ensures
        0 <= crate::wload::parent_slot(merge_docs(w.frames@, w.models@), j) < g2.len(),
        g2[crate::wload::parent_slot(merge_docs(w.frames@, w.models@), j)].site_id == parent_sid(
            g,
            i,
        ),
{
    let c = merge_docs(w.frames@, w.models@);
    let cons = w.mesh_constraints@;
    assert(c.len() < u32::MAX as int) by {
        lemma_collect_counts(g, root, g.len() as int);
        lemma_rank_bound(g, g.len() as int, root);
        lemma_built_doc_wf(g, root, w);
        lemma_merge_ascending(w.frames@, w.models@);
    }
    match g[i].parent {
        None => {
            assert(false);
        },
        Some(p0) => {
            if p0 as int == root {
                assert(g[root].site_id == Some(0u32)) by {
                    assert(visited(g, root, root));
                }
                assert(crate::wload::parent_slot(c, j) == 0);
            } else {
                assert(visited(g, p0 as int, root));
                let pid = g[p0 as int].site_id->0;
                assert(pid != 0) by {
                    lemma_rank_bound(g, p0 as int, root);
                }
                assert(key_before(c, j, pid)) by {
                    assert(entry_resolves(c, cons, j));
                }
                let y0 = choose|y: int| 0 <= y < j && (#[trigger] c[y]).0 == pid;
                assert(crate::wload::parent_slot(c, j) == 1 + y0);
                assert(entry_resolves(c, cons, y0));
                assert(g2[1 + y0] == spawned_entity(c, cons, y0));
                assert(g2[1 + y0].site_id == Some(pid));
            }
        },
    }
}

/// The constraint a resolved frame entry gets mirrors the original: same
/// element and pose, and a target slot carrying the target's ID.
#[verifier::rlimit(100)]
#[verifier::spinoff_prover]
proof fn lemma_constraint_slot(
    g: Seq<GraphEntity>,
    root: int,
    w: &Workcell,
    g2: Seq<GraphEntity>,
    i: int,
    j: int,
)
    requires
        rt_premises(g, root, w),
        loaded_graph(w, g2),
        forall|x: int|
            0 <= x < merge_docs(w.frames@, w.models@).len() ==> #[trigger] entry_resolves(
                merge_docs(w.frames@, w.models@),
                w.mesh_constraints@,
                x,
            ),
        anchor_with_id(g, i),
        (match g[i].kind {
            EntityKind::Anchor { anchor, constraint } => constraint is Some,
            _ => false,
        }),
        0 <= j < merge_docs(w.frames@, w.models@).len(),
        merge_docs(w.frames@, w.models@)[j].0 == g[i].site_id->0,
    ensures
        ({
            let c = merge_docs(w.frames@, w.models@);
            let cons = w.mesh_constraints@;
            match g[i].kind {
                EntityKind::Anchor { anchor, constraint } => {
                    let k1 = constraint->0;
                    match get_of(cons, c[j].0) {
                        Some(mc) => {
                            &&& mc.element == k1.element
                            &&& mc.relative_pose == k1.relative_pose
                            &&& 1 <= crate::wload::target_slot(c, mc.entity) < g2.len()
                            &&& g2[crate::wload::target_slot(c, mc.entity)].site_id == g[k1.entity as int].site_id
                        },
                        None => false,
                    }
                },
                _ => false,
            }
        }),
{
    let n = g.len() as int;
    let c = merge_docs(w.frames@, w.models@);
    let cons = w.mesh_constraints@;
    assert(c.len() < u32::MAX as int) by {
        lemma_collect_counts(g, root, g.len() as int);
        lemma_rank_bound(g, g.len() as int, root);
        lemma_built_doc_wf(g, root, w);
        lemma_merge_ascending(w.frames@, w.models@);
    }
    match g[i].kind {
        EntityKind::Anchor { anchor: a1, constraint: c1 } => {
            let k1 = c1->0;
            assert(!broken_constraint(g, i));
            assert(constrained_anchor(g, i));
            lemma_collect_constraints_entries(g, n);
            assert(crate::graph::constraint_slot_collected(g, n, i));
            let ci = choose|ci: int|
                0 <= ci < collect_constraints(g, n).len() && #[trigger] collect_constraints(
                    g,
                    n,
                )[ci] == constraint_entry(g, i);
            lemma_constraints_unique(g, root, n);
            lemma_get_of_at(cons, ci);
            assert(get_of(cons, c[j].0) == Some(constraint_entry(g, i).1));
            let t = k1.entity as int;
            assert(entity_wf(g[i], i, g.len() as int)) by {
                assert(graph_wf(g));
            }
            assert(0 <= t < g.len());
            assert(g[t].site_id is Some);
            assert(visited(g, t, root));
            assert(t != root);
            let tid = g[t].site_id->0;
            lemma_persisted_in_merge(g, root, w, t);
            let ts = crate::wload::target_slot(c, tid);
            assert(0 <= ts - 1 < c.len() && c[ts - 1].0 == tid) by {
                let y = choose|y: int|
                    0 <= y < c.len() && (#[trigger] c[y]).0 == g[t].site_id->0;
                assert(c[y].0 == tid);
            }
            assert(entry_resolves(c, cons, ts - 1));
            assert(g2[ts] == spawned_entity(c, cons, ts - 1));
            assert(g2[ts].site_id == Some(tid));
        },
        _ => {
            assert(false);
        },
    }
}

/// A resolved frame entry spawns an entity corresponding to its source
/// anchor slot.
#[verifier::rlimit(100)]
#[verifier::spinoff_prover]
proof fn lemma_anchor_spawn_corresponds(
    g: Seq<GraphEntity>,
    root: int,
    w: &Workcell,
    g2: Seq<GraphEntity>,
    i: int,
    j: int,
)
    requires
        rt_premises(g, root, w),
        loaded_graph(w, g2),
        forall|x: int|
            0 <= x < merge_docs(w.frames@, w.models@).len() ==> #[trigger] entry_resolves(
                merge_docs(w.frames@, w.models@),
                w.mesh_constraints@,
                x,
            ),
        anchor_with_id(g, i),
        0 <= j < merge_docs(w.frames@, w.models@).len(),
        merge_docs(w.frames@, w.models@)[j] == (
            frame_entry(g, i).0,
            DocEntry::Frame(frame_entry(g, i).1),
        ),
    ensures
        anchor_corresponds(g, i, g2, 1 + j),
{
    let n = g.len() as int;
    let c = merge_docs(w.frames@, w.models@);
    let cons = w.mesh_constraints@;
    lemma_assigned_distinct(g, root);
    assert(c.len() < u32::MAX as int) by {
        lemma_collect_counts(g, root, g.len() as int);
        lemma_rank_bound(g, g.len() as int, root);
        lemma_built_doc_wf(g, root, w);
        lemma_merge_ascending(w.frames@, w.models@);
    }
    assert(entry_resolves(c, cons, j));
    assert(g2[1 + j] == spawned_entity(c, cons, j));
    assert(c[j].0 == g[i].site_id->0);
    match g[i].kind {
        EntityKind::Anchor { anchor: a1, constraint: c1 } => {
            match c1 {
                None => {
                    // No constraint entry is keyed by this ID.
                    match get_of(cons, c[j].0) {
                        Some(mc) => {
                            crate::ids::lemma_get_of_has_key(cons, c[j].0);
                            lemma_collect_constraints_keys(g, n, c[j].0);
                            let j0 = choose|x: int|
                                0 <= x < n && #[trigger] g[x].site_id == Some(c[j].0)
                                    && constrained_anchor(g, x);
                            assert(j0 == i);
                        },
                        None => {},
                    }
                },
                Some(k1) => {
                    lemma_constraint_slot(g, root, w, g2, i, j);
                },
            }
            // The parent slot carries the parent's ID.
            assert(c[j].1.parent() == parent_sid(g, i));
            lemma_parent_slot(g, root, w, g2, i, j);
        },
        _ => {
            assert(false);
        },
    }
}

/// A resolved model entry spawns an entity corresponding to its source
/// model slot.
#[verifier::rlimit(100)]
#[verifier::spinoff_prover]
proof fn lemma_model_spawn_corresponds(
    g: Seq<GraphEntity>,
    root: int,
    w: &Workcell,
    g2: Seq<GraphEntity>,
    i: int,
    j: int,
)
    requires
        rt_premises(g, root, w),
        loaded_graph(w, g2),
        forall|x: int|
            0 <= x < merge_docs(w.frames@, w.models@).len() ==> #[trigger] entry_resolves(
                merge_docs(w.frames@, w.models@),
                w.mesh_constraints@,
                x,
            ),
        model_with_id(g, i),
        0 <= j < merge_docs(w.frames@, w.models@).len(),
        merge_docs(w.frames@, w.models@)[j] == (
            model_entry(g, i).0,
            DocEntry::Model(model_entry(g, i).1),
        ),
    ensures
        model_corresponds(g, i, g2, 1 + j),
{
    let c = merge_docs(w.frames@, w.models@);
    let cons = w.mesh_constraints@;
    assert(c.len() < u32::MAX as int) by {
        lemma_collect_counts(g, root, g.len() as int);
        lemma_rank_bound(g, g.len() as int, root);
        lemma_built_doc_wf(g, root, w);
        lemma_merge_ascending(w.frames@, w.models@);
    }
    assert(entry_resolves(c, cons, j));
    assert(g2[1 + j] == spawned_entity(c, cons, j));
    assert(c[j].0 == g[i].site_id->0);
    assert(c[j].1.parent() == parent_sid(g, i));
    lemma_parent_slot(g, root, w, g2, i, j);
}

} // verus!
