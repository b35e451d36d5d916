//! The live entity graph and dense stable-ID assignment.
//!
//! The live scene is an arena of entities indexed by handle, each with an
//! explicit parent pointer that always points at an earlier slot (parents are
//! spawned before their children). Saving first walks the root's descendants
//! and assigns every persistable, non-pending entity a dense ID: the root
//! gets 0, and the remaining visited entities get consecutive IDs in
//! traversal (slot) order.

use vstd::prelude::*;

use crate::ids::{has_key, IdMap};
use crate::site::Anchor;
use crate::workcell::{
    Frame, MeshConstraint, Model, Parented, Workcell, WorkcellGenerationError,
    WorkcellProperties,
};

verus! {

/// What an entity in the live graph is.
pub enum EntityKind {
    /// A workcell root carrying the document properties.
    Root { properties: WorkcellProperties },
    /// An anchor, optionally constrained to a named element of a model.
    Anchor { anchor: Anchor, constraint: Option<MeshConstraint<usize>> },
    /// A positioned asset reference.
    Model { model: Model },
    /// Scaffolding that is never persisted.
    Helper,
}

/// One slot of the live graph.
pub struct GraphEntity {
    /// The handle of the parent entity; always an earlier slot.
    pub parent: Option<usize>,
    /// Transient, not yet committed: excluded from persistence.
    pub pending: bool,
    /// The persisted ID assigned by the latest ID-assignment pass.
    pub site_id: Option<u32>,
    pub kind: EntityKind,
}

/// The live entity graph: an arena indexed by handle.
pub struct EntityGraph {
    pub entities: Vec<GraphEntity>,
}

/// Whether an entity kind is persisted in a document.
pub open spec fn persistable(k: EntityKind) -> bool {
    k is Anchor || k is Model
}

/// Parents point at earlier slots, and constraint targets are in bounds.
pub open spec fn graph_wf(g: Seq<GraphEntity>) -> bool {
    forall|i: int| 0 <= i < g.len() ==> #[trigger] entity_wf(g[i], i, g.len() as int)
}

impl EntityGraph {
    /// Parents point at earlier slots, and constraint targets are in bounds.
    pub open spec fn wf(&self) -> bool {
        graph_wf(self.entities@)
    }
}

pub open spec fn entity_wf(e: GraphEntity, i: int, n: int) -> bool {
    &&& match e.parent {
        None => true,
        Some(p) => (p as int) < i,
    }
    &&& match e.kind {
        EntityKind::Anchor { anchor, constraint } => match constraint {
            Some(c) => (c.entity as int) < n,
            None => true,
        },
        _ => true,
    }
}

/// Whether entity `i` descends from `root` through parent pointers.
pub open spec fn descends(g: Seq<GraphEntity>, i: int, root: int) -> bool
    decreases i,
{
    0 <= i < g.len() && match g[i].parent {
        None => false,
        Some(p) => (p as int) < i && ((p as int) == root || descends(g, p as int, root)),
    }
}

/// Whether the ID-assignment pass visits entity `i` under `root`: the root
/// itself, or a persistable, non-pending descendant of it.
pub open spec fn visited(g: Seq<GraphEntity>, i: int, root: int) -> bool {
    &&& 0 <= i < g.len()
    &&& (i == root || (persistable(g[i].kind) && !g[i].pending && descends(g, i, root)))
}

/// How many entities other than the root are visited in slots `[0, i)`.
pub open spec fn rank(g: Seq<GraphEntity>, i: int, root: int) -> int
    decreases i,
{
    if i <= 0 {
        0
    } else {
        rank(g, i - 1, root) + if visited(g, i - 1, root) && i - 1 != root {
            1int
        } else {
            0int
        }
    }
}

/// The ID the assignment pass gives a visited entity.
pub open spec fn assigned_id(g: Seq<GraphEntity>, i: int, root: int) -> int {
    if i == root {
        0
    } else {
        1 + rank(g, i, root)
    }
}

/// Everything but the assigned IDs is the same in both graphs.
pub open spec fn same_shape(a: Seq<GraphEntity>, b: Seq<GraphEntity>) -> bool {
    &&& a.len() == b.len()
    &&& forall|i: int|
        0 <= i < a.len() ==> #[trigger] b[i].parent == a[i].parent && b[i].pending
            == a[i].pending && b[i].kind == a[i].kind
}

/// The outcome the ID-assignment pass establishes on a graph.
pub open spec fn ids_assigned(g: Seq<GraphEntity>, root: int) -> bool {
    forall|i: int|
        0 <= i < g.len() ==> #[trigger] g[i].site_id == (if visited(g, i, root) {
            Some(assigned_id(g, i, root) as u32)
        } else {
            None::<u32>
        })
}

/// Visiting and ranks only read the shape, never the assigned IDs.
pub proof fn lemma_same_shape_visited(a: Seq<GraphEntity>, b: Seq<GraphEntity>, root: int)
    requires
        same_shape(a, b),
    ensures
        forall|i: int| #[trigger] descends(b, i, root) == descends(a, i, root),
        forall|i: int| #[trigger] visited(b, i, root) == visited(a, i, root),
        forall|i: int| #[trigger] rank(b, i, root) == rank(a, i, root),
{
    assert forall|i: int| #[trigger] descends(b, i, root) == descends(a, i, root) by {
        lemma_same_shape_descends(a, b, i, root);
    }
    assert forall|i: int| #[trigger] visited(b, i, root) == visited(a, i, root) by {
        lemma_same_shape_descends(a, b, i, root);
    }
    assert forall|i: int| #[trigger] rank(b, i, root) == rank(a, i, root) by {
        lemma_same_shape_rank(a, b, i, root);
    }
}

/// Well-formedness only reads the shape.
pub proof fn lemma_same_shape_wf(a: Seq<GraphEntity>, b: Seq<GraphEntity>)
    requires
        graph_wf(a),
        same_shape(a, b),
    ensures
        graph_wf(b),
{
    assert forall|i: int| 0 <= i < b.len() implies #[trigger] entity_wf(b[i], i, b.len() as int) by {
        assert(entity_wf(a[i], i, a.len() as int));
    }
}

proof fn lemma_same_shape_descends(a: Seq<GraphEntity>, b: Seq<GraphEntity>, i: int, root: int)
    requires
        same_shape(a, b),
    ensures
        descends(b, i, root) == descends(a, i, root),
    decreases i,
{
    if 0 <= i < a.len() {
        match a[i].parent {
            None => {},
            Some(p) => {
                if (p as int) < i {
                    lemma_same_shape_descends(a, b, p as int, root);
                }
            },
        }
    }
}

proof fn lemma_same_shape_rank(a: Seq<GraphEntity>, b: Seq<GraphEntity>, i: int, root: int)
    requires
        same_shape(a, b),
    ensures
        rank(b, i, root) == rank(a, i, root),
    decreases i,
{
    if i > 0 {
        lemma_same_shape_rank(a, b, i - 1, root);
        lemma_same_shape_descends(a, b, i - 1, root);
    }
}

/// Ranks never exceed the number of slots scanned.
pub proof fn lemma_rank_bound(g: Seq<GraphEntity>, i: int, root: int)
    requires
        i >= 0,
    ensures
        0 <= rank(g, i, root) <= i,
    decreases i,
{
    if i > 0 {
        lemma_rank_bound(g, i - 1, root);
    }
}

/// Whether entity `i` descends from `root`, walking parent pointers.
fn is_descendant(g: &EntityGraph, i: usize, root: usize) -> (r: bool)
    requires
        g.wf(),
        i < g.entities@.len(),
        i != root,
    ensures
        r == descends(g.entities@, i as int, root as int),
{
    let mut cur = i;
    loop
        invariant
            g.wf(),
            cur < g.entities@.len(),
            cur != root,
            descends(g.entities@, i as int, root as int) == descends(
                g.entities@,
                cur as int,
                root as int,
            ),
        decreases cur,
    {
        assert(entity_wf(g.entities@[cur as int], cur as int, g.entities@.len() as int));
        match g.entities[cur].parent {
            None => {
                return false;
            },
            Some(p) => {
                if p == root {
                    return true;
                }
                cur = p;
            },
        }
    }
}

/// Walk the root and all of its persistable, non-pending descendants in slot
/// order and assign dense IDs: the root gets 0, every other visited entity
/// the next consecutive ID. Entities that are not visited lose any stale ID.
pub fn assign_site_ids(g: &mut EntityGraph, root: usize)
    requires
        old(g).wf(),
        root < old(g).entities@.len(),
        old(g).entities@.len() < u32::MAX as usize,
    ensures
        final(g).wf(),
        same_shape(old(g).entities@, final(g).entities@),
        ids_assigned(final(g).entities@, root as int),
{
    let ghost g0 = g.entities@;
    let n = g.entities.len();
    let mut next: u32 = 1;
    let mut i: usize = 0;
    while i < n
        invariant
            graph_wf(g0),
            g.wf(),
            n == g.entities@.len(),
            n < u32::MAX as usize,
            root < n,
            0 <= i <= n,
            same_shape(g0, g.entities@),
            next == 1 + rank(g0, i as int, root as int),
            forall|j: int|
                0 <= j < i ==> #[trigger] g.entities@[j].site_id == (if visited(
                    g0,
                    j,
                    root as int,
                ) {
                    Some(assigned_id(g0, j, root as int) as u32)
                } else {
                    None::<u32>
                }),
        decreases n - i,
    {
        proof {
            lemma_rank_bound(g0, i as int, root as int);
            lemma_same_shape_visited(g0, g.entities@, root as int);
        }
        let id: Option<u32> = if i == root {
            Some(0)
        } else {
            let qualifies = match &g.entities[i].kind {
                EntityKind::Anchor { .. } => !g.entities[i].pending,
                EntityKind::Model { .. } => !g.entities[i].pending,
                _ => false,
            };
            if qualifies && is_descendant(g, i, root) {
                let assigned = next;
                next += 1;
                Some(assigned)
            } else {
                None
            }
        };
        let ghost before = g.entities@;
        let e = &mut g.entities[i];
        e.site_id = id;
        proof {
            assert(same_shape(g0, g.entities@));
            lemma_same_shape_wf(g0, g.entities@);
        }
        i += 1;
    }
    proof {
        lemma_same_shape_visited(g0, g.entities@, root as int);
    }
}


/// How many entities the assignment pass visits in all.
pub open spec fn n_visited(g: Seq<GraphEntity>, root: int) -> int {
    1 + rank(g, g.len() as int, root)
}

/// Ranks grow along the scan.
proof fn lemma_rank_mono(g: Seq<GraphEntity>, i: int, j: int, root: int)
    requires
        0 <= i <= j,
    ensures
        rank(g, i, root) <= rank(g, j, root),
    decreases j - i,
{
    if i < j {
        lemma_rank_mono(g, i, j - 1, root);
    }
}

/// A visited non-root entity's rank is strictly below later ranks.
pub proof fn lemma_rank_strict(g: Seq<GraphEntity>, i: int, j: int, root: int)
    requires
        0 <= i < j,
        visited(g, i, root),
        i != root,
    ensures
        rank(g, i, root) < rank(g, j, root),
{
    assert(rank(g, i + 1, root) == rank(g, i, root) + 1);
    lemma_rank_mono(g, i + 1, j, root);
}

/// Some entity of every rank below the total stands in the scanned prefix.
proof fn lemma_rank_surjective(g: Seq<GraphEntity>, m: int, k: int, root: int)
    requires
        0 <= k < rank(g, m, root),
    ensures
        exists|i: int|
            0 <= i < m && #[trigger] visited(g, i, root) && i != root && rank(g, i, root) == k,
    decreases m,
{
    if m > 0 {
        if k < rank(g, m - 1, root) {
            lemma_rank_surjective(g, m - 1, k, root);
        } else {
            assert(visited(g, m - 1, root) && m - 1 != root && rank(g, m - 1, root) == k);
        }
    }
}

/// Density of assigned IDs: after the assignment pass the visited entities
/// carry exactly the IDs `0 .. n_visited`, each exactly once.
pub proof fn lemma_id_density(g: Seq<GraphEntity>, root: int)
    requires
        ids_assigned(g, root),
        0 <= root < g.len(),
        g.len() < u32::MAX as int,
    ensures
        forall|i: int|
            visited(g, i, root) ==> match #[trigger] g[i].site_id {
                Some(id) => (id as int) < n_visited(g, root),
                None => false,
            },
        forall|i: int, j: int|
            visited(g, i, root) && visited(g, j, root) && i != j ==> #[trigger] g[i].site_id
                != #[trigger] g[j].site_id,
        forall|k: int|
            0 <= k < n_visited(g, root) ==> exists|i: int|
                #[trigger] visited(g, i, root) && g[i].site_id == Some(#[trigger] (k as u32)),
{
    assert forall|i: int| visited(g, i, root) implies match #[trigger] g[i].site_id {
        Some(id) => (id as int) < n_visited(g, root),
        None => false,
    } by {
        lemma_rank_bound(g, i, root);
        if i != root {
            lemma_rank_strict(g, i, g.len() as int, root);
        } else {
            lemma_rank_bound(g, g.len() as int, root);
        }
    }
    assert forall|i: int, j: int|
        visited(g, i, root) && visited(g, j, root) && i != j implies #[trigger] g[i].site_id
        != #[trigger] g[j].site_id by {
        lemma_rank_bound(g, i, root);
        lemma_rank_bound(g, j, root);
        if i != root && j != root {
            if i < j {
                lemma_rank_strict(g, i, j, root);
            } else {
                lemma_rank_strict(g, j, i, root);
            }
        }
    }
    assert forall|k: int| 0 <= k < n_visited(g, root) implies exists|i: int|
        #[trigger] visited(g, i, root) && g[i].site_id == Some(#[trigger] (k as u32)) by {
        if k == 0 {
            assert(visited(g, root, root));
            assert(g[root].site_id == Some(0u32));
        } else {
            lemma_rank_surjective(g, g.len() as int, k - 1, root);
            let i = choose|i: int|
                0 <= i < g.len() && #[trigger] visited(g, i, root) && i != root && rank(
                    g,
                    i,
                    root,
                ) == k - 1;
            lemma_rank_bound(g, i, root);
            assert(g[i].site_id == Some(k as u32));
        }
    }
}

/// No two entities carry the same assigned ID.
pub open spec fn distinct_sids(g: Seq<GraphEntity>) -> bool {
    forall|i: int, j: int|
        0 <= i < g.len() && 0 <= j < g.len() && i != j && (#[trigger] g[i].site_id) is Some
            && (#[trigger] g[j].site_id) is Some ==> g[i].site_id != g[j].site_id
}

/// After the assignment pass all held IDs are distinct.
pub proof fn lemma_assigned_distinct(g: Seq<GraphEntity>, root: int)
    requires
        ids_assigned(g, root),
        0 <= root < g.len(),
        g.len() < u32::MAX as int,
    ensures
        distinct_sids(g),
{
    lemma_id_density(g, root);
    assert forall|i: int, j: int|
        0 <= i < g.len() && 0 <= j < g.len() && i != j && (#[trigger] g[i].site_id) is Some
            && (#[trigger] g[j].site_id) is Some implies g[i].site_id != g[j].site_id by {
        assert(visited(g, i, root));
        assert(visited(g, j, root));
    }
}


/// The parent field a document entry gets: the parent's assigned ID, if the
/// parent carries one.
pub open spec fn parent_sid(g: Seq<GraphEntity>, i: int) -> Option<u32> {
    match g[i].parent {
        None => None,
        Some(p) => g[p as int].site_id,
    }
}

/// The frame entries a document gets from the first `m` slots, in slot order.
pub open spec fn collect_frames(g: Seq<GraphEntity>, m: int) -> Seq<(u32, Parented<Frame>)>
    decreases m,
{
    if m <= 0 {
        Seq::empty()
    } else {
        collect_frames(g, m - 1) + match g[m - 1].kind {
            EntityKind::Anchor { anchor, constraint } => match g[m - 1].site_id {
                Some(id) => seq![
                    (id, Parented { parent: parent_sid(g, m - 1), bundle: Frame { anchor } }),
                ],
                None => Seq::empty(),
            },
            _ => Seq::empty(),
        }
    }
}

/// The model entries a document gets from the first `m` slots, in slot order.
pub open spec fn collect_models(g: Seq<GraphEntity>, m: int) -> Seq<(u32, Parented<Model>)>
    decreases m,
{
    if m <= 0 {
        Seq::empty()
    } else {
        collect_models(g, m - 1) + match g[m - 1].kind {
            EntityKind::Model { model } => match g[m - 1].site_id {
                Some(id) => seq![
                    (id, Parented { parent: parent_sid(g, m - 1), bundle: model }),
                ],
                None => Seq::empty(),
            },
            _ => Seq::empty(),
        }
    }
}

/// The mesh-constraint entries a document gets from the first `m` slots,
/// keyed by the constrained frame's ID and referring to the target's ID.
pub open spec fn collect_constraints(g: Seq<GraphEntity>, m: int) -> Seq<(u32, MeshConstraint<
    u32,
>)>
    decreases m,
{
    if m <= 0 {
        Seq::empty()
    } else {
        collect_constraints(g, m - 1) + match g[m - 1].kind {
            EntityKind::Anchor { anchor, constraint } => match (g[m - 1].site_id, constraint) {
                (Some(id), Some(c)) => match g[c.entity as int].site_id {
                    Some(t) => seq![
                        (
                            id,
                            MeshConstraint {
                                entity: t,
                                element: c.element,
                                relative_pose: c.relative_pose,
                            },
                        ),
                    ],
                    None => Seq::empty(),
                },
                _ => Seq::empty(),
            },
            _ => Seq::empty(),
        }
    }
}

/// A visited anchor whose mesh constraint points at an entity that carries
/// no assigned ID: building a document from the graph must abort on it.
pub open spec fn broken_constraint(g: Seq<GraphEntity>, i: int) -> bool {
    &&& 0 <= i < g.len()
    &&& g[i].site_id is Some
    &&& match g[i].kind {
        EntityKind::Anchor { anchor, constraint } => match constraint {
            Some(c) => g[c.entity as int].site_id is None,
            None => false,
        },
        _ => false,
    }
}

/// Every key of the collected frame entries is an assigned ID of an earlier
/// anchor slot.
proof fn lemma_collect_frames_keys(g: Seq<GraphEntity>, m: int, k: u32)
    requires
        has_key(collect_frames(g, m), k),
    ensures
        exists|j: int| 0 <= j < m && #[trigger] g[j].site_id == Some(k),
    decreases m,
{
    if m > 0 {
        if has_key(collect_frames(g, m - 1), k) {
            lemma_collect_frames_keys(g, m - 1, k);
        } else {
            let s = collect_frames(g, m);
            let i = choose|i: int| 0 <= i < s.len() && s[i].0 == k;
            assert(i == s.len() - 1);
            assert(g[m - 1].site_id == Some(k));
        }
    }
}

proof fn lemma_collect_models_keys(g: Seq<GraphEntity>, m: int, k: u32)
    requires
        has_key(collect_models(g, m), k),
    ensures
        exists|j: int| 0 <= j < m && #[trigger] g[j].site_id == Some(k),
    decreases m,
{
    if m > 0 {
        if has_key(collect_models(g, m - 1), k) {
            lemma_collect_models_keys(g, m - 1, k);
        } else {
            let s = collect_models(g, m);
            let i = choose|i: int| 0 <= i < s.len() && s[i].0 == k;
            assert(i == s.len() - 1);
            assert(g[m - 1].site_id == Some(k));
        }
    }
}

pub proof fn lemma_collect_constraints_keys(g: Seq<GraphEntity>, m: int, k: u32)
    requires
        0 <= m <= g.len(),
        has_key(collect_constraints(g, m), k),
    ensures
        exists|j: int|
            0 <= j < m && #[trigger] g[j].site_id == Some(k) && constrained_anchor(g, j),
    decreases m,
{
    if m > 0 {
        if has_key(collect_constraints(g, m - 1), k) {
            lemma_collect_constraints_keys(g, m - 1, k);
        } else {
            let s = collect_constraints(g, m);
            let i = choose|i: int| 0 <= i < s.len() && s[i].0 == k;
            assert(i == s.len() - 1);
            assert(g[m - 1].site_id == Some(k) && constrained_anchor(g, m - 1));
        }
    }
}

/// Project the graph's ID-carrying anchors into document frame entries, in
/// slot order, each with its parent's ID when the parent carries one.
pub fn generate_anchors(g: &EntityGraph) -> (r: IdMap<Parented<Frame>>)
    requires
        g.wf(),
        distinct_sids(g.entities@),
    ensures
        r@ == collect_frames(g.entities@, g.entities@.len() as int),
{
    let gs = &g.entities;
    let n = gs.len();
    let mut frames: IdMap<Parented<Frame>> = IdMap::new();
    let mut i: usize = 0;
    while i < n
        invariant
            g.wf(),
            distinct_sids(g.entities@),
            n == g.entities@.len(),
            gs@ == g.entities@,
            0 <= i <= n,
            frames@ == collect_frames(g.entities@, i as int),
        decreases n - i,
    {
        assert(entity_wf(gs@[i as int], i as int, n as int));
        match &gs[i].kind {
            EntityKind::Anchor { anchor, constraint: _ } => {
                match gs[i].site_id {
                    Some(id) => {
                        let parent: Option<u32> = match gs[i].parent {
                            None => None,
                            Some(p) => gs[p].site_id,
                        };
                        proof {
                            if has_key(frames@, id) {
                                lemma_collect_frames_keys(g.entities@, i as int, id);
                            }
                        }
                        frames.insert(id, Parented { parent, bundle: Frame { anchor: *anchor } });
                    },
                    None => {},
                }
            },
            _ => {},
        }
        i += 1;
    }
    frames
}

/// Project the live graph under `root` into a workcell document.
///
/// First runs the ID-assignment pass, then builds one document entry per
/// ID-carrying model and anchor, plus one mesh-constraint entry per
/// constrained anchor. Aborts with `InvalidWorkcellEntity` when the root
/// carries no workcell properties, and with `BrokenConstraintReference` when
/// a constraint points at an entity without an assigned ID; nothing partial
/// is returned.
pub fn generate_workcell(g: &mut EntityGraph, root: usize) -> (r: Result<
    Workcell,
    WorkcellGenerationError,
>)
    requires
        old(g).wf(),
        root < old(g).entities@.len(),
        old(g).entities@.len() < u32::MAX as usize,
    ensures
        final(g).wf(),
        same_shape(old(g).entities@, final(g).entities@),
        ids_assigned(final(g).entities@, root as int),
        match r {
            Ok(w) => {
                &&& match final(g).entities@[root as int].kind {
                    EntityKind::Root { properties } => w.properties == properties,
                    _ => false,
                }
                &&& !(exists|i: int| broken_constraint(final(g).entities@, i))
                &&& w.frames@ == collect_frames(
                    final(g).entities@,
                    final(g).entities@.len() as int,
                )
                &&& w.models@ == collect_models(
                    final(g).entities@,
                    final(g).entities@.len() as int,
                )
                &&& w.mesh_constraints@ == collect_constraints(
                    final(g).entities@,
                    final(g).entities@.len() as int,
                )
            },
            Err(WorkcellGenerationError::InvalidWorkcellEntity(e)) => e == root && !(final(g).entities@[root as int].kind is Root),
            Err(WorkcellGenerationError::BrokenConstraintReference(i)) => final(g).entities@[root as int].kind is Root && broken_constraint(final(g).entities@, i as int),
        },
{
    assign_site_ids(g, root);
    proof {
        lemma_assigned_distinct(g.entities@, root as int);
    }
    let properties: WorkcellProperties = match &g.entities[root].kind {
        EntityKind::Root { properties } => properties.duplicate(),
        _ => {
            return Err(WorkcellGenerationError::InvalidWorkcellEntity(root));
        },
    };
    let gs = &g.entities;
    let n = gs.len();

    // Models
    let mut models: IdMap<Parented<Model>> = IdMap::new();
    let mut i: usize = 0;
    while i < n
        invariant
            g.wf(),
            distinct_sids(g.entities@),
            n == g.entities@.len(),
            gs@ == g.entities@,
            0 <= i <= n,
            models@ == collect_models(g.entities@, i as int),
        decreases n - i,
    {
        assert(entity_wf(gs@[i as int], i as int, n as int));
        match &gs[i].kind {
            EntityKind::Model { model } => {
                match gs[i].site_id {
                    Some(id) => {
                        let parent: Option<u32> = match gs[i].parent {
                            None => None,
                            Some(p) => gs[p].site_id,
                        };
                        proof {
                            if has_key(models@, id) {
                                lemma_collect_models_keys(g.entities@, i as int, id);
                            }
                        }
                        models.insert(id, Parented { parent, bundle: model.duplicate() });
                    },
                    None => {},
                }
            },
            _ => {},
        }
        i += 1;
    }

    // Anchors and their mesh constraints
    let mut frames: IdMap<Parented<Frame>> = IdMap::new();
    let mut constraints: IdMap<MeshConstraint<u32>> = IdMap::new();
    let mut i: usize = 0;
    while i < n
        invariant
            g.wf(),
            distinct_sids(g.entities@),
            n == g.entities@.len(),
            gs@ == g.entities@,
            0 <= i <= n,
            frames@ == collect_frames(g.entities@, i as int),
            constraints@ == collect_constraints(g.entities@, i as int),
            forall|j: int| 0 <= j < i ==> !broken_constraint(g.entities@, j),
            root < n,
            same_shape(old(g).entities@, g.entities@),
            ids_assigned(g.entities@, root as int),
            g.entities@[root as int].kind is Root,
        decreases n - i,
    {
        assert(entity_wf(gs@[i as int], i as int, n as int));
        match &gs[i].kind {
            EntityKind::Anchor { anchor, constraint } => {
                match gs[i].site_id {
                    Some(id) => {
                        let parent: Option<u32> = match gs[i].parent {
                            None => None,
                            Some(p) => gs[p].site_id,
                        };
                        proof {
                            if has_key(frames@, id) {
                                lemma_collect_frames_keys(g.entities@, i as int, id);
                            }
                        }
                        frames.insert(id, Parented { parent, bundle: Frame { anchor: *anchor } });
                        match constraint {
                            Some(c) => {
                                match gs[c.entity].site_id {
                                    Some(t) => {
                                        proof {
                                            if has_key(constraints@, id) {
                                                lemma_collect_constraints_keys(
                                                    g.entities@,
                                                    i as int,
                                                    id,
                                                );
                                            }
                                        }
                                        constraints.insert(
                                            id,
                                            MeshConstraint {
                                                entity: t,
                                                element: c.element.clone(),
                                                relative_pose: c.relative_pose,
                                            },
                                        );
                                    },
                                    None => {
                                        return Err(
                                            WorkcellGenerationError::BrokenConstraintReference(i),
                                        );
                                    },
                                }
                            },
                            None => {},
                        }
                    },
                    None => {},
                }
            },
            _ => {},
        }
        i += 1;
    }

    Ok(Workcell { properties, frames, models, mesh_constraints: constraints })
}

/// Whether slot `j` holds an anchor that carries an assigned ID.
pub open spec fn anchor_with_id(g: Seq<GraphEntity>, j: int) -> bool {
    0 <= j < g.len() && g[j].kind is Anchor && g[j].site_id is Some
}

/// Whether slot `j` holds a model that carries an assigned ID.
pub open spec fn model_with_id(g: Seq<GraphEntity>, j: int) -> bool {
    0 <= j < g.len() && g[j].kind is Model && g[j].site_id is Some
}

/// The document entry built from the anchor at slot `j`.
pub open spec fn frame_entry(g: Seq<GraphEntity>, j: int) -> (u32, Parented<Frame>) {
    match g[j].kind {
        EntityKind::Anchor { anchor, constraint } => (
            g[j].site_id->0,
            Parented { parent: parent_sid(g, j), bundle: Frame { anchor } },
        ),
        _ => arbitrary(),
    }
}

/// The document entry built from the model at slot `j`.
pub open spec fn model_entry(g: Seq<GraphEntity>, j: int) -> (u32, Parented<Model>) {
    match g[j].kind {
        EntityKind::Model { model } => (g[j].site_id->0, Parented { parent: parent_sid(g, j), bundle: model }),
        _ => arbitrary(),
    }
}

/// The frame entry at position `idx` comes from some ID-carrying anchor slot.
pub open spec fn frame_entry_sourced(g: Seq<GraphEntity>, m: int, idx: int) -> bool {
    exists|j: int|
        0 <= j < m && #[trigger] anchor_with_id(g, j) && collect_frames(g, m)[idx] == frame_entry(
            g,
            j,
        )
}

/// The anchor at slot `j` contributes a frame entry.
pub open spec fn frame_slot_collected(g: Seq<GraphEntity>, m: int, j: int) -> bool {
    exists|idx: int|
        0 <= idx < collect_frames(g, m).len() && #[trigger] collect_frames(g, m)[idx]
            == frame_entry(g, j)
}

/// The model entry at position `idx` comes from some ID-carrying model slot.
pub open spec fn model_entry_sourced(g: Seq<GraphEntity>, m: int, idx: int) -> bool {
    exists|j: int|
        0 <= j < m && #[trigger] model_with_id(g, j) && collect_models(g, m)[idx] == model_entry(
            g,
            j,
        )
}

/// The model at slot `j` contributes a model entry.
pub open spec fn model_slot_collected(g: Seq<GraphEntity>, m: int, j: int) -> bool {
    exists|idx: int|
        0 <= idx < collect_models(g, m).len() && #[trigger] collect_models(g, m)[idx]
            == model_entry(g, j)
}

/// The constraint entry at position `idx` comes from a constrained anchor.
pub open spec fn constraint_entry_sourced(g: Seq<GraphEntity>, m: int, idx: int) -> bool {
    exists|j: int|
        0 <= j < m && #[trigger] constrained_anchor(g, j) && collect_constraints(g, m)[idx]
            == constraint_entry(g, j)
}

/// The constrained anchor at slot `j` contributes a constraint entry.
pub open spec fn constraint_slot_collected(g: Seq<GraphEntity>, m: int, j: int) -> bool {
    exists|idx: int|
        0 <= idx < collect_constraints(g, m).len() && #[trigger] collect_constraints(g, m)[idx]
            == constraint_entry(g, j)
}

/// Every collected frame entry comes from an ID-carrying anchor slot, and
/// every such slot contributes its entry.
pub proof fn lemma_collect_frames_entries(g: Seq<GraphEntity>, m: int)
    requires
        0 <= m <= g.len(),
    ensures
        forall|idx: int|
            0 <= idx < collect_frames(g, m).len() ==> #[trigger] frame_entry_sourced(g, m, idx),
        forall|j: int|
            0 <= j < m && #[trigger] anchor_with_id(g, j) ==> frame_slot_collected(g, m, j),
    decreases m,
{
    if m > 0 {
        lemma_collect_frames_entries(g, m - 1);
        let s = collect_frames(g, m);
        let s0 = collect_frames(g, m - 1);
        assert forall|idx: int| 0 <= idx < s.len() implies #[trigger] frame_entry_sourced(
            g,
            m,
            idx,
        ) by {
            if idx < s0.len() {
                assert(frame_entry_sourced(g, m - 1, idx));
                let j = choose|j: int|
                    0 <= j < m - 1 && #[trigger] anchor_with_id(g, j) && s0[idx] == frame_entry(
                        g,
                        j,
                    );
                assert(s[idx] == s0[idx]);
                assert(anchor_with_id(g, j) && collect_frames(g, m)[idx] == frame_entry(g, j));
            } else {
                assert(anchor_with_id(g, m - 1) && collect_frames(g, m)[idx] == frame_entry(
                    g,
                    m - 1,
                ));
            }
        }
        assert forall|j: int| 0 <= j < m && #[trigger] anchor_with_id(g, j) implies
            frame_slot_collected(g, m, j) by {
            if j < m - 1 {
                assert(frame_slot_collected(g, m - 1, j));
                let idx = choose|idx: int|
                    0 <= idx < s0.len() && #[trigger] s0[idx] == frame_entry(g, j);
                assert(s[idx] == frame_entry(g, j));
                assert(collect_frames(g, m)[idx] == frame_entry(g, j));
            } else {
                assert(collect_frames(g, m)[s.len() - 1] == frame_entry(g, j));
            }
        }
    }
}

/// Every collected model entry comes from an ID-carrying model slot, and
/// every such slot contributes its entry.
pub proof fn lemma_collect_models_entries(g: Seq<GraphEntity>, m: int)
    requires
        0 <= m <= g.len(),
    ensures
        forall|idx: int|
            0 <= idx < collect_models(g, m).len() ==> #[trigger] model_entry_sourced(g, m, idx),
        forall|j: int|
            0 <= j < m && #[trigger] model_with_id(g, j) ==> model_slot_collected(g, m, j),
    decreases m,
{
    if m > 0 {
        lemma_collect_models_entries(g, m - 1);
        let s = collect_models(g, m);
        let s0 = collect_models(g, m - 1);
        assert forall|idx: int| 0 <= idx < s.len() implies #[trigger] model_entry_sourced(
            g,
            m,
            idx,
        ) by {
            if idx < s0.len() {
                assert(model_entry_sourced(g, m - 1, idx));
                let j = choose|j: int|
                    0 <= j < m - 1 && #[trigger] model_with_id(g, j) && s0[idx] == model_entry(
                        g,
                        j,
                    );
                assert(s[idx] == s0[idx]);
                assert(model_with_id(g, j) && collect_models(g, m)[idx] == model_entry(g, j));
            } else {
                assert(model_with_id(g, m - 1) && collect_models(g, m)[idx] == model_entry(
                    g,
                    m - 1,
                ));
            }
        }
        assert forall|j: int| 0 <= j < m && #[trigger] model_with_id(g, j) implies
            model_slot_collected(g, m, j) by {
            if j < m - 1 {
                assert(model_slot_collected(g, m - 1, j));
                let idx = choose|idx: int|
                    0 <= idx < s0.len() && #[trigger] s0[idx] == model_entry(g, j);
                assert(s[idx] == model_entry(g, j));
                assert(collect_models(g, m)[idx] == model_entry(g, j));
            } else {
                assert(collect_models(g, m)[s.len() - 1] == model_entry(g, j));
            }
        }
    }
}

/// The collected constraint entry of a constrained anchor slot.
pub open spec fn constraint_entry(g: Seq<GraphEntity>, j: int) -> (u32, MeshConstraint<u32>) {
    match g[j].kind {
        EntityKind::Anchor { anchor, constraint } => match constraint {
            Some(c) => (
                g[j].site_id->0,
                MeshConstraint {
                    entity: g[c.entity as int].site_id->0,
                    element: c.element,
                    relative_pose: c.relative_pose,
                },
            ),
            None => arbitrary(),
        },
        _ => arbitrary(),
    }
}

/// Whether slot `j` holds an ID-carrying anchor with a constraint whose
/// target also carries an ID.
pub open spec fn constrained_anchor(g: Seq<GraphEntity>, j: int) -> bool {
    &&& anchor_with_id(g, j)
    &&& match g[j].kind {
        EntityKind::Anchor { anchor, constraint } => match constraint {
            Some(c) => g[c.entity as int].site_id is Some,
            None => false,
        },
        _ => false,
    }
}

/// Every constrained anchor contributes its constraint entry.
pub proof fn lemma_collect_constraints_entries(g: Seq<GraphEntity>, m: int)
    requires
        0 <= m <= g.len(),
    ensures
        forall|j: int|
            0 <= j < m && #[trigger] constrained_anchor(g, j) ==> constraint_slot_collected(
                g,
                m,
                j,
            ),
        forall|idx: int|
            0 <= idx < collect_constraints(g, m).len() ==> #[trigger] constraint_entry_sourced(
                g,
                m,
                idx,
            ),
    decreases m,
{
    if m > 0 {
        lemma_collect_constraints_entries(g, m - 1);
        let s = collect_constraints(g, m);
        let s0 = collect_constraints(g, m - 1);
        assert forall|idx: int| 0 <= idx < s.len() implies #[trigger] constraint_entry_sourced(
            g,
            m,
            idx,
        ) by {
            if idx < s0.len() {
                assert(constraint_entry_sourced(g, m - 1, idx));
                let j = choose|j: int|
                    0 <= j < m - 1 && #[trigger] constrained_anchor(g, j) && collect_constraints(
                        g,
                        m - 1,
                    )[idx] == constraint_entry(g, j);
                assert(s[idx] == s0[idx]);
                assert(constrained_anchor(g, j) && collect_constraints(g, m)[idx]
                    == constraint_entry(g, j));
            } else {
                assert(constrained_anchor(g, m - 1) && collect_constraints(g, m)[idx]
                    == constraint_entry(g, m - 1));
            }
        }
        assert forall|j: int| 0 <= j < m && #[trigger] constrained_anchor(g, j) implies
            constraint_slot_collected(g, m, j) by {
            if j < m - 1 {
                assert(constraint_slot_collected(g, m - 1, j));
                let idx = choose|idx: int|
                    0 <= idx < s0.len() && #[trigger] s0[idx] == constraint_entry(g, j);
                assert(s[idx] == constraint_entry(g, j));
                assert(collect_constraints(g, m)[idx] == constraint_entry(g, j));
            } else {
                assert(collect_constraints(g, m)[s.len() - 1] == constraint_entry(g, j));
            }
        }
    }
}

} // verus!
