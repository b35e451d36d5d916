//! Reloading a workcell document into a fresh live graph.
//!
//! Every document entry is given back a live slot: the root first, then the
//! frames and models merged in ascending ID order, so that (as the save path
//! guarantees) every parent is spawned before its children. A dangling
//! reference — a parent ID or a mesh-constraint target that no entry carries —
//! fails only the entry that holds it: the slot is left as scaffolding, a
//! failure naming the IDs is reported, and the rest of the document loads.

use vstd::prelude::*;

use crate::graph::{
    entity_wf, graph_wf, EntityGraph, EntityKind, GraphEntity,
};
use crate::ids::{get_of, unique_keys};
use crate::workcell::{Frame, MeshConstraint, Model, Parented, Workcell, WorkcellProperties};

verus! {

/// One entry of a workcell document, frame or model, with its parent ID.
pub enum DocEntry {
    Frame(Parented<Frame>),
    Model(Parented<Model>),
}

impl DocEntry {
    pub open spec fn parent(&self) -> Option<u32> {
        match self {
            DocEntry::Frame(p) => p.parent,
            DocEntry::Model(p) => p.parent,
        }
    }
}

/// A reference of one document entry that did not resolve.
#[derive(Clone, Copy, Debug, PartialEq, Eq, Structural)]
pub enum WorkcellLoadError {
    /// The entry's parent ID is not spawned before it.
    MissingParent { entity: u32, parent: u32 },
    /// The entry's mesh constraint points at an ID no entry carries.
    MissingConstraintTarget { entity: u32, target: u32 },
}

/// Whether keys are strictly ascending along the entry sequence.
pub open spec fn ascending_keys<T>(s: Seq<(u32, T)>) -> bool {
    forall|i: int, j: int| 0 <= i < j < s.len() ==> s[i].0 < s[j].0
}

/// A document the loader accepts: keys strictly ascending within each map,
/// no key used by both maps, and no key 0 (the ID the root itself carries).
pub open spec fn wf_workcell_doc(w: &Workcell) -> bool {
    &&& ascending_keys(w.frames@)
    &&& ascending_keys(w.models@)
    &&& forall|i: int, j: int|
        0 <= i < w.frames@.len() && 0 <= j < w.models@.len() ==> (#[trigger] w.frames@[i]).0 != (
        #[trigger] w.models@[j]).0
    &&& forall|i: int| 0 <= i < w.frames@.len() ==> (#[trigger] w.frames@[i]).0 != 0
    &&& forall|i: int| 0 <= i < w.models@.len() ==> (#[trigger] w.models@[i]).0 != 0
}

/// The frames and models of a document merged into one sequence by
/// ascending ID.
pub open spec fn merge_docs(
    fs: Seq<(u32, Parented<Frame>)>,
    ms: Seq<(u32, Parented<Model>)>,
) -> Seq<(u32, DocEntry)>
    decreases fs.len() + ms.len(),
{
    if fs.len() == 0 {
        ms.map_values(|e: (u32, Parented<Model>)| (e.0, DocEntry::Model(e.1)))
    } else if ms.len() == 0 {
        fs.map_values(|e: (u32, Parented<Frame>)| (e.0, DocEntry::Frame(e.1)))
    } else if fs[0].0 <= ms[0].0 {
        seq![(fs[0].0, DocEntry::Frame(fs[0].1))] + merge_docs(fs.drop_first(), ms)
    } else {
        seq![(ms[0].0, DocEntry::Model(ms[0].1))] + merge_docs(fs, ms.drop_first())
    }
}

/// Whether some entry before position `j` carries key `k`.
pub open spec fn key_before(c: Seq<(u32, DocEntry)>, j: int, k: u32) -> bool {
    exists|i: int| 0 <= i < j && (#[trigger] c[i]).0 == k
}

/// Whether the entry at position `j` resolves: its parent (when not the
/// root) is spawned earlier, and its mesh constraint (when one is keyed by
/// its ID) targets an ID some entry carries.
pub open spec fn entry_resolves(
    c: Seq<(u32, DocEntry)>,
    cons: Seq<(u32, MeshConstraint<u32>)>,
    j: int,
) -> bool {
    &&& match c[j].1.parent() {
        None => true,
        Some(p) => p == 0 || key_before(c, j, p),
    }
    &&& match c[j].1 {
        DocEntry::Frame(_) => match get_of(cons, c[j].0) {
            None => true,
            Some(mc) => key_before(c, c.len() as int, mc.entity),
        },
        DocEntry::Model(_) => true,
    }
}

/// The slot the entry at position `j` gets its parent resolved to: the
/// position of the parent's ID, shifted past the root slot.
pub open spec fn parent_slot(c: Seq<(u32, DocEntry)>, j: int) -> int {
    match c[j].1.parent() {
        None => 0,
        Some(p) => if p == 0 {
            0
        } else {
            1 + (choose|i: int| 0 <= i < j && (#[trigger] c[i]).0 == p)
        },
    }
}

/// The slot a constraint target resolves to.
pub open spec fn target_slot(c: Seq<(u32, DocEntry)>, t: u32) -> int {
    1 + (choose|i: int| 0 <= i < c.len() && (#[trigger] c[i]).0 == t)
}

/// The entity the loader spawns for the entry at position `j`, given that
/// the entry resolves.
pub open spec fn spawned_entity(
    c: Seq<(u32, DocEntry)>,
    cons: Seq<(u32, MeshConstraint<u32>)>,
    j: int,
) -> GraphEntity {
    let parent = Some(parent_slot(c, j) as usize);
    GraphEntity {
        parent,
        pending: false,
        site_id: Some(c[j].0),
        kind: match c[j].1 {
            DocEntry::Frame(p) => EntityKind::Anchor {
                anchor: p.bundle.anchor,
                constraint: match get_of(cons, c[j].0) {
                    None => None,
                    Some(mc) => Some(
                        MeshConstraint {
                            entity: target_slot(c, mc.entity) as usize,
                            element: mc.element,
                            relative_pose: mc.relative_pose,
                        },
                    ),
                },
            },
            DocEntry::Model(p) => EntityKind::Model { model: p.bundle },
        },
    }
}

/// The failures the loader reports for the first `j` entries, in order.
pub open spec fn collect_failures(
    c: Seq<(u32, DocEntry)>,
    cons: Seq<(u32, MeshConstraint<u32>)>,
    j: int,
) -> Seq<WorkcellLoadError>
    decreases j,
{
    if j <= 0 {
        Seq::empty()
    } else {
        collect_failures(c, cons, j - 1) + if entry_resolves(c, cons, j - 1) {
            Seq::empty()
        } else {
            seq![failure_of(c, cons, j - 1)]
        }
    }
}

/// The failure reported for a missing constraint target.
pub open spec fn target_failure(
    c: Seq<(u32, DocEntry)>,
    cons: Seq<(u32, MeshConstraint<u32>)>,
    j: int,
) -> WorkcellLoadError {
    WorkcellLoadError::MissingConstraintTarget {
        entity: c[j].0,
        target: match get_of(cons, c[j].0) {
            Some(mc) => mc.entity,
            None => 0,
        },
    }
}

/// The failure reported for the entry at position `j`, given it does not
/// resolve: a missing parent is reported ahead of a missing constraint
/// target.
pub open spec fn failure_of(
    c: Seq<(u32, DocEntry)>,
    cons: Seq<(u32, MeshConstraint<u32>)>,
    j: int,
) -> WorkcellLoadError {
    match c[j].1.parent() {
        Some(p) => if p != 0 && !key_before(c, j, p) {
            WorkcellLoadError::MissingParent { entity: c[j].0, parent: p }
        } else {
            target_failure(c, cons, j)
        },
        None => target_failure(c, cons, j),
    }
}


/// A merge of documents with ascending, disjoint keys has ascending keys,
/// and therefore unique ones.
pub proof fn lemma_merge_ascending(
    fs: Seq<(u32, Parented<Frame>)>,
    ms: Seq<(u32, Parented<Model>)>,
)
    requires
        ascending_keys(fs),
        ascending_keys(ms),
        forall|i: int, j: int|
            0 <= i < fs.len() && 0 <= j < ms.len() ==> (#[trigger] fs[i]).0 != (
            #[trigger] ms[j]).0,
    ensures
        ascending_keys(merge_docs(fs, ms)),
        merge_docs(fs, ms).len() == fs.len() + ms.len(),
        forall|j: int|
            0 <= j < merge_docs(fs, ms).len() ==> ((exists|i: int|
                0 <= i < fs.len() && (#[trigger] fs[i]).0 == (#[trigger] merge_docs(fs, ms)[j]).0)
                || (exists|i: int| 0 <= i < ms.len() && (#[trigger] ms[i]).0 == merge_docs(fs, ms)[j].0)),
    decreases fs.len() + ms.len(),
{
    let c = merge_docs(fs, ms);
    if fs.len() == 0 {
        assert forall|j: int| 0 <= j < c.len() implies exists|i: int|
            0 <= i < ms.len() && (#[trigger] ms[i]).0 == (#[trigger] c[j]).0 by {
            assert(ms[j].0 == c[j].0);
        }
    } else if ms.len() == 0 {
        assert forall|j: int| 0 <= j < c.len() implies exists|i: int|
            0 <= i < fs.len() && (#[trigger] fs[i]).0 == (#[trigger] c[j]).0 by {
            assert(fs[j].0 == c[j].0);
        }
    } else if fs[0].0 <= ms[0].0 {
        let fs1 = fs.drop_first();
        assert(ascending_keys(fs1)) by {
            assert forall|i: int, j: int| 0 <= i < j < fs1.len() implies fs1[i].0 < fs1[j].0 by {
                assert(fs1[i] == fs[i + 1]);
                assert(fs1[j] == fs[j + 1]);
            }
        }
        assert(forall|i: int, j: int|
            0 <= i < fs1.len() && 0 <= j < ms.len() ==> (#[trigger] fs1[i]).0 != (
            #[trigger] ms[j]).0) by {
            assert(forall|i: int| 0 <= i < fs1.len() ==> #[trigger] fs1[i] == fs[i + 1]);
        }
        lemma_merge_ascending(fs1, ms);
        let rest = merge_docs(fs1, ms);
        assert forall|i: int, j: int| 0 <= i < j < c.len() implies c[i].0 < c[j].0 by {
            if i == 0 {
                // The head key is below every key of both tails.
                let cj = rest[j - 1];
                assert(c[j] == cj);
                if exists|x: int| 0 <= x < fs1.len() && (#[trigger] fs1[x]).0 == cj.0 {
                    let x = choose|x: int| 0 <= x < fs1.len() && (#[trigger] fs1[x]).0 == cj.0;
                    assert(fs1[x] == fs[x + 1]);
                } else {
                    let x = choose|x: int| 0 <= x < ms.len() && (#[trigger] ms[x]).0 == cj.0;
                    if x > 0 {
                        assert(ms[0].0 < ms[x].0);
                    }
                }
            } else {
                assert(c[i] == rest[i - 1]);
                assert(c[j] == rest[j - 1]);
            }
        }
        assert forall|j: int| 0 <= j < c.len() implies ((exists|i: int|
            0 <= i < fs.len() && (#[trigger] fs[i]).0 == (#[trigger] c[j]).0) || (exists|i: int|
            0 <= i < ms.len() && (#[trigger] ms[i]).0 == c[j].0)) by {
            if j == 0 {
                assert(fs[0].0 == c[0].0);
            } else {
                assert(c[j] == rest[j - 1]);
                if exists|i: int| 0 <= i < fs1.len() && (#[trigger] fs1[i]).0 == rest[j - 1].0 {
                    let x = choose|x: int|
                        0 <= x < fs1.len() && (#[trigger] fs1[x]).0 == rest[j - 1].0;
                    assert(fs[x + 1].0 == c[j].0);
                }
            }
        }
    } else {
        let ms1 = ms.drop_first();
        assert(ascending_keys(ms1)) by {
            assert forall|i: int, j: int| 0 <= i < j < ms1.len() implies ms1[i].0 < ms1[j].0 by {
                assert(ms1[i] == ms[i + 1]);
                assert(ms1[j] == ms[j + 1]);
            }
        }
        assert(forall|i: int, j: int|
            0 <= i < fs.len() && 0 <= j < ms1.len() ==> (#[trigger] fs[i]).0 != (
            #[trigger] ms1[j]).0) by {
            assert(forall|j: int| 0 <= j < ms1.len() ==> #[trigger] ms1[j] == ms[j + 1]);
        }
        lemma_merge_ascending(fs, ms1);
        let rest = merge_docs(fs, ms1);
        assert forall|i: int, j: int| 0 <= i < j < c.len() implies c[i].0 < c[j].0 by {
            if i == 0 {
                let cj = rest[j - 1];
                assert(c[j] == cj);
                if exists|x: int| 0 <= x < ms1.len() && (#[trigger] ms1[x]).0 == cj.0 {
                    let x = choose|x: int| 0 <= x < ms1.len() && (#[trigger] ms1[x]).0 == cj.0;
                    assert(ms1[x] == ms[x + 1]);
                } else {
                    let x = choose|x: int| 0 <= x < fs.len() && (#[trigger] fs[x]).0 == cj.0;
                    if x > 0 {
                        assert(fs[0].0 < fs[x].0);
                    }
                }
            } else {
                assert(c[i] == rest[i - 1]);
                assert(c[j] == rest[j - 1]);
            }
        }
        assert forall|j: int| 0 <= j < c.len() implies ((exists|i: int|
            0 <= i < fs.len() && (#[trigger] fs[i]).0 == (#[trigger] c[j]).0) || (exists|i: int|
            0 <= i < ms.len() && (#[trigger] ms[i]).0 == c[j].0)) by {
            if j == 0 {
                assert(ms[0].0 == c[0].0);
            } else {
                assert(c[j] == rest[j - 1]);
                if exists|i: int| 0 <= i < ms1.len() && (#[trigger] ms1[i]).0 == rest[j - 1].0 {
                    let x = choose|x: int|
                        0 <= x < ms1.len() && (#[trigger] ms1[x]).0 == rest[j - 1].0;
                    assert(ms[x + 1].0 == c[j].0);
                }
            }
        }
    }
}

/// The scaffolding slot left behind by an entry that did not resolve.
pub open spec fn helper_entity() -> GraphEntity {
    GraphEntity { parent: None, pending: false, site_id: None, kind: EntityKind::Helper }
}

/// Merge the document's frames and models into one entry list by ascending
/// ID.
fn merge_entries(doc: &Workcell) -> (c: Vec<(u32, DocEntry)>)
    requires
        wf_workcell_doc(doc),
    ensures
        c@ == merge_docs(doc.frames@, doc.models@),
{
    let fs = doc.frames.entries();
    let ms = doc.models.entries();
    let nf = fs.len();
    let nm = ms.len();
    let mut c: Vec<(u32, DocEntry)> = Vec::new();
    let mut jf: usize = 0;
    let mut jm: usize = 0;
    proof {
        assert(fs@.skip(0) =~= fs@);
        assert(ms@.skip(0) =~= ms@);
        assert(c@ + merge_docs(fs@, ms@) =~= merge_docs(fs@, ms@));
    }
    while jf < nf || jm < nm
        invariant
            fs@ == doc.frames@,
            ms@ == doc.models@,
            nf == fs@.len(),
            nm == ms@.len(),
            0 <= jf <= nf,
            0 <= jm <= nm,
            merge_docs(fs@, ms@) == c@ + merge_docs(fs@.skip(jf as int), ms@.skip(jm as int)),
        decreases (nf - jf) + (nm - jm),
    {
        let ghost fr = fs@.skip(jf as int);
        let ghost mr = ms@.skip(jm as int);
        let take_frame = if jf < nf && jm < nm {
            fs[jf].0 <= ms[jm].0
        } else {
            jf < nf
        };
        if take_frame {
            proof {
                assert(fr[0] == fs@[jf as int]);
                if mr.len() > 0 {
                    assert(merge_docs(fr, mr) == seq![(fr[0].0, DocEntry::Frame(fr[0].1))]
                        + merge_docs(fr.drop_first(), mr));
                } else {
                    assert(merge_docs(fr, mr) =~= seq![(fr[0].0, DocEntry::Frame(fr[0].1))]
                        + merge_docs(fr.drop_first(), mr)) by {
                        assert(merge_docs(fr, mr) == fr.map_values(
                            |e: (u32, Parented<Frame>)| (e.0, DocEntry::Frame(e.1)),
                        ));
                        assert(merge_docs(fr.drop_first(), mr) == fr.drop_first().map_values(
                            |e: (u32, Parented<Frame>)| (e.0, DocEntry::Frame(e.1)),
                        ));
                    }
                }
                assert(fr.drop_first() =~= fs@.skip(jf as int + 1));
            }
            c.push((fs[jf].0, DocEntry::Frame(fs[jf].1)));
            jf += 1;
        } else {
            proof {
                assert(mr[0] == ms@[jm as int]);
                if fr.len() > 0 {
                    assert(merge_docs(fr, mr) == seq![(mr[0].0, DocEntry::Model(mr[0].1))]
                        + merge_docs(fr, mr.drop_first()));
                } else {
                    assert(merge_docs(fr, mr) =~= seq![(mr[0].0, DocEntry::Model(mr[0].1))]
                        + merge_docs(fr, mr.drop_first())) by {
                        assert(merge_docs(fr, mr) == mr.map_values(
                            |e: (u32, Parented<Model>)| (e.0, DocEntry::Model(e.1)),
                        ));
                        assert(merge_docs(fr, mr.drop_first()) == mr.drop_first().map_values(
                            |e: (u32, Parented<Model>)| (e.0, DocEntry::Model(e.1)),
                        ));
                    }
                }
                assert(mr.drop_first() =~= ms@.skip(jm as int + 1));
            }
            let entry = &ms[jm];
            c.push((entry.0, DocEntry::Model(Parented { parent: entry.1.parent, bundle: entry.1.bundle.duplicate() })));
            jm += 1;
        }
        proof {
            assert(c@ + merge_docs(fs@.skip(jf as int), ms@.skip(jm as int)) =~= merge_docs(
                fs@,
                ms@,
            ));
        }
    }
    proof {
        assert(fs@.skip(nf as int) =~= Seq::<(u32, Parented<Frame>)>::empty());
        assert(ms@.skip(nm as int) =~= Seq::<(u32, Parented<Model>)>::empty());
        assert(merge_docs(fs@.skip(nf as int), ms@.skip(nm as int)) =~= Seq::<(
            u32,
            DocEntry,
        )>::empty());
        assert(c@ =~= merge_docs(fs@, ms@));
    }
    c
}

/// The first position before `j` that carries key `k`.
fn find_before(c: &Vec<(u32, DocEntry)>, j: usize, k: u32) -> (r: Option<usize>)
    requires
        j <= c@.len(),
    ensures
        match r {
            Some(i) => 0 <= i < j && c@[i as int].0 == k,
            None => !key_before(c@, j as int, k),
        },
{
    let mut i: usize = 0;
    while i < j
        invariant
            j <= c@.len(),
            0 <= i <= j,
            forall|x: int| 0 <= x < i ==> (#[trigger] c@[x]).0 != k,
        decreases j - i,
    {
        if c[i].0 == k {
            return Some(i);
        }
        i += 1;
    }
    None
}

/// Spawn a fresh live graph from a workcell document.
///
/// The root takes slot 0 and every document entry the following slots in
/// ascending ID order. An entry whose parent ID is not spawned before it, or
/// whose mesh constraint targets an ID no entry carries, is skipped: its
/// slot is left as scaffolding and one failure naming the offending IDs is
/// reported, while every other entry still loads.
pub fn load_workcell(doc: &Workcell) -> (r: (EntityGraph, Vec<WorkcellLoadError>))
    requires
        wf_workcell_doc(doc),
    ensures
        ({
            let c = merge_docs(doc.frames@, doc.models@);
            let cons = doc.mesh_constraints@;
            &&& r.0.wf()
            &&& r.0.entities@.len() == 1 + c.len()
            &&& r.0.entities@[0] == (GraphEntity {
                parent: None,
                pending: false,
                site_id: Some(0u32),
                kind: EntityKind::Root { properties: doc.properties },
            })
            &&& forall|j: int|
                0 <= j < c.len() ==> r.0.entities@[1 + j] == (if entry_resolves(c, cons, j) {
                    spawned_entity(c, cons, j)
                } else {
                    helper_entity()
                })
            &&& r.1@ == collect_failures(c, cons, c.len() as int)
        }),
{
    let c = merge_entries(doc);
    let ghost cs = c@;
    let ghost cons = doc.mesh_constraints@;
    proof {
        lemma_merge_ascending(doc.frames@, doc.models@);
    }
    let n = c.len();
    let mut failures: Vec<WorkcellLoadError> = Vec::new();
    let mut g = EntityGraph { entities: Vec::new() };
    g.entities.push(
        GraphEntity {
            parent: None,
            pending: false,
            site_id: Some(0u32),
            kind: EntityKind::Root { properties: doc.properties.duplicate() },
        },
    );
    let mut j: usize = 0;
    while j < n
        invariant
            cs == c@,
            cons == doc.mesh_constraints@,
            n == cs.len(),
            ascending_keys(cs),
            0 <= j <= n,
            g.entities@.len() == 1 + j,
            g.entities@[0] == (GraphEntity {
                parent: None,
                pending: false,
                site_id: Some(0u32),
                kind: EntityKind::Root { properties: doc.properties },
            }),
            forall|x: int|
                0 <= x < j ==> g.entities@[1 + x] == (if entry_resolves(cs, cons, x) {
                    spawned_entity(cs, cons, x)
                } else {
                    helper_entity()
                }),
            failures@ == collect_failures(cs, cons, j as int),
            forall|x: int|
                0 <= x < g.entities@.len() ==> #[trigger] entity_wf(g.entities@[x], x, 1 + n as int),
        decreases n - j,
    {
        let id = c[j].0;
        // Resolve the parent reference.
        let parent_opt: Option<u32> = match &c[j].1 {
            DocEntry::Frame(p) => p.parent,
            DocEntry::Model(p) => p.parent,
        };
        let mut ok = true;
        let mut parent: usize = 0;
        match parent_opt {
            None => {},
            Some(p) if p == 0 => {
                parent = 0;
            },
            Some(p) => {
                match find_before(&c, j, p) {
                    Some(i) => {
                        parent = 1 + i;
                        proof {
                            let w = choose|x: int| 0 <= x < j && (#[trigger] cs[x]).0 == p;
                            assert(cs[w].0 == p && cs[i as int].0 == p);
                            assert(w == i as int);
                        }
                    },
                    None => {
                        ok = false;
                        failures.push(WorkcellLoadError::MissingParent { entity: id, parent: p });
                    },
                }
            },
        }
        if ok {
            // Resolve the mesh constraint, if the document holds one for
            // this entry.
            let entity: GraphEntity = match &c[j].1 {
                DocEntry::Frame(p) => {
                    let mut constraint: Option<MeshConstraint<usize>> = None;
                    let mut broken = false;
                    match doc.mesh_constraints.get(id) {
                        None => {},
                        Some(mc) => {
                            match find_before(&c, n, mc.entity) {
                                Some(t) => {
                                    proof {
                                        let w = choose|x: int|
                                            0 <= x < cs.len() && (#[trigger] cs[x]).0 == mc.entity;
                                        assert(cs[w].0 == mc.entity && cs[t as int].0 == mc.entity);
                                        assert(w == t as int);
                                    }
                                    constraint = Some(
                                        MeshConstraint {
                                            entity: 1 + t,
                                            element: mc.element.clone(),
                                            relative_pose: mc.relative_pose,
                                        },
                                    );
                                },
                                None => {
                                    broken = true;
                                    failures.push(
                                        WorkcellLoadError::MissingConstraintTarget {
                                            entity: id,
                                            target: mc.entity,
                                        },
                                    );
                                },
                            }
                        },
                    }
                    if broken {
                        GraphEntity {
                            parent: None,
                            pending: false,
                            site_id: None,
                            kind: EntityKind::Helper,
                        }
                    } else {
                        GraphEntity {
                            parent: Some(parent),
                            pending: false,
                            site_id: Some(id),
                            kind: EntityKind::Anchor { anchor: p.bundle.anchor, constraint },
                        }
                    }
                },
                DocEntry::Model(p) => GraphEntity {
                    parent: Some(parent),
                    pending: false,
                    site_id: Some(id),
                    kind: EntityKind::Model { model: p.bundle.duplicate() },
                },
            };
            g.entities.push(entity);
        } else {
            g.entities.push(
                GraphEntity {
                    parent: None,
                    pending: false,
                    site_id: None,
                    kind: EntityKind::Helper,
                },
            );
        }
        j += 1;
    }
    (g, failures)
}


} // verus!
