//! Loading a site document: resolving its doors against its own anchors.
//!
//! Every door names two anchors by ID. On load each reference is looked up
//! in the document's anchor maps; a door whose reference misses is skipped
//! with a failure naming the level, the door and the offending anchor,
//! while every other door still resolves — one bad reference never aborts
//! the whole load.

use vstd::prelude::*;

use crate::ids::get_of;
use crate::sdf::{anchor_of, door_refs_ok, level_doors_ok};
use crate::site::{Anchor, Door, Level, Site};

verus! {

/// A door ready to spawn: its level and door IDs and its two resolved
/// anchor positions.
#[derive(Clone, Copy, Debug, PartialEq, Eq, Structural)]
pub struct ResolvedDoor {
    pub level: u32,
    pub door: u32,
    pub left: Anchor,
    pub right: Anchor,
}

/// A door that could not be resolved: its level and door IDs and the
/// anchor ID that missed.
#[derive(Clone, Copy, Debug, PartialEq, Eq, Structural)]
pub struct SiteLoadFailure {
    pub level: u32,
    pub door: u32,
    pub anchor: u32,
}

/// The doors of one level that resolve, in document order.
pub open spec fn level_resolved(s: &Site, lid: u32, doors: Seq<(u32, Door)>) -> Seq<ResolvedDoor>
    decreases doors.len(),
{
    if doors.len() == 0 {
        Seq::empty()
    } else {
        (if door_refs_ok(s, doors[0].1) {
            seq![
                ResolvedDoor {
                    level: lid,
                    door: doors[0].0,
                    left: anchor_of(s, doors[0].1.anchors.left)->0,
                    right: anchor_of(s, doors[0].1.anchors.right)->0,
                },
            ]
        } else {
            Seq::empty()
        }) + level_resolved(s, lid, doors.drop_first())
    }
}

/// The failures of one level's doors, in document order; a missing left
/// anchor is reported ahead of a missing right one.
pub open spec fn level_failures(s: &Site, lid: u32, doors: Seq<(u32, Door)>) -> Seq<
    SiteLoadFailure,
>
    decreases doors.len(),
{
    if doors.len() == 0 {
        Seq::empty()
    } else {
        (if door_refs_ok(s, doors[0].1) {
            Seq::empty()
        } else {
            seq![
                SiteLoadFailure {
                    level: lid,
                    door: doors[0].0,
                    anchor: if anchor_of(s, doors[0].1.anchors.left) is None {
                        doors[0].1.anchors.left
                    } else {
                        doors[0].1.anchors.right
                    },
                },
            ]
        }) + level_failures(s, lid, doors.drop_first())
    }
}

/// All resolved doors of the document, level by level.
pub open spec fn site_resolved(s: &Site, levels: Seq<(u32, Level)>) -> Seq<ResolvedDoor>
    decreases levels.len(),
{
    if levels.len() == 0 {
        Seq::empty()
    } else {
        level_resolved(s, levels[0].0, levels[0].1.doors@) + site_resolved(
            s,
            levels.drop_first(),
        )
    }
}

/// All load failures of the document, level by level.
pub open spec fn site_failures(s: &Site, levels: Seq<(u32, Level)>) -> Seq<SiteLoadFailure>
    decreases levels.len(),
{
    if levels.len() == 0 {
        Seq::empty()
    } else {
        level_failures(s, levels[0].0, levels[0].1.doors@) + site_failures(
            s,
            levels.drop_first(),
        )
    }
}

/// Resolve every door of the document against the document's own anchors.
///
/// Returns the doors that resolve, each with its anchor positions, and one
/// failure per door that does not, naming the level, the door and the
/// anchor that missed. A broken door is skipped; the load goes on.
pub fn resolve_site_doors(s: &Site) -> (r: (Vec<ResolvedDoor>, Vec<SiteLoadFailure>))
    ensures
        r.0@ == site_resolved(s, s.levels@),
        r.1@ == site_failures(s, s.levels@),
{
    let mut resolved: Vec<ResolvedDoor> = Vec::new();
    let mut failures: Vec<SiteLoadFailure> = Vec::new();
    let lvls = s.levels.entries();
    let nl = lvls.len();
    let mut i: usize = 0;
    proof {
        assert(s.levels@.skip(0) =~= s.levels@);
    }
    while i < nl
        invariant
            lvls@ == s.levels@,
            nl == s.levels@.len(),
            0 <= i <= nl,
            resolved@ + site_resolved(s, s.levels@.skip(i as int)) == site_resolved(
                s,
                s.levels@,
            ),
            failures@ + site_failures(s, s.levels@.skip(i as int)) == site_failures(
                s,
                s.levels@,
            ),
        decreases nl - i,
    {
        let ghost skip_i = s.levels@.skip(i as int);
        proof {
            assert(skip_i[0] == s.levels@[i as int]);
            assert(skip_i.drop_first() =~= s.levels@.skip(i + 1));
        }
        let lid = lvls[i].0;
        let drs = lvls[i].1.doors.entries();
        let nd = drs.len();
        let mut j: usize = 0;
        proof {
            assert(drs@.skip(0) =~= drs@);
        }
        while j < nd
            invariant
                lvls@ == s.levels@,
                nl == s.levels@.len(),
                0 <= i < nl,
                lid == s.levels@[i as int].0,
                drs@ == s.levels@[i as int].1.doors@,
                nd == drs@.len(),
                0 <= j <= nd,
                resolved@ + level_resolved(s, lid, drs@.skip(j as int)) + site_resolved(
                    s,
                    s.levels@.skip(i + 1),
                ) == site_resolved(s, s.levels@),
                failures@ + level_failures(s, lid, drs@.skip(j as int)) + site_failures(
                    s,
                    s.levels@.skip(i + 1),
                ) == site_failures(s, s.levels@),
            decreases nd - j,
        {
            let ghost skip_j = drs@.skip(j as int);
            proof {
                assert(skip_j[0] == drs@[j as int]);
                assert(skip_j.drop_first() =~= drs@.skip(j + 1));
            }
            let d = &drs[j].1;
            let left = s.get_anchor(d.anchors.left);
            let right = s.get_anchor(d.anchors.right);
            match (left, right) {
                (Some(la), Some(ra)) => {
                    resolved.push(
                        ResolvedDoor { level: lid, door: drs[j].0, left: la, right: ra },
                    );
                },
                (None, _) => {
                    failures.push(
                        SiteLoadFailure { level: lid, door: drs[j].0, anchor: d.anchors.left },
                    );
                },
                (Some(_), None) => {
                    failures.push(
                        SiteLoadFailure { level: lid, door: drs[j].0, anchor: d.anchors.right },
                    );
                },
            }
            proof {
                assert(resolved@ + level_resolved(s, lid, drs@.skip(j + 1)) + site_resolved(
                    s,
                    s.levels@.skip(i + 1),
                ) =~= site_resolved(s, s.levels@));
                assert(failures@ + level_failures(s, lid, drs@.skip(j + 1)) + site_failures(
                    s,
                    s.levels@.skip(i + 1),
                ) =~= site_failures(s, s.levels@));
            }
            j += 1;
        }
        proof {
            assert(drs@.skip(nd as int) =~= Seq::<(u32, Door)>::empty());
            assert(resolved@ + site_resolved(s, s.levels@.skip(i + 1)) =~= site_resolved(
                s,
                s.levels@,
            ));
            assert(failures@ + site_failures(s, s.levels@.skip(i + 1)) =~= site_failures(
                s,
                s.levels@,
            ));
        }
        i += 1;
    }
    proof {
        assert(s.levels@.skip(nl as int) =~= Seq::<(u32, Level)>::empty());
        assert(resolved@ =~= site_resolved(s, s.levels@));
        assert(failures@ =~= site_failures(s, s.levels@));
    }
    (resolved, failures)
}

/// All doors of one level resolve: the level reports no failure and every
/// door of it is resolved.
proof fn lemma_level_all_ok(s: &Site, lid: u32, doors: Seq<(u32, Door)>)
    requires
        forall|j: int| 0 <= j < doors.len() ==> door_refs_ok(s, (#[trigger] doors[j]).1),
    ensures
        level_failures(s, lid, doors) =~= Seq::<SiteLoadFailure>::empty(),
        level_resolved(s, lid, doors).len() == doors.len(),
    decreases doors.len(),
{
    if doors.len() > 0 {
        assert(forall|j: int|
            0 <= j < doors.drop_first().len() ==> (#[trigger] doors.drop_first()[j]) == doors[j
                + 1]);
        lemma_level_all_ok(s, lid, doors.drop_first());
    }
}

/// Reference integrity: in a document whose doors all resolve — the
/// reference-integrity invariant of a valid site — loading misses nothing:
/// no failure is reported and every door of every level is resolved.
pub proof fn lemma_reference_integrity(s: &Site)
    requires
        forall|i: int| 0 <= i < s.levels@.len() ==> level_doors_ok(s, (#[trigger] s.levels@[i]).1),
    ensures
        site_failures(s, s.levels@) =~= Seq::<SiteLoadFailure>::empty(),
        site_resolved(s, s.levels@).len() == total_doors(s.levels@),
{
    lemma_site_counts(s, s.levels@, s.levels@.len() as int);
}

/// How many doors the levels hold in all.
pub open spec fn total_doors(levels: Seq<(u32, Level)>) -> int
    decreases levels.len(),
{
    if levels.len() == 0 {
        0
    } else {
        levels[0].1.doors@.len() + total_doors(levels.drop_first())
    }
}

proof fn lemma_site_counts(s: &Site, levels: Seq<(u32, Level)>, n: int)
    requires
        forall|i: int| 0 <= i < levels.len() ==> level_doors_ok(s, (#[trigger] levels[i]).1),
    ensures
        site_failures(s, levels) =~= Seq::<SiteLoadFailure>::empty(),
        site_resolved(s, levels).len() == total_doors(levels),
    decreases levels.len(),
{
    if levels.len() > 0 {
        assert(level_doors_ok(s, levels[0].1));
        lemma_level_all_ok(s, levels[0].0, levels[0].1.doors@);
        assert(forall|i: int|
            0 <= i < levels.drop_first().len() ==> (#[trigger] levels.drop_first()[i]) == levels[i
                + 1]);
        lemma_site_counts(s, levels.drop_first(), n - 1);
    }
}

/// Exactly one door of one level is broken: the whole load reports exactly
/// one failure, naming that level and door, and every other door resolves.
pub proof fn lemma_partial_load_single_failure(s: &Site, li: int, dj: int)
    requires
        0 <= li < s.levels@.len(),
        0 <= dj < s.levels@[li].1.doors@.len(),
        !door_refs_ok(s, s.levels@[li].1.doors@[dj].1),
        forall|x: int, y: int|
            0 <= x < s.levels@.len() && 0 <= y < s.levels@[x].1.doors@.len() && (x != li || y != dj)
                ==> door_refs_ok(s, (#[trigger] s.levels@[x].1.doors@[y]).1),
    ensures
        site_failures(s, s.levels@).len() == 1,
        site_failures(s, s.levels@)[0].level == s.levels@[li].0,
        site_failures(s, s.levels@)[0].door == s.levels@[li].1.doors@[dj].0,
        site_resolved(s, s.levels@).len() == total_doors(s.levels@) - 1,
{
    lemma_site_one_broken(s, s.levels@, li, dj);
}

proof fn lemma_level_one_broken(s: &Site, lid: u32, doors: Seq<(u32, Door)>, dj: int)
    requires
        0 <= dj < doors.len(),
        !door_refs_ok(s, doors[dj].1),
        forall|y: int|
            0 <= y < doors.len() && y != dj ==> door_refs_ok(s, (#[trigger] doors[y]).1),
    ensures
        level_failures(s, lid, doors).len() == 1,
        level_failures(s, lid, doors)[0].level == lid,
        level_failures(s, lid, doors)[0].door == doors[dj].0,
        level_resolved(s, lid, doors).len() == doors.len() - 1,
    decreases doors.len(),
{
    assert(forall|y: int|
        0 <= y < doors.drop_first().len() ==> (#[trigger] doors.drop_first()[y]) == doors[y + 1]);
    if dj == 0 {
        lemma_level_all_ok(s, lid, doors.drop_first());
    } else {
        lemma_level_one_broken(s, lid, doors.drop_first(), dj - 1);
    }
}

proof fn lemma_site_one_broken(s: &Site, levels: Seq<(u32, Level)>, li: int, dj: int)
    requires
        0 <= li < levels.len(),
        0 <= dj < levels[li].1.doors@.len(),
        !door_refs_ok(s, levels[li].1.doors@[dj].1),
        forall|x: int, y: int|
            0 <= x < levels.len() && 0 <= y < levels[x].1.doors@.len() && (x != li || y != dj) ==>
                door_refs_ok(s, (#[trigger] levels[x].1.doors@[y]).1),
    ensures
        site_failures(s, levels).len() == 1,
        site_failures(s, levels)[0].level == levels[li].0,
        site_failures(s, levels)[0].door == levels[li].1.doors@[dj].0,
        site_resolved(s, levels).len() == total_doors(levels) - 1,
    decreases levels.len(),
{
    assert(forall|x: int|
        0 <= x < levels.drop_first().len() ==> (#[trigger] levels.drop_first()[x]) == levels[x
            + 1]);
    if li == 0 {
        lemma_level_one_broken(s, levels[0].0, levels[0].1.doors@, dj);
        assert(forall|i: int|
            0 <= i < levels.drop_first().len() ==> level_doors_ok(
                s,
                (#[trigger] levels.drop_first()[i]).1,
            ));
        lemma_site_counts(s, levels.drop_first(), 0);
    } else {
        assert(level_doors_ok(s, levels[0].1)) by {
            assert(forall|y: int|
                0 <= y < levels[0].1.doors@.len() ==> door_refs_ok(
                    s,
                    (#[trigger] levels[0].1.doors@[y]).1,
                ));
        }
        lemma_level_all_ok(s, levels[0].0, levels[0].1.doors@);
        lemma_site_one_broken(s, levels.drop_first(), li - 1, dj);
    }
}

} // verus!
