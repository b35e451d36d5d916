//! The focus-change handler: which site and level the editor currently
//! shows.
//!
//! The live scene keeps a handful of focus values — the current workspace
//! root, the current level, and for each site the level last selected in it.
//! A change-site command is validated against the scene (the target must be
//! an open site, a requested level must belong to it) and then decided here:
//! the new focus values, plus the visibility changes and any level creation
//! the application shell must perform. A rejected command changes nothing.

use vstd::prelude::*;

verus! {

/// A command that a new site should become the current one.
#[derive(Clone, Copy, Debug, PartialEq, Eq, Structural)]
pub struct ChangeCurrentSite {
    /// What the current site should be.
    pub site: usize,
    /// What its current level should be, if the caller has one in mind.
    pub level: Option<usize>,
}

/// The current workspace focus: the root shown, and whether it is displayed.
#[derive(Clone, Copy, Debug, PartialEq, Eq, Structural)]
pub struct CurrentWorkspace {
    pub root: Option<usize>,
    pub display: bool,
}

/// The level currently shown.
#[derive(Clone, Copy, Debug, PartialEq, Eq, Structural)]
pub struct CurrentLevel(pub Option<usize>);

/// For each site, the level most recently selected in it.
pub struct CachedLevels {
    entries: Vec<(usize, usize)>,
}

/// The next persisted ID a site will assign when saving.
#[derive(Clone, Copy, Debug, PartialEq, Eq, Structural)]
pub struct NextSiteID(pub u32);

/// What the scene knows that the decision needs: which entities are open
/// sites, and which entities are levels of which site.
pub struct SiteIndex {
    pub open_sites: Vec<usize>,
    /// Level entity and the site it belongs to.
    pub levels: Vec<(usize, usize)>,
}

/// An effect the application shell must apply to the scene.
#[derive(Clone, Copy, Debug, PartialEq, Eq, Structural)]
pub enum FocusAction {
    SetVisibility { entity: usize, visible: bool },
    /// Spawn a blank level under the site and hand it back through
    /// `adopt_new_level`.
    CreateLevel { site: usize },
}

/// Why a change-site command was refused.
#[derive(Clone, Copy, Debug, PartialEq, Eq, Structural)]
pub enum ChangeSiteRejection {
    /// The requested entity is not an open site.
    NotAnOpenSite,
    /// The requested level is not a level of the requested site.
    LevelNotOfSite,
}

/// The cached level of a site, if one was selected before.
pub open spec fn cache_get(s: Seq<(usize, usize)>, site: usize) -> Option<usize>
    decreases s.len(),
{
    if s.len() == 0 {
        None
    } else if s[0].0 == site {
        Some(s[0].1)
    } else {
        cache_get(s.drop_first(), site)
    }
}

impl CachedLevels {
    pub closed spec fn view(&self) -> Seq<(usize, usize)> {
        self.entries@
    }

    pub fn new() -> (r: Self)
        ensures
            r@ == Seq::<(usize, usize)>::empty(),
    {
        CachedLevels { entries: Vec::new() }
    }

    /// The level last selected in the site, if any.
    pub fn get(&self, site: usize) -> (r: Option<usize>)
        ensures
            r == cache_get(self@, site),
    {
        let mut i: usize = 0;
        proof {
            assert(self@.skip(0) =~= self@);
        }
        while i < self.entries.len()
            invariant
                0 <= i <= self@.len(),
                cache_get(self@, site) == cache_get(self@.skip(i as int), site),
            decreases self@.len() - i,
        {
            proof {
                assert(self@.skip(i as int)[0] == self@[i as int]);
                assert(self@.skip(i as int).drop_first() =~= self@.skip(i + 1));
            }
            if self.entries[i].0 == site {
                return Some(self.entries[i].1);
            }
            i += 1;
        }
        proof {
            assert(self@.skip(self@.len() as int) =~= Seq::<(usize, usize)>::empty());
        }
        None
    }

    /// Remember `level` as the last selected level of `site`.
    pub fn set(&mut self, site: usize, level: usize)
        ensures
            cache_get(final(self)@, site) == Some(level),
            forall|other: usize|
                other != site ==> cache_get(final(self)@, other) == cache_get(old(self)@, other),
    {
        let n = self.entries.len();
        let mut i: usize = 0;
        while i < n
            invariant
                n == self@.len(),
                0 <= i <= n,
                self@ == old(self)@,
                forall|x: int| 0 <= x < i ==> (#[trigger] self@[x]).0 != site,
            decreases n - i,
        {
            if self.entries[i].0 == site {
                let e = &mut self.entries[i];
                e.1 = level;
                proof {
                    lemma_cache_update(old(self)@, self@, site, level, i as int);
                }
                return ;
            }
            i += 1;
        }
        self.entries.push((site, level));
        proof {
            lemma_cache_push(old(self)@, site, level);
        }
    }
}

/// Updating the entry for one site changes only that site's cached level.
proof fn lemma_cache_update(
    a: Seq<(usize, usize)>,
    b: Seq<(usize, usize)>,
    site: usize,
    level: usize,
    i: int,
)
    requires
        0 <= i < a.len(),
        b.len() == a.len(),
        a[i].0 == site,
        b[i] == (site, level),
        forall|x: int| 0 <= x < a.len() && x != i ==> #[trigger] b[x] == a[x],
        forall|x: int| 0 <= x < i ==> (#[trigger] a[x]).0 != site,
    ensures
        cache_get(b, site) == Some(level),
        forall|other: usize| other != site ==> cache_get(b, other) == cache_get(a, other),
    decreases a.len(),
{
    assert forall|other: usize| other != site implies cache_get(b, other) == cache_get(
        a,
        other,
    ) by {
        lemma_cache_same(a, b, other, i);
    }
    lemma_cache_found(b, site, level, i);
}

proof fn lemma_cache_found(b: Seq<(usize, usize)>, site: usize, level: usize, i: int)
    requires
        0 <= i < b.len(),
        b[i] == (site, level),
        forall|x: int| 0 <= x < i ==> (#[trigger] b[x]).0 != site,
    ensures
        cache_get(b, site) == Some(level),
    decreases i,
{
    if i > 0 {
        assert(forall|x: int|
            0 <= x < i - 1 ==> (#[trigger] b.drop_first()[x]) == b[x + 1]);
        lemma_cache_found(b.drop_first(), site, level, i - 1);
    }
}

proof fn lemma_cache_same(a: Seq<(usize, usize)>, b: Seq<(usize, usize)>, other: usize, i: int)
    requires
        b.len() == a.len(),
        0 <= i < a.len(),
        a[i].0 == b[i].0,
        forall|x: int| 0 <= x < a.len() && x != i ==> #[trigger] b[x] == a[x],
        b[i].0 != other,
    ensures
        cache_get(b, other) == cache_get(a, other),
    decreases a.len(),
{
    if a.len() > 0 {
        assert(forall|x: int|
            0 <= x < a.len() - 1 && x != i - 1 ==> (#[trigger] b.drop_first()[x])
                == a.drop_first()[x]);
        if a[0].0 != other {
            if i == 0 {
                assert(forall|x: int|
                    0 <= x < a.len() - 1 ==> (#[trigger] b.drop_first()[x]) == a.drop_first()[x]);
                lemma_cache_eq(a.drop_first(), b.drop_first(), other);
            } else {
                lemma_cache_same(a.drop_first(), b.drop_first(), other, i - 1);
            }
        }
    }
}

proof fn lemma_cache_eq(a: Seq<(usize, usize)>, b: Seq<(usize, usize)>, other: usize)
    requires
        b.len() == a.len(),
        forall|x: int| 0 <= x < a.len() ==> #[trigger] b[x] == a[x],
    ensures
        cache_get(b, other) == cache_get(a, other),
{
    assert(a =~= b);
}

/// Appending a fresh entry adds that site's cached level and no other.
proof fn lemma_cache_push(a: Seq<(usize, usize)>, site: usize, level: usize)
    requires
        forall|x: int| 0 <= x < a.len() ==> (#[trigger] a[x]).0 != site,
    ensures
        cache_get(a.push((site, level)), site) == Some(level),
        forall|other: usize|
            other != site ==> cache_get(a.push((site, level)), other) == cache_get(a, other),
    decreases a.len(),
{
    let b = a.push((site, level));
    if a.len() == 0 {
        assert(b[0] == (site, level));
        assert forall|other: usize| other != site implies cache_get(b, other) == cache_get(
            a,
            other,
        ) by {
            assert(b.len() == 1);
            assert(b[0].0 == site);
            assert(b.drop_first() =~= Seq::<(usize, usize)>::empty());
            assert(cache_get(b.drop_first(), other) is None);
            assert(cache_get(b, other) is None);
            assert(cache_get(a, other) is None);
        }
    } else {
        assert(b[0] == a[0]);
        assert(a[0].0 != site);
        assert(b.drop_first() =~= a.drop_first().push((site, level)));
        assert(forall|x: int|
            0 <= x < a.drop_first().len() ==> (#[trigger] a.drop_first()[x]) == a[x + 1]);
        lemma_cache_push(a.drop_first(), site, level);
        assert(cache_get(b.drop_first(), site) == cache_get(
            a.drop_first().push((site, level)),
            site,
        ));
        assert forall|other: usize| other != site implies cache_get(b, other) == cache_get(
            a,
            other,
        ) by {
            if a[0].0 == other {
                assert(cache_get(a, other) == Some(a[0].1));
                assert(cache_get(b, other) == Some(b[0].1));
            } else {
                assert(cache_get(a, other) == cache_get(a.drop_first(), other));
                assert(cache_get(b, other) == cache_get(b.drop_first(), other));
                assert(cache_get(a.drop_first().push((site, level)), other) == cache_get(
                    a.drop_first(),
                    other,
                ));
            }
        }
    }
}

/// Whether an entity is listed as an open site.
pub open spec fn is_open_site(index: &SiteIndex, e: usize) -> bool {
    exists|i: int| 0 <= i < index.open_sites@.len() && #[trigger] index.open_sites@[i] == e
}

/// Whether an entity is listed as a level of the given site.
pub open spec fn is_level_of(index: &SiteIndex, level: usize, site: usize) -> bool {
    exists|i: int| 0 <= i < index.levels@.len() && #[trigger] index.levels@[i] == (level, site)
}

fn contains_site(index: &SiteIndex, e: usize) -> (r: bool)
    ensures
        r == is_open_site(index, e),
{
    let n = index.open_sites.len();
    let mut i: usize = 0;
    while i < n
        invariant
            n == index.open_sites@.len(),
            0 <= i <= n,
            forall|x: int| 0 <= x < i ==> #[trigger] index.open_sites@[x] != e,
        decreases n - i,
    {
        if index.open_sites[i] == e {
            return true;
        }
        i += 1;
    }
    false
}

fn contains_level(index: &SiteIndex, level: usize, site: usize) -> (r: bool)
    ensures
        r == is_level_of(index, level, site),
{
    let n = index.levels.len();
    let mut i: usize = 0;
    while i < n
        invariant
            n == index.levels@.len(),
            0 <= i <= n,
            forall|x: int| 0 <= x < i ==> #[trigger] index.levels@[x] != (level, site),
        decreases n - i,
    {
        if index.levels[i].0 == level && index.levels[i].1 == site {
            return true;
        }
        i += 1;
    }
    false
}

/// The levels of one site, in scene order.
pub open spec fn levels_of_entries(entries: Seq<(usize, usize)>, site: usize) -> Seq<usize>
    decreases entries.len(),
{
    if entries.len() == 0 {
        Seq::empty()
    } else {
        (if entries[0].1 == site {
            seq![entries[0].0]
        } else {
            Seq::empty()
        }) + levels_of_entries(entries.drop_first(), site)
    }
}

/// The levels of one site, in scene order.
pub open spec fn levels_of(index: &SiteIndex, site: usize) -> Seq<usize> {
    levels_of_entries(index.levels@, site)
}

/// Decide a change-site command.
///
/// A command naming an entity that is not an open site, or a level that is
/// not a level of that site, is rejected and nothing changes. Otherwise the
/// workspace root moves to the site (hiding the previous root, showing the
/// new one, when it actually changes), and the current level becomes: the
/// requested level; else the site's cached level; else the last of the
/// site's own levels, each of which is made visible; else a freshly created
/// level, which the shell must spawn and hand back through
/// `adopt_new_level`. The returned actions are what the shell must apply,
/// in order.
pub fn change_site(
    cmd: ChangeCurrentSite,
    index: &SiteIndex,
    workspace: &mut CurrentWorkspace,
    current_level: &mut CurrentLevel,
    cached_levels: &mut CachedLevels,
) -> (r: Result<Vec<FocusAction>, ChangeSiteRejection>)
    ensures
        match r {
            Err(reason) => {
                &&& *final(workspace) == *old(workspace)
                &&& *final(current_level) == *old(current_level)
                &&& final(cached_levels)@ == old(cached_levels)@
                &&& (reason == ChangeSiteRejection::NotAnOpenSite <==> !is_open_site(
                    index,
                    cmd.site,
                ))
                &&& reason == ChangeSiteRejection::LevelNotOfSite ==> is_open_site(index, cmd.site)
                    && (match cmd.level {
                    Some(l) => !is_level_of(index, l, cmd.site),
                    None => false,
                })
            },
            Ok(actions) => {
                &&& is_open_site(index, cmd.site)
                &&& (match cmd.level {
                    Some(l) => is_level_of(index, l, cmd.site),
                    None => true,
                })
                &&& final(workspace).root == Some(cmd.site)
                &&& (old(workspace).root == Some(cmd.site) ==> *final(workspace) == *old(workspace))
                &&& (old(workspace).root != Some(cmd.site) ==> final(workspace).display == true)
                &&& (match cmd.level {
                    Some(l) => {
                        &&& final(current_level).0 == Some(l)
                        &&& cache_get(final(cached_levels)@, cmd.site) == Some(l)
                        &&& forall|other: usize|
                            other != cmd.site ==> cache_get(final(cached_levels)@, other)
                                == cache_get(old(cached_levels)@, other)
                    },
                    None => match cache_get(old(cached_levels)@, cmd.site) {
                        Some(cl) => {
                            &&& final(current_level).0 == Some(cl)
                            &&& final(cached_levels)@ == old(cached_levels)@
                        },
                        None => {
                            let own = levels_of(index, cmd.site);
                            if own.len() > 0 {
                                &&& final(current_level).0 == Some(own[own.len() - 1])
                                &&& cache_get(final(cached_levels)@, cmd.site) == Some(
                                    own[own.len() - 1],
                                )
                                &&& forall|other: usize|
                                    other != cmd.site ==> cache_get(final(cached_levels)@, other)
                                        == cache_get(old(cached_levels)@, other)
                            } else {
                                &&& *final(current_level) == *old(current_level)
                                &&& final(cached_levels)@ == old(cached_levels)@
                                &&& actions@.len() > 0
                                &&& actions@[actions@.len() - 1] == (FocusAction::CreateLevel {
                                    site: cmd.site,
                                })
                            }
                        }
                    },
                })
            },
        },
{
    if !contains_site(index, cmd.site) {
        return Err(ChangeSiteRejection::NotAnOpenSite);
    }
    match cmd.level {
        Some(l) => {
            if !contains_level(index, l, cmd.site) {
                return Err(ChangeSiteRejection::LevelNotOfSite);
            }
        },
        None => {},
    }

    let mut actions: Vec<FocusAction> = Vec::new();
    if workspace.root != Some(cmd.site) {
        match workspace.root {
            Some(prev) => {
                actions.push(FocusAction::SetVisibility { entity: prev, visible: false });
            },
            None => {},
        }
        actions.push(FocusAction::SetVisibility { entity: cmd.site, visible: true });
        workspace.root = Some(cmd.site);
        workspace.display = true;
    }

    match cmd.level {
        Some(new_level) => {
            match current_level.0 {
                Some(prev) => {
                    if prev != new_level {
                        actions.push(
                            FocusAction::SetVisibility { entity: prev, visible: false },
                        );
                    }
                },
                None => {},
            }
            actions.push(FocusAction::SetVisibility { entity: new_level, visible: true });
            cached_levels.set(cmd.site, new_level);
            current_level.0 = Some(new_level);
        },
        None => {
            match cached_levels.get(cmd.site) {
                Some(cl) => {
                    actions.push(FocusAction::SetVisibility { entity: cl, visible: true });
                    current_level.0 = Some(cl);
                },
                None => {
                    // Walk the site's own levels, caching and showing each;
                    // the last one becomes current. With none, ask the
                    // shell to create a blank level.
                    let n = index.levels.len();
                    let ghost own = levels_of(index, cmd.site);
                    let ghost mut seen: Seq<usize> = Seq::empty();
                    let mut found: Option<usize> = None;
                    let mut i: usize = 0;
                    proof {
                        assert(index.levels@.skip(0) =~= index.levels@);
                        assert(seen + levels_of_entries(index.levels@, cmd.site) =~= own);
                    }
                    while i < n
                        invariant
                            n == index.levels@.len(),
                            0 <= i <= n,
                            own == levels_of(index, cmd.site),
                            seen + levels_of_entries(index.levels@.skip(i as int), cmd.site)
                                == own,
                            match found {
                                Some(l) => seen.len() > 0 && seen[seen.len() - 1] == l,
                                None => seen.len() == 0,
                            },
                        decreases n - i,
                    {
                        proof {
                            assert(index.levels@.skip(i as int)[0] == index.levels@[i as int]);
                            assert(index.levels@.skip(i as int).drop_first()
                                =~= index.levels@.skip(i + 1));
                        }
                        if index.levels[i].1 == cmd.site {
                            let lvl = index.levels[i].0;
                            actions.push(
                                FocusAction::SetVisibility { entity: lvl, visible: true },
                            );
                            found = Some(lvl);
                            proof {
                                seen = seen.push(lvl);
                            }
                        }
                        proof {
                            assert(seen + levels_of_entries(
                                index.levels@.skip(i + 1),
                                cmd.site,
                            ) =~= own);
                        }
                        i += 1;
                    }
                    proof {
                        assert(index.levels@.skip(n as int) =~= Seq::<(usize, usize)>::empty());
                        assert(seen =~= own);
                    }
                    match found {
                        Some(last) => {
                            cached_levels.set(cmd.site, last);
                            current_level.0 = Some(last);
                        },
                        None => {
                            actions.push(FocusAction::CreateLevel { site: cmd.site });
                        },
                    }
                },
            }
        },
    }
    Ok(actions)
}

/// Adopt a freshly created blank level as the site's cached and current
/// level, after the shell spawned it in answer to a `CreateLevel` action.
pub fn adopt_new_level(
    site: usize,
    new_level: usize,
    current_level: &mut CurrentLevel,
    cached_levels: &mut CachedLevels,
)
    ensures
        final(current_level).0 == Some(new_level),
        cache_get(final(cached_levels)@, site) == Some(new_level),
        forall|other: usize|
            other != site ==> cache_get(final(cached_levels)@, other) == cache_get(
                old(cached_levels)@,
                other,
            ),
{
    cached_levels.set(site, new_level);
    current_level.0 = Some(new_level);
}

} // verus!
