//! The tab rail's memory: which group each tab is kept in, what follows from
//! where a tab is, and the edits a user makes to the groups.

use vstd::prelude::*;
use vstd::string::*;
use crate::groups;
use crate::groups::{AutoKey, AutoView, GroupKey, GroupView};
use crate::paths;
use crate::paths::FolderPath;
use crate::preferences::TabBarPosition;
use crate::sections;
use crate::text;
use crate::workspace;
use crate::workspace::{EntryWatch, PinnedGroup, WorkspaceGroups};

verus! {

/// What kind of place a pane's shell has gone to.
#[derive(Clone, Copy, Debug, PartialEq, Eq, Structural)]
pub enum RemoteKind {
    Ssh,
    NativeSsh,
    Wsl,
}

/// Where a pane's shell is, when it is not on this machine's own file system.
#[derive(Clone, Debug)]
pub struct RemoteContext {
    pub kind: RemoteKind,
    pub argv: Vec<String>,
    pub target: String,
}

/// The host of a pane that is on one: by its own connection, or by an `ssh`
/// typed into it.
pub open spec fn host_of(remote: Option<RemoteContext>) -> Option<String> {
    match remote {
        Some(r) => if r.kind == RemoteKind::Ssh || r.kind == RemoteKind::NativeSsh {
            Some(r.target)
        } else {
            None
        },
        None => None,
    }
}

/// The host an SSH pane is on, when it is one.
pub fn ssh_host(remote: Option<&RemoteContext>) -> (r: Option<String>)
    ensures
        r == host_of(
            match remote {
                Some(c) => Some(*c),
                None => None,
            },
        ),
{
    match remote {
        Some(c) => match c.kind {
            RemoteKind::Ssh | RemoteKind::NativeSsh => Some(c.target.clone()),
            RemoteKind::Wsl => None,
        },
        None => None,
    }
}

/// What is known about a tab's first pane this frame.
#[derive(Debug)]
pub struct TabProbe {
    /// Whether the pane is a terminal.
    pub terminal: bool,
    pub remote: Option<RemoteContext>,
    /// The directory whose repository is looked up.
    pub cwd: Option<FolderPath>,
    /// Whether that directory is in a repository, and the repository's home,
    /// once the lookup has answered.
    pub known_repo: Option<Option<FolderPath>>,
}

/// A tab, as far as its place in the rail goes.
#[derive(Debug)]
pub struct SidebarTab {
    pub tree_id: u64,
    /// The kept group the tab was put in.
    pub group: Option<u128>,
    /// The group that last followed from where the tab was.
    pub auto_group: Option<AutoKey>,
    pub folder_watch: EntryWatch,
}

/// The tabs of a window and the groups of its workspace.
#[derive(Debug)]
pub struct Sidebar {
    pub tabs: Vec<SidebarTab>,
    pub active: usize,
    pub groups: WorkspaceGroups,
    /// The kept group whose name is being typed.
    pub group_rename: Option<u128>,
}

/// Where a tab dragged over the rail would land.
#[derive(Clone, Copy, Debug, PartialEq, Eq, Structural)]
pub enum Regroup {
    Into(u128),
    ToAuto,
}

/// Whether a tab is in a kept group that is still there.
pub open spec fn is_kept(group: Option<u128>, groups: WorkspaceGroups) -> bool {
    group is Some && workspace::place_of_group(groups.pinned@, group->0) is Some
}

/// Whether enough is known of a tab to tell which kept folder it is in. A
/// pane on another machine never is: a kept folder is on this one.
pub open spec fn can_settle(p: TabProbe) -> bool {
    p.terminal && p.remote is None && p.cwd is Some && p.known_repo is Some
}

/// The kept group whose folder a tab is in.
pub open spec fn inside_of(p: TabProbe, groups: WorkspaceGroups) -> Option<u128> {
    match workspace::deepest(
        groups.pinned@,
        paths::option_view(p.cwd),
        paths::option_view(p.known_repo->0),
    ) {
        Some(i) => Some(groups.pinned@[i].id),
        None => None,
    }
}

/// A tab after its place was looked at: one that walked into a kept folder
/// joins that group, unless it is kept in one already.
pub open spec fn settled_tab(t: SidebarTab, p: TabProbe, groups: WorkspaceGroups) -> SidebarTab {
    if can_settle(p) {
        let inside = inside_of(p, groups);
        let entered = t.folder_watch.entered(inside);
        SidebarTab {
            group: if entered is Some && !is_kept(t.group, groups) {
                entered
            } else {
                t.group
            },
            folder_watch: EntryWatch { at: inside, baseline: false },
            ..t
        }
    } else {
        t
    }
}

/// Whether looking at a tab moves it into a group.
pub open spec fn joins(t: SidebarTab, p: TabProbe, groups: WorkspaceGroups) -> bool {
    can_settle(p) && t.folder_watch.entered(inside_of(p, groups)) is Some && !is_kept(
        t.group,
        groups,
    )
}

/// A tab kept in a group is never moved by where its shell goes.
pub proof fn a_kept_tab_stays(t: SidebarTab, p: TabProbe, groups: WorkspaceGroups)
    requires
        is_kept(t.group, groups),
    ensures
        settled_tab(t, p, groups).group == t.group,
{
}

/// A tab taken out of a folder's group while it is in the folder is not pulled
/// back: once a look has recorded where it is, further looks there leave it,
/// and only leaving and coming back makes it join.
pub proof fn a_tab_taken_out_stays_out(
    t: SidebarTab,
    p: TabProbe,
    away: TabProbe,
    groups: WorkspaceGroups,
)
    requires
        can_settle(p),
        can_settle(away),
        inside_of(p, groups) is Some,
        inside_of(away, groups) is None,
        t.folder_watch == (EntryWatch { at: inside_of(p, groups), baseline: false }),
        t.group is None,
    ensures
        settled_tab(t, p, groups) == t,
        settled_tab(t, away, groups).group is None,
        settled_tab(settled_tab(t, away, groups), p, groups).group == inside_of(p, groups),
{
}

/// A restored tab is not pulled in by where it already is.
pub proof fn a_restored_tab_stays_out(t: SidebarTab, p: TabProbe, groups: WorkspaceGroups)
    requires
        t.folder_watch.baseline,
    ensures
        settled_tab(t, p, groups).group == t.group,
{
}

/// The group that follows from where a tab is, as far as anything is known.
pub open spec fn resolved_auto(p: TabProbe) -> Option<Option<AutoView>> {
    if !p.terminal {
        None
    } else {
        match host_of(p.remote) {
            Some(h) => Some(Some(AutoView::SshHost(h@))),
            None => match p.known_repo {
                Some(repo) => if p.cwd is Some {
                    Some(
                        match repo {
                            Some(root) => Some(AutoView::Repo(root@)),
                            None => None,
                        },
                    )
                } else {
                    None
                },
                None => None,
            },
        }
    }
}

/// The group that follows from where a tab is; while nothing is known, the
/// one that last did.
pub open spec fn auto_of(t: SidebarTab, p: TabProbe) -> Option<AutoView> {
    match resolved_auto(p) {
        Some(k) => k,
        None => groups::auto_view(t.auto_group),
    }
}

/// `k` is the group that follows from where a tab is: a repository as it was
/// found, or the very one that last did while nothing is known.
pub open spec fn is_auto(k: Option<AutoKey>, t: SidebarTab, p: TabProbe) -> bool {
    &&& groups::auto_view(k) == auto_of(t, p)
    &&& match resolved_auto(p) {
        Some(Some(AutoView::Repo(_))) => k == Some(AutoKey::Repo(p.known_repo->0->0)),
        Some(_) => true,
        None => k == t.auto_group,
    }
}

/// The groups the tabs are drawn in.
pub open spec fn keys_of(
    tabs: Seq<SidebarTab>,
    probes: Seq<TabProbe>,
    pinned: Seq<PinnedGroup>,
    auto_grouping: bool,
) -> Seq<Option<GroupView>> {
    Seq::new(
        tabs.len(),
        |i: int|
            workspace::drawn_in(tabs[i].group, pinned, auto_grouping, auto_of(tabs[i], probes[i])),
    )
}

impl SidebarTab {
    pub fn new(tree_id: u64) -> (r: SidebarTab)
        ensures
            r == (SidebarTab {
                tree_id,
                group: None,
                auto_group: None,
                folder_watch: EntryWatch { at: None, baseline: false },
            }),
    {
        SidebarTab { tree_id, group: None, auto_group: None, folder_watch: EntryWatch::new() }
    }

    fn copy(&self) -> (r: SidebarTab)
        ensures
            r == *self,
    {
        SidebarTab {
            tree_id: self.tree_id,
            group: self.group,
            auto_group: groups::copy_auto(&self.auto_group),
            folder_watch: self.folder_watch,
        }
    }

    /// The group that follows from where the tab is, remembered on the tab.
    pub fn tab_auto_group(&mut self, probe: &TabProbe) -> (r: Option<AutoKey>)
        ensures
            is_auto(r, *old(self), *probe),
            final(self).auto_group == r,
            final(self).tree_id == old(self).tree_id,
            final(self).group == old(self).group,
            final(self).folder_watch == old(self).folder_watch,
    {
        let resolved = if probe.terminal {
            let host = match &probe.remote {
                Some(c) => ssh_host(Some(c)),
                None => None,
            };
            let known = if probe.cwd.is_some() {
                match &probe.known_repo {
                    Some(repo) => Some(paths::copy_option(repo)),
                    None => None,
                }
            } else {
                None
            };
            match &host {
                Some(h) => workspace::auto_key(Some(h.as_str()), known),
                None => workspace::auto_key(None, known),
            }
        } else {
            None
        };
        if let Some(key) = resolved {
            self.auto_group = key;
        }
        groups::copy_auto(&self.auto_group)
    }
}

/// Where a tab about to be opened goes.
#[derive(Debug)]
pub struct SpawnPlace {
    pub group: Option<u128>,
    pub auto: Option<Option<AutoKey>>,
}

impl SpawnPlace {
    /// Put a tab there.
    pub fn seat(&self, tab: &mut SidebarTab)
        ensures
            final(tab).tree_id == old(tab).tree_id,
            final(tab).folder_watch == old(tab).folder_watch,
            final(tab).group == match self.group {
                Some(id) => Some(id),
                None => old(tab).group,
            },
            final(tab).auto_group == match self.auto {
                Some(k) => k,
                None => old(tab).auto_group,
            },
    {
        if let Some(id) = self.group {
            tab.group = Some(id);
        }
        if let Some(auto) = &self.auto {
            tab.auto_group = groups::copy_auto(auto);
        }
    }
}

impl Sidebar {
    pub open spec fn wf(&self) -> bool {
        self.groups.wf()
    }

    /// The tabs without a change.
    pub open spec fn same_tabs(&self, other: Sidebar) -> bool {
        self.tabs@ == other.tabs@ && self.active == other.active
    }

    /// Look at where each tab is, and let those that walked into a kept folder
    /// join its group. Returns whether any did.
    pub fn settle_sidebar_groups(&mut self, probes: &Vec<TabProbe>) -> (r: bool)
        requires
            probes@.len() == old(self).tabs@.len(),
        ensures
            final(self).groups == old(self).groups,
            final(self).active == old(self).active,
            final(self).group_rename == old(self).group_rename,
            final(self).tabs@.len() == old(self).tabs@.len(),
            forall|i: int|
                0 <= i < old(self).tabs@.len() ==> #[trigger] final(self).tabs@[i] == settled_tab(
                    old(self).tabs@[i],
                    probes@[i],
                    old(self).groups,
                ),
            r == exists|i: int|
                0 <= i < old(self).tabs@.len() && joins(
                    #[trigger] old(self).tabs@[i],
                    probes@[i],
                    old(self).groups,
                ),
    {
        let mut joined: bool = false;
        let mut i: usize = 0;
        let ghost g = self.groups;
        let ghost t0 = self.tabs@;
        while i < self.tabs.len()
            invariant
                i <= self.tabs@.len() == t0.len() == probes@.len(),
                self.groups == g,
                t0 == old(self).tabs@,
                g == old(self).groups,
                self.active == old(self).active,
                self.group_rename == old(self).group_rename,
                forall|k: int|
                    0 <= k < i ==> #[trigger] self.tabs@[k] == settled_tab(t0[k], probes@[k], g),
                forall|k: int| i <= k < t0.len() ==> #[trigger] self.tabs@[k] == t0[k],
                joined == exists|k: int| 0 <= k < i && joins(#[trigger] t0[k], probes@[k], g),
            decreases t0.len() - i,
        {
            let p = &probes[i];
            let ghost before = joined;
            let mut tab = self.tabs[i].copy();
            if p.terminal && p.remote.is_none() {
                if let Some(cwd) = &p.cwd {
                    if let Some(home) = &p.known_repo {
                        let inside = match home {
                            Some(h) => self.groups.folder_for(Some(cwd), Some(h)),
                            None => self.groups.folder_for(Some(cwd), None),
                        };
                        assert(inside == inside_of(*p, g));
                        let entered = tab.folder_watch.observe(inside);
                        let kept = match tab.group {
                            Some(id) => self.groups.contains(id),
                            None => false,
                        };
                        if entered.is_some() && !kept {
                            tab.group = entered;
                            joined = true;
                            assert(joins(t0[i as int], probes@[i as int], g));
                        }
                    }
                }
            }
            assert(tab == settled_tab(t0[i as int], probes@[i as int], g));
            self.tabs.set(i, tab);
            i = i + 1;
            proof {
                if joins(t0[i - 1], probes@[i - 1], g) {
                    assert(joined);
                } else {
                    assert(joined == before);
                }
            }
        }
        joined
    }

    /// The groups the tabs are drawn in. With worked-out groups switched off
    /// the tabs still remember theirs.
    pub fn sidebar_group_keys(&mut self, probes: &Vec<TabProbe>, auto_grouping: bool) -> (r: Vec<
        Option<GroupKey>,
    >)
        requires
            probes@.len() == old(self).tabs@.len(),
        ensures
            groups::key_views(r@) == keys_of(
                old(self).tabs@,
                probes@,
                old(self).groups.pinned@,
                auto_grouping,
            ),
            old(self).groups.wf() ==> sections::keys_fit(
                groups::key_views(r@),
                old(self).groups.pinned@,
            ),
            final(self).groups == old(self).groups,
            final(self).active == old(self).active,
            final(self).group_rename == old(self).group_rename,
            final(self).tabs@.len() == old(self).tabs@.len(),
            forall|i: int|
                0 <= i < old(self).tabs@.len() ==> {
                    &&& (#[trigger] final(self).tabs@[i]).group == old(self).tabs@[i].group
                    &&& final(self).tabs@[i].tree_id == old(self).tabs@[i].tree_id
                    &&& final(self).tabs@[i].folder_watch == old(self).tabs@[i].folder_watch
                    &&& is_auto(
                        final(self).tabs@[i].auto_group,
                        old(self).tabs@[i],
                        probes@[i],
                    )
                    &&& r@[i] matches Some(GroupKey::Auto(k)) ==> final(self).tabs@[i].auto_group
                        == Some(k)
                },
    {
        let mut out: Vec<Option<GroupKey>> = Vec::new();
        let mut i: usize = 0;
        let ghost g = self.groups;
        let ghost t0 = self.tabs@;
        while i < self.tabs.len()
            invariant
                i <= self.tabs@.len() == t0.len() == probes@.len(),
                self.groups == g,
                t0 == old(self).tabs@,
                g == old(self).groups,
                self.active == old(self).active,
                self.group_rename == old(self).group_rename,
                out@.len() == i,
                forall|k: int|
                    0 <= k < i ==> groups::option_view(#[trigger] out@[k]) == workspace::drawn_in(
                        t0[k].group,
                        g.pinned@,
                        auto_grouping,
                        auto_of(t0[k], probes@[k]),
                    ),
                forall|k: int|
                    0 <= k < i ==> {
                        &&& (#[trigger] self.tabs@[k]).group == t0[k].group
                        &&& self.tabs@[k].tree_id == t0[k].tree_id
                        &&& self.tabs@[k].folder_watch == t0[k].folder_watch
                        &&& is_auto(self.tabs@[k].auto_group, t0[k], probes@[k])
                        &&& out@[k] matches Some(GroupKey::Auto(a)) ==> self.tabs@[k].auto_group
                            == Some(a)
                    },
                forall|k: int| i <= k < t0.len() ==> #[trigger] self.tabs@[k] == t0[k],
            decreases t0.len() - i,
        {
            let mut tab = self.tabs[i].copy();
            let auto = tab.tab_auto_group(&probes[i]);
            out.push(workspace::place(tab.group, &self.groups, auto_grouping, auto));
            self.tabs.set(i, tab);
            i = i + 1;
        }
        assert(groups::key_views(out@) =~= keys_of(t0, probes@, g.pinned@, auto_grouping));
        out
    }

    /// Whether the rail is on screen: it stands at the left, there is a tab to
    /// list, and it was not put away.
    pub fn sidebar_open(&self, position: TabBarPosition, collapsed: bool) -> (r: bool)
        ensures
            r == (position == TabBarPosition::Left && self.tabs@.len() > 0 && !collapsed),
    {
        position == TabBarPosition::Left && self.tabs.len() > 0 && !collapsed
    }

    /// The order the tabs are shown in: top to bottom with the rail at the
    /// left, tab order otherwise.
    pub fn visual_tab_order(&self, keys: &[Option<GroupKey>], rail_at_left: bool) -> (r: Vec<usize>)
        requires
            keys@.len() == self.tabs@.len(),
        ensures
            rail_at_left ==> r@ == sections::visual_order(
                groups::key_views(keys@),
                self.groups.pinned@,
            ),
            !rail_at_left ==> r@ == Seq::new(self.tabs@.len(), |i: int| i as usize),
    {
        if !rail_at_left {
            let mut out: Vec<usize> = Vec::new();
            let mut i: usize = 0;
            while i < self.tabs.len()
                invariant
                    i <= self.tabs@.len(),
                    out@ == Seq::new(i as nat, |k: int| k as usize),
                decreases self.tabs@.len() - i,
            {
                out.push(i);
                i = i + 1;
                assert(out@ =~= Seq::new(i as nat, |k: int| k as usize));
            }
            return out;
        }
        let s = sections::sidebar_sections(keys, &self.groups, "");
        proof {
            reveal_strlit("");
            assert(""@ =~= Seq::<char>::empty());
            sections::lemma_name_moves_nothing(
                groups::key_views(keys@),
                self.groups.pinned@,
                Seq::empty(),
                sections::heads_of(keys@),
                Seq::empty(),
                Seq::empty(),
            );
        }
        sections::flat_tabs(&s)
    }

    /// Make the `n`-th shown tab the active one, if there is one.
    pub fn activate_visual(&mut self, order: &Vec<usize>, n: usize)
        ensures
            final(self).tabs@ == old(self).tabs@,
            final(self).groups == old(self).groups,
            final(self).group_rename == old(self).group_rename,
            final(self).active == if n < order@.len() {
                order@[n as int]
            } else {
                old(self).active
            },
    {
        if n < order.len() {
            self.active = order[n];
        }
    }

    /// The kept group of the active tab, if it is in one.
    pub open spec fn active_group(&self) -> Option<u128> {
        if self.active < self.tabs@.len() && is_kept(
            self.tabs@[self.active as int].group,
            self.groups,
        ) {
            self.tabs@[self.active as int].group
        } else {
            None
        }
    }

    /// Where a tab about to be opened in `cwd` goes: into the group the active
    /// tab is kept in, or else the kept folder that `cwd` is in; and what is
    /// known of its repository comes along.
    pub fn spawn_group(&self, cwd: Option<&FolderPath>, known: Option<Option<FolderPath>>) -> (r:
        SpawnPlace)
        ensures
            r.group == match self.active_group() {
                Some(id) => Some(id),
                None => match cwd {
                    Some(dir) => match workspace::deepest(
                        self.groups.pinned@,
                        Some(dir@),
                        match known {
                            Some(home) => paths::option_view(home),
                            None => None,
                        },
                    ) {
                        Some(i) => Some(self.groups.pinned@[i].id),
                        None => None,
                    },
                    None => None,
                },
            },
            cwd is None ==> r.auto is None,
            cwd is Some ==> match known {
                Some(Some(root)) => r.auto == Some(Some(AutoKey::Repo(root))),
                Some(None) => r.auto == Some(None::<AutoKey>),
                None => r.auto is None,
            },
    {
        let kept = if self.active < self.tabs.len() {
            match self.tabs[self.active].group {
                Some(id) => if self.groups.contains(id) {
                    Some(id)
                } else {
                    None
                },
                None => None,
            }
        } else {
            None
        };
        let entered = match cwd {
            Some(dir) => {
                match &known {
                    Some(Some(h)) => self.groups.folder_for(Some(dir), Some(h)),
                    _ => self.groups.folder_for(Some(dir), None),
                }
            },
            None => None,
        };
        let group = match kept {
            Some(id) => Some(id),
            None => entered,
        };
        let known = match cwd {
            Some(_) => known,
            None => None,
        };
        SpawnPlace { group, auto: workspace::auto_key(None, known) }
    }

    /// Put a tab in a kept group, or hand it back to where it is.
    pub fn set_tab_group(&mut self, index: usize, group: Option<u128>)
        ensures
            final(self).groups == old(self).groups,
            final(self).active == old(self).active,
            final(self).group_rename == old(self).group_rename,
            final(self).tabs@ == if index < old(self).tabs@.len() {
                old(self).tabs@.update(
                    index as int,
                    SidebarTab { group, ..old(self).tabs@[index as int] },
                )
            } else {
                old(self).tabs@
            },
    {
        if index < self.tabs.len() {
            let mut tab = self.tabs[index].copy();
            tab.group = group;
            self.tabs.set(index, tab);
        }
    }

    /// The place of the first tab with this identifier.
    pub fn find_tab(&self, tree_id: u64) -> (r: Option<usize>)
        ensures
            match r {
                Some(i) => i < self.tabs@.len() && self.tabs@[i as int].tree_id == tree_id
                    && forall|k: int| 0 <= k < i ==> (#[trigger] self.tabs@[k]).tree_id != tree_id,
                None => forall|k: int|
                    0 <= k < self.tabs@.len() ==> (#[trigger] self.tabs@[k]).tree_id != tree_id,
            },
    {
        let mut i: usize = 0;
        while i < self.tabs.len()
            invariant
                i <= self.tabs@.len(),
                forall|k: int| 0 <= k < i ==> (#[trigger] self.tabs@[k]).tree_id != tree_id,
            decreases self.tabs@.len() - i,
        {
            if self.tabs[i].tree_id == tree_id {
                return Some(i);
            }
            i = i + 1;
        }
        None
    }

    /// Put a dragged tab where it was dropped. The tab is named by identifier:
    /// places shift while a drag is under way.
    pub fn regroup_tab(&mut self, tree_id: u64, target: Regroup)
        ensures
            final(self).groups == old(self).groups,
            final(self).active == old(self).active,
            final(self).group_rename == old(self).group_rename,
            final(self).tabs@.len() == old(self).tabs@.len(),
            forall|i: int|
                0 <= i < old(self).tabs@.len() ==> #[trigger] final(self).tabs@[i] == if old(
                    self,
                ).tabs@[i].tree_id == tree_id && (forall|k: int|
                    0 <= k < i ==> (#[trigger] old(self).tabs@[k]).tree_id != tree_id) {
                    SidebarTab {
                        group: match target {
                            Regroup::Into(id) => Some(id),
                            Regroup::ToAuto => None,
                        },
                        ..old(self).tabs@[i]
                    }
                } else {
                    old(self).tabs@[i]
                },
    {
        let group = match target {
            Regroup::Into(id) => Some(id),
            Regroup::ToAuto => None,
        };
        if let Some(index) = self.find_tab(tree_id) {
            self.set_tab_group(index, group);
        }
    }

    /// Where a dragged tab would land if let go now: in the kept group under
    /// the pointer, unless it is in that one; below the divider, back to where
    /// it is, if it is kept at all; otherwise nowhere new.
    pub fn sidebar_regroup_target(
        &self,
        dragged: u64,
        over: Option<u128>,
        below_divider: bool,
    ) -> (r: Option<Regroup>)
        ensures
            exists|here: Option<u128>| #[trigger]
                self.kept_at(dragged, here) && r == match over {
                    Some(id) => if here == Some(id) {
                        None
                    } else {
                        Some(Regroup::Into(id))
                    },
                    None => if below_divider && here is Some {
                        Some(Regroup::ToAuto)
                    } else {
                        None
                    },
                },
    {
        let here = match self.find_tab(dragged) {
            Some(i) => match self.tabs[i].group {
                Some(id) => if self.groups.contains(id) {
                    Some(id)
                } else {
                    None
                },
                None => None,
            },
            None => None,
        };
        assert(self.kept_at(dragged, here));
        match over {
            Some(id) => {
                let same = match here {
                    Some(h) => h == id,
                    None => false,
                };
                if same {
                    None
                } else {
                    Some(Regroup::Into(id))
                }
            },
            None => if below_divider && here.is_some() {
                Some(Regroup::ToAuto)
            } else {
                None
            },
        }
    }

    /// `here` is the kept group of the first tab with this identifier.
    pub open spec fn kept_at(&self, tree_id: u64, here: Option<u128>) -> bool {
        ||| (here is None && forall|k: int|
            0 <= k < self.tabs@.len() ==> (#[trigger] self.tabs@[k]).tree_id != tree_id)
        ||| (exists|i: int|
            0 <= i < self.tabs@.len() && (#[trigger] self.tabs@[i]).tree_id == tree_id && (forall|
                k: int,
            |
                0 <= k < i ==> (#[trigger] self.tabs@[k]).tree_id != tree_id) && here == if is_kept(
                self.tabs@[i].group,
                self.groups,
            ) {
                self.tabs@[i].group
            } else {
                None
            })
    }

    /// The kept groups in order, each with what its header reads.
    pub fn pinned_group_names(&self) -> (r: Vec<(u128, String)>)
        ensures
            r@.len() == self.groups.pinned@.len(),
            forall|i: int|
                0 <= i < r@.len() ==> (#[trigger] r@[i]).0 == self.groups.pinned@[i].id
                    && r@[i].1@ == workspace::pinned_names_of(self.groups.pinned@)[i],
    {
        let names = workspace::pinned_names(&self.groups.pinned);
        assert(text::views(names@).len() == names@.len());
        let mut out: Vec<(u128, String)> = Vec::new();
        let mut i: usize = 0;
        while i < self.groups.pinned.len()
            invariant
                i <= self.groups.pinned@.len() == names@.len(),
                text::views(names@) == workspace::pinned_names_of(self.groups.pinned@),
                out@.len() == i,
                forall|k: int|
                    0 <= k < i ==> (#[trigger] out@[k]).0 == self.groups.pinned@[k].id
                        && out@[k].1@ == workspace::pinned_names_of(self.groups.pinned@)[k],
            decreases self.groups.pinned@.len() - i,
        {
            let name = names[i].clone();
            assert(text::views(names@)[i as int] == name@);
            out.push((self.groups.pinned[i].id, name));
            i = i + 1;
        }
        out
    }
}

/// A pane is grouped by its host exactly when it is on one through SSH, typed
/// or not; a subsystem of this machine is no host.
pub proof fn a_host_is_one_reached_through_ssh(remote: Option<RemoteContext>)
    ensures
        host_of(remote) is Some <==> remote is Some && (remote->0.kind is Ssh || remote->0.kind
            is NativeSsh),
        host_of(remote) is Some ==> host_of(remote)->0@ == remote->0.target@,
{
}

/// A tab on a host follows the host, whatever directory it is in there; a tab
/// on this machine follows the repository it is in, and none where it is in
/// none. While it is not known which, it stays where it last was.
pub proof fn a_tab_follows_its_host_and_then_its_repository(t: SidebarTab, p: TabProbe)
    ensures
        p.terminal && host_of(p.remote) is Some ==> auto_of(t, p) == Some(
            AutoView::SshHost(host_of(p.remote)->0@),
        ),
        p.terminal && host_of(p.remote) is None && p.cwd is Some && p.known_repo is Some
            && p.known_repo->0 is Some ==> auto_of(t, p) == Some(
            AutoView::Repo(p.known_repo->0->0@),
        ),
        p.terminal && host_of(p.remote) is None && p.cwd is Some && p.known_repo is Some
            && p.known_repo->0 is None ==> auto_of(t, p) is None,
        !p.terminal || (host_of(p.remote) is None && (p.cwd is None || p.known_repo is None))
            ==> auto_of(t, p) == groups::auto_view(t.auto_group),
{
}

/// A tab joins the deepest kept folder it walks into, and only then: a tab on
/// another machine never does, and neither does one of which it is not known
/// where it is.
pub proof fn a_tab_joins_the_folder_it_walks_into(
    t: SidebarTab,
    p: TabProbe,
    groups: WorkspaceGroups,
)
    ensures
        p.remote is Some ==> settled_tab(t, p, groups) == t,
        !p.terminal || p.cwd is None || p.known_repo is None ==> settled_tab(t, p, groups) == t,
        joins(t, p, groups) ==> inside_of(p, groups) is Some && settled_tab(t, p, groups).group
            == inside_of(p, groups),
        !joins(t, p, groups) ==> settled_tab(t, p, groups).group == t.group,
        settled_tab(t, p, groups).tree_id == t.tree_id && settled_tab(t, p, groups).auto_group
            == t.auto_group,
        p.terminal && p.remote is None && p.cwd is Some && p.known_repo is Some ==> settled_tab(
            t,
            p,
            groups,
        ).folder_watch.at == inside_of(p, groups) && !settled_tab(
            t,
            p,
            groups,
        ).folder_watch.baseline,
        p.terminal && p.remote is None && p.cwd is Some && p.known_repo is Some
            && !t.folder_watch.baseline && t.folder_watch.at is None && inside_of(p, groups) is Some
            && t.group is None ==> joins(t, p, groups),
{
}

/// The group a tab is inside of is one whose folder holds its directory or its
/// repository, and none such is deeper.
pub proof fn a_tab_is_inside_the_deepest_folder(p: TabProbe, groups: WorkspaceGroups, k: int)
    requires
        p.known_repo is Some,
        0 <= k < groups.pinned@.len(),
        groups.pinned@[k].holds(paths::option_view(p.cwd), paths::option_view(p.known_repo->0)),
    ensures
        inside_of(p, groups) is Some,
        exists|i: int|
            0 <= i < groups.pinned@.len() && inside_of(p, groups) == Some(
                (#[trigger] groups.pinned@[i]).id,
            ) && groups.pinned@[i].folder_depth() >= groups.pinned@[k].folder_depth()
                && groups.pinned@[i].holds(
                paths::option_view(p.cwd),
                paths::option_view(p.known_repo->0),
            ),
{
    workspace::the_deepest_folder_wins(
        groups.pinned@,
        paths::option_view(p.cwd),
        paths::option_view(p.known_repo->0),
    );
}

/// Each tab is drawn in the group it is kept in, or else in the one that
/// follows from where it is.
pub proof fn each_tab_is_drawn_where_it_belongs(
    tabs: Seq<SidebarTab>,
    probes: Seq<TabProbe>,
    pinned: Seq<PinnedGroup>,
    auto_grouping: bool,
    i: int,
)
    requires
        0 <= i < tabs.len(),
    ensures
        keys_of(tabs, probes, pinned, auto_grouping).len() == tabs.len(),
        tabs[i].group is Some && (exists|k: int|
            0 <= k < pinned.len() && (#[trigger] pinned[k]).id == tabs[i].group->0) ==> keys_of(
            tabs,
            probes,
            pinned,
            auto_grouping,
        )[i] == Some(GroupView::Pinned(tabs[i].group->0)),
        tabs[i].group is None && auto_grouping && auto_of(tabs[i], probes[i]) is Some ==> keys_of(
            tabs,
            probes,
            pinned,
            auto_grouping,
        )[i] == Some(GroupView::Auto(auto_of(tabs[i], probes[i])->0)),
        tabs[i].group is None && (!auto_grouping || auto_of(tabs[i], probes[i]) is None) ==> keys_of(
            tabs,
            probes,
            pinned,
            auto_grouping,
        )[i] is None,
{
    workspace::a_kept_group_goes_before_a_worked_out_one(
        tabs[i].group,
        pinned,
        auto_grouping,
        auto_of(tabs[i], probes[i]),
    );
}

/// A new tab joins the group that the active tab is kept in, as long as that
/// group is there.
pub proof fn the_active_group_is_the_active_tabs_own(bar: Sidebar)
    ensures
        bar.active < bar.tabs@.len() && bar.tabs@[bar.active as int].group is Some && (exists|k: int|
            0 <= k < bar.groups.pinned@.len() && (#[trigger] bar.groups.pinned@[k]).id
                == bar.tabs@[bar.active as int].group->0) ==> bar.active_group()
            == bar.tabs@[bar.active as int].group,
        bar.active >= bar.tabs@.len() ==> bar.active_group() is None,
        bar.active < bar.tabs@.len() && (forall|k: int|
            0 <= k < bar.groups.pinned@.len() ==> Some((#[trigger] bar.groups.pinned@[k]).id)
                != bar.tabs@[bar.active as int].group) ==> bar.active_group() is None,
{
    if bar.active < bar.tabs@.len() && bar.tabs@[bar.active as int].group is Some {
        workspace::lemma_place_of_group(
            bar.groups.pinned@,
            bar.tabs@[bar.active as int].group->0,
        );
    }
}

/// A dragged tab is in the kept group that the first tab of its identifier is
/// in, and in no other.
pub proof fn a_dragged_tab_is_in_one_group(
    bar: Sidebar,
    tree_id: u64,
    here: Option<u128>,
    i: int,
)
    requires
        bar.kept_at(tree_id, here),
        0 <= i < bar.tabs@.len(),
        bar.tabs@[i].tree_id == tree_id,
        forall|k: int| 0 <= k < i ==> (#[trigger] bar.tabs@[k]).tree_id != tree_id,
    ensures
        here is Some ==> here == bar.tabs@[i].group,
        here is None <==> !is_kept(bar.tabs@[i].group, bar.groups),
{
    let j = choose|j: int|
        0 <= j < bar.tabs@.len() && (#[trigger] bar.tabs@[j]).tree_id == tree_id && (forall|k: int|
            0 <= k < j ==> (#[trigger] bar.tabs@[k]).tree_id != tree_id) && here == if is_kept(
            bar.tabs@[j].group,
            bar.groups,
        ) {
            bar.tabs@[j].group
        } else {
            None
        };
    assert(bar.tabs@[i].tree_id == tree_id);
    assert(j == i) by {
        if j < i {
            assert(bar.tabs@[j].tree_id != tree_id);
        }
        if i < j {
            assert(bar.tabs@[i].tree_id != tree_id);
        }
    }
}

/// A tab is kept in a group exactly where that group is still there.
pub proof fn a_group_that_is_gone_keeps_no_tab(group: Option<u128>, groups: WorkspaceGroups)
    ensures
        is_kept(group, groups) <==> group is Some && exists|k: int|
            0 <= k < groups.pinned@.len() && (#[trigger] groups.pinned@[k]).id == group->0,
{
    if group is Some {
        workspace::lemma_place_of_group(groups.pinned@, group->0);
    }
}

} // verus!
