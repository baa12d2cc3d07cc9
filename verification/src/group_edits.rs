//! The edits a user makes to the groups of the tab rail.

use vstd::prelude::*;
use vstd::string::*;
use crate::groups;
use crate::groups::{AutoKey, GroupKey, GroupView};
use crate::paths;
use crate::paths::FolderPath;
use crate::sidebar;
use crate::sidebar::{Sidebar, SidebarTab};
use crate::text;
use crate::workspace;
use crate::workspace::{PinnedGroup, WorkspaceGroups};

verus! {

/// The `n`-th name a new group is tried under: the name itself, then the name
/// with a number behind it.
pub open spec fn candidate(base: Seq<char>, n: nat) -> Seq<char> {
    if n <= 1 {
        base
    } else {
        base.push(' ') + text::decimal(n)
    }
}

/// The first name that is not taken.
pub open spec fn is_fresh(name: Seq<char>, base: Seq<char>, taken: Seq<Seq<char>>) -> bool {
    exists|n: nat|
        {
            &&& 1 <= n
            &&& name == #[trigger] candidate(base, n)
            &&& !taken.contains(name)
            &&& forall|m: nat| 1 <= m < n ==> taken.contains(#[trigger] candidate(base, m))
        }
}

proof fn lemma_decimal_value(n: nat)
    ensures
        text::numeral_value(text::decimal(n)) == Some(n),
        text::decimal(n).len() > 0,
    decreases n,
{
    if n >= 10 {
        lemma_decimal_value(n / 10);
        assert(text::decimal(n).drop_last() =~= text::decimal(n / 10));
        assert(text::decimal(n).last() == text::digit(n % 10));
    }
}

proof fn lemma_candidates_differ(base: Seq<char>, m: nat, n: nat)
    requires
        1 <= m,
        1 <= n,
        m != n,
    ensures
        candidate(base, m) != candidate(base, n),
{
    lemma_decimal_value(m);
    lemma_decimal_value(n);
    let a = candidate(base, m);
    let b = candidate(base, n);
    let k = base.len() as int + 1;
    if a == b {
        if m >= 2 && n >= 2 {
            assert(a.skip(k) =~= text::decimal(m));
            assert(b.skip(k) =~= text::decimal(n));
        } else if m >= 2 {
            assert(a.len() > base.len());
        } else {
            assert(b.len() > base.len());
        }
    }
}

/// Of one more names than are taken, one is free.
proof fn lemma_one_is_free(base: Seq<char>, taken: Seq<Seq<char>>)
    ensures
        exists|m: nat|
            1 <= m <= taken.len() + 1 && !taken.contains(#[trigger] candidate(base, m)),
{
    if forall|m: nat| 1 <= m <= taken.len() + 1 ==> taken.contains(#[trigger] candidate(base, m)) {
        lemma_too_many_names(base, taken);
    }
}

proof fn lemma_too_many_names(base: Seq<char>, taken: Seq<Seq<char>>)
    requires
        forall|m: nat| 1 <= m <= taken.len() + 1 ==> taken.contains(#[trigger] candidate(base, m)),
    ensures
        taken.len() + 1 <= taken.len(),
{
    let tried = Seq::new(taken.len() + 1, |i: int| candidate(base, (i + 1) as nat));
    assert(tried.no_duplicates()) by {
        assert forall|a: int, b: int|
            0 <= a < tried.len() && 0 <= b < tried.len() && a != b implies tried[a] != tried[b] by {
            lemma_candidates_differ(base, (a + 1) as nat, (b + 1) as nat);
        }
    }
    tried.unique_seq_to_set();
    taken.lemma_cardinality_of_set();
    assert(tried.to_set().subset_of(taken.to_set())) by {
        assert forall|x: Seq<char>| tried.to_set().contains(x) implies taken.to_set().contains(
            x,
        ) by {
            let i = choose|i: int| 0 <= i < tried.len() && tried[i] == x;
            assert(taken.contains(candidate(base, (i + 1) as nat)));
        }
    }
    vstd::set_lib::lemma_len_subset(tried.to_set(), taken.to_set());
}

fn name_taken(taken: &Vec<String>, name: &str) -> (r: bool)
    ensures
        r == text::views(taken@).contains(name@),
{
    let mut i: usize = 0;
    while i < taken.len()
        invariant
            i <= taken@.len(),
            forall|k: int| 0 <= k < i ==> (#[trigger] taken@[k])@ != name@,
        decreases taken@.len() - i,
    {
        if text::same(taken[i].as_str(), name) {
            assert(text::views(taken@)[i as int] == name@);
            return true;
        }
        i = i + 1;
    }
    assert(!text::views(taken@).contains(name@));
    false
}

fn candidate_name(base: &str, n: u128) -> (r: String)
    ensures
        r@ == candidate(base@, n as nat),
{
    let mut out = base.to_owned();
    if n > 1 {
        out.push(' ');
        let d = text::decimal_of(n);
        out.append(d.as_str());
    }
    out
}

/// The tabs with those in group `id` handed back.
pub open spec fn handed_back(tabs: Seq<SidebarTab>, id: u128) -> Seq<SidebarTab> {
    Seq::new(
        tabs.len(),
        |i: int|
            if tabs[i].group == Some(id) {
                SidebarTab { group: None, ..tabs[i] }
            } else {
                tabs[i]
            },
    )
}

/// The kept groups without the one with this identifier.
pub open spec fn without_group(p: Seq<PinnedGroup>, id: u128) -> Seq<PinnedGroup>
    decreases p.len(),
{
    if p.len() == 0 {
        Seq::empty()
    } else if p.last().id == id {
        without_group(p.drop_last(), id)
    } else {
        without_group(p.drop_last(), id).push(p.last())
    }
}

impl Sidebar {
    /// The names on the headers of the kept groups.
    fn header_names(&self) -> (r: Vec<String>)
        ensures
            text::views(r@) == workspace::pinned_names_of(self.groups.pinned@),
            r@.len() == self.groups.pinned@.len(),
    {
        workspace::pinned_names(&self.groups.pinned)
    }

    /// A name no kept group reads, for a group about to be made: `base`, or
    /// `base` with the first number that makes it one.
    pub fn fresh_group_name(&self, base: &str) -> (r: String)
        ensures
            is_fresh(r@, base@, workspace::pinned_names_of(self.groups.pinned@)),
    {
        let taken = self.header_names();
        let ghost tv = text::views(taken@);
        assert(tv.len() == taken@.len());
        let total: u128 = taken.len() as u128;
        let mut n: u128 = 1;
        loop
            invariant
                1 <= n <= total + 1,
                total == taken@.len(),
                total <= usize::MAX,
                tv == text::views(taken@),
                tv == workspace::pinned_names_of(self.groups.pinned@),
                forall|m: nat| 1 <= m < n ==> tv.contains(#[trigger] candidate(base@, m)),
            decreases total + 1 - n,
        {
            let name = candidate_name(base, n);
            if !name_taken(&taken, name.as_str()) {
                assert(name@ == candidate(base@, n as nat));
                return name;
            }
            proof {
                lemma_one_is_free(base@, tv);
                let m = choose|m: nat|
                    1 <= m <= tv.len() + 1 && !tv.contains(#[trigger] candidate(base@, m));
                assert(n != m);
            }
            n = n + 1;
        }
    }
}

/// The groups with `g` kept behind the others.
pub open spec fn keeps_also(before: WorkspaceGroups, after: WorkspaceGroups, g: PinnedGroup) -> bool {
    &&& after.pinned@ == before.pinned@.push(g)
    &&& after.auto_collapsed == before.auto_collapsed
    &&& after.ungrouped_collapsed == before.ungrouped_collapsed
}

/// What the header of the first group with this identifier reads.
pub open spec fn header_of(p: Seq<PinnedGroup>, id: u128) -> Option<Seq<char>> {
    match workspace::place_of_group(p, id) {
        Some(i) => Some(workspace::pinned_names_of(p)[i]),
        None => None,
    }
}

/// A group's name after `typed` was entered for it: a blank name gives a
/// folder's group its folder's name back and leaves any other as it is.
pub open spec fn renamed(g: PinnedGroup, typed: Seq<char>, after: PinnedGroup) -> bool {
    let t = text::trimmed(typed);
    &&& after.id == g.id
    &&& after.folder == g.folder
    &&& after.collapsed == g.collapsed
    &&& if t.len() > 0 {
        after.name is Some && after.name->0@ == t
    } else if g.folder is Some {
        after.name is None
    } else {
        after.name == g.name
    }
}

/// A group after it was pointed at a folder, or at none: one that read its
/// folder's name keeps reading it once the folder is gone.
pub open spec fn repointed(
    p: Seq<PinnedGroup>,
    i: int,
    folder: Option<FolderPath>,
    after: PinnedGroup,
) -> bool {
    let g = p[i];
    &&& after.id == g.id
    &&& after.collapsed == g.collapsed
    &&& after.folder == folder
    &&& if folder is None && g.name is None {
        after.name is Some && after.name->0@ == workspace::pinned_names_of(p)[i]
    } else {
        after.name == g.name
    }
}

proof fn lemma_without_group(p: Seq<PinnedGroup>, id: u128)
    ensures
        forall|k: int|
            0 <= k < without_group(p, id).len() ==> exists|m: int|
                0 <= m < p.len() && p[m] == #[trigger] without_group(p, id)[k],
        (forall|i: int, j: int| 0 <= i < j < p.len() ==> (#[trigger] p[i]).id != (#[trigger] p[j]).id)
            ==> (forall|i: int, j: int|
            0 <= i < j < without_group(p, id).len() ==> (#[trigger] without_group(p, id)[i]).id != (
            #[trigger] without_group(p, id)[j]).id),
    decreases p.len(),
{
    if p.len() > 0 {
        let h = p.drop_last();
        let wh = without_group(h, id);
        let w = without_group(p, id);
        lemma_without_group(h, id);
        assert forall|k: int| 0 <= k < w.len() implies exists|m: int|
            0 <= m < p.len() && p[m] == #[trigger] w[k] by {
            if k < wh.len() {
                assert(w[k] == wh[k]);
                let m = choose|m: int| 0 <= m < h.len() && h[m] == wh[k];
                assert(p[m] == w[k]);
            } else {
                assert(p[p.len() - 1] == w[k]);
            }
        }
        if forall|i: int, j: int|
            0 <= i < j < p.len() ==> (#[trigger] p[i]).id != (#[trigger] p[j]).id {
            assert forall|i: int, j: int| 0 <= i < j < h.len() implies (#[trigger] h[i]).id != (
            #[trigger] h[j]).id by {
                assert(p[i].id != p[j].id);
            }
            assert forall|i: int, j: int| 0 <= i < j < w.len() implies (#[trigger] w[i]).id != (
            #[trigger] w[j]).id by {
                if j < wh.len() {
                    assert(w[i] == wh[i] && w[j] == wh[j]);
                } else {
                    assert(w[i] == wh[i]);
                    let m = choose|m: int| 0 <= m < h.len() && h[m] == wh[i];
                    assert(p[m].id != p[p.len() - 1].id);
                }
            }
        }
    }
}

proof fn lemma_without_auto_stays_distinct(keys: Seq<AutoKey>, key: groups::AutoView)
    requires
        workspace::auto_views(keys).no_duplicates(),
    ensures
        workspace::auto_views(workspace::without_auto(keys, key)).no_duplicates(),
        forall|k: int|
            0 <= k < workspace::without_auto(keys, key).len() ==> workspace::auto_views(
                keys,
            ).contains((#[trigger] workspace::without_auto(keys, key)[k])@),
    decreases keys.len(),
{
    if keys.len() > 0 {
        let h = keys.drop_last();
        let hv = workspace::auto_views(h);
        let kv = workspace::auto_views(keys);
        assert forall|a: int, b: int|
            0 <= a < hv.len() && 0 <= b < hv.len() && a != b implies hv[a] != hv[b] by {
            assert(kv[a] != kv[b]);
        }
        lemma_without_auto_stays_distinct(h, key);
        let wh = workspace::without_auto(h, key);
        let w = workspace::without_auto(keys, key);
        assert forall|k: int| 0 <= k < w.len() implies kv.contains((#[trigger] w[k])@) by {
            if k < wh.len() {
                assert(w[k] == wh[k]);
                let m = choose|m: int| 0 <= m < hv.len() && hv[m] == wh[k]@;
                assert(kv[m] == w[k]@);
            } else {
                assert(kv[keys.len() - 1] == w[k]@);
            }
        }
        let wv = workspace::auto_views(w);
        assert forall|a: int, b: int|
            0 <= a < wv.len() && 0 <= b < wv.len() && a != b implies wv[a] != wv[b] by {
            let whv = workspace::auto_views(wh);
            if a < wh.len() && b < wh.len() {
                assert(wv[a] == whv[a] && wv[b] == whv[b]);
            } else {
                let e = if a < wh.len() {
                    a
                } else {
                    b
                };
                assert(w[e] == wh[e]);
                let m = choose|m: int| 0 <= m < hv.len() && hv[m] == wh[e]@;
                assert(kv[m] != kv[keys.len() - 1]);
            }
        }
    }
}

/// Folding keeps the folded keys listed once each.
proof fn lemma_toggled_wf(g: WorkspaceGroups, key: Option<GroupKey>, after: WorkspaceGroups)
    requires
        g.wf(),
        g.toggled(key, after),
    ensures
        after.wf(),
{
    match key {
        Some(GroupKey::Pinned(id)) => {
            workspace::lemma_place_of_group(g.pinned@, id);
            assert forall|i: int, j: int| 0 <= i < j < after.pinned@.len() implies (
            #[trigger] after.pinned@[i]).id != (#[trigger] after.pinned@[j]).id by {
                assert(g.pinned@[i].id != g.pinned@[j].id);
            }
        },
        Some(GroupKey::Auto(k)) => {
            if workspace::has_auto(g.auto_collapsed@, k@) {
                lemma_without_auto_stays_distinct(g.auto_collapsed@, k@);
            } else {
                let a = workspace::auto_views(after.auto_collapsed@);
                let b = workspace::auto_views(g.auto_collapsed@);
                assert(a =~= b.push(k@));
                assert forall|x: int, y: int|
                    0 <= x < a.len() && 0 <= y < a.len() && x != y implies a[x] != a[y] by {
                    if x < b.len() {
                        assert(b.contains(b[x]));
                    }
                    if y < b.len() {
                        assert(b.contains(b[y]));
                    }
                }
            }
        },
        None => {},
    }
}

proof fn lemma_replaced_wf(p: Seq<PinnedGroup>, q: Seq<PinnedGroup>, i: int)
    requires
        0 <= i < p.len(),
        q == p.update(i, q[i]),
        q[i].id == p[i].id,
        forall|a: int, b: int| 0 <= a < b < p.len() ==> (#[trigger] p[a]).id != (#[trigger] p[b]).id,
    ensures
        forall|a: int, b: int| 0 <= a < b < q.len() ==> (#[trigger] q[a]).id != (#[trigger] q[b]).id,
{
    assert forall|a: int, b: int| 0 <= a < b < q.len() implies (#[trigger] q[a]).id != (
    #[trigger] q[b]).id by {
        assert(p[a].id != p[b].id);
    }
}

/// Deleting a group keeps every tab open and leaves none in it.
pub proof fn deleting_a_group_closes_no_tab(tabs: Seq<SidebarTab>, id: u128)
    ensures
        handed_back(tabs, id).len() == tabs.len(),
        forall|i: int|
            0 <= i < tabs.len() ==> {
                &&& (#[trigger] handed_back(tabs, id)[i]).tree_id == tabs[i].tree_id
                &&& handed_back(tabs, id)[i].group != Some(id)
                &&& handed_back(tabs, id)[i].auto_group == tabs[i].auto_group
            },
{
}

impl Sidebar {
    /// Make a group under a fresh name and put a tab in it. Returns the
    /// group's identifier; its header is open for renaming.
    pub fn new_tab_group(&mut self, index: usize, base: &str) -> (r: u128)
        ensures
            old(self).wf() && workspace::place_of_group(old(self).groups.pinned@, r) is None
                ==> final(self).wf(),
            exists|g: PinnedGroup| #[trigger]
                keeps_also(old(self).groups, final(self).groups, g) && g.id == r && g.folder
                    is None && !g.collapsed && g.name is Some && is_fresh(
                    g.name->0@,
                    base@,
                    workspace::pinned_names_of(old(self).groups.pinned@),
                ),
            final(self).active == old(self).active,
            final(self).group_rename == Some(r),
            final(self).tabs@ == if index < old(self).tabs@.len() {
                old(self).tabs@.update(
                    index as int,
                    SidebarTab { group: Some(r), ..old(self).tabs@[index as int] },
                )
            } else {
                old(self).tabs@
            },
    {
        let name = self.fresh_group_name(base);
        let group = PinnedGroup::label(name.as_str());
        let id: u128 = group.id;
        self.set_tab_group(index, Some(id));
        self.groups.pinned.push(group);
        self.group_rename = Some(id);
        proof {
            workspace::lemma_place_of_group(old(self).groups.pinned@, id);
        }
        assert(keeps_also(old(self).groups, self.groups, group));
        id
    }

    /// Make an empty group under a fresh name, its header open for renaming.
    pub fn new_empty_group(&mut self, base: &str) -> (r: u128)
        ensures
            old(self).wf() && workspace::place_of_group(old(self).groups.pinned@, r) is None
                ==> final(self).wf(),
            exists|g: PinnedGroup| #[trigger]
                keeps_also(old(self).groups, final(self).groups, g) && g.id == r && g.folder
                    is None && !g.collapsed && g.name is Some && is_fresh(
                    g.name->0@,
                    base@,
                    workspace::pinned_names_of(old(self).groups.pinned@),
                ),
            final(self).same_tabs(*old(self)),
            final(self).group_rename == Some(r),
    {
        let name = self.fresh_group_name(base);
        let group = PinnedGroup::label(name.as_str());
        let id: u128 = group.id;
        self.groups.pinned.push(group);
        self.group_rename = Some(id);
        proof {
            workspace::lemma_place_of_group(old(self).groups.pinned@, id);
        }
        assert(keeps_also(old(self).groups, self.groups, group));
        id
    }

    /// Keep a worked-out group, with the tabs that are in it now and its fold:
    /// a repository's as a group for its folder, a host's under its name.
    pub fn pin_auto_group(&mut self, key: AutoKey, keys: &Vec<Option<GroupKey>>) -> (r: u128)
        requires
            keys@.len() == old(self).tabs@.len(),
        ensures
            old(self).wf() && workspace::place_of_group(old(self).groups.pinned@, r) is None
                ==> final(self).wf(),
            final(self).active == old(self).active,
            final(self).group_rename == old(self).group_rename,
            final(self).groups.ungrouped_collapsed == old(self).groups.ungrouped_collapsed,
            final(self).groups.auto_collapsed@ == workspace::without_auto(
                old(self).groups.auto_collapsed@,
                key@,
            ),
            final(self).groups.pinned@.len() == old(self).groups.pinned@.len() + 1,
            final(self).groups.pinned@.drop_last() == old(self).groups.pinned@,
            ({
                let g = final(self).groups.pinned@.last();
                &&& g.id == r
                &&& g.collapsed == workspace::has_auto(old(self).groups.auto_collapsed@, key@)
                &&& match key {
                    AutoKey::Repo(root) => g.name is None && g.folder == Some(root),
                    AutoKey::SshHost(host) => g.folder is None && g.name is Some && g.name->0@
                        == host@,
                }
            }),
            final(self).tabs@ == Seq::new(
                old(self).tabs@.len(),
                |i: int|
                    if groups::key_views(keys@)[i] == Some(GroupView::Auto(key@)) {
                        SidebarTab { group: Some(r), ..old(self).tabs@[i] }
                    } else {
                        old(self).tabs@[i]
                    },
            ),
    {
        let mut group = match &key {
            AutoKey::Repo(root) => PinnedGroup::folder(root.copy()),
            AutoKey::SshHost(host) => PinnedGroup::label(host.as_str()),
        };
        group.collapsed = workspace::contains_auto(&self.groups.auto_collapsed, &key);
        let id: u128 = group.id;
        let kept = workspace::remove_auto(&self.groups.auto_collapsed, &key);
        let ghost kv = groups::key_views(keys@);
        let ghost t0 = self.tabs@;
        let ghost want = Seq::new(
            t0.len(),
            |i: int|
                if kv[i] == Some(GroupView::Auto(key@)) {
                    SidebarTab { group: Some(id), ..t0[i] }
                } else {
                    t0[i]
                },
        );
        let wanted = Some(GroupKey::Auto(key));
        let mut i: usize = 0;
        while i < self.tabs.len()
            invariant
                i <= self.tabs@.len() == t0.len() == keys@.len(),
                t0 == old(self).tabs@,
                kv == groups::key_views(keys@),
                groups::option_view(wanted) == Some(GroupView::Auto(key@)),
                want == Seq::new(
                    t0.len(),
                    |i: int|
                        if kv[i] == Some(GroupView::Auto(key@)) {
                            SidebarTab { group: Some(id), ..t0[i] }
                        } else {
                            t0[i]
                        },
                ),
                self.groups == old(self).groups,
                self.active == old(self).active,
                self.group_rename == old(self).group_rename,
                forall|k: int| 0 <= k < i ==> #[trigger] self.tabs@[k] == want[k],
                forall|k: int| i <= k < t0.len() ==> #[trigger] self.tabs@[k] == t0[k],
            decreases t0.len() - i,
        {
            if groups::same_option(&keys[i], &wanted) {
                self.set_tab_group(i, Some(id));
            }
            i = i + 1;
        }
        assert(self.tabs@ =~= want);
        self.groups.auto_collapsed = kept;
        self.groups.pinned.push(group);
        proof {
            workspace::lemma_place_of_group(old(self).groups.pinned@, id);
            if old(self).wf() {
                lemma_without_auto_stays_distinct(old(self).groups.auto_collapsed@, key@);
            }
        }
        assert(self.groups.pinned@.drop_last() =~= old(self).groups.pinned@);
        id
    }

    /// Keep a folder as a group; one that is kept already is not kept twice.
    pub fn pin_folder(&mut self, folder: FolderPath)
        ensures
            final(self).same_tabs(*old(self)),
            final(self).group_rename == old(self).group_rename,
            if exists|i: int|
                0 <= i < old(self).groups.pinned@.len() && paths::option_view(
                    (#[trigger] old(self).groups.pinned@[i]).folder,
                ) == Some(folder@) {
                final(self).groups == old(self).groups
            } else {
                exists|g: PinnedGroup| #[trigger]
                    keeps_also(old(self).groups, final(self).groups, g) && g.name is None
                        && !g.collapsed && g.folder == Some(folder)
            },
    {
        let mut i: usize = 0;
        while i < self.groups.pinned.len()
            invariant
                i <= self.groups.pinned@.len(),
                *self == *old(self),
                forall|k: int|
                    0 <= k < i ==> paths::option_view((#[trigger] self.groups.pinned@[k]).folder)
                        != Some(folder@),
            decreases self.groups.pinned@.len() - i,
        {
            if let Some(f) = &self.groups.pinned[i].folder {
                if f.same(&folder) {
                    return;
                }
            }
            i = i + 1;
        }
        let g = PinnedGroup::folder(folder);
        self.groups.pinned.push(g);
        assert(keeps_also(old(self).groups, self.groups, g));
    }

    /// Stop keeping a group. Its tabs stay open and go where they are.
    pub fn delete_group(&mut self, id: u128)
        ensures
            final(self).active == old(self).active,
            final(self).tabs@ == handed_back(old(self).tabs@, id),
            final(self).group_rename == if old(self).group_rename == Some(id) {
                None
            } else {
                old(self).group_rename
            },
            final(self).groups.pinned@ == without_group(old(self).groups.pinned@, id),
            old(self).wf() ==> final(self).wf(),
            final(self).groups.auto_collapsed == old(self).groups.auto_collapsed,
            final(self).groups.ungrouped_collapsed == old(self).groups.ungrouped_collapsed,
    {
        let ghost t0 = self.tabs@;
        let mut i: usize = 0;
        while i < self.tabs.len()
            invariant
                i <= self.tabs@.len() == t0.len(),
                t0 == old(self).tabs@,
                self.groups == old(self).groups,
                self.active == old(self).active,
                self.group_rename == old(self).group_rename,
                forall|k: int| 0 <= k < i ==> #[trigger] self.tabs@[k] == handed_back(t0, id)[k],
                forall|k: int| i <= k < t0.len() ==> #[trigger] self.tabs@[k] == t0[k],
            decreases t0.len() - i,
        {
            let own = match self.tabs[i].group {
                Some(g) => g == id,
                None => false,
            };
            if own {
                self.set_tab_group(i, None);
            }
            i = i + 1;
        }
        assert(self.tabs@ =~= handed_back(t0, id));
        let renaming = match self.group_rename {
            Some(g) => g == id,
            None => false,
        };
        if renaming {
            self.group_rename = None;
        }
        let ghost p = self.groups.pinned@;
        let mut left: Vec<PinnedGroup> = Vec::new();
        let mut i: usize = 0;
        assert(p.take(0) =~= Seq::<PinnedGroup>::empty());
        while i < self.groups.pinned.len()
            invariant
                i <= p.len(),
                p == self.groups.pinned@,
                left@ == without_group(p.take(i as int), id),
            decreases p.len() - i,
        {
            assert(p.take(i + 1).drop_last() =~= p.take(i as int));
            if self.groups.pinned[i].id != id {
                left.push(self.groups.pinned[i].copy());
            }
            i = i + 1;
        }
        assert(p.take(p.len() as int) =~= p);
        self.groups.pinned = left;
        proof {
            lemma_without_group(p, id);
        }
    }

    /// Point a kept group at a folder, or at none.
    pub fn set_group_folder(&mut self, id: u128, folder: Option<FolderPath>)
        ensures
            old(self).wf() ==> final(self).wf(),
            final(self).same_tabs(*old(self)),
            final(self).group_rename == old(self).group_rename,
            final(self).groups.auto_collapsed == old(self).groups.auto_collapsed,
            final(self).groups.ungrouped_collapsed == old(self).groups.ungrouped_collapsed,
            match workspace::place_of_group(old(self).groups.pinned@, id) {
                Some(i) => {
                    &&& final(self).groups.pinned@ == old(self).groups.pinned@.update(
                        i,
                        final(self).groups.pinned@[i],
                    )
                    &&& repointed(
                        old(self).groups.pinned@,
                        i,
                        folder,
                        final(self).groups.pinned@[i],
                    )
                },
                None => final(self).groups.pinned@ == old(self).groups.pinned@,
            },
    {
        if let Some(i) = self.groups.find(id) {
            let names = self.header_names();
            assert(text::views(names@)[i as int] == names@[i as int]@);
            let mut g = self.groups.pinned[i].copy();
            if folder.is_none() && g.name.is_none() {
                g.name = Some(names[i].clone());
            }
            g.folder = folder;
            self.groups.pinned.set(i, g);
            proof {
                if old(self).wf() {
                    lemma_replaced_wf(old(self).groups.pinned@, self.groups.pinned@, i as int);
                }
            }
        }
    }

    /// Where a tab opened from the header of a group starts: in the group's
    /// folder, in its repository, or wherever a new tab would.
    pub fn new_tab_folder(&self, key: &GroupKey) -> (r: Option<FolderPath>)
        ensures
            r == match *key {
                GroupKey::Pinned(id) => match workspace::place_of_group(self.groups.pinned@, id) {
                    Some(i) => self.groups.pinned@[i].folder,
                    None => None,
                },
                GroupKey::Auto(AutoKey::Repo(root)) => Some(root),
                GroupKey::Auto(AutoKey::SshHost(_)) => None,
            },
    {
        match key {
            GroupKey::Pinned(id) => match self.groups.find(*id) {
                Some(i) => paths::copy_option(&self.groups.pinned[i].folder),
                None => None,
            },
            GroupKey::Auto(k) => match k {
                AutoKey::Repo(root) => Some(root.copy()),
                AutoKey::SshHost(_) => None,
            },
        }
    }

    /// After a tab was asked for from the header of a group: one that was
    /// opened, and is now active, joins a kept group outright. Returns whether
    /// it did.
    pub fn new_tab_in_group(&mut self, key: &GroupKey, tabs_before: usize) -> (r: bool)
        ensures
            final(self).groups == old(self).groups,
            final(self).active == old(self).active,
            final(self).group_rename == old(self).group_rename,
            r == (old(self).tabs@.len() != tabs_before && key is Pinned && old(self).active < old(
                self,
            ).tabs@.len()),
            final(self).tabs@ == if r {
                old(self).tabs@.update(
                    old(self).active as int,
                    SidebarTab {
                        group: Some(key->Pinned_0),
                        ..old(self).tabs@[old(self).active as int]
                    },
                )
            } else {
                old(self).tabs@
            },
    {
        if self.tabs.len() == tabs_before {
            return false;
        }
        match key {
            GroupKey::Pinned(id) => {
                if self.active < self.tabs.len() {
                    let at: usize = self.active;
                    self.set_tab_group(at, Some(*id));
                    true
                } else {
                    false
                }
            },
            GroupKey::Auto(_) => false,
        }
    }

    /// Put the kept groups in this order, given as places in the order they
    /// have. One that does not name as many places, or names one that is not
    /// there, changes nothing.
    pub fn apply_pinned_order(&mut self, order: &Vec<usize>)
        ensures
            final(self).same_tabs(*old(self)),
            final(self).group_rename == old(self).group_rename,
            final(self).groups.auto_collapsed == old(self).groups.auto_collapsed,
            final(self).groups.ungrouped_collapsed == old(self).groups.ungrouped_collapsed,
            final(self).groups.pinned@ == if order@.len() == old(self).groups.pinned@.len() && (
            forall|i: int|
                0 <= i < order@.len() ==> #[trigger] order@[i] < old(self).groups.pinned@.len()) {
                Seq::new(order@.len(), |i: int| old(self).groups.pinned@[order@[i] as int])
            } else {
                old(self).groups.pinned@
            },
    {
        let n: usize = self.groups.pinned.len();
        if order.len() != n {
            return;
        }
        let ghost p = self.groups.pinned@;
        let mut out: Vec<PinnedGroup> = Vec::new();
        let mut i: usize = 0;
        while i < n
            invariant
                i <= n == order@.len() == p.len(),
                *self == *old(self),
                p == self.groups.pinned@,
                out@.len() == i,
                forall|k: int| 0 <= k < i ==> #[trigger] order@[k] < n,
                forall|k: int| 0 <= k < i ==> #[trigger] out@[k] == p[order@[k] as int],
            decreases n - i,
        {
            if order[i] >= n {
                return;
            }
            out.push(self.groups.pinned[order[i]].copy());
            i = i + 1;
        }
        assert(out@ =~= Seq::new(order@.len(), |i: int| p[order@[i] as int]));
        self.groups.pinned = out;
    }

    /// Open the header of a kept group for renaming; what it reads is where
    /// the typing starts.
    pub fn start_group_rename(&mut self, id: u128) -> (r: Option<String>)
        ensures
            final(self).same_tabs(*old(self)),
            final(self).groups == old(self).groups,
            text::option_text(r) == header_of(old(self).groups.pinned@, id),
            final(self).group_rename == if r is Some {
                Some(id)
            } else {
                old(self).group_rename
            },
    {
        match self.groups.find(id) {
            Some(i) => {
                let names = self.header_names();
                assert(text::views(names@)[i as int] == names@[i as int]@);
                self.group_rename = Some(id);
                Some(names[i].clone())
            },
            None => None,
        }
    }

    /// Write what was typed onto the group that is being renamed.
    pub fn commit_group_rename(&mut self, typed: &str)
        ensures
            old(self).wf() ==> final(self).wf(),
            final(self).same_tabs(*old(self)),
            final(self).group_rename is None,
            final(self).groups.auto_collapsed == old(self).groups.auto_collapsed,
            final(self).groups.ungrouped_collapsed == old(self).groups.ungrouped_collapsed,
            match old(self).group_rename {
                Some(id) => match workspace::place_of_group(old(self).groups.pinned@, id) {
                    Some(i) => {
                        &&& final(self).groups.pinned@ == old(self).groups.pinned@.update(
                            i,
                            final(self).groups.pinned@[i],
                        )
                        &&& renamed(
                            old(self).groups.pinned@[i],
                            typed@,
                            final(self).groups.pinned@[i],
                        )
                    },
                    None => final(self).groups.pinned@ == old(self).groups.pinned@,
                },
                None => final(self).groups.pinned@ == old(self).groups.pinned@,
            },
    {
        let id = match self.group_rename {
            Some(id) => id,
            None => {
                return;
            },
        };
        self.group_rename = None;
        let value = text::trim(typed);
        if let Some(i) = self.groups.find(id) {
            let mut g = self.groups.pinned[i].copy();
            if value.len() > 0 {
                g.name = Some(text::string_of(value.as_slice()));
            } else if g.folder.is_some() {
                g.name = None;
            }
            self.groups.pinned.set(i, g);
            proof {
                if old(self).wf() {
                    lemma_replaced_wf(old(self).groups.pinned@, self.groups.pinned@, i as int);
                }
            }
        }
    }

    /// Fold the group drawn under `key`, or unfold it.
    pub fn toggle_sidebar_group(&mut self, key: &Option<GroupKey>)
        ensures
            final(self).same_tabs(*old(self)),
            final(self).group_rename == old(self).group_rename,
            old(self).groups.toggled(*key, final(self).groups),
            old(self).wf() ==> final(self).wf(),
    {
        self.groups.toggle_folded(key);
        proof {
            if old(self).wf() {
                lemma_toggled_wf(old(self).groups, *key, self.groups);
            }
        }
    }
}

/// Deleting a group takes its tabs out of it, and no other tab out of any
/// group.
pub proof fn only_the_tabs_of_a_deleted_group_lose_it(tabs: Seq<SidebarTab>, id: u128, i: int)
    requires
        0 <= i < tabs.len(),
    ensures
        tabs[i].group == Some(id) ==> handed_back(tabs, id)[i].group is None,
        tabs[i].group != Some(id) ==> handed_back(tabs, id)[i] == tabs[i],
        handed_back(tabs, id)[i].folder_watch == tabs[i].folder_watch,
{
}

/// Deleting a group keeps every other one, in their order.
pub proof fn deleting_a_group_keeps_the_others(p: Seq<PinnedGroup>, id: u128)
    ensures
        without_group(p, id) == p.filter(|g: PinnedGroup| g.id != id),
    decreases p.len(),
{
    reveal(Seq::filter);
    if p.len() > 0 {
        deleting_a_group_keeps_the_others(p.drop_last(), id);
    }
}

/// Renaming changes the name and nothing else. What was typed is the new name,
/// without the blanks around it. A blank name leaves a group without a folder
/// as it was, and gives one with a folder its folder's name back.
pub proof fn renaming_changes_the_name_alone(g: PinnedGroup, typed: Seq<char>, after: PinnedGroup)
    requires
        renamed(g, typed, after),
    ensures
        after.id == g.id && after.folder == g.folder && after.collapsed == g.collapsed,
        text::trimmed(typed).len() > 0 ==> after.name is Some && after.name->0@ == text::trimmed(
            typed,
        ),
        text::trimmed(typed).len() == 0 && g.folder is Some ==> after.name is None,
        text::trimmed(typed).len() == 0 && g.folder is None ==> after.name == g.name,
{
}

/// Pointing a group at a folder keeps the name it was given. A group that
/// loses its folder goes on reading what it read.
pub proof fn a_group_reads_on_without_its_folder(
    p: Seq<PinnedGroup>,
    i: int,
    folder: Option<FolderPath>,
    after: PinnedGroup,
)
    requires
        0 <= i < p.len(),
        repointed(p, i, folder, after),
    ensures
        after.id == p[i].id && after.collapsed == p[i].collapsed && after.folder == folder,
        p[i].name is Some ==> after.name == p[i].name,
        folder is Some ==> after.name == p[i].name,
        folder is None ==> after.name is Some && after.name->0@ == workspace::pinned_names_of(
            p,
        )[i],
{
    workspace::a_group_reads_its_own_name(p, i);
}

/// A new group gets a name that no group reads: the plain one where it is
/// free, else the plain one with the first number from two on that makes it
/// free.
pub proof fn a_new_group_gets_the_first_free_name(
    name: Seq<char>,
    base: Seq<char>,
    taken: Seq<Seq<char>>,
)
    requires
        is_fresh(name, base, taken),
    ensures
        !taken.contains(name),
        !taken.contains(base) ==> name == base,
        taken.contains(base) ==> exists|n: nat|
            n >= 2 && name == base.push(' ') + #[trigger] text::decimal(n) && forall|m: nat|
                2 <= m < n ==> taken.contains(base.push(' ') + #[trigger] text::decimal(m)),
{
    let n = choose|n: nat|
        {
            &&& 1 <= n
            &&& name == #[trigger] candidate(base, n)
            &&& !taken.contains(name)
            &&& forall|m: nat| 1 <= m < n ==> taken.contains(#[trigger] candidate(base, m))
        };
    assert(candidate(base, 1) == base);
    if taken.contains(base) {
        assert(n >= 2);
        assert(name == base.push(' ') + text::decimal(n));
        assert forall|m: nat| 2 <= m < n implies taken.contains(
            base.push(' ') + #[trigger] text::decimal(m),
        ) by {
            assert(taken.contains(candidate(base, m)));
        }
    }
}

/// A group that is kept anew stands behind the others, which stay as they are.
pub proof fn a_new_group_stands_last(
    before: WorkspaceGroups,
    after: WorkspaceGroups,
    g: PinnedGroup,
)
    requires
        keeps_also(before, after, g),
    ensures
        after.pinned@.len() == before.pinned@.len() + 1,
        after.pinned@.last() == g,
        forall|i: int|
            0 <= i < before.pinned@.len() ==> #[trigger] after.pinned@[i] == before.pinned@[i],
        after.auto_collapsed == before.auto_collapsed,
        after.ungrouped_collapsed == before.ungrouped_collapsed,
{
}

/// A rename starts from what the group's own header reads.
pub proof fn a_rename_starts_from_the_header(p: Seq<PinnedGroup>, id: u128, k: int)
    ensures
        0 <= k < p.len() && p[k].id == id && (forall|i: int|
            0 <= i < k ==> (#[trigger] p[i]).id != id) ==> header_of(p, id) == Some(
            workspace::pinned_names_of(p)[k],
        ),
        (forall|i: int| 0 <= i < p.len() ==> (#[trigger] p[i]).id != id) ==> header_of(p, id)
            is None,
{
    workspace::lemma_place_of_group(p, id);
}

} // verus!
