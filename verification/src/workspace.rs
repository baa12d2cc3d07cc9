//! The groups a workspace keeps, and where a tab is drawn among them.

use vstd::prelude::*;
use vstd::string::*;
use crate::groups;
use crate::groups::{AutoKey, AutoView, GroupKey, GroupView};
use crate::paths;
use crate::paths::{ComponentView, FolderPath};
use crate::ssh_profile;
use crate::text;

verus! {

/// A group the user keeps: under a name, for a folder, or both.
#[derive(Clone, Debug, PartialEq, Eq)]
pub struct PinnedGroup {
    pub id: u128,
    pub name: Option<String>,
    pub folder: Option<FolderPath>,
    pub collapsed: bool,
}

/// The groups of one workspace.
#[derive(Clone, Debug, PartialEq, Eq)]
pub struct WorkspaceGroups {
    pub pinned: Vec<PinnedGroup>,
    /// The worked-out groups that are folded.
    pub auto_collapsed: Vec<AutoKey>,
    pub ungrouped_collapsed: bool,
}

impl PinnedGroup {
    /// A group under a name.
    pub fn label(name: &str) -> (r: PinnedGroup)
        ensures
            r.name is Some && r.name->0@ == name@,
            r.folder is None,
            !r.collapsed,
    {
        PinnedGroup {
            id: ssh_profile::fresh_id(),
            name: Some(name.to_owned()),
            folder: None,
            collapsed: false,
        }
    }

    /// A group for a folder, reading the folder's name.
    pub fn folder(path: FolderPath) -> (r: PinnedGroup)
        ensures
            r.name is None,
            r.folder == Some(path),
            !r.collapsed,
    {
        PinnedGroup {
            id: ssh_profile::fresh_id(),
            name: None,
            folder: Some(path),
            collapsed: false,
        }
    }

    pub fn copy(&self) -> (r: PinnedGroup)
        ensures
            r == *self,
    {
        PinnedGroup {
            id: self.id,
            name: text::copy_option(&self.name),
            folder: paths::copy_option(&self.folder),
            collapsed: self.collapsed,
        }
    }

    /// Whether a tab in this directory, or of this repository, is inside the
    /// group's folder.
    pub open spec fn holds(
        &self,
        cwd: Option<Seq<ComponentView>>,
        home: Option<Seq<ComponentView>>,
    ) -> bool {
        match self.folder {
            Some(f) => {
                ||| (cwd is Some && paths::within(cwd->0, f@))
                ||| (home is Some && paths::within(home->0, f@))
            },
            None => false,
        }
    }

    /// How deep the group's folder is.
    pub open spec fn folder_depth(&self) -> nat {
        match self.folder {
            Some(f) => f@.len(),
            None => 0,
        }
    }
}

/// The folders of the groups without a name of their own, in order.
pub open spec fn unnamed_folders(p: Seq<PinnedGroup>) -> Seq<FolderPath>
    decreases p.len(),
{
    if p.len() == 0 {
        Seq::empty()
    } else {
        let head = unnamed_folders(p.drop_last());
        match (p.last().name, p.last().folder) {
            (None, Some(f)) => head.push(f),
            _ => head,
        }
    }
}

/// What the header of the `i`-th kept group reads: the name it was given, or
/// its folder's.
pub open spec fn pinned_name_of(p: Seq<PinnedGroup>, i: int) -> Seq<char> {
    match p[i].name {
        Some(n) => n@,
        None => match p[i].folder {
            Some(_) => groups::group_names_of(unnamed_folders(p))[unnamed_folders(
                p.take(i),
            ).len() as int],
            None => Seq::empty(),
        },
    }
}

/// What the headers of the kept groups read.
pub open spec fn pinned_names_of(p: Seq<PinnedGroup>) -> Seq<Seq<char>> {
    Seq::new(p.len(), |i: int| pinned_name_of(p, i))
}

proof fn lemma_unnamed_prefix(p: Seq<PinnedGroup>, i: int)
    requires
        0 <= i <= p.len(),
    ensures
        unnamed_folders(p.take(i)).len() <= unnamed_folders(p).len(),
    decreases p.len() - i,
{
    if i < p.len() {
        assert(p.take(i + 1).drop_last() =~= p.take(i));
        lemma_unnamed_prefix(p, i + 1);
    } else {
        assert(p.take(i) =~= p);
    }
}

/// What the headers of the kept groups read, in order.
pub fn pinned_names(pinned: &Vec<PinnedGroup>) -> (r: Vec<String>)
    ensures
        text::views(r@) == pinned_names_of(pinned@),
        r@.len() == pinned@.len(),
{
    let mut unnamed: Vec<FolderPath> = Vec::new();
    let mut i: usize = 0;
    assert(unnamed@ =~= unnamed_folders(pinned@.take(0)));
    while i < pinned.len()
        invariant
            i <= pinned@.len(),
            unnamed@ == unnamed_folders(pinned@.take(i as int)),
        decreases pinned@.len() - i,
    {
        assert(pinned@.take(i + 1).drop_last() =~= pinned@.take(i as int));
        let ghost before = unnamed@;
        if pinned[i].name.is_none() {
            if let Some(f) = &pinned[i].folder {
                unnamed.push(f.copy());
                assert(unnamed@ =~= before.push(*f));
            }
        }
        i = i + 1;
    }
    assert(pinned@.take(pinned@.len() as int) =~= pinned@);
    let from_folders = groups::group_names(&unnamed);
    assert(text::views(from_folders@).len() == unnamed@.len());
    let total: usize = from_folders.len();
    let mut out: Vec<String> = Vec::new();
    let mut next: usize = 0;
    let mut i: usize = 0;
    while i < pinned.len()
        invariant
            i <= pinned@.len(),
            total == from_folders@.len(),
            text::views(from_folders@) == groups::group_names_of(unnamed_folders(pinned@)),
            from_folders@.len() == unnamed_folders(pinned@).len(),
            next == unnamed_folders(pinned@.take(i as int)).len(),
            out@.len() == i,
            forall|k: int| 0 <= k < i ==> (#[trigger] out@[k])@ == pinned_name_of(pinned@, k),
        decreases pinned@.len() - i,
    {
        proof {
            assert(pinned@.take(i + 1).drop_last() =~= pinned@.take(i as int));
            lemma_unnamed_prefix(pinned@, i + 1);
        }
        let name = match &pinned[i].name {
            Some(n) => n.clone(),
            None => match &pinned[i].folder {
                Some(_) => {
                    let n = from_folders[next].clone();
                    assert(n@ == text::views(from_folders@)[next as int]);
                    next = next + 1;
                    n
                },
                None => {
                    let n = String::new();
                    assert(n@ =~= Seq::<char>::empty());
                    n
                },
            },
        };
        out.push(name);
        i = i + 1;
    }
    assert(text::views(out@) =~= pinned_names_of(pinned@));
    out
}

/// The repositories among worked-out groups, in order.
pub open spec fn repo_roots(keys: Seq<AutoKey>) -> Seq<FolderPath>
    decreases keys.len(),
{
    if keys.len() == 0 {
        Seq::empty()
    } else {
        match keys.last() {
            AutoKey::Repo(p) => repo_roots(keys.drop_last()).push(p),
            AutoKey::SshHost(_) => repo_roots(keys.drop_last()),
        }
    }
}

pub open spec fn auto_name_of(keys: Seq<AutoKey>, i: int) -> Seq<char> {
    match keys[i] {
        AutoKey::Repo(_) => groups::group_names_of(repo_roots(keys))[repo_roots(
            keys.take(i),
        ).len() as int],
        AutoKey::SshHost(h) => h@,
    }
}

/// What the headers of worked-out groups read: a repository's directory, or
/// the host as it is.
pub open spec fn auto_names_of(keys: Seq<AutoKey>) -> Seq<Seq<char>> {
    Seq::new(keys.len(), |i: int| auto_name_of(keys, i))
}

pub open spec fn auto_views(keys: Seq<AutoKey>) -> Seq<AutoView> {
    Seq::new(keys.len(), |i: int| keys[i]@)
}

proof fn lemma_roots_prefix(keys: Seq<AutoKey>, i: int)
    requires
        0 <= i <= keys.len(),
    ensures
        repo_roots(keys.take(i)).len() <= repo_roots(keys).len(),
    decreases keys.len() - i,
{
    if i < keys.len() {
        assert(keys.take(i + 1).drop_last() =~= keys.take(i));
        lemma_roots_prefix(keys, i + 1);
    } else {
        assert(keys.take(i) =~= keys);
    }
}

/// What the headers of worked-out groups read, in order.
pub fn auto_names(keys: &Vec<AutoKey>) -> (r: Vec<String>)
    ensures
        text::views(r@) == auto_names_of(keys@),
{
    let ghost kv = keys@;
    let mut roots: Vec<FolderPath> = Vec::new();
    let mut i: usize = 0;
    assert(roots@ =~= repo_roots(kv.take(0)));
    while i < keys.len()
        invariant
            i <= keys@.len(),
            kv == keys@,
            roots@ == repo_roots(kv.take(i as int)),
        decreases keys@.len() - i,
    {
        assert(kv.take(i + 1).drop_last() =~= kv.take(i as int));
        let ghost before = roots@;
        match &keys[i] {
            AutoKey::Repo(p) => {
                roots.push(p.copy());
                assert(roots@ =~= before.push(*p));
            },
            AutoKey::SshHost(_) => {},
        }
        i = i + 1;
    }
    assert(kv.take(kv.len() as int) =~= kv);
    let names = groups::group_names(&roots);
    assert(text::views(names@).len() == roots@.len());
    let total: usize = names.len();
    let mut out: Vec<String> = Vec::new();
    let mut next: usize = 0;
    let mut i: usize = 0;
    while i < keys.len()
        invariant
            i <= keys@.len(),
            total == names@.len(),
            kv == keys@,
            text::views(names@) == groups::group_names_of(repo_roots(kv)),
            names@.len() == repo_roots(kv).len(),
            next == repo_roots(kv.take(i as int)).len(),
            out@.len() == i,
            forall|k: int| 0 <= k < i ==> (#[trigger] out@[k])@ == auto_name_of(kv, k),
        decreases keys@.len() - i,
    {
        proof {
            assert(kv.take(i + 1).drop_last() =~= kv.take(i as int));
            lemma_roots_prefix(kv, i + 1);
        }
        let name = match &keys[i] {
            AutoKey::Repo(_) => {
                let n = names[next].clone();
                assert(n@ == text::views(names@)[next as int]);
                next = next + 1;
                n
            },
            AutoKey::SshHost(h) => h.clone(),
        };
        out.push(name);
        i = i + 1;
    }
    assert(text::views(out@) =~= auto_names_of(kv));
    out
}

/// The place of the first kept group with this identifier.
pub open spec fn place_of_group(p: Seq<PinnedGroup>, id: u128) -> Option<int>
    decreases p.len(),
{
    if p.len() == 0 {
        None
    } else {
        match place_of_group(p.drop_last(), id) {
            Some(i) => Some(i),
            None => if p.last().id == id {
                Some(p.len() - 1)
            } else {
                None
            },
        }
    }
}

/// The kept group whose folder a tab is in: the deepest, and of equally deep
/// ones the first.
pub open spec fn deepest(
    p: Seq<PinnedGroup>,
    cwd: Option<Seq<ComponentView>>,
    home: Option<Seq<ComponentView>>,
) -> Option<int>
    decreases p.len(),
{
    if p.len() == 0 {
        None
    } else {
        let best = deepest(p.drop_last(), cwd, home);
        if p.last().holds(cwd, home) && (best is None || p.last().folder_depth()
            > p[best->0].folder_depth()) {
            Some(p.len() - 1)
        } else {
            best
        }
    }
}

/// The deepest kept folder wins: no kept group that a tab is in is deeper than
/// the one it is filed under, and a tab that is in one is filed.
pub proof fn the_deepest_folder_wins(
    p: Seq<PinnedGroup>,
    cwd: Option<Seq<ComponentView>>,
    home: Option<Seq<ComponentView>>,
)
    ensures
        match deepest(p, cwd, home) {
            Some(b) => {
                &&& 0 <= b < p.len()
                &&& p[b].holds(cwd, home)
                &&& forall|k: int|
                    0 <= k < p.len() && (#[trigger] p[k]).holds(cwd, home) ==> p[k].folder_depth()
                        <= p[b].folder_depth()
            },
            None => forall|k: int| 0 <= k < p.len() ==> !(#[trigger] p[k]).holds(cwd, home),
        },
    decreases p.len(),
{
    if p.len() > 0 {
        the_deepest_folder_wins(p.drop_last(), cwd, home);
        assert(forall|k: int| 0 <= k < p.len() - 1 ==> p.drop_last()[k] == #[trigger] p[k]);
    }
}

/// Where a tab is drawn: in the kept group it is in, if that group is still
/// there; otherwise in the group that follows from where it is, if such groups
/// are drawn at all.
pub open spec fn drawn_in(
    group: Option<u128>,
    pinned: Seq<PinnedGroup>,
    auto_grouping: bool,
    auto: Option<AutoView>,
) -> Option<GroupView> {
    if group is Some && place_of_group(pinned, group->0) is Some {
        Some(GroupView::Pinned(group->0))
    } else if auto_grouping && auto is Some {
        Some(GroupView::Auto(auto->0))
    } else {
        None
    }
}

pub proof fn lemma_place_of_group(p: Seq<PinnedGroup>, id: u128)
    ensures
        match place_of_group(p, id) {
            Some(i) => {
                &&& 0 <= i < p.len()
                &&& p[i].id == id
                &&& forall|k: int| 0 <= k < i ==> (#[trigger] p[k]).id != id
            },
            None => forall|k: int| 0 <= k < p.len() ==> (#[trigger] p[k]).id != id,
        },
    decreases p.len(),
{
    if p.len() > 0 {
        lemma_place_of_group(p.drop_last(), id);
        assert(forall|k: int| 0 <= k < p.len() - 1 ==> p.drop_last()[k] == #[trigger] p[k]);
    }
}

/// Whether a worked-out group is among these.
pub open spec fn has_auto(keys: Seq<AutoKey>, key: AutoView) -> bool {
    auto_views(keys).contains(key)
}

/// The keys without this one.
pub open spec fn without_auto(keys: Seq<AutoKey>, key: AutoView) -> Seq<AutoKey>
    decreases keys.len(),
{
    if keys.len() == 0 {
        Seq::empty()
    } else if keys.last()@ == key {
        without_auto(keys.drop_last(), key)
    } else {
        without_auto(keys.drop_last(), key).push(keys.last())
    }
}

pub fn contains_auto(keys: &Vec<AutoKey>, key: &AutoKey) -> (r: bool)
    ensures
        r == has_auto(keys@, key@),
{
    let mut i: usize = 0;
    while i < keys.len()
        invariant
            i <= keys@.len(),
            forall|k: int| 0 <= k < i ==> (#[trigger] keys@[k])@ != key@,
        decreases keys@.len() - i,
    {
        if keys[i].same(key) {
            assert(auto_views(keys@)[i as int] == key@);
            return true;
        }
        i = i + 1;
    }
    assert(!auto_views(keys@).contains(key@));
    false
}

pub fn remove_auto(keys: &Vec<AutoKey>, key: &AutoKey) -> (r: Vec<AutoKey>)
    ensures
        r@ == without_auto(keys@, key@),
{
    let mut out: Vec<AutoKey> = Vec::new();
    let mut i: usize = 0;
    assert(keys@.take(0) =~= Seq::<AutoKey>::empty());
    while i < keys.len()
        invariant
            i <= keys@.len(),
            out@ == without_auto(keys@.take(i as int), key@),
        decreases keys@.len() - i,
    {
        assert(keys@.take(i + 1).drop_last() =~= keys@.take(i as int));
        if !keys[i].same(key) {
            out.push(keys[i].copy());
        }
        i = i + 1;
    }
    assert(keys@.take(keys@.len() as int) =~= keys@);
    out
}

impl WorkspaceGroups {
    pub fn new() -> (r: WorkspaceGroups)
        ensures
            r.pinned@.len() == 0,
            r.auto_collapsed@.len() == 0,
            !r.ungrouped_collapsed,
    {
        WorkspaceGroups {
            pinned: Vec::new(),
            auto_collapsed: Vec::new(),
            ungrouped_collapsed: false,
        }
    }

    /// No two kept groups share an identifier, and no folded key is listed
    /// twice.
    pub open spec fn wf(&self) -> bool {
        &&& forall|i: int, j: int|
            0 <= i < j < self.pinned@.len() ==> (#[trigger] self.pinned@[i]).id != (
            #[trigger] self.pinned@[j]).id
        &&& auto_views(self.auto_collapsed@).no_duplicates()
    }

    /// Where the group with this identifier stands.
    pub fn find(&self, id: u128) -> (r: Option<usize>)
        ensures
            match place_of_group(self.pinned@, id) {
                Some(i) => r is Some && r->0 == i && 0 <= i < self.pinned@.len()
                    && self.pinned@[i].id == id,
                None => r is None,
            },
    {
        let mut i: usize = 0;
        while i < self.pinned.len()
            invariant
                i <= self.pinned@.len(),
                forall|k: int| 0 <= k < i ==> (#[trigger] self.pinned@[k]).id != id,
            decreases self.pinned@.len() - i,
        {
            if self.pinned[i].id == id {
                proof {
                    lemma_place_of_group(self.pinned@, id);
                }
                return Some(i);
            }
            i = i + 1;
        }
        proof {
            lemma_place_of_group(self.pinned@, id);
        }
        None
    }

    pub fn contains(&self, id: u128) -> (r: bool)
        ensures
            r == (place_of_group(self.pinned@, id) is Some),
    {
        self.find(id).is_some()
    }

    /// The kept group whose folder this directory, or this repository, is in.
    pub fn folder_for(&self, cwd: Option<&FolderPath>, home: Option<&FolderPath>) -> (r: Option<u128>)
        ensures
            r == match deepest(self.pinned@, paths::option_ref_view(cwd), paths::option_ref_view(home)) {
                Some(i) => Some(self.pinned@[i].id),
                None => None,
            },
    {
        let mut best: Option<usize> = None;
        let mut i: usize = 0;
        let ghost p = self.pinned@;
        let ghost c = paths::option_ref_view(cwd);
        let ghost h = paths::option_ref_view(home);
        assert(p.take(0) =~= Seq::<PinnedGroup>::empty());
        let mut depth: usize = 0;
        while i < self.pinned.len()
            invariant
                i <= p.len(),
                p == self.pinned@,
                c == paths::option_ref_view(cwd),
                h == paths::option_ref_view(home),
                match deepest(p.take(i as int), c, h) {
                    Some(b) => best is Some && best->0 == b && 0 <= b < i && depth
                        == p[b].folder_depth(),
                    None => best is None,
                },
            decreases p.len() - i,
        {
            assert(p.take(i + 1).drop_last() =~= p.take(i as int));
            assert(p.take(i + 1).last() == p[i as int]);
            if let Some(f) = &self.pinned[i].folder {
                let inside = (match cwd {
                    Some(d) => d.is_within(f),
                    None => false,
                }) || (match home {
                    Some(d) => d.is_within(f),
                    None => false,
                });
                assert(inside == p[i as int].holds(c, h));
                if inside {
                    let parts = f.components();
                    assert(f@.len() == parts@.len());
                    assert(parts@.len() == p[i as int].folder_depth());
                    if best.is_none() || parts.len() > depth {
                        best = Some(i);
                        depth = parts.len();
                    }
                }
            }
            i = i + 1;
        }
        assert(p.take(p.len() as int) =~= p);
        match best {
            Some(b) => Some(self.pinned[b].id),
            None => None,
        }
    }

    /// Whether the group drawn under `key` is folded; `None` is the list of
    /// tabs without a group.
    pub open spec fn folded(&self, key: Option<GroupView>) -> bool {
        match key {
            Some(GroupView::Pinned(id)) => match place_of_group(self.pinned@, id) {
                Some(i) => self.pinned@[i].collapsed,
                None => false,
            },
            Some(GroupView::Auto(k)) => has_auto(self.auto_collapsed@, k),
            None => self.ungrouped_collapsed,
        }
    }

    pub fn is_folded(&self, key: &Option<GroupKey>) -> (r: bool)
        ensures
            r == self.folded(groups::option_view(*key)),
    {
        match key {
            Some(GroupKey::Pinned(id)) => match self.find(*id) {
                Some(i) => self.pinned[i].collapsed,
                None => false,
            },
            Some(GroupKey::Auto(k)) => contains_auto(&self.auto_collapsed, k),
            None => self.ungrouped_collapsed,
        }
    }

    /// The groups after the one drawn under `key` was folded, or unfolded.
    pub open spec fn toggled(&self, key: Option<GroupKey>, after: WorkspaceGroups) -> bool {
        match key {
            Some(GroupKey::Pinned(id)) => {
                &&& after.auto_collapsed == self.auto_collapsed
                &&& after.ungrouped_collapsed == self.ungrouped_collapsed
                &&& match place_of_group(self.pinned@, id) {
                    Some(i) => after.pinned@ == self.pinned@.update(
                        i,
                        PinnedGroup { collapsed: !self.pinned@[i].collapsed, ..self.pinned@[i] },
                    ),
                    None => after.pinned@ == self.pinned@,
                }
            },
            Some(GroupKey::Auto(k)) => {
                &&& after.pinned == self.pinned
                &&& after.ungrouped_collapsed == self.ungrouped_collapsed
                &&& after.auto_collapsed@ == if has_auto(self.auto_collapsed@, k@) {
                    without_auto(self.auto_collapsed@, k@)
                } else {
                    self.auto_collapsed@.push(k)
                }
            },
            None => {
                &&& after.pinned == self.pinned
                &&& after.auto_collapsed == self.auto_collapsed
                &&& after.ungrouped_collapsed == !self.ungrouped_collapsed
            },
        }
    }

    /// Fold the group drawn under `key`, or unfold it if it is folded.
    pub fn toggle_folded(&mut self, key: &Option<GroupKey>)
        ensures
            old(self).toggled(*key, *final(self)),
    {
        match key {
            Some(GroupKey::Pinned(id)) => {
                if let Some(i) = self.find(*id) {
                    let mut g = self.pinned[i].copy();
                    g.collapsed = !g.collapsed;
                    self.pinned.set(i, g);
                }
            },
            Some(GroupKey::Auto(k)) => {
                if contains_auto(&self.auto_collapsed, k) {
                    self.auto_collapsed = remove_auto(&self.auto_collapsed, k);
                } else {
                    self.auto_collapsed.push(k.copy());
                }
            },
            None => {
                self.ungrouped_collapsed = !self.ungrouped_collapsed;
            },
        }
    }
}

/// Where a tab is drawn.
pub fn place(
    group: Option<u128>,
    groups: &WorkspaceGroups,
    auto_grouping: bool,
    auto: Option<AutoKey>,
) -> (r: Option<GroupKey>)
    ensures
        groups::option_view(r) == drawn_in(
            group,
            groups.pinned@,
            auto_grouping,
            groups::auto_view(auto),
        ),
        r matches Some(GroupKey::Auto(k)) ==> auto == Some(k),
{
    if let Some(id) = group {
        if groups.contains(id) {
            return Some(GroupKey::Pinned(id));
        }
    }
    if auto_grouping {
        match auto {
            Some(k) => Some(GroupKey::Auto(k)),
            None => None,
        }
    } else {
        None
    }
}

/// The group that follows from where a tab is, if anything is known: the host
/// it is on, or the repository its directory is in.
pub fn auto_key(host: Option<&str>, known: Option<Option<FolderPath>>) -> (r: Option<
    Option<AutoKey>,
>)
    ensures
        match host {
            Some(h) => r matches Some(Some(AutoKey::SshHost(s))) && s@ == h@,
            None => match known {
                Some(Some(root)) => r == Some(Some(AutoKey::Repo(root))),
                Some(None) => r == Some(None::<AutoKey>),
                None => r is None,
            },
        },
{
    match host {
        Some(h) => Some(Some(AutoKey::SshHost(h.to_owned()))),
        None => match known {
            Some(Some(root)) => Some(Some(AutoKey::Repo(root))),
            Some(None) => Some(None),
            None => None,
        },
    }
}

/// Which kept folder a tab was last seen in, so that walking into one can be
/// told from being in it.
#[derive(Clone, Copy, Debug, PartialEq, Eq, Structural)]
pub struct EntryWatch {
    pub at: Option<u128>,
    /// Whether the next look only records where the tab is.
    pub baseline: bool,
}

impl EntryWatch {
    /// Nothing seen yet: the first folder a tab is seen in was walked into.
    pub fn new() -> (r: EntryWatch)
        ensures
            r == (EntryWatch { at: None, baseline: false }),
    {
        EntryWatch { at: None, baseline: false }
    }

    /// For a tab that was somewhere before: where it is seen first, it already
    /// was.
    pub fn baseline() -> (r: EntryWatch)
        ensures
            r == (EntryWatch { at: None, baseline: true }),
    {
        EntryWatch { at: None, baseline: true }
    }

    /// What was walked into, if the tab is now seen in `inside`.
    pub open spec fn entered(&self, inside: Option<u128>) -> Option<u128> {
        if self.baseline || inside == self.at {
            None
        } else {
            inside
        }
    }

    pub fn observe(&mut self, inside: Option<u128>) -> (r: Option<u128>)
        ensures
            r == old(self).entered(inside),
            *final(self) == (EntryWatch { at: inside, baseline: false }),
    {
        let same = match inside {
            Some(a) => match self.at {
                Some(b) => a == b,
                None => false,
            },
            None => self.at.is_none(),
        };
        let r = if self.baseline || same {
            None
        } else {
            inside
        };
        self.at = inside;
        self.baseline = false;
        r
    }
}

/// A tab that stays in a folder does not walk into it: seen twice in one
/// place, the second look reports nothing.
pub proof fn staying_is_no_entry(w: EntryWatch, inside: Option<u128>)
    ensures
        (EntryWatch { at: inside, baseline: false }).entered(inside) is None,
        w.baseline ==> w.entered(inside) is None,
        !w.baseline && w.at is None && inside is Some ==> w.entered(inside) == inside,
{
}

proof fn lemma_without_is_gone(keys: Seq<AutoKey>, key: AutoView)
    ensures
        !has_auto(without_auto(keys, key), key),
        !has_auto(keys, key) ==> without_auto(keys, key) == keys,
    decreases keys.len(),
{
    if keys.len() > 0 {
        lemma_without_is_gone(keys.drop_last(), key);
        let head = without_auto(keys.drop_last(), key);
        let all = without_auto(keys, key);
        assert forall|k: int| 0 <= k < all.len() implies auto_views(all)[k] != key by {
            if k < head.len() {
                assert(all[k] == head[k]);
                assert(auto_views(head)[k] == head[k]@);
                assert(!auto_views(head).contains(key));
            }
        }
        if !has_auto(keys, key) {
            assert(auto_views(keys)[keys.len() - 1] != key);
            assert(!has_auto(keys.drop_last(), key)) by {
                assert forall|k: int| 0 <= k < keys.len() - 1 implies auto_views(
                    keys.drop_last(),
                )[k] != key by {
                    assert(auto_views(keys)[k] != key);
                }
            }
            assert(keys.drop_last().push(keys.last()) =~= keys);
        }
    } else {
        assert(without_auto(keys, key) =~= keys);
    }
}

/// Folding a group twice leaves every group as it was: what is stored about
/// it goes away again rather than piling up.
pub proof fn folding_twice_changes_nothing(
    g0: WorkspaceGroups,
    g1: WorkspaceGroups,
    g2: WorkspaceGroups,
    key: Option<GroupKey>,
)
    requires
        g0.toggled(key, g1),
        g1.toggled(key, g2),
        key matches Some(GroupKey::Auto(k)) ==> !has_auto(g0.auto_collapsed@, k@),
    ensures
        g2.pinned@ == g0.pinned@,
        g2.auto_collapsed@ == g0.auto_collapsed@,
        g2.ungrouped_collapsed == g0.ungrouped_collapsed,
{
    match key {
        Some(GroupKey::Pinned(id)) => {
            lemma_place_of_group(g0.pinned@, id);
            lemma_place_of_group(g1.pinned@, id);
            if let Some(i) = place_of_group(g0.pinned@, id) {
                assert(g1.pinned@[i].id == id);
                let j = place_of_group(g1.pinned@, id)->0;
                if j < i {
                    assert(g1.pinned@[j] == g0.pinned@[j]);
                }
                assert(j == i);
                assert(g2.pinned@ =~= g0.pinned@);
            } else {
                assert(g2.pinned@ =~= g0.pinned@);
            }
        },
        Some(GroupKey::Auto(k)) => {
            let a0 = g0.auto_collapsed@;
            let a1 = g1.auto_collapsed@;
            assert(a1 =~= a0.push(k));
            assert(auto_views(a1)[a0.len() as int] == k@);
            assert(has_auto(a1, k@));
            lemma_without_is_gone(a0, k@);
            assert(a1.drop_last() =~= a0);
        },
        None => {},
    }
}

/// Folding switches the group between folded and not, and leaves every other
/// group as it was.
pub proof fn folding_switches_one_group(
    g0: WorkspaceGroups,
    g1: WorkspaceGroups,
    key: Option<GroupKey>,
    other: Option<GroupView>,
)
    requires
        g0.toggled(key, g1),
        key matches Some(GroupKey::Pinned(id)) ==> place_of_group(g0.pinned@, id) is Some,
    ensures
        g1.folded(groups::option_view(key)) == !g0.folded(groups::option_view(key)),
        other != groups::option_view(key) ==> g1.folded(other) == g0.folded(other),
{
    match key {
        Some(GroupKey::Pinned(id)) => {
            let i = place_of_group(g0.pinned@, id)->0;
            lemma_place_of_group(g0.pinned@, id);
            lemma_place_of_group(g1.pinned@, id);
            assert(g1.pinned@[i].id == id);
            let j = place_of_group(g1.pinned@, id)->0;
            if j < i {
                assert(g1.pinned@[j] == g0.pinned@[j]);
            }
            if let Some(GroupView::Pinned(o)) = other {
                if o != id {
                    lemma_place_of_group(g0.pinned@, o);
                    lemma_place_of_group(g1.pinned@, o);
                    assert forall|k: int| 0 <= k < g0.pinned@.len() implies (
                    #[trigger] g1.pinned@[k]).id == g0.pinned@[k].id by {
                        if k != i {
                            assert(g1.pinned@[k] == g0.pinned@[k]);
                        }
                    }
                    let a = place_of_group(g0.pinned@, o);
                    let b = place_of_group(g1.pinned@, o);
                    if a is Some {
                        assert(g1.pinned@[a->0].id == o);
                        assert(b is Some);
                        if b->0 < a->0 {
                            assert(g0.pinned@[b->0].id != o);
                        }
                        if a->0 < b->0 {
                            assert(g1.pinned@[a->0].id != o);
                        }
                        assert(a->0 != i);
                        assert(g1.pinned@[a->0] == g0.pinned@[a->0]);
                    } else if b is Some {
                        assert(g0.pinned@[b->0].id != o);
                    }
                }
            }
        },
        Some(GroupKey::Auto(k)) => {
            let a0 = g0.auto_collapsed@;
            let a1 = g1.auto_collapsed@;
            lemma_without_is_gone(a0, k@);
            if !has_auto(a0, k@) {
                assert(auto_views(a1)[a0.len() as int] == k@);
            }
            if let Some(GroupView::Auto(o)) = other {
                if o != k@ {
                    lemma_without_keeps(a0, k@, o);
                    if !has_auto(a0, k@) {
                        assert(auto_views(a1) =~= auto_views(a0).push(k@));
                        if auto_views(a0).contains(o) {
                            let w = choose|w: int|
                                0 <= w < a0.len() && auto_views(a0)[w] == o;
                            assert(auto_views(a1)[w] == o);
                        }
                    }
                }
            }
        },
        None => {},
    }
}

proof fn lemma_without_keeps(keys: Seq<AutoKey>, key: AutoView, other: AutoView)
    requires
        other != key,
    ensures
        has_auto(without_auto(keys, key), other) == has_auto(keys, other),
    decreases keys.len(),
{
    if keys.len() > 0 {
        lemma_without_keeps(keys.drop_last(), key, other);
        let head = without_auto(keys.drop_last(), key);
        let all = without_auto(keys, key);
        assert(auto_views(keys) =~= auto_views(keys.drop_last()).push(keys.last()@));
        if has_auto(keys, other) {
            let w = choose|w: int| 0 <= w < keys.len() && auto_views(keys)[w] == other;
            if w < keys.len() - 1 {
                assert(auto_views(keys.drop_last())[w] == other);
                let v = choose|v: int| 0 <= v < head.len() && auto_views(head)[v] == other;
                assert(auto_views(all)[v] == other);
            } else {
                assert(auto_views(all)[head.len() as int] == other);
            }
        }
        if has_auto(all, other) {
            let w = choose|w: int| 0 <= w < all.len() && auto_views(all)[w] == other;
            if w < head.len() {
                assert(auto_views(head)[w] == other);
                let v = choose|v: int|
                    0 <= v < keys.len() - 1 && auto_views(keys.drop_last())[v] == other;
                assert(auto_views(keys)[v] == other);
            } else {
                assert(auto_views(keys)[keys.len() - 1] == other);
            }
        }
    }
}

/// Of folders that are equally deep, the group that is kept first takes a tab.
pub proof fn of_equally_deep_folders_the_first_wins(
    p: Seq<PinnedGroup>,
    cwd: Option<Seq<ComponentView>>,
    home: Option<Seq<ComponentView>>,
    k: int,
)
    requires
        deepest(p, cwd, home) is Some,
        0 <= k < deepest(p, cwd, home)->0,
        p[k].holds(cwd, home),
    ensures
        p[k].folder_depth() < p[deepest(p, cwd, home)->0].folder_depth(),
    decreases p.len(),
{
    let front = p.drop_last();
    the_deepest_folder_wins(front, cwd, home);
    the_deepest_folder_wins(p, cwd, home);
    assert(forall|i: int| 0 <= i < front.len() ==> front[i] == p[i]);
    if deepest(p, cwd, home) == deepest(front, cwd, home) {
        of_equally_deep_folders_the_first_wins(front, cwd, home, k);
    } else {
        assert(front[k].holds(cwd, home));
    }
}

/// A tab is inside a kept group exactly where the group has a folder, and the
/// tab's directory or its repository is that folder or stands below it.
pub proof fn a_group_holds_what_is_below_its_folder(
    g: PinnedGroup,
    cwd: Option<Seq<ComponentView>>,
    home: Option<Seq<ComponentView>>,
    below: Seq<ComponentView>,
)
    ensures
        g.folder is None ==> !g.holds(cwd, home),
        g.folder is Some && cwd == Some(g.folder->0@ + below) ==> g.holds(cwd, home),
        g.folder is Some && home == Some(g.folder->0@ + below) ==> g.holds(cwd, home),
        g.holds(cwd, home) ==> g.folder is Some && ((cwd is Some && g.folder->0@.is_prefix_of(
            cwd->0,
        )) || (home is Some && g.folder->0@.is_prefix_of(home->0))),
        g.folder is Some ==> g.folder_depth() == g.folder->0@.len(),
{
    if g.folder is Some {
        let f = g.folder->0@;
        assert((f + below).take(f.len() as int) =~= f);
        if cwd is Some && paths::within(cwd->0, f) {
            assert(f.is_prefix_of(cwd->0));
        }
        if home is Some && paths::within(home->0, f) {
            assert(f.is_prefix_of(home->0));
        }
    }
}

/// A tab is drawn in the group it is kept in, for as long as that group is
/// there, whatever else is drawn. Only a tab that is kept in none is drawn in
/// the group that follows from where it is, and only while such groups are
/// drawn.
pub proof fn a_kept_group_goes_before_a_worked_out_one(
    group: Option<u128>,
    pinned: Seq<PinnedGroup>,
    auto_grouping: bool,
    auto: Option<AutoView>,
)
    ensures
        group is Some && (exists|k: int|
            0 <= k < pinned.len() && (#[trigger] pinned[k]).id == group->0) ==> drawn_in(
            group,
            pinned,
            auto_grouping,
            auto,
        ) == Some(GroupView::Pinned(group->0)),
        (group is None || forall|k: int|
            0 <= k < pinned.len() ==> (#[trigger] pinned[k]).id != group->0) ==> {
            &&& auto_grouping && auto is Some ==> drawn_in(group, pinned, auto_grouping, auto)
                == Some(GroupView::Auto(auto->0))
            &&& !auto_grouping || auto is None ==> drawn_in(group, pinned, auto_grouping, auto)
                is None
        },
{
    if group is Some {
        lemma_place_of_group(pinned, group->0);
    }
}

proof fn lemma_unnamed_at(p: Seq<PinnedGroup>, i: int)
    requires
        0 <= i < p.len(),
        p[i].name is None,
        p[i].folder is Some,
    ensures
        unnamed_folders(p.take(i)).len() < unnamed_folders(p).len(),
        unnamed_folders(p)[unnamed_folders(p.take(i)).len() as int] == p[i].folder->0,
    decreases p.len(),
{
    let front = p.drop_last();
    if i < front.len() {
        assert(front[i] == p[i]);
        assert(front.take(i) =~= p.take(i));
        lemma_unnamed_at(front, i);
    } else {
        assert(p.take(i) =~= front);
    }
}

/// A kept group reads the name it was given; one that was given none reads its
/// own folder's name, told apart from the other folders that are read so.
pub proof fn a_group_reads_its_own_name(p: Seq<PinnedGroup>, i: int)
    requires
        0 <= i < p.len(),
    ensures
        p[i].name is Some ==> pinned_names_of(p)[i] == p[i].name->0@,
        p[i].name is None && p[i].folder is Some ==> exists|k: int|
            0 <= k < unnamed_folders(p).len() && #[trigger] unnamed_folders(p)[k]
                == p[i].folder->0 && pinned_names_of(p)[i] == groups::group_names_of(
                unnamed_folders(p),
            )[k],
{
    if p[i].name is None && p[i].folder is Some {
        lemma_unnamed_at(p, i);
        let k = unnamed_folders(p.take(i)).len() as int;
        assert(unnamed_folders(p)[k] == p[i].folder->0);
    }
}

proof fn lemma_roots_at(keys: Seq<AutoKey>, i: int)
    requires
        0 <= i < keys.len(),
        keys[i] is Repo,
    ensures
        repo_roots(keys.take(i)).len() < repo_roots(keys).len(),
        repo_roots(keys)[repo_roots(keys.take(i)).len() as int] == keys[i]->Repo_0,
    decreases keys.len(),
{
    let front = keys.drop_last();
    if i < front.len() {
        assert(front[i] == keys[i]);
        assert(front.take(i) =~= keys.take(i));
        lemma_roots_at(front, i);
    } else {
        assert(keys.take(i) =~= front);
    }
}

/// A worked-out group reads its host, or the name of its own repository's
/// directory, told apart from the other repositories.
pub proof fn a_worked_out_group_reads_where_it_is(keys: Seq<AutoKey>, i: int)
    requires
        0 <= i < keys.len(),
    ensures
        keys[i] is SshHost ==> auto_names_of(keys)[i] == keys[i]->SshHost_0@,
        keys[i] is Repo ==> exists|k: int|
            0 <= k < repo_roots(keys).len() && #[trigger] repo_roots(keys)[k] == keys[i]->Repo_0
                && auto_names_of(keys)[i] == groups::group_names_of(repo_roots(keys))[k],
{
    if keys[i] is Repo {
        lemma_roots_at(keys, i);
        let k = repo_roots(keys.take(i)).len() as int;
        assert(repo_roots(keys)[k] == keys[i]->Repo_0);
    }
}

/// A tab walks into a group exactly when it is seen inside one that it was not
/// seen in just before; leaving is no entry, and the first look only records.
pub proof fn an_entry_is_a_change_of_place(w: EntryWatch, inside: Option<u128>)
    ensures
        w.entered(inside) is Some <==> !w.baseline && inside is Some && inside != w.at,
        w.entered(inside) is Some ==> w.entered(inside) == inside,
{
}

/// Unfolding a group leaves every other folded group as it was.
pub proof fn only_one_group_is_unfolded(keys: Seq<AutoKey>, key: AutoView)
    ensures
        without_auto(keys, key) == keys.filter(|k: AutoKey| k@ != key),
    decreases keys.len(),
{
    reveal(Seq::filter);
    if keys.len() > 0 {
        only_one_group_is_unfolded(keys.drop_last(), key);
    }
}

} // verus!
