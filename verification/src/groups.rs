//! The groups of a workspace's tabs: the ones a user keeps, the ones that
//! follow from where a tab is, and what their headers read.

use vstd::prelude::*;
use vstd::string::*;
use crate::paths;
use crate::paths::{ComponentView, FolderPath};
use crate::text;

verus! {

/// What a tab is grouped by on its own: the repository its directory is in,
/// or the host it is on.
#[derive(Clone, Debug, PartialEq, Eq)]
pub enum AutoKey {
    Repo(FolderPath),
    SshHost(String),
}

/// A group of the sidebar: one the user keeps, or one worked out.
#[derive(Clone, Debug, PartialEq, Eq)]
pub enum GroupKey {
    Pinned(u128),
    Auto(AutoKey),
}

pub enum AutoView {
    Repo(Seq<ComponentView>),
    SshHost(Seq<char>),
}

pub enum GroupView {
    Pinned(u128),
    Auto(AutoView),
}

impl View for AutoKey {
    type V = AutoView;

    open spec fn view(&self) -> AutoView {
        match self {
            AutoKey::Repo(p) => AutoView::Repo(p@),
            AutoKey::SshHost(s) => AutoView::SshHost(s@),
        }
    }
}

impl View for GroupKey {
    type V = GroupView;

    open spec fn view(&self) -> GroupView {
        match self {
            GroupKey::Pinned(id) => GroupView::Pinned(*id),
            GroupKey::Auto(k) => GroupView::Auto(k@),
        }
    }
}

impl AutoKey {
    pub fn copy(&self) -> (r: AutoKey)
        ensures
            r == *self,
    {
        match self {
            AutoKey::Repo(p) => AutoKey::Repo(p.copy()),
            AutoKey::SshHost(s) => AutoKey::SshHost(s.clone()),
        }
    }

    pub fn same(&self, other: &AutoKey) -> (r: bool)
        ensures
            r == (self@ == other@),
    {
        match self {
            AutoKey::Repo(a) => match other {
                AutoKey::Repo(b) => a.same(b),
                AutoKey::SshHost(_) => false,
            },
            AutoKey::SshHost(a) => match other {
                AutoKey::Repo(_) => false,
                AutoKey::SshHost(b) => text::same(a.as_str(), b.as_str()),
            },
        }
    }
}

impl GroupKey {
    pub fn copy(&self) -> (r: GroupKey)
        ensures
            r == *self,
    {
        match self {
            GroupKey::Pinned(id) => GroupKey::Pinned(*id),
            GroupKey::Auto(k) => GroupKey::Auto(k.copy()),
        }
    }

    pub fn same(&self, other: &GroupKey) -> (r: bool)
        ensures
            r == (self@ == other@),
    {
        match self {
            GroupKey::Pinned(a) => match other {
                GroupKey::Pinned(b) => *a == *b,
                GroupKey::Auto(_) => false,
            },
            GroupKey::Auto(a) => match other {
                GroupKey::Pinned(_) => false,
                GroupKey::Auto(b) => a.same(b),
            },
        }
    }

    /// The kept group this names.
    pub fn pinned(&self) -> (r: Option<u128>)
        ensures
            r == match self@ {
                GroupView::Pinned(id) => Some(id),
                GroupView::Auto(_) => None,
            },
    {
        match self {
            GroupKey::Pinned(id) => Some(*id),
            GroupKey::Auto(_) => None,
        }
    }
}

/// The group of a tab, `None` where it has none.
pub open spec fn option_view(k: Option<GroupKey>) -> Option<GroupView> {
    match k {
        Some(k) => Some(k@),
        None => None,
    }
}

pub open spec fn auto_view(k: Option<AutoKey>) -> Option<AutoView> {
    match k {
        Some(k) => Some(k@),
        None => None,
    }
}

/// The groups of a list of tabs.
pub open spec fn key_views(keys: Seq<Option<GroupKey>>) -> Seq<Option<GroupView>> {
    Seq::new(keys.len(), |i: int| option_view(keys[i]))
}

pub fn same_option(a: &Option<GroupKey>, b: &Option<GroupKey>) -> (r: bool)
    ensures
        r == (option_view(*a) == option_view(*b)),
{
    match a {
        Some(x) => match b {
            Some(y) => x.same(y),
            None => false,
        },
        None => b.is_none(),
    }
}

pub fn copy_key(k: &Option<GroupKey>) -> (r: Option<GroupKey>)
    ensures
        r == *k,
{
    match k {
        Some(x) => Some(x.copy()),
        None => None,
    }
}

pub fn copy_auto(k: &Option<AutoKey>) -> (r: Option<AutoKey>)
    ensures
        r == *k,
{
    match k {
        Some(x) => Some(x.copy()),
        None => None,
    }
}

// ---- What headers read ----

/// The last `depth` components of a path, or the path itself where it has no
/// component to name it by.
pub open spec fn tail_name(names: Seq<Seq<char>>, path: Seq<char>, depth: nat) -> Seq<char> {
    if names.len() == 0 {
        path
    } else if depth >= names.len() {
        text::joined(names, seq!['/'])
    } else {
        text::joined(names.skip(names.len() - depth), seq!['/'])
    }
}

/// What each path is called when each shows so many components.
pub open spec fn names_at(paths: Seq<FolderPath>, depth: Seq<nat>) -> Seq<Seq<char>> {
    Seq::new(paths.len(), |i: int| tail_name(paths::names_of(paths[i]@), paths[i].text@, depth[i]))
}

/// Whether another path is called the same.
pub open spec fn collides(names: Seq<Seq<char>>, i: int) -> bool {
    exists|j: int| 0 <= j < names.len() && j != i && #[trigger] names[j] == names[i]
}

/// Whether a path has to show one more component: it is called like another,
/// and has one left to show.
pub open spec fn must_grow(paths: Seq<FolderPath>, depth: Seq<nat>, i: int) -> bool {
    collides(names_at(paths, depth), i) && depth[i] < paths::names_of(paths[i]@).len()
}

/// One more component for each path that needs it, all at once.
pub open spec fn grown(paths: Seq<FolderPath>, depth: Seq<nat>) -> Seq<nat> {
    Seq::new(
        paths.len(),
        |i: int|
            if must_grow(paths, depth, i) {
                depth[i] + 1
            } else {
                depth[i]
            },
    )
}

/// How many components are still left to show.
pub open spec fn slack(paths: Seq<FolderPath>, depth: Seq<nat>) -> nat
    decreases paths.len(),
{
    if paths.len() == 0 {
        0
    } else {
        let i = paths.len() - 1;
        let own: nat = if depth[i] < paths::names_of(paths[i]@).len() {
            (paths::names_of(paths[i]@).len() - depth[i]) as nat
        } else {
            0
        };
        slack(paths.drop_last(), depth) + own
    }
}

pub proof fn lemma_slack_shrinks(
    all: Seq<FolderPath>,
    n: int,
    depth: Seq<nat>,
)
    requires
        0 <= n <= all.len(),
        depth.len() == all.len(),
    ensures
        slack(all.take(n), grown(all, depth)) <= slack(all.take(n), depth),
        (exists|i: int| 0 <= i < n && must_grow(all, depth, i)) ==> slack(
            all.take(n),
            grown(all, depth),
        ) < slack(all.take(n), depth),
    decreases n,
{
    if n > 0 {
        lemma_slack_shrinks(all, n - 1, depth);
        assert(all.take(n).drop_last() =~= all.take(n - 1));
        assert(all.take(n)[n - 1] == all[n - 1]);
        if exists|i: int| 0 <= i < n && must_grow(all, depth, i) {
            let w = choose|i: int| 0 <= i < n && must_grow(all, depth, i);
            if w < n - 1 {
                assert(0 <= w < n - 1 && must_grow(all, depth, w));
            }
        }
    }
}

/// The components each path ends up showing: as long as some path is called
/// like another and has more to show, it shows more.
pub open spec fn settled(paths: Seq<FolderPath>, depth: Seq<nat>) -> Seq<nat>
    decreases slack(paths, depth),
{
    if depth.len() == paths.len() && exists|i: int|
        0 <= i < paths.len() && must_grow(paths, depth, i) {
        proof {
            lemma_slack_shrinks(paths, paths.len() as int, depth);
            assert(paths.take(paths.len() as int) =~= paths);
        }
        settled(paths, grown(paths, depth))
    } else {
        depth
    }
}

pub open spec fn ones(n: nat) -> Seq<nat> {
    Seq::new(n, |i: int| 1nat)
}

/// What each path is called: its last component, lengthened while two paths
/// are called the same.
pub open spec fn group_names_of(paths: Seq<FolderPath>) -> Seq<Seq<char>> {
    names_at(paths, settled(paths, ones(paths.len())))
}

pub open spec fn depths(d: Seq<usize>) -> Seq<nat> {
    Seq::new(d.len(), |i: int| d[i] as nat)
}

fn slash() -> (r: String)
    ensures
        r@ == seq!['/'],
{
    let mut s = String::new();
    s.push('/');
    assert(s@ =~= seq!['/']);
    s
}

fn name_at(names: &Vec<String>, path: &FolderPath, depth: usize) -> (r: String)
    ensures
        r@ == tail_name(text::views(names@), path.text@, depth as nat),
{
    if names.len() == 0 {
        return path.text.clone();
    }
    let n: usize = names.len();
    let from: usize = if depth >= n {
        0
    } else {
        n - depth
    };
    let part = vstd::slice::slice_subrange(names.as_slice(), from, n);
    let sep = slash();
    proof {
        let nv = text::views(names@);
        if depth >= n {
            assert(text::views(part@) =~= nv);
        } else {
            assert(text::views(part@) =~= nv.skip(n - depth));
        }
    }
    text::join(part, sep.as_str())
}

/// What each path is called.
pub fn group_names(roots: &Vec<FolderPath>) -> (r: Vec<String>)
    ensures
        text::views(r@) == group_names_of(roots@),
{
    let ghost paths = roots@;
    let n: usize = roots.len();
    let mut comps: Vec<Vec<String>> = Vec::new();
    let mut depth: Vec<usize> = Vec::new();
    let mut i: usize = 0;
    while i < n
        invariant
            i <= n == roots@.len(),
            paths == roots@,
            comps@.len() == i,
            depth@.len() == i,
            forall|k: int| 0 <= k < i ==> text::views((#[trigger] comps@[k])@) == paths::names_of(paths[k]@),
            forall|k: int| 0 <= k < i ==> #[trigger] depth@[k] == 1,
        decreases n - i,
    {
        comps.push(roots[i].names());
        depth.push(1);
        i = i + 1;
    }
    assert(depths(depth@) =~= ones(n as nat));
    loop
        invariant
            n == roots@.len(),
            paths == roots@,
            comps@.len() == n,
            depth@.len() == n,
            forall|k: int| 0 <= k < n ==> text::views((#[trigger] comps@[k])@) == paths::names_of(paths[k]@),
            settled(paths, depths(depth@)) == settled(paths, ones(n as nat)),
        decreases slack(paths, depths(depth@)),
    {
        let ghost d0 = depths(depth@);
        let mut names: Vec<String> = Vec::new();
        let mut i: usize = 0;
        while i < n
            invariant
                i <= n == roots@.len(),
                paths == roots@,
                comps@.len() == n,
                depth@.len() == n,
                d0 == depths(depth@),
                forall|k: int|
                    0 <= k < n ==> text::views((#[trigger] comps@[k])@) == paths::names_of(paths[k]@),
                text::views(names@) == names_at(paths, d0).take(i as int),
            decreases n - i,
        {
            let ghost before = text::views(names@);
            let name = name_at(&comps[i], &roots[i], depth[i]);
            assert(d0[i as int] == depth@[i as int] as nat);
            assert(name@ == names_at(paths, d0)[i as int]);
            names.push(name);
            assert(text::views(names@) =~= before.push(name@));
            assert(text::views(names@) =~= names_at(paths, d0).take(i + 1));
            i = i + 1;
        }
        let ghost shown = names_at(paths, d0);
        assert(text::views(names@) =~= shown);
        let mut grew: bool = false;
        let mut i: usize = 0;
        while i < n
            invariant
                i <= n == paths.len(),
                comps@.len() == n,
                depth@.len() == n,
                d0.len() == n,
                names@.len() == n,
                shown == names_at(paths, d0),
                text::views(names@) == shown,
                forall|k: int|
                    0 <= k < n ==> text::views((#[trigger] comps@[k])@) == paths::names_of(paths[k]@),
                forall|k: int| 0 <= k < i ==> (#[trigger] depth@[k]) as nat == grown(paths, d0)[k],
                forall|k: int| i <= k < n ==> (#[trigger] depth@[k]) as nat == d0[k],
                grew == exists|k: int| 0 <= k < i && must_grow(paths, d0, k),
            decreases n - i,
        {
            let mut j: usize = 0;
            let mut hit: bool = false;
            while j < n
                invariant
                    j <= n,
                    i < n,
                    names@.len() == n,
                    text::views(names@) == shown,
                    hit == exists|k: int| 0 <= k < j && k != i && #[trigger] shown[k] == shown[i as int],
                decreases n - j,
            {
                if j != i && text::same(names[j].as_str(), names[i].as_str()) {
                    hit = true;
                    assert(shown[j as int] == shown[i as int]);
                }
                j = j + 1;
            }
            assert(hit == collides(shown, i as int));
            assert(text::views(comps@[i as int]@).len() == comps@[i as int]@.len());
            let ghost was = grew;
            if hit && depth[i] < comps[i].len() {
                assert(must_grow(paths, d0, i as int));
                depth.set(i, depth[i] + 1);
                grew = true;
            } else {
                assert(!must_grow(paths, d0, i as int));
                assert(was == exists|k: int| 0 <= k < i + 1 && must_grow(paths, d0, k));
            }
            i = i + 1;
        }
        if !grew {
            assert(settled(paths, d0) == d0);
            assert(text::views(names@) == group_names_of(paths));
            return names;
        }
        proof {
            assert(depths(depth@) =~= grown(paths, d0));
            lemma_slack_shrinks(paths, n as int, d0);
            assert(paths.take(n as int) =~= paths);
            assert(settled(paths, d0) == settled(paths, grown(paths, d0)));
        }
    }
}

// ---- What holds of the names ----

proof fn lemma_settled_rests(paths: Seq<FolderPath>, depth: Seq<nat>)
    requires
        depth.len() == paths.len(),
    ensures
        settled(paths, depth).len() == paths.len(),
        forall|i: int| 0 <= i < paths.len() ==> !must_grow(paths, settled(paths, depth), i),
    decreases slack(paths, depth),
{
    if exists|i: int| 0 <= i < paths.len() && must_grow(paths, depth, i) {
        lemma_slack_shrinks(paths, paths.len() as int, depth);
        assert(paths.take(paths.len() as int) =~= paths);
        lemma_settled_rests(paths, grown(paths, depth));
    }
}

proof fn lemma_pieces_plain(s: Seq<char>, sep: char)
    requires
        !s.contains(sep),
    ensures
        text::pieces(s, sep) == seq![s],
    decreases s.len(),
{
    if s.len() > 0 {
        assert(!s.drop_last().contains(sep)) by {
            assert forall|k: int| 0 <= k < s.len() - 1 implies s.drop_last()[k] != sep by {
                assert(s[k] != sep);
            }
        }
        lemma_pieces_plain(s.drop_last(), sep);
        assert(s[s.len() - 1] != sep);
        assert(s.drop_last().push(s.last()) =~= s);
        assert(text::pieces(s, sep) =~= seq![s]);
    } else {
        assert(s =~= Seq::<char>::empty());
    }
}

proof fn lemma_pieces_of_joined(c: Seq<Seq<char>>)
    requires
        c.len() > 0,
        forall|k: int| 0 <= k < c.len() ==> !(#[trigger] c[k]).contains('/'),
    ensures
        text::pieces(text::joined(c, seq!['/']), '/') == c,
    decreases c.len(),
{
    if c.len() == 1 {
        lemma_pieces_plain(c[0], '/');
        assert(seq![c[0]] =~= c);
    } else {
        assert forall|k: int| 0 <= k < c.len() - 1 implies !(#[trigger] c.drop_last()[k]).contains(
            '/',
        ) by {
            assert(!c[k].contains('/'));
        }
        lemma_pieces_of_joined(c.drop_last());
        assert(!c[c.len() - 1].contains('/'));
        text::lemma_pieces_behind(text::joined(c.drop_last(), seq!['/']), c.last(), '/');
        assert(c.drop_last().push(c.last()) =~= c);
    }
}

/// Two paths that differ in what they name are never called the same.
pub proof fn different_paths_read_differently(paths: Seq<FolderPath>, i: int, j: int)
    requires
        0 <= i < paths.len(),
        0 <= j < paths.len(),
        i != j,
        paths::names_of(paths[i]@).len() > 0,
        paths::names_of(paths[j]@).len() > 0,
        paths::names_of(paths[i]@) != paths::names_of(paths[j]@),
    ensures
        group_names_of(paths)[i] != group_names_of(paths)[j],
{
    let depth = settled(paths, ones(paths.len()));
    lemma_settled_rests(paths, ones(paths.len()));
    let names = names_at(paths, depth);
    if names[i] == names[j] {
        assert(collides(names, i)) by {
            assert(names[j] == names[i]);
        }
        assert(collides(names, j)) by {
            assert(names[i] == names[j]);
        }
        assert(!must_grow(paths, depth, i));
        assert(!must_grow(paths, depth, j));
        paths::lemma_names_have_no_slash(paths[i]);
        paths::lemma_names_have_no_slash(paths[j]);
        lemma_pieces_of_joined(paths::names_of(paths[i]@));
        lemma_pieces_of_joined(paths::names_of(paths[j]@));
    }
}

proof fn lemma_long_joins_have_a_slash(c: Seq<Seq<char>>)
    requires
        c.len() >= 2,
    ensures
        text::joined(c, seq!['/']).contains('/'),
{
    let head = text::joined(c.drop_last(), seq!['/']);
    let all = text::joined(c, seq!['/']);
    assert(all[head.len() as int] == '/');
}

proof fn lemma_unshared_stays(paths: Seq<FolderPath>, depth: Seq<nat>, i: int)
    requires
        0 <= i < paths.len(),
        depth.len() == paths.len(),
        forall|k: int| 0 <= k < paths.len() ==> #[trigger] depth[k] >= 1,
        depth[i] == 1,
        paths::names_of(paths[i]@).len() > 0,
        !collides(names_at(paths, ones(paths.len())), i),
    ensures
        settled(paths, depth)[i] == 1,
    decreases slack(paths, depth),
{
    let first = names_at(paths, ones(paths.len()));
    let names = names_at(paths, depth);
    paths::lemma_names_have_no_slash(paths[i]);
    let own = paths::names_of(paths[i]@);
    assert(names[i] == own.last()) by {
        if own.len() == 1 {
            assert(text::joined(own, seq!['/']) == own[0]);
        } else {
            assert(own.skip(own.len() - 1) =~= seq![own.last()]);
            assert(text::joined(own.skip(own.len() - 1), seq!['/']) == own.last());
        }
    }
    assert(!own[own.len() - 1].contains('/'));
    assert(first[i] == names[i]);
    assert(!collides(names, i)) by {
        assert forall|j: int| 0 <= j < names.len() && j != i implies #[trigger] names[j]
            != names[i] by {
            let c = paths::names_of(paths[j]@);
            if c.len() >= 2 && depth[j] >= 2 {
                if depth[j] >= c.len() {
                    lemma_long_joins_have_a_slash(c);
                } else {
                    lemma_long_joins_have_a_slash(c.skip(c.len() - depth[j]));
                }
            } else {
                assert(names[j] == first[j]);
                assert(first[j] != first[i]);
            }
        }
    }
    if exists|k: int| 0 <= k < paths.len() && must_grow(paths, depth, k) {
        lemma_slack_shrinks(paths, paths.len() as int, depth);
        assert(paths.take(paths.len() as int) =~= paths);
        lemma_unshared_stays(paths, grown(paths, depth), i);
    }
}

/// A path whose last component is not shared is called by that component:
/// only what collides is lengthened.
pub proof fn only_collisions_are_lengthened(paths: Seq<FolderPath>, i: int)
    requires
        0 <= i < paths.len(),
        paths::names_of(paths[i]@).len() > 0,
        !collides(names_at(paths, ones(paths.len())), i),
    ensures
        group_names_of(paths)[i] == paths::names_of(paths[i]@).last(),
{
    lemma_unshared_stays(paths, ones(paths.len()), i);
    let own = paths::names_of(paths[i]@);
    if own.len() > 1 {
        assert(own.skip(own.len() - 1) =~= seq![own.last()]);
    }
}

/// How many components a path shows in the end.
pub open spec fn shown_depth(paths: Seq<FolderPath>, i: int) -> nat {
    settled(paths, ones(paths.len()))[i]
}

/// The last `m` components of a path.
pub open spec fn tail_of(path: FolderPath, m: nat) -> Seq<Seq<char>> {
    let names = paths::names_of(path@);
    names.skip(names.len() - m)
}

/// Whether `b` ends in the last `m` components of `a`; a path that names
/// nothing reads as it is written.
pub open spec fn shares_tail(a: FolderPath, m: nat, b: FolderPath) -> bool {
    let names = paths::names_of(b@);
    if names.len() == 0 {
        b.text@ == text::joined(tail_of(a, m), seq!['/'])
    } else {
        m <= names.len() && tail_of(a, m) == tail_of(b, m)
    }
}

/// Whether another path ends in the last `m` components of the `i`-th.
pub open spec fn tail_is_shared(paths: Seq<FolderPath>, i: int, m: nat) -> bool {
    exists|j: int| 0 <= j < paths.len() && j != i && #[trigger] shares_tail(paths[i], m, paths[j])
}

spec fn each_length_was_needed(paths: Seq<FolderPath>, depth: Seq<nat>) -> bool {
    forall|i: int|
        0 <= i < paths.len() ==> #[trigger] depth[i] >= 1 && (depth[i] > 1 ==> depth[i]
            <= paths::names_of(paths[i]@).len() && forall|m: nat|
            1 <= m < depth[i] ==> #[trigger] tail_is_shared(paths, i, m))
}

proof fn lemma_collision_shares_a_tail(paths: Seq<FolderPath>, depth: Seq<nat>, i: int)
    requires
        0 <= i < paths.len(),
        depth.len() == paths.len(),
        forall|k: int| 0 <= k < paths.len() ==> #[trigger] depth[k] >= 1,
        must_grow(paths, depth, i),
    ensures
        tail_is_shared(paths, i, depth[i]),
{
    let names = names_at(paths, depth);
    let j = choose|j: int| 0 <= j < names.len() && j != i && #[trigger] names[j] == names[i];
    let a = paths::names_of(paths[i]@);
    let b = paths::names_of(paths[j]@);
    let m = depth[i];
    let own = tail_of(paths[i], m);
    paths::lemma_names_have_no_slash(paths[i]);
    paths::lemma_names_have_no_slash(paths[j]);
    assert(names[i] == text::joined(own, seq!['/']));
    assert forall|k: int| 0 <= k < own.len() implies !(#[trigger] own[k]).contains('/') by {
        assert(own[k] == a[k + (a.len() - m)]);
    }
    lemma_pieces_of_joined(own);
    if b.len() > 0 {
        let e: nat = if depth[j] >= b.len() {
            b.len()
        } else {
            depth[j]
        };
        let other = tail_of(paths[j], e);
        assert(b.skip(0) =~= b);
        assert(names[j] == text::joined(other, seq!['/']));
        assert forall|k: int| 0 <= k < other.len() implies !(#[trigger] other[k]).contains('/') by {
            assert(other[k] == b[k + (b.len() - e)]);
        }
        lemma_pieces_of_joined(other);
        assert(own == other);
        assert(own.len() == m && other.len() == e);
    }
    assert(shares_tail(paths[i], m, paths[j]));
}

proof fn lemma_each_length_was_needed(paths: Seq<FolderPath>, depth: Seq<nat>)
    requires
        depth.len() == paths.len(),
        each_length_was_needed(paths, depth),
    ensures
        each_length_was_needed(paths, settled(paths, depth)),
    decreases slack(paths, depth),
{
    if exists|i: int| 0 <= i < paths.len() && must_grow(paths, depth, i) {
        lemma_slack_shrinks(paths, paths.len() as int, depth);
        assert(paths.take(paths.len() as int) =~= paths);
        let next = grown(paths, depth);
        assert forall|i: int| 0 <= i < paths.len() implies #[trigger] next[i] >= 1 && (next[i] > 1
            ==> next[i] <= paths::names_of(paths[i]@).len() && forall|m: nat|
            1 <= m < next[i] ==> #[trigger] tail_is_shared(paths, i, m)) by {
            assert(depth[i] >= 1);
            if must_grow(paths, depth, i) {
                lemma_collision_shares_a_tail(paths, depth, i);
                assert forall|m: nat| 1 <= m < next[i] implies #[trigger] tail_is_shared(
                    paths,
                    i,
                    m,
                ) by {
                    if m < depth[i] {
                    } else {
                        assert(m == depth[i]);
                    }
                }
            }
        }
        lemma_each_length_was_needed(paths, next);
    }
}

/// No name is longer than it has to be: at every shorter length, another path
/// ends in the same components.
pub proof fn a_longer_name_was_needed(paths: Seq<FolderPath>, i: int, m: nat)
    requires
        0 <= i < paths.len(),
        1 <= m < shown_depth(paths, i),
    ensures
        tail_is_shared(paths, i, m),
        shown_depth(paths, i) <= paths::names_of(paths[i]@).len(),
        group_names_of(paths)[i] == text::joined(
            tail_of(paths[i], shown_depth(paths, i)),
            seq!['/'],
        ),
{
    let first = ones(paths.len());
    assert(each_length_was_needed(paths, first));
    lemma_each_length_was_needed(paths, first);
    let d = settled(paths, first);
    assert(d[i] > 1);
    let names = paths::names_of(paths[i]@);
    assert(names.skip(0) =~= names);
}

} // verus!
