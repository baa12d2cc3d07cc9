//! The tab rail as it is drawn: which groups and rows a search leaves, what a
//! fold hides, what a row reads, and what a group says once for all its rows.

use vstd::prelude::*;
use vstd::string::*;
use crate::chrome::TabAvatar;
use crate::groups;
use crate::groups::{GroupKey, GroupView};
use crate::sections;
use crate::sections::{Section, SectionView};
use crate::sidebar;
use crate::sidebar::{Regroup, Sidebar};
use crate::tab_strip;
use crate::tab_strip::{StatusWords, TabFacts};
use crate::text;
use crate::titles;
use crate::workspace;

verus! {

/// The branch a directory is on, and how much changed in it.
#[derive(Debug, PartialEq, Eq)]
pub struct GitStatus {
    pub branch: String,
    pub added: u32,
    pub removed: u32,
}

#[verifier::ext_equal]
pub struct GitView {
    pub branch: Seq<char>,
    pub added: u32,
    pub removed: u32,
}

impl View for GitStatus {
    type V = GitView;

    open spec fn view(&self) -> GitView {
        GitView { branch: self.branch@, added: self.added, removed: self.removed }
    }
}

impl GitStatus {
    pub fn copy(&self) -> (r: GitStatus)
        ensures
            r == *self,
    {
        GitStatus { branch: self.branch.clone(), added: self.added, removed: self.removed }
    }

    pub fn same(&self, other: &GitStatus) -> (r: bool)
        ensures
            r == (self@ == other@),
    {
        self.added == other.added && self.removed == other.removed && text::same(
            self.branch.as_str(),
            other.branch.as_str(),
        )
    }
}

pub open spec fn git_view(g: Option<GitStatus>) -> Option<GitView> {
    match g {
        Some(g) => Some(g@),
        None => None,
    }
}

/// Where a row's title comes from, best first.
#[derive(Debug)]
pub enum TitleSource {
    Osc(String),
    Cwd(String),
    Agent(String),
    Named(String),
    Process(String),
    Unknown,
}

/// What is known of a row's tab.
#[derive(Debug)]
pub struct RowFacts {
    pub tab: TabFacts,
    pub source: TitleSource,
    pub git: Option<GitStatus>,
    /// The directory the focused pane is in.
    pub cwd: Option<String>,
    /// Whether a pane is zoomed over the others.
    pub zoomed: bool,
}

/// A row as it is drawn, before it is cut to the room there is.
#[derive(Debug)]
pub struct Row {
    pub tab: usize,
    pub title: String,
    /// Whether the title is the tab's own, rather than one made up for it.
    pub own_title: bool,
    /// The branch under the title.
    pub branch: Option<GitStatus>,
    /// The directory beside the title.
    pub cwd: Option<String>,
    pub active: bool,
    /// The chord shown in place of the close button.
    pub badge: Option<usize>,
    pub avatar: TabAvatar,
    pub zoomed: bool,
    pub renaming: bool,
}

/// The header of a group.
#[derive(Debug)]
pub struct Header {
    pub name: String,
    /// The kept group this is.
    pub pinned: Option<u128>,
    pub folded: bool,
    /// The tabs of the group, drawn or folded away.
    pub tabs: Vec<usize>,
    /// The branch all its rows share.
    pub shared: Option<GitStatus>,
    /// The tab whose diff a click on the counts opens: the first of which the
    /// branch is known.
    pub diff_of: Option<usize>,
    pub renaming: bool,
}

/// A group as it is drawn.
#[derive(Debug)]
pub struct Block {
    pub section: usize,
    pub key: Option<GroupKey>,
    /// The place among the groups that can be dragged past one another.
    pub slot: Option<usize>,
    /// Whether the group itself is being dragged.
    pub dragged: bool,
    /// Whether it stands back, as it takes no tab that is being dragged.
    pub faded: bool,
    /// Whether a tab that is being dragged would land in it.
    pub lit: bool,
    pub header: Option<Header>,
    pub rows: Vec<Row>,
}

/// The rail as it is drawn.
#[derive(Debug)]
pub struct SidebarView {
    pub blocks: Vec<Block>,
    /// Whether a search left nothing.
    pub nothing_matches: bool,
}

/// What the rail depends on besides its tabs and groups.
#[derive(Debug)]
pub struct RailFacts {
    /// What is typed into the search field.
    pub search: String,
    pub show_badges: bool,
    pub words: StatusWords,
    /// What the header over the tabs without a group reads.
    pub ungrouped: String,
    /// The slot of the group that is being dragged.
    pub dragged_slot: Option<usize>,
    /// Whether a tab is being dragged.
    pub lifting: bool,
    /// Where that tab would land.
    pub over: Option<Regroup>,
}

/// Whether a row is searched for: by what it is called, by the title behind
/// that, or by its branch.
pub open spec fn is_hit(f: RowFacts, q: Seq<char>) -> bool {
    ||| q.len() == 0
    ||| text::occurs(text::lower_of(tab_strip::facts_label(f.tab)), q)
    ||| text::occurs(text::lower_of(f.tab.title@), q)
    ||| (f.git is Some && text::occurs(text::lower_of(f.git->0.branch@), q))
}

/// The rows a search leaves.
pub open spec fn hits(tabs: Seq<usize>, facts: Seq<RowFacts>, q: Seq<char>) -> Seq<usize>
    decreases tabs.len(),
{
    if tabs.len() == 0 {
        Seq::empty()
    } else if is_hit(facts[tabs.last() as int], q) {
        hits(tabs.drop_last(), facts, q).push(tabs.last())
    } else {
        hits(tabs.drop_last(), facts, q)
    }
}

/// Whether a section is drawn: it has rows left, or it is a kept group and
/// nothing is searched for. A kept group stands until it is deleted.
pub open spec fn is_drawn(s: SectionView, facts: Seq<RowFacts>, q: Seq<char>) -> bool {
    hits(s.tabs, facts, q).len() > 0 || (q.len() == 0 && (s.key matches Some(
        GroupView::Pinned(_),
    )))
}

/// The sections that are drawn, in order.
pub open spec fn drawn_sections(s: Seq<SectionView>, facts: Seq<RowFacts>, q: Seq<char>) -> Seq<int>
    decreases s.len(),
{
    if s.len() == 0 {
        Seq::empty()
    } else if is_drawn(s.last(), facts, q) {
        drawn_sections(s.drop_last(), facts, q).push(s.len() - 1)
    } else {
        drawn_sections(s.drop_last(), facts, q)
    }
}

/// How many worked-out groups are drawn before this section.
pub open spec fn slots_before(s: Seq<SectionView>, facts: Seq<RowFacts>, q: Seq<char>) -> nat
    decreases s.len(),
{
    if s.len() == 0 {
        0
    } else {
        slots_before(s.drop_last(), facts, q) + if is_drawn(s.last(), facts, q) && (s.last().key
            matches Some(GroupView::Auto(_))) {
            1nat
        } else {
            0nat
        }
    }
}

/// Whether a section's rows are folded away. Only a group with a header can
/// be, and a search outranks a fold.
pub open spec fn is_folded_away(s: SectionView, g: workspace::WorkspaceGroups, q: Seq<char>) -> bool {
    s.name is Some && q.len() == 0 && g.folded(s.key)
}

/// The states that are known of these rows, in order.
pub open spec fn known_git(rows: Seq<usize>, facts: Seq<RowFacts>) -> Seq<GitView>
    decreases rows.len(),
{
    if rows.len() == 0 {
        Seq::empty()
    } else {
        match facts[rows.last() as int].git {
            Some(g) => known_git(rows.drop_last(), facts).push(g@),
            None => known_git(rows.drop_last(), facts),
        }
    }
}

/// The state all rows of a group share: at least one is known, and all that
/// are known agree. A row of which nothing is known yet does not disagree.
pub open spec fn shared_git(rows: Seq<usize>, facts: Seq<RowFacts>) -> Option<GitView> {
    let known = known_git(rows, facts);
    if known.len() > 0 && forall|i: int| 0 <= i < known.len() ==> #[trigger] known[i] == known[0] {
        Some(known[0])
    } else {
        None
    }
}

/// The first row of which the branch is known.
pub open spec fn first_known(rows: Seq<usize>, facts: Seq<RowFacts>) -> Option<usize>
    decreases rows.len(),
{
    if rows.len() == 0 {
        None
    } else {
        match first_known(rows.drop_last(), facts) {
            Some(t) => Some(t),
            None => if facts[rows.last() as int].git is Some {
                Some(rows.last())
            } else {
                None
            },
        }
    }
}

/// What a section's header says of the branch: only a section with a header
/// says anything.
pub open spec fn lifted_git(s: SectionView, facts: Seq<RowFacts>, q: Seq<char>) -> Option<GitView> {
    if s.name is Some {
        shared_git(hits(s.tabs, facts, q), facts)
    } else {
        None
    }
}

/// The title of a tab without a name, in full.
pub open spec fn raw_title(src: TitleSource, home: Option<Seq<char>>) -> Seq<char> {
    match src {
        TitleSource::Osc(t) => titles::home_abbreviated(
            titles::host_stripped(text::trimmed(t@)),
            home,
        ),
        TitleSource::Cwd(t) => titles::home_abbreviated(
            titles::host_stripped(text::trimmed(t@)),
            home,
        ),
        TitleSource::Agent(t) => t@,
        TitleSource::Named(t) => t@,
        TitleSource::Process(t) => t@,
        TitleSource::Unknown => Seq::empty(),
    }
}

/// Whether a row has a title of its own.
pub open spec fn has_own_title(f: RowFacts) -> bool {
    ||| (f.tab.name is Some && text::trimmed(f.tab.name->0@).len() > 0)
    ||| text::trimmed(raw_title(f.source, text::option_text(f.tab.home))).len() > 0
}

/// What a row is called, in full: the name it was given, else its title, else
/// the name of a shell without one.
pub open spec fn row_title(f: RowFacts) -> Seq<char> {
    if f.tab.name is Some && text::trimmed(f.tab.name->0@).len() > 0 {
        text::trimmed(f.tab.name->0@)
    } else if text::trimmed(raw_title(f.source, text::option_text(f.tab.home))).len() > 0 {
        raw_title(f.source, text::option_text(f.tab.home))
    } else {
        f.tab.unnamed@
    }
}

/// The directory beside a row's title: outside a repository, and only where
/// the title does not say it already.
pub open spec fn row_cwd(f: RowFacts, lifted: bool) -> Option<Seq<char>> {
    if lifted || f.git is Some || f.cwd is None {
        None
    } else {
        let full = titles::home_abbreviated(f.cwd->0@, text::option_text(f.tab.home));
        if full == row_title(f) {
            None
        } else {
            Some(full)
        }
    }
}

/// The badge of a row: its place in the order the rail is read in, where one
/// of the chords leads there.
pub open spec fn badge_names(badge: Option<usize>, order: Seq<usize>, tab: usize, show: bool) -> bool {
    exists|p: int|
        0 <= p < order.len() && #[trigger] order[p] == tab && badge == if show && p
            < tab_strip::BADGES {
            Some(p as usize)
        } else {
            None
        }
}

/// What a row says of its tab. A branch the header says is not said again.
pub open spec fn row_of(
    r: Row,
    tab: usize,
    f: RowFacts,
    lifted: bool,
    active: usize,
    order: Seq<usize>,
    rail: RailFacts,
) -> bool {
    &&& r.tab == tab
    &&& r.title@ == row_title(f)
    &&& r.own_title == has_own_title(f)
    &&& git_view(r.branch) == if lifted {
        None
    } else {
        git_view(f.git)
    }
    &&& text::option_text(r.cwd) == row_cwd(f, lifted)
    &&& r.active == (tab == active)
    &&& badge_names(r.badge, order, tab, rail.show_badges)
    &&& tab_strip::avatar_of(r.avatar, f.tab, rail.words)
    &&& r.zoomed == f.zoomed
    &&& r.renaming == f.tab.renaming
}

/// What a header says of its section.
pub open spec fn header_of(
    h: Option<Header>,
    s: SectionView,
    g: workspace::WorkspaceGroups,
    renaming: Option<u128>,
    facts: Seq<RowFacts>,
    q: Seq<char>,
) -> bool {
    match s.name {
        Some(name) => {
            let pinned = match s.key {
                Some(GroupView::Pinned(id)) => Some(id),
                _ => None,
            };
            &&& h is Some
            &&& h->0.name@ == name
            &&& h->0.pinned == pinned
            &&& h->0.folded == is_folded_away(s, g, q)
            &&& h->0.tabs@ == hits(s.tabs, facts, q)
            &&& git_view(h->0.shared) == lifted_git(s, facts, q)
            &&& h->0.diff_of == if lifted_git(s, facts, q) is Some {
                first_known(hits(s.tabs, facts, q), facts)
            } else {
                None
            }
            &&& h->0.renaming == (pinned is Some && renaming == pinned)
        },
        None => h is None,
    }
}

/// What a block says of its section.
pub open spec fn block_of(
    b: Block,
    ss: Seq<SectionView>,
    ix: int,
    bar: Sidebar,
    order: Seq<usize>,
    facts: Seq<RowFacts>,
    q: Seq<char>,
    rail: RailFacts,
) -> bool {
    let s = ss[ix];
    let rows = if is_folded_away(s, bar.groups, q) {
        Seq::empty()
    } else {
        hits(s.tabs, facts, q)
    };
    &&& b.section == ix
    &&& groups::option_view(b.key) == s.key
    &&& b.slot == if s.key matches Some(GroupView::Auto(_)) {
        Some(slots_before(ss.take(ix), facts, q) as usize)
    } else {
        None
    }
    &&& b.dragged == (b.slot is Some && rail.dragged_slot == b.slot)
    &&& b.faded == (rail.lifting && !(s.key matches Some(GroupView::Pinned(_))))
    &&& b.lit == (match s.key {
        Some(GroupView::Pinned(id)) => rail.over == Some(Regroup::Into(id)),
        _ => false,
    })
    &&& header_of(b.header, s, bar.groups, bar.group_rename, facts, q)
    &&& b.rows@.len() == rows.len()
    &&& forall|k: int|
        0 <= k < rows.len() ==> row_of(
            #[trigger] b.rows@[k],
            rows[k],
            facts[rows[k] as int],
            lifted_git(s, facts, q) is Some,
            bar.active,
            order,
            rail,
        )
}

/// The rail: a block for each section that is drawn, top to bottom.
pub open spec fn view_of(
    v: SidebarView,
    ss: Seq<SectionView>,
    bar: Sidebar,
    order: Seq<usize>,
    facts: Seq<RowFacts>,
    q: Seq<char>,
    rail: RailFacts,
) -> bool {
    let drawn = drawn_sections(ss, facts, q);
    &&& v.blocks@.len() == drawn.len()
    &&& forall|k: int|
        0 <= k < drawn.len() ==> block_of(
            #[trigger] v.blocks@[k],
            ss,
            drawn[k],
            bar,
            order,
            facts,
            q,
            rail,
        )
    &&& v.nothing_matches == (drawn.len() == 0 && q.len() > 0)
}

fn hit(f: &RowFacts, q: &str) -> (r: bool)
    ensures
        r == is_hit(*f, q@),
{
    if q.is_empty() {
        return true;
    }
    let label = f.tab.label();
    let label = text::to_lower(label.as_str());
    if text::contains(label.as_str(), q) {
        return true;
    }
    let title = text::to_lower(f.tab.title.as_str());
    if text::contains(title.as_str(), q) {
        return true;
    }
    match &f.git {
        Some(g) => {
            let branch = text::to_lower(g.branch.as_str());
            text::contains(branch.as_str(), q)
        },
        None => false,
    }
}

fn hit_rows(tabs: &Vec<usize>, facts: &Vec<RowFacts>, q: &str) -> (r: Vec<usize>)
    requires
        forall|k: int| 0 <= k < tabs@.len() ==> #[trigger] tabs@[k] < facts@.len(),
    ensures
        r@ == hits(tabs@, facts@, q@),
        forall|k: int| 0 <= k < r@.len() ==> #[trigger] r@[k] < facts@.len(),
{
    let mut out: Vec<usize> = Vec::new();
    let mut i: usize = 0;
    assert(tabs@.take(0) =~= Seq::<usize>::empty());
    while i < tabs.len()
        invariant
            i <= tabs@.len(),
            forall|k: int| 0 <= k < tabs@.len() ==> #[trigger] tabs@[k] < facts@.len(),
            out@ == hits(tabs@.take(i as int), facts@, q@),
            forall|k: int| 0 <= k < out@.len() ==> #[trigger] out@[k] < facts@.len(),
        decreases tabs@.len() - i,
    {
        assert(tabs@.take(i + 1).drop_last() =~= tabs@.take(i as int));
        let t: usize = tabs[i];
        if hit(&facts[t], q) {
            out.push(t);
        }
        i = i + 1;
    }
    assert(tabs@.take(tabs@.len() as int) =~= tabs@);
    out
}

fn find_shared(rows: &Vec<usize>, facts: &Vec<RowFacts>) -> (r: Option<GitStatus>)
    requires
        forall|k: int| 0 <= k < rows@.len() ==> #[trigger] rows@[k] < facts@.len(),
    ensures
        git_view(r) == shared_git(rows@, facts@),
{
    let mut first: Option<GitStatus> = None;
    let mut same: bool = true;
    let mut i: usize = 0;
    assert(rows@.take(0) =~= Seq::<usize>::empty());
    while i < rows.len()
        invariant
            i <= rows@.len(),
            forall|k: int| 0 <= k < rows@.len() ==> #[trigger] rows@[k] < facts@.len(),
            ({
                let known = known_git(rows@.take(i as int), facts@);
                &&& known.len() == 0 ==> first is None && same
                &&& known.len() > 0 ==> first is Some && first->0@ == known[0]
                &&& same == forall|k: int| 0 <= k < known.len() ==> #[trigger] known[k] == known[0]
            }),
        decreases rows@.len() - i,
    {
        assert(rows@.take(i + 1).drop_last() =~= rows@.take(i as int));
        let ghost before = known_git(rows@.take(i as int), facts@);
        let ghost after = known_git(rows@.take(i + 1), facts@);
        let t: usize = rows[i];
        if let Some(g) = &facts[t].git {
            let ghost was = same;
            match &first {
                Some(f) => {
                    if !f.same(g) {
                        same = false;
                    }
                },
                None => {},
            }
            if first.is_none() {
                first = Some(g.copy());
            }
            proof {
                assert(after =~= before.push(g@));
                if same {
                    assert forall|k: int| 0 <= k < after.len() implies #[trigger] after[k]
                        == after[0] by {
                        if k < before.len() {
                            assert(before[k] == before[0]);
                            assert(after[k] == before[k]);
                        }
                    }
                } else if !was {
                    let w = choose|k: int|
                        0 <= k < before.len() && #[trigger] before[k] != before[0];
                    assert(after[w] != after[0]);
                } else {
                    assert(after[before.len() as int] != after[0]);
                }
            }
        }
        i = i + 1;
    }
    assert(rows@.take(rows@.len() as int) =~= rows@);
    if same {
        first
    } else {
        None
    }
}

fn full_title(f: &RowFacts) -> (r: (String, bool))
    ensures
        r.0@ == row_title(*f),
        r.1 == has_own_title(*f),
{
    if let Some(n) = &f.tab.name {
        let t = text::trim(n.as_str());
        if t.len() > 0 {
            return (text::string_of(t.as_slice()), true);
        }
    }
    let raw = match &f.source {
        TitleSource::Osc(t) | TitleSource::Cwd(t) => {
            let t = text::trim(t.as_str());
            let t = text::string_of(t.as_slice());
            let t = titles::strip_host_prefix(t.as_str());
            match &f.tab.home {
                Some(h) => titles::abbreviate_home(t.as_str(), Some(h.as_str())),
                None => titles::abbreviate_home(t.as_str(), None),
            }
        },
        TitleSource::Agent(t) => t.clone(),
        TitleSource::Named(t) => t.clone(),
        TitleSource::Process(t) => t.clone(),
        TitleSource::Unknown => {
            let t = String::new();
            assert(t@ =~= Seq::<char>::empty());
            t
        },
    };
    let t = text::trim(raw.as_str());
    if t.len() > 0 {
        (raw, true)
    } else {
        (f.tab.unnamed.clone(), false)
    }
}

fn cwd_beside(f: &RowFacts, lifted: bool, title: &str) -> (r: Option<String>)
    requires
        title@ == row_title(*f),
    ensures
        text::option_text(r) == row_cwd(*f, lifted),
{
    if lifted || f.git.is_some() {
        return None;
    }
    match &f.cwd {
        Some(c) => {
            let full = match &f.tab.home {
                Some(h) => titles::abbreviate_home(c.as_str(), Some(h.as_str())),
                None => titles::abbreviate_home(c.as_str(), None),
            };
            if text::same(full.as_str(), title) {
                None
            } else {
                Some(full)
            }
        },
        None => None,
    }
}

fn find_known(rows: &Vec<usize>, facts: &Vec<RowFacts>) -> (r: Option<usize>)
    requires
        forall|k: int| 0 <= k < rows@.len() ==> #[trigger] rows@[k] < facts@.len(),
    ensures
        r == first_known(rows@, facts@),
{
    let mut found: Option<usize> = None;
    let mut i: usize = 0;
    assert(rows@.take(0) =~= Seq::<usize>::empty());
    while i < rows.len()
        invariant
            i <= rows@.len(),
            forall|k: int| 0 <= k < rows@.len() ==> #[trigger] rows@[k] < facts@.len(),
            found == first_known(rows@.take(i as int), facts@),
        decreases rows@.len() - i,
    {
        assert(rows@.take(i + 1).drop_last() =~= rows@.take(i as int));
        if found.is_none() && facts[rows[i]].git.is_some() {
            found = Some(rows[i]);
        }
        i = i + 1;
    }
    assert(rows@.take(rows@.len() as int) =~= rows@);
    found
}

fn build_row(
    tab: usize,
    f: &RowFacts,
    lifted: bool,
    active: usize,
    pos: usize,
    rail: &RailFacts,
    Ghost(order): Ghost<Seq<usize>>,
) -> (r: Row)
    requires
        pos < order.len(),
        order[pos as int] == tab,
    ensures
        row_of(r, tab, *f, lifted, active, order, *rail),
{
    let (title, own_title) = full_title(f);
    let cwd = cwd_beside(f, lifted, title.as_str());
    let branch = if lifted {
        None
    } else {
        match &f.git {
            Some(g) => Some(g.copy()),
            None => None,
        }
    };
    let badge = if rail.show_badges && pos < tab_strip::BADGES {
        Some(pos)
    } else {
        None
    };
    assert(order[pos as int] == tab);
    Row {
        tab,
        title,
        own_title,
        branch,
        cwd,
        active: tab == active,
        badge,
        avatar: f.tab.avatar(&rail.words),
        zoomed: f.zoomed,
        renaming: f.tab.renaming,
    }
}

impl Sidebar {
    fn build_block(
        &self,
        ss: &Vec<Section>,
        ix: usize,
        rows: Vec<usize>,
        slot: usize,
        badges: &Vec<usize>,
        facts: &Vec<RowFacts>,
        q: &str,
        rail: &RailFacts,
        Ghost(order): Ghost<Seq<usize>>,
    ) -> (r: Block)
        requires
            ix < ss@.len(),
            rows@ == hits(ss@[ix as int].tabs@, facts@, q@),
            slot == slots_before(sections::section_views(ss@).take(ix as int), facts@, q@),
            facts@.len() == badges@.len(),
            forall|k: int| 0 <= k < rows@.len() ==> #[trigger] rows@[k] < facts@.len(),
            forall|t: int|
                0 <= t < badges@.len() ==> #[trigger] badges@[t] < order.len() && order[badges@[t] as int]
                    == t,
        ensures
            block_of(
                r,
                sections::section_views(ss@),
                ix as int,
                *self,
                order,
                facts@,
                q@,
                *rail,
            ),
    {
        let s = &ss[ix];
        let ghost sv = sections::section_views(ss@)[ix as int];
        assert(sv == s@);
        let shared = if s.name.is_some() {
            find_shared(&rows, facts)
        } else {
            None
        };
        let lifted = shared.is_some();
        let folded = s.name.is_some() && q.is_empty() && self.groups.is_folded(&s.key);
        let diff_of = if lifted {
            find_known(&rows, facts)
        } else {
            None
        };
        let pinned = s.pinned();
        let slot = match &s.key {
            Some(GroupKey::Auto(_)) => Some(slot),
            _ => None,
        };
        let mut out: Vec<Row> = Vec::new();
        if !folded {
            let mut k: usize = 0;
            while k < rows.len()
                invariant
                    k <= rows@.len(),
                    facts@.len() == badges@.len(),
                    forall|k: int| 0 <= k < rows@.len() ==> #[trigger] rows@[k] < facts@.len(),
                    forall|t: int|
                        0 <= t < badges@.len() ==> #[trigger] badges@[t] < order.len()
                            && order[badges@[t] as int] == t,
                    out@.len() == k,
                    forall|j: int|
                        0 <= j < k ==> row_of(
                            #[trigger] out@[j],
                            rows@[j],
                            facts@[rows@[j] as int],
                            lifted,
                            self.active,
                            order,
                            *rail,
                        ),
                decreases rows@.len() - k,
            {
                let tab: usize = rows[k];
                out.push(
                    build_row(
                        tab,
                        &facts[tab],
                        lifted,
                        self.active,
                        badges[tab],
                        rail,
                        Ghost(order),
                    ),
                );
                k = k + 1;
            }
        }
        let header = match &s.name {
            Some(name) => {
                let renaming = match pinned {
                    Some(id) => match self.group_rename {
                        Some(r) => r == id,
                        None => false,
                    },
                    None => false,
                };
                Some(
                    Header {
                        name: name.clone(),
                        pinned,
                        folded,
                        tabs: rows,
                        shared,
                        diff_of,
                        renaming,
                    },
                )
            },
            None => None,
        };
        let dragged = match slot {
            Some(here) => match rail.dragged_slot {
                Some(from) => from == here,
                None => false,
            },
            None => false,
        };
        let lit = match pinned {
            Some(id) => match rail.over {
                Some(Regroup::Into(into)) => into == id,
                _ => false,
            },
            None => false,
        };
        Block {
            section: ix,
            key: groups::copy_key(&s.key),
            slot,
            dragged,
            faded: rail.lifting && pinned.is_none(),
            lit,
            header,
            rows: out,
        }
    }

    /// The rail as it is drawn.
    pub fn tab_sidebar(
        &self,
        keys: &Vec<Option<GroupKey>>,
        facts: &Vec<RowFacts>,
        rail: &RailFacts,
    ) -> (r: SidebarView)
        requires
            sections::keys_fit(groups::key_views(keys@), self.groups.pinned@),
            facts@.len() == keys@.len(),
        ensures
            view_of(
                r,
                sections::sections_of(
                    groups::key_views(keys@),
                    self.groups.pinned@,
                    rail.ungrouped@,
                    sections::heads_of(keys@),
                ),
                *self,
                sections::visual_order(groups::key_views(keys@), self.groups.pinned@),
                facts@,
                text::query_of(rail.search@),
                *rail,
            ),
    {
        let query = text::query_text(rail.search.as_str());
        let q: &str = query.as_str();
        let ghost kv = groups::key_views(keys@);
        let ss = sections::sidebar_sections(keys.as_slice(), &self.groups, rail.ungrouped.as_str());
        let ghost sv = sections::section_views(ss@);
        let order = sections::flat_tabs(&ss);
        proof {
            sections::every_tab_is_drawn_once(
                kv,
                self.groups.pinned@,
                rail.ungrouped@,
                sections::heads_of(keys@),
            );
            sections::lemma_name_moves_nothing(
                kv,
                self.groups.pinned@,
                rail.ungrouped@,
                sections::heads_of(keys@),
                Seq::empty(),
                Seq::empty(),
            );
        }
        let badges = sections::badge_positions(&order, keys.len());
        proof {
            assert forall|t: int| 0 <= t < badges@.len() implies #[trigger] badges@[t]
                < order@.len() && order@[badges@[t] as int] == t by {
                sections::a_badge_names_the_chord_that_opens_its_row(order@, badges@, t);
            }
        }
        let mut blocks: Vec<Block> = Vec::new();
        let mut slot: usize = 0;
        let mut ix: usize = 0;
        assert(sv.take(0) =~= Seq::<SectionView>::empty());
        while ix < ss.len()
            invariant
                ix <= ss@.len(),
                sv == sections::section_views(ss@),
                order@ == sections::flat(sv),
                sections::names_each_once(order@, keys@.len()),
                facts@.len() == keys@.len() == badges@.len(),
                forall|t: int|
                    0 <= t < badges@.len() ==> #[trigger] badges@[t] < order@.len()
                        && order@[badges@[t] as int] == t,
                slot == slots_before(sv.take(ix as int), facts@, q@),
                slot <= ix,
                blocks@.len() == drawn_sections(sv.take(ix as int), facts@, q@).len(),
                forall|k: int|
                    0 <= k < blocks@.len() ==> block_of(
                        #[trigger] blocks@[k],
                        sv,
                        drawn_sections(sv.take(ix as int), facts@, q@)[k],
                        *self,
                        order@,
                        facts@,
                        q@,
                        *rail,
                    ),
            decreases ss@.len() - ix,
        {
            proof {
                assert(sv.take(ix + 1).drop_last() =~= sv.take(ix as int));
                assert(sv.take(ix + 1).last() == ss@[ix as int]@);
                lemma_tabs_in_range(sv, keys@.len(), ix as int);
                assert(sv[ix as int].tabs == ss@[ix as int].tabs@);
                assert forall|k: int| 0 <= k < ss@[ix as int].tabs@.len() implies #[trigger] ss@[ix as int].tabs@[k]
                    < facts@.len() by {
                    assert(sv[ix as int].tabs[k] < keys@.len());
                }
            }
            let rows = hit_rows(&ss[ix].tabs, facts, q);
            let kept = match &ss[ix].key {
                Some(GroupKey::Pinned(_)) => true,
                _ => false,
            };
            let auto = match &ss[ix].key {
                Some(GroupKey::Auto(_)) => true,
                _ => false,
            };
            if rows.len() > 0 || (q.is_empty() && kept) {
                let b = self.build_block(
                    &ss,
                    ix,
                    rows,
                    slot,
                    &badges,
                    facts,
                    q,
                    rail,
                    Ghost(order@),
                );
                blocks.push(b);
                if auto {
                    slot = slot + 1;
                }
            }
            ix = ix + 1;
        }
        assert(sv.take(sv.len() as int) =~= sv);
        let nothing_matches = blocks.len() == 0 && !q.is_empty();
        SidebarView { blocks, nothing_matches }
    }
}

proof fn lemma_tabs_in_range(s: Seq<SectionView>, n: nat, ix: int)
    requires
        0 <= ix < s.len(),
        forall|i: int| 0 <= i < sections::flat(s).len() ==> #[trigger] sections::flat(s)[i] < n,
    ensures
        forall|k: int| 0 <= k < s[ix].tabs.len() ==> #[trigger] s[ix].tabs[k] < n,
    decreases s.len(),
{
    let head = sections::flat(s.drop_last());
    if ix == s.len() - 1 {
        assert forall|k: int| 0 <= k < s[ix].tabs.len() implies #[trigger] s[ix].tabs[k] < n by {
            assert(sections::flat(s)[head.len() + k] == s[ix].tabs[k]);
        }
    } else {
        assert forall|i: int| 0 <= i < head.len() implies #[trigger] head[i] < n by {
            assert(sections::flat(s)[i] == head[i]);
        }
        lemma_tabs_in_range(s.drop_last(), n, ix);
        assert(s.drop_last()[ix] == s[ix]);
    }
}

/// A search outranks a fold: while something is searched for, no row that is
/// searched for is folded away.
pub proof fn a_search_outranks_a_fold(
    s: SectionView,
    g: workspace::WorkspaceGroups,
    q: Seq<char>,
)
    requires
        q.len() > 0,
    ensures
        !is_folded_away(s, g, q),
{
}

/// A fold hides every row of its group, the active one among them.
pub proof fn a_fold_hides_every_row(
    b: Block,
    ss: Seq<SectionView>,
    ix: int,
    bar: Sidebar,
    order: Seq<usize>,
    facts: Seq<RowFacts>,
    q: Seq<char>,
    rail: RailFacts,
)
    requires
        block_of(b, ss, ix, bar, order, facts, q, rail),
        is_folded_away(ss[ix], bar.groups, q),
    ensures
        b.rows@.len() == 0,
{
}

/// A blank search hides no row.
pub proof fn a_blank_search_hides_no_row(tabs: Seq<usize>, facts: Seq<RowFacts>, search: Seq<char>)
    requires
        text::trimmed(search).len() == 0,
    ensures
        hits(tabs, facts, text::query_of(search)) == tabs,
    decreases tabs.len(),
{
    if tabs.len() > 0 {
        a_blank_search_hides_no_row(tabs.drop_last(), facts, search);
        assert(tabs.drop_last().push(tabs.last()) =~= tabs);
    } else {
        assert(hits(tabs, facts, text::query_of(search)) =~= tabs);
    }
}

/// A kept group without tabs is still drawn while nothing is searched for.
pub proof fn an_empty_kept_group_is_drawn(s: SectionView, facts: Seq<RowFacts>, id: u128)
    requires
        s.key == Some(GroupView::Pinned(id)),
    ensures
        is_drawn(s, facts, Seq::empty()),
{
}

/// What a row showed of a text, beside the whole text.
#[derive(Debug)]
pub struct Shown {
    pub shown: String,
    pub full: String,
}

/// Everything a row could not show.
#[derive(Debug)]
pub struct SidebarInfo {
    pub title: Option<String>,
    pub branch: Option<GitStatus>,
    pub cwd: Option<String>,
    pub host: Option<String>,
}

/// The whole text, where less of it was shown.
pub open spec fn left_out(p: Option<Shown>) -> Option<String> {
    match p {
        Some(p) => if p.shown@ != p.full@ {
            Some(p.full)
        } else {
            None
        },
        None => None,
    }
}

fn elided(p: &Option<Shown>) -> (r: Option<String>)
    ensures
        r == left_out(*p),
{
    match p {
        Some(p) => if text::same(p.shown.as_str(), p.full.as_str()) {
            None
        } else {
            Some(p.full.clone())
        },
        None => None,
    }
}

/// What the card of a row says: each text that was shown in part, in full,
/// and the host its avatar only marks. No card where there is nothing to say.
pub fn sidebar_info(
    title: &Option<Shown>,
    branch: &Option<Shown>,
    added: u32,
    removed: u32,
    cwd: &Option<Shown>,
    host: &Option<String>,
) -> (r: Option<SidebarInfo>)
    ensures
        r is Some <==> left_out(*title) is Some || left_out(*branch) is Some || left_out(*cwd) is Some
            || *host is Some,
        r is Some ==> {
            let i = r->0;
            &&& i.title == left_out(*title)
            &&& i.branch == match left_out(*branch) {
                Some(b) => Some(GitStatus { branch: b, added, removed }),
                None => None,
            }
            &&& i.cwd == left_out(*cwd)
            &&& i.host == *host
        },
{
    let info = SidebarInfo {
        title: elided(title),
        branch: match elided(branch) {
            Some(b) => Some(GitStatus { branch: b, added, removed }),
            None => None,
        },
        cwd: elided(cwd),
        host: text::copy_option(host),
    };
    if info.title.is_some() || info.branch.is_some() || info.cwd.is_some() || info.host.is_some() {
        Some(info)
    } else {
        None
    }
}

/// Whether a click on a diff's counts opens it, unless the user says otherwise.
pub const DIFF_PREVIEW_DEFAULT: bool = true;

/// What a click on a diff's counts opens, where the setting allows it.
pub fn diff_click_cwd<T>(sidebar_diff_preview: bool, target: Option<T>) -> (r: Option<T>)
    ensures
        r == if sidebar_diff_preview {
            target
        } else {
            None
        },
{
    if sidebar_diff_preview {
        target
    } else {
        None
    }
}

/// Which tab is made active before the diff of a whole group opens: none where
/// the active one is of the group already, its first otherwise.
pub fn diff_activates(rows: &Vec<usize>, active: usize) -> (r: Option<usize>)
    ensures
        r == if rows@.contains(active) || rows@.len() == 0 {
            None
        } else {
            Some(rows@[0])
        },
{
    let mut i: usize = 0;
    while i < rows.len()
        invariant
            i <= rows@.len(),
            forall|k: int| 0 <= k < i ==> rows@[k] != active,
        decreases rows@.len() - i,
    {
        if rows[i] == active {
            assert(rows@.contains(active));
            return None;
        }
        i = i + 1;
    }
    if rows.len() > 0 {
        Some(rows[0])
    } else {
        None
    }
}

/// A search leaves exactly the rows it finds, in the order they stood in.
pub proof fn a_search_leaves_what_it_finds(tabs: Seq<usize>, facts: Seq<RowFacts>, q: Seq<char>)
    ensures
        hits(tabs, facts, q) == tabs.filter(|t: usize| is_hit(facts[t as int], q)),
    decreases tabs.len(),
{
    reveal(Seq::filter);
    if tabs.len() > 0 {
        a_search_leaves_what_it_finds(tabs.drop_last(), facts, q);
    }
}

/// A row is found by what it is called, by its title and by its branch, in any
/// case; by nothing else.
pub proof fn a_row_is_found_by_name_title_or_branch(f: RowFacts, q: Seq<char>)
    ensures
        q.len() == 0 ==> is_hit(f, q),
        text::occurs(text::lower_of(tab_strip::facts_label(f.tab)), q) ==> is_hit(f, q),
        text::occurs(text::lower_of(f.tab.title@), q) ==> is_hit(f, q),
        f.git is Some && text::occurs(text::lower_of(f.git->0.branch@), q) ==> is_hit(f, q),
        is_hit(f, q) && q.len() > 0 && f.git is None ==> text::occurs(
            text::lower_of(tab_strip::facts_label(f.tab)),
            q,
        ) || text::occurs(text::lower_of(f.tab.title@), q),
        is_hit(f, q) && q.len() > 0 && f.git is Some ==> text::occurs(
            text::lower_of(tab_strip::facts_label(f.tab)),
            q,
        ) || text::occurs(text::lower_of(f.tab.title@), q) || text::occurs(
            text::lower_of(f.git->0.branch@),
            q,
        ),
{
}

/// A section is drawn exactly while it has a row to show, or while it is a
/// kept group and nothing is searched for; those that are drawn stand in the
/// order of the sections.
pub proof fn drawn_sections_stand_in_order(s: Seq<SectionView>, facts: Seq<RowFacts>, q: Seq<char>)
    ensures
        forall|i: int|
            0 <= i < drawn_sections(s, facts, q).len() ==> 0 <= (#[trigger] drawn_sections(
                s,
                facts,
                q,
            )[i]) < s.len() && is_drawn(s[drawn_sections(s, facts, q)[i]], facts, q),
        forall|i: int, j: int|
            0 <= i < j < drawn_sections(s, facts, q).len() ==> (#[trigger] drawn_sections(
                s,
                facts,
                q,
            )[i]) < (#[trigger] drawn_sections(s, facts, q)[j]),
        forall|k: int|
            0 <= k < s.len() && is_drawn(#[trigger] s[k], facts, q) ==> drawn_sections(
                s,
                facts,
                q,
            ).contains(k),
    decreases s.len(),
{
    if s.len() > 0 {
        let front = s.drop_last();
        let head = drawn_sections(front, facts, q);
        let all = drawn_sections(s, facts, q);
        drawn_sections_stand_in_order(front, facts, q);
        assert forall|i: int| 0 <= i < all.len() implies 0 <= (#[trigger] all[i]) < s.len()
            && is_drawn(s[all[i]], facts, q) by {
            if i < head.len() {
                assert(all[i] == head[i]);
                assert(front[head[i]] == s[head[i]]);
            }
        }
        assert forall|i: int, j: int| 0 <= i < j < all.len() implies (#[trigger] all[i]) < (
        #[trigger] all[j]) by {
            assert(all[i] == head[i]);
            if j < head.len() {
                assert(all[j] == head[j]);
            }
        }
        assert forall|k: int| 0 <= k < s.len() && is_drawn(#[trigger] s[k], facts, q) implies all.contains(
            k,
        ) by {
            if k < front.len() {
                assert(front[k] == s[k]);
                let w = choose|w: int| 0 <= w < head.len() && head[w] == k;
                assert(all[w] == k);
            } else {
                assert(all[head.len() as int] == k);
            }
        }
    }
}

proof fn lemma_known_git(rows: Seq<usize>, facts: Seq<RowFacts>)
    ensures
        forall|i: int|
            0 <= i < rows.len() && facts[(#[trigger] rows[i]) as int].git is Some ==> known_git(
                rows,
                facts,
            ).contains(facts[rows[i] as int].git->0@),
        forall|g: GitView| #[trigger]
            known_git(rows, facts).contains(g) ==> exists|i: int|
                0 <= i < rows.len() && facts[(#[trigger] rows[i]) as int].git is Some
                    && facts[rows[i] as int].git->0@ == g,
    decreases rows.len(),
{
    if rows.len() > 0 {
        let front = rows.drop_last();
        let head = known_git(front, facts);
        let all = known_git(rows, facts);
        lemma_known_git(front, facts);
        assert forall|i: int|
            0 <= i < rows.len() && facts[(#[trigger] rows[i]) as int].git is Some implies all.contains(
            facts[rows[i] as int].git->0@,
        ) by {
            if i < front.len() {
                assert(front[i] == rows[i]);
                let w = choose|w: int|
                    0 <= w < head.len() && head[w] == facts[rows[i] as int].git->0@;
                assert(all[w] == head[w]);
            } else {
                assert(all[head.len() as int] == facts[rows[i] as int].git->0@);
            }
        }
        assert forall|g: GitView| #[trigger] all.contains(g) implies exists|i: int|
            0 <= i < rows.len() && facts[(#[trigger] rows[i]) as int].git is Some
                && facts[rows[i] as int].git->0@ == g by {
            let w = choose|w: int| 0 <= w < all.len() && all[w] == g;
            if w < head.len() {
                assert(head[w] == g);
                assert(head.contains(g));
                let i = choose|i: int|
                    0 <= i < front.len() && facts[(#[trigger] front[i]) as int].git is Some
                        && facts[front[i] as int].git->0@ == g;
                assert(rows[i] == front[i]);
            } else {
                assert(rows[rows.len() - 1] == rows.last());
            }
        }
    }
}

/// A header says a branch exactly where a row has one and no two rows differ
/// in it; and then it is the branch of every row that has one.
pub proof fn a_header_says_what_no_row_denies(rows: Seq<usize>, facts: Seq<RowFacts>)
    ensures
        shared_git(rows, facts) is Some ==> forall|i: int|
            0 <= i < rows.len() && facts[(#[trigger] rows[i]) as int].git is Some
                ==> facts[rows[i] as int].git->0@ == shared_git(rows, facts)->0,
        shared_git(rows, facts) is Some ==> exists|i: int|
            0 <= i < rows.len() && facts[(#[trigger] rows[i]) as int].git is Some,
        shared_git(rows, facts) is None ==> (forall|i: int|
            0 <= i < rows.len() ==> facts[(#[trigger] rows[i]) as int].git is None) || exists|
            i: int,
            j: int,
        |
            0 <= i < rows.len() && 0 <= j < rows.len() && facts[(#[trigger] rows[i]) as int].git
                is Some && facts[(#[trigger] rows[j]) as int].git is Some
                && facts[rows[i] as int].git->0@ != facts[rows[j] as int].git->0@,
{
    let known = known_git(rows, facts);
    lemma_known_git(rows, facts);
    if shared_git(rows, facts) is Some {
        assert(known.contains(known[0]));
        assert forall|i: int|
            0 <= i < rows.len() && facts[(#[trigger] rows[i]) as int].git is Some implies facts[rows[i] as int].git->0@
            == shared_git(rows, facts)->0 by {
            let w = choose|w: int|
                0 <= w < known.len() && known[w] == facts[rows[i] as int].git->0@;
            assert(known[w] == known[0]);
        }
    } else if known.len() > 0 {
        let w = choose|w: int| 0 <= w < known.len() && #[trigger] known[w] != known[0];
        assert(known.contains(known[w]));
        assert(known.contains(known[0]));
        let i = choose|i: int|
            0 <= i < rows.len() && facts[(#[trigger] rows[i]) as int].git is Some
                && facts[rows[i] as int].git->0@ == known[w];
        let j = choose|j: int|
            0 <= j < rows.len() && facts[(#[trigger] rows[j]) as int].git is Some
                && facts[rows[j] as int].git->0@ == known[0];
        assert(facts[rows[i] as int].git->0@ != facts[rows[j] as int].git->0@);
    } else {
        assert forall|i: int| 0 <= i < rows.len() implies facts[(#[trigger] rows[i]) as int].git
            is None by {
            if facts[rows[i] as int].git is Some {
                assert(known.contains(facts[rows[i] as int].git->0@));
            }
        }
    }
}

/// The row whose diff stands for its group is the first that has a branch.
pub proof fn the_first_row_with_a_branch_stands_for_its_group(
    rows: Seq<usize>,
    facts: Seq<RowFacts>,
    k: int,
)
    ensures
        0 <= k < rows.len() && facts[rows[k] as int].git is Some && (forall|i: int|
            0 <= i < k ==> facts[(#[trigger] rows[i]) as int].git is None) ==> first_known(
            rows,
            facts,
        ) == Some(rows[k]),
        (forall|i: int| 0 <= i < rows.len() ==> facts[(#[trigger] rows[i]) as int].git is None)
            ==> first_known(rows, facts) is None,
    decreases rows.len(),
{
    if rows.len() > 0 {
        let front = rows.drop_last();
        the_first_row_with_a_branch_stands_for_its_group(front, facts, k);
        assert(forall|i: int| 0 <= i < front.len() ==> front[i] == rows[i]);
        assert(rows[rows.len() - 1] == rows.last());
    }
}

/// A row is called by the name it was given; without one by its title in full,
/// with the home directory in short; and only without either by what a shell
/// without a title is called, and then the title is not its own.
pub proof fn a_given_name_goes_before_a_title(f: RowFacts)
    ensures
        f.tab.name is Some && text::trimmed(f.tab.name->0@).len() > 0 ==> row_title(f)
            == text::trimmed(f.tab.name->0@) && has_own_title(f),
        (f.tab.name is None || text::trimmed(f.tab.name->0@).len() == 0) && text::trimmed(
            raw_title(f.source, text::option_text(f.tab.home)),
        ).len() > 0 ==> row_title(f) == raw_title(f.source, text::option_text(f.tab.home))
            && has_own_title(f),
        !has_own_title(f) ==> row_title(f) == f.tab.unnamed@,
        f.source matches TitleSource::Agent(t) ==> raw_title(
            f.source,
            text::option_text(f.tab.home),
        ) == t@,
        f.source matches TitleSource::Named(t) ==> raw_title(
            f.source,
            text::option_text(f.tab.home),
        ) == t@,
        f.source matches TitleSource::Process(t) ==> raw_title(
            f.source,
            text::option_text(f.tab.home),
        ) == t@,
        f.source is Unknown ==> raw_title(f.source, text::option_text(f.tab.home)).len() == 0,
{
}

/// A row says what its tab is: it leads to that tab, is lit exactly when the
/// tab is active, says its branch where the header does not, and its directory
/// only outside a repository and where the title does not say it. A badge
/// names the place the rail is read at.
pub proof fn a_row_is_of_its_tab(
    r: Row,
    tab: usize,
    f: RowFacts,
    lifted: bool,
    active: usize,
    order: Seq<usize>,
    rail: RailFacts,
)
    requires
        row_of(r, tab, f, lifted, active, order, rail),
    ensures
        r.tab == tab,
        r.active <==> tab == active,
        lifted ==> r.branch is None && r.cwd is None,
        !lifted && f.git is Some ==> r.branch is Some && r.branch->0@ == f.git->0@ && r.cwd is None,
        f.git is None ==> r.branch is None,
        r.cwd is Some ==> f.cwd is Some && r.cwd->0@ == titles::home_abbreviated(
            f.cwd->0@,
            text::option_text(f.tab.home),
        ) && r.cwd->0@ != r.title@,
        !lifted && f.git is None && f.cwd is Some && titles::home_abbreviated(
            f.cwd->0@,
            text::option_text(f.tab.home),
        ) != r.title@ ==> r.cwd is Some,
        r.badge is Some ==> rail.show_badges && r.badge->0 < 9 && r.badge->0 < order.len()
            && order[r.badge->0 as int] == tab,
        !rail.show_badges ==> r.badge is None,
        r.zoomed == f.zoomed && r.renaming == f.tab.renaming,
{
    let p = choose|p: int|
        0 <= p < order.len() && #[trigger] order[p] == tab && r.badge == if rail.show_badges && p
            < tab_strip::BADGES {
            Some(p as usize)
        } else {
            None
        };
}

/// While a tab is dragged, the kept group it would land in is lit, and no
/// other; the groups that take no tab stand back. A worked-out group has a
/// place to be dragged from, and no other has.
pub proof fn only_the_group_under_a_drag_is_lit(
    b: Block,
    ss: Seq<SectionView>,
    ix: int,
    bar: Sidebar,
    order: Seq<usize>,
    facts: Seq<RowFacts>,
    q: Seq<char>,
    rail: RailFacts,
)
    requires
        block_of(b, ss, ix, bar, order, facts, q, rail),
    ensures
        b.lit <==> (ss[ix].key matches Some(GroupView::Pinned(id)) && rail.over == Some(
            Regroup::Into(id),
        )),
        b.faded <==> rail.lifting && !(ss[ix].key matches Some(GroupView::Pinned(_))),
        b.slot is Some <==> (ss[ix].key matches Some(GroupView::Auto(_))),
        b.dragged <==> b.slot is Some && rail.dragged_slot == b.slot,
        groups::option_view(b.key) == ss[ix].key,
        b.header is Some <==> ss[ix].name is Some,
        b.header is Some ==> b.header->0.name@ == ss[ix].name->0 && b.header->0.tabs@ == hits(
            ss[ix].tabs,
            facts,
            q,
        ),
        b.header is Some ==> (b.header->0.renaming <==> (ss[ix].key matches Some(
            GroupView::Pinned(id),
        ) && bar.group_rename == Some(id))),
        !is_folded_away(ss[ix], bar.groups, q) ==> b.rows@.len() == hits(
            ss[ix].tabs,
            facts,
            q,
        ).len() && forall|k: int|
            0 <= k < b.rows@.len() ==> (#[trigger] b.rows@[k]).tab == hits(
                ss[ix].tabs,
                facts,
                q,
            )[k],
{
}

/// Worked-out groups are numbered from zero in the order they are drawn in.
pub proof fn slots_count_the_groups_above(s: Seq<SectionView>, facts: Seq<RowFacts>, q: Seq<char>)
    requires
        s.len() > 0,
    ensures
        slots_before(Seq::empty(), facts, q) == 0,
        is_drawn(s.last(), facts, q) && (s.last().key matches Some(GroupView::Auto(_)))
            ==> slots_before(s, facts, q) == slots_before(s.drop_last(), facts, q) + 1,
        !is_drawn(s.last(), facts, q) || !(s.last().key matches Some(GroupView::Auto(_)))
            ==> slots_before(s, facts, q) == slots_before(s.drop_last(), facts, q),
{
}

/// A section can be folded away only under a header.
pub proof fn only_a_header_folds(s: SectionView, g: workspace::WorkspaceGroups, q: Seq<char>)
    ensures
        s.name is None ==> !is_folded_away(s, g, q),
        s.name is Some && q.len() == 0 ==> is_folded_away(s, g, q) == g.folded(s.key),
{
}

/// The card names a text in full exactly where the row showed less of it.
pub proof fn a_card_names_what_was_cut(p: Option<Shown>)
    ensures
        left_out(p) is Some <==> p is Some && p->0.shown@ != p->0.full@,
        left_out(p) is Some ==> left_out(p)->0@ == p->0.full@,
{
}

/// A header says what its group is: which kept group, whether it is folded,
/// the branch its rows share, and whose diff stands for them all.
pub proof fn a_header_says_what_its_group_is(
    h: Option<Header>,
    s: SectionView,
    g: workspace::WorkspaceGroups,
    renaming: Option<u128>,
    facts: Seq<RowFacts>,
    q: Seq<char>,
)
    requires
        header_of(h, s, g, renaming, facts, q),
        s.name is Some,
    ensures
        h is Some,
        h->0.name@ == s.name->0,
        h->0.pinned is Some <==> (s.key matches Some(GroupView::Pinned(_))),
        s.key matches Some(GroupView::Pinned(id)) ==> h->0.pinned == Some(id),
        h->0.folded <==> q.len() == 0 && g.folded(s.key),
        h->0.shared is Some <==> shared_git(hits(s.tabs, facts, q), facts) is Some,
        h->0.shared is Some ==> h->0.shared->0@ == shared_git(hits(s.tabs, facts, q), facts)->0,
        h->0.shared is None ==> h->0.diff_of is None,
        h->0.shared is Some ==> h->0.diff_of == first_known(hits(s.tabs, facts, q), facts),
{
}

} // verus!
