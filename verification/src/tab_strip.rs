//! The strip of tab chips and what hangs off it: which chips are drawn, what
//! they read, and what the menu of a tab offers.

use vstd::prelude::*;
use vstd::string::*;
use crate::agents::CLIAgent;
use crate::chrome;
use crate::chrome::TabAvatar;
use crate::text;
use crate::titles;

verus! {

/// The narrowest a chip gets, and the gap behind it, in pixels.
pub const CHIP_MIN_W: u32 = 100;

pub const CHIP_GAP: u32 = 6;

/// How many rows or chips have a chord of their own.
pub const BADGES: usize = 9;

/// A shell that was found on a machine.
#[derive(Debug)]
pub struct DetectedShell {
    pub label: String,
    pub program: String,
    pub args: Vec<String>,
    /// Whether the arguments are the terminal's own rather than the user's.
    pub args_are_tty7_defaults: bool,
}

/// How a shell is started.
#[derive(Debug)]
pub struct ShellSpec {
    pub program: String,
    pub args: Vec<String>,
    pub args_are_tty7_defaults: bool,
}

/// How to start a shell that was found, whose the arguments are included.
pub fn shell_spec(shell: &DetectedShell) -> (r: ShellSpec)
    ensures
        r.program == shell.program,
        r.args@ == shell.args@,
        r.args_are_tty7_defaults == shell.args_are_tty7_defaults,
{
    ShellSpec {
        program: shell.program.clone(),
        args: text::copy_strings(&shell.args),
        args_are_tty7_defaults: shell.args_are_tty7_defaults,
    }
}

/// How many chips fit: at least one.
pub open spec fn chips_that_fit(avail: u32) -> nat {
    let n = avail as nat / (CHIP_MIN_W + CHIP_GAP) as nat;
    if n == 0 {
        1
    } else {
        n
    }
}

/// The place of the first `x`, or the front.
pub open spec fn place_or_front(s: Seq<usize>, x: usize) -> int
    decreases s.len(),
{
    if s.len() == 0 {
        0
    } else if s.drop_last().contains(x) || s.last() != x {
        place_or_front(s.drop_last(), x)
    } else {
        s.len() - 1
    }
}

/// Where the run of drawn chips starts: at the front until the active chip
/// would fall off the end, then as little further as holds it.
pub open spec fn run_start(at: int, fits: int, total: int) -> int {
    let start = if at < fits - 1 {
        0
    } else {
        at - (fits - 1)
    };
    if start < total - fits {
        start
    } else {
        total - fits
    }
}

/// The chips that are drawn when not all fit.
pub open spec fn chips_shown(order: Seq<usize>, active: usize, avail: u32) -> Seq<usize> {
    let fits = chips_that_fit(avail) as int;
    if order.len() <= fits {
        order
    } else {
        let start = run_start(place_or_front(order, active), fits, order.len() as int);
        order.subrange(start, start + fits)
    }
}

proof fn lemma_place_or_front(s: Seq<usize>, x: usize)
    ensures
        s.contains(x) ==> {
            &&& 0 <= place_or_front(s, x) < s.len()
            &&& s[place_or_front(s, x)] == x
            &&& forall|k: int| 0 <= k < place_or_front(s, x) ==> s[k] != x
        },
        !s.contains(x) ==> place_or_front(s, x) == 0,
    decreases s.len(),
{
    if s.len() > 0 {
        let h = s.drop_last();
        lemma_place_or_front(h, x);
        assert forall|k: int| 0 <= k < h.len() implies h[k] == s[k] by {}
        if s.contains(x) && !h.contains(x) {
            let w = choose|w: int| 0 <= w < s.len() && s[w] == x;
            if w < h.len() {
                assert(h[w] == x);
            }
            assert(s.last() == x);
            assert forall|k: int| 0 <= k < s.len() - 1 implies s[k] != x by {
                assert(h[k] != x);
            }
        } else if h.contains(x) {
            let w = choose|w: int| 0 <= w < h.len() && h[w] == x;
            assert(s[w] == x);
        } else {
            assert(s[s.len() - 1] == s.last());
        }
    }
}

/// The chips to draw, out of all in their order, with `avail` whole pixels.
pub fn visible_chips(order: &[usize], active: usize, avail: u32) -> (r: Vec<usize>)
    ensures
        r@ == chips_shown(order@, active, avail),
{
    let n: u32 = avail / (CHIP_MIN_W + CHIP_GAP);
    let fits: usize = if n == 0 {
        1
    } else {
        n as usize
    };
    let total: usize = order.len();
    if total <= fits {
        let out = copy_range(order, 0, total);
        assert(out@ =~= order@);
        return out;
    }
    let at: usize = place_in(order, active);
    proof {
        lemma_place_or_front(order@, active);
    }
    let start: usize = if at < fits - 1 {
        0
    } else {
        at - (fits - 1)
    };
    let start: usize = if start < total - fits {
        start
    } else {
        total - fits
    };
    copy_range(order, start, start + fits)
}

fn place_in(order: &[usize], x: usize) -> (r: usize)
    ensures
        r == place_or_front(order@, x),
{
    let mut i: usize = 0;
    proof {
        lemma_place_or_front(order@, x);
    }
    while i < order.len()
        invariant
            i <= order@.len(),
            forall|k: int| 0 <= k < i ==> order@[k] != x,
        decreases order@.len() - i,
    {
        if order[i] == x {
            proof {
                assert(order@.contains(x));
                lemma_place_or_front(order@, x);
                let p = place_or_front(order@, x);
                assert(order@[p] == x);
                assert(p >= i);
                if i < p {
                    assert(order@[i as int] != x);
                }
            }
            return i;
        }
        i = i + 1;
    }
    proof {
        assert(!order@.contains(x));
        lemma_place_or_front(order@, x);
    }
    0
}

fn copy_range(v: &[usize], i: usize, j: usize) -> (r: Vec<usize>)
    requires
        i <= j <= v@.len(),
    ensures
        r@ == v@.subrange(i as int, j as int),
{
    let mut out: Vec<usize> = Vec::new();
    let mut k: usize = i;
    while k < j
        invariant
            i <= k <= j <= v@.len(),
            out@ == v@.subrange(i as int, k as int),
        decreases j - k,
    {
        out.push(v[k]);
        k = k + 1;
    }
    out
}

/// The active chip is always among the drawn ones, however little room there
/// is.
pub proof fn the_active_chip_is_drawn(order: Seq<usize>, active: usize, avail: u32)
    requires
        order.contains(active),
    ensures
        chips_shown(order, active, avail).contains(active),
{
    let fits = chips_that_fit(avail) as int;
    lemma_place_or_front(order, active);
    if order.len() > fits {
        let at = place_or_front(order, active);
        let start = run_start(at, fits, order.len() as int);
        let shown = chips_shown(order, active, avail);
        assert(shown[at - start] == active);
    }
}

/// Every chip is drawn while all fit, and never more than fit.
pub proof fn no_more_chips_than_fit(order: Seq<usize>, active: usize, avail: u32)
    ensures
        order.len() <= chips_that_fit(avail) ==> chips_shown(order, active, avail) == order,
        order.len() > chips_that_fit(avail) ==> chips_shown(order, active, avail).len()
            == chips_that_fit(avail),
{
    lemma_place_or_front(order, active);
}

/// What an agent in a tab is doing.
#[derive(Clone, Copy, Debug, PartialEq, Eq, Structural)]
pub enum AgentStatus {
    Idle,
    Working,
    Waiting,
    Done,
}

impl AgentStatus {
    /// Whether the state is shown as a dot: any but idle.
    pub fn paints_dot(&self) -> (r: bool)
        ensures
            r == (*self != AgentStatus::Idle),
    {
        match self {
            AgentStatus::Idle => false,
            _ => true,
        }
    }
}

/// The words for the states that are shown, in the user's language.
#[derive(Debug)]
pub struct StatusWords {
    pub working: String,
    pub waiting: String,
    pub done: String,
}

/// The words behind a dot's colour: none where no dot is drawn.
pub open spec fn status_words(status: Option<AgentStatus>, words: StatusWords) -> Option<String> {
    match status {
        Some(AgentStatus::Working) => Some(words.working),
        Some(AgentStatus::Waiting) => Some(words.waiting),
        Some(AgentStatus::Done) => Some(words.done),
        _ => None,
    }
}

pub fn agent_status_label(status: Option<AgentStatus>, words: &StatusWords) -> (r: Option<String>)
    ensures
        r == status_words(status, *words),
        status == Some(AgentStatus::Working) ==> r is Some && r->0@ == words.working@,
        status == Some(AgentStatus::Waiting) ==> r is Some && r->0@ == words.waiting@,
        status == Some(AgentStatus::Done) ==> r is Some && r->0@ == words.done@,
        status is None || status == Some(AgentStatus::Idle) ==> r is None,
{
    match status {
        Some(s) => match s {
            AgentStatus::Idle => None,
            AgentStatus::Working => Some(words.working.clone()),
            AgentStatus::Waiting => Some(words.waiting.clone()),
            AgentStatus::Done => Some(words.done.clone()),
        },
        None => None,
    }
}

/// What the avatar of an agent's tab says under the pointer: the agent, and
/// its state where one is shown.
pub fn avatar_tip(agent: &str, status: Option<AgentStatus>, words: &StatusWords) -> (r: String)
    ensures
        r@ == match status_words(status, *words) {
            Some(state) => agent@ + " — "@ + state@,
            None => agent@,
        },
{
    let mut out = agent.to_owned();
    if let Some(state) = agent_status_label(status, words) {
        out.append(" — ");
        out.append(state.as_str());
    }
    out
}

/// The number in a dot: the unread ones up to nine, none where there are none.
pub fn dot_number(unread: usize) -> (r: Option<usize>)
    ensures
        r == if unread == 0 {
            None
        } else if unread < 9 {
            Some(unread)
        } else {
            Some(9usize)
        },
{
    if unread == 0 {
        None
    } else if unread < 9 {
        Some(unread)
    } else {
        Some(9)
    }
}

/// What `char::to_uppercase` makes of a character.
pub uninterp spec fn upper_of(c: char) -> Seq<char>;

/// The upper case of a character, from `char::to_uppercase`: one or more
/// characters, a function of the character alone.
#[verifier::external_body]
fn to_upper(c: char) -> (r: String)
    ensures
        r@ == upper_of(c),
{
    c.to_uppercase().to_string()
}

/// The letter on a workspace's disc: its first, in upper case, or `~`.
pub fn monogram(name: &str) -> (r: String)
    ensures
        r@ == if name@.len() > 0 {
            upper_of(name@[0])
        } else {
            seq!['~']
        },
{
    let v = text::chars_of(name);
    if v.len() > 0 {
        to_upper(v[0])
    } else {
        let mut out = String::new();
        out.push('~');
        assert(out@ =~= seq!['~']);
        out
    }
}

/// Which of the nine workspace chords opens the workspace at this place.
pub fn select_workspace_action(index: usize) -> (r: Option<usize>)
    ensures
        r == if index < 9 {
            Some((index + 1) as usize)
        } else {
            None
        },
{
    if index < 9 {
        Some(index + 1)
    } else {
        None
    }
}

/// An entry of the menu behind the new-tab button.
#[derive(Clone, Copy, Debug, PartialEq, Eq, Structural)]
pub enum NewTabEntry {
    /// A shell that was found, by its place, and whether it is the default.
    Shell { index: usize, is_default: bool },
    /// A tab as the shortcut opens it, where no shell was found.
    NewTab,
}

/// The entries of the new-tab menu: every shell that was found, or a plain
/// tab where none was.
pub open spec fn new_tab_entries(shells: Seq<DetectedShell>, default_name: Seq<char>) -> Seq<
    NewTabEntry,
> {
    if shells.len() == 0 {
        seq![NewTabEntry::NewTab]
    } else {
        Seq::new(
            shells.len(),
            |i: int|
                NewTabEntry::Shell {
                    index: i as usize,
                    is_default: shells[i].label@ == default_name,
                },
        )
    }
}

pub fn attach_new_tab_menu(shells: &Vec<DetectedShell>, default_name: &str) -> (r: Vec<NewTabEntry>)
    ensures
        r@ == new_tab_entries(shells@, default_name@),
        shells@.len() == 0 ==> r@.len() == 1 && r@[0] is NewTab,
        shells@.len() > 0 ==> r@.len() == shells@.len(),
        forall|i: int|
            0 <= i < shells@.len() ==> (#[trigger] r@[i]) is Shell && r@[i]->index == i
                && r@[i]->is_default == (shells@[i].label@ == default_name@),
{
    let mut out: Vec<NewTabEntry> = Vec::new();
    let mut i: usize = 0;
    while i < shells.len()
        invariant
            i <= shells@.len(),
            out@.len() == i,
            forall|k: int|
                0 <= k < i ==> #[trigger] out@[k] == (NewTabEntry::Shell {
                    index: k as usize,
                    is_default: shells@[k].label@ == default_name@,
                }),
        decreases shells@.len() - i,
    {
        let is_default = text::same(shells[i].label.as_str(), default_name);
        out.push(NewTabEntry::Shell { index: i, is_default });
        i = i + 1;
    }
    if shells.len() == 0 {
        out.push(NewTabEntry::NewTab);
    }
    assert(out@ =~= new_tab_entries(shells@, default_name@));
    out
}

/// What the menu of a tab can do to it.
#[derive(Clone, Copy, Debug, PartialEq, Eq, Structural)]
pub enum TabAction {
    Rename,
    MarkUnread,
    NewWorktree,
    ForkSession,
    SplitRight,
    SplitDown,
    CopyWorkingDirectory,
    CopySessionId,
    Close,
    CloseOthers,
    CloseToTheRight,
    CloseBelow,
}

/// A line of a tab's menu.
#[derive(Clone, Copy, Debug, PartialEq, Eq, Structural)]
pub enum TabMenuLine {
    Item { action: TabAction, enabled: bool },
    Separator,
}

/// What a tab's menu depends on.
#[derive(Clone, Copy, Debug, PartialEq, Eq, Structural)]
pub struct TabMenuFacts {
    /// Whether an agent runs in the tab.
    pub has_agent: bool,
    pub status: Option<AgentStatus>,
    pub in_repo: bool,
    /// Whether an agent session is known.
    pub session: bool,
    /// Whether that session's agent can fork one at all.
    pub can_fork: bool,
    pub forkable: bool,
    pub has_session_id: bool,
    pub has_cwd: bool,
    /// Whether tabs stand below one another.
    pub below_wording: bool,
}

pub open spec fn item(action: TabAction, enabled: bool) -> TabMenuLine {
    TabMenuLine::Item { action, enabled }
}

/// The lines about the agent: marking its tab unread is for one that is done.
pub open spec fn agent_lines(f: TabMenuFacts) -> Seq<TabMenuLine> {
    if f.has_agent {
        seq![item(TabAction::MarkUnread, f.status == Some(AgentStatus::Done))]
    } else {
        Seq::empty()
    }
}

/// The lines that branch off: a worktree inside a repository, a fork where the
/// session's agent has one, a single separator before the two.
pub open spec fn branching_lines(f: TabMenuFacts) -> Seq<TabMenuLine> {
    let fork = f.session && f.can_fork;
    (if f.in_repo || fork {
        seq![TabMenuLine::Separator]
    } else {
        Seq::empty()
    }) + (if f.in_repo {
        seq![item(TabAction::NewWorktree, true)]
    } else {
        Seq::empty()
    }) + (if fork {
        seq![item(TabAction::ForkSession, f.forkable)]
    } else {
        Seq::empty()
    })
}

/// The lines that split the tab and copy what it holds.
pub open spec fn copying_lines(f: TabMenuFacts) -> Seq<TabMenuLine> {
    let lines = seq![
        TabMenuLine::Separator,
        item(TabAction::SplitRight, true),
        item(TabAction::SplitDown, true),
        TabMenuLine::Separator,
        item(TabAction::CopyWorkingDirectory, f.has_cwd),
    ];
    if f.session {
        lines.push(item(TabAction::CopySessionId, f.has_session_id))
    } else {
        lines
    }
}

/// The lines that close tabs: the others where there are any, those behind
/// where this is not the last.
pub open spec fn closing_lines(f: TabMenuFacts, index: int, count: int) -> Seq<TabMenuLine> {
    seq![
        TabMenuLine::Separator,
        item(TabAction::Close, true),
        item(TabAction::CloseOthers, count > 1),
        item(
            if f.below_wording {
                TabAction::CloseBelow
            } else {
                TabAction::CloseToTheRight
            },
            index + 1 < count,
        ),
    ]
}

/// The menu of the tab at `index` of `count`.
pub open spec fn tab_menu(f: TabMenuFacts, index: int, count: int) -> Seq<TabMenuLine> {
    seq![item(TabAction::Rename, true)] + agent_lines(f) + branching_lines(f) + copying_lines(f)
        + closing_lines(f, index, count)
}

fn push_item(m: &mut Vec<TabMenuLine>, action: TabAction, enabled: bool)
    ensures
        final(m)@ == old(m)@.push(item(action, enabled)),
{
    m.push(TabMenuLine::Item { action, enabled });
}

fn push_branching(m: &mut Vec<TabMenuLine>, f: &TabMenuFacts)
    ensures
        final(m)@ == old(m)@ + branching_lines(*f),
{
    let fork = f.session && f.can_fork;
    if f.in_repo {
        m.push(TabMenuLine::Separator);
        push_item(m, TabAction::NewWorktree, true);
    }
    if fork {
        if !f.in_repo {
            m.push(TabMenuLine::Separator);
        }
        push_item(m, TabAction::ForkSession, f.forkable);
    }
    assert(m@ =~= old(m)@ + branching_lines(*f));
}

fn push_copying(m: &mut Vec<TabMenuLine>, f: &TabMenuFacts)
    ensures
        final(m)@ == old(m)@ + copying_lines(*f),
{
    m.push(TabMenuLine::Separator);
    push_item(m, TabAction::SplitRight, true);
    push_item(m, TabAction::SplitDown, true);
    m.push(TabMenuLine::Separator);
    push_item(m, TabAction::CopyWorkingDirectory, f.has_cwd);
    if f.session {
        push_item(m, TabAction::CopySessionId, f.has_session_id);
    }
    assert(m@ =~= old(m)@ + copying_lines(*f));
}

fn push_closing(m: &mut Vec<TabMenuLine>, f: &TabMenuFacts, index: usize, count: usize)
    ensures
        final(m)@ == old(m)@ + closing_lines(*f, index as int, count as int),
{
    m.push(TabMenuLine::Separator);
    push_item(m, TabAction::Close, true);
    push_item(m, TabAction::CloseOthers, count > 1);
    let last = if f.below_wording {
        TabAction::CloseBelow
    } else {
        TabAction::CloseToTheRight
    };
    push_item(m, last, index < count && count - index > 1);
    assert(m@ =~= old(m)@ + closing_lines(*f, index as int, count as int));
}

/// The menu of a tab.
pub fn tab_context_menu(f: &TabMenuFacts, index: usize, count: usize) -> (r: Vec<TabMenuLine>)
    ensures
        r@ == tab_menu(*f, index as int, count as int),
{
    let mut m: Vec<TabMenuLine> = Vec::new();
    push_item(&mut m, TabAction::Rename, true);
    if f.has_agent {
        let done = match f.status {
            Some(s) => match s {
                AgentStatus::Done => true,
                _ => false,
            },
            None => false,
        };
        push_item(&mut m, TabAction::MarkUnread, done);
    }
    assert(m@ =~= seq![item(TabAction::Rename, true)] + agent_lines(*f));
    push_branching(&mut m, f);
    push_copying(&mut m, f);
    push_closing(&mut m, f, index, count);
    m
}

/// The agent that runs in a tab.
#[derive(Debug)]
pub struct TabAgent {
    pub agent: CLIAgent,
    /// What it is called.
    pub name: String,
    pub status: Option<AgentStatus>,
    pub unread: usize,
}

/// What is known of a tab when it is drawn.
#[derive(Debug)]
pub struct TabFacts {
    /// The name it was given.
    pub name: Option<String>,
    /// The title its focused pane reports.
    pub title: String,
    /// What it is called without either.
    pub unnamed: String,
    /// The home directory its paths are seen from.
    pub home: Option<String>,
    /// Whether its name is being typed.
    pub renaming: bool,
    pub agent: Option<TabAgent>,
    /// Whether it is on another machine.
    pub remote: bool,
}

pub open spec fn facts_name(f: TabFacts) -> Option<Seq<char>> {
    text::option_text(f.name)
}

pub open spec fn facts_label(f: TabFacts) -> Seq<char> {
    titles::tab_label_of(facts_name(f), f.title@, f.unnamed@, text::option_text(f.home))
}

pub open spec fn facts_tooltip(f: TabFacts) -> Option<Seq<char>> {
    titles::tooltip_of(facts_name(f), f.title@, f.unnamed@, text::option_text(f.home))
}

/// `a` is the avatar of a tab.
pub open spec fn avatar_of(a: TabAvatar, f: TabFacts, words: StatusWords) -> bool {
    match f.agent {
        Some(t) => chrome::is_avatar(a, Some(t.agent), t.name@, t.status, t.unread, f.remote, words),
        None => a == (TabAvatar::Terminal { dot: f.remote }),
    }
}

impl TabFacts {
    pub fn avatar(&self, words: &StatusWords) -> (r: TabAvatar)
        ensures
            avatar_of(r, *self, *words),
    {
        match &self.agent {
            Some(t) => chrome::tab_avatar(
                Some(t.agent),
                t.name.as_str(),
                t.status,
                t.unread,
                self.remote,
                words,
            ),
            None => chrome::tab_avatar(None, "", None, 0, self.remote, words),
        }
    }

    pub fn label(&self) -> (r: String)
        ensures
            r@ == facts_label(*self),
    {
        match &self.home {
            Some(h) => titles::tab_label(
                &self.name,
                self.title.as_str(),
                self.unnamed.as_str(),
                Some(h.as_str()),
            ),
            None => titles::tab_label(&self.name, self.title.as_str(), self.unnamed.as_str(), None),
        }
    }

    pub fn tooltip(&self) -> (r: Option<String>)
        ensures
            text::option_text(r) == facts_tooltip(*self),
    {
        match &self.home {
            Some(h) => titles::tab_title_tooltip(
                &self.name,
                self.title.as_str(),
                self.unnamed.as_str(),
                Some(h.as_str()),
            ),
            None => titles::tab_title_tooltip(
                &self.name,
                self.title.as_str(),
                self.unnamed.as_str(),
                None,
            ),
        }
    }
}

/// A chip as it is drawn.
#[derive(Debug)]
pub struct Chip {
    pub tab: usize,
    pub label: String,
    /// The full title, where the label is short of it.
    pub tooltip: Option<String>,
    pub active: bool,
    /// Whether the chip is being dragged.
    pub dragged: bool,
    /// The chord shown in place of the close button.
    pub badge: Option<usize>,
    /// The agent's mark. A chip without an agent has none.
    pub avatar: Option<TabAvatar>,
    /// Whether a dot says that the tab is on another machine.
    pub remote_dot: bool,
    pub renaming: bool,
}

/// The strip as it is drawn.
#[derive(Debug)]
pub struct Strip {
    pub chips: Vec<Chip>,
    /// Whether the new-tab button stands behind the chips.
    pub add_button: bool,
    /// Whether the buttons of the folded-away rail stand in front.
    pub rail_buttons: bool,
    /// Whether the window's own buttons stand behind.
    pub window_buttons: bool,
}

/// What the strip depends on besides its tabs.
#[derive(Clone, Copy, Debug, PartialEq, Eq, Structural)]
pub struct StripFacts {
    pub show_chips: bool,
    pub active: usize,
    pub show_badges: bool,
    /// The room for chips, in whole pixels.
    pub avail: u32,
    /// The tab that is being dragged along the strip.
    pub dragged: Option<usize>,
    pub left_panel_open: bool,
    pub right_panel_open: bool,
    /// Whether an open panel at the right draws the window's buttons itself.
    pub panel_has_chrome: bool,
}

/// What a chip says of its tab.
pub open spec fn chip_of(
    c: Chip,
    tabs: Seq<TabFacts>,
    i: usize,
    f: StripFacts,
    words: StatusWords,
) -> bool {
    &&& c.tab == i
    &&& c.label@ == facts_label(tabs[i as int])
    &&& text::option_text(c.tooltip) == facts_tooltip(tabs[i as int])
    &&& c.active == (i == f.active)
    &&& c.dragged == (f.dragged == Some(i))
    &&& c.badge == if f.show_badges && i < BADGES {
        Some(i)
    } else {
        None
    }
    &&& match c.avatar {
        Some(a) => tabs[i as int].agent is Some && avatar_of(a, tabs[i as int], words),
        None => tabs[i as int].agent is None,
    }
    &&& c.remote_dot == tabs[i as int].remote
    &&& c.renaming == tabs[i as int].renaming
}

/// The strip: a chip for each tab of the run that fits, in the order given.
pub open spec fn strip_of(
    s: Strip,
    tabs: Seq<TabFacts>,
    order: Seq<usize>,
    f: StripFacts,
    words: StatusWords,
) -> bool {
    let run = if f.show_chips {
        chips_shown(order, f.active, f.avail)
    } else {
        Seq::empty()
    };
    &&& s.chips@.len() == run.len()
    &&& forall|k: int| 0 <= k < run.len() ==> chip_of(
        #[trigger] s.chips@[k],
        tabs,
        run[k],
        f,
        words,
    )
    &&& s.add_button == f.show_chips
    &&& s.rail_buttons == (!f.show_chips && !f.left_panel_open)
    &&& s.window_buttons == (!f.right_panel_open || !f.panel_has_chrome)
}

/// The strip of tabs, in the order they are drawn in.
pub fn tab_strip(
    tabs: &Vec<TabFacts>,
    order: &Vec<usize>,
    f: &StripFacts,
    words: &StatusWords,
) -> (r: Strip)
    requires
        forall|k: int| 0 <= k < order@.len() ==> #[trigger] order@[k] < tabs@.len(),
    ensures
        strip_of(r, tabs@, order@, *f, *words),
{
    let mut chips: Vec<Chip> = Vec::new();
    if f.show_chips {
        let run = visible_chips(order.as_slice(), f.active, f.avail);
        proof {
            lemma_place_or_front(order@, f.active);
        }
        let mut k: usize = 0;
        while k < run.len()
            invariant
                k <= run@.len(),
                run@ == chips_shown(order@, f.active, f.avail),
                forall|k: int| 0 <= k < run@.len() ==> #[trigger] run@[k] < tabs@.len(),
                chips@.len() == k,
                forall|j: int|
                    0 <= j < k ==> chip_of(#[trigger] chips@[j], tabs@, run@[j], *f, *words),
            decreases run@.len() - k,
        {
            let i: usize = run[k];
            let t = &tabs[i];
            let dragged = match f.dragged {
                Some(d) => d == i,
                None => false,
            };
            let badge = if f.show_badges && i < BADGES {
                Some(i)
            } else {
                None
            };
            let avatar = if t.agent.is_some() {
                Some(t.avatar(words))
            } else {
                None
            };
            chips.push(
                Chip {
                    tab: i,
                    label: t.label(),
                    tooltip: t.tooltip(),
                    active: i == f.active,
                    dragged,
                    badge,
                    avatar,
                    remote_dot: t.remote,
                    renaming: t.renaming,
                },
            );
            k = k + 1;
        }
    }
    Strip {
        chips,
        add_button: f.show_chips,
        rail_buttons: !f.show_chips && !f.left_panel_open,
        window_buttons: !f.right_panel_open || !f.panel_has_chrome,
    }
}

/// What the button of the changes view says: its title, and how many files
/// changed where any did.
pub open spec fn changes_tip(title: Seq<char>, changed: nat) -> Seq<char> {
    if changed > 0 {
        title + " · "@ + text::decimal(changed)
    } else {
        title
    }
}

pub fn changes_tooltip(title: &str, changed: u128) -> (r: String)
    ensures
        r@ == changes_tip(title@, changed as nat),
        changed == 0 ==> r@ == title@,
        changed > 0 ==> r@ == title@ + " · "@ + text::decimal(changed as nat),
{
    let mut out = title.to_owned();
    if changed > 0 {
        out.append(" · ");
        let n = text::decimal_of(changed);
        out.append(n.as_str());
    }
    out
}

/// What a button says under the pointer: what it does, then its chord.
pub fn chord_hint(what: &str, keys: Option<&str>) -> (r: String)
    ensures
        r@ == match keys {
            Some(k) => what@ + "  "@ + k@,
            None => what@,
        },
{
    let mut out = what.to_owned();
    if let Some(k) = keys {
        out.append("  ");
        out.append(k);
    }
    out
}

/// A working agent is called working, a waiting one waiting and a finished one
/// done; an idle agent, or none, is called nothing.
pub proof fn a_state_is_called_by_its_own_word(status: Option<AgentStatus>, words: StatusWords)
    ensures
        status == Some(AgentStatus::Working) ==> status_words(status, words) == Some(words.working),
        status == Some(AgentStatus::Waiting) ==> status_words(status, words) == Some(words.waiting),
        status == Some(AgentStatus::Done) ==> status_words(status, words) == Some(words.done),
        status_words(status, words) is None <==> status is None || status == Some(
            AgentStatus::Idle,
        ),
{
}

/// Where the three words differ, two agents that read the same are doing the
/// same.
pub proof fn two_states_never_read_the_same(
    a: Option<AgentStatus>,
    b: Option<AgentStatus>,
    words: StatusWords,
)
    requires
        words.working@ != words.waiting@,
        words.working@ != words.done@,
        words.waiting@ != words.done@,
        a is Some && a->0 != AgentStatus::Idle,
        b is Some,
        a != b,
    ensures
        status_words(b, words) is None || status_words(a, words)->0@ != status_words(b, words)->0@,
{
}

/// The drawn chips are a run of all of them, in their order and with none left
/// out in between; it starts at the front as long as that shows the active
/// chip, and moves no further than that takes.
pub proof fn the_drawn_chips_are_a_run(order: Seq<usize>, active: usize, avail: u32)
    requires
        order.len() > chips_that_fit(avail),
        order.contains(active),
    ensures
        exists|start: int|
            #![trigger order.subrange(start, start + chips_that_fit(avail))]
            {
                &&& 0 <= start <= order.len() - chips_that_fit(avail)
                &&& chips_shown(order, active, avail) == order.subrange(
                    start,
                    start + chips_that_fit(avail),
                )
                &&& start > 0 ==> chips_shown(order, active, avail).last() == active
            },
        order.take(chips_that_fit(avail) as int).contains(active) ==> chips_shown(
            order,
            active,
            avail,
        ) == order.take(chips_that_fit(avail) as int),
{
    let fits = chips_that_fit(avail) as int;
    lemma_place_or_front(order, active);
    let at = place_or_front(order, active);
    let start = run_start(at, fits, order.len() as int);
    assert(chips_shown(order, active, avail) == order.subrange(start, start + fits));
    let front = order.take(fits);
    if front.contains(active) {
        let k = choose|k: int| 0 <= k < front.len() && front[k] == active;
        assert(order[k] == active);
        assert(at <= k);
        assert(start == 0);
        assert(order.subrange(0, fits) =~= front);
    }
}

/// As many chips fit as there is room for at their narrowest, with the gap
/// behind each, and always one.
pub proof fn chips_fit_at_their_narrowest(avail: u32)
    ensures
        chips_that_fit(avail) >= 1,
        chips_that_fit(avail) > 1 ==> chips_that_fit(avail) * 106 <= avail,
        avail < (chips_that_fit(avail) + 1) * 106,
{
    assert((CHIP_MIN_W + CHIP_GAP) as nat == 106);
    assert(chips_that_fit(avail) == if avail as nat / 106 == 0 {
        1
    } else {
        avail as nat / 106
    });
}

/// The chip of a tab says what its tab is: it leads to that tab, carries its
/// name and its mark, and is lit exactly when the tab is the active one. The
/// first nine carry the number of their chord while badges are shown.
pub proof fn a_chip_is_of_its_tab(
    c: Chip,
    tabs: Seq<TabFacts>,
    i: usize,
    f: StripFacts,
    words: StatusWords,
)
    requires
        chip_of(c, tabs, i, f, words),
        i < tabs.len(),
    ensures
        c.tab == i,
        c.active <==> i == f.active,
        c.dragged <==> f.dragged == Some(i),
        c.badge is Some <==> f.show_badges && i < 9,
        c.badge is Some ==> c.badge->0 == i,
        c.avatar is Some <==> tabs[i as int].agent is Some,
        c.avatar is Some ==> c.avatar->0 is Agent && c.avatar->0->agent
            == tabs[i as int].agent->0.agent,
        c.remote_dot == tabs[i as int].remote,
        c.renaming == tabs[i as int].renaming,
{
}

/// A strip draws chips and the button for a new tab only where tabs go in it.
/// Where they do not, it holds the buttons of the rail while that is folded
/// away. The window's own buttons are left to the panel on the right only
/// while that is open and draws them.
pub proof fn a_strip_holds_what_is_not_drawn_elsewhere(
    s: Strip,
    tabs: Seq<TabFacts>,
    order: Seq<usize>,
    f: StripFacts,
    words: StatusWords,
)
    requires
        strip_of(s, tabs, order, f, words),
    ensures
        !f.show_chips ==> s.chips@.len() == 0 && !s.add_button,
        f.show_chips ==> s.add_button && !s.rail_buttons,
        !f.show_chips ==> s.rail_buttons == !f.left_panel_open,
        !s.window_buttons <==> f.right_panel_open && f.panel_has_chrome,
        f.show_chips && order.len() <= chips_that_fit(f.avail) ==> s.chips@.len() == order.len()
            && forall|k: int|
            0 <= k < order.len() ==> (#[trigger] s.chips@[k]).tab == order[k] && s.chips@[k].active
                == (order[k] == f.active),
{
    if f.show_chips && order.len() <= chips_that_fit(f.avail) {
        assert forall|k: int| 0 <= k < order.len() implies (#[trigger] s.chips@[k]).tab == order[k]
            && s.chips@[k].active == (order[k] == f.active) by {
            assert(chip_of(s.chips@[k], tabs, order[k], f, words));
        }
    }
}

/// Whether a menu offers an action, and whether it can be taken.
pub open spec fn offers(menu: Seq<TabMenuLine>, action: TabAction, enabled: bool) -> bool {
    menu.contains(TabMenuLine::Item { action, enabled })
}

/// What the menu of a tab offers, and when: renaming, splitting and closing
/// always; marking as unread only for an agent, and then only once it is done;
/// a worktree only inside a repository; a fork only of a session whose agent
/// can fork; closing the others only where there are others, and those behind
/// only where there are any behind.
pub proof fn a_menu_offers_what_can_be_done(f: TabMenuFacts, index: int, count: int)
    ensures
        tab_menu(f, index, count)[0] == (TabMenuLine::Item {
            action: TabAction::Rename,
            enabled: true,
        }),
        forall|enabled: bool| #[trigger]
            offers(tab_menu(f, index, count), TabAction::MarkUnread, enabled) <==> f.has_agent
                && enabled == (f.status == Some(AgentStatus::Done)),
        forall|enabled: bool| #[trigger]
            offers(tab_menu(f, index, count), TabAction::NewWorktree, enabled) <==> f.in_repo
                && enabled,
        forall|enabled: bool| #[trigger]
            offers(tab_menu(f, index, count), TabAction::ForkSession, enabled) <==> f.session
                && f.can_fork && enabled == f.forkable,
        forall|enabled: bool| #[trigger]
            offers(tab_menu(f, index, count), TabAction::SplitRight, enabled) <==> enabled,
        forall|enabled: bool| #[trigger]
            offers(tab_menu(f, index, count), TabAction::SplitDown, enabled) <==> enabled,
        forall|enabled: bool| #[trigger]
            offers(tab_menu(f, index, count), TabAction::CopyWorkingDirectory, enabled)
                <==> enabled == f.has_cwd,
        forall|enabled: bool| #[trigger]
            offers(tab_menu(f, index, count), TabAction::CopySessionId, enabled) <==> f.session
                && enabled == f.has_session_id,
        forall|enabled: bool| #[trigger]
            offers(tab_menu(f, index, count), TabAction::Close, enabled) <==> enabled,
        forall|enabled: bool| #[trigger]
            offers(tab_menu(f, index, count), TabAction::CloseOthers, enabled) <==> enabled == (count
                > 1),
        forall|enabled: bool| #[trigger]
            offers(tab_menu(f, index, count), TabAction::CloseBelow, enabled) <==> f.below_wording
                && enabled == (index + 1 < count),
        forall|enabled: bool| #[trigger]
            offers(tab_menu(f, index, count), TabAction::CloseToTheRight, enabled)
                <==> !f.below_wording && enabled == (index + 1 < count),
{
    let menu = tab_menu(f, index, count);
    let a = seq![item(TabAction::Rename, true)];
    let b = agent_lines(f);
    let c = branching_lines(f);
    let d = copying_lines(f);
    let e = closing_lines(f, index, count);
    assert forall|x: TabMenuLine| #[trigger] menu.contains(x) <==> a.contains(x) || b.contains(x)
        || c.contains(x) || d.contains(x) || e.contains(x) by {
        lemma_in_either(a, b, x);
        lemma_in_either(a + b, c, x);
        lemma_in_either(a + b + c, d, x);
        lemma_in_either(a + b + c + d, e, x);
    }
    let fork = f.session && f.can_fork;
    let c1 = if f.in_repo || fork {
        seq![TabMenuLine::Separator]
    } else {
        Seq::empty()
    };
    let c2 = if f.in_repo {
        seq![item(TabAction::NewWorktree, true)]
    } else {
        Seq::empty()
    };
    let c3 = if fork {
        seq![item(TabAction::ForkSession, f.forkable)]
    } else {
        Seq::empty()
    };
    assert forall|x: TabMenuLine| #[trigger] c.contains(x) <==> c1.contains(x) || c2.contains(x)
        || c3.contains(x) by {
        lemma_in_either(c1, c2, x);
        lemma_in_either(c1 + c2, c3, x);
    }
    lemma_items(a);
    lemma_items(b);
    lemma_items(c1);
    lemma_items(c2);
    lemma_items(c3);
    lemma_items(d);
    lemma_items(e);
}

proof fn lemma_in_either(a: Seq<TabMenuLine>, b: Seq<TabMenuLine>, x: TabMenuLine)
    ensures
        (a + b).contains(x) <==> a.contains(x) || b.contains(x),
{
    let c = a + b;
    if a.contains(x) {
        let k = choose|k: int| 0 <= k < a.len() && a[k] == x;
        assert(c[k] == x);
    }
    if b.contains(x) {
        let k = choose|k: int| 0 <= k < b.len() && b[k] == x;
        assert(c[a.len() + k] == x);
    }
    if c.contains(x) {
        let k = choose|k: int| 0 <= k < c.len() && c[k] == x;
        if k < a.len() {
            assert(a[k] == x);
        } else {
            assert(b[k - a.len()] == x);
        }
    }
}

/// What a short list of lines holds, line by line.
proof fn lemma_items(s: Seq<TabMenuLine>)
    requires
        s.len() <= 6,
    ensures
        forall|x: TabMenuLine| #[trigger]
            s.contains(x) <==> (s.len() > 0 && s[0] == x) || (s.len() > 1 && s[1] == x) || (s.len()
                > 2 && s[2] == x) || (s.len() > 3 && s[3] == x) || (s.len() > 4 && s[4] == x) || (
            s.len() > 5 && s[5] == x),
{
    assert forall|x: TabMenuLine| #[trigger] s.contains(x) <==> (s.len() > 0 && s[0] == x) || (
    s.len() > 1 && s[1] == x) || (s.len() > 2 && s[2] == x) || (s.len() > 3 && s[3] == x) || (
    s.len() > 4 && s[4] == x) || (s.len() > 5 && s[5] == x) by {
        if s.contains(x) {
            let k = choose|k: int| 0 <= k < s.len() && s[k] == x;
            assert(k == 0 || k == 1 || k == 2 || k == 3 || k == 4 || k == 5);
        }
    }
}

/// A tab is called by the name it was given, and only without one by what its
/// pane reports; a named tab has no tooltip.
pub proof fn a_named_tab_reads_its_name(f: TabFacts)
    ensures
        f.name is Some && text::trimmed(f.name->0@).len() > 0 ==> facts_label(f) == text::trimmed(
            f.name->0@,
        ) && facts_tooltip(f) is None,
        (f.name is None || text::trimmed(f.name->0@).len() == 0) && text::trimmed(f.title@).len()
            == 0 ==> facts_label(f) == f.unnamed@ && facts_tooltip(f) is None,
        f.name is None ==> facts_label(f) == titles::tab_label_of(
            None,
            f.title@,
            f.unnamed@,
            text::option_text(f.home),
        ),
{
    titles::a_given_name_is_what_a_tab_is_called(
        facts_name(f),
        f.title@,
        f.unnamed@,
        text::option_text(f.home),
    );
}

} // verus!
