//! The small parts of the window's chrome: the avatars, the head of the rail,
//! the tiles of the panel on the right.

use vstd::prelude::*;
use vstd::string::*;
use crate::agents::CLIAgent;
use crate::sftp::{RightPanel, RightPanelTab};
use crate::tab_strip;
use crate::tab_strip::{AgentStatus, StatusWords};
use crate::text;

verus! {

/// A tile of the panel on the right.
#[derive(Debug)]
pub struct PanelTile {
    pub tab: RightPanelTab,
    pub selected: bool,
    pub tooltip: String,
}

/// What the tiles are called, in the user's language.
#[derive(Debug)]
pub struct PanelWords {
    pub info: String,
    pub changes: String,
    pub files: String,
}

/// How many files changed: none while nothing is known.
pub open spec fn changed_files(changed: Option<(usize, usize)>) -> nat {
    match changed {
        Some((known, fresh)) => (known + fresh) as nat,
        None => 0,
    }
}

/// `r` is the tile of `tab`.
pub open spec fn is_tile(
    r: PanelTile,
    tab: RightPanelTab,
    active: RightPanelTab,
    tip: Seq<char>,
) -> bool {
    r.tab == tab && r.selected == (active == tab) && r.tooltip@ == tip
}

/// The tiles of the panel on the right: its pages, the one it shows marked.
/// `changed` are the files that changed, those under version control and the others, once they
/// are known.
pub fn right_panel_tabs(active: RightPanelTab, changed: Option<(usize, usize)>, words: &PanelWords) -> (r:
    Vec<PanelTile>)
    ensures
        r@.len() == 3,
        is_tile(r@[0], RightPanelTab::Info, active, words.info@),
        is_tile(
            r@[1],
            RightPanelTab::Changes,
            active,
            tab_strip::changes_tip(words.changes@, changed_files(changed)),
        ),
        is_tile(r@[2], RightPanelTab::Files, active, words.files@),
{
    let n: u128 = match changed {
        Some((known, fresh)) => known as u128 + fresh as u128,
        None => 0,
    };
    let tip = tab_strip::changes_tooltip(words.changes.as_str(), n);
    let mut out: Vec<PanelTile> = Vec::new();
    out.push(
        PanelTile {
            tab: RightPanelTab::Info,
            selected: active == RightPanelTab::Info,
            tooltip: words.info.clone(),
        },
    );
    out.push(
        PanelTile {
            tab: RightPanelTab::Changes,
            selected: active == RightPanelTab::Changes,
            tooltip: tip,
        },
    );
    out.push(
        PanelTile {
            tab: RightPanelTab::Files,
            selected: active == RightPanelTab::Files,
            tooltip: words.files.clone(),
        },
    );
    out
}

/// What the tile that shows or hides the panel on the right says.
#[derive(Clone, Copy, Debug, PartialEq, Eq, Structural)]
pub enum PanelTip {
    Hide,
    Show,
}

pub fn window_chrome(panel: &RightPanel) -> (r: PanelTip)
    ensures
        r == (if panel.visible {
            PanelTip::Hide
        } else {
            PanelTip::Show
        }),
{
    if panel.visible {
        PanelTip::Hide
    } else {
        PanelTip::Show
    }
}

/// The head of the rail: a field while the workspace is renamed, else its name
/// with its first letter on a disc.
#[derive(Debug)]
pub enum WorkspaceHead {
    Field,
    Named { name: String, monogram: String },
}

/// The head of the rail. A workspace without a name goes by the terminal's.
pub fn workspace_head(renaming: bool, name: &Option<String>) -> (r: WorkspaceHead)
    ensures
        if renaming {
            r is Field
        } else {
            let shown = match *name {
                Some(n) => n@,
                None => "tty7"@,
            };
            r matches WorkspaceHead::Named { name: n, monogram: m } && n@ == shown && m@ == (
            if shown.len() > 0 {
                tab_strip::upper_of(shown[0])
            } else {
                seq!['~']
            })
        },
{
    if renaming {
        return WorkspaceHead::Field;
    }
    let shown: String = match name {
        Some(n) => n.clone(),
        None => text::owned("tty7"),
    };
    let monogram = tab_strip::monogram(shown.as_str());
    WorkspaceHead::Named { name: shown, monogram }
}

/// Whether a workspace's panes are running.
#[derive(Clone, Copy, Debug, PartialEq, Eq, Structural)]
pub enum Liveness {
    Alive,
    Unknown,
    Stopped,
}

/// The dot of a workspace.
#[derive(Clone, Copy, Debug, PartialEq, Eq, Structural)]
pub enum LiveDot {
    Live,
    Unknown,
}

/// The avatar of a workspace.
#[derive(Debug)]
pub struct WorkspaceAvatar {
    pub initial: String,
    /// Whether it is dimmed, as it is not the one that is open.
    pub dimmed: bool,
    pub dot: Option<LiveDot>,
}

/// The avatar of a workspace; one that is stopped has no dot.
pub fn workspace_avatar(name: &str, live: Liveness, current: bool) -> (r: WorkspaceAvatar)
    ensures
        r.initial@ == (if name@.len() > 0 {
            tab_strip::upper_of(name@[0])
        } else {
            seq!['~']
        }),
        r.dimmed == !current,
        r.dot == (match live {
            Liveness::Alive => Some(LiveDot::Live),
            Liveness::Unknown => Some(LiveDot::Unknown),
            Liveness::Stopped => None,
        }),
{
    let dot = match live {
        Liveness::Alive => Some(LiveDot::Live),
        Liveness::Unknown => Some(LiveDot::Unknown),
        Liveness::Stopped => None,
    };
    WorkspaceAvatar { initial: tab_strip::monogram(name), dimmed: !current, dot }
}

/// The dot of a tab: what is in it, and how it is painted.
#[derive(Clone, Copy, Debug, PartialEq, Eq, Structural)]
pub struct StatusDot {
    /// How many are unread, up to nine.
    pub number: Option<usize>,
    /// Whether it is drawn with a hole: something waits for the user.
    pub hollow: bool,
}

/// The avatar of a tab: an agent's mark, with what it is doing in words and as
/// a dot, or a terminal's, with a dot when it is on another machine.
#[derive(Debug)]
pub enum TabAvatar {
    Agent { agent: CLIAgent, tip: String, dot: Option<StatusDot> },
    Terminal { dot: bool },
}

/// The dot of an agent's tab: none while idle. A dot with a number in it has
/// no hole.
pub open spec fn agent_dot(status: Option<AgentStatus>, unread: usize) -> Option<StatusDot> {
    match status {
        Some(s) => if s == AgentStatus::Idle {
            None
        } else {
            Some(
                StatusDot {
                    number: if unread == 0 {
                        None
                    } else if unread < 9 {
                        Some(unread)
                    } else {
                        Some(9usize)
                    },
                    hollow: s == AgentStatus::Waiting && unread == 0,
                },
            )
        },
        None => None,
    }
}

/// `r` is the avatar of a tab. `name` is what the agent is called.
pub open spec fn is_avatar(
    r: TabAvatar,
    agent: Option<CLIAgent>,
    name: Seq<char>,
    status: Option<AgentStatus>,
    unread: usize,
    remote: bool,
    words: StatusWords,
) -> bool {
    match agent {
        Some(a) => {
            &&& r matches TabAvatar::Agent { agent: ra, tip, dot }
            &&& ra == a
            &&& tip@ == (match tab_strip::status_words(status, words) {
                Some(state) => name + " — "@ + state@,
                None => name,
            })
            &&& dot == agent_dot(status, unread)
        },
        None => r == (TabAvatar::Terminal { dot: remote }),
    }
}

/// The avatar of a tab. `name` is what the agent is called.
pub fn tab_avatar(
    agent: Option<CLIAgent>,
    name: &str,
    status: Option<AgentStatus>,
    unread: usize,
    remote: bool,
    words: &StatusWords,
) -> (r: TabAvatar)
    ensures
        is_avatar(r, agent, name@, status, unread, remote, *words),
{
    match agent {
        Some(a) => {
            let dot = match status {
                Some(s) => if s.paints_dot() {
                    Some(
                        StatusDot {
                            number: tab_strip::dot_number(unread),
                            hollow: s == AgentStatus::Waiting && unread == 0,
                        },
                    )
                } else {
                    None
                },
                None => None,
            };
            TabAvatar::Agent { agent: a, tip: tab_strip::avatar_tip(name, status, words), dot }
        },
        None => TabAvatar::Terminal { dot: remote },
    }
}

/// An agent's tab has a dot exactly while the agent is doing something; the dot
/// names how many are unread, up to nine, and has a hole exactly where nothing
/// is unread and the agent waits for the user.
pub proof fn a_dot_says_what_needs_the_user(status: Option<AgentStatus>, unread: usize)
    ensures
        agent_dot(status, unread) is Some <==> status is Some && status->0 !is Idle,
        agent_dot(status, unread) is Some ==> {
            &&& agent_dot(status, unread)->0.number is None <==> unread == 0
            &&& 0 < unread <= 9 ==> agent_dot(status, unread)->0.number == Some(unread)
            &&& unread > 9 ==> agent_dot(status, unread)->0.number == Some(9usize)
            &&& agent_dot(status, unread)->0.hollow <==> status->0 is Waiting && unread == 0
        },
{
}

/// The avatar of a tab is its agent's, with the agent's name and the word for
/// what it is doing; a tab without an agent has a terminal's, with a dot
/// exactly on another machine.
pub proof fn an_avatar_is_of_the_agent_in_the_tab(
    r: TabAvatar,
    agent: Option<CLIAgent>,
    name: Seq<char>,
    status: Option<AgentStatus>,
    unread: usize,
    remote: bool,
    words: StatusWords,
)
    requires
        is_avatar(r, agent, name, status, unread, remote, words),
    ensures
        agent is None ==> r is Terminal && r->Terminal_dot == remote,
        agent is Some ==> r is Agent && r->agent == agent->0,
        agent is Some && status == Some(AgentStatus::Working) ==> r->tip@ == name + " — "@
            + words.working@,
        agent is Some && status == Some(AgentStatus::Waiting) ==> r->tip@ == name + " — "@
            + words.waiting@,
        agent is Some && status == Some(AgentStatus::Done) ==> r->tip@ == name + " — "@
            + words.done@,
        agent is Some && (status is None || status == Some(AgentStatus::Idle)) ==> r->tip@ == name
            && r->Agent_dot is None,
        agent is Some && status is Some && status->0 !is Idle ==> r->Agent_dot is Some,
{
}

/// All files that changed are counted, those under version control and the
/// others.
pub proof fn every_changed_file_counts(known: usize, fresh: usize)
    ensures
        changed_files(Some((known, fresh))) == known + fresh,
        changed_files(None) == 0,
{
}

/// A tile leads to its own page and is marked exactly while that is shown.
pub proof fn a_tile_is_marked_while_its_page_is_shown(
    r: PanelTile,
    tab: RightPanelTab,
    active: RightPanelTab,
    tip: Seq<char>,
)
    requires
        is_tile(r, tab, active, tip),
    ensures
        r.tab == tab,
        r.selected <==> active == tab,
        r.tooltip@ == tip,
{
}

} // verus!
