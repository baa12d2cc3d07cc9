//! The hooks that put each agent's status in the sidebar, machine by machine.

use vstd::prelude::*;
use vstd::string::*;
use crate::order;
use crate::settings;
use crate::settings::{
    Btn, BtnKey, BtnKind, Dropdown, EntryView, Group, Label, LabelView, MenuEntry, MenuKey, MenuRow,
    Pick, RowKey, SettingsState, Tty7App, Word,
};
use crate::settings_pages;
use crate::text;

verus! {

/// The agents that have hooks.
#[derive(Clone, Copy, Debug, PartialEq, Eq, Structural)]
pub enum HookAgent {
    Claude,
    Codex,
    TraeCode,
    Copilot,
    OpenCode,
    Pi,
    Grok,
    OhMyPi,
    Gemini,
    Droid,
    Qwen,
    Goose,
    Kimi,
    QoderCLI,
    Crush,
    CodeBuddy,
    Cursor,
}

/// The agents the tab bar has a mark for.
#[derive(Clone, Copy, Debug, PartialEq, Eq, Structural)]
pub enum CLIAgent {
    Claude,
    Codex,
    TraeCode,
    Copilot,
    OpenCode,
    Pi,
    Grok,
    OhMyPi,
    Gemini,
    Droid,
    Qwen,
    Goose,
    Kimi,
    QoderCLI,
    Crush,
    CodeBuddy,
    Cursor,
}

/// The mark of an agent.
pub open spec fn mark_of(agent: HookAgent) -> CLIAgent {
    match agent {
        HookAgent::Claude => CLIAgent::Claude,
        HookAgent::Codex => CLIAgent::Codex,
        HookAgent::TraeCode => CLIAgent::TraeCode,
        HookAgent::Copilot => CLIAgent::Copilot,
        HookAgent::OpenCode => CLIAgent::OpenCode,
        HookAgent::Pi => CLIAgent::Pi,
        HookAgent::Grok => CLIAgent::Grok,
        HookAgent::OhMyPi => CLIAgent::OhMyPi,
        HookAgent::Gemini => CLIAgent::Gemini,
        HookAgent::Droid => CLIAgent::Droid,
        HookAgent::Qwen => CLIAgent::Qwen,
        HookAgent::Goose => CLIAgent::Goose,
        HookAgent::Kimi => CLIAgent::Kimi,
        HookAgent::QoderCLI => CLIAgent::QoderCLI,
        HookAgent::Crush => CLIAgent::Crush,
        HookAgent::CodeBuddy => CLIAgent::CodeBuddy,
        HookAgent::Cursor => CLIAgent::Cursor,
    }
}

/// The mark of an agent, the one the tab bar draws for it.
pub fn cli_agent(agent: HookAgent) -> (r: CLIAgent)
    ensures
        r == mark_of(agent),
        (r is Claude) == (agent is Claude),
        (r is Codex) == (agent is Codex),
        (r is TraeCode) == (agent is TraeCode),
        (r is Copilot) == (agent is Copilot),
        (r is OpenCode) == (agent is OpenCode),
        (r is Pi) == (agent is Pi),
        (r is Grok) == (agent is Grok),
        (r is OhMyPi) == (agent is OhMyPi),
        (r is Gemini) == (agent is Gemini),
        (r is Droid) == (agent is Droid),
        (r is Qwen) == (agent is Qwen),
        (r is Goose) == (agent is Goose),
        (r is Kimi) == (agent is Kimi),
        (r is QoderCLI) == (agent is QoderCLI),
        (r is Crush) == (agent is Crush),
        (r is CodeBuddy) == (agent is CodeBuddy),
        (r is Cursor) == (agent is Cursor),
{
    match agent {
        HookAgent::Claude => CLIAgent::Claude,
        HookAgent::Codex => CLIAgent::Codex,
        HookAgent::TraeCode => CLIAgent::TraeCode,
        HookAgent::Copilot => CLIAgent::Copilot,
        HookAgent::OpenCode => CLIAgent::OpenCode,
        HookAgent::Pi => CLIAgent::Pi,
        HookAgent::Grok => CLIAgent::Grok,
        HookAgent::OhMyPi => CLIAgent::OhMyPi,
        HookAgent::Gemini => CLIAgent::Gemini,
        HookAgent::Droid => CLIAgent::Droid,
        HookAgent::Qwen => CLIAgent::Qwen,
        HookAgent::Goose => CLIAgent::Goose,
        HookAgent::Kimi => CLIAgent::Kimi,
        HookAgent::QoderCLI => CLIAgent::QoderCLI,
        HookAgent::Crush => CLIAgent::Crush,
        HookAgent::CodeBuddy => CLIAgent::CodeBuddy,
        HookAgent::Cursor => CLIAgent::Cursor,
    }
}

/// No two agents share a mark.
pub proof fn no_two_agents_share_a_mark(a: HookAgent, b: HookAgent)
    requires
        mark_of(a) == mark_of(b),
    ensures
        a == b,
{
}

#[derive(Clone, Copy, Debug, PartialEq, Eq, Structural)]
pub enum HooksState {
    NotInstalled,
    Installed,
    Outdated,
}

/// The machine hooks are on.
#[derive(Clone, Copy, Debug, PartialEq, Eq, Structural)]
pub enum HookHost {
    Local,
    Remote(u64),
}

#[derive(Debug)]
pub struct Machine {
    pub host: HookHost,
    pub label: String,
}

/// The hooks of one agent on a machine.
#[derive(Debug)]
pub struct AgentHookRow {
    pub agent: HookAgent,
    pub name: String,
    /// The file the hooks are in.
    pub target: String,
    pub state: HooksState,
}

/// What is known of a machine's hooks.
#[derive(Debug)]
pub enum AgentHooksView {
    Loading,
    Unavailable(String),
    Ready(Vec<AgentHookRow>),
}

/// The page of agents while it is open.
#[derive(Debug)]
pub struct AgentsState {
    pub view: AgentHooksView,
    pub note: Option<(HookAgent, String)>,
    pub host: HookHost,
    pub query: String,
    pub show_all: bool,
    /// The agents that were installed or removed since the list was drawn
    /// anew, kept on it.
    pub touched: Vec<HookAgent>,
    pub busy: Vec<HookAgent>,
}

#[derive(Clone, Copy, Debug, PartialEq, Eq, Structural)]
pub enum HookStatus {
    Working,
    Installed,
    UpdateAvailable,
}

/// The row of an agent.
#[derive(Debug)]
pub struct AgentRow {
    pub agent: HookAgent,
    pub mark: CLIAgent,
    pub name: String,
    pub target: String,
    pub status: Option<HookStatus>,
    pub action: Option<Btn>,
    /// Whether it has a menu.
    pub has_menu: bool,
    /// The menu while it is open.
    pub menu: Option<Vec<MenuRow>>,
    pub note: Option<String>,
}

/// What stands in for an empty list.
#[derive(Clone, Copy, Debug, PartialEq, Eq, Structural)]
pub enum NoAgents {
    NoneInstalled,
    NoneMatch,
}

/// The line under the list: how many more there are, and the button that
/// shows them or hides them again.
#[derive(Clone, Copy, Debug, PartialEq, Eq, Structural)]
pub struct MoreAgents {
    pub rest: Option<usize>,
    pub button: Btn,
}

#[derive(Debug)]
pub enum AgentsBody {
    Loading,
    Unavailable(String),
    Ready { rows: Vec<AgentRow>, empty: Option<NoAgents>, more: Option<MoreAgents>, scrolls: bool },
}

/// The group of agents.
#[derive(Debug)]
pub struct AgentsGroup {
    pub machine: Dropdown,
    /// What the machine is called.
    pub label: String,
    pub local: bool,
    /// How many are installed, once it is known.
    pub installed: Option<usize>,
    pub body: AgentsBody,
}

pub open spec fn has_hooks(r: AgentHookRow) -> bool {
    r.state != HooksState::NotInstalled
}

/// How many agents have hooks.
pub open spec fn installed_count(rows: Seq<AgentHookRow>) -> nat
    decreases rows.len(),
{
    if rows.len() == 0 {
        0
    } else {
        installed_count(rows.drop_last()) + (if has_hooks(rows.last()) {
            1nat
        } else {
            0
        })
    }
}

fn count_installed(rows: &Vec<AgentHookRow>) -> (r: usize)
    ensures
        r == installed_count(rows@),
{
    let mut n: usize = 0;
    let mut i: usize = 0;
    assert(rows@.take(0) =~= Seq::<AgentHookRow>::empty());
    while i < rows.len()
        invariant
            i <= rows@.len(),
            n <= i,
            n == installed_count(rows@.take(i as int)),
        decreases rows@.len() - i,
    {
        assert(rows@.take(i + 1).drop_last() =~= rows@.take(i as int));
        if rows[i].state != HooksState::NotInstalled {
            n = n + 1;
        }
        i = i + 1;
    }
    assert(rows@.take(rows@.len() as int) =~= rows@);
    n
}

/// Whether an agent is on the list: while something is searched for, when its
/// name or file holds it; else when all are shown, or it has hooks, or it was
/// just touched, or it was asked for.
pub open spec fn is_listed(r: AgentHookRow, s: AgentsState, focused: Option<RowKey>) -> bool {
    let query = text::query_of(s.query@);
    if query.len() > 0 {
        text::occurs(text::lower_of(r.name@.push(' ') + r.target@), query)
    } else {
        s.show_all || has_hooks(r) || s.touched@.contains(r.agent) || focused == Some(
            RowKey::Agent(r.agent),
        )
    }
}

/// The agents on the list.
pub open spec fn listed(rows: Seq<AgentHookRow>, s: AgentsState, focused: Option<RowKey>) -> Seq<
    usize,
>
    decreases rows.len(),
{
    if rows.len() == 0 {
        Seq::empty()
    } else if is_listed(rows.last(), s, focused) {
        listed(rows.drop_last(), s, focused).push((rows.len() - 1) as usize)
    } else {
        listed(rows.drop_last(), s, focused)
    }
}

pub open spec fn state_rank(state: HooksState) -> nat {
    match state {
        HooksState::Outdated => 0,
        HooksState::Installed => 1,
        HooksState::NotInstalled => 2,
    }
}

/// The place of an agent, the front when it has none.
pub open spec fn agent_place(all: Seq<HookAgent>, agent: HookAgent) -> nat
    decreases all.len(),
{
    if all.len() == 0 {
        0
    } else if all.drop_last().contains(agent) || all.last() != agent {
        agent_place(all.drop_last(), agent)
    } else {
        (all.len() - 1) as nat
    }
}

fn position_of(all: &Vec<HookAgent>, agent: HookAgent) -> (r: usize)
    ensures
        r == agent_place(all@, agent),
{
    let mut at: Option<usize> = None;
    let mut i: usize = 0;
    assert(all@.take(0) =~= Seq::<HookAgent>::empty());
    while i < all.len()
        invariant
            i <= all@.len(),
            match at {
                Some(k) => k < i && all@[k as int] == agent && agent_place(
                    all@.take(i as int),
                    agent,
                ) == k,
                None => agent_place(all@.take(i as int), agent) == 0 && forall|k: int|
                    0 <= k < i ==> #[trigger] all@[k] != agent,
            },
        decreases all@.len() - i,
    {
        proof {
            let t = all@.take(i + 1);
            assert(t.drop_last() =~= all@.take(i as int));
            if at is Some {
                assert(t.drop_last()[at->0 as int] == agent);
            }
        }
        if at.is_none() && all[i] == agent {
            at = Some(i);
        }
        i = i + 1;
    }
    assert(all@.take(all@.len() as int) =~= all@);
    match at {
        Some(k) => k,
        None => 0,
    }
}

pub open spec fn agent_key(all: Seq<HookAgent>, r: AgentHookRow) -> order::KeyView {
    order::KeyView {
        major: state_rank(r.state),
        minor: agent_place(all, r.agent),
        text: Seq::empty(),
    }
}

pub open spec fn agent_keys(all: Seq<HookAgent>, rows: Seq<AgentHookRow>, places: Seq<usize>) -> Seq<
    order::KeyView,
> {
    Seq::new(places.len(), |i: int| agent_key(all, rows[places[i] as int]))
}

/// The agents on the list as it is drawn: what can be updated first, then what
/// is installed, then the rest.
pub open spec fn drawn(
    all: Seq<HookAgent>,
    rows: Seq<AgentHookRow>,
    s: AgentsState,
    focused: Option<RowKey>,
) -> Seq<usize> {
    let places = listed(rows, s, focused);
    let o = order::order_of(agent_keys(all, rows, places));
    Seq::new(places.len(), |i: int| places[o[i] as int])
}

pub open spec fn agent_menu(local: bool) -> Seq<EntryView> {
    let first = seq![
        settings::plain_item(LabelView::Word(Word::Reinstall), false, Pick::ReinstallHooks),
    ];
    let reveal = if local {
        seq![
            settings::plain_item(LabelView::Word(Word::RevealHookFile), false, Pick::RevealHooks),
        ]
    } else {
        Seq::empty()
    };
    (first + reveal).push(
        EntryView::Item {
            label: LabelView::Word(Word::Uninstall),
            checked: false,
            danger: true,
            trailing: None,
            pick: Pick::UninstallHooks,
        },
    )
}

/// The id of the menu of the row at `i`.
pub open spec fn agent_menu_id(i: nat) -> Seq<char> {
    "agent-menu-"@ + text::decimal(i)
}

/// `r` draws `row` at `i`: while something is under way, nothing can be done;
/// a file can be shown only on this machine.
pub open spec fn draws_agent(
    r: AgentRow,
    app: Tty7App,
    i: nat,
    row: AgentHookRow,
    busy: bool,
    note: Option<String>,
) -> bool {
    let has_menu = has_hooks(row) && !busy;
    let local = app.settings matches Some(s) && s.agents.host == HookHost::Local;
    let id = agent_menu_id(i);
    &&& r.agent == row.agent
    &&& r.mark == mark_of(row.agent)
    &&& r.name == row.name
    &&& r.target == row.target
    &&& r.status == (if busy {
        Some(HookStatus::Working)
    } else {
        match row.state {
            HooksState::Installed => Some(HookStatus::Installed),
            HooksState::Outdated => Some(HookStatus::UpdateAvailable),
            HooksState::NotInstalled => None,
        }
    })
    &&& r.action == (if busy {
        None
    } else {
        match row.state {
            HooksState::NotInstalled => Some(
                settings::button_of(BtnKey::InstallHooks, BtnKind::Secondary),
            ),
            HooksState::Outdated => Some(
                settings::button_of(BtnKey::UpdateHooks, BtnKind::Secondary),
            ),
            HooksState::Installed => None,
        }
    })
    &&& r.has_menu == has_menu
    &&& match r.menu {
        Some(rows) => has_menu && settings::menu_is(app.settings, id) && settings::are_menu_rows(
            rows@,
            id,
            agent_menu(local),
        ),
        None => !(has_menu && settings::menu_is(app.settings, id)),
    }
    &&& r.note == note
}

/// The note of an agent.
pub open spec fn note_for(note: Option<(HookAgent, String)>, agent: HookAgent) -> Option<String> {
    match note {
        Some((a, t)) => if a == agent {
            Some(t)
        } else {
            None
        },
        None => None,
    }
}

/// `v` draws the agents of `places`.
pub open spec fn draws_agents(
    v: Seq<AgentRow>,
    app: Tty7App,
    rows: Seq<AgentHookRow>,
    places: Seq<usize>,
    s: AgentsState,
) -> bool {
    v.len() == places.len() && forall|i: int|
        0 <= i < v.len() ==> draws_agent(
            #[trigger] v[i],
            app,
            i as nat,
            rows[places[i] as int],
            s.busy@.contains(rows[places[i] as int].agent),
            note_for(s.note, rows[places[i] as int].agent),
        )
}

/// `b` is the body of the group.
pub open spec fn is_body(b: AgentsBody, app: Tty7App, st: SettingsState) -> bool {
    let s = st.agents;
    let query = text::query_of(s.query@);
    match s.view {
        AgentHooksView::Loading => b is Loading,
        AgentHooksView::Unavailable(reason) => b == AgentsBody::Unavailable(reason),
        AgentHooksView::Ready(hooks) => {
            let places = drawn(app.facts.hook_agents@, hooks@, s, st.focused_setting);
            let rest = app.facts.hook_agents@.len() - installed_count(hooks@);
            &&& b matches AgentsBody::Ready { rows, empty, more, scrolls }
            &&& draws_agents(rows@, app, hooks@, places, s)
            &&& empty == (if places.len() > 0 {
                None
            } else if query.len() == 0 {
                Some(NoAgents::NoneInstalled)
            } else {
                Some(NoAgents::NoneMatch)
            })
            &&& more == (if query.len() == 0 && rest > 0 {
                Some(
                    MoreAgents {
                        rest: if s.show_all {
                            None
                        } else {
                            Some(rest as usize)
                        },
                        button: settings::button_of(
                            if s.show_all {
                                BtnKey::ShowFewer
                            } else {
                                BtnKey::ShowAll
                            },
                            BtnKind::Link,
                        ),
                    },
                )
            } else {
                None
            })
            &&& scrolls == (query.len() > 0 || s.show_all)
        },
    }
}

/// What a machine is called; nothing when it is not among those that can be
/// reached.
pub open spec fn machine_label(machines: Seq<Machine>, host: HookHost) -> Seq<char>
    decreases machines.len(),
{
    if machines.len() == 0 {
        Seq::empty()
    } else if exists|i: int| 0 <= i < machines.len() - 1 && (#[trigger] machines[i]).host == host {
        machine_label(machines.drop_last(), host)
    } else if machines.last().host == host {
        machines.last().label@
    } else {
        Seq::empty()
    }
}

/// The items for the machines; the one that is shown says how many agents are
/// installed on it, once it is known.
pub open spec fn machine_items(
    machines: Seq<Machine>,
    host: HookHost,
    installed: Option<usize>,
) -> Seq<EntryView> {
    Seq::new(
        machines.len(),
        |i: int|
            EntryView::Item {
                label: LabelView::Text(machines[i].label@),
                checked: machines[i].host == host,
                danger: false,
                trailing: if machines[i].host == host {
                    installed
                } else {
                    None
                },
                pick: Pick::Machine(i as usize),
            },
    )
}

/// The menu of machines.
pub open spec fn machine_menu(
    machines: Seq<Machine>,
    host: HookHost,
    installed: Option<usize>,
    offline: usize,
) -> Seq<EntryView> {
    let items = seq![EntryView::Heading(Word::ConnectedMachines)] + machine_items(
        machines,
        host,
        installed,
    );
    if offline > 0 {
        items.push(EntryView::Separator).push(EntryView::OfflineNote(offline))
    } else {
        items
    }
}

/// How many are installed, once it is known.
pub open spec fn known_installed(view: AgentHooksView) -> Option<usize> {
    match view {
        AgentHooksView::Ready(rows) => Some(installed_count(rows@) as usize),
        _ => None,
    }
}

/// `g` is the group of agents.
pub open spec fn is_agents_group(g: AgentsGroup, app: Tty7App, st: SettingsState) -> bool {
    let s = st.agents;
    let id = "agent-hooks-machine"@;
    let menu = machine_menu(
        app.facts.machines@,
        s.host,
        known_installed(s.view),
        app.facts.offline_machines,
    );
    &&& g.label@ == machine_label(app.facts.machines@, s.host)
    &&& g.local == (s.host == HookHost::Local)
    &&& g.installed == known_installed(s.view)
    &&& g.machine.open == settings::menu_is(app.settings, id)
    &&& g.machine.start == settings::checked_at(menu)
    &&& match g.machine.panel {
        Some(rows) => g.machine.open && settings::are_menu_rows(rows@, id, menu),
        None => !g.machine.open,
    }
    &&& is_body(g.body, app, st)
}

/// There are no more agents with hooks than there are agents.
pub open spec fn agents_fit(app: Tty7App) -> bool {
    app.settings matches Some(s) ==> (s.agents.view matches AgentHooksView::Ready(rows)
        ==> installed_count(rows@) <= app.facts.hook_agents@.len())
}

/// The page of agents.
#[derive(Debug)]
pub struct AgentsPage {
    pub hooks: Option<AgentsGroup>,
    pub command_line: Group,
}

fn has_agent(v: &Vec<HookAgent>, agent: HookAgent) -> (r: bool)
    ensures
        r == v@.contains(agent),
{
    let mut i: usize = 0;
    while i < v.len()
        invariant
            i <= v@.len(),
            forall|k: int| 0 <= k < i ==> #[trigger] v@[k] != agent,
        decreases v@.len() - i,
    {
        if v[i] == agent {
            assert(v@[i as int] == agent);
            return true;
        }
        i = i + 1;
    }
    false
}

fn lists(row: &AgentHookRow, s: &AgentsState, query: &String, focused: Option<RowKey>) -> (r: bool)
    requires
        query@ == text::query_of(s.query@),
    ensures
        r == is_listed(*row, *s, focused),
{
    if !query.as_str().is_empty() {
        let mut all = row.name.clone();
        all.push(' ');
        all.append(row.target.as_str());
        let lower = text::to_lower(all.as_str());
        text::contains(lower.as_str(), query.as_str())
    } else {
        let asked: bool = match focused {
            Some(k) => k == RowKey::Agent(row.agent),
            None => false,
        };
        s.show_all || row.state != HooksState::NotInstalled || has_agent(&s.touched, row.agent)
            || asked
    }
}

fn draw_order(all: &Vec<HookAgent>, rows: &Vec<AgentHookRow>, s: &AgentsState, focused: Option<
    RowKey,
>) -> (r: Vec<usize>)
    ensures
        r@ == drawn(all@, rows@, *s, focused),
        forall|k: int| 0 <= k < r@.len() ==> #[trigger] r@[k] < rows@.len(),
{
    let query = text::query_text(s.query.as_str());
    let mut places: Vec<usize> = Vec::new();
    let mut keys: Vec<order::SortKey> = Vec::new();
    let mut i: usize = 0;
    assert(rows@.take(0) =~= Seq::<AgentHookRow>::empty());
    while i < rows.len()
        invariant
            i <= rows@.len(),
            query@ == text::query_of(s.query@),
            places@ == listed(rows@.take(i as int), *s, focused),
            forall|k: int| 0 <= k < places@.len() ==> #[trigger] places@[k] < i,
            keys@.len() == places@.len(),
            forall|k: int|
                0 <= k < keys@.len() ==> (#[trigger] keys@[k])@ == agent_key(
                    all@,
                    rows@[places@[k] as int],
                ),
        decreases rows@.len() - i,
    {
        assert(rows@.take(i + 1).drop_last() =~= rows@.take(i as int));
        if lists(&rows[i], s, &query, focused) {
            let rank: u64 = match rows[i].state {
                HooksState::Outdated => 0,
                HooksState::Installed => 1,
                HooksState::NotInstalled => 2,
            };
            let place: usize = position_of(all, rows[i].agent);
            let key = order::key_of(rank, place as u64, "");
            proof {
                reveal_strlit("");
                assert(key@.text =~= Seq::<char>::empty());
            }
            places.push(i);
            keys.push(key);
        }
        i = i + 1;
    }
    assert(rows@.take(rows@.len() as int) =~= rows@);
    let o = order::stable_order(&keys);
    assert(order::key_views(keys@) =~= agent_keys(all@, rows@, places@));
    let mut out: Vec<usize> = Vec::new();
    let mut i: usize = 0;
    while i < o.len()
        invariant
            i <= o@.len(),
            places@ == listed(rows@, *s, focused),
            forall|k: int| 0 <= k < places@.len() ==> #[trigger] places@[k] < rows@.len(),
            o@ == order::order_of(agent_keys(all@, rows@, places@)),
            order::is_stable_order(agent_keys(all@, rows@, places@), o@),
            out@.len() == i,
            forall|k: int| 0 <= k < i ==> #[trigger] out@[k] == places@[o@[k] as int],
        decreases o@.len() - i,
    {
        out.push(places[o[i]]);
        i = i + 1;
    }
    assert(out@ =~= drawn(all@, rows@, *s, focused));
    assert forall|k: int| 0 <= k < out@.len() implies #[trigger] out@[k] < rows@.len() by {
        assert(out@[k] == places@[o@[k] as int]);
    }
    out
}

fn label_of_machine(machines: &Vec<Machine>, host: HookHost) -> (r: String)
    ensures
        r@ == machine_label(machines@, host),
{
    let mut found: Option<usize> = None;
    let mut i: usize = 0;
    while i < machines.len()
        invariant
            i <= machines@.len(),
            match found {
                Some(k) => k < i && machines@[k as int].host == host && machine_label(
                    machines@.take(i as int),
                    host,
                ) == machines@[k as int].label@,
                None => machine_label(machines@.take(i as int), host) == Seq::<char>::empty()
                    && forall|k: int| 0 <= k < i ==> (#[trigger] machines@[k]).host != host,
            },
        decreases machines@.len() - i,
    {
        proof {
            let t = machines@.take(i + 1);
            assert(t.drop_last() =~= machines@.take(i as int));
            assert(t.last() == machines@[i as int]);
            if found is Some {
                assert(t[found->0 as int].host == host);
            }
        }
        if found.is_none() && machines[i].host == host {
            found = Some(i);
        }
        i = i + 1;
    }
    assert(machines@.take(machines@.len() as int) =~= machines@);
    match found {
        Some(k) => machines[k].label.clone(),
        None => {
            let s = String::new();
            assert(s@ =~= Seq::<char>::empty());
            s
        },
    }
}

fn machine_entries(
    machines: &Vec<Machine>,
    host: HookHost,
    installed: Option<usize>,
    offline: usize,
) -> (r: Vec<MenuEntry>)
    ensures
        settings::entry_views(r@) == machine_menu(machines@, host, installed, offline),
{
    let mut entries: Vec<MenuEntry> = Vec::new();
    entries.push(MenuEntry::Heading(Word::ConnectedMachines));
    let ghost items = machine_items(machines@, host, installed);
    let ghost head = seq![EntryView::Heading(Word::ConnectedMachines)];
    let mut i: usize = 0;
    assert(settings::entry_views(entries@) =~= head + items.take(0));
    while i < machines.len()
        invariant
            i <= machines@.len(),
            items == machine_items(machines@, host, installed),
            settings::entry_views(entries@) == head + items.take(i as int),
        decreases machines@.len() - i,
    {
        let m = &machines[i];
        let here: bool = m.host == host;
        let ghost before = settings::entry_views(entries@);
        let entry = MenuEntry::Item {
            label: Label::Text(m.label.clone()),
            checked: here,
            danger: false,
            trailing: if here {
                installed
            } else {
                None
            },
            pick: Pick::Machine(i),
        };
        entries.push(entry);
        assert(settings::entry_views(entries@) =~= before.push(entry@));
        assert(entry@ == items[i as int]);
        i = i + 1;
        assert(settings::entry_views(entries@) =~= head + items.take(i as int));
    }
    assert(items.take(items.len() as int) =~= items);
    if offline > 0 {
        entries.push(MenuEntry::Separator);
        entries.push(MenuEntry::OfflineNote(offline));
    }
    assert(settings::entry_views(entries@) =~= machine_menu(
        machines@,
        host,
        installed,
        offline,
    ));
    entries
}

impl Tty7App {
    /// The row of an agent, the `i`-th of the list.
    pub fn render_agent_row(
        &self,
        i: usize,
        row: &AgentHookRow,
        busy: bool,
        note: Option<String>,
    ) -> (r: AgentRow)
        ensures
            draws_agent(r, *self, i as nat, *row, busy, note),
    {
        let status = if busy {
            Some(HookStatus::Working)
        } else {
            match row.state {
                HooksState::Installed => Some(HookStatus::Installed),
                HooksState::Outdated => Some(HookStatus::UpdateAvailable),
                HooksState::NotInstalled => None,
            }
        };
        let action = if busy {
            None
        } else {
            match row.state {
                HooksState::NotInstalled => Some(self.settings_button(BtnKey::InstallHooks)),
                HooksState::Outdated => Some(self.settings_button(BtnKey::UpdateHooks)),
                HooksState::Installed => None,
            }
        };
        let has_menu: bool = row.state != HooksState::NotInstalled && !busy;
        let mut id = text::owned("agent-menu-");
        let n = text::decimal_of(i as u128);
        id.append(n.as_str());
        let local: bool = match &self.settings {
            Some(s) => s.agents.host == HookHost::Local,
            None => false,
        };
        let menu = if has_menu && self.settings_menu_open(id.as_str()) {
            let mut entries: Vec<MenuEntry> = Vec::new();
            entries.push(
                MenuEntry::item(Label::Word(Word::Reinstall), false, Pick::ReinstallHooks),
            );
            if local {
                entries.push(
                    MenuEntry::item(Label::Word(Word::RevealHookFile), false, Pick::RevealHooks),
                );
            }
            entries.push(
                MenuEntry::Item {
                    label: Label::Word(Word::Uninstall),
                    checked: false,
                    danger: true,
                    trailing: None,
                    pick: Pick::UninstallHooks,
                },
            );
            assert(settings::entry_views(entries@) =~= agent_menu(local));
            Some(self.settings_menu_panel(id.as_str(), entries))
        } else {
            None
        };
        AgentRow {
            agent: row.agent,
            mark: cli_agent(row.agent),
            name: row.name.clone(),
            target: row.target.clone(),
            status,
            action,
            has_menu,
            menu,
            note,
        }
    }

    fn draw_agents(&self, rows: &Vec<AgentHookRow>, places: &Vec<usize>, s: &AgentsState) -> (r: Vec<
        AgentRow,
    >)
        requires
            forall|k: int| 0 <= k < places@.len() ==> #[trigger] places@[k] < rows@.len(),
        ensures
            draws_agents(r@, *self, rows@, places@, *s),
    {
        let mut out: Vec<AgentRow> = Vec::new();
        let mut i: usize = 0;
        while i < places.len()
            invariant
                i <= places@.len(),
                forall|k: int| 0 <= k < places@.len() ==> #[trigger] places@[k] < rows@.len(),
                out@.len() == i,
                forall|k: int|
                    0 <= k < i ==> draws_agent(
                        #[trigger] out@[k],
                        *self,
                        k as nat,
                        rows@[places@[k] as int],
                        s.busy@.contains(rows@[places@[k] as int].agent),
                        note_for(s.note, rows@[places@[k] as int].agent),
                    ),
            decreases places@.len() - i,
        {
            let row = &rows[places[i]];
            let note: Option<String> = match &s.note {
                Some((a, t)) => if *a == row.agent {
                    Some(t.clone())
                } else {
                    None
                },
                None => None,
            };
            let busy: bool = has_agent(&s.busy, row.agent);
            out.push(self.render_agent_row(i, row, busy, note));
            i = i + 1;
        }
        out
    }

    /// The group of agents.
    pub fn render_agent_hooks_group(&self) -> (r: Option<AgentsGroup>)
        requires
            agents_fit(*self),
        ensures
            match self.settings {
                Some(s) => r matches Some(g) && is_agents_group(g, *self, s),
                None => r is None,
            },
    {
        let st: &SettingsState = match &self.settings {
            None => {
                return None;
            },
            Some(st) => st,
        };
        let s = &st.agents;
        let query = text::query_text(s.query.as_str());
        let searching: bool = !query.as_str().is_empty();
        let total: usize = self.facts.hook_agents.len();
        let mut installed: Option<usize> = None;
        let body = match &s.view {
            AgentHooksView::Loading => AgentsBody::Loading,
            AgentHooksView::Unavailable(reason) => AgentsBody::Unavailable(reason.clone()),
            AgentHooksView::Ready(rows) => {
                let n: usize = count_installed(rows);
                installed = Some(n);
                let places = draw_order(&self.facts.hook_agents, rows, s, st.focused_setting);
                let drawn_rows = self.draw_agents(rows, &places, s);
                let empty = if places.len() > 0 {
                    None
                } else if !searching {
                    Some(NoAgents::NoneInstalled)
                } else {
                    Some(NoAgents::NoneMatch)
                };
                let rest: usize = total - n;
                let more = if !searching && rest > 0 {
                    if s.show_all {
                        Some(
                            MoreAgents {
                                rest: None,
                                button: Btn::new(BtnKey::ShowFewer, BtnKind::Link),
                            },
                        )
                    } else {
                        Some(
                            MoreAgents {
                                rest: Some(rest),
                                button: Btn::new(BtnKey::ShowAll, BtnKind::Link),
                            },
                        )
                    }
                } else {
                    None
                };
                AgentsBody::Ready {
                    rows: drawn_rows,
                    empty,
                    more,
                    scrolls: searching || s.show_all,
                }
            },
        };
        let entries = machine_entries(
            &self.facts.machines,
            s.host,
            installed,
            self.facts.offline_machines,
        );
        let machine = self.settings_dropdown("agent-hooks-machine", entries);
        Some(
            AgentsGroup {
                machine,
                label: label_of_machine(&self.facts.machines, s.host),
                local: s.host == HookHost::Local,
                installed,
                body,
            },
        )
    }

    /// The page of agents.
    pub fn render_settings_agents(&self) -> (r: AgentsPage)
        requires
            agents_fit(*self),
        ensures
            match self.settings {
                Some(s) => r.hooks matches Some(g) && is_agents_group(g, *self, s),
                None => r.hooks is None,
            },
            r.command_line@ == settings_pages::command_line_group(*self),
    {
        AgentsPage {
            hooks: self.render_agent_hooks_group(),
            command_line: self.render_command_line_rows(),
        }
    }

    /// A key in the search of agents: whether it was taken. Escape clears what
    /// was typed; an empty search leaves it to the page.
    pub fn agents_key(&mut self, key: MenuKey) -> (r: bool)
        ensures
            *final(self) == (Tty7App { settings: final(self).settings, ..*old(self) }),
            match old(self).settings {
                Some(s) => {
                    &&& final(self).settings matches Some(t)
                    &&& r == (key == MenuKey::Escape && s.agents.query@.len() > 0)
                    &&& t == (SettingsState { agents: t.agents, ..s })
                    &&& t.agents == (AgentsState { query: t.agents.query, ..s.agents })
                    &&& t.agents.query@ == (if r {
                        Seq::<char>::empty()
                    } else {
                        s.agents.query@
                    })
                },
                None => final(self).settings is None && !r,
            },
    {
        match &mut self.settings {
            Some(s) => {
                if key == MenuKey::Escape && !s.agents.query.as_str().is_empty() {
                    s.agents.query = String::new();
                    true
                } else {
                    false
                }
            },
            None => false,
        }
    }

    /// Show every agent, or those that have hooks. Either way the list is
    /// drawn anew.
    pub fn toggle_show_all_agents(&mut self)
        ensures
            *final(self) == (Tty7App { settings: final(self).settings, ..*old(self) }),
            match old(self).settings {
                Some(s) => {
                    &&& final(self).settings matches Some(t)
                    &&& t == (SettingsState { agents: t.agents, ..s })
                    &&& t.agents == (AgentsState {
                        show_all: !s.agents.show_all,
                        touched: t.agents.touched,
                        ..s.agents
                    })
                    &&& t.agents.touched@.len() == 0
                },
                None => final(self).settings is None,
            },
    {
        match &mut self.settings {
            Some(s) => {
                s.agents.show_all = !s.agents.show_all;
                s.agents.touched = Vec::new();
            },
            None => {},
        }
    }

    /// Another machine was picked: the list is drawn anew.
    pub fn machine_picked(&mut self)
        ensures
            *final(self) == (Tty7App { settings: final(self).settings, ..*old(self) }),
            match old(self).settings {
                Some(s) => {
                    &&& final(self).settings matches Some(t)
                    &&& t == (SettingsState { agents: t.agents, ..s })
                    &&& t.agents == (AgentsState { touched: t.agents.touched, ..s.agents })
                    &&& t.agents.touched@.len() == 0
                },
                None => final(self).settings is None,
            },
    {
        match &mut self.settings {
            Some(s) => {
                s.agents.touched = Vec::new();
            },
            None => {},
        }
    }
}

proof fn lemma_listed_holds(
    rows: Seq<AgentHookRow>,
    s: AgentsState,
    focused: Option<RowKey>,
    k: int,
)
    requires
        rows.len() <= usize::MAX,
        0 <= k < rows.len(),
        is_listed(rows[k], s, focused),
    ensures
        listed(rows, s, focused).contains(k as usize),
        listed(rows, s, focused).len() <= rows.len(),
    decreases rows.len(),
{
    let h = rows.drop_last();
    let a = listed(rows, s, focused);
    let b = listed(h, s, focused);
    lemma_listed_len(h, s, focused);
    if k < h.len() {
        lemma_listed_holds(h, s, focused, k);
        let w = choose|w: int| 0 <= w < b.len() && b[w] == k as usize;
        assert(a[w] == k as usize);
    } else {
        assert(a[a.len() - 1] == k as usize);
    }
}

proof fn lemma_listed_len(rows: Seq<AgentHookRow>, s: AgentsState, focused: Option<RowKey>)
    ensures
        listed(rows, s, focused).len() <= rows.len(),
    decreases rows.len(),
{
    if rows.len() > 0 {
        lemma_listed_len(rows.drop_last(), s, focused);
    }
}

/// With nothing searched for, every agent that has hooks is drawn, and so is
/// every one that was just touched.
pub proof fn an_installed_agent_is_drawn(
    all: Seq<HookAgent>,
    rows: Seq<AgentHookRow>,
    s: AgentsState,
    focused: Option<RowKey>,
    k: int,
)
    requires
        rows.len() <= usize::MAX,
        0 <= k < rows.len(),
        text::query_of(s.query@).len() == 0,
        has_hooks(rows[k]) || s.touched@.contains(rows[k].agent) || s.show_all,
    ensures
        drawn(all, rows, s, focused).contains(k as usize),
{
    let places = listed(rows, s, focused);
    let keys = agent_keys(all, rows, places);
    let o = order::order_of(keys);
    lemma_listed_holds(rows, s, focused, k);
    order::lemma_order_exists(keys);
    let w = choose|w: int| 0 <= w < places.len() && places[w] == k as usize;
    assert(o.contains(w as usize));
    let i = choose|i: int| 0 <= i < o.len() && o[i] == w as usize;
    assert(drawn(all, rows, s, focused)[i] == k as usize);
}

/// Each agent is drawn with its own mark.
pub proof fn an_agent_has_its_own_mark(agent: HookAgent)
    ensures
        (mark_of(agent) is Claude) == (agent is Claude),
        (mark_of(agent) is Codex) == (agent is Codex),
        (mark_of(agent) is TraeCode) == (agent is TraeCode),
        (mark_of(agent) is Copilot) == (agent is Copilot),
        (mark_of(agent) is OpenCode) == (agent is OpenCode),
        (mark_of(agent) is Pi) == (agent is Pi),
        (mark_of(agent) is Grok) == (agent is Grok),
        (mark_of(agent) is OhMyPi) == (agent is OhMyPi),
        (mark_of(agent) is Gemini) == (agent is Gemini),
        (mark_of(agent) is Droid) == (agent is Droid),
        (mark_of(agent) is Qwen) == (agent is Qwen),
        (mark_of(agent) is Goose) == (agent is Goose),
        (mark_of(agent) is Kimi) == (agent is Kimi),
        (mark_of(agent) is QoderCLI) == (agent is QoderCLI),
        (mark_of(agent) is Crush) == (agent is Crush),
        (mark_of(agent) is CodeBuddy) == (agent is CodeBuddy),
        (mark_of(agent) is Cursor) == (agent is Cursor),
{
}

/// The agents with hooks are counted one by one, those that can be updated
/// among them.
pub proof fn agents_with_hooks_are_counted(rows: Seq<AgentHookRow>)
    ensures
        installed_count(rows) == rows.filter(
            |r: AgentHookRow| r.state is Installed || r.state is Outdated,
        ).len(),
    decreases rows.len(),
{
    reveal(Seq::filter);
    if rows.len() > 0 {
        agents_with_hooks_are_counted(rows.drop_last());
    }
}

/// While nothing is searched for, an agent is on the list when all are shown,
/// when it has hooks, or when it was just touched or asked for; while
/// something is, exactly when its name or its file holds it.
pub proof fn an_agent_is_listed_by_its_hooks_or_by_the_search(
    r: AgentHookRow,
    s: AgentsState,
    focused: Option<RowKey>,
)
    ensures
        text::query_of(s.query@).len() == 0 ==> {
            &&& s.show_all ==> is_listed(r, s, focused)
            &&& r.state is Installed || r.state is Outdated ==> is_listed(r, s, focused)
            &&& s.touched@.contains(r.agent) ==> is_listed(r, s, focused)
            &&& focused == Some(RowKey::Agent(r.agent)) ==> is_listed(r, s, focused)
            &&& !s.show_all && r.state is NotInstalled && !s.touched@.contains(r.agent) && focused
                != Some(RowKey::Agent(r.agent)) ==> !is_listed(r, s, focused)
        },
        text::query_of(s.query@).len() > 0 ==> (is_listed(r, s, focused) <==> text::occurs(
            text::lower_of(r.name@ + seq![' '] + r.target@),
            text::query_of(s.query@),
        )),
{
    assert(r.name@.push(' ') + r.target@ =~= r.name@ + seq![' '] + r.target@);
}

proof fn lemma_listed_are(rows: Seq<AgentHookRow>, s: AgentsState, focused: Option<RowKey>)
    requires
        rows.len() <= usize::MAX,
    ensures
        listed(rows, s, focused).len() <= rows.len(),
        forall|i: int|
            0 <= i < listed(rows, s, focused).len() ==> (#[trigger] listed(rows, s, focused)[i])
                < rows.len() && is_listed(rows[listed(rows, s, focused)[i] as int], s, focused),
    decreases rows.len(),
{
    if rows.len() > 0 {
        let front = rows.drop_last();
        let head = listed(front, s, focused);
        let all = listed(rows, s, focused);
        lemma_listed_are(front, s, focused);
        assert forall|i: int| 0 <= i < all.len() implies (#[trigger] all[i]) < rows.len()
            && is_listed(rows[all[i] as int], s, focused) by {
            if i < head.len() {
                assert(all[i] == head[i]);
                assert(front[head[i] as int] == rows[head[i] as int]);
            }
        }
    }
}

/// The list draws what can be updated first, then what is installed, then the
/// rest; and nothing that is not on it.
pub proof fn what_can_be_updated_comes_first(
    all: Seq<HookAgent>,
    rows: Seq<AgentHookRow>,
    s: AgentsState,
    focused: Option<RowKey>,
    i: int,
    j: int,
)
    requires
        rows.len() <= usize::MAX,
        0 <= i < j < drawn(all, rows, s, focused).len(),
    ensures
        drawn(all, rows, s, focused)[i] < rows.len(),
        drawn(all, rows, s, focused)[j] < rows.len(),
        ({
            let a = rows[drawn(all, rows, s, focused)[i] as int];
            let b = rows[drawn(all, rows, s, focused)[j] as int];
            &&& is_listed(a, s, focused) && is_listed(b, s, focused)
            &&& b.state is Outdated ==> a.state is Outdated
            &&& a.state is NotInstalled ==> b.state is NotInstalled
            &&& a.state == b.state ==> agent_place(all, a.agent) <= agent_place(all, b.agent)
        }),
{
    let places = listed(rows, s, focused);
    let keys = agent_keys(all, rows, places);
    lemma_listed_are(rows, s, focused);
    order::lemma_order_exists(keys);
    let o = order::order_of(keys);
    assert(order::goes_before(keys, o[i] as int, o[j] as int));
    assert(o[i] < places.len() && o[j] < places.len());
}

/// The row of an agent says and offers what can be done: to install what has
/// no hooks, to update what is outdated, nothing while something is under way.
/// Only what has hooks has a menu.
pub proof fn an_agent_row_offers_what_can_be_done(
    r: AgentRow,
    app: Tty7App,
    i: nat,
    row: AgentHookRow,
    busy: bool,
    note: Option<String>,
)
    requires
        draws_agent(r, app, i, row, busy, note),
    ensures
        r.agent == row.agent,
        r.name@ == row.name@ && r.target@ == row.target@,
        busy ==> r.status == Some(HookStatus::Working) && r.action is None && !r.has_menu,
        !busy && row.state is Installed ==> r.status == Some(HookStatus::Installed) && r.action
            is None && r.has_menu,
        !busy && row.state is Outdated ==> r.status == Some(HookStatus::UpdateAvailable) && r.action
            is Some && r.action->0.key == BtnKey::UpdateHooks && r.has_menu,
        !busy && row.state is NotInstalled ==> r.status is None && r.action is Some
            && r.action->0.key == BtnKey::InstallHooks && !r.has_menu,
        r.menu is Some ==> r.has_menu,
        r.note == note,
{
}

/// A note is shown on the row of the agent it is about, and on no other.
pub proof fn a_note_is_for_its_agent(about: HookAgent, note: String, agent: HookAgent)
    ensures
        about == agent ==> note_for(Some((about, note)), agent) == Some(note),
        about != agent ==> note_for(Some((about, note)), agent) is None,
        note_for(None, agent) is None,
{
}

/// Hooks can be put in again and taken out on any machine; their file can be
/// shown only on this one.
pub proof fn a_hook_file_is_shown_only_on_this_machine(local: bool)
    ensures
        agent_menu(local)[0] matches EntryView::Item { pick, .. } && pick == Pick::ReinstallHooks,
        agent_menu(local).last() matches EntryView::Item { pick, danger, .. } && pick
            == Pick::UninstallHooks && danger,
        local ==> agent_menu(local).len() == 3 && (agent_menu(local)[1] matches EntryView::Item {
            pick,
            ..
        } && pick == Pick::RevealHooks),
        !local ==> agent_menu(local).len() == 2,
{
}

/// A machine is called by its label, the first where two go by one identity.
pub proof fn a_machine_is_called_by_its_label(machines: Seq<Machine>, host: HookHost, k: int)
    ensures
        0 <= k < machines.len() && machines[k].host == host && (forall|i: int|
            0 <= i < k ==> (#[trigger] machines[i]).host != host) ==> machine_label(machines, host)
            == machines[k].label@,
        (forall|i: int| 0 <= i < machines.len() ==> (#[trigger] machines[i]).host != host)
            ==> machine_label(machines, host).len() == 0,
    decreases machines.len(),
{
    if machines.len() > 0 {
        let front = machines.drop_last();
        assert(forall|i: int| 0 <= i < front.len() ==> front[i] == machines[i]);
        a_machine_is_called_by_its_label(front, host, k);
        assert(machines[machines.len() - 1] == machines.last());
        if 0 <= k < machines.len() && machines[k].host == host {
            if k < machines.len() - 1 {
                assert(exists|i: int|
                    0 <= i < machines.len() - 1 && (#[trigger] machines[i]).host == host);
            }
        }
    }
}

/// The menu of machines lists each of them once, in order, the one that is
/// shown checked and with how many agents are installed on it; those that
/// cannot be reached are only counted.
pub proof fn every_machine_can_be_picked(
    machines: Seq<Machine>,
    host: HookHost,
    installed: Option<usize>,
    offline: usize,
    k: int,
)
    requires
        0 <= k < machines.len() <= usize::MAX,
    ensures
        machine_menu(machines, host, installed, offline)[k + 1] matches EntryView::Item {
            label,
            checked,
            danger,
            trailing,
            pick,
        } && label == LabelView::Text(machines[k].label@) && checked == (machines[k].host == host)
            && !danger && trailing == (if machines[k].host == host {
            installed
        } else {
            None
        }) && pick == Pick::Machine(k as usize),
        offline > 0 ==> machine_menu(machines, host, installed, offline).len() == machines.len() + 3
            && machine_menu(machines, host, installed, offline).last() == EntryView::OfflineNote(
            offline,
        ),
        offline == 0 ==> machine_menu(machines, host, installed, offline).len() == machines.len()
            + 1,
{
}

/// The list of agents is what is known of the machine: that it is being read,
/// why it cannot be, or its agents. An empty list says whether nothing is
/// installed or nothing was found; the button under it shows the rest, or
/// hides them again, and only while nothing is searched for.
pub proof fn an_agent_list_says_what_is_known(b: AgentsBody, app: Tty7App, st: SettingsState)
    requires
        is_body(b, app, st),
    ensures
        b is Loading <==> st.agents.view is Loading,
        b is Unavailable <==> st.agents.view is Unavailable,
        b is Ready <==> st.agents.view is Ready,
        b is Unavailable ==> b->Unavailable_0 == st.agents.view->Unavailable_0,
        b is Ready ==> {
            &&& b->empty is Some <==> b->rows@.len() == 0
            &&& b->empty is Some && text::query_of(st.agents.query@).len() == 0 ==> b->empty->0
                is NoneInstalled
            &&& b->empty is Some && text::query_of(st.agents.query@).len() > 0 ==> b->empty->0
                is NoneMatch
            &&& b->more is Some ==> text::query_of(st.agents.query@).len() == 0
            &&& b->more is Some && st.agents.show_all ==> b->more->0.rest is None
                && b->more->0.button.key == BtnKey::ShowFewer
            &&& b->more is Some && !st.agents.show_all ==> b->more->0.rest is Some
                && b->more->0.button.key == BtnKey::ShowAll
            &&& b->scrolls <==> text::query_of(st.agents.query@).len() > 0 || st.agents.show_all
        },
{
}

/// The group of agents is of the machine that is shown: called as it is, told
/// from this one, and counted once its agents are known.
pub proof fn a_group_of_agents_is_of_its_machine(g: AgentsGroup, app: Tty7App, st: SettingsState)
    requires
        is_agents_group(g, app, st),
    ensures
        g.label@ == machine_label(app.facts.machines@, st.agents.host),
        g.local <==> st.agents.host is Local,
        st.agents.view is Ready ==> g.installed == Some(
            installed_count(st.agents.view->Ready_0@) as usize,
        ),
        st.agents.view !is Ready ==> g.installed is None,
        g.machine.panel is Some <==> g.machine.open,
        is_body(g.body, app, st),
{
}

/// Each row draws its own agent, busy exactly where the agent is, with the
/// note that is about it.
pub proof fn each_row_draws_its_own_agent(
    v: Seq<AgentRow>,
    app: Tty7App,
    rows: Seq<AgentHookRow>,
    places: Seq<usize>,
    s: AgentsState,
    i: int,
)
    requires
        draws_agents(v, app, rows, places, s),
        0 <= i < places.len(),
    ensures
        v.len() == places.len(),
        v[i].agent == rows[places[i] as int].agent,
        s.busy@.contains(v[i].agent) <==> v[i].status == Some(HookStatus::Working),
        v[i].note == note_for(s.note, v[i].agent),
{
    assert(draws_agent(
        v[i],
        app,
        i as nat,
        rows[places[i] as int],
        s.busy@.contains(rows[places[i] as int].agent),
        note_for(s.note, rows[places[i] as int].agent),
    ));
}

} // verus!
