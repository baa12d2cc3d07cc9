//! The page of hosts: the few used most, or every one by where it came from,
//! or whatever a search finds; each opens in place to show its details or to be
//! edited.

use vstd::prelude::*;
use vstd::string::*;
use crate::order;
use crate::preferences::HostUsage;
use crate::settings;
use crate::settings::{Btn, BtnKey, BtnKind, Group, MenuKey, SettingsState, Tty7App};
use crate::settings_pages;
use crate::ssh_connect;
use crate::ssh_profile;
use crate::ssh_profile::SshProfile;
use crate::text;

verus! {

/// How many hosts the page shows before it is asked for all.
pub const RECENT_HOSTS: usize = 5;

/// What is known of a saved host beside its profile: where it came from, how
/// that place ranks, and whether the search under way finds it.
#[derive(Debug)]
pub struct HostFacts {
    pub group: String,
    pub group_label: String,
    pub group_rank: u64,
    pub matches: bool,
}

/// What is wrong with what a form holds.
#[derive(Clone, Copy, Debug, PartialEq, Eq, Structural)]
pub struct FormErrors {
    pub host: bool,
    pub port: bool,
    pub jump: bool,
    pub socks: bool,
    pub http: bool,
}

/// A host under edit.
#[derive(Debug)]
pub struct HostForm {
    pub editing: u128,
    pub name: String,
    pub host: String,
    pub user: String,
    pub port: String,
    pub jump: String,
    /// Whether it differs from what is saved.
    pub dirty: bool,
    /// Whether nothing was typed yet.
    pub core_blank: bool,
    pub errors: FormErrors,
}

/// The page of hosts while it is open.
#[derive(Debug)]
pub struct HostsState {
    pub filter: String,
    pub show_all: bool,
    /// The groups that are folded.
    pub collapsed: Vec<String>,
    pub form: Option<HostForm>,
    /// The host whose details are shown.
    pub open: Option<u128>,
    pub confirm_remove: bool,
    /// The host whose command was just copied.
    pub copied: Option<u128>,
}

/// A line of the list: a group's heading, told by its first host, or a host.
#[derive(Clone, Copy, Debug, PartialEq, Eq, Structural)]
pub enum HostLine {
    Head { first: usize, count: usize, collapsed: bool },
    Host(usize),
}

/// What stands under the list.
#[derive(Clone, Copy, Debug, PartialEq, Eq, Structural)]
pub enum HostsFooter {
    Nothing,
    NoMatch,
    NoHosts,
    /// How many more there are.
    More { rest: usize },
    /// How many there are, from how many places.
    All { count: usize, files: usize },
}

/// The group of hosts.
#[derive(Debug)]
pub struct HostsGroup {
    pub import: Btn,
    pub add: Btn,
    /// A host that is being added, drawn before the list.
    pub adding: Option<u128>,
    pub lines: Vec<HostLine>,
    pub footer: HostsFooter,
    /// The way from the few to all of them, or back.
    pub more: Option<Btn>,
    /// Whether the list scrolls by itself.
    pub scrolls: bool,
}

/// The heading of a group of hosts.
#[derive(Debug)]
pub struct HostHead {
    pub label: String,
    pub count: String,
    pub collapsed: bool,
}

/// What a host's row says at its end.
#[derive(Clone, Copy, Debug, PartialEq, Eq, Structural)]
pub enum HostMeta {
    Unsaved,
    Live,
    Blank,
    LastUsed(u64),
    Never,
}

/// What stands under a host's row.
#[derive(Clone, Copy, Debug, PartialEq, Eq, Structural)]
pub enum HostBody {
    Nothing,
    Details,
    Editor,
}

/// A host's row.
#[derive(Debug)]
pub struct HostRow {
    pub title: String,
    pub address: String,
    /// Whether the title only stands for one to come.
    pub blank_title: bool,
    pub meta: HostMeta,
    pub open: bool,
    pub body: HostBody,
}

/// The fields of a host's details.
#[derive(Clone, Copy, Debug, PartialEq, Eq, Structural)]
pub enum DetailKey {
    HostName,
    User,
    Port,
    IdentityFile,
    ProxyJump,
    DefinedIn,
}

/// The details of a host.
#[derive(Debug)]
pub struct HostDetails {
    pub fields: Vec<(DetailKey, String)>,
    pub connect: Btn,
    pub edit: Btn,
    pub copy: Btn,
    pub command: String,
}

/// Which field of a form is reported.
#[derive(Clone, Copy, Debug, PartialEq, Eq, Structural)]
pub enum FormError {
    Host,
    Port,
    Jump,
    Socks,
    Http,
}

/// The editor of a host.
#[derive(Clone, Copy, Debug, PartialEq, Eq, Structural)]
pub struct HostEditor {
    pub error: Option<FormError>,
    pub host_bad: bool,
    pub port_bad: bool,
    pub jump_bad: bool,
    pub save: Btn,
    pub cancel: Btn,
    pub remove: Option<Btn>,
}

/// What a host is called: its name, else how it is reached.
pub open spec fn title_of(p: SshProfile) -> Seq<char> {
    if p.name@.len() == 0 {
        ssh_profile::connect_text(p.user@, p.host@, p.port)
    } else {
        p.name@
    }
}

/// What a host is called.
pub fn host_title(p: &SshProfile) -> (r: String)
    ensures
        r@ == title_of(*p),
{
    if p.name.as_str().is_empty() {
        ssh_profile::to_connect_string(p)
    } else {
        p.name.clone()
    }
}

/// What the jump host of a profile is called, if there is one.
pub open spec fn jump_title(p: SshProfile, profiles: Seq<SshProfile>) -> Option<Seq<char>> {
    match p.jump_host {
        Some(id) => match ssh_connect::place_of_id(profiles, id) {
            Some(i) => Some(title_of(profiles[i])),
            None => None,
        },
        None => None,
    }
}

fn title_of_jump(p: &SshProfile, profiles: &Vec<SshProfile>) -> (r: Option<String>)
    ensures
        text::option_text(r) == jump_title(*p, profiles@),
{
    match p.jump_host {
        Some(id) => match ssh_connect::find_profile(profiles.as_slice(), id) {
            Some(i) => Some(host_title(&profiles[i])),
            None => None,
        },
        None => None,
    }
}

/// How a host is reached, with the host it is reached through.
pub open spec fn address_of(p: SshProfile, profiles: Seq<SshProfile>) -> Seq<char> {
    let direct = ssh_profile::connect_text(p.user@, p.host@, p.port);
    match jump_title(p, profiles) {
        Some(jump) => direct + "  via "@ + jump,
        None => direct,
    }
}

/// How a host is reached.
pub fn host_address(p: &SshProfile, profiles: &Vec<SshProfile>) -> (r: String)
    ensures
        r@ == address_of(*p, profiles@),
{
    let mut out = ssh_profile::to_connect_string(p);
    match title_of_jump(p, profiles) {
        Some(jump) => {
            out.append("  via ");
            out.append(jump.as_str());
        },
        None => {},
    }
    out
}

/// The command that reaches a host from a terminal elsewhere.
pub open spec fn command_of(p: SshProfile) -> Seq<char> {
    let port = if p.port != ssh_profile::DEFAULT_PORT {
        " -p "@ + text::decimal(p.port as nat)
    } else {
        Seq::empty()
    };
    let key = if p.identity_files@.len() > 0 {
        " -i "@ + p.identity_files@[0]@
    } else {
        Seq::empty()
    };
    let user = if p.user@.len() > 0 {
        p.user@.push('@')
    } else {
        Seq::empty()
    };
    ("ssh"@ + port + key).push(' ') + user + p.host@
}

/// The command that reaches a host from a terminal elsewhere.
pub fn ssh_command(p: &SshProfile) -> (r: String)
    ensures
        r@ == command_of(*p),
{
    let mut out = text::owned("ssh");
    if p.port != ssh_profile::DEFAULT_PORT {
        out.append(" -p ");
        let port = text::decimal_of(p.port as u128);
        out.append(port.as_str());
    }
    if p.identity_files.len() > 0 {
        out.append(" -i ");
        out.append(p.identity_files[0].as_str());
    }
    out.push(' ');
    if !p.user.as_str().is_empty() {
        out.append(p.user.as_str());
        out.push('@');
    }
    out.append(p.host.as_str());
    assert(out@ =~= command_of(*p));
    out
}

/// Whether the search under way finds no host.
pub fn visible_is_empty(hosts: &Vec<HostFacts>) -> (r: bool)
    ensures
        r == forall|i: int| 0 <= i < hosts@.len() ==> !(#[trigger] hosts@[i]).matches,
{
    let mut i: usize = 0;
    while i < hosts.len()
        invariant
            i <= hosts@.len(),
            forall|k: int| 0 <= k < i ==> !(#[trigger] hosts@[k]).matches,
        decreases hosts@.len() - i,
    {
        if hosts[i].matches {
            return false;
        }
        i = i + 1;
    }
    true
}

/// The hosts that are found.
pub open spec fn matching(hosts: Seq<HostFacts>) -> Seq<usize>
    decreases hosts.len(),
{
    if hosts.len() == 0 {
        Seq::empty()
    } else if hosts.last().matches {
        matching(hosts.drop_last()).push((hosts.len() - 1) as usize)
    } else {
        matching(hosts.drop_last())
    }
}

/// The hosts of a group.
pub open spec fn members(hosts: Seq<HostFacts>, group: Seq<char>) -> Seq<usize>
    decreases hosts.len(),
{
    if hosts.len() == 0 {
        Seq::empty()
    } else if hosts.last().group@ == group {
        members(hosts.drop_last(), group).push((hosts.len() - 1) as usize)
    } else {
        members(hosts.drop_last(), group)
    }
}

/// The first host of each group.
pub open spec fn heads(hosts: Seq<HostFacts>) -> Seq<usize>
    decreases hosts.len(),
{
    if hosts.len() == 0 {
        Seq::empty()
    } else if members(hosts.drop_last(), hosts.last().group@).len() == 0 {
        heads(hosts.drop_last()).push((hosts.len() - 1) as usize)
    } else {
        heads(hosts.drop_last())
    }
}

pub open spec fn title_key(p: SshProfile) -> order::KeyView {
    order::KeyView { major: 0, minor: 0, text: text::lower_of(title_of(p)) }
}

pub open spec fn title_keys(profiles: Seq<SshProfile>, places: Seq<usize>) -> Seq<order::KeyView> {
    Seq::new(places.len(), |i: int| title_key(profiles[places[i] as int]))
}

/// Hosts by what they are called, in any case.
pub open spec fn by_title(profiles: Seq<SshProfile>, places: Seq<usize>) -> Seq<usize> {
    let o = order::order_of(title_keys(profiles, places));
    Seq::new(places.len(), |i: int| places[o[i] as int])
}

pub open spec fn group_key(h: HostFacts) -> order::KeyView {
    order::KeyView { major: h.group_rank as nat, minor: 0, text: h.group@ }
}

pub open spec fn group_keys(hosts: Seq<HostFacts>, places: Seq<usize>) -> Seq<order::KeyView> {
    Seq::new(places.len(), |i: int| group_key(hosts[places[i] as int]))
}

/// The groups, each told by its first host, by rank and then by name.
pub open spec fn ordered_heads(hosts: Seq<HostFacts>) -> Seq<usize> {
    let h = heads(hosts);
    let o = order::order_of(group_keys(hosts, h));
    Seq::new(h.len(), |i: int| h[o[i] as int])
}

pub open spec fn as_hosts(places: Seq<usize>) -> Seq<HostLine> {
    Seq::new(places.len(), |i: int| HostLine::Host(places[i]))
}

/// The lines of one group: its heading, and its hosts unless it is folded.
pub open spec fn group_lines(
    profiles: Seq<SshProfile>,
    hosts: Seq<HostFacts>,
    collapsed: Seq<Seq<char>>,
    first: usize,
) -> Seq<HostLine> {
    let group = hosts[first as int].group@;
    let own = members(hosts, group);
    let folded = collapsed.contains(group);
    let head = seq![
        HostLine::Head { first, count: own.len() as usize, collapsed: folded },
    ];
    if folded {
        head
    } else {
        head + as_hosts(by_title(profiles, own))
    }
}

/// The lines of these groups.
pub open spec fn groups_lines(
    profiles: Seq<SshProfile>,
    hosts: Seq<HostFacts>,
    collapsed: Seq<Seq<char>>,
    firsts: Seq<usize>,
) -> Seq<HostLine>
    decreases firsts.len(),
{
    if firsts.len() == 0 {
        Seq::empty()
    } else {
        groups_lines(profiles, hosts, collapsed, firsts.drop_last()) + group_lines(
            profiles,
            hosts,
            collapsed,
            firsts.last(),
        )
    }
}

/// The few hosts used most.
pub open spec fn recent_of(by_frecency: Seq<usize>) -> Seq<usize> {
    if by_frecency.len() > RECENT_HOSTS {
        by_frecency.take(RECENT_HOSTS as int)
    } else {
        by_frecency
    }
}

/// The lines of the list: what a search finds by title, else every group when
/// all are asked for, else the few used most.
pub open spec fn host_lines(app: Tty7App, s: HostsState) -> Seq<HostLine> {
    let profiles = app.config.ssh_profiles@;
    let hosts = app.facts.hosts@;
    if text::query_of(s.filter@).len() > 0 {
        as_hosts(by_title(profiles, matching(hosts)))
    } else if s.show_all {
        groups_lines(profiles, hosts, text::views(s.collapsed@), ordered_heads(hosts))
    } else {
        as_hosts(recent_of(app.facts.by_frecency@))
    }
}

/// What is known of the hosts fits the hosts that are saved.
pub open spec fn hosts_fit(app: Tty7App) -> bool {
    &&& app.facts.hosts@.len() == app.config.ssh_profiles@.len()
    &&& forall|i: int|
        0 <= i < app.facts.by_frecency@.len() ==> (#[trigger] app.facts.by_frecency@[i])
            < app.config.ssh_profiles@.len()
}

/// A host under edit that is not saved yet.
pub open spec fn adding_of(app: Tty7App, s: HostsState) -> Option<u128> {
    match s.form {
        Some(f) => if ssh_connect::place_of_id(app.config.ssh_profiles@, f.editing) is None {
            Some(f.editing)
        } else {
            None
        },
        None => None,
    }
}

/// What stands under the list.
pub open spec fn footer_of(app: Tty7App, s: HostsState) -> HostsFooter {
    let total = app.config.ssh_profiles@.len();
    let adding = adding_of(app, s);
    let shown = recent_of(app.facts.by_frecency@).len();
    if text::query_of(s.filter@).len() > 0 {
        if matching(app.facts.hosts@).len() == 0 && adding is None {
            HostsFooter::NoMatch
        } else {
            HostsFooter::Nothing
        }
    } else if total == 0 && adding is None {
        HostsFooter::NoHosts
    } else if s.show_all {
        HostsFooter::All {
            count: total as usize,
            files: heads(app.facts.hosts@).len() as usize,
        }
    } else if total > shown {
        HostsFooter::More { rest: (total - shown) as usize }
    } else {
        HostsFooter::Nothing
    }
}

/// The way from the few to all of them, or back, where the footer counts them.
pub open spec fn more_of(footer: HostsFooter) -> Option<Btn> {
    match footer {
        HostsFooter::More { .. } => Some(settings::button_of(BtnKey::ShowAll, BtnKind::Link)),
        HostsFooter::All { .. } => Some(settings::button_of(BtnKey::ShowFewer, BtnKind::Link)),
        _ => None,
    }
}

/// `r` is the group of hosts.
pub open spec fn is_hosts_group(r: HostsGroup, app: Tty7App, s: HostsState) -> bool {
    &&& r.import == settings::button_of(BtnKey::ImportHosts, BtnKind::Link)
    &&& r.add == (Btn {
        dimmed: adding_of(app, s) is Some,
        ..settings::button_of(BtnKey::AddHost, BtnKind::Secondary)
    })
    &&& r.adding == adding_of(app, s)
    &&& r.lines@ == host_lines(app, s)
    &&& r.footer == footer_of(app, s)
    &&& r.more == more_of(r.footer)
    &&& r.scrolls == (text::query_of(s.filter@).len() > 0 || s.show_all)
}

proof fn lemma_places(hosts: Seq<HostFacts>, group: Seq<char>)
    requires
        hosts.len() <= usize::MAX,
    ensures
        matching(hosts).len() <= hosts.len(),
        members(hosts, group).len() <= hosts.len(),
        heads(hosts).len() <= hosts.len(),
        forall|i: int| 0 <= i < matching(hosts).len() ==> (#[trigger] matching(hosts)[i]) < hosts.len(),
        forall|i: int|
            0 <= i < members(hosts, group).len() ==> (#[trigger] members(hosts, group)[i])
                < hosts.len(),
        forall|i: int| 0 <= i < heads(hosts).len() ==> (#[trigger] heads(hosts)[i]) < hosts.len(),
    decreases hosts.len(),
{
    if hosts.len() > 0 {
        lemma_places(hosts.drop_last(), group);
        lemma_places(hosts.drop_last(), hosts.last().group@);
    }
}

fn find_matching(hosts: &Vec<HostFacts>) -> (r: Vec<usize>)
    ensures
        r@ == matching(hosts@),
        forall|k: int| 0 <= k < r@.len() ==> #[trigger] r@[k] < hosts@.len(),
{
    let mut out: Vec<usize> = Vec::new();
    let mut i: usize = 0;
    assert(hosts@.take(0) =~= Seq::<HostFacts>::empty());
    while i < hosts.len()
        invariant
            i <= hosts@.len(),
            out@ == matching(hosts@.take(i as int)),
            forall|k: int| 0 <= k < out@.len() ==> #[trigger] out@[k] < i,
        decreases hosts@.len() - i,
    {
        assert(hosts@.take(i + 1).drop_last() =~= hosts@.take(i as int));
        if hosts[i].matches {
            out.push(i);
        }
        i = i + 1;
    }
    assert(hosts@.take(hosts@.len() as int) =~= hosts@);
    out
}

fn find_members(hosts: &Vec<HostFacts>, group: &str) -> (r: Vec<usize>)
    ensures
        r@ == members(hosts@, group@),
        forall|k: int| 0 <= k < r@.len() ==> #[trigger] r@[k] < hosts@.len(),
{
    let mut out: Vec<usize> = Vec::new();
    let mut i: usize = 0;
    assert(hosts@.take(0) =~= Seq::<HostFacts>::empty());
    while i < hosts.len()
        invariant
            i <= hosts@.len(),
            out@ == members(hosts@.take(i as int), group@),
            forall|k: int| 0 <= k < out@.len() ==> #[trigger] out@[k] < i,
        decreases hosts@.len() - i,
    {
        assert(hosts@.take(i + 1).drop_last() =~= hosts@.take(i as int));
        if text::same(hosts[i].group.as_str(), group) {
            out.push(i);
        }
        i = i + 1;
    }
    assert(hosts@.take(hosts@.len() as int) =~= hosts@);
    out
}

proof fn lemma_members_empty(hosts: Seq<HostFacts>, group: Seq<char>)
    ensures
        members(hosts, group).len() == 0 <==> forall|k: int|
            0 <= k < hosts.len() ==> (#[trigger] hosts[k]).group@ != group,
    decreases hosts.len(),
{
    if hosts.len() > 0 {
        let h = hosts.drop_last();
        lemma_members_empty(h, group);
        if members(hosts, group).len() == 0 {
            assert forall|k: int| 0 <= k < hosts.len() implies (#[trigger] hosts[k]).group@
                != group by {
                if k < h.len() {
                    assert(h[k] == hosts[k]);
                }
            }
        } else if members(h, group).len() > 0 {
            let k = choose|k: int| 0 <= k < h.len() && (#[trigger] h[k]).group@ == group;
            assert(hosts[k].group@ == group);
        } else {
            assert(hosts[hosts.len() - 1].group@ == group);
        }
    }
}

fn find_heads(hosts: &Vec<HostFacts>) -> (r: Vec<usize>)
    ensures
        r@ == heads(hosts@),
        forall|k: int| 0 <= k < r@.len() ==> #[trigger] r@[k] < hosts@.len(),
{
    let mut out: Vec<usize> = Vec::new();
    let mut i: usize = 0;
    assert(hosts@.take(0) =~= Seq::<HostFacts>::empty());
    while i < hosts.len()
        invariant
            i <= hosts@.len(),
            out@ == heads(hosts@.take(i as int)),
            forall|k: int| 0 <= k < out@.len() ==> #[trigger] out@[k] < i,
        decreases hosts@.len() - i,
    {
        assert(hosts@.take(i + 1).drop_last() =~= hosts@.take(i as int));
        let mut seen: bool = false;
        let mut k: usize = 0;
        while k < i && !seen
            invariant
                k <= i < hosts@.len(),
                seen ==> exists|m: int|
                    0 <= m < i && (#[trigger] hosts@[m]).group@ == hosts@[i as int].group@,
                !seen ==> forall|m: int|
                    0 <= m < k ==> (#[trigger] hosts@[m]).group@ != hosts@[i as int].group@,
            decreases (i - k) + (if seen { 0int } else { 1int }),
        {
            if text::same(hosts[k].group.as_str(), hosts[i].group.as_str()) {
                assert(hosts@[k as int].group@ == hosts@[i as int].group@);
                seen = true;
            } else {
                k = k + 1;
            }
        }
        proof {
            let t = hosts@.take(i as int);
            lemma_members_empty(t, hosts@[i as int].group@);
            if seen {
                let m = choose|m: int|
                    0 <= m < i && (#[trigger] hosts@[m]).group@ == hosts@[i as int].group@;
                assert(t[m].group@ == hosts@[i as int].group@);
            } else {
                assert forall|m: int| 0 <= m < t.len() implies (#[trigger] t[m]).group@
                    != hosts@[i as int].group@ by {
                    assert(t[m] == hosts@[m]);
                }
            }
        }
        if !seen {
            out.push(i);
        }
        i = i + 1;
    }
    assert(hosts@.take(hosts@.len() as int) =~= hosts@);
    out
}

fn sort_by_title(profiles: &Vec<SshProfile>, places: &Vec<usize>) -> (r: Vec<usize>)
    requires
        forall|k: int| 0 <= k < places@.len() ==> #[trigger] places@[k] < profiles@.len(),
    ensures
        r@ == by_title(profiles@, places@),
{
    let mut keys: Vec<order::SortKey> = Vec::new();
    let mut i: usize = 0;
    while i < places.len()
        invariant
            i <= places@.len(),
            forall|k: int| 0 <= k < places@.len() ==> #[trigger] places@[k] < profiles@.len(),
            keys@.len() == i,
            forall|k: int|
                0 <= k < i ==> (#[trigger] keys@[k])@ == title_key(profiles@[places@[k] as int]),
        decreases places@.len() - i,
    {
        let title = host_title(&profiles[places[i]]);
        let lower = text::to_lower(title.as_str());
        keys.push(order::key_of(0, 0, lower.as_str()));
        i = i + 1;
    }
    assert(order::key_views(keys@) =~= title_keys(profiles@, places@));
    let o = order::stable_order(&keys);
    let out = pick_places(places, &o);
    assert(out@ =~= by_title(profiles@, places@));
    out
}

fn pick_places(places: &Vec<usize>, o: &Vec<usize>) -> (r: Vec<usize>)
    requires
        o@.len() == places@.len(),
        forall|k: int| 0 <= k < o@.len() ==> #[trigger] o@[k] < places@.len(),
    ensures
        r@ == Seq::new(places@.len(), |i: int| places@[o@[i] as int]),
{
    let mut out: Vec<usize> = Vec::new();
    let mut i: usize = 0;
    while i < o.len()
        invariant
            i <= o@.len() == places@.len(),
            forall|k: int| 0 <= k < o@.len() ==> #[trigger] o@[k] < places@.len(),
            out@.len() == i,
            forall|k: int| 0 <= k < i ==> #[trigger] out@[k] == places@[o@[k] as int],
        decreases o@.len() - i,
    {
        out.push(places[o[i]]);
        i = i + 1;
    }
    assert(out@ =~= Seq::new(places@.len(), |i: int| places@[o@[i] as int]));
    out
}

fn sort_heads(hosts: &Vec<HostFacts>, places: &Vec<usize>) -> (r: Vec<usize>)
    requires
        places@ == heads(hosts@),
        forall|k: int| 0 <= k < places@.len() ==> #[trigger] places@[k] < hosts@.len(),
    ensures
        r@ == ordered_heads(hosts@),
        forall|k: int| 0 <= k < r@.len() ==> #[trigger] r@[k] < hosts@.len(),
{
    let mut keys: Vec<order::SortKey> = Vec::new();
    let mut i: usize = 0;
    while i < places.len()
        invariant
            i <= places@.len(),
            forall|k: int| 0 <= k < places@.len() ==> #[trigger] places@[k] < hosts@.len(),
            keys@.len() == i,
            forall|k: int|
                0 <= k < i ==> (#[trigger] keys@[k])@ == group_key(hosts@[places@[k] as int]),
        decreases places@.len() - i,
    {
        let h = &hosts[places[i]];
        keys.push(order::key_of(h.group_rank, 0, h.group.as_str()));
        i = i + 1;
    }
    assert(order::key_views(keys@) =~= group_keys(hosts@, places@));
    let o = order::stable_order(&keys);
    let out = pick_places(places, &o);
    assert(out@ =~= ordered_heads(hosts@));
    assert forall|k: int| 0 <= k < out@.len() implies #[trigger] out@[k] < hosts@.len() by {
        assert(out@[k] == places@[o@[k] as int]);
    }
    out
}

fn push_hosts(lines: &mut Vec<HostLine>, places: &Vec<usize>)
    ensures
        final(lines)@ == old(lines)@ + as_hosts(places@),
{
    let ghost before = lines@;
    let mut i: usize = 0;
    assert(lines@ =~= before + as_hosts(places@).take(0));
    while i < places.len()
        invariant
            i <= places@.len(),
            lines@ == before + as_hosts(places@).take(i as int),
        decreases places@.len() - i,
    {
        lines.push(HostLine::Host(places[i]));
        i = i + 1;
        assert(lines@ =~= before + as_hosts(places@).take(i as int));
    }
    assert(as_hosts(places@).take(places@.len() as int) =~= as_hosts(places@));
}

fn group_hosts(profiles: &Vec<SshProfile>, hosts: &Vec<HostFacts>, collapsed: &Vec<String>) -> (r:
    Vec<HostLine>)
    requires
        hosts@.len() == profiles@.len(),
    ensures
        r@ == groups_lines(
            profiles@,
            hosts@,
            text::views(collapsed@),
            ordered_heads(hosts@),
        ),
{
    let firsts = find_heads(hosts);
    let sorted = sort_heads(hosts, &firsts);
    let ghost folded = text::views(collapsed@);
    let mut lines: Vec<HostLine> = Vec::new();
    let mut i: usize = 0;
    assert(sorted@.take(0) =~= Seq::<usize>::empty());
    while i < sorted.len()
        invariant
            i <= sorted@.len(),
            hosts@.len() == profiles@.len(),
            folded == text::views(collapsed@),
            forall|k: int| 0 <= k < sorted@.len() ==> #[trigger] sorted@[k] < hosts@.len(),
            lines@ == groups_lines(profiles@, hosts@, folded, sorted@.take(i as int)),
        decreases sorted@.len() - i,
    {
        assert(sorted@.take(i + 1).drop_last() =~= sorted@.take(i as int));
        let first: usize = sorted[i];
        let ghost before = lines@;
        let group = hosts[first].group.as_str();
        let own = find_members(hosts, group);
        let is_folded: bool = text::has_text(collapsed, group);
        let ghost gl = group_lines(profiles@, hosts@, folded, first);
        lines.push(HostLine::Head { first, count: own.len(), collapsed: is_folded });
        if !is_folded {
            let by = sort_by_title(profiles, &own);
            push_hosts(&mut lines, &by);
        }
        assert(lines@ =~= before + gl);
        i = i + 1;
    }
    assert(sorted@.take(sorted@.len() as int) =~= sorted@);
    lines
}

/// The hosts that lines draw.
pub open spec fn hosts_in(lines: Seq<HostLine>) -> Seq<usize>
    decreases lines.len(),
{
    if lines.len() == 0 {
        Seq::empty()
    } else {
        match lines.last() {
            HostLine::Host(i) => hosts_in(lines.drop_last()).push(i),
            HostLine::Head { .. } => hosts_in(lines.drop_last()),
        }
    }
}

/// What is drawn of a host under edit, as its form would save it.
pub open spec fn form_address(f: HostForm) -> Seq<char> {
    let host = text::trimmed(f.host@);
    let user = text::trimmed(f.user@);
    let port = text::trimmed(f.port@);
    let jump = text::trimmed(f.jump@);
    if host.len() == 0 {
        "user@hostname"@
    } else {
        (if user.len() > 0 {
            user.push('@')
        } else {
            Seq::empty()
        }) + host + (if port.len() > 0 && port != "22"@ {
            seq![':'] + port
        } else {
            Seq::empty()
        }) + (if jump.len() > 0 {
            "  via "@ + jump
        } else {
            Seq::empty()
        })
    }
}

pub open spec fn form_title(f: HostForm, new_host: Seq<char>) -> Seq<char> {
    let name = text::trimmed(f.name@);
    let host = text::trimmed(f.host@);
    if name.len() > 0 {
        name
    } else if host.len() > 0 {
        host
    } else {
        new_host
    }
}

/// The use of a host.
pub open spec fn usage_place(v: Seq<HostUsage>, id: u128) -> Option<int>
    decreases v.len(),
{
    if v.len() == 0 {
        None
    } else {
        match usage_place(v.drop_last(), id) {
            Some(i) => Some(i),
            None => if v.last().id == id {
                Some(v.len() - 1)
            } else {
                None
            },
        }
    }
}

pub fn find_usage(v: &Vec<HostUsage>, id: u128) -> (r: Option<usize>)
    ensures
        match r {
            Some(i) => i < v@.len() && usage_place(v@, id) == Some(i as int) && v@[i as int].id
                == id,
            None => usage_place(v@, id) is None,
        },
{
    let mut found: Option<usize> = None;
    let mut i: usize = 0;
    assert(v@.take(0) =~= Seq::<HostUsage>::empty());
    while i < v.len()
        invariant
            i <= v@.len(),
            match found {
                Some(k) => k < i && usage_place(v@.take(i as int), id) == Some(k as int)
                    && v@[k as int].id == id,
                None => usage_place(v@.take(i as int), id) is None,
            },
        decreases v@.len() - i,
    {
        assert(v@.take(i + 1).drop_last() =~= v@.take(i as int));
        if found.is_none() && v[i].id == id {
            found = Some(i);
        }
        i = i + 1;
    }
    assert(v@.take(v@.len() as int) =~= v@);
    found
}

/// When a host was last connected to; a time of zero is none.
pub open spec fn last_used(v: Seq<HostUsage>, id: u128) -> Option<u64> {
    match usage_place(v, id) {
        Some(i) => if v[i].usage.last_used > 0 {
            Some(v[i].usage.last_used)
        } else {
            None
        },
        None => None,
    }
}

/// What a host's row says at its end: that it is unsaved, that it is in use,
/// or when it was.
pub open spec fn meta_of(
    app: Tty7App,
    s: HostsState,
    saved: bool,
    id: u128,
) -> HostMeta {
    let editing = s.form matches Some(f) && f.editing == id;
    if editing && s.form->0.dirty {
        HostMeta::Unsaved
    } else if app.facts.live@.contains(id) {
        HostMeta::Live
    } else if !saved {
        HostMeta::Blank
    } else {
        match last_used(app.ssh_profile_frecency@, id) {
            Some(t) => HostMeta::LastUsed(t),
            None => HostMeta::Never,
        }
    }
}

/// `r` is the row of a host, saved at `place` or not yet.
pub open spec fn is_host_row(
    r: HostRow,
    app: Tty7App,
    s: HostsState,
    place: Option<usize>,
    id: u128,
    new_host: Seq<char>,
) -> bool {
    let editing = s.form matches Some(f) && f.editing == id;
    let open = editing || s.open == Some(id);
    let profiles = app.config.ssh_profiles@;
    &&& r.title@ == (if editing {
        form_title(s.form->0, new_host)
    } else {
        match place {
            Some(i) => title_of(profiles[i as int]),
            None => new_host,
        }
    })
    &&& r.address@ == (if editing {
        form_address(s.form->0)
    } else {
        match place {
            Some(i) => address_of(profiles[i as int], profiles),
            None => Seq::empty(),
        }
    })
    &&& r.blank_title == (editing && place is None && r.title@ == new_host)
    &&& r.meta == meta_of(app, s, place is Some, id)
    &&& r.open == open
    &&& r.body == (if editing {
        HostBody::Editor
    } else if open && place is Some {
        HostBody::Details
    } else {
        HostBody::Nothing
    })
}

/// What there is to say of a host.
pub open spec fn all_fields(p: SshProfile, profiles: Seq<SshProfile>, label: Seq<char>) -> Seq<
    (DetailKey, Seq<char>),
> {
    seq![
        (DetailKey::HostName, p.host@),
        (
            DetailKey::User,
            if p.user@.len() == 0 {
                "$USER"@
            } else {
                p.user@
            },
        ),
        (DetailKey::Port, text::decimal(p.port as nat)),
        (
            DetailKey::IdentityFile,
            if p.identity_files@.len() > 0 {
                p.identity_files@[0]@
            } else {
                Seq::empty()
            },
        ),
        (
            DetailKey::ProxyJump,
            match jump_title(p, profiles) {
                Some(t) => t,
                None => Seq::empty(),
            },
        ),
        (DetailKey::DefinedIn, label),
    ]
}

/// The fields of a host's details, those that hold something.
pub open spec fn detail_fields(p: SshProfile, profiles: Seq<SshProfile>, label: Seq<char>) -> Seq<
    (DetailKey, Seq<char>),
> {
    filled(all_fields(p, profiles, label))
}

/// The fields that hold something.
pub open spec fn filled(v: Seq<(DetailKey, Seq<char>)>) -> Seq<(DetailKey, Seq<char>)>
    decreases v.len(),
{
    if v.len() == 0 {
        Seq::empty()
    } else if v.last().1.len() == 0 {
        filled(v.drop_last())
    } else {
        filled(v.drop_last()).push(v.last())
    }
}

pub open spec fn field_views(v: Seq<(DetailKey, String)>) -> Seq<(DetailKey, Seq<char>)> {
    Seq::new(v.len(), |i: int| (v[i].0, v[i].1@))
}

fn push_field(out: &mut Vec<(DetailKey, String)>, key: DetailKey, value: String, all: Ghost<
    Seq<(DetailKey, Seq<char>)>,
>)
    requires
        field_views(old(out)@) == filled(all@),
    ensures
        field_views(final(out)@) == filled(all@.push((key, value@))),
{
    proof {
        assert(all@.push((key, value@)).drop_last() =~= all@);
    }
    if !value.as_str().is_empty() {
        let ghost before = field_views(out@);
        let ghost shown = value@;
        out.push((key, value));
        assert(field_views(out@) =~= before.push((key, shown)));
    }
}

/// Which field of a form is reported: a host that is missing is not, before
/// anything was typed.
pub open spec fn form_error(f: HostForm) -> Option<FormError> {
    if f.errors.host && !f.core_blank {
        Some(FormError::Host)
    } else if f.errors.port {
        Some(FormError::Port)
    } else if f.errors.jump {
        Some(FormError::Jump)
    } else if f.errors.socks {
        Some(FormError::Socks)
    } else if f.errors.http {
        Some(FormError::Http)
    } else {
        None
    }
}

/// Whether nothing is wrong with a form.
pub open spec fn is_clean(e: FormErrors) -> bool {
    !e.host && !e.port && !e.jump && !e.socks && !e.http
}

/// The editor of a host: there is something to save when nothing is wrong and
/// the form differs from what is saved. Removing asks twice.
pub open spec fn editor_of(f: HostForm, confirm_remove: bool, saved: bool) -> HostEditor {
    HostEditor {
        error: form_error(f),
        host_bad: f.errors.host && !f.core_blank,
        port_bad: f.errors.port,
        jump_bad: f.errors.jump,
        save: Btn {
            dimmed: !(is_clean(f.errors) && (f.dirty || !saved)),
            ..settings::button_of(
                if saved {
                    BtnKey::SaveHost
                } else {
                    BtnKey::AddHost
                },
                BtnKind::Primary,
            )
        },
        cancel: settings::button_of(BtnKey::Cancel, BtnKind::Secondary),
        remove: if saved {
            Some(
                if confirm_remove {
                    settings::button_of(BtnKey::ConfirmRemove, BtnKind::Danger)
                } else {
                    settings::button_of(BtnKey::RemoveHost, BtnKind::Link)
                },
            )
        } else {
            None
        },
    }
}

/// The page of hosts.
#[derive(Debug)]
pub struct SshPage {
    pub hosts: Option<HostsGroup>,
    pub security: Group,
}

/// A key in the search of hosts leads from `s` to `t`, and whether it was
/// taken: the arrows walk the hosts that are drawn and open each, unless one
/// is under edit; Escape clears what was typed.
pub open spec fn host_key_step(
    s: HostsState,
    visible: Seq<u128>,
    key: MenuKey,
    t: HostsState,
    taken: bool,
) -> bool {
    match key {
        MenuKey::Enter => t == s && !taken,
        MenuKey::Escape => if s.filter@.len() > 0 {
            &&& taken
            &&& t == (HostsState { filter: t.filter, ..s })
            &&& t.filter@.len() == 0
        } else {
            t == s && !taken
        },
        _ => if visible.len() == 0 {
            t == s && !taken
        } else {
            let next = match s.open {
                Some(id) => if visible.contains(id) {
                    let i = first_place(visible, id);
                    if key == MenuKey::Down {
                        if i + 1 < visible.len() {
                            i + 1
                        } else {
                            i
                        }
                    } else if i > 0 {
                        i - 1
                    } else {
                        0
                    }
                } else {
                    0
                },
                None => 0,
            };
            taken && t == (if s.form is None {
                HostsState { open: Some(visible[next]), ..s }
            } else {
                s
            })
        },
    }
}

/// What a key in the fields of a host asks for.
#[derive(Clone, Copy, Debug, PartialEq, Eq, Structural)]
pub enum FormStep {
    Save,
    Cancel,
}

/// A key in the fields of a host: Enter saves, Escape gives up, and any other
/// key is the field's own.
pub fn host_form_key(key: MenuKey) -> (r: Option<FormStep>)
    ensures
        r == match key {
            MenuKey::Enter => Some(FormStep::Save),
            MenuKey::Escape => Some(FormStep::Cancel),
            _ => None,
        },
{
    match key {
        MenuKey::Enter => Some(FormStep::Save),
        MenuKey::Escape => Some(FormStep::Cancel),
        _ => None,
    }
}

/// The first place of `x`.
pub open spec fn first_place(v: Seq<u128>, x: u128) -> int
    decreases v.len(),
{
    if v.len() == 0 {
        0
    } else if v.drop_last().contains(x) || v.last() != x {
        first_place(v.drop_last(), x)
    } else {
        v.len() - 1
    }
}

fn find_id(v: &Vec<u128>, x: u128) -> (r: Option<usize>)
    ensures
        match r {
            Some(i) => i < v@.len() && v@.contains(x) && i == first_place(v@, x),
            None => !v@.contains(x),
        },
{
    let mut found: Option<usize> = None;
    let mut i: usize = 0;
    while i < v.len()
        invariant
            i <= v@.len(),
            match found {
                Some(k) => k < i && v@[k as int] == x && first_place(v@.take(i as int), x) == k,
                None => forall|k: int| 0 <= k < i ==> #[trigger] v@[k] != x,
            },
        decreases v@.len() - i,
    {
        proof {
            let t = v@.take(i + 1);
            assert(t.drop_last() =~= v@.take(i as int));
            if found is Some {
                assert(t.drop_last()[found->0 as int] == x);
            } else if t.drop_last().contains(x) {
                let k = choose|k: int| 0 <= k < t.drop_last().len() && t.drop_last()[k] == x;
                assert(v@[k] == x);
            }
        }
        if found.is_none() && v[i] == x {
            found = Some(i);
        }
        i = i + 1;
    }
    assert(v@.take(v@.len() as int) =~= v@);
    proof {
        if found is Some {
            assert(v@[found->0 as int] == x);
        }
    }
    found
}

fn trimmed_text(s: &String) -> (r: String)
    ensures
        r@ == text::trimmed(s@),
{
    let v = text::trim(s.as_str());
    text::string_of(v.as_slice())
}

fn address_of_form(f: &HostForm) -> (r: String)
    ensures
        r@ == form_address(*f),
{
    let host = trimmed_text(&f.host);
    let user = trimmed_text(&f.user);
    let port = trimmed_text(&f.port);
    let jump = trimmed_text(&f.jump);
    if host.as_str().is_empty() {
        return text::owned("user@hostname");
    }
    let mut out = String::new();
    if !user.as_str().is_empty() {
        out.append(user.as_str());
        out.push('@');
    }
    out.append(host.as_str());
    if !port.as_str().is_empty() && !text::same(port.as_str(), "22") {
        out.push(':');
        out.append(port.as_str());
    }
    if !jump.as_str().is_empty() {
        out.append("  via ");
        out.append(jump.as_str());
    }
    assert(out@ =~= form_address(*f));
    out
}

impl Tty7App {
    fn find_adding(&self, s: &HostsState) -> (r: Option<u128>)
        ensures
            r == adding_of(*self, *s),
    {
        match &s.form {
            Some(f) => match ssh_connect::find_profile(
                self.config.ssh_profiles.as_slice(),
                f.editing,
            ) {
                Some(_) => None,
                None => Some(f.editing),
            },
            None => None,
        }
    }

    fn find_recent(&self) -> (r: Vec<usize>)
        ensures
            r@ == recent_of(self.facts.by_frecency@),
    {
        let mut out: Vec<usize> = Vec::new();
        let mut i: usize = 0;
        while i < self.facts.by_frecency.len() && i < RECENT_HOSTS
            invariant
                i <= self.facts.by_frecency@.len(),
                i <= RECENT_HOSTS,
                out@ == self.facts.by_frecency@.take(i as int),
            decreases self.facts.by_frecency@.len() - i,
        {
            out.push(self.facts.by_frecency[i]);
            i = i + 1;
            assert(out@ =~= self.facts.by_frecency@.take(i as int));
        }
        assert(out@ =~= recent_of(self.facts.by_frecency@));
        out
    }

    /// The group of hosts.
    pub fn render_hosts_group(&self) -> (r: Option<HostsGroup>)
        requires
            hosts_fit(*self),
        ensures
            match self.settings {
                Some(s) => r matches Some(g) && is_hosts_group(g, *self, s.ssh),
                None => r is None,
            },
    {
        let s: &HostsState = match &self.settings {
            None => {
                return None;
            },
            Some(st) => &st.ssh,
        };
        let query = text::query_text(s.filter.as_str());
        let searching: bool = !query.as_str().is_empty();
        let profiles = &self.config.ssh_profiles;
        let hosts = &self.facts.hosts;
        let adding = self.find_adding(s);
        let recent = self.find_recent();
        let mut lines: Vec<HostLine> = Vec::new();
        if searching {
            let hits = find_matching(hosts);
            let by = sort_by_title(profiles, &hits);
            push_hosts(&mut lines, &by);
        } else if s.show_all {
            lines = group_hosts(profiles, hosts, &s.collapsed);
        } else {
            push_hosts(&mut lines, &recent);
        }
        assert(lines@ =~= host_lines(*self, *s));
        let total: usize = profiles.len();
        let shown: usize = recent.len();
        let footer = if searching {
            let none: bool = visible_is_empty(hosts);
            proof {
                lemma_matching_empty(hosts@);
            }
            if none && adding.is_none() {
                HostsFooter::NoMatch
            } else {
                HostsFooter::Nothing
            }
        } else if total == 0 && adding.is_none() {
            HostsFooter::NoHosts
        } else if s.show_all {
            let firsts = find_heads(hosts);
            HostsFooter::All { count: total, files: firsts.len() }
        } else if total > shown {
            HostsFooter::More { rest: total - shown }
        } else {
            HostsFooter::Nothing
        };
        let more = match footer {
            HostsFooter::More { .. } => Some(Btn::new(BtnKey::ShowAll, BtnKind::Link)),
            HostsFooter::All { .. } => Some(Btn::new(BtnKey::ShowFewer, BtnKind::Link)),
            _ => None,
        };
        Some(
            HostsGroup {
                import: Btn::new(BtnKey::ImportHosts, BtnKind::Link),
                add: self.settings_button(BtnKey::AddHost).dimmed(adding.is_some()),
                adding,
                lines,
                footer,
                more,
                scrolls: searching || s.show_all,
            },
        )
    }

    /// The page of hosts.
    pub fn render_settings_ssh(&self) -> (r: SshPage)
        requires
            hosts_fit(*self),
        ensures
            match self.settings {
                Some(s) => r.hosts matches Some(g) && is_hosts_group(g, *self, s.ssh),
                None => r.hosts is None,
            },
            r.security@ == settings_pages::security_group(*self),
    {
        SshPage { hosts: self.render_hosts_group(), security: self.render_ssh_connection_rows() }
    }

    /// The heading of the group of the host at `first`.
    pub fn render_host_group_head(&self, first: usize, count: usize, collapsed: bool) -> (r:
        HostHead)
        requires
            first < self.facts.hosts@.len(),
        ensures
            r.label == self.facts.hosts@[first as int].group_label,
            r.count@ == text::decimal(count as nat),
            r.collapsed == collapsed,
    {
        HostHead {
            label: self.facts.hosts[first].group_label.clone(),
            count: text::decimal_of(count as u128),
            collapsed,
        }
    }

    /// The row of a host, saved at `place` or not yet. `new_host` is what one
    /// without a name is called.
    pub fn render_host_row(&self, place: Option<usize>, id: u128, new_host: &str) -> (r: Option<
        HostRow,
    >)
        requires
            place matches Some(i) ==> i < self.config.ssh_profiles@.len(),
        ensures
            match self.settings {
                Some(s) => r matches Some(row) && is_host_row(
                    row,
                    *self,
                    s.ssh,
                    place,
                    id,
                    new_host@,
                ),
                None => r is None,
            },
    {
        let s: &HostsState = match &self.settings {
            None => {
                return None;
            },
            Some(st) => &st.ssh,
        };
        let profiles = &self.config.ssh_profiles;
        let mut editing: bool = false;
        let mut dirty: bool = false;
        let mut title: String = match place {
            Some(i) => host_title(&profiles[i]),
            None => text::owned(new_host),
        };
        let mut address: String = match place {
            Some(i) => host_address(&profiles[i], profiles),
            None => String::new(),
        };
        assert(place is None ==> address@ =~= Seq::<char>::empty());
        match &s.form {
            Some(f) => {
                if f.editing == id {
                    editing = true;
                    dirty = f.dirty;
                    let name = trimmed_text(&f.name);
                    let host = trimmed_text(&f.host);
                    title = if !name.as_str().is_empty() {
                        name
                    } else if !host.as_str().is_empty() {
                        host
                    } else {
                        text::owned(new_host)
                    };
                    address = address_of_form(f);
                }
            },
            None => {},
        }
        let shown: bool = match s.open {
            Some(o) => o == id,
            None => false,
        };
        let open: bool = editing || shown;
        let blank_title: bool = editing && place.is_none() && text::same(title.as_str(), new_host);
        let live: bool = find_id(&self.facts.live, id).is_some();
        let meta = if dirty {
            HostMeta::Unsaved
        } else if live {
            HostMeta::Live
        } else if place.is_none() {
            HostMeta::Blank
        } else {
            match find_usage(&self.ssh_profile_frecency, id) {
                Some(i) => {
                    let t: u64 = self.ssh_profile_frecency[i].usage.last_used;
                    if t > 0 {
                        HostMeta::LastUsed(t)
                    } else {
                        HostMeta::Never
                    }
                },
                None => HostMeta::Never,
            }
        };
        let body = if editing {
            HostBody::Editor
        } else if open && place.is_some() {
            HostBody::Details
        } else {
            HostBody::Nothing
        };
        Some(HostRow { title, address, blank_title, meta, open, body })
    }

    /// A click on a host's row shows its details or hides them; a host under
    /// edit stays as it is.
    pub fn click_host_row(&mut self, id: u128)
        ensures
            *final(self) == (Tty7App { settings: final(self).settings, ..*old(self) }),
            final(self).settings == (match old(self).settings {
                Some(s) => Some(
                    if s.ssh.form matches Some(f) && f.editing == id {
                        s
                    } else {
                        SettingsState {
                            ssh: HostsState {
                                open: if s.ssh.open == Some(id) {
                                    None
                                } else {
                                    Some(id)
                                },
                                ..s.ssh
                            },
                            ..s
                        }
                    },
                ),
                None => None,
            }),
    {
        match &mut self.settings {
            Some(s) => {
                let editing: bool = match &s.ssh.form {
                    Some(f) => f.editing == id,
                    None => false,
                };
                if !editing {
                    let shown: bool = match s.ssh.open {
                        Some(o) => o == id,
                        None => false,
                    };
                    s.ssh.open = if shown {
                        None
                    } else {
                        Some(id)
                    };
                }
            },
            None => {},
        }
    }

    /// The details of the host at `place`.
    pub fn render_host_details(&self, place: usize) -> (r: HostDetails)
        requires
            hosts_fit(*self),
            place < self.config.ssh_profiles@.len(),
        ensures
            ({
                let p = self.config.ssh_profiles@[place as int];
                let copied = self.settings matches Some(s) && s.ssh.copied == Some(p.id);
                &&& field_views(r.fields@) == detail_fields(
                    p,
                    self.config.ssh_profiles@,
                    self.facts.hosts@[place as int].group_label@,
                )
                &&& r.connect == settings::button_of(BtnKey::ConnectHost, BtnKind::Primary)
                &&& r.edit == settings::button_of(BtnKey::EditHost, BtnKind::Secondary)
                &&& r.copy == settings::button_of(
                    if copied {
                        BtnKey::Copied
                    } else {
                        BtnKey::CopyCommand
                    },
                    BtnKind::Link,
                )
                &&& r.command@ == command_of(p)
            }),
    {
        let p = &self.config.ssh_profiles[place];
        let label = self.facts.hosts[place].group_label.clone();
        let user = if p.user.as_str().is_empty() {
            text::owned("$USER")
        } else {
            p.user.clone()
        };
        let key = if p.identity_files.len() > 0 {
            p.identity_files[0].clone()
        } else {
            String::new()
        };
        let jump = match title_of_jump(p, &self.config.ssh_profiles) {
            Some(t) => t,
            None => String::new(),
        };
        let port = text::decimal_of(p.port as u128);
        let ghost e0 = Seq::<(DetailKey, Seq<char>)>::empty();
        let ghost e1 = e0.push((DetailKey::HostName, p.host@));
        let ghost e2 = e1.push((DetailKey::User, user@));
        let ghost e3 = e2.push((DetailKey::Port, port@));
        let ghost e4 = e3.push((DetailKey::IdentityFile, key@));
        let ghost e5 = e4.push((DetailKey::ProxyJump, jump@));
        let ghost e6 = e5.push((DetailKey::DefinedIn, label@));
        let mut fields: Vec<(DetailKey, String)> = Vec::new();
        assert(field_views(fields@) =~= filled(e0));
        assert(key@ =~= if p.identity_files@.len() > 0 {
            p.identity_files@[0]@
        } else {
            Seq::<char>::empty()
        });
        assert(jump@ =~= match jump_title(*p, self.config.ssh_profiles@) {
            Some(t) => t,
            None => Seq::<char>::empty(),
        });
        let ghost want = all_fields(*p, self.config.ssh_profiles@, label@);
        assert(e6 =~= want);
        push_field(&mut fields, DetailKey::HostName, p.host.clone(), Ghost(e0));
        push_field(&mut fields, DetailKey::User, user, Ghost(e1));
        push_field(&mut fields, DetailKey::Port, port, Ghost(e2));
        push_field(&mut fields, DetailKey::IdentityFile, key, Ghost(e3));
        push_field(&mut fields, DetailKey::ProxyJump, jump, Ghost(e4));
        push_field(&mut fields, DetailKey::DefinedIn, label, Ghost(e5));
        let copied: bool = match &self.settings {
            Some(s) => match s.ssh.copied {
                Some(c) => c == p.id,
                None => false,
            },
            None => false,
        };
        let copy_key = if copied {
            BtnKey::Copied
        } else {
            BtnKey::CopyCommand
        };
        HostDetails {
            fields,
            connect: Btn::new(BtnKey::ConnectHost, BtnKind::Primary),
            edit: Btn::new(BtnKey::EditHost, BtnKind::Secondary),
            copy: Btn::new(copy_key, BtnKind::Link),
            command: ssh_command(p),
        }
    }

    /// The editor of the host under edit, one that is saved already or not.
    pub fn render_host_editor(&self, saved: bool) -> (r: Option<HostEditor>)
        ensures
            r == (match self.settings {
                Some(s) => match s.ssh.form {
                    Some(f) => Some(editor_of(f, s.ssh.confirm_remove, saved)),
                    None => None,
                },
                None => None,
            }),
    {
        let s: &HostsState = match &self.settings {
            None => {
                return None;
            },
            Some(st) => &st.ssh,
        };
        let f: &HostForm = match &s.form {
            None => {
                return None;
            },
            Some(f) => f,
        };
        let e = f.errors;
        let host_bad: bool = e.host && !f.core_blank;
        let error = if host_bad {
            Some(FormError::Host)
        } else if e.port {
            Some(FormError::Port)
        } else if e.jump {
            Some(FormError::Jump)
        } else if e.socks {
            Some(FormError::Socks)
        } else if e.http {
            Some(FormError::Http)
        } else {
            None
        };
        let clean: bool = !e.host && !e.port && !e.jump && !e.socks && !e.http;
        let can_save: bool = clean && (f.dirty || !saved);
        let save_key = if saved {
            BtnKey::SaveHost
        } else {
            BtnKey::AddHost
        };
        let remove = if saved {
            if s.confirm_remove {
                Some(Btn::new(BtnKey::ConfirmRemove, BtnKind::Danger))
            } else {
                Some(Btn::new(BtnKey::RemoveHost, BtnKind::Link))
            }
        } else {
            None
        };
        Some(
            HostEditor {
                error,
                host_bad,
                port_bad: e.port,
                jump_bad: e.jump,
                save: Btn::new(save_key, BtnKind::Primary).dimmed(!can_save),
                cancel: Btn::new(BtnKey::Cancel, BtnKind::Secondary),
                remove,
            },
        )
    }

    /// The form was saved as the host `saved`, or could not be: the form gives
    /// way to the host's details, or stays.
    pub fn save_host_form(&mut self, saved: Option<u128>)
        ensures
            *final(self) == (Tty7App { settings: final(self).settings, ..*old(self) }),
            final(self).settings == (match old(self).settings {
                Some(s) => Some(
                    match saved {
                        Some(id) => SettingsState {
                            ssh: HostsState {
                                form: None,
                                open: Some(id),
                                confirm_remove: false,
                                ..s.ssh
                            },
                            ..s
                        },
                        None => s,
                    },
                ),
                None => None,
            }),
    {
        match saved {
            Some(id) => {
                match &mut self.settings {
                    Some(s) => {
                        s.ssh.form = None;
                        s.ssh.open = Some(id);
                        s.ssh.confirm_remove = false;
                    },
                    None => {},
                }
            },
            None => {},
        }
    }

    /// A click on the button that removes a host: whether to remove it now.
    pub fn click_remove_host(&mut self) -> (r: bool)
        ensures
            *final(self) == (Tty7App { settings: final(self).settings, ..*old(self) }),
            match old(self).settings {
                Some(s) => r == s.ssh.confirm_remove && final(self).settings == Some(
                    SettingsState { ssh: HostsState { confirm_remove: true, ..s.ssh }, ..s },
                ),
                None => !r && final(self).settings is None,
            },
    {
        match &mut self.settings {
            Some(s) => {
                let confirmed: bool = s.ssh.confirm_remove;
                s.ssh.confirm_remove = true;
                confirmed
            },
            None => false,
        }
    }

    /// The command of a host was copied.
    pub fn host_command_copied(&mut self, id: u128)
        ensures
            *final(self) == (Tty7App { settings: final(self).settings, ..*old(self) }),
            final(self).settings == (match old(self).settings {
                Some(s) => Some(
                    SettingsState { ssh: HostsState { copied: Some(id), ..s.ssh }, ..s },
                ),
                None => None,
            }),
    {
        match &mut self.settings {
            Some(s) => {
                s.ssh.copied = Some(id);
            },
            None => {},
        }
    }

    /// The time to say that a command was copied is over; another host's is
    /// not cut short.
    pub fn host_copy_expired(&mut self, id: u128)
        ensures
            *final(self) == (Tty7App { settings: final(self).settings, ..*old(self) }),
            final(self).settings == (match old(self).settings {
                Some(s) => Some(
                    if s.ssh.copied == Some(id) {
                        SettingsState { ssh: HostsState { copied: None, ..s.ssh }, ..s }
                    } else {
                        s
                    },
                ),
                None => None,
            }),
    {
        match &mut self.settings {
            Some(s) => {
                let same: bool = match s.ssh.copied {
                    Some(c) => c == id,
                    None => false,
                };
                if same {
                    s.ssh.copied = None;
                }
            },
            None => {},
        }
    }

    /// A key in the search of hosts, with these hosts drawn: whether it was
    /// taken.
    pub fn hosts_key(&mut self, visible: &Vec<u128>, key: MenuKey) -> (r: bool)
        ensures
            *final(self) == (Tty7App { settings: final(self).settings, ..*old(self) }),
            match old(self).settings {
                Some(s) => {
                    &&& final(self).settings matches Some(t)
                    &&& t == (SettingsState { ssh: t.ssh, ..s })
                    &&& host_key_step(s.ssh, visible@, key, t.ssh, r)
                },
                None => final(self).settings is None && !r,
            },
    {
        match &mut self.settings {
            None => false,
            Some(s) => {
                match key {
                    MenuKey::Enter => false,
                    MenuKey::Escape => {
                        if s.ssh.filter.as_str().is_empty() {
                            false
                        } else {
                            s.ssh.filter = String::new();
                            true
                        }
                    },
                    _ => {
                        let n: usize = visible.len();
                        if n == 0 {
                            return false;
                        }
                        let at: Option<usize> = match s.ssh.open {
                            Some(id) => find_id(visible, id),
                            None => None,
                        };
                        let next: usize = match at {
                            None => 0,
                            Some(i) => if key == MenuKey::Down {
                                if i < n - 1 {
                                    i + 1
                                } else {
                                    i
                                }
                            } else if i > 0 {
                                i - 1
                            } else {
                                0
                            },
                        };
                        if s.ssh.form.is_none() {
                            s.ssh.open = Some(visible[next]);
                        }
                        true
                    },
                }
            },
        }
    }

    /// A click on the button that adds a host: whether one is to be added. While
    /// a new host is under edit the click does nothing; else the search is
    /// cleared, so that the new host is seen.
    pub fn click_add_host(&mut self) -> (r: bool)
        ensures
            *final(self) == (Tty7App { settings: final(self).settings, ..*old(self) }),
            match old(self).settings {
                Some(s) => {
                    &&& final(self).settings matches Some(t)
                    &&& r == (adding_of(*old(self), s.ssh) is None)
                    &&& t == (SettingsState { ssh: t.ssh, ..s })
                    &&& t.ssh == (HostsState { filter: t.ssh.filter, ..s.ssh })
                    &&& t.ssh.filter@ == (if r {
                        Seq::<char>::empty()
                    } else {
                        s.ssh.filter@
                    })
                },
                None => final(self).settings is None && r,
            },
    {
        let adding: bool = match &self.settings {
            Some(s) => self.find_adding(&s.ssh).is_some(),
            None => false,
        };
        if adding {
            return false;
        }
        match &mut self.settings {
            Some(s) => {
                s.ssh.filter = String::new();
            },
            None => {},
        }
        true
    }

    /// Show every host, or the few used most.
    pub fn toggle_show_all_hosts(&mut self)
        ensures
            *final(self) == (Tty7App { settings: final(self).settings, ..*old(self) }),
            final(self).settings == (match old(self).settings {
                Some(s) => Some(
                    SettingsState {
                        ssh: HostsState { show_all: !s.ssh.show_all, ..s.ssh },
                        ..s
                    },
                ),
                None => None,
            }),
    {
        match &mut self.settings {
            Some(s) => {
                s.ssh.show_all = !s.ssh.show_all;
            },
            None => {},
        }
    }
}

proof fn lemma_matching_empty(hosts: Seq<HostFacts>)
    ensures
        matching(hosts).len() == 0 <==> forall|i: int|
            0 <= i < hosts.len() ==> !(#[trigger] hosts[i]).matches,
    decreases hosts.len(),
{
    if hosts.len() > 0 {
        let h = hosts.drop_last();
        lemma_matching_empty(h);
        if matching(hosts).len() == 0 {
            assert forall|i: int| 0 <= i < hosts.len() implies !(#[trigger] hosts[i]).matches by {
                if i < h.len() {
                    assert(h[i] == hosts[i]);
                }
            }
        } else if matching(h).len() > 0 {
            let i = choose|i: int| 0 <= i < h.len() && (#[trigger] h[i]).matches;
            assert(hosts[i].matches);
        } else {
            assert(hosts[hosts.len() - 1].matches);
        }
    }
}

/// The hosts that lines draw, by their ids: what the arrow keys walk.
pub fn visible_ids(profiles: &Vec<SshProfile>, lines: &Vec<HostLine>) -> (r: Vec<u128>)
    requires
        forall|k: int|
            0 <= k < lines@.len() ==> (#[trigger] lines@[k] matches HostLine::Host(i) ==> i
                < profiles@.len()),
    ensures
        r@ == Seq::new(hosts_in(lines@).len(), |i: int| profiles@[hosts_in(lines@)[i] as int].id),
{
    let mut out: Vec<u128> = Vec::new();
    let mut i: usize = 0;
    assert(lines@.take(0) =~= Seq::<HostLine>::empty());
    while i < lines.len()
        invariant
            i <= lines@.len(),
            forall|k: int|
                0 <= k < lines@.len() ==> (#[trigger] lines@[k] matches HostLine::Host(i) ==> i
                    < profiles@.len()),
            out@.len() == hosts_in(lines@.take(i as int)).len(),
            forall|k: int|
                0 <= k < out@.len() ==> #[trigger] out@[k] == profiles@[hosts_in(
                    lines@.take(i as int),
                )[k] as int].id,
        decreases lines@.len() - i,
    {
        assert(lines@.take(i + 1).drop_last() =~= lines@.take(i as int));
        match lines[i] {
            HostLine::Host(at) => {
                out.push(profiles[at].id);
            },
            HostLine::Head { .. } => {},
        }
        i = i + 1;
    }
    assert(lines@.take(lines@.len() as int) =~= lines@);
    assert(out@ =~= Seq::new(
        hosts_in(lines@).len(),
        |i: int| profiles@[hosts_in(lines@)[i] as int].id,
    ));
    out
}

proof fn lemma_members_hold(hosts: Seq<HostFacts>, group: Seq<char>)
    requires
        hosts.len() <= usize::MAX,
    ensures
        forall|k: int|
            0 <= k < hosts.len() && (#[trigger] hosts[k]).group@ == group ==> members(
                hosts,
                group,
            ).contains(k as usize),
        forall|i: int|
            0 <= i < members(hosts, group).len() ==> (#[trigger] members(hosts, group)[i])
                < hosts.len() && hosts[members(hosts, group)[i] as int].group@ == group,
        members(hosts, group).len() <= hosts.len(),
    decreases hosts.len(),
{
    if hosts.len() > 0 {
        let h = hosts.drop_last();
        lemma_members_hold(h, group);
        let a = members(hosts, group);
        let b = members(h, group);
        assert forall|k: int| 0 <= k < hosts.len() && (#[trigger] hosts[k]).group@ == group implies a.contains(
            k as usize,
        ) by {
            if k < h.len() {
                assert(h[k] == hosts[k]);
                let w = choose|w: int| 0 <= w < b.len() && b[w] == k as usize;
                assert(a[w] == k as usize);
            } else {
                assert(a[a.len() - 1] == k as usize);
            }
        }
        assert forall|i: int| 0 <= i < a.len() implies (#[trigger] a[i]) < hosts.len()
            && hosts[a[i] as int].group@ == group by {
            if i < b.len() {
                assert(a[i] == b[i]);
                assert(h[b[i] as int] == hosts[b[i] as int]);
            }
        }
    }
}

proof fn lemma_head_of(hosts: Seq<HostFacts>, k: int) -> (h: int)
    requires
        hosts.len() <= usize::MAX,
        0 <= k < hosts.len(),
    ensures
        0 <= h < heads(hosts).len(),
        heads(hosts)[h] < hosts.len(),
        hosts[heads(hosts)[h] as int].group@ == hosts[k].group@,
    decreases hosts.len(),
{
    let front = hosts.drop_last();
    let last = hosts.len() - 1;
    if k < last {
        let h = lemma_head_of(front, k);
        assert(heads(hosts)[h] == heads(front)[h]);
        assert(front[heads(front)[h] as int] == hosts[heads(front)[h] as int]);
        h
    } else if members(front, hosts.last().group@).len() == 0 {
        heads(hosts).len() - 1
    } else {
        lemma_members_empty(front, hosts.last().group@);
        let m = choose|m: int|
            0 <= m < front.len() && (#[trigger] front[m]).group@ == hosts.last().group@;
        let h = lemma_head_of(front, m);
        assert(heads(hosts)[h] == heads(front)[h]);
        assert(front[heads(front)[h] as int] == hosts[heads(front)[h] as int]);
        h
    }
}

proof fn lemma_by_title_holds(profiles: Seq<SshProfile>, places: Seq<usize>, x: usize)
    requires
        places.len() <= usize::MAX,
    ensures
        by_title(profiles, places).contains(x) <==> places.contains(x),
{
    let keys = title_keys(profiles, places);
    let o = order::order_of(keys);
    order::lemma_order_exists(keys);
    let r = by_title(profiles, places);
    if places.contains(x) {
        let w = choose|w: int| 0 <= w < places.len() && places[w] == x;
        assert(o.contains(w as usize));
        let i = choose|i: int| 0 <= i < o.len() && o[i] == w as usize;
        assert(r[i] == x);
    }
    if r.contains(x) {
        let i = choose|i: int| 0 <= i < r.len() && r[i] == x;
        assert(places[o[i] as int] == x);
    }
}

proof fn lemma_as_hosts_holds(places: Seq<usize>, x: usize)
    ensures
        as_hosts(places).contains(HostLine::Host(x)) <==> places.contains(x),
{
    if places.contains(x) {
        let i = choose|i: int| 0 <= i < places.len() && places[i] == x;
        assert(as_hosts(places)[i] == HostLine::Host(x));
    }
    if as_hosts(places).contains(HostLine::Host(x)) {
        let i = choose|i: int|
            0 <= i < as_hosts(places).len() && as_hosts(places)[i] == HostLine::Host(x);
        assert(places[i] == x);
    }
}

proof fn lemma_group_lines_hold(
    profiles: Seq<SshProfile>,
    hosts: Seq<HostFacts>,
    collapsed: Seq<Seq<char>>,
    first: usize,
    k: int,
)
    requires
        hosts.len() <= usize::MAX,
        first < hosts.len(),
        0 <= k < hosts.len(),
    ensures
        group_lines(profiles, hosts, collapsed, first).contains(HostLine::Host(k as usize))
            <==> hosts[k].group@ == hosts[first as int].group@ && !collapsed.contains(
            hosts[k].group@,
        ),
{
    let group = hosts[first as int].group@;
    let own = members(hosts, group);
    let lines = group_lines(profiles, hosts, collapsed, first);
    let tail = as_hosts(by_title(profiles, own));
    lemma_members_hold(hosts, group);
    lemma_by_title_holds(profiles, own, k as usize);
    lemma_as_hosts_holds(by_title(profiles, own), k as usize);
    if hosts[k].group@ == group && !collapsed.contains(group) {
        assert(own.contains(k as usize));
        let i = choose|i: int| 0 <= i < tail.len() && tail[i] == HostLine::Host(k as usize);
        assert(lines[i + 1] == HostLine::Host(k as usize));
    }
    if lines.contains(HostLine::Host(k as usize)) {
        let i = choose|i: int| 0 <= i < lines.len() && lines[i] == HostLine::Host(k as usize);
        assert(i > 0);
        assert(tail[i - 1] == HostLine::Host(k as usize));
        assert(own.contains(k as usize));
        let m = choose|m: int| 0 <= m < own.len() && own[m] == k as usize;
        assert(hosts[own[m] as int].group@ == group);
    }
}

proof fn lemma_groups_lines_hold(
    profiles: Seq<SshProfile>,
    hosts: Seq<HostFacts>,
    collapsed: Seq<Seq<char>>,
    firsts: Seq<usize>,
    line: HostLine,
)
    ensures
        groups_lines(profiles, hosts, collapsed, firsts).contains(line) <==> exists|i: int|
            0 <= i < firsts.len() && group_lines(
                profiles,
                hosts,
                collapsed,
                #[trigger] firsts[i],
            ).contains(line),
    decreases firsts.len(),
{
    if firsts.len() > 0 {
        let f = firsts.drop_last();
        lemma_groups_lines_hold(profiles, hosts, collapsed, f, line);
        let a = groups_lines(profiles, hosts, collapsed, f);
        let b = group_lines(profiles, hosts, collapsed, firsts.last());
        let all = groups_lines(profiles, hosts, collapsed, firsts);
        assert(all == a + b);
        if all.contains(line) {
            let i = choose|i: int| 0 <= i < all.len() && all[i] == line;
            if i < a.len() {
                assert(a[i] == line);
                let w = choose|w: int|
                    0 <= w < f.len() && group_lines(
                        profiles,
                        hosts,
                        collapsed,
                        #[trigger] f[w],
                    ).contains(line);
                assert(firsts[w] == f[w]);
            } else {
                assert(b[i - a.len()] == line);
                assert(firsts[firsts.len() - 1] == firsts.last());
            }
        }
        if exists|i: int|
            0 <= i < firsts.len() && group_lines(
                profiles,
                hosts,
                collapsed,
                #[trigger] firsts[i],
            ).contains(line) {
            let w = choose|w: int|
                0 <= w < firsts.len() && group_lines(
                    profiles,
                    hosts,
                    collapsed,
                    #[trigger] firsts[w],
                ).contains(line);
            if w < f.len() {
                assert(f[w] == firsts[w]);
                let i = choose|i: int| 0 <= i < a.len() && a[i] == line;
                assert(all[i] == line);
            } else {
                let i = choose|i: int| 0 <= i < b.len() && b[i] == line;
                assert(all[a.len() + i] == line);
            }
        }
    }
}

/// When all are asked for, a host is drawn exactly when its group is not
/// folded.
pub proof fn a_host_is_drawn_unless_its_group_is_folded(app: Tty7App, s: HostsState, k: int)
    requires
        hosts_fit(app),
        app.facts.hosts@.len() <= usize::MAX,
        text::query_of(s.filter@).len() == 0,
        s.show_all,
        0 <= k < app.facts.hosts@.len(),
    ensures
        host_lines(app, s).contains(HostLine::Host(k as usize)) <==> !text::views(
            s.collapsed@,
        ).contains(app.facts.hosts@[k].group@),
{
    let profiles = app.config.ssh_profiles@;
    let hosts = app.facts.hosts@;
    let collapsed = text::views(s.collapsed@);
    let h = heads(hosts);
    let keys = group_keys(hosts, h);
    let o = order::order_of(keys);
    let firsts = ordered_heads(hosts);
    lemma_places(hosts, hosts[k].group@);
    order::lemma_order_exists(keys);
    lemma_groups_lines_hold(profiles, hosts, collapsed, firsts, HostLine::Host(k as usize));
    let w = lemma_head_of(hosts, k);
    assert(o.contains(w as usize));
    let i = choose|i: int| 0 <= i < o.len() && o[i] == w as usize;
    assert(firsts[i] == h[w]);
    lemma_group_lines_hold(profiles, hosts, collapsed, firsts[i], k);
    if host_lines(app, s).contains(HostLine::Host(k as usize)) {
        let j = choose|j: int|
            0 <= j < firsts.len() && group_lines(
                profiles,
                hosts,
                collapsed,
                #[trigger] firsts[j],
            ).contains(HostLine::Host(k as usize));
        assert(firsts[j] == h[o[j] as int]);
        lemma_group_lines_hold(profiles, hosts, collapsed, firsts[j], k);
    }
}

proof fn lemma_matching_holds(hosts: Seq<HostFacts>, k: int)
    requires
        hosts.len() <= usize::MAX,
        0 <= k < hosts.len(),
    ensures
        matching(hosts).contains(k as usize) <==> hosts[k].matches,
    decreases hosts.len(),
{
    let front = hosts.drop_last();
    let a = matching(hosts);
    let b = matching(front);
    lemma_places(front, Seq::empty());
    if k < front.len() {
        lemma_matching_holds(front, k);
        if b.contains(k as usize) {
            let w = choose|w: int| 0 <= w < b.len() && b[w] == k as usize;
            assert(a[w] == k as usize);
        }
        if a.contains(k as usize) {
            let w = choose|w: int| 0 <= w < a.len() && a[w] == k as usize;
            assert(b[w] == k as usize);
        }
    } else {
        if hosts[k].matches {
            assert(a[a.len() - 1] == k as usize);
        } else if a.contains(k as usize) {
            let w = choose|w: int| 0 <= w < a.len() && a[w] == k as usize;
            assert(b[w] < front.len());
        }
    }
}

/// A search draws exactly the hosts it finds, whatever is folded.
pub proof fn a_search_draws_what_it_finds(app: Tty7App, s: HostsState, k: int)
    requires
        hosts_fit(app),
        app.facts.hosts@.len() <= usize::MAX,
        text::query_of(s.filter@).len() > 0,
        0 <= k < app.facts.hosts@.len(),
    ensures
        host_lines(app, s).contains(HostLine::Host(k as usize)) <==> app.facts.hosts@[k].matches,
{
    let places = matching(app.facts.hosts@);
    lemma_places(app.facts.hosts@, Seq::empty());
    lemma_matching_holds(app.facts.hosts@, k);
    lemma_by_title_holds(app.config.ssh_profiles@, places, k as usize);
    lemma_as_hosts_holds(by_title(app.config.ssh_profiles@, places), k as usize);
}

/// A form with an error offers nothing to save; a changed one without does.
pub proof fn a_form_with_an_error_offers_nothing_to_save(f: HostForm, confirm: bool, saved: bool)
    ensures
        !is_clean(f.errors) ==> editor_of(f, confirm, saved).save.dimmed,
        form_error(f) is Some ==> !is_clean(f.errors),
        is_clean(f.errors) && f.dirty ==> !editor_of(f, confirm, saved).save.dimmed,
{
}

/// A host is called by its name, and only without one by how it is reached.
pub proof fn a_host_is_called_by_its_name(p: SshProfile)
    ensures
        p.name@.len() > 0 ==> title_of(p) == p.name@,
        p.name@.len() == 0 ==> title_of(p) == ssh_profile::connect_text(p.user@, p.host@, p.port),
{
}

/// How a host is reached names the host it is reached through exactly where
/// there is one that is saved.
pub proof fn an_address_names_its_jump_host(p: SshProfile, profiles: Seq<SshProfile>, k: int)
    ensures
        p.jump_host is None ==> address_of(p, profiles) == ssh_profile::connect_text(
            p.user@,
            p.host@,
            p.port,
        ),
        0 <= k < profiles.len() && Some(profiles[k].id) == p.jump_host && (forall|i: int|
            0 <= i < k ==> (#[trigger] profiles[i]).id != profiles[k].id) ==> address_of(p, profiles)
            == ssh_profile::connect_text(p.user@, p.host@, p.port) + "  via "@ + title_of(
            profiles[k],
        ),
        (forall|i: int| 0 <= i < profiles.len() ==> Some((#[trigger] profiles[i]).id)
            != p.jump_host) ==> jump_title(p, profiles) is None,
{
    if p.jump_host is Some {
        ssh_connect::lemma_place_of_id(profiles, p.jump_host->0);
    }
}

/// The command names what differs from a plain connect, in order: the port
/// where it is not the usual one, the first key, the user, and the host last.
pub proof fn a_command_names_port_key_user_and_host(p: SshProfile)
    ensures
        p.port == 22 && p.identity_files@.len() == 0 && p.user@.len() == 0 ==> command_of(p)
            == "ssh"@ + seq![' '] + p.host@,
        p.port == 22 && p.identity_files@.len() == 0 && p.user@.len() > 0 ==> command_of(p)
            == "ssh"@ + seq![' '] + p.user@ + seq!['@'] + p.host@,
        p.port != 22 && p.identity_files@.len() == 0 && p.user@.len() > 0 ==> command_of(p)
            == "ssh"@ + " -p "@ + text::decimal(p.port as nat) + seq![' '] + p.user@ + seq!['@']
            + p.host@,
        p.port == 22 && p.identity_files@.len() > 0 && p.user@.len() > 0 ==> command_of(p)
            == "ssh"@ + " -i "@ + p.identity_files@[0]@ + seq![' '] + p.user@ + seq!['@'] + p.host@,
        p.port != 22 && p.identity_files@.len() > 0 && p.user@.len() > 0 ==> command_of(p)
            == "ssh"@ + " -p "@ + text::decimal(p.port as nat) + " -i "@ + p.identity_files@[0]@
            + seq![' '] + p.user@ + seq!['@'] + p.host@,
{
    if p.port == 22 && p.identity_files@.len() == 0 && p.user@.len() == 0 {
        assert(command_of(p) =~= "ssh"@ + seq![' '] + p.host@);
    }
    if p.port == 22 && p.identity_files@.len() == 0 && p.user@.len() > 0 {
        assert(command_of(p) =~= "ssh"@ + seq![' '] + p.user@ + seq!['@'] + p.host@);
    }
    if p.port != 22 && p.identity_files@.len() == 0 && p.user@.len() > 0 {
        assert(command_of(p) =~= "ssh"@ + " -p "@ + text::decimal(p.port as nat) + seq![' ']
            + p.user@ + seq!['@'] + p.host@);
    }
    if p.port == 22 && p.identity_files@.len() > 0 && p.user@.len() > 0 {
        assert(command_of(p) =~= "ssh"@ + " -i "@ + p.identity_files@[0]@ + seq![' '] + p.user@
            + seq!['@'] + p.host@);
    }
    if p.port != 22 && p.identity_files@.len() > 0 && p.user@.len() > 0 {
        assert(command_of(p) =~= "ssh"@ + " -p "@ + text::decimal(p.port as nat) + " -i "@
            + p.identity_files@[0]@ + seq![' '] + p.user@ + seq!['@'] + p.host@);
    }
}

/// Hosts are listed by what they are called, whatever the case.
pub proof fn hosts_are_listed_by_what_they_are_called(
    profiles: Seq<SshProfile>,
    places: Seq<usize>,
    i: int,
    j: int,
)
    requires
        places.len() <= usize::MAX,
        0 <= i < j < places.len(),
    ensures
        text::text_le(
            text::lower_of(title_of(profiles[by_title(profiles, places)[i] as int])),
            text::lower_of(title_of(profiles[by_title(profiles, places)[j] as int])),
        ),
        places.contains(by_title(profiles, places)[i]),
{
    let keys = title_keys(profiles, places);
    order::lemma_order_exists(keys);
    let o = order::order_of(keys);
    assert(order::goes_before(keys, o[i] as int, o[j] as int));
    assert(o[i] < places.len() && o[j] < places.len());
    assert(by_title(profiles, places)[i] == places[o[i] as int]);
}

/// Groups are listed by their rank, and those of one rank by name.
pub proof fn groups_of_hosts_are_listed_by_rank(hosts: Seq<HostFacts>, i: int, j: int)
    requires
        hosts.len() <= usize::MAX,
        0 <= i < j < ordered_heads(hosts).len(),
    ensures
        ({
            let a = hosts[ordered_heads(hosts)[i] as int];
            let b = hosts[ordered_heads(hosts)[j] as int];
            &&& a.group_rank <= b.group_rank
            &&& a.group_rank == b.group_rank ==> text::text_le(a.group@, b.group@)
        }),
{
    let h = heads(hosts);
    let keys = group_keys(hosts, h);
    lemma_places(hosts, Seq::empty());
    order::lemma_order_exists(keys);
    let o = order::order_of(keys);
    assert(order::goes_before(keys, o[i] as int, o[j] as int));
    assert(o[i] < h.len() && o[j] < h.len());
}

/// A group lists its own hosts, and the heading counts them all, folded away
/// or not.
pub proof fn a_heading_counts_its_hosts(
    profiles: Seq<SshProfile>,
    hosts: Seq<HostFacts>,
    collapsed: Seq<Seq<char>>,
    first: usize,
)
    requires
        hosts.len() <= usize::MAX,
        first < hosts.len(),
    ensures
        group_lines(profiles, hosts, collapsed, first)[0] == (HostLine::Head {
            first,
            count: members(hosts, hosts[first as int].group@).len() as usize,
            collapsed: collapsed.contains(hosts[first as int].group@),
        }),
        collapsed.contains(hosts[first as int].group@) ==> group_lines(
            profiles,
            hosts,
            collapsed,
            first,
        ).len() == 1,
        !collapsed.contains(hosts[first as int].group@) ==> group_lines(
            profiles,
            hosts,
            collapsed,
            first,
        ).len() == 1 + members(hosts, hosts[first as int].group@).len(),
{
}

/// The members of a group are the hosts of that group, in order.
pub proof fn a_group_of_hosts_holds_its_own(hosts: Seq<HostFacts>, group: Seq<char>)
    requires
        hosts.len() <= usize::MAX,
    ensures
        forall|i: int|
            0 <= i < members(hosts, group).len() ==> (#[trigger] members(hosts, group)[i])
                < hosts.len() && hosts[members(hosts, group)[i] as int].group@ == group,
        forall|i: int, j: int|
            0 <= i < j < members(hosts, group).len() ==> (#[trigger] members(hosts, group)[i]) < (
            #[trigger] members(hosts, group)[j]),
        forall|k: int|
            0 <= k < hosts.len() && (#[trigger] hosts[k]).group@ == group ==> members(
                hosts,
                group,
            ).contains(k as usize),
    decreases hosts.len(),
{
    if hosts.len() > 0 {
        let front = hosts.drop_last();
        let head = members(front, group);
        let all = members(hosts, group);
        a_group_of_hosts_holds_its_own(front, group);
        assert forall|i: int| 0 <= i < all.len() implies (#[trigger] all[i]) < hosts.len()
            && hosts[all[i] as int].group@ == group by {
            if i < head.len() {
                assert(all[i] == head[i]);
                assert(front[head[i] as int] == hosts[head[i] as int]);
            }
        }
        assert forall|i: int, j: int| 0 <= i < j < all.len() implies (#[trigger] all[i]) < (
        #[trigger] all[j]) by {
            assert(all[i] == head[i]);
            if j < head.len() {
                assert(all[j] == head[j]);
            }
        }
        assert forall|k: int|
            0 <= k < hosts.len() && (#[trigger] hosts[k]).group@ == group implies all.contains(
            k as usize,
        ) by {
            if k < front.len() {
                assert(front[k] == hosts[k]);
                let w = choose|w: int| 0 <= w < head.len() && head[w] == k as usize;
                assert(all[w] == k as usize);
            } else {
                assert(all[head.len() as int] == k as usize);
            }
        }
    }
}

/// Without a search and without asking for all, the five hosts used most are
/// listed, the most used first.
pub proof fn the_few_used_most_are_listed(app: Tty7App, s: HostsState, i: int)
    requires
        text::query_of(s.filter@).len() == 0,
        !s.show_all,
        0 <= i < host_lines(app, s).len(),
    ensures
        host_lines(app, s)[i] == HostLine::Host(app.facts.by_frecency@[i]),
        app.facts.by_frecency@.len() <= 5 ==> host_lines(app, s).len()
            == app.facts.by_frecency@.len(),
        app.facts.by_frecency@.len() > 5 ==> host_lines(app, s).len() == 5,
{
}

/// What stands under the list follows from what is listed: that nothing was
/// found, that there are no hosts, how many more there are, or how many there
/// are in all; and the button beside it leads from the few to all, or back.
pub proof fn a_footer_counts_what_is_not_listed(app: Tty7App, s: HostsState)
    requires
        app.config.ssh_profiles@.len() <= usize::MAX,
    ensures
        ({
            let searching = text::query_of(s.filter@).len() > 0;
            let total = app.config.ssh_profiles@.len();
            let shown = recent_of(app.facts.by_frecency@).len();
            let f = footer_of(app, s);
            &&& searching ==> f is NoMatch || f is Nothing
            &&& f is NoMatch <==> searching && matching(app.facts.hosts@).len() == 0 && adding_of(
                app,
                s,
            ) is None
            &&& f is NoHosts <==> !searching && total == 0 && adding_of(app, s) is None
            &&& f is All ==> !searching && s.show_all && f->All_count == total
            &&& f is More ==> !searching && !s.show_all && f->rest == total - shown && f->rest > 0
            &&& !searching && s.show_all && total > 0 ==> f is All
            &&& !searching && !s.show_all && total > shown ==> f is More || f is NoHosts
            &&& more_of(f) is Some <==> f is More || f is All
            &&& f is More ==> more_of(f)->0.key == BtnKey::ShowAll
            &&& f is All ==> more_of(f)->0.key == BtnKey::ShowFewer
        }),
{
}

/// A host under edit is being added exactly where no saved host has its
/// identifier.
pub proof fn a_host_is_added_until_it_is_saved(app: Tty7App, s: HostsState)
    ensures
        s.form is None ==> adding_of(app, s) is None,
        s.form is Some && (exists|k: int|
            0 <= k < app.config.ssh_profiles@.len() && (#[trigger] app.config.ssh_profiles@[k]).id
                == s.form->0.editing) ==> adding_of(app, s) is None,
        s.form is Some && (forall|k: int|
            0 <= k < app.config.ssh_profiles@.len() ==> (#[trigger] app.config.ssh_profiles@[k]).id
                != s.form->0.editing) ==> adding_of(app, s) == Some(s.form->0.editing),
{
    if s.form is Some {
        ssh_connect::lemma_place_of_id(app.config.ssh_profiles@, s.form->0.editing);
    }
}

/// The end of a row says first that there is something unsaved, then that the
/// host is in use, then when it last was.
pub proof fn a_row_says_first_what_is_unsaved(app: Tty7App, s: HostsState, saved: bool, id: u128)
    ensures
        ({
            let unsaved = s.form is Some && s.form->0.editing == id && s.form->0.dirty;
            let live = app.facts.live@.contains(id);
            let m = meta_of(app, s, saved, id);
            &&& m is Unsaved <==> unsaved
            &&& m is Live <==> !unsaved && live
            &&& m is Blank <==> !unsaved && !live && !saved
            &&& m is LastUsed <==> !unsaved && !live && saved && last_used(
                app.ssh_profile_frecency@,
                id,
            ) is Some
            &&& m is LastUsed ==> Some(m->LastUsed_0) == last_used(app.ssh_profile_frecency@, id)
            &&& m is Never <==> !unsaved && !live && saved && last_used(
                app.ssh_profile_frecency@,
                id,
            ) is None
        }),
{
}

/// The time a host was last used is the one kept for it; a time of zero is
/// none.
pub proof fn the_last_use_is_the_hosts_own(v: Seq<HostUsage>, id: u128, k: int)
    ensures
        0 <= k < v.len() && v[k].id == id && (forall|i: int|
            0 <= i < k ==> (#[trigger] v[i]).id != id) ==> (if v[k].usage.last_used > 0 {
            last_used(v, id) == Some(v[k].usage.last_used)
        } else {
            last_used(v, id) is None
        }),
        (forall|i: int| 0 <= i < v.len() ==> (#[trigger] v[i]).id != id) ==> last_used(v, id)
            is None,
{
    lemma_usage_is_first(v, id);
}

proof fn lemma_usage_is_first(v: Seq<HostUsage>, id: u128)
    ensures
        match usage_place(v, id) {
            Some(i) => 0 <= i < v.len() && v[i].id == id && forall|k: int|
                0 <= k < i ==> (#[trigger] v[k]).id != id,
            None => forall|k: int| 0 <= k < v.len() ==> (#[trigger] v[k]).id != id,
        },
    decreases v.len(),
{
    if v.len() > 0 {
        lemma_usage_is_first(v.drop_last(), id);
        assert(forall|k: int| 0 <= k < v.len() - 1 ==> v.drop_last()[k] == #[trigger] v[k]);
    }
}

/// A row is of its host: it reads the form while the host is under edit and
/// what is saved otherwise; under it stands the editor or the details, and
/// those only while it is open.
pub proof fn a_host_row_is_of_its_host(
    r: HostRow,
    app: Tty7App,
    s: HostsState,
    place: Option<usize>,
    id: u128,
    new_host: Seq<char>,
)
    requires
        is_host_row(r, app, s, place, id, new_host),
    ensures
        ({
            let editing = s.form is Some && s.form->0.editing == id;
            &&& r.open <==> editing || s.open == Some(id)
            &&& r.body is Editor <==> editing
            &&& r.body is Details <==> !editing && s.open == Some(id) && place is Some
            &&& !editing && place is Some ==> r.title@ == title_of(
                app.config.ssh_profiles@[place->0 as int],
            ) && r.address@ == address_of(
                app.config.ssh_profiles@[place->0 as int],
                app.config.ssh_profiles@,
            )
            &&& !editing && place is None ==> r.title@ == new_host && r.address@.len() == 0
            &&& editing ==> r.title@ == form_title(s.form->0, new_host) && r.address@
                == form_address(s.form->0)
        }),
{
}

/// A form reads the name that is typed, else the host, else that it is new;
/// and its address as it would be saved, without the usual port.
pub proof fn a_form_reads_what_is_typed(f: HostForm, new_host: Seq<char>)
    ensures
        text::trimmed(f.name@).len() > 0 ==> form_title(f, new_host) == text::trimmed(f.name@),
        text::trimmed(f.name@).len() == 0 && text::trimmed(f.host@).len() > 0 ==> form_title(
            f,
            new_host,
        ) == text::trimmed(f.host@),
        text::trimmed(f.name@).len() == 0 && text::trimmed(f.host@).len() == 0 ==> form_title(
            f,
            new_host,
        ) == new_host,
        text::trimmed(f.host@).len() == 0 ==> form_address(f) == "user@hostname"@,
        text::trimmed(f.host@).len() > 0 && text::trimmed(f.user@).len() == 0 && (text::trimmed(
            f.port@,
        ).len() == 0 || text::trimmed(f.port@) == "22"@) && text::trimmed(f.jump@).len() == 0
            ==> form_address(f) == text::trimmed(f.host@),
        text::trimmed(f.host@).len() > 0 && text::trimmed(f.user@).len() > 0 && text::trimmed(
            f.port@,
        ).len() > 0 && text::trimmed(f.port@) != "22"@ && text::trimmed(f.jump@).len() > 0
            ==> form_address(f) == text::trimmed(f.user@) + seq!['@'] + text::trimmed(f.host@)
            + seq![':'] + text::trimmed(f.port@) + "  via "@ + text::trimmed(f.jump@),
{
    let host = text::trimmed(f.host@);
    let user = text::trimmed(f.user@);
    let port = text::trimmed(f.port@);
    let jump = text::trimmed(f.jump@);
    let none = Seq::<char>::empty();
    assert(none + host + none + none =~= host);
    assert(user.push('@') + host + (seq![':'] + port) + ("  via "@ + jump) =~= user + seq!['@']
        + host + seq![':'] + port + "  via "@ + jump);
}

/// Of what is wrong with a form, the first field is reported; a host that is
/// missing only once something was typed.
pub proof fn the_first_wrong_field_is_reported(f: HostForm)
    ensures
        form_error(f) == Some(FormError::Host) <==> f.errors.host && !f.core_blank,
        form_error(f) == Some(FormError::Port) <==> !(f.errors.host && !f.core_blank)
            && f.errors.port,
        form_error(f) == Some(FormError::Jump) <==> !(f.errors.host && !f.core_blank)
            && !f.errors.port && f.errors.jump,
        form_error(f) == Some(FormError::Socks) <==> !(f.errors.host && !f.core_blank)
            && !f.errors.port && !f.errors.jump && f.errors.socks,
        form_error(f) == Some(FormError::Http) <==> !(f.errors.host && !f.core_blank)
            && !f.errors.port && !f.errors.jump && !f.errors.socks && f.errors.http,
{
}

/// The editor saves a host that is saved and adds one that is not; it removes
/// only a saved one, and asks before it does.
pub proof fn an_editor_removes_only_what_is_saved(f: HostForm, confirm: bool, saved: bool)
    ensures
        saved ==> editor_of(f, confirm, saved).save.key == BtnKey::SaveHost,
        !saved ==> editor_of(f, confirm, saved).save.key == BtnKey::AddHost,
        editor_of(f, confirm, saved).remove is Some <==> saved,
        saved && confirm ==> editor_of(f, confirm, saved).remove->0.key == BtnKey::ConfirmRemove,
        saved && !confirm ==> editor_of(f, confirm, saved).remove->0.key == BtnKey::RemoveHost,
        editor_of(f, confirm, saved).cancel.key == BtnKey::Cancel,
        editor_of(f, confirm, saved).error == form_error(f),
        editor_of(f, confirm, saved).port_bad == f.errors.port,
        editor_of(f, confirm, saved).jump_bad == f.errors.jump,
        editor_of(f, confirm, saved).host_bad == (f.errors.host && !f.core_blank),
        is_clean(f.errors) && !saved ==> !editor_of(f, confirm, saved).save.dimmed,
        saved && !f.dirty ==> editor_of(f, confirm, saved).save.dimmed,
{
}

/// The details of a host name what it has: its host, user, port, first key,
/// jump host and where it is defined, in that order, those that hold
/// something.
pub proof fn details_name_what_a_host_has(
    p: SshProfile,
    profiles: Seq<SshProfile>,
    label: Seq<char>,
)
    ensures
        all_fields(p, profiles, label).len() == 6,
        all_fields(p, profiles, label)[0] == (DetailKey::HostName, p.host@),
        p.user@.len() > 0 ==> all_fields(p, profiles, label)[1] == (DetailKey::User, p.user@),
        p.user@.len() == 0 ==> all_fields(p, profiles, label)[1] == (DetailKey::User, "$USER"@),
        all_fields(p, profiles, label)[2] == (DetailKey::Port, text::decimal(p.port as nat)),
        p.identity_files@.len() > 0 ==> all_fields(p, profiles, label)[3] == (
            DetailKey::IdentityFile,
            p.identity_files@[0]@,
        ),
        jump_title(p, profiles) is Some ==> all_fields(p, profiles, label)[4] == (
            DetailKey::ProxyJump,
            jump_title(p, profiles)->0,
        ),
        all_fields(p, profiles, label)[5] == (DetailKey::DefinedIn, label),
        detail_fields(p, profiles, label) == all_fields(p, profiles, label).filter(
            |f: (DetailKey, Seq<char>)| f.1.len() > 0,
        ),
{
    lemma_filled(all_fields(p, profiles, label));
}

proof fn lemma_filled(v: Seq<(DetailKey, Seq<char>)>)
    ensures
        filled(v) == v.filter(|f: (DetailKey, Seq<char>)| f.1.len() > 0),
    decreases v.len(),
{
    reveal(Seq::filter);
    if v.len() > 0 {
        lemma_filled(v.drop_last());
    }
}

proof fn lemma_first_of(v: Seq<u128>, k: int)
    requires
        0 <= k < v.len(),
        forall|i: int| 0 <= i < k ==> #[trigger] v[i] != v[k],
    ensures
        first_place(v, v[k]) == k,
    decreases v.len(),
{
    let front = v.drop_last();
    if k < front.len() {
        assert(front[k] == v[k]);
        lemma_first_of(front, k);
    } else {
        assert(!front.contains(v[k])) by {
            if front.contains(v[k]) {
                let w = choose|w: int| 0 <= w < front.len() && front[w] == v[k];
                assert(v[w] == v[k]);
            }
        }
    }
}

/// The arrows walk the hosts that are drawn one by one, and stop at the ends;
/// from nowhere they start at the first. A host under edit is not left.
pub proof fn arrows_walk_the_hosts_that_are_drawn(
    s: HostsState,
    visible: Seq<u128>,
    key: MenuKey,
    t: HostsState,
    taken: bool,
    k: int,
)
    requires
        host_key_step(s, visible, key, t, taken),
        key is Up || key is Down,
        0 <= k < visible.len(),
    ensures
        taken,
        s.form is Some ==> t == s,
        s.form is None && s.open is None ==> t.open == Some(visible[0]),
        s.form is None && s.open == Some(visible[k]) && (forall|i: int|
            0 <= i < k ==> #[trigger] visible[i] != visible[k]) ==> {
            &&& key is Down && k + 1 < visible.len() ==> t.open == Some(visible[k + 1])
            &&& key is Down && k + 1 == visible.len() ==> t.open == Some(visible[k])
            &&& key is Up && k > 0 ==> t.open == Some(visible[k - 1])
            &&& key is Up && k == 0 ==> t.open == Some(visible[0])
        },
        t.filter == s.filter && t.form == s.form && t.show_all == s.show_all,
{
    if s.open == Some(visible[k]) && (forall|i: int| 0 <= i < k ==> #[trigger] visible[i]
        != visible[k]) {
        lemma_first_of(visible, k);
        assert(visible.contains(visible[k]));
    }
}

/// The groups are listed one behind the other.
pub proof fn groups_of_hosts_follow_one_another(
    profiles: Seq<SshProfile>,
    hosts: Seq<HostFacts>,
    collapsed: Seq<Seq<char>>,
    firsts: Seq<usize>,
    first: usize,
)
    ensures
        groups_lines(profiles, hosts, collapsed, Seq::empty()).len() == 0,
        groups_lines(profiles, hosts, collapsed, firsts.push(first)) == groups_lines(
            profiles,
            hosts,
            collapsed,
            firsts,
        ) + group_lines(profiles, hosts, collapsed, first),
{
    assert(firsts.push(first).drop_last() =~= firsts);
}

/// The hosts that lines draw are those lines that are hosts, in order.
pub proof fn headings_are_no_hosts(lines: Seq<HostLine>, line: HostLine)
    ensures
        hosts_in(Seq::empty()).len() == 0,
        line matches HostLine::Host(i) ==> hosts_in(lines.push(line)) == hosts_in(lines).push(i),
        line is Head ==> hosts_in(lines.push(line)) == hosts_in(lines),
{
    assert(lines.push(line).drop_last() =~= lines);
}

/// A host can be added unless one is being added; the list scrolls while it is
/// searched or shows all.
pub proof fn one_host_is_added_at_a_time(r: HostsGroup, app: Tty7App, s: HostsState)
    requires
        is_hosts_group(r, app, s),
    ensures
        r.import.key == BtnKey::ImportHosts,
        r.add.key == BtnKey::AddHost,
        r.add.dimmed <==> adding_of(app, s) is Some,
        r.adding == adding_of(app, s),
        r.lines@ == host_lines(app, s),
        r.footer == footer_of(app, s),
        r.scrolls <==> text::query_of(s.filter@).len() > 0 || s.show_all,
{
}

proof fn lemma_no_members(hosts: Seq<HostFacts>, group: Seq<char>)
    ensures
        members(hosts, group).len() == 0 <==> forall|k: int|
            0 <= k < hosts.len() ==> (#[trigger] hosts[k]).group@ != group,
    decreases hosts.len(),
{
    if hosts.len() > 0 {
        let front = hosts.drop_last();
        lemma_no_members(front, group);
        assert(forall|k: int| 0 <= k < front.len() ==> front[k] == hosts[k]);
        assert(hosts[hosts.len() - 1] == hosts.last());
        if members(hosts, group).len() > 0 && (forall|k: int|
            0 <= k < hosts.len() ==> (#[trigger] hosts[k]).group@ != group) {
            assert(forall|k: int| 0 <= k < front.len() ==> (#[trigger] front[k]).group@ != group);
        }
    }
}

/// A group is headed by its first host: a host heads a group exactly where no
/// host before it is in that group.
pub proof fn a_group_is_headed_by_its_first_host(hosts: Seq<HostFacts>, k: int)
    requires
        0 <= k < hosts.len() <= usize::MAX,
    ensures
        heads(hosts).contains(k as usize) <==> forall|i: int|
            0 <= i < k ==> (#[trigger] hosts[i]).group@ != hosts[k].group@,
    decreases hosts.len(),
{
    let front = hosts.drop_last();
    let head = heads(front);
    let all = heads(hosts);
    lemma_no_members(front, hosts.last().group@);
    lemma_places(front, Seq::empty());
    assert(forall|i: int| 0 <= i < front.len() ==> front[i] == hosts[i]);
    if k < front.len() {
        a_group_is_headed_by_its_first_host(front, k);
        if head.contains(k as usize) {
            let w = choose|w: int| 0 <= w < head.len() && head[w] == k as usize;
            assert(all[w] == k as usize);
        }
        if all.contains(k as usize) {
            let w = choose|w: int| 0 <= w < all.len() && all[w] == k as usize;
            if w < head.len() {
                assert(head[w] == k as usize);
            }
        }
    } else {
        if members(front, hosts.last().group@).len() == 0 {
            assert(all[head.len() as int] == k as usize);
        } else {
            assert forall|w: int| 0 <= w < all.len() implies all[w] != k as usize by {
                assert(head[w] < front.len());
            }
        }
    }
}

} // verus!
