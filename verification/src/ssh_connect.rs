//! From a saved host, or a host of the SSH configuration, to the description
//! of a connection, jump hosts included.

use vstd::prelude::*;
use vstd::string::*;
use crate::ssh_profile;
use crate::ssh_profile::{
    Algorithms, AuthMode, ForwardKind, ForwardRule, InMemoryCredentialStore, QuickConnect, SshProfile,
};
use crate::text;

verus! {

#[derive(Clone, Copy, Debug, PartialEq, Eq, Structural)]
pub enum SshAuthMode {
    Auto,
    Gssapi,
    Password,
    PublicKey,
    Agent,
    KeyboardInteractive,
}

#[derive(Clone, Copy, Debug, PartialEq, Eq, Structural)]
pub enum SshForwardKind {
    Local,
    Remote,
    Dynamic,
}

#[derive(Debug)]
pub enum SshProxy {
    Direct,
    Command(String),
    Socks { host: String, port: u16 },
    Http { host: String, port: u16 },
}

#[derive(Debug)]
pub struct SshForwardRule {
    pub kind: SshForwardKind,
    pub bind_host: String,
    pub bind_port: u16,
    pub target_host: String,
    pub target_port: u16,
    pub description: Option<String>,
}

#[derive(Debug)]
pub struct SshAlgorithms {
    pub kex: Vec<String>,
    pub cipher: Vec<String>,
    pub mac: Vec<String>,
    pub host_key: Vec<String>,
    pub compression: Vec<String>,
}

/// A key file and the passphrase that unlocks it.
#[derive(Debug)]
pub struct KeyPassphrase {
    pub path: String,
    pub passphrase: String,
}

/// Everything the daemon needs to open a connection.
#[derive(Debug)]
pub struct NativeSshSpec {
    pub host: String,
    pub port: u16,
    pub user: String,
    pub auth_mode: SshAuthMode,
    pub identity_files: Vec<String>,
    pub agent_forward: bool,
    pub password: Option<String>,
    pub key_passphrases: Option<Vec<KeyPassphrase>>,
    pub proxy: SshProxy,
    pub jump: Option<Box<NativeSshSpec>>,
    pub forwards: Vec<SshForwardRule>,
    pub keepalive_interval_s: u32,
    pub keepalive_count_max: u32,
    pub connect_timeout_s: u32,
    pub algorithms: SshAlgorithms,
    pub x11: bool,
    pub term: String,
    pub verify_host_keys: bool,
    pub skip_banner: bool,
    pub shell_integration: bool,
    pub login_script: Vec<String>,
    pub display_name: Option<String>,
    pub profile_id: Option<String>,
}

pub open spec fn auth_mode_of(auth: AuthMode) -> SshAuthMode {
    match auth {
        AuthMode::Auto => SshAuthMode::Auto,
        AuthMode::Gssapi => SshAuthMode::Gssapi,
        AuthMode::Password => SshAuthMode::Password,
        AuthMode::PublicKey => SshAuthMode::PublicKey,
        AuthMode::Agent => SshAuthMode::Agent,
        AuthMode::KeyboardInteractive => SshAuthMode::KeyboardInteractive,
    }
}

pub fn map_auth_mode(auth: AuthMode) -> (r: SshAuthMode)
    ensures
        r == auth_mode_of(auth),
        (r is Auto) == (auth is Auto),
        (r is Gssapi) == (auth is Gssapi),
        (r is Password) == (auth is Password),
        (r is PublicKey) == (auth is PublicKey),
        (r is Agent) == (auth is Agent),
        (r is KeyboardInteractive) == (auth is KeyboardInteractive),
{
    match auth {
        AuthMode::Auto => SshAuthMode::Auto,
        AuthMode::Gssapi => SshAuthMode::Gssapi,
        AuthMode::Password => SshAuthMode::Password,
        AuthMode::PublicKey => SshAuthMode::PublicKey,
        AuthMode::Agent => SshAuthMode::Agent,
        AuthMode::KeyboardInteractive => SshAuthMode::KeyboardInteractive,
    }
}

/// The proxy of a profile: a command that is not blank wins over a SOCKS proxy
/// with a host, which wins over an HTTP proxy with a host.
pub open spec fn proxy_of(p: SshProfile) -> SshProxy {
    if p.proxy_command is Some && text::trimmed(p.proxy_command->0@).len() > 0 {
        SshProxy::Command(p.proxy_command->0)
    } else if p.socks_proxy is Some && p.socks_proxy->0.host@.len() > 0 {
        SshProxy::Socks { host: p.socks_proxy->0.host, port: p.socks_proxy->0.port }
    } else if p.http_proxy is Some && p.http_proxy->0.host@.len() > 0 {
        SshProxy::Http { host: p.http_proxy->0.host, port: p.http_proxy->0.port }
    } else {
        SshProxy::Direct
    }
}

pub fn map_proxy(profile: &SshProfile) -> (r: SshProxy)
    ensures
        r == proxy_of(*profile),
        r is Command ==> profile.proxy_command is Some && r->Command_0@
            == profile.proxy_command->0@,
        r is Socks ==> profile.socks_proxy is Some && r->Socks_host@ == profile.socks_proxy->0.host@
            && r->Socks_port == profile.socks_proxy->0.port,
        r is Http ==> profile.http_proxy is Some && r->Http_host@ == profile.http_proxy->0.host@
            && r->Http_port == profile.http_proxy->0.port,
{
    if let Some(cmd) = &profile.proxy_command {
        let t = text::trim(cmd.as_str());
        if t.len() > 0 {
            return SshProxy::Command(cmd.clone());
        }
    }
    if let Some(hp) = &profile.socks_proxy {
        if !hp.host.as_str().is_empty() {
            return SshProxy::Socks { host: hp.host.clone(), port: hp.port };
        }
    }
    if let Some(hp) = &profile.http_proxy {
        if !hp.host.as_str().is_empty() {
            return SshProxy::Http { host: hp.host.clone(), port: hp.port };
        }
    }
    SshProxy::Direct
}

pub open spec fn forward_kind_of(k: ForwardKind) -> SshForwardKind {
    match k {
        ForwardKind::Local => SshForwardKind::Local,
        ForwardKind::Remote => SshForwardKind::Remote,
        ForwardKind::Dynamic => SshForwardKind::Dynamic,
    }
}

/// A text, or nothing where it is empty.
pub open spec fn unless_empty(s: String) -> Option<String> {
    if s@.len() > 0 {
        Some(s)
    } else {
        None
    }
}

fn some_unless_empty(s: &String) -> (r: Option<String>)
    ensures
        r == unless_empty(*s),
{
    if s.as_str().is_empty() {
        None
    } else {
        Some(s.clone())
    }
}

pub open spec fn forward_of(rule: ForwardRule) -> SshForwardRule {
    SshForwardRule {
        kind: forward_kind_of(rule.kind),
        bind_host: rule.bind.host,
        bind_port: rule.bind.port,
        target_host: rule.target.host,
        target_port: rule.target.port,
        description: unless_empty(rule.description),
    }
}

pub fn map_forward(rule: &ForwardRule) -> (r: SshForwardRule)
    ensures
        r == forward_of(*rule),
        (r.kind is Local) == (rule.kind is Local),
        (r.kind is Remote) == (rule.kind is Remote),
        (r.kind is Dynamic) == (rule.kind is Dynamic),
        r.bind_host@ == rule.bind.host@,
        r.bind_port == rule.bind.port,
        r.target_host@ == rule.target.host@,
        r.target_port == rule.target.port,
        (r.description is None) == (rule.description@.len() == 0),
        r.description is Some ==> r.description->0@ == rule.description@,
{
    SshForwardRule {
        kind: match rule.kind {
            ForwardKind::Local => SshForwardKind::Local,
            ForwardKind::Remote => SshForwardKind::Remote,
            ForwardKind::Dynamic => SshForwardKind::Dynamic,
        },
        bind_host: rule.bind.host.clone(),
        bind_port: rule.bind.port,
        target_host: rule.target.host.clone(),
        target_port: rule.target.port,
        description: some_unless_empty(&rule.description),
    }
}

pub open spec fn algorithms_of(s: SshAlgorithms, a: Algorithms) -> bool {
    &&& s.kex@ == a.kex@
    &&& s.cipher@ == a.cipher@
    &&& s.mac@ == a.mac@
    &&& s.host_key@ == a.hostkey@
    &&& s.compression@ == a.compression@
}

pub fn map_algorithms(a: &Algorithms) -> (r: SshAlgorithms)
    ensures
        algorithms_of(r, *a),
        r.kex@ == a.kex@,
        r.cipher@ == a.cipher@,
        r.mac@ == a.mac@,
        r.host_key@ == a.hostkey@,
        r.compression@ == a.compression@,
{
    SshAlgorithms {
        kex: text::copy_strings(&a.kex),
        cipher: text::copy_strings(&a.cipher),
        mac: text::copy_strings(&a.mac),
        host_key: text::copy_strings(&a.hostkey),
        compression: text::copy_strings(&a.compression),
    }
}

/// The password a connect may send by itself: only where the profile's mode
/// would try one.
pub open spec fn stored_password(p: SshProfile, store: InMemoryCredentialStore) -> Option<String> {
    if p.auth == AuthMode::Auto || p.auth == AuthMode::Password {
        store.password(p.user@, p.host@, p.port)
    } else {
        None
    }
}

/// The key files whose passphrases are looked up: the profile's own, then the
/// ones every host is tried with.
pub open spec fn key_paths(p: SshProfile, store: InMemoryCredentialStore) -> Seq<Seq<char>> {
    ssh_profile::expanded(text::views(p.identity_files@), store.home@) + text::views(
        store.default_identities@,
    )
}

/// Each key file with a remembered passphrase, once, with that passphrase.
pub open spec fn passphrases_of(
    found: Seq<KeyPassphrase>,
    paths: Seq<Seq<char>>,
    store: InMemoryCredentialStore,
) -> bool {
    &&& forall|i: int|
        0 <= i < found.len() ==> {
            &&& paths.contains((#[trigger] found[i]).path@)
            &&& store.passphrase_at(found[i].path@) == Some(found[i].passphrase)
        }
    &&& forall|i: int, j: int|
        0 <= i < j < found.len() ==> (#[trigger] found[i]).path@ != (#[trigger] found[j]).path@
    &&& forall|k: int|
        0 <= k < paths.len() && store.passphrase_at(#[trigger] paths[k]) is Some ==> exists|i: int|
            0 <= i < found.len() && (#[trigger] found[i]).path@ == paths[k]
}

/// What a description says of its own host, leaving the jump host aside.
pub open spec fn describes(
    s: NativeSshSpec,
    p: SshProfile,
    store: InMemoryCredentialStore,
    global_verify: bool,
) -> bool {
    &&& s.host == p.host
    &&& s.port == p.port
    &&& s.user == p.user
    &&& s.auth_mode == auth_mode_of(p.auth)
    &&& text::views(s.identity_files@) == ssh_profile::expanded(
        text::views(p.identity_files@),
        store.home@,
    )
    &&& s.agent_forward == p.agent_forward
    &&& s.password == stored_password(p, store)
    &&& {
        let wanted = if p.auth == AuthMode::Auto || p.auth == AuthMode::PublicKey {
            key_paths(p, store)
        } else {
            Seq::empty()
        };
        match s.key_passphrases {
            Some(found) => found@.len() > 0 && passphrases_of(found@, wanted, store),
            None => passphrases_of(Seq::empty(), wanted, store),
        }
    }
    &&& s.proxy == proxy_of(p)
    &&& s.forwards@.len() == p.forwards@.len()
    &&& forall|i: int|
        0 <= i < p.forwards@.len() ==> #[trigger] s.forwards@[i] == forward_of(p.forwards@[i])
    &&& s.keepalive_interval_s == p.keepalive_interval_s
    &&& s.keepalive_count_max == p.keepalive_count_max
    &&& s.connect_timeout_s == p.connect_timeout_s
    &&& algorithms_of(s.algorithms, p.algorithms)
    &&& s.x11 == p.x11
    &&& s.term@ == "xterm-256color"@
    &&& s.verify_host_keys == match p.verify_host_keys {
        Some(own) => own,
        None => global_verify,
    }
    &&& s.skip_banner == p.skip_banner
    &&& s.shell_integration == p.shell_integration
    &&& s.login_script@ == p.login_scripts@
    &&& s.display_name == unless_empty(p.name)
    &&& s.profile_id is Some
    &&& s.profile_id->0@ == ssh_profile::id_text(p.id)
    &&& ssh_profile::id_value(s.profile_id->0@) == Some(p.id)
}

/// The place of the first profile with this identifier.
pub open spec fn place_of_id(profiles: Seq<SshProfile>, id: u128) -> Option<int>
    decreases profiles.len(),
{
    if profiles.len() == 0 {
        None
    } else {
        match place_of_id(profiles.drop_last(), id) {
            Some(i) => Some(i),
            None => if profiles.last().id == id {
                Some(profiles.len() - 1)
            } else {
                None
            },
        }
    }
}

pub proof fn lemma_place_of_id(profiles: Seq<SshProfile>, id: u128)
    ensures
        match place_of_id(profiles, id) {
            Some(i) => {
                &&& 0 <= i < profiles.len()
                &&& profiles[i].id == id
                &&& forall|k: int| 0 <= k < i ==> (#[trigger] profiles[k]).id != id
            },
            None => forall|k: int| 0 <= k < profiles.len() ==> (#[trigger] profiles[k]).id != id,
        },
    decreases profiles.len(),
{
    if profiles.len() > 0 {
        lemma_place_of_id(profiles.drop_last(), id);
        assert(forall|k: int|
            0 <= k < profiles.len() - 1 ==> profiles.drop_last()[k] == #[trigger] profiles[k]);
    }
}

/// The first profile with this identifier.
pub fn find_profile(profiles: &[SshProfile], id: u128) -> (r: Option<usize>)
    ensures
        match place_of_id(profiles@, id) {
            Some(i) => r is Some && r->0 == i && 0 <= i < profiles@.len() && profiles@[i].id == id,
            None => r is None,
        },
{
    let mut i: usize = 0;
    while i < profiles.len()
        invariant
            i <= profiles@.len(),
            forall|k: int| 0 <= k < i ==> (#[trigger] profiles@[k]).id != id,
        decreases profiles@.len() - i,
    {
        if profiles[i].id == id {
            proof {
                lemma_place_of_id(profiles@, id);
            }
            return Some(i);
        }
        i = i + 1;
    }
    proof {
        lemma_place_of_id(profiles@, id);
    }
    None
}

/// The profile a connect jumps through: the named one, unless the chain has
/// been there or nobody has that name.
pub open spec fn next_jump(p: SshProfile, profiles: Seq<SshProfile>, visited: Set<u128>) -> Option<
    SshProfile,
> {
    match p.jump_host {
        Some(id) => if visited.contains(id) {
            None
        } else {
            match place_of_id(profiles, id) {
                Some(i) => Some(profiles[i]),
                None => None,
            }
        },
        None => None,
    }
}

/// The whole description, hop by hop.
pub open spec fn describes_chain(
    s: NativeSshSpec,
    p: SshProfile,
    profiles: Seq<SshProfile>,
    store: InMemoryCredentialStore,
    global_verify: bool,
    visited: Set<u128>,
) -> bool
    decreases s,
{
    &&& describes(s, p, store, global_verify)
    &&& match next_jump(p, profiles, visited) {
        Some(jp) => s.jump is Some && describes_chain(
            *s.jump->0,
            jp,
            profiles,
            store,
            global_verify,
            visited.insert(jp.id),
        ),
        None => s.jump is None,
    }
}

/// How many of the profiles a chain has not been through.
pub open spec fn unvisited(profiles: Seq<SshProfile>, visited: Set<u128>) -> nat
    decreases profiles.len(),
{
    if profiles.len() == 0 {
        0
    } else {
        unvisited(profiles.drop_last(), visited) + if visited.contains(profiles.last().id) {
            0nat
        } else {
            1nat
        }
    }
}

pub proof fn lemma_unvisited_shrinks(profiles: Seq<SshProfile>, visited: Set<u128>, id: u128)
    ensures
        unvisited(profiles, visited.insert(id)) <= unvisited(profiles, visited),
        !visited.contains(id) && place_of_id(profiles, id) is Some ==> unvisited(
            profiles,
            visited.insert(id),
        ) < unvisited(profiles, visited),
        unvisited(profiles, visited) <= profiles.len(),
    decreases profiles.len(),
{
    if profiles.len() > 0 {
        lemma_unvisited_shrinks(profiles.drop_last(), visited, id);
    }
}

/// The profiles a chain has been through once it ends: those it had been
/// through, and each one it enters.
pub open spec fn ids_after(p: SshProfile, profiles: Seq<SshProfile>, visited: Set<u128>) -> Set<u128>
    decreases unvisited(profiles, visited),
{
    match next_jump(p, profiles, visited) {
        Some(jp) => {
            proof {
                lemma_place_of_id(profiles, p.jump_host->0);
                lemma_unvisited_shrinks(profiles, visited, jp.id);
            }
            ids_after(jp, profiles, visited.insert(jp.id))
        },
        None => visited,
    }
}

/// Describe the connection to a profile, its jump hosts looked up among
/// `profiles`.
pub fn build_native_ssh_spec(
    profile: &SshProfile,
    profiles: &[SshProfile],
    store: &InMemoryCredentialStore,
    global_verify_host_keys: bool,
) -> (r: NativeSshSpec)
    ensures
        describes_chain(
            r,
            *profile,
            profiles@,
            *store,
            global_verify_host_keys,
            set![profile.id],
        ),
{
    let mut visited: Vec<u128> = Vec::new();
    visited.push(profile.id);
    assert(visited@.to_set() =~= set![profile.id]) by {
        assert(visited@[0] == profile.id);
    }
    build_spec_inner(profile, profiles, store, global_verify_host_keys, &mut visited)
}

fn has_id(ids: &Vec<u128>, id: u128) -> (r: bool)
    ensures
        r == ids@.to_set().contains(id),
{
    let mut i: usize = 0;
    while i < ids.len()
        invariant
            i <= ids@.len(),
            forall|k: int| 0 <= k < i ==> ids@[k] != id,
        decreases ids@.len() - i,
    {
        if ids[i] == id {
            assert(ids@.contains(id));
            return true;
        }
        i = i + 1;
    }
    assert(!ids@.contains(id));
    false
}

fn add_passphrase(
    found: &mut Vec<KeyPassphrase>,
    path: &String,
    store: &InMemoryCredentialStore,
    Ghost(paths): Ghost<Seq<Seq<char>>>,
)
    requires
        passphrases_of(old(found)@, paths, *store),
    ensures
        passphrases_of(final(found)@, paths.push(path@), *store),
{
    let ghost before = found@;
    let ghost longer = paths.push(path@);
    assert forall|x: Seq<char>| paths.contains(x) implies #[trigger] longer.contains(x) by {
        let k = choose|k: int| 0 <= k < paths.len() && paths[k] == x;
        assert(longer[k] == x);
    }
    assert(longer[paths.len() as int] == path@);
    let mut i: usize = 0;
    while i < found.len()
        invariant
            i <= found@.len(),
            found@ == before,
            passphrases_of(before, paths, *store),
            longer == paths.push(path@),
            forall|x: Seq<char>| paths.contains(x) ==> #[trigger] longer.contains(x),
            forall|k: int| 0 <= k < i ==> (#[trigger] before[k]).path@ != path@,
        decreases found@.len() - i,
    {
        if text::same(found[i].path.as_str(), path.as_str()) {
            assert forall|k: int|
                0 <= k < longer.len() && store.passphrase_at(#[trigger] longer[k])
                    is Some implies exists|j: int|
                0 <= j < before.len() && (#[trigger] before[j]).path@ == longer[k] by {
                if k < paths.len() {
                    assert(longer[k] == paths[k]);
                } else {
                    assert(before[i as int].path@ == longer[k]);
                }
            }
            return;
        }
        i = i + 1;
    }
    match store.passphrase_for_path(path.as_str()) {
        Some(passphrase) => {
            found.push(KeyPassphrase { path: path.clone(), passphrase });
            let ghost after = found@;
            assert forall|k: int|
                0 <= k < longer.len() && store.passphrase_at(#[trigger] longer[k])
                    is Some implies exists|j: int|
                0 <= j < after.len() && (#[trigger] after[j]).path@ == longer[k] by {
                if k < paths.len() {
                    assert(longer[k] == paths[k]);
                    let j = choose|j: int|
                        0 <= j < before.len() && (#[trigger] before[j]).path@ == paths[k];
                    assert(after[j].path@ == longer[k]);
                } else {
                    assert(after[before.len() as int].path@ == longer[k]);
                }
            }
        },
        None => {
            assert forall|k: int|
                0 <= k < longer.len() && store.passphrase_at(#[trigger] longer[k])
                    is Some implies exists|j: int|
                0 <= j < before.len() && (#[trigger] before[j]).path@ == longer[k] by {
                assert(k < paths.len());
                assert(longer[k] == paths[k]);
            }
        },
    }
}

fn collect_passphrases(
    own: &Vec<String>,
    store: &InMemoryCredentialStore,
) -> (r: Vec<KeyPassphrase>)
    ensures
        passphrases_of(r@, text::views(own@) + text::views(store.default_identities@), *store),
{
    let mut found: Vec<KeyPassphrase> = Vec::new();
    let ghost all = text::views(own@) + text::views(store.default_identities@);
    let mut i: usize = 0;
    assert(all.take(0) =~= Seq::<Seq<char>>::empty());
    while i < own.len()
        invariant
            i <= own@.len(),
            all == text::views(own@) + text::views(store.default_identities@),
            passphrases_of(found@, all.take(i as int), *store),
        decreases own@.len() - i,
    {
        assert(all.take(i + 1) =~= all.take(i as int).push(own@[i as int]@));
        add_passphrase(&mut found, &own[i], store, Ghost(all.take(i as int)));
        i = i + 1;
    }
    let mut j: usize = 0;
    while j < store.default_identities.len()
        invariant
            j <= store.default_identities@.len(),
            all == text::views(own@) + text::views(store.default_identities@),
            passphrases_of(found@, all.take(own@.len() + j), *store),
        decreases store.default_identities@.len() - j,
    {
        assert(all.take(own@.len() + j + 1) =~= all.take(own@.len() + j).push(
            store.default_identities@[j as int]@,
        ));
        add_passphrase(
            &mut found,
            &store.default_identities[j],
            store,
            Ghost(all.take(own@.len() + j)),
        );
        j = j + 1;
    }
    assert(all.take(all.len() as int) =~= all);
    found
}

fn map_forwards(rules: &Vec<ForwardRule>) -> (r: Vec<SshForwardRule>)
    ensures
        r@.len() == rules@.len(),
        forall|i: int| 0 <= i < rules@.len() ==> #[trigger] r@[i] == forward_of(rules@[i]),
{
    let mut out: Vec<SshForwardRule> = Vec::new();
    let mut i: usize = 0;
    while i < rules.len()
        invariant
            i <= rules@.len(),
            out@.len() == i,
            forall|k: int| 0 <= k < i ==> #[trigger] out@[k] == forward_of(rules@[k]),
        decreases rules@.len() - i,
    {
        out.push(map_forward(&rules[i]));
        i = i + 1;
    }
    out
}

fn build_spec_inner(
    profile: &SshProfile,
    profiles: &[SshProfile],
    store: &InMemoryCredentialStore,
    global_verify_host_keys: bool,
    visited: &mut Vec<u128>,
) -> (r: NativeSshSpec)
    ensures
        describes_chain(
            r,
            *profile,
            profiles@,
            *store,
            global_verify_host_keys,
            old(visited)@.to_set(),
        ),
        final(visited)@.to_set() == ids_after(*profile, profiles@, old(visited)@.to_set()),
    decreases unvisited(profiles@, old(visited)@.to_set()),
{
    let ghost been = visited@.to_set();
    let identity_files = profile.expanded_identity_files(store.home.as_str());

    let password = match profile.auth {
        AuthMode::Auto | AuthMode::Password => store.password_for(
            profile.user.as_str(),
            profile.host.as_str(),
            profile.port,
        ),
        _ => None,
    };

    let found: Vec<KeyPassphrase> = match profile.auth {
        AuthMode::Auto | AuthMode::PublicKey => collect_passphrases(&identity_files, store),
        _ => Vec::new(),
    };
    let key_passphrases = if found.len() > 0 {
        Some(found)
    } else {
        assert(found@ =~= Seq::<KeyPassphrase>::empty());
        None
    };

    let jump: Option<Box<NativeSshSpec>> = match profile.jump_host {
        Some(id) => if has_id(visited, id) {
            None
        } else {
            match find_profile(profiles, id) {
                Some(i) => {
                    let jp = &profiles[i];
                    let ghost old_ids = visited@;
                    visited.push(jp.id);
                    proof {
                        assert(visited@.to_set() =~= been.insert(jp.id)) by {
                            assert forall|x: u128| #[trigger]
                                visited@.to_set().contains(x) == been.insert(jp.id).contains(x) by {
                                if old_ids.contains(x) {
                                    let k = choose|k: int|
                                        0 <= k < old_ids.len() && old_ids[k] == x;
                                    assert(visited@[k] == x);
                                }
                                if x == jp.id {
                                    assert(visited@[old_ids.len() as int] == x);
                                }
                            }
                        }
                        lemma_unvisited_shrinks(profiles@, been, id);
                    }
                    Some(
                        Box::new(
                            build_spec_inner(jp, profiles, store, global_verify_host_keys, visited),
                        ),
                    )
                },
                None => None,
            }
        },
        None => None,
    };

    NativeSshSpec {
        host: profile.host.clone(),
        port: profile.port,
        user: profile.user.clone(),
        auth_mode: map_auth_mode(profile.auth),
        identity_files,
        agent_forward: profile.agent_forward,
        password,
        key_passphrases,
        proxy: map_proxy(profile),
        jump,
        forwards: map_forwards(&profile.forwards),
        keepalive_interval_s: profile.keepalive_interval_s,
        keepalive_count_max: profile.keepalive_count_max,
        connect_timeout_s: profile.connect_timeout_s,
        algorithms: map_algorithms(&profile.algorithms),
        x11: profile.x11,
        term: "xterm-256color".to_owned(),
        verify_host_keys: match profile.verify_host_keys {
            Some(own) => own,
            None => global_verify_host_keys,
        },
        skip_banner: profile.skip_banner,
        shell_integration: profile.shell_integration,
        login_script: text::copy_strings(&profile.login_scripts),
        display_name: some_unless_empty(&profile.name),
        profile_id: Some(ssh_profile::format_id(profile.id)),
    }
}

/// One host of the SSH configuration, with the jump hosts it asks for.
#[derive(Debug)]
pub struct AliasEntry {
    pub alias: String,
    pub profile: SshProfile,
    pub proxy_jump: Option<String>,
}

/// The hosts of the SSH configuration that a connect may come across.
#[derive(Debug)]
pub struct AliasResolver {
    pub entries: Vec<AliasEntry>,
}

/// The place of the first entry for this alias.
pub open spec fn place_of_alias(entries: Seq<AliasEntry>, alias: Seq<char>) -> Option<int>
    decreases entries.len(),
{
    if entries.len() == 0 {
        None
    } else {
        match place_of_alias(entries.drop_last(), alias) {
            Some(i) => Some(i),
            None => if entries.last().alias@ == alias {
                Some(entries.len() - 1)
            } else {
                None
            },
        }
    }
}

/// What the configuration says of this alias.
pub open spec fn entry_of(table: AliasResolver, alias: Seq<char>) -> Option<AliasEntry> {
    match place_of_alias(table.entries@, alias) {
        Some(i) => Some(table.entries@[i]),
        None => None,
    }
}

pub proof fn lemma_place_of_alias(entries: Seq<AliasEntry>, alias: Seq<char>)
    ensures
        match place_of_alias(entries, alias) {
            Some(i) => {
                &&& 0 <= i < entries.len()
                &&& entries[i].alias@ == alias
                &&& forall|k: int| 0 <= k < i ==> (#[trigger] entries[k]).alias@ != alias
            },
            None => forall|k: int| 0 <= k < entries.len() ==> (#[trigger] entries[k]).alias@ != alias,
        },
    decreases entries.len(),
{
    if entries.len() > 0 {
        lemma_place_of_alias(entries.drop_last(), alias);
        assert(forall|k: int|
            0 <= k < entries.len() - 1 ==> entries.drop_last()[k] == #[trigger] entries[k]);
    }
}

/// The profile of an alias and the jump hosts it asks for.
pub fn config_alias_resolver<'a>(table: &'a AliasResolver, alias: &str) -> (r: Option<&'a AliasEntry>)
    ensures
        match entry_of(*table, alias@) {
            Some(e) => r is Some && *r->0 == e,
            None => r is None,
        },
{
    let mut i: usize = 0;
    while i < table.entries.len()
        invariant
            i <= table.entries@.len(),
            forall|k: int| 0 <= k < i ==> (#[trigger] table.entries@[k]).alias@ != alias@,
        decreases table.entries@.len() - i,
    {
        if text::same(table.entries[i].alias.as_str(), alias) {
            proof {
                lemma_place_of_alias(table.entries@, alias@);
            }
            return Some(&table.entries[i]);
        }
        i = i + 1;
    }
    proof {
        lemma_place_of_alias(table.entries@, alias@);
    }
    None
}

/// The hops named by a list of them, blank ones left out.
pub open spec fn named_hops(parts: Seq<Seq<char>>) -> Seq<Seq<char>>
    decreases parts.len(),
{
    if parts.len() == 0 {
        Seq::empty()
    } else {
        let t = text::trimmed(parts.last());
        if t.len() > 0 {
            named_hops(parts.drop_last()).push(t)
        } else {
            named_hops(parts.drop_last())
        }
    }
}

/// The hops of a `ProxyJump` value, first to last.
pub open spec fn hops_of(raw: Seq<char>) -> Seq<Seq<char>> {
    named_hops(text::pieces(raw, ','))
}

/// The hops of a `ProxyJump` value, first to last.
pub fn jump_hops(raw: &str) -> (r: Vec<String>)
    ensures
        text::views(r@) == hops_of(raw@),
{
    let parts = text::split(raw, ',');
    let mut out: Vec<String> = Vec::new();
    let mut i: usize = 0;
    let ghost all = text::views(parts@);
    assert(text::views(out@) =~= named_hops(all.take(0)));
    while i < parts.len()
        invariant
            i <= parts@.len(),
            all == text::views(parts@),
            text::views(out@) == named_hops(all.take(i as int)),
        decreases parts@.len() - i,
    {
        let t = text::trim(parts[i].as_str());
        let ghost before = text::views(out@);
        assert(all.take(i + 1).drop_last() =~= all.take(i as int));
        if t.len() > 0 {
            out.push(text::string_of(t.as_slice()));
            assert(text::views(out@) =~= before.push(t@));
        }
        i = i + 1;
    }
    assert(all.take(all.len() as int) =~= all);
    out
}

/// The profile made up for a typed target.
pub open spec fn stands_for(p: SshProfile, t: ssh_profile::TargetView) -> bool {
    &&& p.name@ == t.host
    &&& p.host@ == t.host
    &&& p.user@ == match t.user {
        Some(u) => u,
        None => Seq::empty(),
    }
    &&& p.is_plain(match t.port {
        Some(port) => port,
        None => ssh_profile::DEFAULT_PORT,
    })
}

pub fn transient_profile_from_target(target: &str) -> (r: Option<SshProfile>)
    ensures
        match ssh_profile::target_of(target@) {
            Some(t) => r is Some && stands_for(r->0, t),
            None => r is None,
        },
{
    match ssh_profile::parse_quick_connect(target) {
        Some(qc) => Some(profile_of_quick_connect(qc)),
        None => None,
    }
}

fn profile_of_quick_connect(qc: QuickConnect) -> (r: SshProfile)
    ensures
        stands_for(r, qc@),
{
    let mut profile = SshProfile::new(qc.host.as_str());
    assert(profile.user@ =~= Seq::<char>::empty());
    profile.port = qc.port_or_default();
    profile.host = qc.host;
    if let Some(user) = qc.user {
        profile.user = user;
    }
    profile
}

/// The jump host reached by `hops`, the last of which is the nearest: each
/// hop is an alias of the configuration, or else a target that can be read,
/// and the chain ends where a name comes up again. The first hop goes through
/// the jump hosts that its own alias asks for.
pub open spec fn describes_hops(
    s: Option<Box<NativeSshSpec>>,
    hops: Seq<Seq<char>>,
    store: InMemoryCredentialStore,
    verify: bool,
    table: AliasResolver,
    visited: Set<Seq<char>>,
) -> bool
    decreases s,
{
    if hops.len() == 0 || visited.contains(hops.last()) {
        s is None
    } else {
        let last = hops.last();
        let been = visited.insert(last);
        let earlier = hops.drop_last();
        match entry_of(table, last) {
            Some(e) => match s {
                Some(b) => {
                    &&& describes(*b, e.profile, store, verify)
                    &&& if earlier.len() > 0 {
                        describes_hops(b.jump, earlier, store, verify, table, been)
                    } else {
                        match e.proxy_jump {
                            Some(raw) => describes_hops(
                                b.jump,
                                hops_of(raw@),
                                store,
                                verify,
                                table,
                                been,
                            ),
                            None => b.jump is None,
                        }
                    }
                },
                None => false,
            },
            None => match ssh_profile::target_of(last) {
                Some(t) => match s {
                    Some(b) => {
                        &&& describes_target(*b, t, store, verify)
                        &&& if earlier.len() > 0 {
                            describes_hops(b.jump, earlier, store, verify, table, been)
                        } else {
                            b.jump is None
                        }
                    },
                    None => false,
                },
                None => s is None,
            },
        }
    }
}

/// What a description says of a typed target.
pub open spec fn describes_target(
    s: NativeSshSpec,
    t: ssh_profile::TargetView,
    store: InMemoryCredentialStore,
    verify: bool,
) -> bool {
    exists|p: SshProfile| #[trigger] stands_for(p, t) && describes(s, p, store, verify)
}

/// How many entries of the configuration a chain has not been through.
pub open spec fn aliases_left(entries: Seq<AliasEntry>, visited: Set<Seq<char>>) -> nat
    decreases entries.len(),
{
    if entries.len() == 0 {
        0
    } else {
        aliases_left(entries.drop_last(), visited) + if visited.contains(entries.last().alias@) {
            0nat
        } else {
            1nat
        }
    }
}

pub proof fn lemma_aliases_left_shrinks(
    entries: Seq<AliasEntry>,
    visited: Set<Seq<char>>,
    name: Seq<char>,
)
    ensures
        aliases_left(entries, visited.insert(name)) <= aliases_left(entries, visited),
        !visited.contains(name) && place_of_alias(entries, name) is Some ==> aliases_left(
            entries,
            visited.insert(name),
        ) < aliases_left(entries, visited),
        aliases_left(entries, visited) <= entries.len(),
    decreases entries.len(),
{
    if entries.len() > 0 {
        lemma_aliases_left_shrinks(entries.drop_last(), visited, name);
    }
}

/// The names a chain has been through once it ends: those it had been through,
/// and each hop it enters. A hop that names nothing has been entered too.
pub open spec fn names_after(
    hops: Seq<Seq<char>>,
    table: AliasResolver,
    visited: Set<Seq<char>>,
) -> Set<Seq<char>>
    decreases aliases_left(table.entries@, visited), hops.len(),
{
    if hops.len() == 0 || visited.contains(hops.last()) {
        visited
    } else {
        proof {
            lemma_aliases_left_shrinks(table.entries@, visited, hops.last());
        }
        let been = visited.insert(hops.last());
        let earlier = hops.drop_last();
        match entry_of(table, hops.last()) {
            Some(e) => if earlier.len() > 0 {
                names_after(earlier, table, been)
            } else {
                match e.proxy_jump {
                    Some(raw) => names_after(hops_of(raw@), table, been),
                    None => been,
                }
            },
            None => if earlier.len() > 0 && ssh_profile::target_of(hops.last()) is Some {
                names_after(earlier, table, been)
            } else {
                been
            },
        }
    }
}

/// The names in a list of strings.
pub open spec fn names_in(v: Seq<String>) -> Set<Seq<char>> {
    text::views(v).to_set()
}

fn has_name(names: &Vec<String>, name: &str) -> (r: bool)
    ensures
        r == names_in(names@).contains(name@),
{
    let mut i: usize = 0;
    while i < names.len()
        invariant
            i <= names@.len(),
            forall|k: int| 0 <= k < i ==> (#[trigger] names@[k])@ != name@,
        decreases names@.len() - i,
    {
        if text::same(names[i].as_str(), name) {
            assert(text::views(names@)[i as int] == name@);
            return true;
        }
        i = i + 1;
    }
    assert(!text::views(names@).contains(name@));
    false
}

fn add_name(names: &mut Vec<String>, name: &str)
    ensures
        names_in(final(names)@) == names_in(old(names)@).insert(name@),
{
    let ghost before = text::views(names@);
    names.push(name.to_owned());
    let ghost after = text::views(names@);
    proof {
        assert(after =~= before.push(name@));
        assert forall|x: Seq<char>| #[trigger]
            after.to_set().contains(x) == before.to_set().insert(name@).contains(x) by {
            if before.contains(x) {
                let k = choose|k: int| 0 <= k < before.len() && before[k] == x;
                assert(after[k] == x);
            }
            if x == name@ {
                assert(after[before.len() as int] == x);
            }
        }
        assert(after.to_set() =~= before.to_set().insert(name@));
    }
}

/// Describe the connection to a host that is not saved, with the jump hosts
/// that the SSH configuration gives for it.
pub fn native_spec_from_transient_profile(
    profile: &SshProfile,
    proxy_jump: Option<String>,
    store: &InMemoryCredentialStore,
    global_verify_host_keys: bool,
    resolve_alias: &AliasResolver,
) -> (r: NativeSshSpec)
    ensures
        describes(r, *profile, *store, global_verify_host_keys),
        match proxy_jump {
            Some(raw) => describes_hops(
                r.jump,
                hops_of(raw@),
                *store,
                global_verify_host_keys,
                *resolve_alias,
                set![profile.name@],
            ),
            None => r.jump is None,
        },
{
    let nobody: Vec<SshProfile> = Vec::new();
    let mut spec = build_native_ssh_spec(
        profile,
        nobody.as_slice(),
        store,
        global_verify_host_keys,
    );
    if let Some(raw) = proxy_jump {
        let mut visited: Vec<String> = Vec::new();
        add_name(&mut visited, profile.name.as_str());
        assert(names_in(visited@) =~= set![profile.name@]);
        spec.jump = resolve_jump_chain(
            raw.as_str(),
            store,
            global_verify_host_keys,
            resolve_alias,
            &mut visited,
        );
    }
    spec
}

/// The jump host that a `ProxyJump` value leads to.
pub fn resolve_jump_chain(
    raw: &str,
    store: &InMemoryCredentialStore,
    verify: bool,
    resolve_alias: &AliasResolver,
    visited: &mut Vec<String>,
) -> (r: Option<Box<NativeSshSpec>>)
    ensures
        describes_hops(
            r,
            hops_of(raw@),
            *store,
            verify,
            *resolve_alias,
            names_in(old(visited)@),
        ),
        names_in(final(visited)@) == names_after(
            hops_of(raw@),
            *resolve_alias,
            names_in(old(visited)@),
        ),
    decreases aliases_left(resolve_alias.entries@, names_in(old(visited)@)), hops_of(raw@).len() + 1,
{
    let hops = jump_hops(raw);
    build_jump_from_hops(hops.as_slice(), store, verify, resolve_alias, visited)
}

/// The jump host reached by `hops`, the last of which is the nearest.
pub fn build_jump_from_hops(
    hops: &[String],
    store: &InMemoryCredentialStore,
    verify: bool,
    resolve_alias: &AliasResolver,
    visited: &mut Vec<String>,
) -> (r: Option<Box<NativeSshSpec>>)
    ensures
        describes_hops(
            r,
            text::views(hops@),
            *store,
            verify,
            *resolve_alias,
            names_in(old(visited)@),
        ),
        names_in(final(visited)@) == names_after(
            text::views(hops@),
            *resolve_alias,
            names_in(old(visited)@),
        ),
    decreases aliases_left(resolve_alias.entries@, names_in(old(visited)@)), hops@.len(),
{
    let n: usize = hops.len();
    if n == 0 {
        return None;
    }
    let last: &String = &hops[n - 1];
    let ghost been = names_in(visited@);
    assert(text::views(hops@).last() == last@);
    if has_name(visited, last.as_str()) {
        return None;
    }
    add_name(visited, last.as_str());
    proof {
        lemma_aliases_left_shrinks(resolve_alias.entries@, been, last@);
    }
    let earlier = vstd::slice::slice_subrange(hops, 0, n - 1);
    assert(text::views(earlier@) =~= text::views(hops@).drop_last());
    let nobody: Vec<SshProfile> = Vec::new();
    match config_alias_resolver(resolve_alias, last.as_str()) {
        Some(entry) => {
            let mut spec = build_native_ssh_spec(&entry.profile, nobody.as_slice(), store, verify);
            spec.jump = if n > 1 {
                build_jump_from_hops(earlier, store, verify, resolve_alias, visited)
            } else {
                match &entry.proxy_jump {
                    Some(own) => resolve_jump_chain(
                        own.as_str(),
                        store,
                        verify,
                        resolve_alias,
                        visited,
                    ),
                    None => None,
                }
            };
            Some(Box::new(spec))
        },
        None => match transient_profile_from_target(last.as_str()) {
            Some(profile) => {
                let mut spec = build_native_ssh_spec(&profile, nobody.as_slice(), store, verify);
                assert(stands_for(profile, ssh_profile::target_of(last@)->0));
                spec.jump = if n > 1 {
                    build_jump_from_hops(earlier, store, verify, resolve_alias, visited)
                } else {
                    None
                };
                assert(describes_target(spec, ssh_profile::target_of(last@)->0, *store, verify));
                Some(Box::new(spec))
            },
            None => None,
        },
    }
}

/// The saved profile that a description was made from, if it is still there.
pub open spec fn persisted_place(s: NativeSshSpec, profiles: Seq<SshProfile>) -> Option<int> {
    match s.profile_id {
        Some(t) => match ssh_profile::id_value(t@) {
            Some(id) => place_of_id(profiles, id),
            None => None,
        },
        None => None,
    }
}

/// Make a remembered description anew from the profile as it is now; one
/// whose profile is gone stays as it was.
pub fn resolve_persisted_ssh_spec(
    spec: Box<NativeSshSpec>,
    profiles: &[SshProfile],
    store: &InMemoryCredentialStore,
    global_verify_host_keys: bool,
) -> (r: Box<NativeSshSpec>)
    ensures
        match persisted_place(*spec, profiles@) {
            Some(i) => describes_chain(
                *r,
                profiles@[i],
                profiles@,
                *store,
                global_verify_host_keys,
                set![profiles@[i].id],
            ),
            None => r == spec,
        },
{
    let place = match &spec.profile_id {
        Some(t) => match ssh_profile::parse_id(t.as_str()) {
            Some(id) => find_profile(profiles, id),
            None => None,
        },
        None => None,
    };
    match place {
        Some(i) => Box::new(
            build_native_ssh_spec(&profiles[i], profiles, store, global_verify_host_keys),
        ),
        None => spec,
    }
}

/// The profile of an alias under the user and the port that were typed.
pub open spec fn typed_over(p: SshProfile, own: SshProfile, t: ssh_profile::TargetView) -> bool {
    &&& p.user@ == match t.user {
        Some(u) => u,
        None => own.user@,
    }
    &&& p.port == match t.port {
        Some(port) => port,
        None => own.port,
    }
    &&& p.same_beside_user_and_port(own)
}

/// What a description says of a host of the configuration, under the user and
/// the port that were typed.
pub open spec fn describes_alias(
    s: NativeSshSpec,
    own: SshProfile,
    t: ssh_profile::TargetView,
    store: InMemoryCredentialStore,
    verify: bool,
) -> bool {
    exists|p: SshProfile| #[trigger] typed_over(p, own, t) && describes(s, p, store, verify)
}

/// `s` describes a connect to what was typed.
pub open spec fn describes_quick_connect(
    s: NativeSshSpec,
    t: ssh_profile::TargetView,
    store: InMemoryCredentialStore,
    verify: bool,
    table: AliasResolver,
) -> bool {
    match entry_of(table, t.host) {
        Some(e) => {
            &&& describes_alias(s, e.profile, t, store, verify)
            &&& match e.proxy_jump {
                Some(raw) => describes_hops(
                    s.jump,
                    hops_of(raw@),
                    store,
                    verify,
                    table,
                    set![e.profile.name@],
                ),
                None => s.jump is None,
            }
        },
        None => s.jump is None && describes_target(s, t, store, verify),
    }
}

/// Describe the connection to a typed target. A host of the SSH configuration
/// brings its own settings and jump hosts, under the typed user and port; any
/// other target is a host of that name.
pub fn quick_connect_spec(
    qc: QuickConnect,
    profiles: &[SshProfile],
    store: &InMemoryCredentialStore,
    global_verify_host_keys: bool,
    resolve_alias: &AliasResolver,
) -> (r: NativeSshSpec)
    ensures
        describes_quick_connect(r, qc@, *store, global_verify_host_keys, *resolve_alias),
{
    match config_alias_resolver(resolve_alias, qc.host.as_str()) {
        Some(entry) => {
            let mut profile = entry.profile.copy();
            let ghost t = qc@;
            if let Some(user) = qc.user {
                profile.user = user;
            }
            if let Some(port) = qc.port {
                profile.port = port;
            }
            assert(typed_over(profile, entry.profile, t));
            native_spec_from_transient_profile(
                &profile,
                text::copy_option(&entry.proxy_jump),
                store,
                global_verify_host_keys,
                resolve_alias,
            )
        },
        None => {
            let ghost t = qc@;
            let profile = profile_of_quick_connect(qc);
            assert(stands_for(profile, t));
            build_native_ssh_spec(&profile, profiles, store, global_verify_host_keys)
        },
    }
}

/// The identifiers along a description, from the host to its farthest jump
/// host.
pub open spec fn hop_ids(s: NativeSshSpec) -> Seq<u128>
    decreases s,
{
    let own = seq![ssh_profile::id_value(s.profile_id->0@)->0];
    match s.jump {
        Some(j) => own + hop_ids(*j),
        None => own,
    }
}

/// A description of a saved host passes no saved host twice, so a cycle of
/// jump hosts is cut rather than followed, and no chain is longer than one
/// more than the saved hosts.
pub proof fn jump_cycles_are_cut(
    s: NativeSshSpec,
    p: SshProfile,
    profiles: Seq<SshProfile>,
    store: InMemoryCredentialStore,
    global_verify: bool,
)
    requires
        describes_chain(s, p, profiles, store, global_verify, set![p.id]),
    ensures
        hop_ids(s).no_duplicates(),
        hop_ids(s).len() <= profiles.len() + 1,
{
    lemma_chain_is_fresh(s, p, profiles, store, global_verify, set![p.id]);
    lemma_unvisited_shrinks(profiles, set![p.id], p.id);
}

proof fn lemma_chain_is_fresh(
    s: NativeSshSpec,
    p: SshProfile,
    profiles: Seq<SshProfile>,
    store: InMemoryCredentialStore,
    global_verify: bool,
    visited: Set<u128>,
)
    requires
        describes_chain(s, p, profiles, store, global_verify, visited),
        visited.contains(p.id),
    ensures
        hop_ids(s).len() > 0,
        hop_ids(s)[0] == p.id,
        hop_ids(s).no_duplicates(),
        forall|k: int| 1 <= k < hop_ids(s).len() ==> !visited.contains(#[trigger] hop_ids(s)[k]),
        hop_ids(s).len() <= unvisited(profiles, visited) + 1,
    decreases s,
{
    match next_jump(p, profiles, visited) {
        Some(jp) => {
            let j = *s.jump->0;
            let next = visited.insert(jp.id);
            lemma_place_of_id(profiles, p.jump_host->0);
            lemma_unvisited_shrinks(profiles, visited, jp.id);
            lemma_chain_is_fresh(j, jp, profiles, store, global_verify, next);
            let rest = hop_ids(j);
            assert(hop_ids(s) =~= seq![p.id] + rest);
            assert forall|k: int| 1 <= k < hop_ids(s).len() implies !visited.contains(
                #[trigger] hop_ids(s)[k],
            ) by {
                assert(hop_ids(s)[k] == rest[k - 1]);
                if k > 1 {
                    assert(!next.contains(rest[k - 1]));
                }
            }
            assert forall|a: int, b: int|
                0 <= a < hop_ids(s).len() && 0 <= b < hop_ids(s).len() && a != b implies hop_ids(
                s,
            )[a] != hop_ids(s)[b] by {
                if a > 0 && b > 0 {
                    assert(hop_ids(s)[a] == rest[a - 1]);
                    assert(hop_ids(s)[b] == rest[b - 1]);
                } else if a == 0 {
                    assert(!visited.contains(hop_ids(s)[b]));
                } else {
                    assert(!visited.contains(hop_ids(s)[a]));
                }
            }
        },
        None => {
            assert(hop_ids(s) =~= seq![p.id]);
        },
    }
}

/// The names along a chain of named hops, from the nearest on.
pub open spec fn hop_names(
    s: Option<Box<NativeSshSpec>>,
    hops: Seq<Seq<char>>,
    table: AliasResolver,
) -> Seq<Seq<char>>
    decreases s,
{
    match s {
        Some(b) => {
            let own = seq![hops.last()];
            let earlier = hops.drop_last();
            if earlier.len() > 0 {
                own + hop_names(b.jump, earlier, table)
            } else {
                match entry_of(table, hops.last()) {
                    Some(e) => match e.proxy_jump {
                        Some(raw) => own + hop_names(b.jump, hops_of(raw@), table),
                        None => own,
                    },
                    None => own,
                }
            }
        },
        None => Seq::empty(),
    }
}

/// A chain of named hops passes no name twice and never comes back to the
/// host it is for, so a cycle in the configuration is cut.
pub proof fn named_cycles_are_cut(
    s: Option<Box<NativeSshSpec>>,
    hops: Seq<Seq<char>>,
    store: InMemoryCredentialStore,
    verify: bool,
    table: AliasResolver,
    visited: Set<Seq<char>>,
)
    requires
        describes_hops(s, hops, store, verify, table, visited),
    ensures
        hop_names(s, hops, table).no_duplicates(),
        forall|k: int|
            0 <= k < hop_names(s, hops, table).len() ==> !visited.contains(
                #[trigger] hop_names(s, hops, table)[k],
            ),
    decreases s,
{
    if let Some(b) = s {
        let last = hops.last();
        let been = visited.insert(last);
        let earlier = hops.drop_last();
        let names = hop_names(s, hops, table);
        let rest = if earlier.len() > 0 {
            named_cycles_are_cut(b.jump, earlier, store, verify, table, been);
            hop_names(b.jump, earlier, table)
        } else {
            match entry_of(table, last) {
                Some(e) => match e.proxy_jump {
                    Some(raw) => {
                        named_cycles_are_cut(b.jump, hops_of(raw@), store, verify, table, been);
                        hop_names(b.jump, hops_of(raw@), table)
                    },
                    None => Seq::empty(),
                },
                None => Seq::empty(),
            }
        };
        assert(names =~= seq![last] + rest);
        assert forall|k: int| 0 <= k < names.len() implies !visited.contains(#[trigger] names[k]) by {
            if k > 0 {
                assert(names[k] == rest[k - 1]);
                assert(!been.contains(rest[k - 1]));
            }
        }
        assert forall|x: int, y: int|
            0 <= x < names.len() && 0 <= y < names.len() && x != y implies names[x] != names[y] by {
            if x > 0 && y > 0 {
                assert(names[x] == rest[x - 1] && names[y] == rest[y - 1]);
            } else if x == 0 {
                assert(names[y] == rest[y - 1]);
                assert(!been.contains(rest[y - 1]));
            } else {
                assert(names[x] == rest[x - 1]);
                assert(!been.contains(rest[x - 1]));
            }
        }
    }
}

/// A chain of named hops keeps the names it had been through, and marks each
/// hop it passes.
pub proof fn a_chain_marks_its_hops(
    s: Option<Box<NativeSshSpec>>,
    hops: Seq<Seq<char>>,
    store: InMemoryCredentialStore,
    verify: bool,
    table: AliasResolver,
    visited: Set<Seq<char>>,
)
    requires
        describes_hops(s, hops, store, verify, table, visited),
    ensures
        visited.subset_of(names_after(hops, table, visited)),
        forall|k: int|
            0 <= k < hop_names(s, hops, table).len() ==> names_after(hops, table, visited).contains(
                #[trigger] hop_names(s, hops, table)[k],
            ),
    decreases s,
{
    if let Some(b) = s {
        let last = hops.last();
        let been = visited.insert(last);
        let earlier = hops.drop_last();
        let names = hop_names(s, hops, table);
        let after = names_after(hops, table, visited);
        let rest = if earlier.len() > 0 {
            a_chain_marks_its_hops(b.jump, earlier, store, verify, table, been);
            hop_names(b.jump, earlier, table)
        } else {
            match entry_of(table, last) {
                Some(e) => match e.proxy_jump {
                    Some(raw) => {
                        a_chain_marks_its_hops(b.jump, hops_of(raw@), store, verify, table, been);
                        hop_names(b.jump, hops_of(raw@), table)
                    },
                    None => Seq::empty(),
                },
                None => Seq::empty(),
            }
        };
        assert(names =~= seq![last] + rest);
        assert(been.subset_of(after));
        assert forall|k: int| 0 <= k < names.len() implies after.contains(#[trigger] names[k]) by {
            if k > 0 {
                assert(names[k] == rest[k - 1]);
            } else {
                assert(been.contains(last));
            }
        }
    }
}

/// A remembered description leads back to the profile it was made from, as
/// long as that profile is saved.
pub proof fn persisted_spec_finds_its_profile(
    s: NativeSshSpec,
    p: SshProfile,
    store: InMemoryCredentialStore,
    global_verify: bool,
    profiles: Seq<SshProfile>,
)
    requires
        describes(s, p, store, global_verify),
        exists|k: int| 0 <= k < profiles.len() && (#[trigger] profiles[k]).id == p.id,
    ensures
        persisted_place(s, profiles) is Some,
        profiles[persisted_place(s, profiles)->0].id == p.id,
{
    lemma_place_of_id(profiles, p.id);
}

/// A forward is described as it is saved: it is of the rule's own kind, it
/// listens where the rule listens and leads where the rule leads. A rule
/// without a description is described without one.
pub proof fn a_forward_keeps_its_kind_and_its_ends(rule: ForwardRule)
    ensures
        (forward_of(rule).kind is Local) == (rule.kind is Local),
        (forward_of(rule).kind is Remote) == (rule.kind is Remote),
        (forward_of(rule).kind is Dynamic) == (rule.kind is Dynamic),
        forward_of(rule).bind_host@ == rule.bind.host@,
        forward_of(rule).bind_port == rule.bind.port,
        forward_of(rule).target_host@ == rule.target.host@,
        forward_of(rule).target_port == rule.target.port,
        (forward_of(rule).description is None) == (rule.description@.len() == 0),
        forward_of(rule).description is Some ==> forward_of(rule).description->0@
            == rule.description@,
{
}

/// A connect tries the way to sign in that the profile names, and no other.
pub proof fn a_way_to_sign_in_keeps_its_name(auth: AuthMode)
    ensures
        (auth_mode_of(auth) is Auto) == (auth is Auto),
        (auth_mode_of(auth) is Gssapi) == (auth is Gssapi),
        (auth_mode_of(auth) is Password) == (auth is Password),
        (auth_mode_of(auth) is PublicKey) == (auth is PublicKey),
        (auth_mode_of(auth) is Agent) == (auth is Agent),
        (auth_mode_of(auth) is KeyboardInteractive) == (auth is KeyboardInteractive),
{
}

/// A proxy command that holds more than blanks is always what is used, as it
/// was written; a SOCKS proxy is used only without one, and an HTTP proxy only
/// without either. A connect is direct exactly where none of the three is set.
pub proof fn a_command_outranks_socks_and_socks_outranks_http(p: SshProfile)
    ensures
        proxy_of(p) is Command <==> p.proxy_command is Some && text::trimmed(
            p.proxy_command->0@,
        ).len() > 0,
        proxy_of(p) is Command ==> proxy_of(p)->Command_0@ == p.proxy_command->0@,
        proxy_of(p) is Socks <==> proxy_of(p) !is Command && p.socks_proxy is Some
            && p.socks_proxy->0.host@.len() > 0,
        proxy_of(p) is Socks ==> proxy_of(p)->Socks_host@ == p.socks_proxy->0.host@
            && proxy_of(p)->Socks_port == p.socks_proxy->0.port,
        proxy_of(p) is Http <==> proxy_of(p) !is Command && proxy_of(p) !is Socks && p.http_proxy
            is Some && p.http_proxy->0.host@.len() > 0,
        proxy_of(p) is Http ==> proxy_of(p)->Http_host@ == p.http_proxy->0.host@
            && proxy_of(p)->Http_port == p.http_proxy->0.port,
{
}

/// A description says of its host what the profile says: where it is, who
/// signs in and how, what is forwarded, in the profile's order, and the limits
/// and switches of the connection. The profile's own word on host keys goes
/// before the general one.
pub proof fn a_description_is_the_profiles_own(
    s: NativeSshSpec,
    p: SshProfile,
    store: InMemoryCredentialStore,
    global_verify: bool,
)
    requires
        describes(s, p, store, global_verify),
    ensures
        s.host@ == p.host@ && s.port == p.port && s.user@ == p.user@,
        (s.auth_mode is Auto) == (p.auth is Auto),
        (s.auth_mode is Gssapi) == (p.auth is Gssapi),
        (s.auth_mode is Password) == (p.auth is Password),
        (s.auth_mode is PublicKey) == (p.auth is PublicKey),
        (s.auth_mode is Agent) == (p.auth is Agent),
        (s.auth_mode is KeyboardInteractive) == (p.auth is KeyboardInteractive),
        s.agent_forward == p.agent_forward,
        s.identity_files@.len() == p.identity_files@.len(),
        s.forwards@.len() == p.forwards@.len(),
        forall|i: int|
            0 <= i < p.forwards@.len() ==> {
                &&& ((#[trigger] s.forwards@[i]).kind is Local) == (p.forwards@[i].kind is Local)
                &&& (s.forwards@[i].kind is Remote) == (p.forwards@[i].kind is Remote)
                &&& s.forwards@[i].bind_host@ == p.forwards@[i].bind.host@
                &&& s.forwards@[i].bind_port == p.forwards@[i].bind.port
                &&& s.forwards@[i].target_host@ == p.forwards@[i].target.host@
                &&& s.forwards@[i].target_port == p.forwards@[i].target.port
            },
        s.keepalive_interval_s == p.keepalive_interval_s,
        s.keepalive_count_max == p.keepalive_count_max,
        s.connect_timeout_s == p.connect_timeout_s,
        s.algorithms.kex@ == p.algorithms.kex@,
        s.algorithms.cipher@ == p.algorithms.cipher@,
        s.algorithms.mac@ == p.algorithms.mac@,
        s.algorithms.host_key@ == p.algorithms.hostkey@,
        s.algorithms.compression@ == p.algorithms.compression@,
        s.x11 == p.x11,
        p.verify_host_keys is Some ==> s.verify_host_keys == p.verify_host_keys->0,
        p.verify_host_keys is None ==> s.verify_host_keys == global_verify,
        s.skip_banner == p.skip_banner,
        s.shell_integration == p.shell_integration,
        s.login_script@ == p.login_scripts@,
        (s.display_name is None) == (p.name@.len() == 0),
        s.display_name is Some ==> s.display_name->0@ == p.name@,
{
    assert(text::views(s.identity_files@).len() == s.identity_files@.len());
    assert forall|i: int| 0 <= i < p.forwards@.len() implies ((#[trigger] s.forwards@[i]).kind
        is Local) == (p.forwards@[i].kind is Local) && (s.forwards@[i].kind is Remote) == (
    p.forwards@[i].kind is Remote) && s.forwards@[i].bind_host@ == p.forwards@[i].bind.host@
        && s.forwards@[i].bind_port == p.forwards@[i].bind.port && s.forwards@[i].target_host@
        == p.forwards@[i].target.host@ && s.forwards@[i].target_port
        == p.forwards@[i].target.port by {
        a_forward_keeps_its_kind_and_its_ends(p.forwards@[i]);
    }
}

/// A secret goes out only where the profile's way to sign in would use it: a
/// password where it tries everything or a password, and then the one kept for
/// this very user, host and port; passphrases where it tries everything or
/// keys, and each of them is the one kept for its file.
pub proof fn secrets_go_only_where_they_are_tried(
    s: NativeSshSpec,
    p: SshProfile,
    store: InMemoryCredentialStore,
    global_verify: bool,
)
    requires
        describes(s, p, store, global_verify),
    ensures
        s.password is Some ==> p.auth is Auto || p.auth is Password,
        p.auth is Auto || p.auth is Password ==> s.password == store.password(
            p.user@,
            p.host@,
            p.port,
        ),
        s.key_passphrases is Some ==> p.auth is Auto || p.auth is PublicKey,
        s.key_passphrases is Some ==> s.key_passphrases->0@.len() > 0 && forall|i: int|
            0 <= i < s.key_passphrases->0@.len() ==> store.passphrase_at(
                (#[trigger] s.key_passphrases->0@[i]).path@,
            ) == Some(s.key_passphrases->0@[i].passphrase),
        p.auth is Auto || p.auth is PublicKey ==> forall|k: int|
            0 <= k < p.identity_files@.len() && store.passphrase_at(
                #[trigger] ssh_profile::tilde_expanded(p.identity_files@[k]@, store.home@),
            ) is Some ==> s.key_passphrases is Some && exists|i: int|
                0 <= i < s.key_passphrases->0@.len() && (
                #[trigger] s.key_passphrases->0@[i]).path@ == ssh_profile::tilde_expanded(
                    p.identity_files@[k]@,
                    store.home@,
                ),
{
    let own = text::views(p.identity_files@);
    if p.auth is Auto || p.auth is PublicKey {
        let paths = key_paths(p, store);
        assert forall|k: int|
            0 <= k < p.identity_files@.len() && store.passphrase_at(
                #[trigger] ssh_profile::tilde_expanded(p.identity_files@[k]@, store.home@),
            ) is Some implies s.key_passphrases is Some && exists|i: int|
            0 <= i < s.key_passphrases->0@.len() && (#[trigger] s.key_passphrases->0@[i]).path@
                == ssh_profile::tilde_expanded(p.identity_files@[k]@, store.home@) by {
            assert(own[k] == p.identity_files@[k]@);
            assert(paths[k] == ssh_profile::tilde_expanded(p.identity_files@[k]@, store.home@));
        }
    } else {
        if s.key_passphrases is Some {
            let found = s.key_passphrases->0@;
            assert(Seq::<Seq<char>>::empty().contains(found[0].path@));
        }
    }
}

/// A connect to a saved host jumps through the host its profile names: where
/// the profile names none there is no jump; where it names another saved host,
/// the jump is to that one, the first under that identifier.
pub proof fn a_jump_is_to_the_named_host(
    s: NativeSshSpec,
    p: SshProfile,
    profiles: Seq<SshProfile>,
    store: InMemoryCredentialStore,
    global_verify: bool,
    k: int,
)
    requires
        describes_chain(s, p, profiles, store, global_verify, set![p.id]),
    ensures
        p.jump_host is None ==> s.jump is None,
        p.jump_host == Some(p.id) ==> s.jump is None,
        s.jump is Some ==> exists|j: int|
            0 <= j < profiles.len() && Some((#[trigger] profiles[j]).id) == p.jump_host
                && describes(*s.jump->0, profiles[j], store, global_verify),
        0 <= k < profiles.len() && Some(profiles[k].id) == p.jump_host && profiles[k].id != p.id && (
        forall|j: int| 0 <= j < k ==> (#[trigger] profiles[j]).id != profiles[k].id) ==> s.jump
            is Some && s.jump->0.host@ == profiles[k].host@ && s.jump->0.port == profiles[k].port
            && s.jump->0.user@ == profiles[k].user@,
{
    reveal_with_fuel(describes_chain, 2);
    if p.jump_host is Some {
        lemma_place_of_id(profiles, p.jump_host->0);
    }
}

/// Of the hops a host asks for, the one named last is the one next to it: the
/// chain goes on through the ones named before it. A hop that is a host of the
/// configuration is reached as the configuration says.
pub proof fn the_last_hop_is_the_nearest(
    s: Option<Box<NativeSshSpec>>,
    hops: Seq<Seq<char>>,
    store: InMemoryCredentialStore,
    verify: bool,
    table: AliasResolver,
    visited: Set<Seq<char>>,
    k: int,
)
    requires
        describes_hops(s, hops, store, verify, table, visited),
        hops.len() > 0,
        !visited.contains(hops.last()),
        0 <= k < table.entries@.len(),
        table.entries@[k].alias@ == hops.last(),
        forall|j: int| 0 <= j < k ==> (#[trigger] table.entries@[j]).alias@ != hops.last(),
    ensures
        s is Some,
        s->0.host@ == table.entries@[k].profile.host@,
        s->0.port == table.entries@[k].profile.port,
        s->0.user@ == table.entries@[k].profile.user@,
        hops.len() > 1 ==> describes_hops(
            s->0.jump,
            hops.drop_last(),
            store,
            verify,
            table,
            visited.insert(hops.last()),
        ),
        hops.len() == 1 && table.entries@[k].proxy_jump is None ==> s->0.jump is None,
{
    lemma_place_of_alias(table.entries@, hops.last());
    assert(s is Some);
}

/// What was typed goes before what the configuration says: a typed user and a
/// typed port are the ones used. What was not typed comes from the host of the
/// configuration with that name; where there is none, the typed host is the
/// host, with no user and the usual port.
pub proof fn what_is_typed_goes_first(
    s: NativeSshSpec,
    t: ssh_profile::TargetView,
    store: InMemoryCredentialStore,
    verify: bool,
    table: AliasResolver,
    k: int,
)
    requires
        describes_quick_connect(s, t, store, verify, table),
    ensures
        t.user is Some ==> s.user@ == t.user->0,
        t.port is Some ==> s.port == t.port->0,
        (forall|j: int| 0 <= j < table.entries@.len() ==> (#[trigger] table.entries@[j]).alias@
            != t.host) ==> {
            &&& s.host@ == t.host
            &&& t.user is None ==> s.user@.len() == 0
            &&& t.port is None ==> s.port == 22
            &&& s.jump is None
            &&& s.proxy is Direct
        },
        0 <= k < table.entries@.len() && table.entries@[k].alias@ == t.host && (forall|j: int|
            0 <= j < k ==> (#[trigger] table.entries@[j]).alias@ != t.host) ==> {
            &&& s.host@ == table.entries@[k].profile.host@
            &&& t.user is None ==> s.user@ == table.entries@[k].profile.user@
            &&& t.port is None ==> s.port == table.entries@[k].profile.port
            &&& table.entries@[k].proxy_jump is None ==> s.jump is None
        },
{
    lemma_place_of_alias(table.entries@, t.host);
}

proof fn lemma_named_hops_concat(a: Seq<Seq<char>>, b: Seq<Seq<char>>)
    ensures
        named_hops(a + b) == named_hops(a) + named_hops(b),
    decreases b.len(),
{
    if b.len() == 0 {
        assert(a + b =~= a);
        assert(named_hops(a) + named_hops(b) =~= named_hops(a));
    } else {
        lemma_named_hops_concat(a, b.drop_last());
        assert((a + b).drop_last() =~= a + b.drop_last());
        assert((a + b).last() == b.last());
        assert(named_hops(a + b) =~= named_hops(a) + named_hops(b));
    }
}

/// The hops around a comma are those before it and then those behind it; a
/// text without one is a single hop, without the blanks around it, or none
/// where it is blank.
pub proof fn hops_are_named_between_commas(a: Seq<char>, b: Seq<char>)
    ensures
        hops_of(a + seq![','] + b) == hops_of(a) + hops_of(b),
        !a.contains(',') && text::trimmed(a).len() > 0 ==> hops_of(a) == seq![text::trimmed(a)],
        !a.contains(',') && text::trimmed(a).len() == 0 ==> hops_of(a).len() == 0,
{
    text::lemma_pieces_around(a, b, ',');
    lemma_named_hops_concat(text::pieces(a, ','), text::pieces(b, ','));
    if !a.contains(',') {
        text::lemma_one_piece(a, ',');
        let one = text::pieces(a, ',');
        assert(one.drop_last() =~= Seq::<Seq<char>>::empty());
        assert(one.last() == a);
        reveal_with_fuel(named_hops, 2);
        if text::trimmed(a).len() > 0 {
            assert(hops_of(a) =~= seq![text::trimmed(a)]);
        }
    }
}

/// A remembered connection is made from the profile that its identifier names,
/// the first of that identifier.
pub proof fn a_remembered_connection_follows_its_identifier(
    s: NativeSshSpec,
    profiles: Seq<SshProfile>,
)
    ensures
        match persisted_place(s, profiles) {
            Some(i) => {
                &&& s.profile_id is Some
                &&& 0 <= i < profiles.len()
                &&& ssh_profile::id_value(s.profile_id->0@) == Some(profiles[i].id)
                &&& forall|k: int| 0 <= k < i ==> (#[trigger] profiles[k]).id != profiles[i].id
            },
            None => s.profile_id is None || ssh_profile::id_value(s.profile_id->0@) is None
                || forall|k: int|
                0 <= k < profiles.len() ==> Some((#[trigger] profiles[k]).id)
                    != ssh_profile::id_value(s.profile_id->0@),
        },
{
    if s.profile_id is Some && ssh_profile::id_value(s.profile_id->0@) is Some {
        lemma_place_of_id(profiles, ssh_profile::id_value(s.profile_id->0@)->0);
    }
}

/// The profile made up for a typed target is that host and nothing more: its
/// user and port as typed, the usual port where none was, and no key, proxy,
/// jump host, forward or script.
pub proof fn a_typed_target_is_a_plain_host(p: SshProfile, t: ssh_profile::TargetView)
    requires
        stands_for(p, t),
    ensures
        p.host@ == t.host && p.name@ == t.host,
        t.user is Some ==> p.user@ == t.user->0,
        t.user is None ==> p.user@.len() == 0,
        t.port is Some ==> p.port == t.port->0,
        t.port is None ==> p.port == 22,
        p.auth is Auto,
        p.identity_files@.len() == 0 && p.forwards@.len() == 0 && p.login_scripts@.len() == 0,
        p.proxy_command is None && p.socks_proxy is None && p.http_proxy is None,
        p.jump_host is None && p.verify_host_keys is None,
        !p.agent_forward && !p.x11 && !p.skip_banner && p.shell_integration,
        p.keepalive_interval_s == 0 && p.keepalive_count_max == 3 && p.connect_timeout_s == 15,
{
}

/// A chain of saved hosts has been through its own hops, and through all that
/// it had been through.
pub proof fn a_chain_remembers_its_hosts(
    p: SshProfile,
    profiles: Seq<SshProfile>,
    visited: Set<u128>,
)
    ensures
        visited.subset_of(ids_after(p, profiles, visited)),
        next_jump(p, profiles, visited) is Some ==> ids_after(p, profiles, visited).contains(
            next_jump(p, profiles, visited)->0.id,
        ),
        next_jump(p, profiles, visited) is None ==> ids_after(p, profiles, visited) == visited,
    decreases unvisited(profiles, visited),
{
    if let Some(jp) = next_jump(p, profiles, visited) {
        lemma_place_of_id(profiles, p.jump_host->0);
        lemma_unvisited_shrinks(profiles, visited, jp.id);
        let next = visited.insert(jp.id);
        a_chain_remembers_its_hosts(jp, profiles, next);
        assert(next.subset_of(ids_after(jp, profiles, next)));
        assert(next.contains(jp.id));
        assert(visited.subset_of(next));
    }
}

/// A saved host jumps to the host it names, unless the chain was there already
/// or no saved host has that identifier.
pub proof fn a_chain_never_turns_back(
    p: SshProfile,
    profiles: Seq<SshProfile>,
    visited: Set<u128>,
    k: int,
)
    ensures
        p.jump_host is None ==> next_jump(p, profiles, visited) is None,
        p.jump_host is Some && visited.contains(p.jump_host->0) ==> next_jump(p, profiles, visited)
            is None,
        p.jump_host is Some && !visited.contains(p.jump_host->0) && 0 <= k < profiles.len()
            && profiles[k].id == p.jump_host->0 && (forall|i: int|
            0 <= i < k ==> (#[trigger] profiles[i]).id != profiles[k].id) ==> next_jump(
            p,
            profiles,
            visited,
        ) == Some(profiles[k]),
        next_jump(p, profiles, visited) is Some ==> p.jump_host == Some(
            next_jump(p, profiles, visited)->0.id,
        ),
{
    if p.jump_host is Some {
        lemma_place_of_id(profiles, p.jump_host->0);
    }
}

/// The key files are the profile's own, in its order, each with a leading
/// tilde replaced. Passphrases go out for those and for the files that every
/// host is tried with, and for no other.
pub proof fn the_key_files_are_the_profiles_own(
    s: NativeSshSpec,
    p: SshProfile,
    store: InMemoryCredentialStore,
    global_verify: bool,
    i: int,
    k: int,
)
    requires
        describes(s, p, store, global_verify),
    ensures
        s.identity_files@.len() == p.identity_files@.len(),
        0 <= i < p.identity_files@.len() ==> s.identity_files@[i]@ == ssh_profile::tilde_expanded(
            p.identity_files@[i]@,
            store.home@,
        ),
        s.key_passphrases is Some && 0 <= k < s.key_passphrases->0@.len() ==> (exists|j: int|
            0 <= j < p.identity_files@.len() && s.key_passphrases->0@[k].path@
                == ssh_profile::tilde_expanded(
                (#[trigger] p.identity_files@[j])@,
                store.home@,
            )) || (exists|j: int|
            0 <= j < store.default_identities@.len() && s.key_passphrases->0@[k].path@ == (
            #[trigger] store.default_identities@[j])@),
        (p.auth is Auto || p.auth is PublicKey) && 0 <= i < store.default_identities@.len()
            && store.passphrase_at(store.default_identities@[i]@) is Some ==> s.key_passphrases
            is Some && exists|j: int|
            0 <= j < s.key_passphrases->0@.len() && (#[trigger] s.key_passphrases->0@[j]).path@
                == store.default_identities@[i]@,
{
    let own = text::views(p.identity_files@);
    let wide = ssh_profile::expanded(own, store.home@);
    let defaults = text::views(store.default_identities@);
    let paths = key_paths(p, store);
    assert(text::views(s.identity_files@).len() == s.identity_files@.len());
    assert(paths == wide + defaults);
    if 0 <= i < p.identity_files@.len() {
        assert(text::views(s.identity_files@)[i] == s.identity_files@[i]@);
        assert(own[i] == p.identity_files@[i]@);
        assert(wide[i] == ssh_profile::tilde_expanded(own[i], store.home@));
    }
    if s.key_passphrases is Some && 0 <= k < s.key_passphrases->0@.len() {
        let path = s.key_passphrases->0@[k].path@;
        if p.auth is Auto || p.auth is PublicKey {
            assert(paths.contains(path));
            let w = choose|w: int| 0 <= w < paths.len() && paths[w] == path;
            if w < wide.len() {
                assert(own[w] == p.identity_files@[w]@);
            } else {
                assert(defaults[w - wide.len()] == store.default_identities@[w - wide.len()]@);
            }
        } else {
            assert(Seq::<Seq<char>>::empty().contains(path));
        }
    }
    if (p.auth is Auto || p.auth is PublicKey) && 0 <= i < store.default_identities@.len()
        && store.passphrase_at(store.default_identities@[i]@) is Some {
        assert(paths[wide.len() + i] == store.default_identities@[i]@);
    }
}

/// A host of the configuration brings its own way to sign in, proxy, switches
/// and limits, whatever user and port were typed.
pub proof fn the_rest_comes_from_the_configuration(
    s: NativeSshSpec,
    t: ssh_profile::TargetView,
    store: InMemoryCredentialStore,
    verify: bool,
    table: AliasResolver,
    k: int,
)
    requires
        describes_quick_connect(s, t, store, verify, table),
        0 <= k < table.entries@.len(),
        table.entries@[k].alias@ == t.host,
        forall|j: int| 0 <= j < k ==> (#[trigger] table.entries@[j]).alias@ != t.host,
    ensures
        ({
            let own = table.entries@[k].profile;
            &&& (s.auth_mode is Auto) == (own.auth is Auto)
            &&& (s.auth_mode is Password) == (own.auth is Password)
            &&& (s.auth_mode is PublicKey) == (own.auth is PublicKey)
            &&& (s.auth_mode is Agent) == (own.auth is Agent)
            &&& s.agent_forward == own.agent_forward
            &&& s.identity_files@.len() == own.identity_files@.len()
            &&& s.forwards@.len() == own.forwards@.len()
            &&& s.proxy == proxy_of(own)
            &&& s.keepalive_interval_s == own.keepalive_interval_s
            &&& s.keepalive_count_max == own.keepalive_count_max
            &&& s.connect_timeout_s == own.connect_timeout_s
            &&& s.x11 == own.x11
            &&& s.skip_banner == own.skip_banner
            &&& s.shell_integration == own.shell_integration
            &&& s.login_script@ == own.login_scripts@
            &&& own.verify_host_keys is Some ==> s.verify_host_keys == own.verify_host_keys->0
            &&& own.verify_host_keys is None ==> s.verify_host_keys == verify
        }),
{
    lemma_place_of_alias(table.entries@, t.host);
    let own = table.entries@[k].profile;
    let p = choose|p: SshProfile| #[trigger] typed_over(p, own, t) && describes(s, p, store, verify);
    a_description_is_the_profiles_own(s, p, store, verify);
    a_command_outranks_socks_and_socks_outranks_http(p);
}

/// A hop that is no host of the configuration is read as a target that was
/// typed: its host, and its user and port where it names them. One that cannot
/// be read ends the chain.
pub proof fn a_hop_outside_the_configuration_is_a_target(
    s: Option<Box<NativeSshSpec>>,
    hops: Seq<Seq<char>>,
    store: InMemoryCredentialStore,
    verify: bool,
    table: AliasResolver,
    visited: Set<Seq<char>>,
)
    requires
        describes_hops(s, hops, store, verify, table, visited),
        hops.len() > 0,
        forall|j: int|
            0 <= j < table.entries@.len() ==> (#[trigger] table.entries@[j]).alias@ != hops.last(),
    ensures
        visited.contains(hops.last()) ==> s is None,
        ssh_profile::target_of(hops.last()) is None ==> s is None,
        !visited.contains(hops.last()) && ssh_profile::target_of(hops.last()) is Some ==> {
            let t = ssh_profile::target_of(hops.last())->0;
            &&& s is Some
            &&& s->0.host@ == t.host
            &&& t.user is Some ==> s->0.user@ == t.user->0
            &&& t.user is None ==> s->0.user@.len() == 0
            &&& t.port is Some ==> s->0.port == t.port->0
            &&& t.port is None ==> s->0.port == 22
            &&& hops.len() == 1 ==> s->0.jump is None
            &&& hops.len() > 1 ==> describes_hops(
                s->0.jump,
                hops.drop_last(),
                store,
                verify,
                table,
                visited.insert(hops.last()),
            )
        },
{
    lemma_place_of_alias(table.entries@, hops.last());
}

/// Every connection is to a terminal of the same kind, and carries the
/// identifier of its profile.
pub proof fn a_description_carries_its_identifier(
    s: NativeSshSpec,
    p: SshProfile,
    store: InMemoryCredentialStore,
    global_verify: bool,
)
    requires
        describes(s, p, store, global_verify),
    ensures
        s.term@ == "xterm-256color"@,
        s.profile_id is Some && ssh_profile::id_value(s.profile_id->0@) == Some(p.id),
        s.proxy == proxy_of(p),
{
}

} // verus!
