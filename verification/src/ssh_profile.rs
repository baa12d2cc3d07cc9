//! Saved SSH hosts, the targets a user types, and a snapshot of the
//! credentials known for them.

use vstd::prelude::*;
use vstd::string::*;
use crate::text;

verus! {

/// How a host is to be authenticated against.
#[derive(Clone, Copy, Debug, PartialEq, Eq, Structural)]
pub enum AuthMode {
    Auto,
    Gssapi,
    Password,
    PublicKey,
    Agent,
    KeyboardInteractive,
}

#[derive(Clone, Copy, Debug, PartialEq, Eq, Structural)]
pub enum ForwardKind {
    Local,
    Remote,
    Dynamic,
}

#[derive(Clone, Debug)]
pub struct HostPort {
    pub host: String,
    pub port: u16,
}

impl HostPort {
    pub fn copy(&self) -> (r: HostPort)
        ensures
            r == *self,
    {
        HostPort { host: self.host.clone(), port: self.port }
    }

    pub fn new(host: &str, port: u16) -> (r: HostPort)
        ensures
            r.host@ == host@,
            r.port == port,
    {
        HostPort { host: host.to_owned(), port }
    }
}

#[derive(Clone, Debug)]
pub struct ForwardRule {
    pub kind: ForwardKind,
    pub bind: HostPort,
    pub target: HostPort,
    pub description: String,
}

impl ForwardRule {
    pub fn copy(&self) -> (r: ForwardRule)
        ensures
            r == *self,
    {
        ForwardRule {
            kind: self.kind,
            bind: self.bind.copy(),
            target: self.target.copy(),
            description: self.description.clone(),
        }
    }
}

#[derive(Clone, Debug)]
pub struct Algorithms {
    pub kex: Vec<String>,
    pub cipher: Vec<String>,
    pub mac: Vec<String>,
    pub hostkey: Vec<String>,
    pub compression: Vec<String>,
}

/// A saved host. The identifier is the 128-bit value of a UUID.
#[derive(Clone, Debug)]
pub struct SshProfile {
    pub id: u128,
    pub name: String,
    pub group: String,
    pub host: String,
    pub port: u16,
    pub user: String,
    pub auth: AuthMode,
    pub identity_files: Vec<String>,
    pub agent_forward: bool,
    pub proxy_command: Option<String>,
    pub socks_proxy: Option<HostPort>,
    pub http_proxy: Option<HostPort>,
    pub jump_host: Option<u128>,
    pub forwards: Vec<ForwardRule>,
    pub keepalive_interval_s: u32,
    pub keepalive_count_max: u32,
    pub connect_timeout_s: u32,
    pub algorithms: Algorithms,
    pub x11: bool,
    pub verify_host_keys: Option<bool>,
    pub skip_banner: bool,
    pub shell_integration: bool,
    pub login_scripts: Vec<String>,
}

/// The port of a host whose port was not given.
pub const DEFAULT_PORT: u16 = 22;

/// `uuid::Uuid::new_v4` as a number. Which one comes is chance; each carries
/// the version 4 and the variant bits of RFC 9562. It does not return where the
/// operating system has no random bytes to give.
#[verifier::external_body]
pub(crate) fn fresh_id() -> (r: u128)
    ensures
        (r >> 76u128) & 0xf == 4,
        (r >> 62u128) & 0x3 == 2,
{
    uuid::Uuid::new_v4().as_u128()
}

/// A hexadecimal digit, in lower case.
pub open spec fn hex_digit(n: nat) -> char {
    if n < 10 {
        (48 + n) as char
    } else {
        (87 + n) as char
    }
}

/// The last `digits` hexadecimal digits of a number.
pub open spec fn hex(n: nat, digits: nat) -> Seq<char>
    decreases digits,
{
    if digits == 0 {
        Seq::empty()
    } else {
        hex(n / 16, (digits - 1) as nat).push(hex_digit(n % 16))
    }
}

/// An identifier as a text: its thirty-two hexadecimal digits in groups of
/// eight, four, four, four and twelve, with a hyphen between groups.
pub open spec fn id_text(id: u128) -> Seq<char> {
    let h = hex(id as nat, 32);
    h.subrange(0, 8) + seq!['-'] + h.subrange(8, 12) + seq!['-'] + h.subrange(12, 16) + seq!['-']
        + h.subrange(16, 20) + seq!['-'] + h.subrange(20, 32)
}

/// What `uuid::Uuid::parse_str` makes of a text.
pub uninterp spec fn id_value(s: Seq<char>) -> Option<u128>;

/// `to_string` of the `uuid::Uuid` with this value: the hyphenated form, in
/// lower case, the highest digit first. It is one of the forms that
/// `uuid::Uuid::parse_str` reads, and stands for the same value there.
#[verifier::external_body]
pub(crate) fn format_id(id: u128) -> (r: String)
    ensures
        r@ == id_text(id),
        id_value(r@) == Some(id),
{
    uuid::Uuid::from_u128(id).to_string()
}

/// `uuid::Uuid::parse_str`, as a number; `None` where it reports an error.
#[verifier::external_body]
pub(crate) fn parse_id(s: &str) -> (r: Option<u128>)
    ensures
        r == id_value(s@),
{
    match uuid::Uuid::parse_str(s) {
        Ok(u) => Some(u.as_u128()),
        Err(_) => None,
    }
}

/// How a host is reached: `user@host:port`, without what goes without saying.
pub open spec fn connect_text(user: Seq<char>, host: Seq<char>, port: u16) -> Seq<char> {
    (if user.len() > 0 {
        user.push('@')
    } else {
        Seq::empty()
    }) + host + (if port != DEFAULT_PORT {
        seq![':'] + text::decimal(port as nat)
    } else {
        Seq::empty()
    })
}

/// How a host is reached.
pub fn to_connect_string(p: &SshProfile) -> (r: String)
    ensures
        r@ == connect_text(p.user@, p.host@, p.port),
{
    let mut out = String::new();
    if !p.user.as_str().is_empty() {
        out.append(p.user.as_str());
        out.push('@');
    }
    out.append(p.host.as_str());
    if p.port != DEFAULT_PORT {
        out.push(':');
        let port = text::decimal_of(p.port as u128);
        out.append(port.as_str());
    }
    assert(out@ =~= connect_text(p.user@, p.host@, p.port));
    out
}

impl SshProfile {
    /// A profile with a name and an identifier of its own, everything else
    /// at its default.
    pub fn new(name: &str) -> (r: SshProfile)
        ensures
            r.name@ == name@,
            r.host@.len() == 0,
            r.user@.len() == 0,
            r.is_plain(DEFAULT_PORT),
    {
        SshProfile {
            id: fresh_id(),
            name: name.to_owned(),
            group: String::new(),
            host: String::new(),
            port: DEFAULT_PORT,
            user: String::new(),
            auth: AuthMode::Auto,
            identity_files: Vec::new(),
            agent_forward: false,
            proxy_command: None,
            socks_proxy: None,
            http_proxy: None,
            jump_host: None,
            forwards: Vec::new(),
            keepalive_interval_s: 0,
            keepalive_count_max: 3,
            connect_timeout_s: 15,
            algorithms: Algorithms {
                kex: Vec::new(),
                cipher: Vec::new(),
                mac: Vec::new(),
                hostkey: Vec::new(),
                compression: Vec::new(),
            },
            x11: false,
            verify_host_keys: None,
            skip_banner: false,
            shell_integration: true,
            login_scripts: Vec::new(),
        }
    }

    /// Everything but the identifier, the name, the host and the user is at
    /// its default, with this port.
    pub open spec fn is_plain(&self, port: u16) -> bool {
        &&& self.group@.len() == 0
        &&& self.port == port
        &&& self.auth == AuthMode::Auto
        &&& self.identity_files@.len() == 0
        &&& !self.agent_forward
        &&& self.proxy_command is None
        &&& self.socks_proxy is None
        &&& self.http_proxy is None
        &&& self.jump_host is None
        &&& self.forwards@.len() == 0
        &&& self.keepalive_interval_s == 0
        &&& self.keepalive_count_max == 3
        &&& self.connect_timeout_s == 15
        &&& self.algorithms.kex@.len() == 0
        &&& self.algorithms.cipher@.len() == 0
        &&& self.algorithms.mac@.len() == 0
        &&& self.algorithms.hostkey@.len() == 0
        &&& self.algorithms.compression@.len() == 0
        &&& !self.x11
        &&& self.verify_host_keys is None
        &&& !self.skip_banner
        &&& self.shell_integration
        &&& self.login_scripts@.len() == 0
    }

    /// Equal in everything but the user and the port.
    pub open spec fn same_beside_user_and_port(&self, other: SshProfile) -> bool {
        &&& self.id == other.id
        &&& self.name == other.name
        &&& self.group == other.group
        &&& self.host == other.host
        &&& self.auth == other.auth
        &&& self.identity_files@ == other.identity_files@
        &&& self.agent_forward == other.agent_forward
        &&& self.proxy_command == other.proxy_command
        &&& self.socks_proxy == other.socks_proxy
        &&& self.http_proxy == other.http_proxy
        &&& self.jump_host == other.jump_host
        &&& self.forwards@ == other.forwards@
        &&& self.keepalive_interval_s == other.keepalive_interval_s
        &&& self.keepalive_count_max == other.keepalive_count_max
        &&& self.connect_timeout_s == other.connect_timeout_s
        &&& self.algorithms.kex@ == other.algorithms.kex@
        &&& self.algorithms.cipher@ == other.algorithms.cipher@
        &&& self.algorithms.mac@ == other.algorithms.mac@
        &&& self.algorithms.hostkey@ == other.algorithms.hostkey@
        &&& self.algorithms.compression@ == other.algorithms.compression@
        &&& self.x11 == other.x11
        &&& self.verify_host_keys == other.verify_host_keys
        &&& self.skip_banner == other.skip_banner
        &&& self.shell_integration == other.shell_integration
        &&& self.login_scripts@ == other.login_scripts@
    }

    /// The same profile once more.
    pub fn copy(&self) -> (r: SshProfile)
        ensures
            r.same_beside_user_and_port(*self),
            r.user == self.user,
            r.port == self.port,
    {
        let mut forwards: Vec<ForwardRule> = Vec::new();
        let mut i: usize = 0;
        while i < self.forwards.len()
            invariant
                i <= self.forwards@.len(),
                forwards@ == self.forwards@.take(i as int),
            decreases self.forwards@.len() - i,
        {
            forwards.push(self.forwards[i].copy());
            i = i + 1;
        }
        assert(forwards@ =~= self.forwards@);
        SshProfile {
            id: self.id,
            name: self.name.clone(),
            group: self.group.clone(),
            host: self.host.clone(),
            port: self.port,
            user: self.user.clone(),
            auth: self.auth,
            identity_files: text::copy_strings(&self.identity_files),
            agent_forward: self.agent_forward,
            proxy_command: text::copy_option(&self.proxy_command),
            socks_proxy: match &self.socks_proxy {
                Some(hp) => Some(hp.copy()),
                None => None,
            },
            http_proxy: match &self.http_proxy {
                Some(hp) => Some(hp.copy()),
                None => None,
            },
            jump_host: self.jump_host,
            forwards,
            keepalive_interval_s: self.keepalive_interval_s,
            keepalive_count_max: self.keepalive_count_max,
            connect_timeout_s: self.connect_timeout_s,
            algorithms: Algorithms {
                kex: text::copy_strings(&self.algorithms.kex),
                cipher: text::copy_strings(&self.algorithms.cipher),
                mac: text::copy_strings(&self.algorithms.mac),
                hostkey: text::copy_strings(&self.algorithms.hostkey),
                compression: text::copy_strings(&self.algorithms.compression),
            },
            x11: self.x11,
            verify_host_keys: self.verify_host_keys,
            skip_banner: self.skip_banner,
            shell_integration: self.shell_integration,
            login_scripts: text::copy_strings(&self.login_scripts),
        }
    }

    /// The identity files with a leading `~` replaced by the home directory.
    pub fn expanded_identity_files(&self, home: &str) -> (r: Vec<String>)
        ensures
            text::views(r@) == expanded(text::views(self.identity_files@), home@),
    {
        let mut out: Vec<String> = Vec::new();
        let mut i: usize = 0;
        while i < self.identity_files.len()
            invariant
                i <= self.identity_files@.len(),
                out@.len() == i,
                forall|k: int|
                    0 <= k < i ==> (#[trigger] out@[k])@ == tilde_expanded(
                        self.identity_files@[k]@,
                        home@,
                    ),
            decreases self.identity_files@.len() - i,
        {
            out.push(expand_tilde(self.identity_files[i].as_str(), home));
            i = i + 1;
        }
        assert(text::views(out@) =~= expanded(text::views(self.identity_files@), home@));
        out
    }
}

/// Each path with a leading `~` replaced.
pub open spec fn expanded(paths: Seq<Seq<char>>, home: Seq<char>) -> Seq<Seq<char>> {
    Seq::new(paths.len(), |i: int| tilde_expanded(paths[i], home))
}

/// `~` is the home directory, and `~/` in front of a path leads below it; any
/// other path stands as it is.
pub open spec fn tilde_expanded(path: Seq<char>, home: Seq<char>) -> Seq<char> {
    if path.len() > 0 && path[0] == '~' && (path.len() == 1 || path[1] == '/') {
        home + path.skip(1)
    } else {
        path
    }
}

pub fn expand_tilde(path: &str, home: &str) -> (r: String)
    ensures
        r@ == tilde_expanded(path@, home@),
{
    let v = text::chars_of(path);
    if v.len() > 0 && v[0] == '~' && (v.len() == 1 || v[1] == '/') {
        let rest = text::part(v.as_slice(), 1, v.len());
        let mut out = home.to_owned();
        let tail = text::string_of(rest.as_slice());
        out.append(tail.as_str());
        assert(rest@ =~= path@.skip(1));
        out
    } else {
        path.to_owned()
    }
}

/// A target typed by the user: `[user@]host[:port]`.
#[derive(Clone, Debug)]
pub struct QuickConnect {
    pub user: Option<String>,
    pub host: String,
    pub port: Option<u16>,
}

impl QuickConnect {
    pub open spec fn port_value(&self) -> u16 {
        match self.port {
            Some(p) => p,
            None => DEFAULT_PORT,
        }
    }

    pub fn port_or_default(&self) -> (r: u16)
        ensures
            r == self.port_value(),
    {
        match self.port {
            Some(p) => p,
            None => DEFAULT_PORT,
        }
    }
}

/// What a typed target names.
#[verifier::ext_equal]
pub struct TargetView {
    pub user: Option<Seq<char>>,
    pub host: Seq<char>,
    pub port: Option<u16>,
}

impl View for QuickConnect {
    type V = TargetView;

    open spec fn view(&self) -> TargetView {
        TargetView {
            user: match self.user {
                Some(u) => Some(u@),
                None => None,
            },
            host: self.host@,
            port: self.port,
        }
    }
}

/// The place of the last `c` in `s`, if there is one.
pub open spec fn last_place(s: Seq<char>, c: char) -> Option<int>
    decreases s.len(),
{
    if s.len() == 0 {
        None
    } else if s.last() == c {
        Some(s.len() - 1)
    } else {
        last_place(s.drop_last(), c)
    }
}

fn find_last(s: &[char], c: char) -> (r: Option<usize>)
    ensures
        match last_place(s@, c) {
            Some(i) => r is Some && r->0 == i && 0 <= i < s@.len() && s@[i] == c,
            None => r is None,
        },
{
    let mut n: usize = s.len();
    assert(s@.take(s@.len() as int) =~= s@);
    while n > 0
        invariant
            n <= s@.len(),
            last_place(s@, c) == last_place(s@.take(n as int), c),
        decreases n,
    {
        assert(s@.take(n as int).drop_last() =~= s@.take(n - 1));
        if s[n - 1] == c {
            return Some(n - 1);
        }
        n = n - 1;
    }
    None
}

/// The reading of a typed target: the user stands before the last `@`, a port
/// behind the last `:` of the rest. A blank host, a blank user before `@` or a
/// port that is no number of sixteen bits makes it no target.
pub open spec fn target_of(s: Seq<char>) -> Option<TargetView> {
    let t = text::trimmed(s);
    let (user, rest) = match last_place(t, '@') {
        Some(i) => (Some(t.take(i)), t.skip(i + 1)),
        None => (None::<Seq<char>>, t),
    };
    let (host, port) = match last_place(rest, ':') {
        Some(i) => (rest.take(i), Some(rest.skip(i + 1))),
        None => (rest, None::<Seq<char>>),
    };
    let value = match port {
        Some(p) => text::numeral_value(p),
        None => None,
    };
    if host.len() == 0 || (user is Some && user->0.len() == 0) {
        None
    } else if port is Some && !(value is Some && value->0 <= 65535) {
        None
    } else {
        Some(
            TargetView {
                user,
                host,
                port: if port is Some {
                    Some(value->0 as u16)
                } else {
                    None
                },
            },
        )
    }
}

proof fn lemma_last_place(a: Seq<char>, b: Seq<char>, c: char)
    requires
        !b.contains(c),
    ensures
        last_place(a.push(c) + b, c) == Some(a.len() as int),
    decreases b.len(),
{
    let all = a.push(c) + b;
    if b.len() == 0 {
        assert(all =~= a.push(c));
    } else {
        assert(all.last() == b[b.len() - 1]);
        assert(all.drop_last() =~= a.push(c) + b.drop_last());
        assert(!b.drop_last().contains(c)) by {
            assert forall|k: int| 0 <= k < b.len() - 1 implies b.drop_last()[k] != c by {
                assert(b[k] != c);
            }
        }
        lemma_last_place(a, b.drop_last(), c);
    }
}

proof fn lemma_no_place(s: Seq<char>, c: char)
    requires
        !s.contains(c),
    ensures
        last_place(s, c) is None,
    decreases s.len(),
{
    if s.len() > 0 {
        assert(s[s.len() - 1] != c);
        assert(!s.drop_last().contains(c)) by {
            assert forall|k: int| 0 <= k < s.len() - 1 implies s.drop_last()[k] != c by {
                assert(s[k] != c);
            }
        }
        lemma_no_place(s.drop_last(), c);
    }
}

/// How a host is reached reads back as its user, its host and its port. A host
/// with a separator in it, or blanks at an end, cannot be told from what
/// stands round it.
pub proof fn a_target_is_read_back(user: Seq<char>, host: Seq<char>, port: u16)
    requires
        host.len() > 0,
        !host.contains('@'),
        !host.contains(':'),
        !text::is_space(host[0]),
        !text::is_space(host.last()),
        user.len() > 0 ==> !text::is_space(user[0]),
    ensures
        target_of(connect_text(user, host, port)) == Some(
            TargetView {
                user: if user.len() > 0 {
                    Some(user)
                } else {
                    None
                },
                host,
                port: if port != DEFAULT_PORT {
                    Some(port)
                } else {
                    None
                },
            },
        ),
{
    let t = connect_text(user, host, port);
    let numeral = text::decimal(port as nat);
    text::lemma_decimal_read_back(port as nat);
    let behind = if port != DEFAULT_PORT {
        seq![':'] + numeral
    } else {
        Seq::empty()
    };
    let rest = host + behind;
    assert(t[0] == (if user.len() > 0 {
        user[0]
    } else {
        host[0]
    }));
    assert(t.last() == (if port != DEFAULT_PORT {
        numeral.last()
    } else {
        host.last()
    }));
    assert(text::trimmed(t) == t);
    assert(!rest.contains('@')) by {
        assert forall|k: int| 0 <= k < rest.len() implies rest[k] != '@' by {
            if k < host.len() {
                assert(rest[k] == host[k]);
            } else if k > host.len() {
                assert(rest[k] == numeral[k - host.len() - 1]);
            }
        }
    }
    if user.len() > 0 {
        assert(t =~= user.push('@') + rest);
        lemma_last_place(user, rest, '@');
        assert(t.take(user.len() as int) =~= user);
        assert(t.skip(user.len() as int + 1) =~= rest);
    } else {
        assert(t =~= rest);
        lemma_no_place(t, '@');
    }
    if port != DEFAULT_PORT {
        assert(!numeral.contains(':')) by {
            assert forall|k: int| 0 <= k < numeral.len() implies numeral[k] != ':' by {}
        }
        assert(rest =~= host.push(':') + numeral);
        lemma_last_place(host, numeral, ':');
        assert(rest.take(host.len() as int) =~= host);
        assert(rest.skip(host.len() as int + 1) =~= numeral);
    } else {
        assert(rest =~= host);
        lemma_no_place(rest, ':');
    }
}

/// Read a typed target.
pub fn parse_quick_connect(s: &str) -> (r: Option<QuickConnect>)
    ensures
        match target_of(s@) {
            Some(t) => r is Some && r->0@ == t,
            None => r is None,
        },
{
    let t = text::trim(s);
    let n: usize = t.len();
    let mut user: Option<Vec<char>> = None;
    let mut rest: Vec<char> = text::part(t.as_slice(), 0, n);
    assert(rest@ =~= t@);
    match find_last(t.as_slice(), '@') {
        Some(i) => {
            user = Some(text::part(t.as_slice(), 0, i));
            rest = text::part(t.as_slice(), i + 1, n);
            assert(user->0@ =~= t@.take(i as int));
            assert(rest@ =~= t@.skip(i + 1));
        },
        None => {},
    }
    let m: usize = rest.len();
    let mut host: Vec<char> = text::part(rest.as_slice(), 0, m);
    assert(host@ =~= rest@);
    let mut port: Option<u16> = None;
    match find_last(rest.as_slice(), ':') {
        Some(i) => {
            host = text::part(rest.as_slice(), 0, i);
            let tail = text::part(rest.as_slice(), i + 1, m);
            assert(host@ =~= rest@.take(i as int));
            assert(tail@ =~= rest@.skip(i + 1));
            match text::parse_u16(tail.as_slice()) {
                Some(p) => {
                    port = Some(p);
                },
                None => {
                    return None;
                },
            }
        },
        None => {},
    }
    if host.len() == 0 {
        return None;
    }
    let host = text::string_of(host.as_slice());
    match user {
        Some(u) => {
            if u.len() == 0 {
                return None;
            }
            Some(QuickConnect { user: Some(text::string_of(u.as_slice())), host, port })
        },
        None => Some(QuickConnect { user: None, host, port }),
    }
}

/// A remembered password.
#[derive(Clone, Debug)]
pub struct PasswordEntry {
    pub user: String,
    pub host: String,
    pub port: u16,
    pub secret: String,
}

/// A key file that can be read, and the account its contents stand for.
#[derive(Clone, Debug)]
pub struct KeyFile {
    pub path: String,
    pub account: String,
}

/// A remembered key passphrase.
#[derive(Clone, Debug)]
pub struct PassphraseEntry {
    pub account: String,
    pub secret: String,
}

/// The credentials at hand for one connect: what the keychain holds, which
/// key files can be read, and where the home directory is.
#[derive(Clone, Debug)]
pub struct InMemoryCredentialStore {
    pub passwords: Vec<PasswordEntry>,
    pub passphrases: Vec<PassphraseEntry>,
    pub key_files: Vec<KeyFile>,
    pub default_identities: Vec<String>,
    pub home: String,
}

/// The password of the first entry for this account.
pub open spec fn password_in(
    entries: Seq<PasswordEntry>,
    user: Seq<char>,
    host: Seq<char>,
    port: u16,
) -> Option<String>
    decreases entries.len(),
{
    if entries.len() == 0 {
        None
    } else {
        match password_in(entries.drop_last(), user, host, port) {
            Some(s) => Some(s),
            None => {
                let e = entries.last();
                if e.user@ == user && e.host@ == host && e.port == port {
                    Some(e.secret)
                } else {
                    None
                }
            },
        }
    }
}

/// The account of the first entry for this path.
pub open spec fn account_in(files: Seq<KeyFile>, path: Seq<char>) -> Option<Seq<char>>
    decreases files.len(),
{
    if files.len() == 0 {
        None
    } else {
        match account_in(files.drop_last(), path) {
            Some(a) => Some(a),
            None => if files.last().path@ == path {
                Some(files.last().account@)
            } else {
                None
            },
        }
    }
}

/// The passphrase of the first entry for this account.
pub open spec fn passphrase_in(entries: Seq<PassphraseEntry>, account: Seq<char>) -> Option<String>
    decreases entries.len(),
{
    if entries.len() == 0 {
        None
    } else {
        match passphrase_in(entries.drop_last(), account) {
            Some(a) => Some(a),
            None => if entries.last().account@ == account {
                Some(entries.last().secret)
            } else {
                None
            },
        }
    }
}

impl InMemoryCredentialStore {
    /// Nothing remembered, no key file readable.
    pub fn new() -> (r: InMemoryCredentialStore)
        ensures
            r.passwords@.len() == 0,
            r.passphrases@.len() == 0,
            r.key_files@.len() == 0,
            r.default_identities@.len() == 0,
            r.home@.len() == 0,
    {
        InMemoryCredentialStore {
            passwords: Vec::new(),
            passphrases: Vec::new(),
            key_files: Vec::new(),
            default_identities: Vec::new(),
            home: String::new(),
        }
    }

    /// The passphrase remembered for the key in this file, if the file can be
    /// read and one is.
    pub open spec fn passphrase_at(&self, path: Seq<char>) -> Option<String> {
        match account_in(self.key_files@, path) {
            Some(account) => passphrase_in(self.passphrases@, account),
            None => None,
        }
    }

    pub open spec fn password(&self, user: Seq<char>, host: Seq<char>, port: u16) -> Option<
        String,
    > {
        password_in(self.passwords@, user, host, port)
    }

    /// Remember a password, in place of one remembered for the same account.
    pub fn set_password(&mut self, user: &str, host: &str, port: u16, secret: &str)
        ensures
            final(self).password(user@, host@, port) is Some,
            final(self).password(user@, host@, port)->0@ == secret@,
            forall|u: Seq<char>, h: Seq<char>, p: u16|
                !(u == user@ && h == host@ && p == port) ==> #[trigger] final(self).password(u, h, p)
                    == old(self).password(u, h, p),
            final(self).passphrases == old(self).passphrases,
            final(self).key_files == old(self).key_files,
            final(self).default_identities == old(self).default_identities,
            final(self).home == old(self).home,
    {
        let entry = PasswordEntry {
            user: user.to_owned(),
            host: host.to_owned(),
            port,
            secret: secret.to_owned(),
        };
        let ghost before = self.passwords@;
        self.passwords.insert(0, entry);
        let ghost after = self.passwords@;
        proof {
            assert(after =~= seq![entry] + before);
            assert forall|u: Seq<char>, h: Seq<char>, p: u16|
                !(u == user@ && h == host@ && p == port) implies #[trigger] password_in(after, u, h, p)
                == password_in(before, u, h, p) by {
                lemma_password_behind(entry, before, u, h, p);
            }
            lemma_password_behind(entry, before, user@, host@, port);
        }
    }

    pub fn password_for(&self, user: &str, host: &str, port: u16) -> (r: Option<String>)
        ensures
            r == self.password(user@, host@, port),
    {
        let mut i: usize = 0;
        assert(self.passwords@.take(0) =~= Seq::<PasswordEntry>::empty());
        while i < self.passwords.len()
            invariant
                i <= self.passwords@.len(),
                password_in(self.passwords@.take(i as int), user@, host@, port) is None,
            decreases self.passwords@.len() - i,
        {
            let e = &self.passwords[i];
            assert(self.passwords@.take(i + 1).drop_last() =~= self.passwords@.take(i as int));
            if e.port == port && text::same(e.user.as_str(), user) && text::same(
                e.host.as_str(),
                host,
            ) {
                let s = e.secret.clone();
                proof {
                    lemma_password_stays(self.passwords@, user@, host@, port, i + 1);
                }
                return Some(s);
            }
            i = i + 1;
        }
        assert(self.passwords@.take(self.passwords@.len() as int) =~= self.passwords@);
        None
    }

    /// The passphrase for the key in this file.
    pub fn passphrase_for_path(&self, path: &str) -> (r: Option<String>)
        ensures
            r == self.passphrase_at(path@),
    {
        let mut i: usize = 0;
        assert(self.key_files@.take(0) =~= Seq::<KeyFile>::empty());
        while i < self.key_files.len()
            invariant
                i <= self.key_files@.len(),
                account_in(self.key_files@.take(i as int), path@) is None,
            decreases self.key_files@.len() - i,
        {
            let f = &self.key_files[i];
            assert(self.key_files@.take(i + 1).drop_last() =~= self.key_files@.take(i as int));
            if text::same(f.path.as_str(), path) {
                proof {
                    lemma_account_stays(self.key_files@, path@, i + 1);
                }
                return self.passphrase_for_key(f.account.as_str());
            }
            i = i + 1;
        }
        assert(self.key_files@.take(self.key_files@.len() as int) =~= self.key_files@);
        None
    }

    fn passphrase_for_key(&self, account: &str) -> (r: Option<String>)
        ensures
            r == passphrase_in(self.passphrases@, account@),
    {
        let mut i: usize = 0;
        assert(self.passphrases@.take(0) =~= Seq::<PassphraseEntry>::empty());
        while i < self.passphrases.len()
            invariant
                i <= self.passphrases@.len(),
                passphrase_in(self.passphrases@.take(i as int), account@) is None,
            decreases self.passphrases@.len() - i,
        {
            let e = &self.passphrases[i];
            assert(self.passphrases@.take(i + 1).drop_last() =~= self.passphrases@.take(i as int));
            if text::same(e.account.as_str(), account) {
                let s = e.secret.clone();
                proof {
                    lemma_passphrase_stays(self.passphrases@, account@, i + 1);
                }
                return Some(s);
            }
            i = i + 1;
        }
        assert(self.passphrases@.take(self.passphrases@.len() as int) =~= self.passphrases@);
        None
    }
}

proof fn lemma_password_stays(
    s: Seq<PasswordEntry>,
    user: Seq<char>,
    host: Seq<char>,
    port: u16,
    i: int,
)
    requires
        0 <= i <= s.len(),
        password_in(s.take(i), user, host, port) is Some,
    ensures
        password_in(s, user, host, port) == password_in(s.take(i), user, host, port),
    decreases s.len() - i,
{
    if i < s.len() {
        assert(s.take(i + 1).drop_last() =~= s.take(i));
        lemma_password_stays(s, user, host, port, i + 1);
    } else {
        assert(s.take(i) =~= s);
    }
}

proof fn lemma_password_behind(
    e: PasswordEntry,
    s: Seq<PasswordEntry>,
    user: Seq<char>,
    host: Seq<char>,
    port: u16,
)
    ensures
        password_in(seq![e] + s, user, host, port) == if e.user@ == user && e.host@ == host
            && e.port == port {
            Some(e.secret)
        } else {
            password_in(s, user, host, port)
        },
    decreases s.len(),
{
    let all = seq![e] + s;
    if s.len() == 0 {
        assert(all.drop_last() =~= s);
        assert(all.last() == e);
    } else {
        assert(all.drop_last() =~= seq![e] + s.drop_last());
        assert(all.last() == s.last());
        lemma_password_behind(e, s.drop_last(), user, host, port);
    }
}

proof fn lemma_account_stays(s: Seq<KeyFile>, path: Seq<char>, i: int)
    requires
        0 <= i <= s.len(),
        account_in(s.take(i), path) is Some,
    ensures
        account_in(s, path) == account_in(s.take(i), path),
    decreases s.len() - i,
{
    if i < s.len() {
        assert(s.take(i + 1).drop_last() =~= s.take(i));
        lemma_account_stays(s, path, i + 1);
    } else {
        assert(s.take(i) =~= s);
    }
}

proof fn lemma_passphrase_stays(s: Seq<PassphraseEntry>, account: Seq<char>, i: int)
    requires
        0 <= i <= s.len(),
        passphrase_in(s.take(i), account) is Some,
    ensures
        passphrase_in(s, account) == passphrase_in(s.take(i), account),
    decreases s.len() - i,
{
    if i < s.len() {
        assert(s.take(i + 1).drop_last() =~= s.take(i));
        lemma_passphrase_stays(s, account, i + 1);
    } else {
        assert(s.take(i) =~= s);
    }
}

/// A remembered password is that of the first entry for this very user, host
/// and port; there is none exactly where no entry is for them.
pub proof fn a_password_is_kept_for_one_account(
    entries: Seq<PasswordEntry>,
    user: Seq<char>,
    host: Seq<char>,
    port: u16,
    k: int,
)
    ensures
        password_in(entries, user, host, port) is None ==> (0 <= k < entries.len() ==> !(
        entries[k].user@ == user && entries[k].host@ == host && entries[k].port == port)),
        0 <= k < entries.len() && entries[k].user@ == user && entries[k].host@ == host
            && entries[k].port == port && (forall|i: int|
            0 <= i < k ==> !((#[trigger] entries[i]).user@ == user && entries[i].host@ == host
                && entries[i].port == port)) ==> password_in(entries, user, host, port) == Some(
            entries[k].secret,
        ),
        (forall|i: int|
            0 <= i < entries.len() ==> !((#[trigger] entries[i]).user@ == user && entries[i].host@
                == host && entries[i].port == port)) ==> password_in(entries, user, host, port)
            is None,
    decreases entries.len(),
{
    if entries.len() > 0 {
        let front = entries.drop_last();
        a_password_is_kept_for_one_account(front, user, host, port, k);
        assert(forall|i: int| 0 <= i < front.len() ==> front[i] == entries[i]);
        assert(entries[entries.len() - 1] == entries.last());
    }
}

/// Only a tilde that stands alone or right before a separator is the home
/// directory; every other path stands as it is.
pub proof fn only_a_leading_tilde_is_home(rest: Seq<char>, home: Seq<char>)
    ensures
        tilde_expanded(seq!['~'], home) == home,
        tilde_expanded(seq!['~', '/'] + rest, home) == home + seq!['/'] + rest,
        rest.len() > 0 && rest[0] != '~' ==> tilde_expanded(rest, home) == rest,
        rest.len() > 1 && rest[1] != '/' ==> tilde_expanded(rest, home) == rest,
        rest.len() == 0 ==> tilde_expanded(rest, home) == rest,
{
    assert(seq!['~'].skip(1) =~= Seq::<char>::empty());
    assert(home + Seq::<char>::empty() =~= home);
    let below = seq!['~', '/'] + rest;
    assert(below.skip(1) =~= seq!['/'] + rest);
    assert(home + (seq!['/'] + rest) =~= home + seq!['/'] + rest);
}

proof fn lemma_last_place_is_last(s: Seq<char>, c: char)
    ensures
        match last_place(s, c) {
            Some(i) => 0 <= i < s.len() && s[i] == c && forall|k: int|
                i < k < s.len() ==> #[trigger] s[k] != c,
            None => forall|k: int| 0 <= k < s.len() ==> #[trigger] s[k] != c,
        },
    decreases s.len(),
{
    if s.len() > 0 && s.last() != c {
        let front = s.drop_last();
        lemma_last_place_is_last(front, c);
        assert(forall|k: int| 0 <= k < front.len() ==> front[k] == s[k]);
    }
}

/// What a target is read as is what was typed: put together again, user, host
/// and port are the typed text but for the blanks around it. The user ends at
/// the last `@`, and neither the user nor the host is empty.
pub proof fn a_target_is_what_was_typed(s: Seq<char>)
    requires
        target_of(s) is Some,
    ensures
        ({
            let t = target_of(s)->0;
            &&& t.host.len() > 0
            &&& !t.host.contains('@')
            &&& t.user is Some ==> t.user->0.len() > 0
            &&& t.user is None <==> !text::trimmed(s).contains('@')
            &&& t.port is None ==> !t.host.contains(':')
            &&& exists|numeral: Seq<char>|
                #![trigger text::numeral_value(numeral)]
                {
                    &&& t.port is Some ==> text::numeral_value(numeral) == Some(t.port->0 as nat)
                    &&& t.port is Some ==> !numeral.contains(':')
                    &&& text::trimmed(s) == (match t.user {
                        Some(u) => u.push('@'),
                        None => Seq::empty(),
                    }) + t.host + (match t.port {
                        Some(_) => seq![':'] + numeral,
                        None => Seq::empty(),
                    })
                }
        }),
{
    let t = text::trimmed(s);
    let target = target_of(s)->0;
    lemma_last_place_is_last(t, '@');
    let rest = match last_place(t, '@') {
        Some(i) => t.skip(i + 1),
        None => t,
    };
    lemma_last_place_is_last(rest, ':');
    let head = match last_place(t, '@') {
        Some(i) => t.take(i).push('@'),
        None => Seq::empty(),
    };
    assert(head + rest =~= t);
    assert(!rest.contains('@')) by {
        if rest.contains('@') {
            let k = choose|k: int| 0 <= k < rest.len() && rest[k] == '@';
            match last_place(t, '@') {
                Some(i) => {
                    assert(t[i + 1 + k] == '@');
                },
                None => {
                    assert(t[k] == '@');
                },
            }
        }
    }
    if last_place(t, '@') is Some {
        assert(t[last_place(t, '@')->0] == '@');
    }
    assert(!target.host.contains('@')) by {
        if target.host.contains('@') {
            let k = choose|k: int| 0 <= k < target.host.len() && target.host[k] == '@';
            assert(rest[k] == '@');
        }
    }
    match last_place(rest, ':') {
        Some(i) => {
            let numeral = rest.skip(i + 1);
            assert(rest =~= target.host + (seq![':'] + numeral));
            assert(t =~= head + target.host + (seq![':'] + numeral));
            assert(text::numeral_value(numeral) == Some(target.port->0 as nat));
            if numeral.contains(':') {
                let k = choose|k: int| 0 <= k < numeral.len() && numeral[k] == ':';
                assert(rest[i + 1 + k] == ':');
            }
        },
        None => {
            let numeral = Seq::<char>::empty();
            assert(text::numeral_value(numeral) is None);
            assert(t =~= head + target.host + Seq::<char>::empty());
        },
    }
}

/// A remembered passphrase is that of the first entry for this very key, and
/// the key is the one that the file holds.
pub proof fn a_passphrase_is_kept_for_one_key(
    entries: Seq<PassphraseEntry>,
    account: Seq<char>,
    files: Seq<KeyFile>,
    path: Seq<char>,
    k: int,
)
    ensures
        0 <= k < entries.len() && entries[k].account@ == account && (forall|i: int|
            0 <= i < k ==> (#[trigger] entries[i]).account@ != account) ==> passphrase_in(
            entries,
            account,
        ) == Some(entries[k].secret),
        (forall|i: int| 0 <= i < entries.len() ==> (#[trigger] entries[i]).account@ != account)
            ==> passphrase_in(entries, account) is None,
        0 <= k < files.len() && files[k].path@ == path && (forall|i: int|
            0 <= i < k ==> (#[trigger] files[i]).path@ != path) ==> account_in(files, path) == Some(
            files[k].account@,
        ),
        (forall|i: int| 0 <= i < files.len() ==> (#[trigger] files[i]).path@ != path) ==> account_in(
            files,
            path,
        ) is None,
    decreases entries.len() + files.len(),
{
    if entries.len() > 0 {
        let front = entries.drop_last();
        a_passphrase_is_kept_for_one_key(front, account, Seq::empty(), path, k);
        assert(forall|i: int| 0 <= i < front.len() ==> front[i] == entries[i]);
        assert(entries[entries.len() - 1] == entries.last());
    }
    if files.len() > 0 {
        let front = files.drop_last();
        a_passphrase_is_kept_for_one_key(Seq::empty(), account, front, path, k);
        assert(forall|i: int| 0 <= i < front.len() ==> front[i] == files[i]);
        assert(files[files.len() - 1] == files.last());
    }
}

/// A host is reached as `user@host:port`: without the user where there is
/// none, and without the port where it is the usual one.
pub proof fn an_address_leaves_out_what_goes_without_saying(
    user: Seq<char>,
    host: Seq<char>,
    port: u16,
)
    ensures
        user.len() == 0 && port == 22 ==> connect_text(user, host, port) == host,
        user.len() > 0 && port == 22 ==> connect_text(user, host, port) == user + seq!['@'] + host,
        user.len() == 0 && port != 22 ==> connect_text(user, host, port) == host + seq![':']
            + text::decimal(port as nat),
        user.len() > 0 && port != 22 ==> connect_text(user, host, port) == user + seq!['@'] + host
            + seq![':'] + text::decimal(port as nat),
{
    let t = connect_text(user, host, port);
    if user.len() == 0 && port == 22 {
        assert(t =~= host);
    } else if port == 22 {
        assert(t =~= user + seq!['@'] + host);
    } else if user.len() == 0 {
        assert(t =~= host + seq![':'] + text::decimal(port as nat));
    } else {
        assert(t =~= user + seq!['@'] + host + seq![':'] + text::decimal(port as nat));
    }
}

/// A typed target without a port is reached at the usual one.
pub proof fn a_target_without_a_port_has_the_usual_one(qc: QuickConnect)
    ensures
        qc.port is None ==> qc.port_value() == 22,
        qc.port is Some ==> qc.port_value() == qc.port->0,
{
}

} // verus!
