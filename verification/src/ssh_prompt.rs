//! The sheets that ask for what only the user can give while a connection is
//! made: a password, a key passphrase, keyboard-interactive answers, or trust
//! in a host key.
//!
//! An unknown host is a neutral question. A changed host key is a warning
//! whose default is to abort: it is trusted only where a confirmation was
//! typed, never on a bare Enter.

use vstd::prelude::*;
use vstd::string::*;
use crate::text;

verus! {

/// One row of a keyboard-interactive prompt, as it arrives.
#[derive(Debug, PartialEq, Eq)]
pub struct KiPrompt {
    pub text: String,
    pub echo: bool,
}

/// A question that a connection asks.
#[derive(Debug)]
pub enum AuthPromptKind {
    Password { user: String, host: String },
    KeyPassphrase { key_path: String, comment: String },
    KeyboardInteractive { name: String, instructions: String, prompts: Vec<KiPrompt> },
    HostKeyUnknown { host: String, port: u16, algorithm: String, fingerprint_sha256: String },
    HostKeyChanged {
        host: String,
        port: u16,
        algorithm: String,
        fingerprint_sha256: String,
        old_fingerprint_sha256: String,
    },
    Banner { text: String },
}

/// The answer to a question.
#[derive(Debug, PartialEq, Eq)]
pub enum AuthResponse {
    Secret(String),
    Secrets(Vec<String>),
    HostKeyDecision { accept: bool, remember: bool },
    Cancelled,
}

/// How far a connection has come.
#[derive(Clone, Copy, Debug, PartialEq, Eq, Structural)]
pub enum SshPhase {
    Resolving,
    Connecting,
    Authenticating,
    Ready,
}

/// One row of a keyboard-interactive sheet.
#[derive(Debug, PartialEq, Eq)]
pub struct KiRow {
    pub text: String,
    /// Whether keystrokes show; a field that hides them is masked.
    pub echo: bool,
}

/// The sheet that is up, and the data it shows.
#[derive(Debug, PartialEq, Eq)]
pub enum PromptModel {
    Password {
        user: String,
        host: String,
        port: u16,
        /// A remembered password was sent and the server refused it.
        rejected: bool,
    },
    KeyPassphrase { key_path: String, comment: String },
    KeyboardInteractive { name: String, instructions: String, prompts: Vec<KiRow> },
    HostKeyUnknown { host: String, port: u16, algorithm: String, fingerprint: String },
    HostKeyChanged {
        host: String,
        port: u16,
        algorithm: String,
        fingerprint: String,
        old_fingerprint: String,
    },
}

/// What to do with the keychain once a secret was given.
#[derive(Debug, PartialEq, Eq)]
pub enum KeychainWrite {
    Keep,
    SetPassword { user: String, host: String, port: u16, secret: String },
    /// Forget the refused password; only where one was refused and the new
    /// one is not to be remembered.
    DeletePassword { user: String, host: String, port: u16 },
    SetKeyPassphrase { key_path: String, secret: String },
}

pub open spec fn row_of(row: KiRow, p: KiPrompt) -> bool {
    row.text == p.text && row.echo == p.echo
}

/// The port of the pane's endpoint, or the usual one.
pub open spec fn endpoint_port(endpoint: Option<(String, u16)>) -> u16 {
    match endpoint {
        Some(e) => e.1,
        None => 22,
    }
}

/// The sheet for a question; a banner asks nothing.
pub open spec fn sheet_for(
    m: Option<PromptModel>,
    kind: AuthPromptKind,
    endpoint: Option<(String, u16)>,
    auto_supplied: bool,
) -> bool {
    match kind {
        AuthPromptKind::Password { user, host } => m == Some(
            PromptModel::Password {
                user,
                host,
                port: endpoint_port(endpoint),
                rejected: auto_supplied,
            },
        ),
        AuthPromptKind::KeyPassphrase { key_path, comment } => m == Some(
            PromptModel::KeyPassphrase { key_path, comment },
        ),
        AuthPromptKind::KeyboardInteractive { name, instructions, prompts } => match m {
            Some(PromptModel::KeyboardInteractive { name: n, instructions: ins, prompts: rows }) => {
                &&& n == name
                &&& ins == instructions
                &&& rows@.len() == prompts@.len()
                &&& forall|i: int|
                    0 <= i < rows@.len() ==> row_of(#[trigger] rows@[i], prompts@[i])
            },
            _ => false,
        },
        AuthPromptKind::HostKeyUnknown { host, port, algorithm, fingerprint_sha256 } => m == Some(
            PromptModel::HostKeyUnknown { host, port, algorithm, fingerprint: fingerprint_sha256 },
        ),
        AuthPromptKind::HostKeyChanged {
            host,
            port,
            algorithm,
            fingerprint_sha256,
            old_fingerprint_sha256,
        } => m == Some(
            PromptModel::HostKeyChanged {
                host,
                port,
                algorithm,
                fingerprint: fingerprint_sha256,
                old_fingerprint: old_fingerprint_sha256,
            },
        ),
        AuthPromptKind::Banner { .. } => m is None,
    }
}

fn rows_of(prompts: &Vec<KiPrompt>) -> (r: Vec<KiRow>)
    ensures
        r@.len() == prompts@.len(),
        forall|i: int| 0 <= i < r@.len() ==> row_of(#[trigger] r@[i], prompts@[i]),
{
    let mut out: Vec<KiRow> = Vec::new();
    let mut i: usize = 0;
    while i < prompts.len()
        invariant
            i <= prompts@.len(),
            out@.len() == i,
            forall|k: int| 0 <= k < i ==> row_of(#[trigger] out@[k], prompts@[k]),
        decreases prompts@.len() - i,
    {
        out.push(KiRow { text: prompts[i].text.clone(), echo: prompts[i].echo });
        i = i + 1;
    }
    out
}

/// How many fields a sheet has.
pub open spec fn field_count(m: PromptModel) -> nat {
    match m {
        PromptModel::Password { .. } => 1,
        PromptModel::KeyPassphrase { .. } => 1,
        PromptModel::KeyboardInteractive { prompts, .. } => prompts@.len(),
        PromptModel::HostKeyUnknown { .. } => 0,
        PromptModel::HostKeyChanged { .. } => 1,
    }
}

/// Which fields hide what is typed: secrets always, the answers that say so,
/// never the confirmation of a changed key.
pub open spec fn field_masks(m: PromptModel) -> Seq<bool> {
    match m {
        PromptModel::Password { .. } => seq![true],
        PromptModel::KeyPassphrase { .. } => seq![true],
        PromptModel::KeyboardInteractive { prompts, .. } => Seq::new(
            prompts@.len(),
            |i: int| !prompts@[i].echo,
        ),
        PromptModel::HostKeyUnknown { .. } => Seq::empty(),
        PromptModel::HostKeyChanged { .. } => seq![false],
    }
}

impl PromptModel {
    /// The sheet for a question, given the pane's endpoint (for the port that
    /// a password question leaves out) and whether a remembered password was
    /// sent by itself.
    pub fn from_prompt(
        kind: AuthPromptKind,
        endpoint: Option<(String, u16)>,
        auto_supplied_password: bool,
    ) -> (r: Option<PromptModel>)
        ensures
            sheet_for(r, kind, endpoint, auto_supplied_password),
            r is None <==> kind is Banner,
    {
        let port: u16 = match &endpoint {
            Some(e) => e.1,
            None => 22,
        };
        match kind {
            AuthPromptKind::Password { user, host } => Some(
                PromptModel::Password { user, host, port, rejected: auto_supplied_password },
            ),
            AuthPromptKind::KeyPassphrase { key_path, comment } => Some(
                PromptModel::KeyPassphrase { key_path, comment },
            ),
            AuthPromptKind::KeyboardInteractive { name, instructions, prompts } => {
                let rows = rows_of(&prompts);
                Some(PromptModel::KeyboardInteractive { name, instructions, prompts: rows })
            },
            AuthPromptKind::HostKeyUnknown { host, port, algorithm, fingerprint_sha256 } => Some(
                PromptModel::HostKeyUnknown {
                    host,
                    port,
                    algorithm,
                    fingerprint: fingerprint_sha256,
                },
            ),
            AuthPromptKind::HostKeyChanged {
                host,
                port,
                algorithm,
                fingerprint_sha256,
                old_fingerprint_sha256,
            } => Some(
                PromptModel::HostKeyChanged {
                    host,
                    port,
                    algorithm,
                    fingerprint: fingerprint_sha256,
                    old_fingerprint: old_fingerprint_sha256,
                },
            ),
            AuthPromptKind::Banner { .. } => None,
        }
    }

    /// How many fields the sheet has.
    pub fn input_count(&self) -> (r: usize)
        ensures
            r == field_count(*self),
            *self is Password || *self is KeyPassphrase || *self is HostKeyChanged ==> r == 1,
            *self is HostKeyUnknown ==> r == 0,
            *self is KeyboardInteractive ==> r == self->prompts@.len(),
    {
        match self {
            PromptModel::Password { .. } | PromptModel::KeyPassphrase { .. } => 1,
            PromptModel::KeyboardInteractive { prompts, .. } => prompts.len(),
            PromptModel::HostKeyUnknown { .. } => 0,
            PromptModel::HostKeyChanged { .. } => 1,
        }
    }
}

/// The fields of a sheet: for each, whether it hides what is typed.
pub fn build_inputs(model: &PromptModel) -> (r: Vec<bool>)
    ensures
        r@ == field_masks(*model),
        r@.len() == field_count(*model),
        *model is Password || *model is KeyPassphrase ==> r@.len() == 1 && r@[0],
        *model is HostKeyChanged ==> r@.len() == 1 && !r@[0],
        *model is KeyboardInteractive ==> r@.len() == model->prompts@.len() && forall|i: int|
            0 <= i < r@.len() ==> #[trigger] r@[i] == !model->prompts@[i].echo,
{
    let count: usize = model.input_count();
    let mut out: Vec<bool> = Vec::new();
    let mut i: usize = 0;
    while i < count
        invariant
            i <= count == field_count(*model),
            out@ == field_masks(*model).take(i as int),
            field_masks(*model).len() == count,
        decreases count - i,
    {
        let masked = match model {
            PromptModel::Password { .. } | PromptModel::KeyPassphrase { .. } => true,
            PromptModel::KeyboardInteractive { prompts, .. } => !prompts[i].echo,
            PromptModel::HostKeyUnknown { .. } | PromptModel::HostKeyChanged { .. } => false,
        };
        out.push(masked);
        i = i + 1;
    }
    assert(out@ =~= field_masks(*model));
    out
}

/// Answer a password question: the secret goes out; it replaces the
/// remembered one where it is to be remembered; otherwise a refused one is
/// forgotten, and the keychain is left alone in every other case.
pub fn password_submit(
    user: &str,
    host: &str,
    port: u16,
    secret: String,
    remember: bool,
    rejected: bool,
) -> (r: (AuthResponse, KeychainWrite))
    ensures
        r.0 == AuthResponse::Secret(secret),
        match r.1 {
            KeychainWrite::SetPassword { user: u, host: h, port: p, secret: s } => {
                remember && u@ == user@ && h@ == host@ && p == port && s == secret
            },
            KeychainWrite::DeletePassword { user: u, host: h, port: p } => {
                !remember && rejected && u@ == user@ && h@ == host@ && p == port
            },
            KeychainWrite::Keep => !remember && !rejected,
            KeychainWrite::SetKeyPassphrase { .. } => false,
        },
{
    let write = if remember {
        KeychainWrite::SetPassword {
            user: user.to_owned(),
            host: host.to_owned(),
            port,
            secret: secret.clone(),
        }
    } else if rejected {
        KeychainWrite::DeletePassword { user: user.to_owned(), host: host.to_owned(), port }
    } else {
        KeychainWrite::Keep
    };
    (AuthResponse::Secret(secret), write)
}

/// Answer a passphrase question; it is remembered for the key's contents.
pub fn passphrase_submit(key_path: &str, secret: String, remember: bool) -> (r: (
    AuthResponse,
    KeychainWrite,
))
    ensures
        r.0 == AuthResponse::Secret(secret),
        match r.1 {
            KeychainWrite::SetKeyPassphrase { key_path: k, secret: s } => {
                remember && k@ == key_path@ && s == secret
            },
            KeychainWrite::Keep => !remember,
            _ => false,
        },
{
    let write = if remember {
        KeychainWrite::SetKeyPassphrase { key_path: key_path.to_owned(), secret: secret.clone() }
    } else {
        KeychainWrite::Keep
    };
    (AuthResponse::Secret(secret), write)
}

/// Answer keyboard-interactive prompts: all answers, in order.
pub fn ki_submit(answers: Vec<String>) -> (r: AuthResponse)
    ensures
        r == AuthResponse::Secrets(answers),
{
    AuthResponse::Secrets(answers)
}

pub open spec fn decision(accept: bool) -> AuthResponse {
    AuthResponse::HostKeyDecision { accept, remember: accept }
}

/// An unknown host is accepted and remembered, or neither.
pub fn host_key_unknown_decision(trust: bool) -> (r: AuthResponse)
    ensures
        r == decision(trust),
        r is HostKeyDecision && r->accept == trust && r->remember == trust,
{
    AuthResponse::HostKeyDecision { accept: trust, remember: trust }
}

/// Whether the confirmation of a changed key was typed: `yes`, in any case,
/// with nothing but white space around it.
pub open spec fn confirms(typed: Seq<char>) -> bool {
    text::same_but_ascii_case(text::trimmed(typed), seq!['y', 'e', 's'])
}

pub fn changed_confirmed(typed: &str) -> (r: bool)
    ensures
        r == confirms(typed@),
{
    let t = text::trim(typed);
    let mut yes: Vec<char> = Vec::new();
    yes.push('y');
    yes.push('e');
    yes.push('s');
    assert(yes@ =~= seq!['y', 'e', 's']);
    text::eq_ignore_ascii_case(t.as_slice(), yes.as_slice())
}

/// A changed key is trusted only where the confirmation was typed.
pub fn host_key_changed_decision(typed: &str) -> (r: AuthResponse)
    ensures
        r == decision(confirms(typed@)),
{
    if changed_confirmed(typed) {
        AuthResponse::HostKeyDecision { accept: true, remember: true }
    } else {
        AuthResponse::HostKeyDecision { accept: false, remember: false }
    }
}

/// A changed host key is never trusted without the typed confirmation: not on
/// an empty field, and not on anything that does not read `yes`.
pub proof fn changed_key_needs_a_typed_yes(typed: Seq<char>)
    requires
        confirms(typed),
    ensures
        text::trimmed(typed).len() == 3,
        typed.len() >= 3,
{
    lemma_trimmed_is_no_longer(typed);
}

proof fn lemma_trimmed_is_no_longer(s: Seq<char>)
    ensures
        text::trimmed(s).len() <= s.len(),
{
    lemma_trimmed_start_is_no_longer(s);
    lemma_trimmed_end_is_no_longer(text::trimmed_start(s));
}

proof fn lemma_trimmed_start_is_no_longer(s: Seq<char>)
    ensures
        text::trimmed_start(s).len() <= s.len(),
    decreases s.len(),
{
    if s.len() > 0 && text::is_space(s[0]) {
        lemma_trimmed_start_is_no_longer(s.skip(1));
    }
}

proof fn lemma_trimmed_end_is_no_longer(s: Seq<char>)
    ensures
        text::trimmed_end(s).len() <= s.len(),
    decreases s.len(),
{
    if s.len() > 0 && text::is_space(s.last()) {
        lemma_trimmed_end_is_no_longer(s.drop_last());
    }
}

/// A question waiting on a pane.
#[derive(Debug)]
pub struct QueuedPrompt {
    pub request_id: u64,
    pub kind: AuthPromptKind,
}

/// What a pane has to say while it connects.
#[derive(Debug)]
pub struct PaneAuth {
    pub pane_id: u64,
    pub queue: Vec<QueuedPrompt>,
    pub endpoint: Option<(String, u16)>,
    pub auto_supplied_password: bool,
    pub phase: Option<SshPhase>,
}

/// Where the first question of a queue stands, banners being none.
pub open spec fn first_question(q: Seq<QueuedPrompt>) -> int
    decreases q.len(),
{
    if q.len() == 0 || !(q[0].kind is Banner) {
        0
    } else {
        1 + first_question(q.skip(1))
    }
}

/// The banners of a queue, in order.
pub open spec fn banner_texts(q: Seq<QueuedPrompt>) -> Seq<String>
    decreases q.len(),
{
    if q.len() == 0 {
        Seq::empty()
    } else {
        match q.last().kind {
            AuthPromptKind::Banner { text } => banner_texts(q.drop_last()).push(text),
            _ => banner_texts(q.drop_last()),
        }
    }
}

/// The questions of a queue, in order.
pub open spec fn questions(q: Seq<QueuedPrompt>) -> Seq<QueuedPrompt>
    decreases q.len(),
{
    if q.len() == 0 {
        Seq::empty()
    } else if q.last().kind is Banner {
        questions(q.drop_last())
    } else {
        questions(q.drop_last()).push(q.last())
    }
}

proof fn lemma_questions_behind(a: QueuedPrompt, q: Seq<QueuedPrompt>)
    ensures
        questions(seq![a] + q) == if a.kind is Banner {
            questions(q)
        } else {
            seq![a] + questions(q)
        },
    decreases q.len(),
{
    let all = seq![a] + q;
    if q.len() == 0 {
        assert(all.drop_last() =~= q);
        assert(all.last() == a);
        assert(questions(all) =~= if a.kind is Banner {
            questions(q)
        } else {
            seq![a] + questions(q)
        });
    } else {
        assert(all.drop_last() =~= seq![a] + q.drop_last());
        assert(all.last() == q.last());
        lemma_questions_behind(a, q.drop_last());
        assert(questions(all) =~= if a.kind is Banner {
            questions(q)
        } else {
            seq![a] + questions(q)
        });
    }
}

proof fn lemma_first_question(q: Seq<QueuedPrompt>)
    ensures
        0 <= first_question(q) <= q.len(),
        forall|i: int| 0 <= i < first_question(q) ==> (#[trigger] q[i]).kind is Banner,
        first_question(q) < q.len() ==> !(q[first_question(q)].kind is Banner),
        questions(q) == if first_question(q) < q.len() {
            seq![q[first_question(q)]] + questions(q.skip(first_question(q) + 1))
        } else {
            Seq::empty()
        },
    decreases q.len(),
{
    if q.len() > 0 {
        assert(q =~= seq![q[0]] + q.skip(1));
        lemma_questions_behind(q[0], q.skip(1));
        if q[0].kind is Banner {
            let rest = q.skip(1);
            lemma_first_question(rest);
            assert forall|i: int| 0 <= i < first_question(q) implies (#[trigger] q[i]).kind
                is Banner by {
                if i > 0 {
                    assert(rest[i - 1] == q[i]);
                }
            }
            if first_question(rest) < rest.len() {
                assert(rest.skip(first_question(rest) + 1) =~= q.skip(first_question(q) + 1));
            }
        }
    }
}

impl PaneAuth {
    /// Take the next entry of the queue.
    fn take_auth_prompt(&mut self) -> (r: Option<QueuedPrompt>)
        ensures
            final(self).same_but_queue(*old(self)),
            old(self).queue@.len() == 0 ==> r is None && final(self).queue == old(self).queue,
            old(self).queue@.len() > 0 ==> r == Some(old(self).queue@[0]) && final(self).queue@
                == old(self).queue@.skip(1),
    {
        if self.queue.len() == 0 {
            None
        } else {
            let p = self.queue.remove(0);
            assert(self.queue@ =~= old(self).queue@.skip(1));
            Some(p)
        }
    }

    pub open spec fn same_but_queue(&self, other: PaneAuth) -> bool {
        &&& self.pane_id == other.pane_id
        &&& self.endpoint == other.endpoint
        &&& self.auto_supplied_password == other.auto_supplied_password
        &&& self.phase == other.phase
    }

    fn endpoint_copy(&self) -> (r: Option<(String, u16)>)
        ensures
            r == self.endpoint,
    {
        match &self.endpoint {
            Some(e) => Some((e.0.clone(), e.1)),
            None => None,
        }
    }
}

/// The sheet that is up, the banners beside it, and whom the answer goes to.
/// One sheet at a time; further questions wait on the panes that ask them.
#[derive(Debug)]
pub struct SshPromptState {
    /// The pane that asked.
    pub pane_id: Option<u64>,
    pub request_id: u64,
    pub model: Option<PromptModel>,
    pub banners: Vec<String>,
    /// For each field of the sheet, whether it hides what is typed.
    pub inputs: Vec<bool>,
    pub remember: bool,
    pub phase: Option<SshPhase>,
}

/// What goes back to a pane, and what the keychain is to do.
#[derive(Debug)]
pub struct PromptReply {
    pub pane_id: Option<u64>,
    pub request_id: u64,
    pub response: AuthResponse,
    pub write: KeychainWrite,
}

/// A step that hands a pane's queue to the sheet. With no sheet up, the
/// banners before the first question are shown and that question is asked;
/// with one up, every banner is shown and every question stays queued.
pub open spec fn pulls(s0: SshPromptState, p0: PaneAuth, s1: SshPromptState, p1: PaneAuth) -> bool {
    let q = p0.queue@;
    let k = first_question(q);
    &&& p1.same_but_queue(p0)
    &&& s1.phase == if p0.phase is Some {
        p0.phase
    } else {
        s0.phase
    }
    &&& if s0.model is None {
        &&& s1.banners@ == s0.banners@ + banner_texts(q.take(k))
        &&& if k < q.len() {
            &&& p1.queue@ == q.skip(k + 1)
            &&& s1.pane_id == Some(p0.pane_id)
            &&& s1.request_id == q[k].request_id
            &&& s1.model is Some
            &&& sheet_for(s1.model, q[k].kind, p0.endpoint, p0.auto_supplied_password)
            &&& s1.inputs@ == field_masks(s1.model->0)
            &&& !s1.remember
        } else {
            &&& p1.queue@.len() == 0
            &&& s1.same_sheet(s0)
        }
    } else {
        &&& s1.banners@ == s0.banners@ + banner_texts(q)
        &&& p1.queue@ == questions(q)
        &&& s1.same_sheet(s0)
    }
}

/// No question gets lost when a pane's queue is handed over: it is the sheet
/// that went up, or it is still queued, in the same order.
pub proof fn no_question_is_lost(
    s0: SshPromptState,
    p0: PaneAuth,
    s1: SshPromptState,
    p1: PaneAuth,
)
    requires
        pulls(s0, p0, s1, p1),
    ensures
        s0.model is Some ==> questions(p1.queue@) == questions(p0.queue@) && s1.model == s0.model,
        s0.model is None && s1.model is None ==> questions(p0.queue@).len() == 0,
        s0.model is None && s1.model is Some ==> {
            &&& questions(p0.queue@).len() > 0
            &&& questions(p0.queue@)[0].request_id == s1.request_id
            &&& questions(p1.queue@) == questions(p0.queue@).skip(1)
        },
{
    let q = p0.queue@;
    lemma_first_question(q);
    if s0.model is Some {
        lemma_questions_of_questions(q);
    } else if first_question(q) < q.len() {
        assert(questions(q).skip(1) =~= questions(q.skip(first_question(q) + 1)));
    }
}

proof fn lemma_questions_of_questions(q: Seq<QueuedPrompt>)
    ensures
        questions(questions(q)) == questions(q),
    decreases q.len(),
{
    if q.len() > 0 {
        lemma_questions_of_questions(q.drop_last());
        if !(q.last().kind is Banner) {
            assert(questions(q).drop_last() =~= questions(q.drop_last()));
        }
    }
}

/// The response and the keychain's part for a sheet that was submitted.
pub open spec fn answers(
    m: PromptModel,
    values: Seq<String>,
    remember: bool,
    response: AuthResponse,
    write: KeychainWrite,
) -> bool {
    let first = if values.len() > 0 {
        values[0]@
    } else {
        Seq::empty()
    };
    match m {
        PromptModel::Password { user, host, port, rejected } => {
            &&& response matches AuthResponse::Secret(s) && s@ == first
            &&& match write {
                KeychainWrite::SetPassword { user: u, host: h, port: p, secret: s } => {
                    remember && u@ == user@ && h@ == host@ && p == port && s@ == first
                },
                KeychainWrite::DeletePassword { user: u, host: h, port: p } => {
                    !remember && rejected && u@ == user@ && h@ == host@ && p == port
                },
                KeychainWrite::Keep => !remember && !rejected,
                KeychainWrite::SetKeyPassphrase { .. } => false,
            }
        },
        PromptModel::KeyPassphrase { key_path, .. } => {
            &&& response matches AuthResponse::Secret(s) && s@ == first
            &&& match write {
                KeychainWrite::SetKeyPassphrase { key_path: k, secret: s } => {
                    remember && k@ == key_path@ && s@ == first
                },
                KeychainWrite::Keep => !remember,
                _ => false,
            }
        },
        PromptModel::KeyboardInteractive { .. } => {
            &&& response matches AuthResponse::Secrets(v) && v@ == values
            &&& write == KeychainWrite::Keep
        },
        PromptModel::HostKeyUnknown { .. } => {
            &&& response == decision(true)
            &&& write == KeychainWrite::Keep
        },
        PromptModel::HostKeyChanged { .. } => {
            &&& response == decision(confirms(first))
            &&& write == KeychainWrite::Keep
        },
    }
}

/// The response for a sheet that was called off.
pub open spec fn refusal(m: PromptModel) -> AuthResponse {
    match m {
        PromptModel::HostKeyUnknown { .. } => decision(false),
        PromptModel::HostKeyChanged { .. } => decision(false),
        _ => AuthResponse::Cancelled,
    }
}

/// A remembered password is forgotten only where the server refused it and
/// the new one is not to be remembered.
pub proof fn only_a_refused_password_is_forgotten(
    m: PromptModel,
    values: Seq<String>,
    remember: bool,
    response: AuthResponse,
    write: KeychainWrite,
)
    requires
        answers(m, values, remember, response, write),
        write is DeletePassword,
    ensures
        !remember,
        m is Password,
        m->rejected,
{
}

/// Whatever becomes of the sheet of a changed host key, the key is accepted
/// only on a submit whose field confirms it, and calling it off refuses it.
pub proof fn a_changed_key_is_never_taken_by_default(
    m: PromptModel,
    values: Seq<String>,
    remember: bool,
    response: AuthResponse,
    write: KeychainWrite,
)
    requires
        m is HostKeyChanged,
        answers(m, values, remember, response, write),
    ensures
        response->accept ==> values.len() > 0 && confirms(values[0]@),
        refusal(m) == decision(false),
{
    if values.len() == 0 {
        assert(!confirms(Seq::<char>::empty())) by {
            lemma_trimmed_is_no_longer(Seq::<char>::empty());
        }
    }
}

impl SshPromptState {
    pub fn new() -> (r: SshPromptState)
        ensures
            r.pane_id is None,
            r.model is None,
            r.request_id == 0,
            r.banners@.len() == 0,
            r.inputs@.len() == 0,
            !r.remember,
            r.phase is None,
            r.wf(),
    {
        SshPromptState {
            pane_id: None,
            request_id: 0,
            model: None,
            banners: Vec::new(),
            inputs: Vec::new(),
            remember: false,
            phase: None,
        }
    }

    /// A sheet that is up has a pane to answer to and its own fields.
    pub open spec fn wf(&self) -> bool {
        match self.model {
            Some(m) => self.pane_id is Some && self.inputs@ == field_masks(m),
            None => true,
        }
    }

    pub open spec fn same_sheet(&self, other: SshPromptState) -> bool {
        &&& self.pane_id == other.pane_id
        &&& self.request_id == other.request_id
        &&& self.model == other.model
        &&& self.inputs == other.inputs
        &&& self.remember == other.remember
    }

    /// No sheet up, the banners and the phase as they were.
    pub open spec fn cleared(&self, before: SshPromptState) -> bool {
        &&& self.pane_id is None
        &&& self.request_id == 0
        &&& self.model is None
        &&& self.inputs@.len() == 0
        &&& !self.remember
        &&& self.banners == before.banners
        &&& self.phase == before.phase
    }

    /// Take the sheet down.
    pub fn clear(&mut self)
        ensures
            final(self).cleared(*old(self)),
    {
        self.pane_id = None;
        self.request_id = 0;
        self.model = None;
        self.inputs = Vec::new();
        self.remember = false;
    }

    /// Hand over what a pane has queued.
    pub fn on_auth_prompt_ready(&mut self, pane: &mut PaneAuth)
        requires
            old(self).wf(),
        ensures
            final(self).wf(),
            pulls(*old(self), *old(pane), *final(self), *final(pane)),
    {
        let ghost s0 = *self;
        let ghost p0 = *pane;
        let ghost q = pane.queue@;
        if pane.phase.is_some() {
            self.phase = pane.phase;
        }
        if self.model.is_none() {
            let ghost mut n: int = 0;
            proof {
                lemma_first_question(q);
                assert(q.skip(0) =~= q);
                assert(s0.banners@ + banner_texts(q.take(0)) =~= s0.banners@);
            }
            loop
                invariant
                    s0 == *old(self),
                    p0 == *old(pane),
                    s0.wf(),
                    s0.model is None,
                    self.same_sheet(s0),
                    self.phase == (if p0.phase is Some {
                        p0.phase
                    } else {
                        s0.phase
                    }),
                    pane.same_but_queue(p0),
                    p0.queue@ == q,
                    0 <= n <= first_question(q) <= q.len(),
                    first_question(q) == first_question(p0.queue@),
                    forall|i: int| 0 <= i < first_question(q) ==> (#[trigger] q[i]).kind is Banner,
                    first_question(q) < q.len() ==> !(q[first_question(q)].kind is Banner),
                    pane.queue@ == q.skip(n),
                    self.banners@ == s0.banners@ + banner_texts(q.take(n)),
                decreases q.len() - n,
            {
                match pane.take_auth_prompt() {
                    Some(p) => {
                        assert(p == q[n]);
                        assert(q.skip(n).skip(1) =~= q.skip(n + 1));
                        match p.kind {
                            AuthPromptKind::Banner { text } => {
                                proof {
                                    assert(q.take(n + 1).drop_last() =~= q.take(n));
                                }
                                self.banners.push(text);
                                proof {
                                    assert(self.banners@ =~= s0.banners@ + banner_texts(
                                        q.take(n + 1),
                                    ));
                                    n = n + 1;
                                }
                            },
                            kind => {
                                let endpoint = pane.endpoint_copy();
                                let model = PromptModel::from_prompt(
                                    kind,
                                    endpoint,
                                    pane.auto_supplied_password,
                                );
                                match model {
                                    Some(m) => {
                                        self.inputs = build_inputs(&m);
                                        self.model = Some(m);
                                        self.pane_id = Some(pane.pane_id);
                                        self.request_id = p.request_id;
                                        self.remember = false;
                                    },
                                    None => {},
                                }
                                return;
                            },
                        }
                    },
                    None => {
                        return;
                    },
                }
            }
        } else {
            let mut kept: Vec<QueuedPrompt> = Vec::new();
            let ghost mut n: int = 0;
            proof {
                assert(q.skip(0) =~= q);
                assert(s0.banners@ + banner_texts(q.take(0)) =~= s0.banners@);
            }
            while pane.queue.len() > 0
                invariant
                    s0.model is Some,
                    self.same_sheet(s0),
                    self.phase == (if p0.phase is Some {
                        p0.phase
                    } else {
                        s0.phase
                    }),
                    pane.same_but_queue(p0),
                    p0.queue@ == q,
                    0 <= n <= q.len(),
                    pane.queue@ == q.skip(n),
                    kept@ == questions(q.take(n)),
                    self.banners@ == s0.banners@ + banner_texts(q.take(n)),
                decreases q.len() - n,
            {
                let p = pane.queue.remove(0);
                proof {
                    assert(p == q[n]);
                    assert(pane.queue@ =~= q.skip(n + 1));
                    assert(q.take(n + 1).drop_last() =~= q.take(n));
                }
                match p.kind {
                    AuthPromptKind::Banner { text } => {
                        self.banners.push(text);
                        proof {
                            assert(self.banners@ =~= s0.banners@ + banner_texts(q.take(n + 1)));
                        }
                    },
                    kind => {
                        kept.push(QueuedPrompt { request_id: p.request_id, kind });
                    },
                }
                proof {
                    n = n + 1;
                }
            }
            assert(q.take(q.len() as int) =~= q);
            pane.queue = kept;
        }
    }
}

/// The place of the first pane with this identifier.
pub open spec fn place_of_pane(panes: Seq<PaneAuth>, id: u64) -> Option<int>
    decreases panes.len(),
{
    if panes.len() == 0 {
        None
    } else {
        match place_of_pane(panes.drop_last(), id) {
            Some(i) => Some(i),
            None => if panes.last().pane_id == id {
                Some(panes.len() - 1)
            } else {
                None
            },
        }
    }
}

/// The place of the first pane that has something queued.
pub open spec fn first_waiting(panes: Seq<PaneAuth>) -> Option<int>
    decreases panes.len(),
{
    if panes.len() == 0 {
        None
    } else {
        match first_waiting(panes.drop_last()) {
            Some(i) => Some(i),
            None => if panes.last().queue@.len() > 0 {
                Some(panes.len() - 1)
            } else {
                None
            },
        }
    }
}

fn find_pane(panes: &Vec<PaneAuth>, id: u64) -> (r: Option<usize>)
    ensures
        match place_of_pane(panes@, id) {
            Some(i) => r is Some && r->0 == i && 0 <= i < panes@.len(),
            None => r is None,
        },
{
    let mut i: usize = 0;
    let mut found: Option<usize> = None;
    assert(panes@.take(0) =~= Seq::<PaneAuth>::empty());
    while i < panes.len()
        invariant
            i <= panes@.len(),
            match place_of_pane(panes@.take(i as int), id) {
                Some(k) => found is Some && found->0 == k && 0 <= k < i,
                None => found is None,
            },
        decreases panes@.len() - i,
    {
        assert(panes@.take(i + 1).drop_last() =~= panes@.take(i as int));
        if found.is_none() && panes[i].pane_id == id {
            found = Some(i);
        }
        i = i + 1;
    }
    assert(panes@.take(panes@.len() as int) =~= panes@);
    found
}

fn find_waiting(panes: &Vec<PaneAuth>) -> (r: Option<usize>)
    ensures
        match first_waiting(panes@) {
            Some(i) => r is Some && r->0 == i && 0 <= i < panes@.len() && panes@[i].queue@.len() > 0,
            None => r is None,
        },
{
    let mut i: usize = 0;
    let mut found: Option<usize> = None;
    assert(panes@.take(0) =~= Seq::<PaneAuth>::empty());
    while i < panes.len()
        invariant
            i <= panes@.len(),
            match first_waiting(panes@.take(i as int)) {
                Some(k) => found is Some && found->0 == k && 0 <= k < i && panes@[k].queue@.len() > 0,
                None => found is None,
            },
        decreases panes@.len() - i,
    {
        assert(panes@.take(i + 1).drop_last() =~= panes@.take(i as int));
        if found.is_none() && panes[i].queue.len() > 0 {
            found = Some(i);
        }
        i = i + 1;
    }
    assert(panes@.take(panes@.len() as int) =~= panes@);
    found
}

/// A step that hands over the queue of the pane at `at`, if there is one.
pub open spec fn pulls_at(
    s0: SshPromptState,
    panes0: Seq<PaneAuth>,
    at: Option<int>,
    s1: SshPromptState,
    panes1: Seq<PaneAuth>,
) -> bool {
    match at {
        Some(i) => {
            &&& panes1.len() == panes0.len()
            &&& pulls(s0, panes0[i], s1, panes1[i])
            &&& panes1 == panes0.update(i, panes1[i])
        },
        None => s1 == s0 && panes1 == panes0,
    }
}

/// What follows an answer: the sheet comes down, then the pane that asked may
/// ask again, and only if it does not, the first other pane that waits may.
pub open spec fn advances(
    s0: SshPromptState,
    panes0: Seq<PaneAuth>,
    s1: SshPromptState,
    panes1: Seq<PaneAuth>,
) -> bool {
    exists|down: SshPromptState, mid: SshPromptState, panes: Seq<PaneAuth>|
        #![trigger down.cleared(s0), asks_others(mid, panes, s1, panes1)]
        {
            &&& down.cleared(s0)
            &&& pulls_at(
                down,
                panes0,
                match s0.pane_id {
                    Some(id) => place_of_pane(panes0, id),
                    None => None,
                },
                mid,
                panes,
            )
            &&& asks_others(mid, panes, s1, panes1)
        }
}

/// The first pane that waits may ask, unless a sheet is up.
pub open spec fn asks_others(
    s0: SshPromptState,
    panes0: Seq<PaneAuth>,
    s1: SshPromptState,
    panes1: Seq<PaneAuth>,
) -> bool {
    if s0.model is None {
        pulls_at(s0, panes0, first_waiting(panes0), s1, panes1)
    } else {
        s1 == s0 && panes1 == panes0
    }
}

impl SshPromptState {
    /// Hand over the queue of the pane at `at`.
    fn pull(&mut self, panes: &mut Vec<PaneAuth>, at: Option<usize>)
        requires
            old(self).wf(),
            at is Some ==> at->0 < old(panes)@.len(),
        ensures
            final(self).wf(),
            pulls_at(
                *old(self),
                old(panes)@,
                match at {
                    Some(i) => Some(i as int),
                    None => None,
                },
                *final(self),
                final(panes)@,
            ),
    {
        if let Some(i) = at {
            let ghost before = panes@;
            self.on_auth_prompt_ready(&mut panes[i]);
            assert(panes@ =~= before.update(i as int, panes@[i as int]));
        }
    }

    /// Take the sheet down and ask what is asked next.
    pub fn dismiss_and_advance(&mut self, panes: &mut Vec<PaneAuth>)
        requires
            old(self).wf(),
        ensures
            final(self).wf(),
            advances(*old(self), old(panes)@, *final(self), final(panes)@),
    {
        let asked = self.pane_id;
        let ghost s0 = *self;
        let ghost panes0 = panes@;
        self.clear();
        let ghost down = *self;
        let own = match asked {
            Some(id) => find_pane(panes, id),
            None => None,
        };
        self.pull(panes, own);
        let ghost mid = *self;
        let ghost panes1 = panes@;
        assert(down.cleared(s0));
        if self.model.is_none() {
            let next = find_waiting(panes);
            self.pull(panes, next);
        }
        assert(asks_others(mid, panes1, *self, panes@));
    }

    /// Answer the sheet with what its fields hold.
    pub fn submit_ssh_prompt(&mut self, values: Vec<String>, panes: &mut Vec<PaneAuth>) -> (r:
        Option<PromptReply>)
        requires
            old(self).wf(),
        ensures
            final(self).wf(),
            match old(self).model {
                Some(m) => {
                    &&& r is Some
                    &&& r->0.pane_id == old(self).pane_id
                    &&& r->0.request_id == old(self).request_id
                    &&& answers(m, values@, old(self).remember, r->0.response, r->0.write)
                    &&& advances(*old(self), old(panes)@, *final(self), final(panes)@)
                },
                None => r is None && *final(self) == *old(self) && final(panes)@ == old(panes)@,
            },
    {
        let remember = self.remember;
        let pair = match &self.model {
            Some(model) => {
                match model {
                    PromptModel::Password { user, host, port, rejected } => {
                        let secret = first_or_empty(&values);
                        password_submit(
                            user.as_str(),
                            host.as_str(),
                            *port,
                            secret,
                            remember,
                            *rejected,
                        )
                    },
                    PromptModel::KeyPassphrase { key_path, .. } => {
                        let secret = first_or_empty(&values);
                        passphrase_submit(key_path.as_str(), secret, remember)
                    },
                    PromptModel::KeyboardInteractive { .. } => (
                        ki_submit(values),
                        KeychainWrite::Keep,
                    ),
                    PromptModel::HostKeyUnknown { .. } => (
                        host_key_unknown_decision(true),
                        KeychainWrite::Keep,
                    ),
                    PromptModel::HostKeyChanged { .. } => {
                        let typed = first_or_empty(&values);
                        (host_key_changed_decision(typed.as_str()), KeychainWrite::Keep)
                    },
                }
            },
            None => {
                return None;
            },
        };
        let reply = PromptReply {
            pane_id: self.pane_id,
            request_id: self.request_id,
            response: pair.0,
            write: pair.1,
        };
        self.dismiss_and_advance(panes);
        Some(reply)
    }

    /// Call the sheet off: a host key is refused, anything else cancelled.
    pub fn cancel_ssh_prompt(&mut self, panes: &mut Vec<PaneAuth>) -> (r: Option<PromptReply>)
        requires
            old(self).wf(),
        ensures
            final(self).wf(),
            match old(self).model {
                Some(m) => {
                    &&& r is Some
                    &&& r->0.pane_id == old(self).pane_id
                    &&& r->0.request_id == old(self).request_id
                    &&& r->0.response == refusal(m)
                    &&& r->0.write == KeychainWrite::Keep
                    &&& advances(*old(self), old(panes)@, *final(self), final(panes)@)
                },
                None => r is None && *final(self) == *old(self) && final(panes)@ == old(panes)@,
            },
    {
        let response = match &self.model {
            Some(model) => match model {
                PromptModel::HostKeyUnknown { .. } => host_key_unknown_decision(false),
                PromptModel::HostKeyChanged { .. } => AuthResponse::HostKeyDecision {
                    accept: false,
                    remember: false,
                },
                _ => AuthResponse::Cancelled,
            },
            None => {
                return None;
            },
        };
        let reply = PromptReply {
            pane_id: self.pane_id,
            request_id: self.request_id,
            response,
            write: KeychainWrite::Keep,
        };
        self.dismiss_and_advance(panes);
        Some(reply)
    }

    /// Trust the unknown host that the sheet shows.
    pub fn trust_ssh_host_key(&mut self, panes: &mut Vec<PaneAuth>) -> (r: PromptReply)
        requires
            old(self).wf(),
        ensures
            final(self).wf(),
            r.pane_id == old(self).pane_id,
            r.request_id == old(self).request_id,
            r.response == decision(true),
            r.write == KeychainWrite::Keep,
            advances(*old(self), old(panes)@, *final(self), final(panes)@),
    {
        let reply = PromptReply {
            pane_id: self.pane_id,
            request_id: self.request_id,
            response: host_key_unknown_decision(true),
            write: KeychainWrite::Keep,
        };
        self.dismiss_and_advance(panes);
        reply
    }

    /// Switch between remembering the secret and not.
    pub fn toggle_ssh_remember(&mut self)
        ensures
            *final(self) == (SshPromptState { remember: !old(self).remember, ..*old(self) }),
    {
        self.remember = !self.remember;
    }

    /// Show a failed connect as a banner.
    pub fn push_ssh_connect_error(&mut self, reason: String)
        ensures
            final(self).banners@ == old(self).banners@.push(reason),
            final(self).same_sheet(*old(self)),
            final(self).phase == old(self).phase,
    {
        self.banners.push(reason);
    }

    /// Drop one banner; a place that holds none changes nothing.
    pub fn dismiss_ssh_banner(&mut self, ix: usize)
        ensures
            final(self).banners@ == if ix < old(self).banners@.len() {
                old(self).banners@.remove(ix as int)
            } else {
                old(self).banners@
            },
            final(self).same_sheet(*old(self)),
            final(self).phase == old(self).phase,
    {
        if ix < self.banners.len() {
            self.banners.remove(ix);
        }
    }

    /// Whether anything is drawn over the focused pane: there is something to
    /// draw, and a sheet is drawn only over the pane that asked.
    pub open spec fn shows_over(&self, focused: Option<u64>) -> bool {
        &&& self.model is Some || self.banners@.len() > 0
        &&& self.pane_id is Some ==> focused == self.pane_id
    }

    /// Whether the overlay is drawn over the pane that has the focus.
    pub fn render_ssh_prompt_overlay(&self, focused: Option<u64>) -> (r: bool)
        ensures
            r == self.shows_over(focused),
            self.model is None && self.banners@.len() == 0 ==> !r,
            self.pane_id is Some && focused != self.pane_id ==> !r,
            (self.model is Some || self.banners@.len() > 0) && (self.pane_id is None || focused
                == self.pane_id) ==> r,
    {
        if self.model.is_none() && self.banners.len() == 0 {
            return false;
        }
        match self.pane_id {
            Some(id) => match focused {
                Some(f) => f == id,
                None => false,
            },
            None => true,
        }
    }
}

fn first_or_empty(values: &Vec<String>) -> (r: String)
    ensures
        r@ == if values@.len() > 0 {
            values@[0]@
        } else {
            Seq::empty()
        },
{
    if values.len() > 0 {
        values[0].clone()
    } else {
        String::new()
    }
}

/// How a line of a sheet is set.
#[derive(Clone, Copy, Debug, PartialEq, Eq, Structural)]
pub enum LineTone {
    Plain,
    Danger,
    Muted,
    Mono,
    MonoMuted,
}

/// What a button of a sheet does.
#[derive(Clone, Copy, Debug, PartialEq, Eq, Structural)]
pub enum SheetAction {
    Connect,
    Unlock,
    Submit,
    Cancel,
    Trust,
    Abort,
    Override,
}

/// A part of a sheet, from top to bottom: a line of text, or one of its fields.
#[derive(Debug)]
pub enum SheetPart {
    Line { tone: LineTone, text: String },
    Field { index: usize },
}

#[verifier::ext_equal]
pub enum PartView {
    Line { tone: LineTone, text: Seq<char> },
    Field { index: int },
}

impl View for SheetPart {
    type V = PartView;

    open spec fn view(&self) -> PartView {
        match self {
            SheetPart::Line { tone, text } => PartView::Line { tone: *tone, text: text@ },
            SheetPart::Field { index } => PartView::Field { index: *index as int },
        }
    }
}

/// A sheet as it is drawn.
#[derive(Debug)]
pub struct SshSheet {
    pub title: String,
    pub danger: bool,
    pub parts: Vec<SheetPart>,
    /// Whether the sheet offers to remember the secret.
    pub remember: bool,
    pub primary: SheetAction,
    pub secondary: SheetAction,
}

pub open spec fn part_views(v: Seq<SheetPart>) -> Seq<PartView> {
    Seq::new(v.len(), |i: int| v[i]@)
}

/// The title of a sheet.
pub open spec fn sheet_title(m: PromptModel) -> Seq<char> {
    match m {
        PromptModel::Password { user, host, .. } => "Password for "@ + user@ + "@"@ + host@,
        PromptModel::KeyPassphrase { key_path, .. } => "Passphrase for "@ + key_path@,
        PromptModel::KeyboardInteractive { name, .. } => if name@.len() == 0 {
            "Two-factor authentication"@
        } else {
            name@
        },
        PromptModel::HostKeyUnknown { host, .. } => "Unknown host "@ + host@,
        PromptModel::HostKeyChanged { .. } => "Host key CHANGED — possible man-in-the-middle"@,
    }
}

pub open spec fn line(tone: LineTone, text: Seq<char>) -> PartView {
    PartView::Line { tone, text }
}

/// Where a host key was met, and of what kind it is.
pub open spec fn key_place(host: Seq<char>, port: u16, algorithm: Seq<char>) -> Seq<char> {
    host + ":"@ + text::decimal(port as nat) + "  "@ + algorithm
}

/// The rows of a keyboard-interactive sheet: each prompt over its field.
pub open spec fn row_parts(rows: Seq<KiRow>) -> Seq<PartView>
    decreases rows.len(),
{
    if rows.len() == 0 {
        Seq::empty()
    } else {
        row_parts(rows.drop_last()).push(line(LineTone::Plain, rows.last().text@)).push(
            PartView::Field { index: rows.len() - 1 },
        )
    }
}

/// The parts of a sheet.
pub open spec fn sheet_parts(m: PromptModel) -> Seq<PartView> {
    match m {
        PromptModel::Password { rejected, .. } => if rejected {
            seq![
                line(LineTone::Danger, "The stored password was rejected. Enter a new one."@),
                PartView::Field { index: 0 },
            ]
        } else {
            seq![PartView::Field { index: 0 }]
        },
        PromptModel::KeyPassphrase { comment, .. } => if comment@.len() > 0 {
            seq![line(LineTone::Muted, comment@), PartView::Field { index: 0 }]
        } else {
            seq![PartView::Field { index: 0 }]
        },
        PromptModel::KeyboardInteractive { instructions, prompts, .. } => if instructions@.len()
            > 0 {
            seq![line(LineTone::Plain, instructions@)] + row_parts(prompts@)
        } else {
            row_parts(prompts@)
        },
        PromptModel::HostKeyUnknown { host, port, algorithm, fingerprint } => seq![
            line(LineTone::Plain, key_place(host@, port, algorithm@)),
            line(LineTone::Mono, fingerprint@),
        ],
        PromptModel::HostKeyChanged { host, port, algorithm, fingerprint, old_fingerprint } => seq![
            line(
                LineTone::Danger,
                "The host key differs from the one previously trusted. This may be an attack."@,
            ),
            line(LineTone::Plain, key_place(host@, port, algorithm@)),
            line(LineTone::Mono, "new "@ + fingerprint@),
            line(LineTone::MonoMuted, "old "@ + old_fingerprint@),
            line(
                LineTone::Plain,
                "Type \"yes\" to override and trust the new key, or Esc to abort."@,
            ),
            PartView::Field { index: 0 },
        ],
    }
}

/// The buttons of a sheet, the default first: to abort, where a host key
/// changed.
pub open spec fn sheet_actions(m: PromptModel) -> (SheetAction, SheetAction) {
    match m {
        PromptModel::Password { .. } => (SheetAction::Connect, SheetAction::Cancel),
        PromptModel::KeyPassphrase { .. } => (SheetAction::Unlock, SheetAction::Cancel),
        PromptModel::KeyboardInteractive { .. } => (SheetAction::Submit, SheetAction::Cancel),
        PromptModel::HostKeyUnknown { .. } => (SheetAction::Trust, SheetAction::Abort),
        PromptModel::HostKeyChanged { .. } => (SheetAction::Abort, SheetAction::Override),
    }
}

fn push_line(parts: &mut Vec<SheetPart>, tone: LineTone, text: String)
    ensures
        part_views(final(parts)@) == part_views(old(parts)@).push(line(tone, text@)),
{
    parts.push(SheetPart::Line { tone, text });
    assert(part_views(parts@) =~= part_views(old(parts)@).push(line(tone, text@)));
}

fn push_field(parts: &mut Vec<SheetPart>, index: usize)
    ensures
        part_views(final(parts)@) == part_views(old(parts)@).push(
            PartView::Field { index: index as int },
        ),
{
    parts.push(SheetPart::Field { index });
    assert(part_views(parts@) =~= part_views(old(parts)@).push(
        PartView::Field { index: index as int },
    ));
}

fn key_place_text(host: &String, port: u16, algorithm: &String) -> (r: String)
    ensures
        r@ == key_place(host@, port, algorithm@),
{
    let mut out = host.clone();
    out.append(":");
    let n = text::decimal_of(port as u128);
    out.append(n.as_str());
    out.append("  ");
    out.append(algorithm.as_str());
    out
}

/// What a sheet looks like.
pub fn render_ssh_sheet(model: &PromptModel) -> (r: SshSheet)
    ensures
        r.title@ == sheet_title(*model),
        r.danger == (*model is HostKeyChanged),
        part_views(r.parts@) == sheet_parts(*model),
        r.remember == (*model is Password || *model is KeyPassphrase),
        (r.primary, r.secondary) == sheet_actions(*model),
        *model is Password ==> r.primary is Connect && r.secondary is Cancel,
        *model is KeyPassphrase ==> r.primary is Unlock && r.secondary is Cancel,
        *model is KeyboardInteractive ==> r.primary is Submit && r.secondary is Cancel,
        *model is HostKeyUnknown ==> r.primary is Trust && r.secondary is Abort,
        *model is HostKeyChanged ==> r.primary is Abort && r.secondary is Override,
{
    let mut parts: Vec<SheetPart> = Vec::new();
    assert(part_views(parts@) =~= Seq::<PartView>::empty());
    match model {
        PromptModel::Password { user, host, rejected, .. } => {
            let mut title = "Password for ".to_owned();
            title.append(user.as_str());
            title.append("@");
            title.append(host.as_str());
            if *rejected {
                push_line(
                    &mut parts,
                    LineTone::Danger,
                    "The stored password was rejected. Enter a new one.".to_owned(),
                );
            }
            push_field(&mut parts, 0);
            assert(part_views(parts@) =~= sheet_parts(*model));
            SshSheet {
                title,
                danger: false,
                parts,
                remember: true,
                primary: SheetAction::Connect,
                secondary: SheetAction::Cancel,
            }
        },
        PromptModel::KeyPassphrase { key_path, comment } => {
            let mut title = "Passphrase for ".to_owned();
            title.append(key_path.as_str());
            if !comment.as_str().is_empty() {
                push_line(&mut parts, LineTone::Muted, comment.clone());
            }
            push_field(&mut parts, 0);
            assert(part_views(parts@) =~= sheet_parts(*model));
            SshSheet {
                title,
                danger: false,
                parts,
                remember: true,
                primary: SheetAction::Unlock,
                secondary: SheetAction::Cancel,
            }
        },
        PromptModel::KeyboardInteractive { name, instructions, prompts } => {
            let title = if name.as_str().is_empty() {
                "Two-factor authentication".to_owned()
            } else {
                name.clone()
            };
            if !instructions.as_str().is_empty() {
                push_line(&mut parts, LineTone::Plain, instructions.clone());
            }
            let ghost lead = part_views(parts@);
            let mut i: usize = 0;
            assert(lead + row_parts(prompts@.take(0)) =~= lead);
            while i < prompts.len()
                invariant
                    i <= prompts@.len(),
                    part_views(parts@) == lead + row_parts(prompts@.take(i as int)),
                decreases prompts@.len() - i,
            {
                push_line(&mut parts, LineTone::Plain, prompts[i].text.clone());
                push_field(&mut parts, i);
                assert(prompts@.take(i + 1).drop_last() =~= prompts@.take(i as int));
                i = i + 1;
                assert(part_views(parts@) =~= lead + row_parts(prompts@.take(i as int)));
            }
            assert(prompts@.take(prompts@.len() as int) =~= prompts@);
            assert(part_views(parts@) =~= sheet_parts(*model));
            SshSheet {
                title,
                danger: false,
                parts,
                remember: false,
                primary: SheetAction::Submit,
                secondary: SheetAction::Cancel,
            }
        },
        PromptModel::HostKeyUnknown { host, port, algorithm, fingerprint } => {
            let mut title = "Unknown host ".to_owned();
            title.append(host.as_str());
            push_line(&mut parts, LineTone::Plain, key_place_text(host, *port, algorithm));
            push_line(&mut parts, LineTone::Mono, fingerprint.clone());
            assert(part_views(parts@) =~= sheet_parts(*model));
            SshSheet {
                title,
                danger: false,
                parts,
                remember: false,
                primary: SheetAction::Trust,
                secondary: SheetAction::Abort,
            }
        },
        PromptModel::HostKeyChanged { host, port, algorithm, fingerprint, old_fingerprint } => {
            push_line(
                &mut parts,
                LineTone::Danger,
                "The host key differs from the one previously trusted. This may be an attack.".to_owned(),
            );
            push_line(&mut parts, LineTone::Plain, key_place_text(host, *port, algorithm));
            let mut new = "new ".to_owned();
            new.append(fingerprint.as_str());
            push_line(&mut parts, LineTone::Mono, new);
            let mut old_line = "old ".to_owned();
            old_line.append(old_fingerprint.as_str());
            push_line(&mut parts, LineTone::MonoMuted, old_line);
            push_line(
                &mut parts,
                LineTone::Plain,
                "Type \"yes\" to override and trust the new key, or Esc to abort.".to_owned(),
            );
            push_field(&mut parts, 0);
            assert(part_views(parts@) =~= sheet_parts(*model));
            SshSheet {
                title: "Host key CHANGED — possible man-in-the-middle".to_owned(),
                danger: true,
                parts,
                remember: false,
                primary: SheetAction::Abort,
                secondary: SheetAction::Override,
            }
        },
    }
}

/// A sheet asks what the connection asked, of the same account, key or host: a
/// password for the port of the pane's own connection, and as a second try
/// exactly where a remembered one was sent; a changed key with the new and the
/// old fingerprint each in its place. Only a banner brings up no sheet.
pub proof fn a_sheet_asks_what_was_asked(
    m: Option<PromptModel>,
    kind: AuthPromptKind,
    endpoint: Option<(String, u16)>,
    auto_supplied: bool,
)
    requires
        sheet_for(m, kind, endpoint, auto_supplied),
    ensures
        m is None <==> kind is Banner,
        m matches Some(PromptModel::Password { .. }) <==> kind is Password,
        m matches Some(PromptModel::KeyPassphrase { .. }) <==> kind is KeyPassphrase,
        m matches Some(PromptModel::KeyboardInteractive { .. }) <==> kind is KeyboardInteractive,
        m matches Some(PromptModel::HostKeyUnknown { .. }) <==> kind is HostKeyUnknown,
        m matches Some(PromptModel::HostKeyChanged { .. }) <==> kind is HostKeyChanged,
        kind is Password ==> {
            &&& m->0->Password_user@ == kind->Password_user@
            &&& m->0->Password_host@ == kind->Password_host@
            &&& m->0->rejected == auto_supplied
            &&& endpoint matches Some(e) ==> m->0->Password_port == e.1
            &&& endpoint is None ==> m->0->Password_port == 22
        },
        kind is KeyPassphrase ==> m->0->key_path@ == kind->key_path@ && m->0->comment@
            == kind->comment@,
        kind is KeyboardInteractive ==> {
            &&& m->0->name@ == kind->name@
            &&& m->0->instructions@ == kind->instructions@
            &&& m->0->prompts@.len() == kind->prompts@.len()
            &&& forall|i: int|
                0 <= i < kind->prompts@.len() ==> (#[trigger] m->0->prompts@[i]).text@
                    == kind->prompts@[i].text@ && m->0->prompts@[i].echo == kind->prompts@[i].echo
        },
        kind is HostKeyUnknown ==> {
            &&& m->0->HostKeyUnknown_host@ == kind->HostKeyUnknown_host@
            &&& m->0->HostKeyUnknown_port == kind->HostKeyUnknown_port
            &&& m->0->HostKeyUnknown_algorithm@ == kind->HostKeyUnknown_algorithm@
            &&& m->0->HostKeyUnknown_fingerprint@ == kind->HostKeyUnknown_fingerprint_sha256@
        },
        kind is HostKeyChanged ==> {
            &&& m->0->HostKeyChanged_host@ == kind->HostKeyChanged_host@
            &&& m->0->HostKeyChanged_port == kind->HostKeyChanged_port
            &&& m->0->HostKeyChanged_algorithm@ == kind->HostKeyChanged_algorithm@
            &&& m->0->HostKeyChanged_fingerprint@ == kind->HostKeyChanged_fingerprint_sha256@
            &&& m->0->old_fingerprint@ == kind->old_fingerprint_sha256@
        },
{
    if kind is KeyboardInteractive {
        assert forall|i: int| 0 <= i < kind->prompts@.len() implies (
        #[trigger] m->0->prompts@[i]).text@ == kind->prompts@[i].text@ && m->0->prompts@[i].echo
            == kind->prompts@[i].echo by {
            assert(row_of(m->0->prompts@[i], kind->prompts@[i]));
        }
    }
}

/// What was typed is what goes out: a secret as it stands in the field, all
/// answers in the order of their fields. An unknown key is accepted and
/// remembered; a changed one both or neither, by what was typed.
pub proof fn what_is_typed_is_what_goes_out(
    m: PromptModel,
    values: Seq<String>,
    remember: bool,
    response: AuthResponse,
    write: KeychainWrite,
)
    requires
        answers(m, values, remember, response, write),
    ensures
        m is Password || m is KeyPassphrase ==> response is Secret,
        (m is Password || m is KeyPassphrase) && values.len() > 0 ==> response->Secret_0@
            == values[0]@,
        m is KeyboardInteractive ==> response is Secrets && response->Secrets_0@ == values,
        m is HostKeyUnknown ==> response is HostKeyDecision && response->accept
            && response->remember,
        m is HostKeyChanged ==> response is HostKeyDecision && response->remember
            == response->accept,
        m is HostKeyChanged && values.len() > 0 ==> response->accept == confirms(values[0]@),
{
}

/// The keychain takes what is to be remembered and nothing else: the password
/// for the very account of the sheet, the passphrase for its key. Without the
/// wish to remember nothing is written, and only a refused password forgotten.
pub proof fn only_what_is_to_be_remembered_is_written(
    m: PromptModel,
    values: Seq<String>,
    remember: bool,
    response: AuthResponse,
    write: KeychainWrite,
)
    requires
        answers(m, values, remember, response, write),
    ensures
        write is SetPassword <==> m is Password && remember,
        write is SetKeyPassphrase <==> m is KeyPassphrase && remember,
        write is DeletePassword <==> m is Password && !remember && m->rejected,
        write is SetPassword ==> {
            &&& write->SetPassword_user@ == m->Password_user@
            &&& write->SetPassword_host@ == m->Password_host@
            &&& write->SetPassword_port == m->Password_port
            &&& write->SetPassword_secret@ == response->Secret_0@
        },
        write is DeletePassword ==> {
            &&& write->DeletePassword_user@ == m->Password_user@
            &&& write->DeletePassword_host@ == m->Password_host@
            &&& write->DeletePassword_port == m->Password_port
        },
        write is SetKeyPassphrase ==> write->key_path@ == m->key_path@
            && write->SetKeyPassphrase_secret@ == response->Secret_0@,
{
}

/// Calling a sheet off trusts nothing: a host key is refused and not
/// remembered, and anything else is cancelled.
pub proof fn calling_off_trusts_nothing(m: PromptModel)
    ensures
        m is HostKeyUnknown || m is HostKeyChanged ==> refusal(m) is HostKeyDecision && !refusal(
            m,
        )->accept && !refusal(m)->remember,
        !(m is HostKeyUnknown || m is HostKeyChanged) ==> refusal(m) is Cancelled,
{
}

/// Nothing but the three letters of `yes`, each in either case, confirms a
/// changed key.
pub proof fn only_yes_confirms(typed: Seq<char>)
    ensures
        confirms(typed) <==> {
            let t = text::trimmed(typed);
            &&& t.len() == 3
            &&& t[0] == 'y' || t[0] == 'Y'
            &&& t[1] == 'e' || t[1] == 'E'
            &&& t[2] == 's' || t[2] == 'S'
        },
{
    let t = text::trimmed(typed);
    let yes = seq!['y', 'e', 's'];
    if t.len() == 3 {
        assert(text::ascii_lower(yes[0]) == 121 && text::ascii_lower(yes[1]) == 101
            && text::ascii_lower(yes[2]) == 115);
        assert(text::ascii_lower(t[0]) == 121 <==> t[0] == 'y' || t[0] == 'Y');
        assert(text::ascii_lower(t[1]) == 101 <==> t[1] == 'e' || t[1] == 'E');
        assert(text::ascii_lower(t[2]) == 115 <==> t[2] == 's' || t[2] == 'S');
        assert(text::same_but_ascii_case(t, yes) <==> text::ascii_lower(t[0]) == 121
            && text::ascii_lower(t[1]) == 101 && text::ascii_lower(t[2]) == 115);
    }
}

/// A field hides what is typed where it takes a secret, and where the server
/// said so; a sheet has a field for every answer it takes.
pub proof fn secrets_are_typed_unseen(m: PromptModel)
    ensures
        field_masks(m).len() == field_count(m),
        m is Password || m is KeyPassphrase ==> field_masks(m).len() == 1 && field_masks(m)[0],
        m is KeyboardInteractive ==> field_masks(m).len() == m->prompts@.len() && forall|i: int|
            0 <= i < m->prompts@.len() ==> #[trigger] field_masks(m)[i] == !m->prompts@[i].echo,
        m is HostKeyUnknown ==> field_masks(m).len() == 0,
        m is HostKeyChanged ==> field_masks(m).len() == 1 && !field_masks(m)[0],
{
}

/// With no sheet up, the first question that a pane has queued is the one that
/// is shown, for that pane and under that question's number; the banners
/// before it are shown beside it, and what is queued behind it stays queued. A
/// sheet that is up stays up.
pub proof fn the_first_question_is_shown(
    s0: SshPromptState,
    p0: PaneAuth,
    s1: SshPromptState,
    p1: PaneAuth,
    k: int,
)
    requires
        pulls(s0, p0, s1, p1),
        0 <= k < p0.queue@.len(),
        p0.queue@[k].kind !is Banner,
        forall|i: int| 0 <= i < k ==> (#[trigger] p0.queue@[i]).kind is Banner,
    ensures
        s0.model is None ==> {
            &&& s1.model is Some
            &&& s1.pane_id == Some(p0.pane_id)
            &&& s1.request_id == p0.queue@[k].request_id
            &&& sheet_for(s1.model, p0.queue@[k].kind, p0.endpoint, p0.auto_supplied_password)
            &&& !s1.remember
            &&& p1.queue@ == p0.queue@.skip(k + 1)
            &&& s1.banners@.len() == s0.banners@.len() + k
        },
        s0.model is Some ==> s1.model == s0.model && s1.pane_id == s0.pane_id && s1.request_id
            == s0.request_id,
{
    let q = p0.queue@;
    lemma_first_question(q);
    let f = first_question(q);
    assert(f == k) by {
        if f < k {
            assert(q[f].kind is Banner);
        }
        if k < f {
            assert(q[k].kind is Banner);
        }
    }
    lemma_all_banners(q.take(k));
}

proof fn lemma_all_banners(q: Seq<QueuedPrompt>)
    requires
        forall|i: int| 0 <= i < q.len() ==> (#[trigger] q[i]).kind is Banner,
    ensures
        banner_texts(q).len() == q.len(),
    decreases q.len(),
{
    if q.len() > 0 {
        assert(q[q.len() - 1].kind is Banner);
        assert forall|i: int| 0 <= i < q.drop_last().len() implies (
        #[trigger] q.drop_last()[i]).kind is Banner by {
            assert(q[i].kind is Banner);
        }
        lemma_all_banners(q.drop_last());
    }
}

proof fn lemma_place_of_pane(panes: Seq<PaneAuth>, id: u64)
    ensures
        match place_of_pane(panes, id) {
            Some(i) => 0 <= i < panes.len() && panes[i].pane_id == id && forall|k: int|
                0 <= k < i ==> (#[trigger] panes[k]).pane_id != id,
            None => forall|k: int| 0 <= k < panes.len() ==> (#[trigger] panes[k]).pane_id != id,
        },
    decreases panes.len(),
{
    if panes.len() > 0 {
        lemma_place_of_pane(panes.drop_last(), id);
        assert(forall|k: int|
            0 <= k < panes.len() - 1 ==> panes.drop_last()[k] == #[trigger] panes[k]);
    }
}

/// After an answer the pane that asked goes on asking, as long as it has a
/// question left; only then may another pane ask.
pub proof fn the_pane_that_asked_asks_on(
    s0: SshPromptState,
    panes0: Seq<PaneAuth>,
    s1: SshPromptState,
    panes1: Seq<PaneAuth>,
    at: int,
    k: int,
)
    requires
        advances(s0, panes0, s1, panes1),
        0 <= at < panes0.len(),
        s0.pane_id == Some(panes0[at].pane_id),
        forall|i: int| 0 <= i < at ==> (#[trigger] panes0[i]).pane_id != panes0[at].pane_id,
        0 <= k < panes0[at].queue@.len(),
        panes0[at].queue@[k].kind !is Banner,
        forall|i: int| 0 <= i < k ==> (#[trigger] panes0[at].queue@[i]).kind is Banner,
    ensures
        s1.model is Some,
        s1.pane_id == s0.pane_id,
        s1.request_id == panes0[at].queue@[k].request_id,
{
    let (down, mid, panes) = choose|down: SshPromptState, mid: SshPromptState, panes: Seq<PaneAuth>|
        #![trigger down.cleared(s0), asks_others(mid, panes, s1, panes1)]
        {
            &&& down.cleared(s0)
            &&& pulls_at(
                down,
                panes0,
                match s0.pane_id {
                    Some(id) => place_of_pane(panes0, id),
                    None => None,
                },
                mid,
                panes,
            )
            &&& asks_others(mid, panes, s1, panes1)
        };
    lemma_place_of_pane(panes0, panes0[at].pane_id);
    let i = place_of_pane(panes0, panes0[at].pane_id)->0;
    assert(i == at) by {
        if at < i {
            assert(panes0[at].pane_id != panes0[at].pane_id);
        }
        if i < at {
            assert(panes0[i].pane_id != panes0[at].pane_id);
        }
    }
    the_first_question_is_shown(down, panes0[at], mid, panes[at], k);
}

/// The sheet of a changed key shows which fingerprint is new and which is old,
/// and both beside the place of the host.
pub proof fn a_changed_key_shows_both_fingerprints(m: PromptModel)
    requires
        m is HostKeyChanged,
    ensures
        sheet_parts(m).contains(
            PartView::Line {
                tone: LineTone::Mono,
                text: "new "@ + m->HostKeyChanged_fingerprint@,
            },
        ),
        sheet_parts(m).contains(
            PartView::Line { tone: LineTone::MonoMuted, text: "old "@ + m->old_fingerprint@ },
        ),
        sheet_parts(m).last() == (PartView::Field { index: 0 }),
{
    assert(sheet_parts(m)[2] == (PartView::Line {
        tone: LineTone::Mono,
        text: "new "@ + m->HostKeyChanged_fingerprint@,
    }));
    assert(sheet_parts(m)[3] == (PartView::Line {
        tone: LineTone::MonoMuted,
        text: "old "@ + m->old_fingerprint@,
    }));
}

proof fn lemma_row_parts(rows: Seq<KiRow>)
    ensures
        row_parts(rows).len() == 2 * rows.len(),
        forall|i: int|
            #![trigger rows[i]]
            0 <= i < rows.len() ==> row_parts(rows)[2 * i] == (PartView::Line {
                tone: LineTone::Plain,
                text: rows[i].text@,
            }) && row_parts(rows)[2 * i + 1] == (PartView::Field { index: i }),
    decreases rows.len(),
{
    if rows.len() > 0 {
        let front = rows.drop_last();
        lemma_row_parts(front);
        assert forall|i: int|
            #![trigger rows[i]]
            0 <= i < rows.len() implies row_parts(rows)[2 * i] == (PartView::Line {
            tone: LineTone::Plain,
            text: rows[i].text@,
        }) && row_parts(rows)[2 * i + 1] == (PartView::Field { index: i }) by {
            if i < front.len() {
                assert(front[i] == rows[i]);
                assert(row_parts(rows)[2 * i] == row_parts(front)[2 * i]);
                assert(row_parts(rows)[2 * i + 1] == row_parts(front)[2 * i + 1]);
            }
        }
    }
}

/// Each question of a server stands right over the field for its answer, in
/// the order they were asked.
pub proof fn each_question_stands_over_its_field(m: PromptModel, i: int)
    requires
        m is KeyboardInteractive,
        0 <= i < m->prompts@.len(),
    ensures
        ({
            let lead: int = if m->instructions@.len() > 0 {
                1
            } else {
                0
            };
            &&& sheet_parts(m)[lead + 2 * i] == (PartView::Line {
                tone: LineTone::Plain,
                text: m->prompts@[i].text@,
            })
            &&& sheet_parts(m)[lead + 2 * i + 1] == (PartView::Field { index: i })
            &&& sheet_parts(m).len() == lead + 2 * m->prompts@.len()
        }),
{
    lemma_row_parts(m->prompts@);
    let row = m->prompts@[i];
}

/// A sheet names what it asks about: the account, the key or the host. A
/// refused password is said to be one, and only that.
pub proof fn a_sheet_names_what_it_asks_about(m: PromptModel)
    ensures
        m is Password ==> sheet_title(m) == "Password for "@ + m->Password_user@ + "@"@
            + m->Password_host@,
        m is KeyPassphrase ==> sheet_title(m) == "Passphrase for "@ + m->key_path@,
        m is KeyboardInteractive && m->name@.len() > 0 ==> sheet_title(m) == m->name@,
        m is HostKeyUnknown ==> sheet_title(m) == "Unknown host "@ + m->HostKeyUnknown_host@,
        m is Password ==> (sheet_parts(m).len() == 2 <==> m->rejected),
        m is Password ==> sheet_parts(m).last() == (PartView::Field { index: 0 }),
        m is KeyPassphrase ==> sheet_parts(m).last() == (PartView::Field { index: 0 }),
        m is HostKeyUnknown ==> sheet_parts(m).len() == 2 && sheet_parts(m)[1] == (PartView::Line {
            tone: LineTone::Mono,
            text: m->HostKeyUnknown_fingerprint@,
        }),
{
}

proof fn lemma_first_waiting(panes: Seq<PaneAuth>)
    ensures
        match first_waiting(panes) {
            Some(i) => 0 <= i < panes.len() && panes[i].queue@.len() > 0 && forall|k: int|
                0 <= k < i ==> (#[trigger] panes[k]).queue@.len() == 0,
            None => forall|k: int| 0 <= k < panes.len() ==> (#[trigger] panes[k]).queue@.len() == 0,
        },
    decreases panes.len(),
{
    if panes.len() > 0 {
        lemma_first_waiting(panes.drop_last());
        assert(forall|k: int|
            0 <= k < panes.len() - 1 ==> panes.drop_last()[k] == #[trigger] panes[k]);
    }
}

/// With no sheet up, the first pane that has something queued may ask; while
/// one is up no pane may.
pub proof fn the_first_waiting_pane_asks_next(
    s0: SshPromptState,
    panes0: Seq<PaneAuth>,
    s1: SshPromptState,
    panes1: Seq<PaneAuth>,
    at: int,
    k: int,
)
    requires
        asks_others(s0, panes0, s1, panes1),
        0 <= at < panes0.len(),
        forall|i: int| 0 <= i < at ==> (#[trigger] panes0[i]).queue@.len() == 0,
        0 <= k < panes0[at].queue@.len(),
        panes0[at].queue@[k].kind !is Banner,
        forall|i: int| 0 <= i < k ==> (#[trigger] panes0[at].queue@[i]).kind is Banner,
    ensures
        s0.model is Some ==> s1 == s0 && panes1 == panes0,
        s0.model is None ==> s1.model is Some && s1.pane_id == Some(panes0[at].pane_id)
            && s1.request_id == panes0[at].queue@[k].request_id,
{
    lemma_first_waiting(panes0);
    if s0.model is None {
        let i = first_waiting(panes0)->0;
        assert(i == at) by {
            if i < at {
                assert(panes0[i].queue@.len() == 0);
            }
            if at < i {
                assert(panes0[at].queue@.len() == 0);
            }
        }
        the_first_question_is_shown(s0, panes0[at], s1, panes1[at], k);
    }
}

/// The banners of a queue are shown in the order they came.
pub proof fn banners_are_shown_in_order(q: Seq<QueuedPrompt>, p: QueuedPrompt)
    ensures
        banner_texts(Seq::empty()).len() == 0,
        p.kind matches AuthPromptKind::Banner { text } ==> banner_texts(q.push(p)) == banner_texts(
            q,
        ).push(text),
        p.kind !is Banner ==> banner_texts(q.push(p)) == banner_texts(q),
{
    assert(q.push(p).drop_last() =~= q);
}

/// A sheet that is taken down leaves no question and no wish to remember; the
/// banners and how far the connection has come stay.
pub proof fn a_sheet_taken_down_leaves_nothing_behind(s: SshPromptState, before: SshPromptState)
    requires
        s.cleared(before),
    ensures
        s.model is None && s.pane_id is None && s.inputs@.len() == 0 && !s.remember,
        s.banners == before.banners && s.phase == before.phase,
{
}

/// Where a key was met is its host and port, and then its kind.
pub proof fn a_key_is_met_at_a_host_and_port(host: Seq<char>, port: u16, algorithm: Seq<char>)
    ensures
        key_place(host, port, algorithm) == host + ":"@ + text::decimal(port as nat) + "  "@
            + algorithm,
{
}

/// What leaves a sheet alone leaves all of it: whom it is for, what it asks,
/// its fields and whether to remember. What leaves a pane alone leaves all but
/// its queue.
pub proof fn a_sheet_left_alone_is_the_same(
    s: SshPromptState,
    t: SshPromptState,
    p: PaneAuth,
    q: PaneAuth,
)
    ensures
        s.same_sheet(t) ==> s.model == t.model && s.pane_id == t.pane_id && s.request_id
            == t.request_id && s.inputs == t.inputs && s.remember == t.remember,
        p.same_but_queue(q) ==> p.pane_id == q.pane_id && p.endpoint == q.endpoint
            && p.auto_supplied_password == q.auto_supplied_password && p.phase == q.phase,
{
}

/// While a sheet is up, what a pane queues waits: its banners are shown, and
/// its questions stay queued in order.
pub proof fn questions_wait_while_a_sheet_is_up(
    s0: SshPromptState,
    p0: PaneAuth,
    s1: SshPromptState,
    p1: PaneAuth,
)
    requires
        pulls(s0, p0, s1, p1),
        s0.model is Some,
    ensures
        s1.model == s0.model && s1.pane_id == s0.pane_id && s1.request_id == s0.request_id,
        p1.queue@ == questions(p0.queue@),
        s1.banners@ == s0.banners@ + banner_texts(p0.queue@),
{
}

} // verus!
