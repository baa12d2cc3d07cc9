//! The panel that browses the files of the machine a pane is on. What goes
//! over the wire is asked for in requests; every answer comes back with the
//! request it belongs to and is dropped when the panel has moved on.

use std::collections::HashMap;
use std::collections::HashSet;
use vstd::prelude::*;
use vstd::string::*;
use crate::remote_files;
use crate::remote_files::{SftpEntry, SftpEntryKind};
use crate::text;

verus! {

/// The pages of the panel on the right.
#[derive(Clone, Copy, Debug, PartialEq, Eq, Structural)]
pub enum RightPanelTab {
    Info,
    Files,
    Changes,
}

/// The panel on the right: whether it is drawn, and which page it shows.
#[derive(Clone, Copy, Debug, PartialEq, Eq, Structural)]
pub struct RightPanel {
    pub visible: bool,
    pub tab: RightPanelTab,
}

impl RightPanel {
    /// Close the panel when it shows the files; show them otherwise.
    pub fn toggle_sftp(&mut self)
        ensures
            *final(self) == (if old(self).visible && old(self).tab == RightPanelTab::Files {
                RightPanel { visible: false, tab: RightPanelTab::Files }
            } else {
                RightPanel { visible: true, tab: RightPanelTab::Files }
            }),
    {
        if self.visible && self.tab == RightPanelTab::Files {
            self.visible = false;
        } else {
            self.visible = true;
            self.tab = RightPanelTab::Files;
        }
    }
}

/// The pane that has the focus, where its shell is, and the number of the
/// workspace it is of.
#[derive(Debug)]
pub struct FocusedPane {
    pub pane_id: u64,
    pub cwd: Option<String>,
    pub workspace: Option<u64>,
}

/// Where the requests of a browser go: to a pane, through the workspace it is
/// of where it is of one.
#[derive(Clone, Copy, Debug, PartialEq, Eq, Structural)]
pub struct SftpRoute {
    pub pane_id: u64,
    pub workspace: Option<u64>,
}

/// The workspace of a pane: known of the focused pane alone.
pub open spec fn workspace_of(focused: Option<FocusedPane>, pane_id: u64) -> Option<u64> {
    match focused {
        Some(f) => if f.pane_id == pane_id {
            f.workspace
        } else {
            None
        },
        None => None,
    }
}

pub fn pane_workspace(focused: &Option<FocusedPane>, pane_id: u64) -> (r: Option<u64>)
    ensures
        r == workspace_of(*focused, pane_id),
{
    match focused {
        Some(f) => if f.pane_id == pane_id {
            f.workspace
        } else {
            None
        },
        None => None,
    }
}

/// Where the shell of a pane is: known of the focused pane alone, and only as
/// an absolute path.
pub open spec fn shell_cwd_of(focused: Option<FocusedPane>, pane_id: u64) -> Option<Seq<char>> {
    match focused {
        Some(f) => match f.cwd {
            Some(cwd) => if f.pane_id == pane_id && cwd@.len() > 0 && cwd@[0] == '/' {
                Some(cwd@)
            } else {
                None
            },
            None => None,
        },
        None => None,
    }
}

/// Whether a path is absolute.
pub open spec fn is_absolute(path: Seq<char>) -> bool {
    path.len() > 0 && path[0] == '/'
}

fn absolute(path: &str) -> (r: bool)
    ensures
        r == is_absolute(path@),
{
    let v = text::chars_of(path);
    v.len() > 0 && v[0] == '/'
}

pub fn pane_shell_cwd(focused: &Option<FocusedPane>, pane_id: u64) -> (r: Option<String>)
    ensures
        match r {
            Some(s) => shell_cwd_of(*focused, pane_id) == Some(s@),
            None => shell_cwd_of(*focused, pane_id) is None,
        },
{
    match focused {
        Some(f) => match &f.cwd {
            Some(cwd) => {
                if f.pane_id == pane_id && absolute(cwd.as_str()) {
                    Some(cwd.clone())
                } else {
                    None
                }
            },
            None => None,
        },
        None => None,
    }
}

/// What is asked of the other machine.
#[derive(Debug)]
pub enum SftpOp {
    Realpath { path: String },
    Readlink { path: String },
    RemoveDir { path: String },
    RemoveFile { path: String },
    Mkdir { path: String },
    CreateFile { path: String },
    Rename { from: String, to: String },
    Chmod { path: String, mode: u32 },
}

/// The same with its texts as sequences.
pub enum OpView {
    Realpath { path: Seq<char> },
    Readlink { path: Seq<char> },
    RemoveDir { path: Seq<char> },
    RemoveFile { path: Seq<char> },
    Mkdir { path: Seq<char> },
    CreateFile { path: Seq<char> },
    Rename { from: Seq<char>, to: Seq<char> },
    Chmod { path: Seq<char>, mode: u32 },
}

impl View for SftpOp {
    type V = OpView;

    open spec fn view(&self) -> OpView {
        match *self {
            SftpOp::Realpath { path } => OpView::Realpath { path: path@ },
            SftpOp::Readlink { path } => OpView::Readlink { path: path@ },
            SftpOp::RemoveDir { path } => OpView::RemoveDir { path: path@ },
            SftpOp::RemoveFile { path } => OpView::RemoveFile { path: path@ },
            SftpOp::Mkdir { path } => OpView::Mkdir { path: path@ },
            SftpOp::CreateFile { path } => OpView::CreateFile { path: path@ },
            SftpOp::Rename { from, to } => OpView::Rename { from: from@, to: to@ },
            SftpOp::Chmod { path, mode } => OpView::Chmod { path: path@, mode },
        }
    }
}

/// What comes back.
#[derive(Debug)]
pub enum SftpOpResult {
    Done,
    Link(String),
    Error(String),
}

/// A directory to be listed, and the state of the panel that asked.
#[derive(Debug)]
pub struct ListRequest {
    pub route: SftpRoute,
    pub generation: u64,
    pub path: String,
}

/// An operation to be carried out for a pane.
#[derive(Debug)]
pub struct OpRequest {
    pub route: SftpRoute,
    pub op: SftpOp,
}

/// A symbolic link to be read, and what is needed to go where it leads.
#[derive(Debug)]
pub struct FollowRequest {
    pub route: SftpRoute,
    pub cwd: String,
    pub path: String,
    pub target_is_dir: bool,
}

#[derive(Clone, Copy, Debug, PartialEq, Eq, Structural)]
pub enum SftpTransferKind {
    Upload,
    Download,
}

/// The end of a transfer that is on this machine: a name in the directory for
/// downloads, or one of the paths that were picked.
#[derive(Debug)]
pub enum LocalEnd {
    InDownloads(String),
    Picked(usize),
}

/// A transfer to be started.
#[derive(Debug)]
pub struct SftpTransferSpec {
    pub route: SftpRoute,
    pub kind: SftpTransferKind,
    pub local: LocalEnd,
    pub remote: String,
    pub recursive: bool,
}

/// A path that was picked for upload: its last part, empty when it has none.
#[derive(Debug)]
pub struct PickedPath {
    pub name: String,
    pub is_dir: bool,
}

/// What a workspace replied with.
#[derive(Debug)]
pub enum ReplyBody {
    Entries(Vec<SftpEntry>),
    OpResult(SftpOpResult),
    Started(u64),
    Progress(Vec<SftpJobProgress>),
    Other,
}

/// A reply of a workspace, and what is said of it where it is no answer to
/// what was asked.
#[derive(Debug)]
pub struct WorkspaceReply {
    pub body: ReplyBody,
    pub unexpected: String,
}

/// How a request was answered: by the pane itself, or by the workspace it is
/// of, which may have failed.
#[derive(Debug)]
pub enum Answer<T> {
    Direct(T),
    Workspace(Result<WorkspaceReply, String>),
}

impl SftpRoute {
    pub fn new(pane_id: u64, workspace: Option<u64>) -> (r: SftpRoute)
        ensures
            r == (SftpRoute { pane_id, workspace }),
    {
        SftpRoute { pane_id, workspace }
    }

    /// The listing in an answer. A reply with anything else is an error.
    pub fn list(answer: Answer<Result<Vec<SftpEntry>, String>>) -> (r: Result<
        Vec<SftpEntry>,
        String,
    >)
        ensures
            r == match answer {
                Answer::Direct(d) => d,
                Answer::Workspace(Ok(reply)) => match reply.body {
                    ReplyBody::Entries(e) => Ok(e),
                    _ => Err(reply.unexpected),
                },
                Answer::Workspace(Err(e)) => Err(e),
            },
    {
        match answer {
            Answer::Direct(d) => d,
            Answer::Workspace(Ok(reply)) => match reply.body {
                ReplyBody::Entries(e) => Ok(e),
                _ => Err(reply.unexpected),
            },
            Answer::Workspace(Err(e)) => Err(e),
        }
    }

    /// The outcome of an operation in an answer. A reply with anything else is
    /// a refusal.
    pub fn op(answer: Answer<SftpOpResult>) -> (r: SftpOpResult)
        ensures
            r == match answer {
                Answer::Direct(d) => d,
                Answer::Workspace(Ok(reply)) => match reply.body {
                    ReplyBody::OpResult(o) => o,
                    _ => SftpOpResult::Error(reply.unexpected),
                },
                Answer::Workspace(Err(e)) => SftpOpResult::Error(e),
            },
    {
        match answer {
            Answer::Direct(d) => d,
            Answer::Workspace(Ok(reply)) => match reply.body {
                ReplyBody::OpResult(o) => o,
                _ => SftpOpResult::Error(reply.unexpected),
            },
            Answer::Workspace(Err(e)) => SftpOpResult::Error(e),
        }
    }

    /// The transfer that was started, in an answer. A reply with anything else
    /// is an error.
    pub fn transfer_start(answer: Answer<Result<u64, String>>) -> (r: Result<u64, String>)
        ensures
            r == match answer {
                Answer::Direct(d) => d,
                Answer::Workspace(Ok(reply)) => match reply.body {
                    ReplyBody::Started(job_id) => Ok(job_id),
                    _ => Err(reply.unexpected),
                },
                Answer::Workspace(Err(e)) => Err(e),
            },
    {
        match answer {
            Answer::Direct(d) => d,
            Answer::Workspace(Ok(reply)) => match reply.body {
                ReplyBody::Started(job_id) => Ok(job_id),
                _ => Err(reply.unexpected),
            },
            Answer::Workspace(Err(e)) => Err(e),
        }
    }

    /// The transfers in an answer: none where it holds anything else.
    pub fn transfer_list(answer: Answer<Vec<SftpJobProgress>>) -> (r: Vec<SftpJobProgress>)
        ensures
            match answer {
                Answer::Direct(d) => r == d,
                Answer::Workspace(Ok(reply)) => match reply.body {
                    ReplyBody::Progress(jobs) => r == jobs,
                    _ => r@.len() == 0,
                },
                Answer::Workspace(Err(_)) => r@.len() == 0,
            },
    {
        match answer {
            Answer::Direct(d) => d,
            Answer::Workspace(Ok(reply)) => match reply.body {
                ReplyBody::Progress(jobs) => jobs,
                _ => Vec::new(),
            },
            Answer::Workspace(Err(_)) => Vec::new(),
        }
    }
}

#[derive(Clone, Copy, Debug, PartialEq, Eq, Structural)]
pub enum SftpJobState {
    Running,
    Done,
    Cancelled,
    Error,
}

/// How far a transfer is.
#[derive(Debug)]
pub struct SftpJobProgress {
    pub job_id: u64,
    pub kind: SftpTransferKind,
    pub local: String,
    pub remote: String,
    pub bytes_done: u64,
    pub bytes_total: u64,
    pub state: SftpJobState,
    pub error: Option<String>,
}

/// What the panel reports in place of the list.
#[derive(Debug)]
pub enum SftpError {
    /// What the other side said.
    Message(String),
    /// A remote name that cannot name a file here.
    UnsafeRemoteName(String),
    InvalidOctalMode,
}

/// The form above the list.
#[derive(Debug)]
pub enum SftpEdit {
    NewFolder,
    NewFile,
    Rename { original: String },
    Chmod { path: String, readable: String },
}

pub struct SftpPanelState {
    pub open_pane_id: Option<u64>,
    /// The workspace of the open pane.
    pub open_workspace: Option<u64>,
    pub cwd: String,
    /// Where each pane's browser was left.
    pub cwds: HashMap<u64, String>,
    pub entries: Vec<SftpEntry>,
    pub error: Option<SftpError>,
    pub jobs: Vec<SftpJobProgress>,
    pub dismissed_jobs: HashSet<u64>,
    pub show_history: bool,
    pub tray_expanded: bool,
    pub loading: bool,
    pub nav_gen: u64,
    pub editing: Option<SftpEdit>,
    pub editing_path: bool,
    pub poll_gen: u64,
}

/// The generation after `g`.
pub open spec fn next_gen(g: u64) -> u64 {
    if g == u64::MAX {
        0
    } else {
        (g + 1) as u64
    }
}

fn following(g: u64) -> (r: u64)
    ensures
        r == next_gen(g),
{
    if g == u64::MAX {
        0
    } else {
        g + 1
    }
}

/// Where requests go: to the open pane, through its workspace. Without an open
/// pane they are addressed to pane zero.
pub open spec fn route_of(s: SftpPanelState) -> SftpRoute {
    SftpRoute {
        pane_id: match s.open_pane_id {
            Some(id) => id,
            None => 0,
        },
        workspace: s.open_workspace,
    }
}

/// From `s`, going to `path` leads to `t` and asks for `r`: with a pane open
/// the directory is listed under a new generation, without one nothing
/// happens.
pub open spec fn navigates(
    s: SftpPanelState,
    path: Seq<char>,
    t: SftpPanelState,
    r: Option<ListRequest>,
) -> bool {
    match s.open_pane_id {
        Some(_) => {
            &&& t == (SftpPanelState { nav_gen: next_gen(s.nav_gen), loading: true, ..s })
            &&& r matches Some(q)
            &&& q.route == route_of(s)
            &&& q.generation == next_gen(s.nav_gen)
            &&& q.path@ == path
        },
        None => t == s && r is None,
    }
}

/// The panel with nothing open.
pub open spec fn closed(s: SftpPanelState, t: SftpPanelState) -> bool {
    &&& t == (SftpPanelState {
        open_pane_id: None,
        open_workspace: None,
        entries: t.entries,
        error: None,
        editing: None,
        editing_path: false,
        jobs: t.jobs,
        poll_gen: next_gen(s.poll_gen),
        ..s
    })
    &&& t.entries@.len() == 0
    &&& t.jobs@.len() == 0
}

/// What opening the panel asks for: a directory listed, or the directory a
/// login starts in.
#[derive(Debug)]
pub enum OpenStep {
    List(ListRequest),
    FindLogin { route: SftpRoute },
}

/// The panel as it is cleared for a pane, before it goes anywhere.
pub open spec fn cleared_for(s: SftpPanelState, route: SftpRoute, t: SftpPanelState) -> bool {
    &&& t == (SftpPanelState {
        open_pane_id: Some(route.pane_id),
        open_workspace: route.workspace,
        entries: t.entries,
        error: None,
        editing: None,
        editing_path: false,
        show_history: false,
        poll_gen: next_gen(s.poll_gen),
        ..s
    })
    &&& t.entries@.len() == 0
}

/// Where a pane's browser starts: where it was left, else where the shell is.
pub open spec fn start_of(
    cwds: Map<u64, String>,
    focused: Option<FocusedPane>,
    pane_id: u64,
) -> Option<Seq<char>> {
    if cwds.dom().contains(pane_id) {
        Some(cwds[pane_id]@)
    } else {
        shell_cwd_of(focused, pane_id)
    }
}

/// Opening the panel at a pane leads from `s` to `t` and asks for `r`.
pub open spec fn opens(
    s: SftpPanelState,
    pane_id: u64,
    focused: Option<FocusedPane>,
    t: SftpPanelState,
    r: OpenStep,
) -> bool {
    let route = SftpRoute { pane_id, workspace: workspace_of(focused, pane_id) };
    match start_of(s.cwds@, focused, pane_id) {
        Some(start) => {
            &&& r matches OpenStep::List(q)
            &&& q.route == route
            &&& q.generation == next_gen(s.nav_gen)
            &&& q.path@ == start
            &&& cleared_for(
                SftpPanelState { nav_gen: next_gen(s.nav_gen), loading: true, ..s },
                route,
                t,
            )
        },
        None => {
            &&& r == OpenStep::FindLogin { route }
            &&& cleared_for(SftpPanelState { loading: true, ..s }, route, t)
        },
    }
}

/// Whether an answer still belongs to what the panel shows.
pub open spec fn is_current(s: SftpPanelState, req: ListRequest) -> bool {
    s.open_pane_id == Some(req.route.pane_id) && s.nav_gen == req.generation
}

/// A listing that comes back leads from `s` to `t`.
pub open spec fn lists(
    s: SftpPanelState,
    req: ListRequest,
    result: Result<Seq<SftpEntry>, String>,
    t: SftpPanelState,
) -> bool {
    if !is_current(s, req) {
        t == s
    } else {
        match result {
            Ok(entries) => {
                &&& t == (SftpPanelState {
                    loading: false,
                    cwd: t.cwd,
                    cwds: t.cwds,
                    entries: t.entries,
                    error: None,
                    editing_path: false,
                    ..s
                })
                &&& t.cwd@ == req.path@
                &&& t.cwds@ == s.cwds@.insert(req.route.pane_id, req.path)
                &&& remote_files::by_name(t.entries@, entries)
            },
            Err(e) => t == (SftpPanelState {
                loading: false,
                error: Some(SftpError::Message(e)),
                ..s
            }),
        }
    }
}

/// What a result holds, its entries as a sequence.
pub open spec fn listing_view(result: Result<Vec<SftpEntry>, String>) -> Result<
    Seq<SftpEntry>,
    String,
> {
    match result {
        Ok(v) => Ok(v@),
        Err(e) => Err(e),
    }
}

impl SftpPanelState {
    pub fn new() -> (r: SftpPanelState)
        ensures
            r.open_pane_id is None,
            r.open_workspace is None,
            r.cwd@ == seq!['/'],
            r.cwds@ == Map::<u64, String>::empty(),
            r.entries@.len() == 0,
            r.error is None,
            r.jobs@.len() == 0,
            r.dismissed_jobs@ == Set::<u64>::empty(),
            !r.show_history,
            !r.tray_expanded,
            !r.loading,
            r.nav_gen == 0,
            r.editing is None,
            !r.editing_path,
            r.poll_gen == 0,
    {
        let mut cwd = String::new();
        cwd.push('/');
        assert(cwd@ =~= seq!['/']);
        SftpPanelState {
            open_pane_id: None,
            open_workspace: None,
            cwd,
            cwds: HashMap::new(),
            entries: Vec::new(),
            error: None,
            jobs: Vec::new(),
            dismissed_jobs: HashSet::new(),
            show_history: false,
            tray_expanded: false,
            loading: false,
            nav_gen: 0,
            editing: None,
            editing_path: false,
            poll_gen: 0,
        }
    }

    /// Where requests go.
    pub fn sftp_route(&self) -> (r: SftpRoute)
        ensures
            r == route_of(*self),
    {
        let pane_id: u64 = match self.open_pane_id {
            Some(id) => id,
            None => 0,
        };
        SftpRoute { pane_id, workspace: self.open_workspace }
    }

    pub fn sftp_close_browser(&mut self)
        ensures
            closed(*old(self), *final(self)),
    {
        self.open_pane_id = None;
        self.entries = Vec::new();
        self.error = None;
        self.editing = None;
        self.editing_path = false;
        self.jobs = Vec::new();
        self.open_workspace = None;
        self.poll_gen = following(self.poll_gen);
    }

    /// Go to a directory.
    pub fn sftp_navigate(&mut self, path: String) -> (r: Option<ListRequest>)
        ensures
            navigates(*old(self), path@, *final(self), r),
    {
        match self.open_pane_id {
            Some(_) => {
                let route = self.sftp_route();
                let generation: u64 = following(self.nav_gen);
                self.nav_gen = generation;
                self.loading = true;
                Some(ListRequest { route, generation, path })
            },
            None => None,
        }
    }

    fn start_polling(&mut self)
        ensures
            *final(self) == (SftpPanelState { poll_gen: next_gen(old(self).poll_gen), ..*old(self) }),
    {
        self.poll_gen = following(self.poll_gen);
    }

    /// Open the panel at a pane: where it was left, else where the shell is,
    /// else where a login starts.
    pub fn sftp_open_at(&mut self, pane_id: u64, focused: &Option<FocusedPane>) -> (r: OpenStep)
        ensures
            opens(*old(self), pane_id, *focused, *final(self), r),
    {
        broadcast use vstd::std_specs::hash::group_hash_axioms;

        let route = SftpRoute { pane_id, workspace: pane_workspace(focused, pane_id) };
        self.open_pane_id = Some(pane_id);
        self.open_workspace = route.workspace;
        self.entries = Vec::new();
        self.error = None;
        self.editing = None;
        self.editing_path = false;
        self.show_history = false;
        self.start_polling();
        let left: Option<String> = match self.cwds.get(&pane_id) {
            Some(s) => Some(s.clone()),
            None => None,
        };
        let start: Option<String> = match left {
            Some(s) => Some(s),
            None => pane_shell_cwd(focused, pane_id),
        };
        match start {
            Some(s) => {
                let generation: u64 = following(self.nav_gen);
                self.nav_gen = generation;
                self.loading = true;
                OpenStep::List(ListRequest { route, generation, path: s })
            },
            None => {
                self.loading = true;
                OpenStep::FindLogin { route }
            },
        }
    }

    /// Follow the pane that has the focus: whether the panel has something to
    /// show, and what it asks for.
    pub fn sftp_sync_pane(&mut self, pane_id: Option<u64>, focused: &Option<FocusedPane>) -> (r: (
        bool,
        Option<OpenStep>,
    ))
        ensures
            r.0 == pane_id is Some,
            match pane_id {
                None => r.1 is None && (if old(self).open_pane_id is Some {
                    closed(*old(self), *final(self))
                } else {
                    *final(self) == *old(self)
                }),
                Some(id) => if old(self).open_pane_id == Some(id) {
                    r.1 is None && *final(self) == *old(self)
                } else {
                    r.1 is Some && opens(*old(self), id, *focused, *final(self), r.1->0)
                },
            },
    {
        match pane_id {
            None => {
                if self.open_pane_id.is_some() {
                    self.sftp_close_browser();
                }
                (false, None)
            },
            Some(id) => {
                let here: bool = match self.open_pane_id {
                    Some(open) => open == id,
                    None => false,
                };
                if here {
                    (true, None)
                } else {
                    let step = self.sftp_open_at(id, focused);
                    (true, Some(step))
                }
            },
        }
    }

    /// The directory a login starts in has come back: go there, or to the
    /// root when it is no absolute path. Dropped when another pane is open.
    pub fn sftp_navigate_login_dir(&mut self, pane_id: u64, result: &SftpOpResult) -> (r: Option<
        ListRequest,
    >)
        ensures
            if old(self).open_pane_id != Some(pane_id) {
                *final(self) == *old(self) && r is None
            } else {
                navigates(*old(self), login_dir(*result), *final(self), r)
            },
    {
        let here: bool = match self.open_pane_id {
            Some(open) => open == pane_id,
            None => false,
        };
        if !here {
            return None;
        }
        let home: String = match result {
            SftpOpResult::Link(path) => {
                if absolute(path.as_str()) {
                    path.clone()
                } else {
                    root()
                }
            },
            _ => root(),
        };
        self.sftp_navigate(home)
    }

    /// A listing has come back.
    pub fn sftp_listed(&mut self, req: ListRequest, result: Result<Vec<SftpEntry>, String>)
        ensures
            lists(*old(self), req, listing_view(result), *final(self)),
    {
        broadcast use vstd::std_specs::hash::group_hash_axioms;

        let here: bool = match self.open_pane_id {
            Some(open) => open == req.route.pane_id,
            None => false,
        };
        if !here || self.nav_gen != req.generation {
            return;
        }
        self.loading = false;
        match result {
            Ok(entries) => {
                self.entries = remote_files::sort_by_name(&entries);
                self.cwds.insert(req.route.pane_id, req.path.clone());
                self.cwd = req.path;
                self.error = None;
                self.editing_path = false;
            },
            Err(e) => {
                self.error = Some(SftpError::Message(e));
            },
        }
    }

    /// List the directory again.
    pub fn sftp_refresh(&mut self) -> (r: Option<ListRequest>)
        ensures
            navigates(*old(self), old(self).cwd@, *final(self), r),
    {
        let cwd = self.cwd.clone();
        self.sftp_navigate(cwd)
    }

    /// Go to the directory above.
    pub fn sftp_up(&mut self) -> (r: Option<ListRequest>)
        ensures
            navigates(*old(self), remote_files::parent_path(old(self).cwd@), *final(self), r),
    {
        let parent = remote_files::remote_parent(self.cwd.as_str());
        self.sftp_navigate(parent)
    }

    /// Let the path be typed; what the field starts with.
    pub fn sftp_begin_edit_path(&mut self) -> (r: Option<String>)
        ensures
            if old(self).open_pane_id is None {
                *final(self) == *old(self) && r is None
            } else {
                *final(self) == (SftpPanelState { editing_path: true, ..*old(self) }) && r == Some(
                    old(self).cwd,
                )
            },
    {
        if self.open_pane_id.is_none() {
            return None;
        }
        self.editing_path = true;
        Some(self.cwd.clone())
    }

    /// Go to the path that was typed; an empty one only closes the field.
    pub fn sftp_commit_edit_path(&mut self, typed: &str) -> (r: Option<ListRequest>)
        ensures
            if !old(self).editing_path {
                *final(self) == *old(self) && r is None
            } else if text::trimmed(typed@).len() == 0 {
                *final(self) == (SftpPanelState { editing_path: false, ..*old(self) }) && r is None
            } else {
                navigates(
                    SftpPanelState { editing_path: false, ..*old(self) },
                    text::trimmed(typed@),
                    *final(self),
                    r,
                )
            },
    {
        if !self.editing_path {
            return None;
        }
        self.editing_path = false;
        let value = text::trim(typed);
        if value.len() == 0 {
            return None;
        }
        let path = text::string_of(value.as_slice());
        self.sftp_navigate(path)
    }

    pub fn sftp_cancel_edit_path(&mut self)
        ensures
            *final(self) == (SftpPanelState { editing_path: false, ..*old(self) }),
    {
        self.editing_path = false;
    }

    /// Go into an entry, when it can be gone into.
    pub fn sftp_enter_dir(&mut self, entry: &SftpEntry) -> (r: Option<ListRequest>)
        ensures
            if remote_files::dir_like(*entry) {
                navigates(
                    *old(self),
                    remote_files::joined_path(old(self).cwd@, entry.name@),
                    *final(self),
                    r,
                )
            } else {
                *final(self) == *old(self) && r is None
            },
    {
        if remote_files::is_dir_like(entry) {
            let target = remote_files::remote_join(self.cwd.as_str(), entry.name.as_str());
            self.sftp_navigate(target)
        } else {
            None
        }
    }

    /// Fetch an entry into the directory for downloads. A name that could
    /// lead out of it is refused.
    pub fn sftp_download_entry(&mut self, entry: &SftpEntry) -> (r: Option<SftpTransferSpec>)
        ensures
            downloads(*old(self), *entry, *final(self), r),
    {
        match self.open_pane_id {
            None => None,
            Some(_) => {
                if !remote_files::safe_local_name(entry.name.as_str()) {
                    self.error = Some(SftpError::UnsafeRemoteName(entry.name.clone()));
                    return None;
                }
                let remote = remote_files::remote_join(self.cwd.as_str(), entry.name.as_str());
                Some(
                    SftpTransferSpec {
                        route: self.sftp_route(),
                        kind: SftpTransferKind::Download,
                        local: LocalEnd::InDownloads(entry.name.clone()),
                        remote,
                        recursive: entry.kind == SftpEntryKind::Dir,
                    },
                )
            },
        }
    }

    /// A download was started, or could not be.
    pub fn sftp_download_started(&mut self, result: Result<u64, String>)
        ensures
            *final(self) == (SftpPanelState {
                error: match result {
                    Ok(_) => None,
                    Err(e) => Some(SftpError::Message(e)),
                },
                poll_gen: next_gen(old(self).poll_gen),
                ..*old(self)
            }),
    {
        self.error = match result {
            Ok(_) => None,
            Err(e) => Some(SftpError::Message(e)),
        };
        self.start_polling();
    }

    /// Go into an entry that can be gone into, fetch any other.
    pub fn sftp_open_entry(&mut self, entry: &SftpEntry) -> (r: EntryStep)
        ensures
            if remote_files::dir_like(*entry) {
                &&& r matches EntryStep::List(q)
                &&& navigates(
                    *old(self),
                    remote_files::joined_path(old(self).cwd@, entry.name@),
                    *final(self),
                    q,
                )
            } else {
                &&& r matches EntryStep::Fetch(spec)
                &&& downloads(*old(self), *entry, *final(self), spec)
            },
    {
        if remote_files::is_dir_like(entry) {
            let target = remote_files::remote_join(self.cwd.as_str(), entry.name.as_str());
            EntryStep::List(self.sftp_navigate(target))
        } else {
            EntryStep::Fetch(self.sftp_download_entry(entry))
        }
    }

    /// Delete an entry.
    pub fn sftp_delete_entry(&self, entry: &SftpEntry) -> (r: Option<OpRequest>)
        ensures
            match self.open_pane_id {
                None => r is None,
                Some(_) => {
                    let path = remote_files::joined_path(self.cwd@, entry.name@);
                    &&& r matches Some(q)
                    &&& q.route == route_of(*self)
                    &&& q.op@ == (if entry.kind == SftpEntryKind::Dir {
                        OpView::RemoveDir { path }
                    } else {
                        OpView::RemoveFile { path }
                    })
                },
            },
    {
        match self.open_pane_id {
            None => None,
            Some(_) => {
                let path = remote_files::remote_join(self.cwd.as_str(), entry.name.as_str());
                let op = if entry.kind == SftpEntryKind::Dir {
                    SftpOp::RemoveDir { path }
                } else {
                    SftpOp::RemoveFile { path }
                };
                Some(OpRequest { route: self.sftp_route(), op })
            },
        }
    }

    /// Read where a symbolic link leads.
    pub fn sftp_follow_symlink(&self, entry: &SftpEntry) -> (r: Option<FollowRequest>)
        ensures
            match self.open_pane_id {
                None => r is None,
                Some(_) => {
                    &&& r matches Some(q)
                    &&& q.route == route_of(*self)
                    &&& q.cwd == self.cwd
                    &&& q.path@ == remote_files::joined_path(self.cwd@, entry.name@)
                    &&& q.target_is_dir == entry.target_is_dir
                },
            },
    {
        match self.open_pane_id {
            None => None,
            Some(_) => {
                let path = remote_files::remote_join(self.cwd.as_str(), entry.name.as_str());
                Some(
                    FollowRequest {
                        route: self.sftp_route(),
                        cwd: self.cwd.clone(),
                        path,
                        target_is_dir: entry.target_is_dir,
                    },
                )
            },
        }
    }

    /// A link has been read: go to the directory it leads to, or to the one
    /// its file is in. Dropped when another pane is open.
    pub fn sftp_symlink_read(&mut self, req: &FollowRequest, result: SftpOpResult) -> (r: Option<
        ListRequest,
    >)
        ensures
            if old(self).open_pane_id != Some(req.route.pane_id) {
                *final(self) == *old(self) && r is None
            } else {
                match result {
                    SftpOpResult::Link(target) => navigates(
                        *old(self),
                        link_dest(*req, target@),
                        *final(self),
                        r,
                    ),
                    SftpOpResult::Error(e) => *final(self) == (SftpPanelState {
                        error: Some(SftpError::Message(e)),
                        ..*old(self)
                    }) && r is None,
                    SftpOpResult::Done => *final(self) == *old(self) && r is None,
                }
            },
    {
        let here: bool = match self.open_pane_id {
            Some(open) => open == req.route.pane_id,
            None => false,
        };
        if !here {
            return None;
        }
        match result {
            SftpOpResult::Link(target) => {
                let resolved: String = if absolute(target.as_str()) {
                    target
                } else {
                    remote_files::remote_join(req.cwd.as_str(), target.as_str())
                };
                let dest: String = if req.target_is_dir {
                    resolved
                } else {
                    remote_files::remote_parent(resolved.as_str())
                };
                self.sftp_navigate(dest)
            },
            SftpOpResult::Error(e) => {
                self.error = Some(SftpError::Message(e));
                None
            },
            SftpOpResult::Done => None,
        }
    }

    /// An operation has been carried out, or refused: the form is closed and
    /// the directory listed again, or the refusal is shown. Dropped when
    /// another pane is open.
    pub fn sftp_run_op(&mut self, pane_id: u64, result: SftpOpResult) -> (r: Option<ListRequest>)
        ensures
            if old(self).open_pane_id != Some(pane_id) {
                *final(self) == *old(self) && r is None
            } else {
                match result {
                    SftpOpResult::Error(e) => *final(self) == (SftpPanelState {
                        error: Some(SftpError::Message(e)),
                        ..*old(self)
                    }) && r is None,
                    _ => navigates(
                        SftpPanelState { editing: None, ..*old(self) },
                        old(self).cwd@,
                        *final(self),
                        r,
                    ),
                }
            },
    {
        let here: bool = match self.open_pane_id {
            Some(open) => open == pane_id,
            None => false,
        };
        if !here {
            return None;
        }
        match result {
            SftpOpResult::Error(e) => {
                self.error = Some(SftpError::Message(e));
                None
            },
            _ => {
                self.editing = None;
                self.sftp_refresh()
            },
        }
    }

    pub fn sftp_begin_new_folder(&mut self)
        ensures
            *final(self) == (SftpPanelState { editing: Some(SftpEdit::NewFolder), ..*old(self) }),
    {
        self.editing = Some(SftpEdit::NewFolder);
    }

    pub fn sftp_begin_new_file(&mut self)
        ensures
            *final(self) == (SftpPanelState { editing: Some(SftpEdit::NewFile), ..*old(self) }),
    {
        self.editing = Some(SftpEdit::NewFile);
    }

    /// Rename an entry; the field starts with its name.
    pub fn sftp_begin_rename(&mut self, name: String) -> (r: String)
        ensures
            r == name,
            *final(self) == (SftpPanelState {
                editing: Some(SftpEdit::Rename { original: name }),
                ..*old(self)
            }),
    {
        let shown = name.clone();
        self.editing = Some(SftpEdit::Rename { original: name });
        shown
    }

    /// Change an entry's mode; the field starts with the mode in octal.
    pub fn sftp_begin_chmod(&mut self, entry: &SftpEntry) -> (r: String)
        ensures
            r@ == remote_files::octal((entry.permissions % 512) as nat),
            final(self).editing matches Some(SftpEdit::Chmod { path, readable }) && path@
                == remote_files::joined_path(old(self).cwd@, entry.name@) && readable@
                == remote_files::mode_text(entry.permissions as nat),
            *final(self) == (SftpPanelState { editing: final(self).editing, ..*old(self) }),
    {
        let octal = remote_files::octal_of(entry.permissions % 512);
        let readable = remote_files::mode_string(entry.permissions);
        let path = remote_files::remote_join(self.cwd.as_str(), entry.name.as_str());
        self.editing = Some(SftpEdit::Chmod { path, readable });
        octal
    }

    pub fn sftp_cancel_edit(&mut self)
        ensures
            *final(self) == (SftpPanelState { editing: None, ..*old(self) }),
    {
        self.editing = None;
    }

    /// Carry out what was typed into the form.
    pub fn sftp_commit_edit(&mut self, typed: &str) -> (r: Option<OpRequest>)
        ensures
            commits(*old(self), typed@, *final(self), r),
    {
        if self.open_pane_id.is_none() {
            return None;
        }
        let v = text::trim(typed);
        let name = text::string_of(v.as_slice());
        let empty: bool = v.len() == 0;
        let step: CommitStep = match &self.editing {
            None => CommitStep::Nothing,
            Some(SftpEdit::NewFolder) => {
                if empty {
                    CommitStep::Nothing
                } else {
                    CommitStep::Run(
                        SftpOp::Mkdir {
                            path: remote_files::remote_join(self.cwd.as_str(), name.as_str()),
                        },
                    )
                }
            },
            Some(SftpEdit::NewFile) => {
                if empty {
                    CommitStep::Nothing
                } else {
                    CommitStep::Run(
                        SftpOp::CreateFile {
                            path: remote_files::remote_join(self.cwd.as_str(), name.as_str()),
                        },
                    )
                }
            },
            Some(SftpEdit::Rename { original }) => {
                if empty || text::same(name.as_str(), original.as_str()) {
                    CommitStep::Close
                } else {
                    CommitStep::Run(
                        SftpOp::Rename {
                            from: remote_files::remote_join(self.cwd.as_str(), original.as_str()),
                            to: remote_files::remote_join(self.cwd.as_str(), name.as_str()),
                        },
                    )
                }
            },
            Some(SftpEdit::Chmod { path, .. }) => match remote_files::parse_mode(typed) {
                Some(mode) => CommitStep::Run(SftpOp::Chmod { path: path.clone(), mode }),
                None => CommitStep::BadMode,
            },
        };
        match step {
            CommitStep::Nothing => None,
            CommitStep::Close => {
                self.editing = None;
                None
            },
            CommitStep::BadMode => {
                self.error = Some(SftpError::InvalidOctalMode);
                None
            },
            CommitStep::Run(op) => Some(OpRequest { route: self.sftp_route(), op }),
        }
    }

    /// Whether a file can be picked for upload: only with a pane open.
    pub fn sftp_pick_upload(&self) -> (r: bool)
        ensures
            r == self.open_pane_id is Some,
    {
        self.open_pane_id.is_some()
    }

    /// The transfers that send the picked paths into the directory shown; a
    /// path without a last part is left out.
    pub fn sftp_upload_paths(&self, picked: &Vec<PickedPath>) -> (r: Vec<SftpTransferSpec>)
        ensures
            match self.open_pane_id {
                None => r@.len() == 0,
                Some(_) => are_uploads(r@, picked@, route_of(*self), self.cwd@),
            },
    {
        let mut out: Vec<SftpTransferSpec> = Vec::new();
        if self.open_pane_id.is_none() {
            return out;
        }
        let route = self.sftp_route();
        let mut i: usize = 0;
        assert(picked@.take(0) =~= Seq::<PickedPath>::empty());
        while i < picked.len()
            invariant
                i <= picked@.len(),
                route == route_of(*self),
                are_uploads(out@, picked@.take(i as int), route, self.cwd@),
            decreases picked@.len() - i,
        {
            assert(picked@.take(i + 1).drop_last() =~= picked@.take(i as int));
            let p = &picked[i];
            if !p.name.as_str().is_empty() {
                let ghost before = out@;
                out.push(
                    SftpTransferSpec {
                        route,
                        kind: SftpTransferKind::Upload,
                        local: LocalEnd::Picked(i),
                        remote: remote_files::remote_join(self.cwd.as_str(), p.name.as_str()),
                        recursive: p.is_dir,
                    },
                );
                assert(out@.drop_last() =~= before);
            }
            i = i + 1;
        }
        assert(picked@.take(picked@.len() as int) =~= picked@);
        out
    }

    /// The uploads were started, or could not be: the last refusal is shown,
    /// and the directory listed again.
    pub fn sftp_uploads_started(&mut self, results: Vec<Result<u64, String>>) -> (r: Option<
        ListRequest,
    >)
        ensures
            match old(self).open_pane_id {
                None => *final(self) == *old(self) && r is None,
                Some(_) => navigates(
                    SftpPanelState {
                        error: after_uploads(old(self).error, results@),
                        poll_gen: next_gen(old(self).poll_gen),
                        ..*old(self)
                    },
                    old(self).cwd@,
                    *final(self),
                    r,
                ),
            },
    {
        if self.open_pane_id.is_none() {
            return None;
        }
        let ghost s0 = *self;
        let mut i: usize = 0;
        assert(results@.take(0) =~= Seq::<Result<u64, String>>::empty());
        while i < results.len()
            invariant
                i <= results@.len(),
                *self == (SftpPanelState {
                    error: after_uploads(s0.error, results@.take(i as int)),
                    ..s0
                }),
            decreases results@.len() - i,
        {
            assert(results@.take(i + 1).drop_last() =~= results@.take(i as int));
            match &results[i] {
                Ok(_) => {},
                Err(e) => {
                    self.error = Some(SftpError::Message(e.clone()));
                },
            }
            i = i + 1;
        }
        assert(results@.take(results@.len() as int) =~= results@);
        self.start_polling();
        self.sftp_refresh()
    }

    /// A transfer was cancelled; what is still under way.
    pub fn sftp_cancel_job(&mut self, jobs: Vec<SftpJobProgress>)
        ensures
            *final(self) == (SftpPanelState { jobs, ..*old(self) }),
    {
        self.jobs = jobs;
    }

    pub fn sftp_toggle_history(&mut self)
        ensures
            *final(self) == (SftpPanelState { show_history: !old(self).show_history, ..*old(self) }),
    {
        self.show_history = !self.show_history;
    }

    pub fn sftp_toggle_tray(&mut self)
        ensures
            *final(self) == (SftpPanelState { tray_expanded: !old(self).tray_expanded, ..*old(self) }),
    {
        self.tray_expanded = !self.tray_expanded;
    }

    /// Put every transfer there is out of sight.
    pub fn sftp_dismiss_tray(&mut self)
        ensures
            *final(self) == (SftpPanelState {
                dismissed_jobs: final(self).dismissed_jobs,
                show_history: false,
                ..*old(self)
            }),
            final(self).dismissed_jobs@ == old(self).dismissed_jobs@.union(job_ids(old(self).jobs@)),
    {
        broadcast use vstd::std_specs::hash::group_hash_axioms;

        let ghost s0 = *self;
        let mut i: usize = 0;
        assert(s0.dismissed_jobs@.union(job_ids(s0.jobs@.take(0))) =~= s0.dismissed_jobs@);
        while i < self.jobs.len()
            invariant
                i <= s0.jobs@.len(),
                *self == (SftpPanelState { dismissed_jobs: self.dismissed_jobs, ..s0 }),
                self.dismissed_jobs@ == s0.dismissed_jobs@.union(job_ids(s0.jobs@.take(i as int))),
            decreases s0.jobs@.len() - i,
        {
            let id: u64 = self.jobs[i].job_id;
            self.dismissed_jobs.insert(id);
            proof {
                let a = s0.jobs@.take(i as int);
                let b = s0.jobs@.take(i + 1);
                assert(b == a.push(s0.jobs@[i as int]));
                assert forall|x: u64| job_ids(b).contains(x) <==> job_ids(a).contains(x) || x
                    == id by {
                    if job_ids(a).contains(x) {
                        let k = choose|k: int| 0 <= k < a.len() && (#[trigger] a[k]).job_id == x;
                        assert(b[k].job_id == x);
                    }
                    if x == id {
                        assert(b[i as int].job_id == x);
                    }
                    if job_ids(b).contains(x) && x != id {
                        let k = choose|k: int| 0 <= k < b.len() && (#[trigger] b[k]).job_id == x;
                        assert(a[k].job_id == x);
                    }
                }
                assert(self.dismissed_jobs@ =~= s0.dismissed_jobs@.union(job_ids(b)));
            }
            i = i + 1;
        }
        assert(s0.jobs@.take(s0.jobs@.len() as int) =~= s0.jobs@);
        self.show_history = false;
    }

    /// It is time to ask for the transfers again: where to ask, if at all. The
    /// loop of an earlier generation stops; with the panel on the right closed,
    /// the browser closes too.
    pub fn sftp_poll_due(&mut self, generation: u64, panel_open: bool) -> (r: Option<SftpRoute>)
        ensures
            if old(self).poll_gen != generation {
                *final(self) == *old(self) && r is None
            } else if !panel_open {
                closed(*old(self), *final(self)) && r is None
            } else {
                *final(self) == *old(self) && r == if old(self).open_pane_id is Some {
                    Some(route_of(*old(self)))
                } else {
                    None
                }
            },
    {
        if self.poll_gen != generation {
            return None;
        }
        if !panel_open {
            self.sftp_close_browser();
            return None;
        }
        if self.open_pane_id.is_some() {
            Some(self.sftp_route())
        } else {
            None
        }
    }

    /// The transfers have come back: whether to go on asking.
    pub fn sftp_polled(&mut self, generation: u64, jobs: Vec<SftpJobProgress>) -> (r: bool)
        ensures
            r == (old(self).poll_gen == generation),
            *final(self) == (if r {
                SftpPanelState { jobs, ..*old(self) }
            } else {
                *old(self)
            }),
    {
        if self.poll_gen != generation {
            return false;
        }
        self.jobs = jobs;
        true
    }

    /// The transfers there are right now, taken when a pane is open.
    pub fn sftp_poll_jobs(&mut self, jobs: Vec<SftpJobProgress>)
        ensures
            *final(self) == (if old(self).open_pane_id is Some {
                SftpPanelState { jobs, ..*old(self) }
            } else {
                *old(self)
            }),
    {
        if self.open_pane_id.is_some() {
            self.jobs = jobs;
        }
    }

    /// Carry out an item of the panel's menu.
    pub fn sftp_menu_action(&mut self, action: SftpMenuAction, focused: &Option<FocusedPane>) -> (r:
        MenuStep)
        ensures
            match action {
                SftpMenuAction::NewFolder => r is Nothing && *final(self) == (SftpPanelState {
                    editing: Some(SftpEdit::NewFolder),
                    ..*old(self)
                }),
                SftpMenuAction::NewFile => r is Nothing && *final(self) == (SftpPanelState {
                    editing: Some(SftpEdit::NewFile),
                    ..*old(self)
                }),
                SftpMenuAction::Upload => *final(self) == *old(self) && if old(
                    self,
                ).open_pane_id is Some {
                    r is PickFiles
                } else {
                    r is Nothing
                },
                SftpMenuAction::GotoShellCwd => match old(self).open_pane_id {
                    Some(id) if shell_cwd_of(*focused, id) is Some => {
                        &&& r matches MenuStep::List(q)
                        &&& navigates(
                            *old(self),
                            shell_cwd_of(*focused, id)->0,
                            *final(self),
                            Some(q),
                        )
                    },
                    _ => r is Nothing && *final(self) == *old(self),
                },
                SftpMenuAction::ToggleHistory => r is Nothing && *final(self) == (SftpPanelState {
                    show_history: !old(self).show_history,
                    ..*old(self)
                }),
            },
    {
        match action {
            SftpMenuAction::NewFolder => {
                self.sftp_begin_new_folder();
                MenuStep::Nothing
            },
            SftpMenuAction::NewFile => {
                self.sftp_begin_new_file();
                MenuStep::Nothing
            },
            SftpMenuAction::Upload => {
                if self.sftp_pick_upload() {
                    MenuStep::PickFiles
                } else {
                    MenuStep::Nothing
                }
            },
            SftpMenuAction::GotoShellCwd => {
                match self.open_pane_id {
                    Some(id) => match pane_shell_cwd(focused, id) {
                        Some(cwd) => match self.sftp_navigate(cwd) {
                            Some(q) => MenuStep::List(q),
                            None => MenuStep::Nothing,
                        },
                        None => MenuStep::Nothing,
                    },
                    None => MenuStep::Nothing,
                }
            },
            SftpMenuAction::ToggleHistory => {
                self.sftp_toggle_history();
                MenuStep::Nothing
            },
        }
    }
}

fn root() -> (r: String)
    ensures
        r@ == seq!['/'],
{
    let mut s = String::new();
    s.push('/');
    assert(s@ =~= seq!['/']);
    s
}

/// Where a login starts, by the answer.
pub open spec fn login_dir(result: SftpOpResult) -> Seq<char> {
    match result {
        SftpOpResult::Link(path) => if is_absolute(path@) {
            path@
        } else {
            seq!['/']
        },
        _ => seq!['/'],
    }
}

/// The directory to show for a link that leads to `target`.
pub open spec fn link_dest(req: FollowRequest, target: Seq<char>) -> Seq<char> {
    let resolved = if is_absolute(target) {
        target
    } else {
        remote_files::joined_path(req.cwd@, target)
    };
    if req.target_is_dir {
        resolved
    } else {
        remote_files::parent_path(resolved)
    }
}

/// What opening an entry asks for.
#[derive(Debug)]
pub enum EntryStep {
    List(Option<ListRequest>),
    Fetch(Option<SftpTransferSpec>),
}

/// Fetching an entry leads from `s` to `t` and starts `r`.
pub open spec fn downloads(
    s: SftpPanelState,
    entry: SftpEntry,
    t: SftpPanelState,
    r: Option<SftpTransferSpec>,
) -> bool {
    match s.open_pane_id {
        None => t == s && r is None,
        Some(_) => if remote_files::names_one_file(entry.name@) {
            &&& t == s
            &&& r matches Some(spec)
            &&& spec.route == route_of(s)
            &&& spec.kind == SftpTransferKind::Download
            &&& spec.local == LocalEnd::InDownloads(entry.name)
            &&& spec.remote@ == remote_files::joined_path(s.cwd@, entry.name@)
            &&& spec.recursive == (entry.kind == SftpEntryKind::Dir)
        } else {
            &&& r is None
            &&& t == (SftpPanelState {
                error: Some(SftpError::UnsafeRemoteName(entry.name)),
                ..s
            })
        },
    }
}

enum CommitStep {
    Nothing,
    Close,
    BadMode,
    Run(SftpOp),
}

/// What the form asks for when `typed` is confirmed: nothing while a name is
/// still missing, and for a rename that changes nothing.
pub open spec fn edit_op(s: SftpPanelState, typed: Seq<char>) -> Option<OpView> {
    let name = text::trimmed(typed);
    match s.editing {
        None => None,
        Some(SftpEdit::NewFolder) => if name.len() == 0 {
            None
        } else {
            Some(OpView::Mkdir { path: remote_files::joined_path(s.cwd@, name) })
        },
        Some(SftpEdit::NewFile) => if name.len() == 0 {
            None
        } else {
            Some(OpView::CreateFile { path: remote_files::joined_path(s.cwd@, name) })
        },
        Some(SftpEdit::Rename { original }) => if name.len() == 0 || name == original@ {
            None
        } else {
            Some(
                OpView::Rename {
                    from: remote_files::joined_path(s.cwd@, original@),
                    to: remote_files::joined_path(s.cwd@, name),
                },
            )
        },
        Some(SftpEdit::Chmod { path, .. }) => match remote_files::mode_value(typed) {
            Some(mode) => Some(OpView::Chmod { path: path@, mode }),
            None => None,
        },
    }
}

/// Confirming the form leads from `s` to `t` and asks for `r`. A rename to
/// nothing or to the same name closes the form; a mode that is none is
/// reported.
pub open spec fn commits(
    s: SftpPanelState,
    typed: Seq<char>,
    t: SftpPanelState,
    r: Option<OpRequest>,
) -> bool {
    match s.open_pane_id {
        None => t == s && r is None,
        Some(_) => match edit_op(s, typed) {
            Some(op) => t == s && r is Some && r->0.route == route_of(s) && r->0.op@ == op,
            None => r is None && t == (match s.editing {
                Some(SftpEdit::Rename { .. }) => SftpPanelState { editing: None, ..s },
                Some(SftpEdit::Chmod { .. }) => SftpPanelState {
                    error: Some(SftpError::InvalidOctalMode),
                    ..s
                },
                _ => s,
            }),
        },
    }
}

/// `r` sends each picked path that has a last part into `cwd`, in order.
pub open spec fn are_uploads(
    r: Seq<SftpTransferSpec>,
    picked: Seq<PickedPath>,
    route: SftpRoute,
    cwd: Seq<char>,
) -> bool
    decreases picked.len(),
{
    if picked.len() == 0 {
        r.len() == 0
    } else if picked.last().name@.len() == 0 {
        are_uploads(r, picked.drop_last(), route, cwd)
    } else {
        &&& r.len() > 0
        &&& r.last().route == route
        &&& r.last().kind == SftpTransferKind::Upload
        &&& r.last().local == LocalEnd::Picked((picked.len() - 1) as usize)
        &&& r.last().remote@ == remote_files::joined_path(cwd, picked.last().name@)
        &&& r.last().recursive == picked.last().is_dir
        &&& are_uploads(r.drop_last(), picked.drop_last(), route, cwd)
    }
}

/// The error after a row of uploads: the last refusal, else what it was.
pub open spec fn after_uploads(
    error: Option<SftpError>,
    results: Seq<Result<u64, String>>,
) -> Option<SftpError>
    decreases results.len(),
{
    if results.len() == 0 {
        error
    } else {
        match results.last() {
            Ok(_) => after_uploads(error, results.drop_last()),
            Err(e) => Some(SftpError::Message(e)),
        }
    }
}

/// The transfers a list names.
pub open spec fn job_ids(jobs: Seq<SftpJobProgress>) -> Set<u64> {
    Set::new(|id: u64| exists|k: int| 0 <= k < jobs.len() && (#[trigger] jobs[k]).job_id == id)
}

/// The items of the panel's menu.
#[derive(Clone, Copy, Debug, PartialEq, Eq, Structural)]
pub enum SftpMenuAction {
    NewFolder,
    NewFile,
    Upload,
    GotoShellCwd,
    ToggleHistory,
}

/// What an item of the menu asks for.
#[derive(Debug)]
pub enum MenuStep {
    Nothing,
    PickFiles,
    List(ListRequest),
}

/// Of two directories asked for one after the other, only the answer for the
/// later one is taken.
pub proof fn an_overtaken_answer_changes_nothing(
    s: SftpPanelState,
    first: Seq<char>,
    t: SftpPanelState,
    asked: Option<ListRequest>,
    second: Seq<char>,
    u: SftpPanelState,
    asked_later: Option<ListRequest>,
    result: Result<Seq<SftpEntry>, String>,
    v: SftpPanelState,
)
    requires
        navigates(s, first, t, asked),
        navigates(t, second, u, asked_later),
        asked is Some,
        lists(u, asked->0, result, v),
    ensures
        v == u,
        asked_later is Some && is_current(u, asked_later->0),
{
}

/// What a browser asks for goes where it was opened, however far it has gone
/// since.
pub proof fn requests_go_where_the_browser_was_opened(
    s: SftpPanelState,
    pane_id: u64,
    focused: Option<FocusedPane>,
    t: SftpPanelState,
    step: OpenStep,
    path: Seq<char>,
    u: SftpPanelState,
    asked: Option<ListRequest>,
    result: Result<Seq<SftpEntry>, String>,
    v: SftpPanelState,
)
    requires
        opens(s, pane_id, focused, t, step),
        navigates(t, path, u, asked),
        asked is Some,
        lists(u, asked->0, result, v),
    ensures
        asked->0.route == (SftpRoute { pane_id, workspace: workspace_of(focused, pane_id) }),
        route_of(v) == asked->0.route,
{
}

/// A closed browser remembers no workspace.
pub proof fn a_closed_browser_has_no_workspace(s: SftpPanelState, t: SftpPanelState)
    requires
        closed(s, t),
    ensures
        route_of(t) == (SftpRoute { pane_id: 0, workspace: None }),
{
}

/// Once the browser is closed, no answer changes it.
pub proof fn a_closed_browser_stays_closed(
    s: SftpPanelState,
    t: SftpPanelState,
    req: ListRequest,
    result: Result<Seq<SftpEntry>, String>,
    u: SftpPanelState,
)
    requires
        closed(s, t),
        lists(t, req, result, u),
    ensures
        u == t,
        u.open_pane_id is None,
{
}

/// A pane's browser is opened again in the directory it was left in, whatever
/// was shown in between.
pub proof fn a_pane_is_opened_where_it_was_left(
    s: SftpPanelState,
    req: ListRequest,
    entries: Seq<SftpEntry>,
    t: SftpPanelState,
    u: SftpPanelState,
    focused: Option<FocusedPane>,
    v: SftpPanelState,
    r: OpenStep,
)
    requires
        is_current(s, req),
        lists(s, req, Ok(entries), t),
        closed(t, u),
        opens(u, req.route.pane_id, focused, v, r),
    ensures
        r matches OpenStep::List(q) && q.path@ == req.path@ && q.route.pane_id
            == req.route.pane_id,
{
}

/// A mode that is confirmed as it was offered is the mode the entry had, as
/// far as it is shown.
pub proof fn an_unchanged_mode_is_kept(
    s: SftpPanelState,
    permissions: u32,
    t: SftpPanelState,
    r: Option<OpRequest>,
)
    requires
        s.open_pane_id is Some,
        s.editing matches Some(SftpEdit::Chmod { .. }),
        commits(s, remote_files::octal((permissions % 512) as nat), t, r),
    ensures
        t == s,
        r matches Some(q) && q.op@ == (OpView::Chmod {
            path: s.editing->0->Chmod_path@,
            mode: permissions % 512,
        }),
{
    remote_files::a_mode_is_read_back(permissions % 512);
}

/// A link to a directory leads to that directory: a relative target is looked
/// up from the directory the link was in, so what is listed goes through that
/// directory's segments and then through the target's; an absolute target is
/// listed as it is. Of a link to anything else, the directory that holds the
/// target is listed.
pub proof fn a_link_is_followed_from_where_it_is(req: FollowRequest, target: Seq<char>)
    ensures
        target.len() > 0 && target[0] == '/' && req.target_is_dir ==> link_dest(req, target)
            == target,
        !(target.len() > 0 && target[0] == '/') && req.target_is_dir ==> remote_files::segments(
            link_dest(req, target),
        ) == remote_files::segments(req.cwd@) + remote_files::segments(target),
        !(target.len() > 0 && target[0] == '/') && !req.target_is_dir && remote_files::segments(
            target,
        ).len() > 0 ==> remote_files::segments(link_dest(req, target)).push(
            remote_files::segments(target).last(),
        ) == remote_files::segments(req.cwd@) + remote_files::segments(target),
        target.len() > 0 && target[0] == '/' && !req.target_is_dir && remote_files::segments(
            target,
        ).len() > 0 ==> remote_files::segments(link_dest(req, target)).push(
            remote_files::segments(target).last(),
        ) == remote_files::segments(target),
{
    remote_files::a_joined_path_goes_through_both(req.cwd@, target);
    remote_files::going_up_leaves_out_the_last_segment(target);
    let joined = remote_files::joined_path(req.cwd@, target);
    remote_files::going_up_leaves_out_the_last_segment(joined);
    let both = remote_files::segments(req.cwd@) + remote_files::segments(target);
    if remote_files::segments(target).len() > 0 {
        assert(both.last() == remote_files::segments(target).last());
    }
}

/// A login starts where the other machine says, as long as it says where from
/// the root; else at the root.
pub proof fn a_login_starts_at_an_absolute_path(result: SftpOpResult)
    ensures
        login_dir(result).len() > 0 && login_dir(result)[0] == '/',
        result is Link && result->Link_0@.len() > 0 && result->Link_0@[0] == '/' ==> login_dir(
            result,
        ) == result->Link_0@,
        !(result is Link && result->Link_0@.len() > 0 && result->Link_0@[0] == '/') ==> login_dir(
            result,
        ).len() == 1,
{
}

/// Going somewhere asks the open pane for exactly that directory, under a
/// number that no request had just before, and shows the old directory until
/// the answer comes. With no pane open nothing is asked.
pub proof fn going_somewhere_asks_for_that_directory(
    s: SftpPanelState,
    path: Seq<char>,
    t: SftpPanelState,
    r: Option<ListRequest>,
)
    requires
        navigates(s, path, t, r),
    ensures
        r is Some <==> s.open_pane_id is Some,
        r is Some ==> {
            &&& r->0.path@ == path
            &&& Some(r->0.route.pane_id) == s.open_pane_id
            &&& r->0.route.workspace == s.open_workspace
            &&& r->0.generation != s.nav_gen
            &&& is_current(t, r->0)
            &&& t.loading
        },
        r is None ==> t == s,
        t.cwd == s.cwd && t.entries == s.entries && t.open_pane_id == s.open_pane_id
            && t.open_workspace == s.open_workspace && t.cwds == s.cwds && t.editing == s.editing
            && t.error == s.error && t.jobs == s.jobs && t.poll_gen == s.poll_gen,
{
}

/// The answer to the last request is what is shown: the directory that was
/// asked for, with the entries that came, and the pane remembers it. A refusal
/// is reported, and what was shown stays. An answer for another pane, or to an
/// earlier request, changes nothing.
pub proof fn the_last_answer_is_shown(
    s: SftpPanelState,
    req: ListRequest,
    result: Result<Seq<SftpEntry>, String>,
    t: SftpPanelState,
)
    requires
        lists(s, req, result, t),
    ensures
        s.open_pane_id != Some(req.route.pane_id) || s.nav_gen != req.generation ==> t == s,
        s.open_pane_id == Some(req.route.pane_id) && s.nav_gen == req.generation ==> {
            &&& !t.loading
            &&& result is Ok ==> {
                &&& t.cwd@ == req.path@
                &&& t.cwds@.dom().contains(req.route.pane_id)
                &&& t.cwds@[req.route.pane_id]@ == req.path@
                &&& forall|id: u64|
                    id != req.route.pane_id ==> (#[trigger] t.cwds@.dom().contains(id)
                        <==> s.cwds@.dom().contains(id)) && (s.cwds@.dom().contains(id)
                        ==> t.cwds@[id] == s.cwds@[id])
                &&& t.entries@.len() == result->Ok_0.len()
                &&& t.error is None
                &&& !t.editing_path
            }
            &&& result is Err ==> {
                &&& t.cwd == s.cwd && t.cwds == s.cwds && t.entries == s.entries
                &&& t.error matches Some(SftpError::Message(m)) && m == result->Err_0
            }
        },
        t.open_pane_id == s.open_pane_id && t.open_workspace == s.open_workspace,
        t.nav_gen == s.nav_gen && t.jobs == s.jobs && t.editing == s.editing,
{
}

/// A browser opens where its pane was left; a pane that was never browsed
/// opens where its shell is, when that is known from the root. Only of the
/// focused pane is either the shell's directory or the workspace known.
pub proof fn a_browser_opens_where_it_was_left_or_where_the_shell_is(
    s: SftpPanelState,
    pane_id: u64,
    focused: Option<FocusedPane>,
    t: SftpPanelState,
    r: OpenStep,
)
    requires
        opens(s, pane_id, focused, t, r),
    ensures
        t.open_pane_id == Some(pane_id) && t.loading && t.error is None && t.entries@.len() == 0
            && t.editing is None && !t.editing_path,
        t.poll_gen != s.poll_gen,
        s.cwds@.dom().contains(pane_id) ==> r is List && r->List_0.path@ == s.cwds@[pane_id]@,
        !s.cwds@.dom().contains(pane_id) && focused is Some && focused->0.pane_id == pane_id
            && focused->0.cwd is Some && focused->0.cwd->0@.len() > 0 && focused->0.cwd->0@[0] == '/'
            ==> r is List && r->List_0.path@ == focused->0.cwd->0@,
        !s.cwds@.dom().contains(pane_id) && (focused is None || focused->0.pane_id != pane_id
            || focused->0.cwd is None || focused->0.cwd->0@.len() == 0 || focused->0.cwd->0@[0]
            != '/') ==> r is FindLogin,
        focused is Some && focused->0.pane_id == pane_id ==> t.open_workspace
            == focused->0.workspace,
        focused is None || focused->0.pane_id != pane_id ==> t.open_workspace is None,
        r is List ==> r->List_0.route.pane_id == pane_id && r->List_0.route.workspace
            == t.open_workspace && is_current(t, r->List_0),
        r is FindLogin ==> r->FindLogin_route.pane_id == pane_id && r->FindLogin_route.workspace
            == t.open_workspace,
{
}

/// An entry is fetched from the directory shown, into the directory for
/// downloads under its own name, with what is in it exactly when it is a
/// directory. A name that could lead elsewhere is reported and not fetched.
pub proof fn a_download_takes_the_entry_that_is_shown(
    s: SftpPanelState,
    entry: SftpEntry,
    t: SftpPanelState,
    r: Option<SftpTransferSpec>,
)
    requires
        downloads(s, entry, t, r),
    ensures
        s.open_pane_id is None ==> r is None && t == s,
        s.open_pane_id is Some ==> (r is Some <==> remote_files::names_one_file(entry.name@)),
        r is Some ==> {
            &&& t == s
            &&& r->0.kind is Download
            &&& r->0.local == LocalEnd::InDownloads(entry.name)
            &&& remote_files::segments(r->0.remote@) == remote_files::segments(s.cwd@).push(
                entry.name@,
            )
            &&& (r->0.recursive <==> entry.kind is Dir)
            &&& Some(r->0.route.pane_id) == s.open_pane_id
            &&& r->0.route.workspace == s.open_workspace
        },
        s.open_pane_id is Some && r is None ==> t.error == Some(
            SftpError::UnsafeRemoteName(entry.name),
        ),
{
    remote_files::a_joined_path_goes_through_both(s.cwd@, entry.name@);
    if r is Some {
        assert(!entry.name@.contains('/'));
        remote_files::lemma_one_segment(entry.name@);
        assert(remote_files::segments(s.cwd@) + seq![entry.name@] =~= remote_files::segments(
            s.cwd@,
        ).push(entry.name@));
    }
}

/// The form carries out what it is open for, in the directory shown: a new
/// folder makes a directory and a new file a file, under the name that was
/// typed without the blanks around it; a rename goes from the old name to the
/// new one; a mode is set on the entry the form was opened for.
pub proof fn a_form_does_what_it_was_opened_for(
    s: SftpPanelState,
    typed: Seq<char>,
    t: SftpPanelState,
    r: Option<OpRequest>,
)
    requires
        commits(s, typed, t, r),
    ensures
        r is Some ==> s.open_pane_id == Some(r->0.route.pane_id) && t == s,
        s.editing is None ==> r is None && t == s,
        s.editing matches Some(SftpEdit::NewFolder) ==> {
            &&& r is Some <==> s.open_pane_id is Some && text::trimmed(typed).len() > 0
            &&& r is Some ==> r->0.op is Mkdir && remote_files::segments(r->0.op->Mkdir_path@)
                == remote_files::segments(s.cwd@) + remote_files::segments(text::trimmed(typed))
            &&& r is None ==> t == s
        },
        s.editing matches Some(SftpEdit::NewFile) ==> {
            &&& r is Some <==> s.open_pane_id is Some && text::trimmed(typed).len() > 0
            &&& r is Some ==> r->0.op is CreateFile && remote_files::segments(
                r->0.op->CreateFile_path@,
            ) == remote_files::segments(s.cwd@) + remote_files::segments(text::trimmed(typed))
            &&& r is None ==> t == s
        },
        s.editing matches Some(SftpEdit::Rename { original }) ==> {
            &&& r is Some <==> s.open_pane_id is Some && text::trimmed(typed).len() > 0
                && text::trimmed(typed) != original@
            &&& r is Some ==> r->0.op is Rename && remote_files::segments(r->0.op->from@)
                == remote_files::segments(s.cwd@) + remote_files::segments(original@)
                && remote_files::segments(r->0.op->to@) == remote_files::segments(s.cwd@)
                + remote_files::segments(text::trimmed(typed))
            &&& s.open_pane_id is Some && r is None ==> t.editing is None && t.error == s.error
        },
        s.editing matches Some(SftpEdit::Chmod { path, .. }) ==> {
            &&& r is Some ==> r->0.op is Chmod && r->0.op->Chmod_path@ == path@ && Some(
                r->0.op->mode,
            ) == remote_files::mode_value(typed)
            &&& s.open_pane_id is Some ==> (r is None <==> remote_files::mode_value(typed) is None)
            &&& s.open_pane_id is Some && r is None ==> t.error == Some(
                SftpError::InvalidOctalMode,
            ) && t.editing == s.editing
        },
{
    let name = text::trimmed(typed);
    remote_files::a_joined_path_goes_through_both(s.cwd@, name);
    if let Some(SftpEdit::Rename { original }) = s.editing {
        remote_files::a_joined_path_goes_through_both(s.cwd@, original@);
    }
}

/// Each picked path that has a name is sent, once, in the order they were
/// picked, into the directory shown under that name; a folder with what is in
/// it.
pub proof fn picked_paths_are_sent_where_the_browser_is(
    r: Seq<SftpTransferSpec>,
    picked: Seq<PickedPath>,
    route: SftpRoute,
    cwd: Seq<char>,
)
    requires
        are_uploads(r, picked, route, cwd),
        picked.len() <= usize::MAX,
    ensures
        r.len() <= picked.len(),
        (forall|k: int| 0 <= k < picked.len() ==> (#[trigger] picked[k]).name@.len() > 0) ==> r.len()
            == picked.len(),
        forall|i: int|
            #![trigger r[i]]
            0 <= i < r.len() ==> {
                &&& r[i].kind is Upload
                &&& r[i].route == route
                &&& r[i].local is Picked
                &&& 0 <= r[i].local->Picked_0 < picked.len()
                &&& picked[r[i].local->Picked_0 as int].name@.len() > 0
                &&& remote_files::segments(r[i].remote@) == remote_files::segments(cwd)
                    + remote_files::segments(picked[r[i].local->Picked_0 as int].name@)
                &&& r[i].recursive == picked[r[i].local->Picked_0 as int].is_dir
            },
        forall|i: int, j: int|
            0 <= i < j < r.len() ==> (#[trigger] r[i]).local->Picked_0 < (
            #[trigger] r[j]).local->Picked_0,
        forall|k: int|
            0 <= k < picked.len() && (#[trigger] picked[k]).name@.len() > 0 ==> exists|i: int|
                0 <= i < r.len() && (#[trigger] r[i]).local == LocalEnd::Picked(k as usize),
    decreases picked.len(),
{
    if picked.len() > 0 {
        let front = picked.drop_last();
        let last = picked.last();
        assert(picked[picked.len() - 1] == last);
        assert(forall|k: int| 0 <= k < front.len() ==> front[k] == picked[k]);
        if last.name@.len() == 0 {
            picked_paths_are_sent_where_the_browser_is(r, front, route, cwd);
            assert forall|k: int|
                0 <= k < picked.len() && (#[trigger] picked[k]).name@.len() > 0 implies exists|i: int|
                0 <= i < r.len() && (#[trigger] r[i]).local == LocalEnd::Picked(k as usize) by {
                assert(front[k] == picked[k]);
            }
        } else {
            let rest = r.drop_last();
            picked_paths_are_sent_where_the_browser_is(rest, front, route, cwd);
            remote_files::a_joined_path_goes_through_both(cwd, last.name@);
            assert forall|i: int|
                #![trigger r[i]]
                0 <= i < r.len() implies {
                &&& r[i].kind is Upload
                &&& r[i].route == route
                &&& r[i].local is Picked
                &&& 0 <= r[i].local->Picked_0 < picked.len()
                &&& picked[r[i].local->Picked_0 as int].name@.len() > 0
                &&& remote_files::segments(r[i].remote@) == remote_files::segments(cwd)
                    + remote_files::segments(picked[r[i].local->Picked_0 as int].name@)
                &&& r[i].recursive == picked[r[i].local->Picked_0 as int].is_dir
            } by {
                if i < rest.len() {
                    assert(r[i] == rest[i]);
                    assert(front[r[i].local->Picked_0 as int] == picked[r[i].local->Picked_0 as int]);
                } else {
                    assert(r[i] == r.last());
                }
            }
            assert forall|i: int, j: int| 0 <= i < j < r.len() implies (
            #[trigger] r[i]).local->Picked_0 < (#[trigger] r[j]).local->Picked_0 by {
                assert(r[i] == rest[i]);
                if j < rest.len() {
                    assert(r[j] == rest[j]);
                } else {
                    assert(r[j] == r.last());
                }
            }
            assert forall|k: int|
                0 <= k < picked.len() && (#[trigger] picked[k]).name@.len() > 0 implies exists|i: int|
                0 <= i < r.len() && (#[trigger] r[i]).local == LocalEnd::Picked(k as usize) by {
                if k < front.len() {
                    assert(front[k] == picked[k]);
                    let i = choose|i: int|
                        0 <= i < rest.len() && (#[trigger] rest[i]).local == LocalEnd::Picked(
                            k as usize,
                        );
                    assert(r[i] == rest[i]);
                } else {
                    assert(r[r.len() - 1] == r.last());
                }
            }
        }
    }
}

/// After a row of uploads the last refusal is reported; where none was refused
/// what was reported before stays.
pub proof fn the_last_refused_upload_is_reported(
    error: Option<SftpError>,
    results: Seq<Result<u64, String>>,
    k: int,
)
    ensures
        (forall|i: int| 0 <= i < results.len() ==> #[trigger] results[i] is Ok) ==> after_uploads(
            error,
            results,
        ) == error,
        0 <= k < results.len() && results[k] is Err && (forall|i: int|
            k < i < results.len() ==> #[trigger] results[i] is Ok) ==> after_uploads(error, results)
            == Some(SftpError::Message(results[k]->Err_0)),
    decreases results.len(),
{
    if results.len() > 0 {
        let front = results.drop_last();
        assert(forall|i: int| 0 <= i < front.len() ==> front[i] == results[i]);
        the_last_refused_upload_is_reported(error, front, k);
        assert(results[results.len() - 1] == results.last());
    }
}

/// A closed browser shows nothing and waits for nothing: no pane, no entries,
/// no transfers, no form and no report, and the loop that asked for transfers
/// is no longer its own. Where each pane was left is not forgotten.
pub proof fn closing_forgets_what_was_shown(s: SftpPanelState, t: SftpPanelState)
    requires
        closed(s, t),
    ensures
        t.open_pane_id is None && t.open_workspace is None,
        t.entries@.len() == 0 && t.jobs@.len() == 0,
        t.error is None && t.editing is None && !t.editing_path,
        t.poll_gen != s.poll_gen,
        t.cwds == s.cwds && t.dismissed_jobs == s.dismissed_jobs && t.cwd == s.cwd,
{
}

/// Each request has the number behind the last one, and starts over behind the
/// greatest.
pub proof fn requests_are_numbered_one_by_one(g: u64)
    ensures
        g < u64::MAX ==> next_gen(g) == g + 1,
        g == u64::MAX ==> next_gen(g) == 0,
{
}

/// Opening a browser hides the history and keeps the transfers, and where each
/// pane was left.
pub proof fn opening_keeps_what_is_under_way(
    s: SftpPanelState,
    pane_id: u64,
    focused: Option<FocusedPane>,
    t: SftpPanelState,
    r: OpenStep,
)
    requires
        opens(s, pane_id, focused, t, r),
    ensures
        !t.show_history,
        t.jobs == s.jobs && t.dismissed_jobs == s.dismissed_jobs && t.cwds == s.cwds && t.cwd
            == s.cwd && t.tray_expanded == s.tray_expanded,
{
}

} // verus!
