//! What the file browser draws: its menu, the crumbs of its path, its form,
//! its rows and the tray of transfers.

use vstd::prelude::*;
use vstd::string::*;
use crate::remote_files;
use crate::remote_files::{SftpEntry, SftpEntryKind};
use crate::sftp;
use crate::sftp::{
    SftpEdit, SftpError, SftpJobProgress, SftpJobState, SftpMenuAction, SftpPanelState,
    SftpTransferKind,
};
use crate::text;

verus! {

/// A line of the panel's menu.
#[derive(Clone, Copy, Debug, PartialEq, Eq, Structural)]
pub enum SftpMenuLine {
    Item(SftpMenuAction),
    Separator,
    /// Show or hide the history of transfers, by whether it is shown.
    History { shown: bool },
}

/// A crumb of the path: what it reads, where it leads, whether it is drawn
/// heavier, whether it is the directory shown, and whether an arrow goes
/// before it.
#[derive(Debug)]
pub struct Crumb {
    pub label: String,
    pub path: String,
    pub heavy: bool,
    pub current: bool,
    pub arrow: bool,
}

/// The line of the path: a field while the path is typed.
#[derive(Debug)]
pub enum Breadcrumb {
    Field,
    Crumbs(Vec<Crumb>),
}

/// The heading of the form.
#[derive(Debug)]
pub enum FormTitle {
    NewFolder,
    NewFile,
    Rename,
    Permissions(String),
}

/// A row of the list.
#[derive(Debug)]
pub struct SftpRow {
    pub name: String,
    pub folder: bool,
    pub label: String,
    pub size: String,
}

/// The list: a note in its place, or the rows with the way up before them.
#[derive(Debug)]
pub enum SftpList<'a> {
    Error(&'a SftpError),
    Loading,
    Empty,
    Rows { go_up: bool, rows: Vec<SftpRow> },
}

/// An item of a row's menu.
#[derive(Clone, Copy, Debug, PartialEq, Eq, Structural)]
pub enum RowAction {
    Open,
    Download,
    FollowSymlink,
    Rename,
    Chmod,
    Separator,
    Delete,
}

#[derive(Clone, Copy, Debug, PartialEq, Eq, Structural)]
pub enum Tone {
    Muted,
    Success,
    Danger,
}

/// What a transfer reports.
#[derive(Debug)]
pub enum JobStatus {
    Progress { done: String, total: String },
    Done,
    Cancelled,
    /// What went wrong, if it is known.
    Failed(Option<String>),
}

/// A transfer in the tray.
#[derive(Debug)]
pub struct JobView {
    pub job_id: u64,
    pub label: String,
    pub status: JobStatus,
    pub tone: Tone,
    pub failed: bool,
    pub bytes_done: u64,
    pub bytes_total: u64,
    /// The file to show, once it has arrived.
    pub reveal: Option<String>,
    pub can_cancel: bool,
}

/// The line that sums the transfers up.
#[derive(Clone, Copy, Debug, PartialEq, Eq, Structural)]
pub enum TraySummary {
    Running { count: usize, bytes_done: u128, bytes_total: u128 },
    Failed { count: usize },
    Idle,
}

/// The tray of transfers.
#[derive(Debug)]
pub struct SftpTray {
    pub summary: TraySummary,
    pub tone: Tone,
    pub expanded: bool,
    /// The line of progress under a folded tray, and whether it is drawn as a
    /// failure.
    pub underline: Option<bool>,
    /// The transfers, drawn when the tray is unfolded.
    pub jobs: Option<Vec<JobView>>,
}

/// What the label of a row reads.
pub open spec fn row_label(entry: SftpEntry) -> Seq<char> {
    if entry.kind == SftpEntryKind::Symlink {
        entry.name@ + seq![' ', '→']
    } else {
        entry.name@
    }
}

/// What the size of a row reads.
pub open spec fn row_size(entry: SftpEntry) -> Seq<char> {
    if remote_files::dir_like(entry) {
        Seq::empty()
    } else {
        remote_files::size_text(entry.size as nat)
    }
}

/// `r` draws `entry`.
pub open spec fn draws_row(r: SftpRow, entry: SftpEntry) -> bool {
    &&& r.name == entry.name
    &&& r.folder == remote_files::dir_like(entry)
    &&& r.label@ == row_label(entry)
    &&& r.size@ == row_size(entry)
}

/// A row of the list.
pub fn render_sftp_row(entry: &SftpEntry) -> (r: SftpRow)
    ensures
        draws_row(r, *entry),
{
    let folder: bool = remote_files::is_dir_like(entry);
    let mut label = entry.name.clone();
    if entry.kind == SftpEntryKind::Symlink {
        label.push(' ');
        label.push('→');
        assert(label@ =~= row_label(*entry));
    }
    let size = if folder {
        String::new()
    } else {
        remote_files::human_size(entry.size)
    };
    assert(size@ =~= row_size(*entry));
    SftpRow { name: entry.name.clone(), folder, label, size }
}

/// The menu of a row.
pub open spec fn row_menu(entry: SftpEntry) -> Seq<RowAction> {
    let first = if remote_files::dir_like(entry) {
        seq![RowAction::Open]
    } else {
        seq![RowAction::Download]
    };
    let link = if entry.kind == SftpEntryKind::Symlink {
        seq![RowAction::FollowSymlink]
    } else {
        Seq::empty()
    };
    first + link + seq![
        RowAction::Rename,
        RowAction::Chmod,
        RowAction::Separator,
        RowAction::Delete,
    ]
}

pub fn sftp_row_context_menu(entry: &SftpEntry) -> (r: Vec<RowAction>)
    ensures
        r@ == row_menu(*entry),
{
    let mut out: Vec<RowAction> = Vec::new();
    if remote_files::is_dir_like(entry) {
        out.push(RowAction::Open);
    } else {
        out.push(RowAction::Download);
    }
    if entry.kind == SftpEntryKind::Symlink {
        out.push(RowAction::FollowSymlink);
    }
    out.push(RowAction::Rename);
    out.push(RowAction::Chmod);
    out.push(RowAction::Separator);
    out.push(RowAction::Delete);
    assert(out@ =~= row_menu(*entry));
    out
}

/// The arrow of a transfer: up to the other machine, or down from it.
pub open spec fn arrow_of(kind: SftpTransferKind) -> char {
    match kind {
        SftpTransferKind::Upload => '↑',
        SftpTransferKind::Download => '↓',
    }
}

/// `s` reports `job`.
pub open spec fn reports(s: JobStatus, job: SftpJobProgress) -> bool {
    match job.state {
        SftpJobState::Running => s matches JobStatus::Progress { done, total } && done@
            == remote_files::size_text(job.bytes_done as nat) && total@ == remote_files::size_text(
            job.bytes_total as nat,
        ),
        SftpJobState::Done => s is Done,
        SftpJobState::Cancelled => s is Cancelled,
        SftpJobState::Error => s == JobStatus::Failed(job.error),
    }
}

/// `v` draws `job`: only a running transfer can be cancelled, and only a
/// download that is done, and of which it is known where it went, is shown.
pub open spec fn draws_job(v: JobView, job: SftpJobProgress) -> bool {
    &&& v.job_id == job.job_id
    &&& v.label@ == seq![arrow_of(job.kind), ' '] + remote_files::base_name(job.remote@)
    &&& reports(v.status, job)
    &&& v.tone == (match job.state {
        SftpJobState::Error => Tone::Danger,
        SftpJobState::Done => Tone::Success,
        _ => Tone::Muted,
    })
    &&& v.failed == (job.state == SftpJobState::Error)
    &&& v.bytes_done == job.bytes_done
    &&& v.bytes_total == job.bytes_total
    &&& v.reveal == (if job.state == SftpJobState::Done && job.kind == SftpTransferKind::Download
        && job.local@.len() > 0 {
        Some(job.local)
    } else {
        None
    })
    &&& v.can_cancel == (job.state == SftpJobState::Running)
}

/// A transfer in the tray.
pub fn render_sftp_job(job: &SftpJobProgress) -> (r: JobView)
    ensures
        draws_job(r, *job),
{
    let name = remote_files::remote_basename(job.remote.as_str());
    let mut label = String::new();
    match job.kind {
        SftpTransferKind::Upload => {
            label.push('↑');
        },
        SftpTransferKind::Download => {
            label.push('↓');
        },
    }
    label.push(' ');
    label.append(name.as_str());
    assert(label@ =~= seq![arrow_of(job.kind), ' '] + remote_files::base_name(job.remote@));
    let status = match job.state {
        SftpJobState::Running => JobStatus::Progress {
            done: remote_files::human_size(job.bytes_done),
            total: remote_files::human_size(job.bytes_total),
        },
        SftpJobState::Done => JobStatus::Done,
        SftpJobState::Cancelled => JobStatus::Cancelled,
        SftpJobState::Error => JobStatus::Failed(text::copy_option(&job.error)),
    };
    let tone = match job.state {
        SftpJobState::Error => Tone::Danger,
        SftpJobState::Done => Tone::Success,
        _ => Tone::Muted,
    };
    let reveal = if job.state == SftpJobState::Done && job.kind == SftpTransferKind::Download
        && !job.local.as_str().is_empty() {
        Some(job.local.clone())
    } else {
        None
    };
    JobView {
        job_id: job.job_id,
        label,
        status,
        tone,
        failed: job.state == SftpJobState::Error,
        bytes_done: job.bytes_done,
        bytes_total: job.bytes_total,
        reveal,
        can_cancel: job.state == SftpJobState::Running,
    }
}

/// The transfers the tray shows: with the history all of them, else those
/// that were not dismissed.
pub open spec fn shown_jobs(
    jobs: Seq<SftpJobProgress>,
    dismissed: Set<u64>,
    history: bool,
) -> Seq<SftpJobProgress>
    decreases jobs.len(),
{
    if jobs.len() == 0 {
        Seq::empty()
    } else if history || !dismissed.contains(jobs.last().job_id) {
        shown_jobs(jobs.drop_last(), dismissed, history).push(jobs.last())
    } else {
        shown_jobs(jobs.drop_last(), dismissed, history)
    }
}

/// How many transfers are in a state.
pub open spec fn in_state(jobs: Seq<SftpJobProgress>, state: SftpJobState) -> nat
    decreases jobs.len(),
{
    if jobs.len() == 0 {
        0
    } else {
        in_state(jobs.drop_last(), state) + (if jobs.last().state == state {
            1nat
        } else {
            0
        })
    }
}

/// The bytes the running transfers have moved.
pub open spec fn moved(jobs: Seq<SftpJobProgress>) -> nat
    decreases jobs.len(),
{
    if jobs.len() == 0 {
        0
    } else {
        moved(jobs.drop_last()) + (if jobs.last().state == SftpJobState::Running {
            jobs.last().bytes_done as nat
        } else {
            0
        })
    }
}

/// The bytes the running transfers have to move.
pub open spec fn to_move(jobs: Seq<SftpJobProgress>) -> nat
    decreases jobs.len(),
{
    if jobs.len() == 0 {
        0
    } else {
        to_move(jobs.drop_last()) + (if jobs.last().state == SftpJobState::Running {
            jobs.last().bytes_total as nat
        } else {
            0
        })
    }
}

/// `s` sums up `jobs`: running transfers first, else failed ones.
pub open spec fn sums_up(s: TraySummary, jobs: Seq<SftpJobProgress>) -> bool {
    let running = in_state(jobs, SftpJobState::Running);
    let failed = in_state(jobs, SftpJobState::Error);
    if running > 0 {
        s matches TraySummary::Running { count, bytes_done, bytes_total } && count == running
            && bytes_done == moved(jobs) && bytes_total == to_move(jobs)
    } else if failed > 0 {
        s matches TraySummary::Failed { count } && count == failed
    } else {
        s is Idle
    }
}

/// `v` draws each of `jobs`, in order.
pub open spec fn draws_jobs(v: Seq<JobView>, jobs: Seq<SftpJobProgress>) -> bool {
    v.len() == jobs.len() && forall|i: int|
        0 <= i < v.len() ==> draws_job(#[trigger] v[i], jobs[i])
}

/// `r` is the tray of `s`: none without a pane, and none when there is no
/// transfer to show, unless the history was asked for.
pub open spec fn is_tray(r: Option<SftpTray>, s: SftpPanelState) -> bool {
    let jobs = shown_jobs(s.jobs@, s.dismissed_jobs@, s.show_history);
    let running = in_state(jobs, SftpJobState::Running);
    let failed = in_state(jobs, SftpJobState::Error);
    if s.open_pane_id is None || (jobs.len() == 0 && !s.show_history) {
        r is None
    } else {
        &&& r matches Some(tray)
        &&& sums_up(tray.summary, jobs)
        &&& tray.tone == (if running == 0 && failed > 0 {
            Tone::Danger
        } else {
            Tone::Muted
        })
        &&& tray.expanded == (s.tray_expanded || s.show_history)
        &&& tray.underline == (if running > 0 && !tray.expanded {
            Some(failed > 0)
        } else {
            None
        })
        &&& match tray.jobs {
            Some(v) => tray.expanded && draws_jobs(v@, jobs),
            None => !tray.expanded,
        }
    }
}

/// The crumbs of a path as they are drawn.
pub open spec fn draws_crumbs(v: Seq<Crumb>, path: Seq<char>) -> bool {
    let crumbs = remote_files::crumbs_of(path);
    v.len() == crumbs.len() && forall|i: int|
        0 <= i < v.len() ==> {
            &&& (#[trigger] v[i]).label@ == crumbs[i].0
            &&& v[i].path@ == crumbs[i].1
            &&& v[i].current == (i == v.len() - 1)
            &&& v[i].heavy == (i == 0 || i == v.len() - 1)
            &&& v[i].arrow == (i > 0)
        }
}

/// Whether a way up is drawn: not at the root, and not while filtering.
pub open spec fn has_way_up(cwd: Seq<char>, filter: Seq<char>) -> bool {
    cwd != seq!['/'] && text::trimmed(filter).len() == 0
}

/// `v` draws each of the entries listed, in order.
pub open spec fn draws_rows(v: Seq<SftpRow>, listed: Seq<&SftpEntry>) -> bool {
    v.len() == listed.len() && forall|i: int|
        0 <= i < v.len() ==> draws_row(#[trigger] v[i], *listed[i])
}

/// `r` is the list of `s`: an error stands in place of everything else.
pub open spec fn is_list(r: SftpList, s: SftpPanelState, filter: Seq<char>) -> bool {
    match s.error {
        Some(e) => r == SftpList::Error(&e),
        None => exists|listed: Seq<&SftpEntry>| #[trigger]
            remote_files::is_listing(listed, s.entries@, text::needle_of(filter)) && {
                if listed.len() == 0 && !has_way_up(s.cwd@, filter) {
                    if s.loading {
                        r is Loading
                    } else {
                        r is Empty
                    }
                } else {
                    r matches SftpList::Rows { go_up, rows } && go_up == has_way_up(
                        s.cwd@,
                        filter,
                    ) && draws_rows(rows@, listed)
                }
            },
    }
}

/// The lines of the panel's menu.
pub open spec fn menu_lines(s: SftpPanelState) -> Seq<SftpMenuLine> {
    seq![
        SftpMenuLine::Item(SftpMenuAction::NewFolder),
        SftpMenuLine::Item(SftpMenuAction::NewFile),
        SftpMenuLine::Item(SftpMenuAction::Upload),
        SftpMenuLine::Item(SftpMenuAction::GotoShellCwd),
        SftpMenuLine::Separator,
        SftpMenuLine::History { shown: s.show_history },
    ]
}

/// `r` is the line of the path.
pub open spec fn is_breadcrumb(r: Breadcrumb, s: SftpPanelState) -> bool {
    if s.editing_path {
        r is Field
    } else {
        r matches Breadcrumb::Crumbs(v) && draws_crumbs(v@, s.cwd@)
    }
}

/// The heading of a form.
pub open spec fn form_title(editing: Option<SftpEdit>) -> Option<FormTitle> {
    match editing {
        None => None,
        Some(SftpEdit::NewFolder) => Some(FormTitle::NewFolder),
        Some(SftpEdit::NewFile) => Some(FormTitle::NewFile),
        Some(SftpEdit::Rename { .. }) => Some(FormTitle::Rename),
        Some(SftpEdit::Chmod { readable, .. }) => Some(FormTitle::Permissions(readable)),
    }
}

impl SftpPanelState {
    /// The panel's menu.
    pub fn sftp_controls(&self) -> (r: Vec<SftpMenuLine>)
        ensures
            r@ == menu_lines(*self),
    {
        let mut out: Vec<SftpMenuLine> = Vec::new();
        out.push(SftpMenuLine::Item(SftpMenuAction::NewFolder));
        out.push(SftpMenuLine::Item(SftpMenuAction::NewFile));
        out.push(SftpMenuLine::Item(SftpMenuAction::Upload));
        out.push(SftpMenuLine::Item(SftpMenuAction::GotoShellCwd));
        out.push(SftpMenuLine::Separator);
        out.push(SftpMenuLine::History { shown: self.show_history });
        out
    }

    /// The line of the path.
    pub fn render_sftp_breadcrumb(&self) -> (r: Breadcrumb)
        ensures
            is_breadcrumb(r, *self),
    {
        if self.editing_path {
            return Breadcrumb::Field;
        }
        let segs = remote_files::breadcrumb_segments(self.cwd.as_str());
        let ghost crumbs = remote_files::crumbs_of(self.cwd@);
        assert(remote_files::crumb_views(segs@).len() == segs@.len());
        let total: usize = segs.len();
        let mut out: Vec<Crumb> = Vec::new();
        let mut i: usize = 0;
        while i < total
            invariant
                i <= total == segs@.len(),
                crumbs == remote_files::crumb_views(segs@),
                out@.len() == i,
                forall|k: int|
                    0 <= k < i ==> {
                        &&& (#[trigger] out@[k]).label@ == crumbs[k].0
                        &&& out@[k].path@ == crumbs[k].1
                        &&& out@[k].current == (k == total - 1)
                        &&& out@[k].heavy == (k == 0 || k == total - 1)
                        &&& out@[k].arrow == (k > 0)
                    },
            decreases total - i,
        {
            let current: bool = i == total - 1;
            out.push(
                Crumb {
                    label: segs[i].0.clone(),
                    path: segs[i].1.clone(),
                    heavy: i == 0 || current,
                    current,
                    arrow: i > 0,
                },
            );
            i = i + 1;
        }
        Breadcrumb::Crumbs(out)
    }

    /// The heading of the form, while there is one.
    pub fn render_sftp_edit_form(&self) -> (r: Option<FormTitle>)
        ensures
            r == form_title(self.editing),
    {
        match &self.editing {
            None => None,
            Some(SftpEdit::NewFolder) => Some(FormTitle::NewFolder),
            Some(SftpEdit::NewFile) => Some(FormTitle::NewFile),
            Some(SftpEdit::Rename { .. }) => Some(FormTitle::Rename),
            Some(SftpEdit::Chmod { readable, .. }) => Some(FormTitle::Permissions(readable.clone())),
        }
    }

    fn way_up(&self, filter: &str) -> (r: bool)
        ensures
            r == has_way_up(self.cwd@, filter@),
    {
        let v = text::chars_of(self.cwd.as_str());
        let at_root: bool = v.len() == 1 && v[0] == '/';
        proof {
            if at_root {
                assert(self.cwd@ =~= seq!['/']);
            }
        }
        let typed = text::trim(filter);
        !at_root && typed.len() == 0
    }

    /// The list, of the entries whose names hold `filter`.
    pub fn render_sftp_list(&self, filter: &str) -> (r: SftpList<'_>)
        ensures
            is_list(r, *self, filter@),
    {
        match &self.error {
            Some(e) => {
                return SftpList::Error(e);
            },
            None => {},
        }
        let listed = remote_files::sorted_filtered_entries(self.entries.as_slice(), filter);
        let go_up: bool = self.way_up(filter);
        if listed.len() == 0 && !go_up {
            if self.loading {
                return SftpList::Loading;
            } else {
                return SftpList::Empty;
            }
        }
        let mut rows: Vec<SftpRow> = Vec::new();
        let mut i: usize = 0;
        while i < listed.len()
            invariant
                i <= listed@.len(),
                rows@.len() == i,
                forall|k: int| 0 <= k < i ==> draws_row(#[trigger] rows@[k], *listed@[k]),
            decreases listed@.len() - i,
        {
            rows.push(render_sftp_row(listed[i]));
            i = i + 1;
        }
        assert(draws_rows(rows@, listed@));
        SftpList::Rows { go_up, rows }
    }

    /// The tray of transfers.
    pub fn sftp_transfers_footer(&self) -> (r: Option<SftpTray>)
        ensures
            is_tray(r, *self),
    {
        broadcast use vstd::std_specs::hash::group_hash_axioms;

        if self.open_pane_id.is_none() {
            return None;
        }
        let history: bool = self.show_history;
        let expanded: bool = self.tray_expanded || history;
        let ghost all = self.jobs@;
        let ghost dismissed = self.dismissed_jobs@;
        let mut views: Vec<JobView> = Vec::new();
        let mut running: usize = 0;
        let mut failed: usize = 0;
        let mut done: u128 = 0;
        let mut total: u128 = 0;
        let mut i: usize = 0;
        assert(all.take(0) =~= Seq::<SftpJobProgress>::empty());
        while i < self.jobs.len()
            invariant
                i <= all.len(),
                all == self.jobs@,
                dismissed == self.dismissed_jobs@,
                history == self.show_history,
                draws_jobs(views@, shown_jobs(all.take(i as int), dismissed, history)),
                running == in_state(
                    shown_jobs(all.take(i as int), dismissed, history),
                    SftpJobState::Running,
                ),
                failed == in_state(
                    shown_jobs(all.take(i as int), dismissed, history),
                    SftpJobState::Error,
                ),
                done == moved(shown_jobs(all.take(i as int), dismissed, history)),
                total == to_move(shown_jobs(all.take(i as int), dismissed, history)),
                running <= i,
                failed <= i,
                done <= i * 0xffff_ffff_ffff_ffff,
                total <= i * 0xffff_ffff_ffff_ffff,
            decreases all.len() - i,
        {
            assert(all.take(i + 1).drop_last() =~= all.take(i as int));
            let job = &self.jobs[i];
            let ghost before = shown_jobs(all.take(i as int), dismissed, history);
            let hidden: bool = !history && self.dismissed_jobs.contains(&job.job_id);
            assert((i + 1) * 0xffff_ffff_ffff_ffff == i * 0xffff_ffff_ffff_ffff
                + 0xffff_ffff_ffff_ffff);
            assert(i * 0xffff_ffff_ffff_ffff <= 0xffff_ffff_ffff_ffff * 0xffff_ffff_ffff_ffff);
            if !hidden {
                assert(shown_jobs(all.take(i + 1), dismissed, history) == before.push(*job));
                assert(before.push(*job).drop_last() =~= before);
                views.push(render_sftp_job(job));
                if job.state == SftpJobState::Running {
                    running = running + 1;
                    done = done + job.bytes_done as u128;
                    total = total + job.bytes_total as u128;
                } else if job.state == SftpJobState::Error {
                    failed = failed + 1;
                }
            }
            i = i + 1;
        }
        assert(all.take(all.len() as int) =~= all);
        if views.len() == 0 && !history {
            return None;
        }
        let summary = if running > 0 {
            TraySummary::Running { count: running, bytes_done: done, bytes_total: total }
        } else if failed > 0 {
            TraySummary::Failed { count: failed }
        } else {
            TraySummary::Idle
        };
        let tone = if running == 0 && failed > 0 {
            Tone::Danger
        } else {
            Tone::Muted
        };
        let underline = if running > 0 && !expanded {
            Some(failed > 0)
        } else {
            None
        };
        let jobs = if expanded {
            Some(views)
        } else {
            None
        };
        Some(SftpTray { summary, tone, expanded, underline, jobs })
    }
}

/// The panel: its menu, the line of its path, its form and its list.
#[derive(Debug)]
pub struct SftpPanel<'a> {
    pub controls: Vec<SftpMenuLine>,
    pub breadcrumb: Breadcrumb,
    pub form: Option<FormTitle>,
    pub list: SftpList<'a>,
}

impl SftpPanelState {
    /// The whole panel, of the entries whose names hold `filter`.
    pub fn render_panel_sftp(&self, filter: &str) -> (r: SftpPanel<'_>)
        ensures
            r.controls@ == menu_lines(*self),
            is_breadcrumb(r.breadcrumb, *self),
            r.form == form_title(self.editing),
            is_list(r.list, *self, filter@),
    {
        SftpPanel {
            controls: self.sftp_controls(),
            breadcrumb: self.render_sftp_breadcrumb(),
            form: self.render_sftp_edit_form(),
            list: self.render_sftp_list(filter),
        }
    }
}

proof fn lemma_shown(jobs: Seq<SftpJobProgress>, dismissed: Set<u64>)
    requires
        forall|k: int| 0 <= k < jobs.len() ==> dismissed.contains((#[trigger] jobs[k]).job_id),
    ensures
        shown_jobs(jobs, dismissed, false).len() == 0,
    decreases jobs.len(),
{
    if jobs.len() > 0 {
        let h = jobs.drop_last();
        assert forall|k: int| 0 <= k < h.len() implies dismissed.contains(
            (#[trigger] h[k]).job_id,
        ) by {
            assert(jobs[k] == h[k]);
        }
        lemma_shown(h, dismissed);
        assert(dismissed.contains(jobs[jobs.len() - 1].job_id));
    }
}

/// Once dismissed, the tray is gone until there is another transfer or the
/// history is asked for.
pub proof fn a_dismissed_tray_is_gone(s: SftpPanelState, t: SftpPanelState, r: Option<SftpTray>)
    requires
        !t.show_history,
        t.jobs == s.jobs,
        t.dismissed_jobs@ == s.dismissed_jobs@.union(sftp::job_ids(s.jobs@)),
        is_tray(r, t),
    ensures
        r is None,
{
    assert forall|k: int| 0 <= k < t.jobs@.len() implies t.dismissed_jobs@.contains(
        (#[trigger] t.jobs@[k]).job_id,
    ) by {
        assert(sftp::job_ids(s.jobs@).contains(s.jobs@[k].job_id));
    }
    lemma_shown(t.jobs@, t.dismissed_jobs@);
}

proof fn lemma_all_shown(jobs: Seq<SftpJobProgress>, dismissed: Set<u64>)
    ensures
        shown_jobs(jobs, dismissed, true) == jobs,
    decreases jobs.len(),
{
    if jobs.len() > 0 {
        lemma_all_shown(jobs.drop_last(), dismissed);
        assert(jobs.drop_last().push(jobs.last()) =~= jobs);
    }
}

/// The history shows every transfer, dismissed or not.
pub proof fn the_history_shows_every_transfer(s: SftpPanelState, r: Option<SftpTray>)
    requires
        s.open_pane_id is Some,
        s.show_history,
        is_tray(r, s),
    ensures
        r is Some && r->0.jobs is Some && draws_jobs(r->0.jobs->0@, s.jobs@),
{
    lemma_all_shown(s.jobs@, s.dismissed_jobs@);
}

/// A row is of its entry: it carries the entry's name, with an arrow behind it
/// exactly for a link; it reads a size exactly where there is nothing to go
/// into.
pub proof fn a_row_is_of_its_entry(r: SftpRow, entry: SftpEntry)
    requires
        draws_row(r, entry),
    ensures
        r.name@ == entry.name@,
        r.folder <==> entry.kind is Dir || (entry.kind is Symlink && entry.target_is_dir),
        entry.kind is Symlink ==> r.label@ == entry.name@ + seq![' ', '→'],
        entry.kind !is Symlink ==> r.label@ == entry.name@,
        r.folder ==> r.size@.len() == 0,
        !r.folder ==> r.size@ == remote_files::size_text(entry.size as nat),
{
}

/// The menu of a row opens what can be gone into and fetches anything else,
/// follows links and only links, and always renames, sets the mode and
/// deletes, deleting last.
pub proof fn a_row_offers_what_its_entry_can_do(entry: SftpEntry)
    ensures
        row_menu(entry).contains(RowAction::Open) <==> remote_files::dir_like(entry),
        row_menu(entry).contains(RowAction::Download) <==> !remote_files::dir_like(entry),
        row_menu(entry).contains(RowAction::FollowSymlink) <==> entry.kind is Symlink,
        row_menu(entry).contains(RowAction::Rename),
        row_menu(entry).contains(RowAction::Chmod),
        row_menu(entry).last() == RowAction::Delete,
        row_menu(entry)[0] == (if remote_files::dir_like(entry) {
            RowAction::Open
        } else {
            RowAction::Download
        }),
{
    let menu = row_menu(entry);
    let n = menu.len() as int;
    assert(menu[n - 4] == RowAction::Rename);
    assert(menu[n - 3] == RowAction::Chmod);
    assert(menu[n - 2] == RowAction::Separator);
    assert(menu[n - 1] == RowAction::Delete);
    assert(menu[0] == (if remote_files::dir_like(entry) {
        RowAction::Open
    } else {
        RowAction::Download
    }));
    if entry.kind == SftpEntryKind::Symlink {
        assert(n == 6 && menu[1] == RowAction::FollowSymlink);
    } else {
        assert(n == 5);
    }
}

/// A transfer is drawn as it stands: an arrow up for an upload and down for a
/// download, before the last part of the remote path; its state in words and
/// in colour. It can be called off only while it runs, and shown only once a
/// download is done.
pub proof fn a_transfer_is_drawn_as_it_stands(v: JobView, job: SftpJobProgress)
    requires
        draws_job(v, job),
    ensures
        v.job_id == job.job_id,
        job.kind is Upload ==> v.label@ == seq!['↑', ' '] + remote_files::base_name(job.remote@),
        job.kind is Download ==> v.label@ == seq!['↓', ' '] + remote_files::base_name(job.remote@),
        v.status is Progress <==> job.state is Running,
        v.status is Done <==> job.state is Done,
        v.status is Cancelled <==> job.state is Cancelled,
        v.status is Failed <==> job.state is Error,
        v.status is Failed ==> v.status->Failed_0 == job.error,
        v.status is Progress ==> v.status->done@ == remote_files::size_text(job.bytes_done as nat)
            && v.status->total@ == remote_files::size_text(job.bytes_total as nat),
        v.tone is Danger <==> job.state is Error,
        v.tone is Success <==> job.state is Done,
        v.failed <==> job.state is Error,
        v.can_cancel <==> job.state is Running,
        v.reveal is Some <==> job.state is Done && job.kind is Download && job.local@.len() > 0,
        v.reveal is Some ==> v.reveal->0@ == job.local@,
        v.bytes_done == job.bytes_done && v.bytes_total == job.bytes_total,
{
}

/// The tray shows the transfers that were not dismissed, in their order, or
/// all of them in the history.
pub proof fn dismissed_transfers_are_only_in_the_history(
    jobs: Seq<SftpJobProgress>,
    dismissed: Set<u64>,
    history: bool,
)
    ensures
        shown_jobs(jobs, dismissed, history) == jobs.filter(
            |j: SftpJobProgress| history || !dismissed.contains(j.job_id),
        ),
    decreases jobs.len(),
{
    reveal(Seq::filter);
    if jobs.len() > 0 {
        dismissed_transfers_are_only_in_the_history(jobs.drop_last(), dismissed, history);
    }
}

/// The transfers in a state are counted one by one.
pub proof fn transfers_are_counted_by_state(jobs: Seq<SftpJobProgress>, state: SftpJobState)
    ensures
        in_state(jobs, state) == jobs.filter(|j: SftpJobProgress| j.state == state).len(),
    decreases jobs.len(),
{
    reveal(Seq::filter);
    if jobs.len() > 0 {
        transfers_are_counted_by_state(jobs.drop_last(), state);
    }
}

/// One more transfer adds its bytes to the sums exactly while it runs: what it
/// has moved to the one, what it has to move to the other.
pub proof fn only_running_transfers_are_summed_up(
    jobs: Seq<SftpJobProgress>,
    job: SftpJobProgress,
)
    ensures
        moved(Seq::empty()) == 0 && to_move(Seq::empty()) == 0,
        job.state is Running ==> moved(jobs.push(job)) == moved(jobs) + job.bytes_done,
        job.state is Running ==> to_move(jobs.push(job)) == to_move(jobs) + job.bytes_total,
        job.state !is Running ==> moved(jobs.push(job)) == moved(jobs) && to_move(jobs.push(job))
            == to_move(jobs),
{
    assert(jobs.push(job).drop_last() =~= jobs);
}

/// The tray sums up what runs before what failed, and is alarmed only where
/// something failed and nothing runs. It is drawn only with a pane open, and
/// only with something to show or the history asked for.
pub proof fn a_tray_sums_up_what_runs_first(r: Option<SftpTray>, s: SftpPanelState)
    requires
        is_tray(r, s),
    ensures
        ({
            let jobs = shown_jobs(s.jobs@, s.dismissed_jobs@, s.show_history);
            let running = in_state(jobs, SftpJobState::Running);
            let failed = in_state(jobs, SftpJobState::Error);
            &&& r is Some <==> s.open_pane_id is Some && (jobs.len() > 0 || s.show_history)
            &&& r is Some ==> {
                &&& r->0.summary is Running <==> running > 0
                &&& r->0.summary is Failed <==> running == 0 && failed > 0
                &&& r->0.summary is Running ==> r->0.summary->Running_count == running
                    && r->0.summary->bytes_done == moved(jobs) && r->0.summary->bytes_total
                    == to_move(jobs)
                &&& r->0.summary is Failed ==> r->0.summary->Failed_count == failed
                &&& r->0.tone is Danger <==> running == 0 && failed > 0
                &&& r->0.expanded <==> s.tray_expanded || s.show_history
                &&& r->0.jobs is Some <==> r->0.expanded
                &&& r->0.underline is Some <==> running > 0 && !r->0.expanded
                &&& r->0.underline is Some ==> r->0.underline->0 == (failed > 0)
            }
        }),
{
}

/// The crumbs lead one by one from the root to the directory shown, which is
/// the last and the current one.
pub proof fn the_last_crumb_is_where_one_is(v: Seq<Crumb>, path: Seq<char>)
    requires
        draws_crumbs(v, path),
    ensures
        v.len() == remote_files::segments(path).len() + 1,
        v[0].path@ == seq!['/'] && v[0].label@ == seq!['/'],
        v.last().current,
        forall|i: int| 0 <= i < v.len() - 1 ==> !(#[trigger] v[i]).current,
        forall|i: int|
            1 <= i < v.len() ==> (#[trigger] v[i]).label@ == remote_files::segments(path)[i - 1]
                && v[i].arrow && v[i].path@ == remote_files::path_to(
                remote_files::segments(path).take(i),
            ),
        !v[0].arrow,
{
    assert(v[0].label@ == remote_files::crumbs_of(path)[0].0);
    assert(v[v.len() - 1].current);
}

/// The way up is drawn exactly where there is somewhere higher to go and
/// nothing is filtered.
pub proof fn the_way_up_is_drawn_below_the_root(cwd: Seq<char>, filter: Seq<char>)
    ensures
        cwd == seq!['/'] ==> !has_way_up(cwd, filter),
        text::trimmed(filter).len() > 0 ==> !has_way_up(cwd, filter),
        cwd != seq!['/'] && text::trimmed(filter).len() == 0 ==> has_way_up(cwd, filter),
{
}

/// A report stands in place of the list. Without one the list is drawn as soon
/// as there is a row or a way up; else it says that it waits, or that there is
/// nothing.
pub proof fn a_report_stands_in_place_of_the_list(
    r: SftpList,
    s: SftpPanelState,
    filter: Seq<char>,
)
    requires
        is_list(r, s, filter),
    ensures
        s.error is Some ==> r is Error,
        s.error is None && has_way_up(s.cwd@, filter) ==> r is Rows && r->go_up,
        s.error is None && !has_way_up(s.cwd@, filter) && r is Rows ==> !r->go_up
            && r->rows@.len() > 0,
        s.error is None ==> r !is Error,
        r is Loading ==> s.loading,
        r is Empty ==> !s.loading,
{
}

/// A form is headed by what it was opened for.
pub proof fn a_form_is_headed_by_what_it_does(editing: Option<SftpEdit>)
    ensures
        form_title(editing) is None <==> editing is None,
        form_title(editing) matches Some(FormTitle::NewFolder) <==> editing matches Some(
            SftpEdit::NewFolder,
        ),
        form_title(editing) matches Some(FormTitle::NewFile) <==> editing matches Some(
            SftpEdit::NewFile,
        ),
        form_title(editing) matches Some(FormTitle::Rename) <==> editing matches Some(
            SftpEdit::Rename { .. },
        ),
        form_title(editing) matches Some(FormTitle::Permissions(_)) <==> editing matches Some(
            SftpEdit::Chmod { .. },
        ),
        editing matches Some(SftpEdit::Chmod { readable, .. }) ==> form_title(editing) == Some(
            FormTitle::Permissions(readable),
        ),
{
}

/// The menu of the panel makes a folder, a file, sends files, goes where the
/// shell is, and shows the history or hides it again.
pub proof fn the_panels_menu_offers_each_action_once(s: SftpPanelState)
    ensures
        menu_lines(s).len() == 6,
        menu_lines(s)[0] == SftpMenuLine::Item(SftpMenuAction::NewFolder),
        menu_lines(s)[1] == SftpMenuLine::Item(SftpMenuAction::NewFile),
        menu_lines(s)[2] == SftpMenuLine::Item(SftpMenuAction::Upload),
        menu_lines(s)[3] == SftpMenuLine::Item(SftpMenuAction::GotoShellCwd),
        menu_lines(s)[4] == SftpMenuLine::Separator,
        menu_lines(s)[5] == (SftpMenuLine::History { shown: s.show_history }),
{
}

/// The path is a field exactly while it is typed, and else its crumbs.
pub proof fn a_path_is_typed_or_walked(r: Breadcrumb, s: SftpPanelState)
    requires
        is_breadcrumb(r, s),
    ensures
        r is Field <==> s.editing_path,
        r is Crumbs ==> draws_crumbs(r->Crumbs_0@, s.cwd@),
{
}

/// The rows draw the entries that are listed, one by one.
pub proof fn rows_draw_what_is_listed(v: Seq<SftpRow>, listed: Seq<&SftpEntry>, i: int)
    requires
        draws_rows(v, listed),
        0 <= i < listed.len(),
    ensures
        v.len() == listed.len(),
        v[i].name@ == listed[i].name@,
        v[i].folder == remote_files::dir_like(*listed[i]),
{
    assert(draws_row(v[i], *listed[i]));
}

} // verus!
