use tty7_ui::remote_files::{
    breadcrumb_segments, human_size, mode_string, octal_of, parse_mode, remote_basename, remote_join,
    remote_parent, safe_local_name, sorted_filtered_entries, SftpEntry, SftpEntryKind,
};
use tty7_ui::sftp::{
    pane_shell_cwd, pane_workspace, Answer, EntryStep, FocusedPane, ListRequest, LocalEnd, MenuStep, OpenStep, PickedPath,
    ReplyBody, RightPanel, RightPanelTab, SftpError, SftpJobProgress, SftpJobState, SftpMenuAction, SftpOp,
    SftpOpResult, SftpPanelState, SftpRoute, SftpTransferKind, WorkspaceReply,
};
use tty7_ui::sftp_view::{
    render_sftp_job, render_sftp_row, sftp_row_context_menu, Breadcrumb, FormTitle, JobStatus, RowAction,
    SftpList, TraySummary,
};

fn entry(name: &str, kind: SftpEntryKind, target_is_dir: bool) -> SftpEntry {
    SftpEntry { name: name.to_string(), kind, size: 0, mtime: 0, permissions: 0, target_is_dir }
}

#[test]
fn breadcrumb_segments_splits_absolute_paths() {
    assert_eq!(breadcrumb_segments("/"), vec![("/".into(), "/".into())]);
    assert_eq!(
        breadcrumb_segments("/home/deploy"),
        vec![
            ("/".to_string(), "/".to_string()),
            ("home".to_string(), "/home".to_string()),
            ("deploy".to_string(), "/home/deploy".to_string()),
        ]
    );
    assert_eq!(
        breadcrumb_segments("/项目/子"),
        vec![
            ("/".to_string(), "/".to_string()),
            ("项目".to_string(), "/项目".to_string()),
            ("子".to_string(), "/项目/子".to_string()),
        ]
    );
}

#[test]
fn sort_puts_dirs_first_then_name_case_insensitively() {
    let entries = vec![
        entry("Zebra.txt", SftpEntryKind::File, false),
        entry("apple", SftpEntryKind::Dir, false),
        entry("beta.txt", SftpEntryKind::File, false),
        entry("Alpha", SftpEntryKind::Dir, false),
        entry("link-to-dir", SftpEntryKind::Symlink, true),
        entry("link-to-file", SftpEntryKind::Symlink, false),
    ];
    let sorted: Vec<&str> =
        sorted_filtered_entries(&entries, "").iter().map(|e| e.name.as_str()).collect();
    assert_eq!(
        sorted,
        vec!["Alpha", "apple", "link-to-dir", "beta.txt", "link-to-file", "Zebra.txt"]
    );
}

#[test]
fn filter_is_case_insensitive_substring() {
    let entries = vec![
        entry("README.md", SftpEntryKind::File, false),
        entry("src", SftpEntryKind::Dir, false),
        entry("Cargo.toml", SftpEntryKind::File, false),
    ];
    let names: Vec<&str> =
        sorted_filtered_entries(&entries, "a").iter().map(|e| e.name.as_str()).collect();
    assert_eq!(names, vec!["Cargo.toml", "README.md"]);
}

#[test]
fn human_size_scales_units() {
    assert_eq!(human_size(0), "0 B");
    assert_eq!(human_size(512), "512 B");
    assert_eq!(human_size(1024), "1.0K");
    assert_eq!(human_size(1536), "1.5K");
    assert_eq!(human_size(1024 * 1024), "1.0M");
}

#[test]
fn mode_string_renders_rwx() {
    assert_eq!(mode_string(0o755), "rwxr-xr-x");
    assert_eq!(mode_string(0o644), "rw-r--r--");
    assert_eq!(mode_string(0o000), "---------");
    assert_eq!(mode_string(0o777), "rwxrwxrwx");
}

#[test]
fn toggle_sftp_opens_files_then_closes_the_panel() {
    let mut panel = RightPanel { visible: false, tab: RightPanelTab::Info };
    panel.toggle_sftp();
    assert_eq!((panel.visible, panel.tab), (true, RightPanelTab::Files));
    panel.toggle_sftp();
    assert!(!panel.visible, "second press should close");
    panel.toggle_sftp();
    assert_eq!((panel.visible, panel.tab), (true, RightPanelTab::Files));
}

#[test]
fn toggle_sftp_switches_tabs_before_it_closes() {
    let mut panel = RightPanel { visible: true, tab: RightPanelTab::Info };
    panel.toggle_sftp();
    assert_eq!((panel.visible, panel.tab), (true, RightPanelTab::Files));
}

/// A size reads as its value in floating point does, written to one digit.
#[test]
fn sizes_are_rounded_to_one_digit() {
    let sizes = [
        1023u64,
        1075,
        1177,
        1280,
        1331,
        2047,
        10_239,
        1_048_575,
        1_073_741_823,
        (32769 << 38) + 1,
        (32769 << 38) + 5,
        u64::MAX,
    ];
    for bytes in sizes {
        let units = ["B", "K", "M", "G", "T"];
        let mut value = bytes as f64;
        let mut unit = 0;
        while value >= 1024.0 && unit < units.len() - 1 {
            value /= 1024.0;
            unit += 1;
        }
        let want =
            if unit == 0 { format!("{bytes} B") } else { format!("{value:.1}{}", units[unit]) };
        assert_eq!(human_size(bytes), want, "{bytes}");
    }
}

#[test]
fn a_mode_is_read_back_from_its_digits() {
    assert_eq!(octal_of(0o644), "644");
    assert_eq!(parse_mode("644"), Some(0o644));
    assert_eq!(parse_mode(&octal_of(0o7777)), Some(0o7777));
    assert_eq!(parse_mode("8"), None);
    assert_eq!(parse_mode(""), None);
}

#[test]
fn remote_paths_are_joined_and_taken_apart() {
    assert_eq!(remote_join("/home", "u"), "/home/u");
    assert_eq!(remote_join("/", "u"), "/u");
    assert_eq!(remote_parent("/home/u"), "/home");
    assert_eq!(remote_parent("/home"), "/");
    assert_eq!(remote_parent("/"), "/");
    assert_eq!(remote_basename("/home/u"), "u");
}

#[test]
fn a_name_that_leaves_its_folder_is_not_safe() {
    assert!(safe_local_name("report.txt"));
    assert!(!safe_local_name(""));
    assert!(!safe_local_name(".."));
    assert!(!safe_local_name("a/b"));
}

/// A pane of no workspace, with its shell in a directory.
fn focus(pane_id: u64, cwd: &str) -> FocusedPane {
    FocusedPane { pane_id, cwd: Some(cwd.to_string()), workspace: None }
}

fn opened(path: &str) -> SftpPanelState {
    let mut s = SftpPanelState::new();
    match s.sftp_open_at(4, &Some(focus(4, path))) {
        OpenStep::List(req) => s.sftp_listed(req, Ok(vec![])),
        other => panic!("{other:?}"),
    }
    s
}

#[test]
fn the_browser_opens_where_the_shell_is() {
    let focused = Some(focus(4, "/srv"));
    assert_eq!(pane_shell_cwd(&focused, 4).as_deref(), Some("/srv"));
    assert_eq!(pane_shell_cwd(&focused, 5), None);
    let mut s = SftpPanelState::new();
    match s.sftp_open_at(4, &focused) {
        OpenStep::List(req) => {
            assert_eq!((req.route, req.path.as_str()), (SftpRoute::new(4, None), "/srv"));
        },
        other => panic!("{other:?}"),
    }
    let mut s = SftpPanelState::new();
    assert!(matches!(s.sftp_open_at(4, &None), OpenStep::FindLogin { route: SftpRoute { pane_id: 4, workspace: None } }));
}

#[test]
fn an_overtaken_listing_is_dropped() {
    let mut s = opened("/a");
    let old = s.sftp_navigate("/a".into()).unwrap();
    let new = s.sftp_navigate("/b".into()).unwrap();
    s.sftp_listed(old, Ok(vec![entry("stale", SftpEntryKind::File, false)]));
    assert!(s.entries.is_empty());
    assert!(s.loading);
    s.sftp_listed(new, Ok(vec![entry("fresh", SftpEntryKind::File, false)]));
    assert_eq!(s.entries.len(), 1);
    assert_eq!(s.cwd, "/b");
    assert!(!s.loading);
}

#[test]
fn a_failed_listing_shows_its_message() {
    let mut s = opened("/a");
    let req = s.sftp_refresh().unwrap();
    s.sftp_listed(req, Err("denied".into()));
    assert!(matches!(&s.error, Some(SftpError::Message(m)) if m == "denied"));
    assert!(matches!(s.render_sftp_list(""), SftpList::Error(SftpError::Message(_))));
}

#[test]
fn a_closed_browser_takes_no_answer() {
    let mut s = opened("/a");
    let req = s.sftp_refresh().unwrap();
    s.sftp_close_browser();
    s.sftp_listed(req, Ok(vec![entry("late", SftpEntryKind::File, false)]));
    assert!(s.entries.is_empty());
    assert!(s.open_pane_id.is_none());
    assert!(s.sftp_refresh().is_none());
    assert!(s.sftp_up().is_none());
}

#[test]
fn a_pane_is_opened_where_it_was_left() {
    let mut s = opened("/a");
    let req = s.sftp_navigate("/a/deep".into()).unwrap();
    s.sftp_listed(req, Ok(vec![]));
    s.sftp_close_browser();
    match s.sftp_open_at(4, &Some(focus(4, "/elsewhere"))) {
        OpenStep::List(ListRequest { path, .. }) => assert_eq!(path, "/a/deep"),
        other => panic!("{other:?}"),
    }
}

#[test]
fn a_folder_is_entered_and_a_file_is_fetched() {
    let mut s = opened("/a");
    match s.sftp_open_entry(&entry("sub", SftpEntryKind::Dir, false)) {
        EntryStep::List(Some(req)) => assert_eq!(req.path, "/a/sub"),
        other => panic!("{other:?}"),
    }
    let mut s = opened("/a");
    match s.sftp_open_entry(&entry("f.txt", SftpEntryKind::File, false)) {
        EntryStep::Fetch(Some(spec)) => {
            assert_eq!(spec.kind, SftpTransferKind::Download);
            assert_eq!(spec.remote, "/a/f.txt");
            assert!(!spec.recursive);
            assert!(matches!(spec.local, LocalEnd::InDownloads(n) if n == "f.txt"));
        },
        other => panic!("{other:?}"),
    }
}

#[test]
fn an_unsafe_name_is_not_fetched() {
    let mut s = opened("/a");
    assert!(s.sftp_download_entry(&entry("../x", SftpEntryKind::File, false)).is_none());
    assert!(matches!(&s.error, Some(SftpError::UnsafeRemoteName(n)) if n == "../x"));
}

#[test]
fn deleting_tells_folders_from_files() {
    let s = opened("/a");
    let op = s.sftp_delete_entry(&entry("d", SftpEntryKind::Dir, false)).unwrap().op;
    assert!(matches!(op, SftpOp::RemoveDir { path } if path == "/a/d"));
    let op = s.sftp_delete_entry(&entry("l", SftpEntryKind::Symlink, true)).unwrap().op;
    assert!(matches!(op, SftpOp::RemoveFile { path } if path == "/a/l"));
}

#[test]
fn a_link_is_followed_to_its_target() {
    let mut s = opened("/a");
    let req = s.sftp_follow_symlink(&entry("l", SftpEntryKind::Symlink, true)).unwrap();
    assert_eq!(req.path, "/a/l");
    let list = s.sftp_symlink_read(&req, SftpOpResult::Link("/target".into())).unwrap();
    assert_eq!(list.path, "/target");
}

#[test]
fn a_rename_keeps_the_folder() {
    let mut s = opened("/a");
    assert_eq!(s.sftp_begin_rename("old".into()), "old");
    assert!(matches!(s.render_sftp_edit_form(), Some(FormTitle::Rename)));
    let op = s.sftp_commit_edit("new").unwrap().op;
    assert!(matches!(op, SftpOp::Rename { from, to } if from == "/a/old" && to == "/a/new"));
}

#[test]
fn a_new_folder_and_a_new_file_are_made_here() {
    let mut s = opened("/a");
    s.sftp_begin_new_folder();
    assert!(matches!(s.sftp_commit_edit("n").unwrap().op, SftpOp::Mkdir { path } if path == "/a/n"));
    s.sftp_begin_new_file();
    assert!(matches!(s.sftp_commit_edit("f").unwrap().op, SftpOp::CreateFile { path } if path == "/a/f"));
    s.sftp_begin_new_file();
    s.sftp_cancel_edit();
    assert!(s.sftp_commit_edit("f").is_none());
}

#[test]
fn a_mode_that_is_no_mode_is_refused() {
    let mut s = opened("/a");
    let mut e = entry("f", SftpEntryKind::File, false);
    e.permissions = 0o100644;
    assert_eq!(s.sftp_begin_chmod(&e), "644");
    assert!(s.sftp_commit_edit("9z").is_none());
    assert!(matches!(s.error, Some(SftpError::InvalidOctalMode)));

    let mut s = opened("/a");
    let typed = s.sftp_begin_chmod(&e);
    let op = s.sftp_commit_edit(&typed).unwrap().op;
    assert!(matches!(op, SftpOp::Chmod { path, mode } if path == "/a/f" && mode == 0o644));
}

#[test]
fn uploads_land_in_the_folder_shown() {
    let s = opened("/a");
    assert!(s.sftp_pick_upload());
    let specs = s.sftp_upload_paths(&vec![
        PickedPath { name: "x".into(), is_dir: false },
        PickedPath { name: "d".into(), is_dir: true },
    ]);
    assert_eq!(specs.len(), 2);
    assert_eq!((specs[0].remote.as_str(), specs[0].recursive), ("/a/x", false));
    assert_eq!((specs[1].remote.as_str(), specs[1].recursive), ("/a/d", true));
    assert_eq!(specs[1].kind, SftpTransferKind::Upload);
    assert!(matches!(specs[1].local, LocalEnd::Picked(1)));
}

fn job(job_id: u64, state: SftpJobState) -> SftpJobProgress {
    SftpJobProgress {
        job_id,
        kind: SftpTransferKind::Download,
        local: "/home/u/f.txt".into(),
        remote: "/a/f.txt".into(),
        bytes_done: 512,
        bytes_total: 2048,
        state,
        error: None,
    }
}

#[test]
fn a_dismissed_tray_is_gone_and_the_history_brings_it_back() {
    let mut s = opened("/a");
    s.sftp_poll_jobs(vec![job(1, SftpJobState::Running), job(2, SftpJobState::Done)]);
    let tray = s.sftp_transfers_footer().expect("a transfer runs");
    assert_eq!(
        tray.summary,
        TraySummary::Running { count: 1, bytes_done: 512, bytes_total: 2048 }
    );
    s.sftp_poll_jobs(vec![job(1, SftpJobState::Done), job(2, SftpJobState::Done)]);
    s.sftp_dismiss_tray();
    assert!(s.sftp_transfers_footer().is_none());
    s.sftp_toggle_history();
    s.tray_expanded = true;
    let tray = s.sftp_transfers_footer().expect("the history shows every transfer");
    assert_eq!(tray.jobs.map(|j| j.len()), Some(2));
}

#[test]
fn a_transfer_says_how_far_it_is() {
    let v = render_sftp_job(&job(1, SftpJobState::Running));
    assert!(matches!(v.status, JobStatus::Progress { done, total } if done == "512 B" && total == "2.0K"));
    assert!(v.can_cancel);
    let v = render_sftp_job(&job(1, SftpJobState::Done));
    assert!(matches!(v.status, JobStatus::Done));
    assert!(!v.can_cancel);
    let mut failed = job(1, SftpJobState::Error);
    failed.error = Some("disk full".into());
    let v = render_sftp_job(&failed);
    assert!(v.failed);
    assert!(matches!(v.status, JobStatus::Failed(Some(m)) if m == "disk full"));
    assert!(matches!(render_sftp_job(&job(1, SftpJobState::Cancelled)).status, JobStatus::Cancelled));
}

#[test]
fn rows_offer_what_can_be_done_to_them() {
    let link = sftp_row_context_menu(&entry("l", SftpEntryKind::Symlink, false));
    assert!(link.contains(&RowAction::FollowSymlink));
    let file = sftp_row_context_menu(&entry("f", SftpEntryKind::File, false));
    assert!(!file.contains(&RowAction::FollowSymlink));
    assert_eq!(file.last(), Some(&RowAction::Delete));
    let mut e = entry("f", SftpEntryKind::File, false);
    e.size = 1536;
    assert_eq!(render_sftp_row(&e).size, "1.5K");
    assert!(render_sftp_row(&entry("d", SftpEntryKind::Dir, false)).folder);
}

#[test]
fn the_list_is_filtered_as_typed() {
    let mut s = opened("/a");
    let req = s.sftp_refresh().unwrap();
    s.sftp_listed(
        req,
        Ok(vec![
            entry("README.md", SftpEntryKind::File, false),
            entry("src", SftpEntryKind::Dir, false),
        ]),
    );
    match s.render_panel_sftp("READ").list {
        SftpList::Rows { rows, .. } => {
            assert_eq!(rows.iter().map(|r| r.name.as_str()).collect::<Vec<_>>(), ["README.md"]);
        },
        other => panic!("{other:?}"),
    }
    match s.render_sftp_breadcrumb() {
        Breadcrumb::Crumbs(crumbs) => {
            assert_eq!(crumbs.last().map(|c| (c.label.as_str(), c.current)), Some(("a", true)));
        },
        other => panic!("{other:?}"),
    }
}

#[test]
fn the_menu_starts_what_it_names() {
    let mut s = opened("/a");
    let focused = Some(focus(4, "/shell"));
    assert!(matches!(s.sftp_menu_action(SftpMenuAction::Upload, &focused), MenuStep::PickFiles));
    match s.sftp_menu_action(SftpMenuAction::GotoShellCwd, &focused) {
        MenuStep::List(req) => assert_eq!(req.path, "/shell"),
        other => panic!("{other:?}"),
    }
    assert!(!s.show_history);
    s.sftp_menu_action(SftpMenuAction::ToggleHistory, &focused);
    assert!(s.show_history);
}

#[test]
fn the_path_can_be_typed() {
    let mut s = opened("/a");
    assert_eq!(s.sftp_begin_edit_path().as_deref(), Some("/a"));
    assert!(s.editing_path);
    assert!(matches!(s.render_sftp_breadcrumb(), Breadcrumb::Field));
    let req = s.sftp_commit_edit_path(" /etc ").unwrap();
    assert_eq!(req.path, "/etc");
    assert!(!s.editing_path);
}

#[test]
fn a_watch_ends_with_its_generation() {
    let mut s = opened("/a");
    let generation = s.poll_gen;
    assert_eq!(s.sftp_poll_due(generation, true), Some(SftpRoute::new(4, None)));
    assert!(s.sftp_polled(generation, vec![job(1, SftpJobState::Running)]));
    assert_eq!(s.jobs.len(), 1);
    s.sftp_download_started(Ok(2));
    assert_eq!(s.sftp_poll_due(generation, true), None, "a newer watch took over");
    assert!(!s.sftp_polled(generation, vec![]));
    assert_eq!(s.jobs.len(), 1);
    let generation = s.poll_gen;
    assert_eq!(s.sftp_poll_due(generation, false), None, "the panel was shut");
    assert!(s.open_pane_id.is_none());
}

#[test]
fn the_browser_follows_the_focused_pane() {
    let mut s = opened("/a");
    let other = Some(focus(5, "/b"));
    let (shown, step) = s.sftp_sync_pane(Some(4), &other);
    assert!(shown && step.is_none(), "it looks there already");
    let (shown, step) = s.sftp_sync_pane(Some(5), &other);
    assert!(shown && matches!(step, Some(OpenStep::List(req)) if req.path == "/b"));
    assert_eq!(s.sftp_route(), SftpRoute::new(5, None));
    let (shown, step) = s.sftp_sync_pane(None, &None);
    assert!(!shown && step.is_none());
    assert_eq!(s.sftp_route(), SftpRoute::new(0, None));
}

#[test]
fn a_login_folder_that_is_not_told_is_the_root() {
    let mut s = SftpPanelState::new();
    s.sftp_open_at(4, &None);
    assert!(s.sftp_navigate_login_dir(9, &SftpOpResult::Link("/x".into())).is_none());
    let req = s.sftp_navigate_login_dir(4, &SftpOpResult::Link("/home/u".into())).unwrap();
    assert_eq!(req.path, "/home/u");
    let req = s.sftp_navigate_login_dir(4, &SftpOpResult::Error("no".into())).unwrap();
    assert_eq!(req.path, "/");
}

#[test]
fn what_was_done_shows_in_a_fresh_listing() {
    let mut s = opened("/a");
    s.sftp_begin_new_folder();
    let req = s.sftp_run_op(4, SftpOpResult::Done).unwrap();
    assert_eq!(req.path, "/a");
    assert!(s.editing.is_none());
    assert!(s.sftp_run_op(4, SftpOpResult::Error("denied".into())).is_none());
    assert!(matches!(&s.error, Some(SftpError::Message(m)) if m == "denied"));
    assert!(s.sftp_run_op(9, SftpOpResult::Done).is_none(), "another pane's");
}

#[test]
fn a_failed_upload_is_told_of() {
    let mut s = opened("/a");
    let req = s.sftp_uploads_started(vec![Ok(1), Err("full".into())]).unwrap();
    assert_eq!(req.path, "/a");
    s.sftp_cancel_job(vec![job(1, SftpJobState::Cancelled)]);
    assert_eq!(s.jobs.len(), 1);
    let was = s.tray_expanded;
    s.sftp_toggle_tray();
    assert_eq!(s.tray_expanded, !was);
    assert!(s.sftp_enter_dir(&entry("f", SftpEntryKind::File, false)).is_none());
    let req = s.sftp_enter_dir(&entry("d", SftpEntryKind::Dir, false)).unwrap();
    assert_eq!(req.path, "/a/d");
    s.sftp_begin_edit_path();
    s.sftp_cancel_edit_path();
    assert!(!s.editing_path);
}

#[test]
fn going_up_undoes_entering_a_folder() {
    for dir in ["/", "/home", "/home/u"] {
        assert_eq!(remote_parent(&remote_join(dir, "sub")), dir);
        assert_eq!(remote_basename(&remote_join(dir, "sub")), "sub");
    }
}

#[test]
fn requests_go_through_the_workspace_of_the_pane() {
    let focused = Some(FocusedPane { pane_id: 4, cwd: Some("/a".into()), workspace: Some(7) });
    assert_eq!(pane_workspace(&focused, 4), Some(7));
    assert_eq!(pane_workspace(&focused, 5), None);
    let mut s = SftpPanelState::new();
    let route = SftpRoute::new(4, Some(7));
    match s.sftp_open_at(4, &focused) {
        OpenStep::List(req) => {
            assert_eq!(req.route, route);
            s.sftp_listed(req, Ok(vec![]));
        },
        other => panic!("{other:?}"),
    }
    assert_eq!(s.sftp_route(), route);
    let file = entry("f", SftpEntryKind::File, false);
    assert_eq!(s.sftp_delete_entry(&file).unwrap().route, route);
    assert_eq!(s.sftp_follow_symlink(&file).unwrap().route, route);
    assert_eq!(s.sftp_download_entry(&file).unwrap().route, route);
    let picked = vec![PickedPath { name: "up".into(), is_dir: false }];
    assert_eq!(s.sftp_upload_paths(&picked)[0].route, route);
    let generation = s.poll_gen;
    assert_eq!(s.sftp_poll_due(generation, true), Some(route));
    s.sftp_begin_new_folder();
    assert_eq!(s.sftp_commit_edit("new").unwrap().route, route);
    s.sftp_close_browser();
    assert_eq!(s.open_workspace, None);
    match s.sftp_open_at(4, &None) {
        OpenStep::List(req) => assert_eq!(req.route, SftpRoute::new(4, None), "out of focus"),
        other => panic!("{other:?}"),
    }
}

#[test]
fn a_reply_that_is_no_answer_is_an_error() {
    let reply = |body| Ok(WorkspaceReply { body, unexpected: "unexpected".into() });
    let listing = SftpRoute::list(Answer::Workspace(reply(ReplyBody::Entries(vec![]))));
    assert!(matches!(listing, Ok(e) if e.is_empty()));
    let listing = SftpRoute::list(Answer::Workspace(reply(ReplyBody::Started(1))));
    assert!(matches!(listing, Err(e) if e == "unexpected"));
    let listing = SftpRoute::list(Answer::Workspace(Err("gone".into())));
    assert!(matches!(listing, Err(e) if e == "gone"));
    let listing = SftpRoute::list(Answer::Direct(Err("denied".into())));
    assert!(matches!(listing, Err(e) if e == "denied"));

    let op = SftpRoute::op(Answer::Workspace(reply(ReplyBody::OpResult(SftpOpResult::Done))));
    assert!(matches!(op, SftpOpResult::Done));
    let op = SftpRoute::op(Answer::Workspace(reply(ReplyBody::Other)));
    assert!(matches!(op, SftpOpResult::Error(e) if e == "unexpected"));
    let op = SftpRoute::op(Answer::Workspace(Err("gone".into())));
    assert!(matches!(op, SftpOpResult::Error(e) if e == "gone"));
    assert!(matches!(SftpRoute::op(Answer::Direct(SftpOpResult::Done)), SftpOpResult::Done));

    assert_eq!(SftpRoute::transfer_start(Answer::Workspace(reply(ReplyBody::Started(3)))), Ok(3));
    assert_eq!(
        SftpRoute::transfer_start(Answer::Workspace(reply(ReplyBody::Other))),
        Err("unexpected".into())
    );
    assert_eq!(SftpRoute::transfer_start(Answer::Workspace(Err("gone".into()))), Err("gone".into()));
    assert_eq!(SftpRoute::transfer_start(Answer::Direct(Ok(5))), Ok(5));

    let jobs = vec![job(1, SftpJobState::Running)];
    assert_eq!(SftpRoute::transfer_list(Answer::Workspace(reply(ReplyBody::Progress(jobs)))).len(), 1);
    assert!(SftpRoute::transfer_list(Answer::Workspace(reply(ReplyBody::Other))).is_empty());
    assert!(SftpRoute::transfer_list(Answer::Workspace(Err("gone".into()))).is_empty());
    assert_eq!(SftpRoute::transfer_list(Answer::Direct(vec![job(1, SftpJobState::Done)])).len(), 1);
}
