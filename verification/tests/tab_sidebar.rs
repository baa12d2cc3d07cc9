use tty7_ui::chrome::TabAvatar;
use tty7_ui::drag::{display_order, DragPreview};
use tty7_ui::groups::{group_names, AutoKey, GroupKey};
use tty7_ui::paths::FolderPath;
use tty7_ui::sections::{
    badge_positions, flat_tabs, regrouped_order, reordered_pinned, reordered_rows, sidebar_sections,
};
use tty7_ui::sidebar::{ssh_host, Regroup, RemoteContext, RemoteKind, Sidebar, SidebarTab, TabProbe};
use tty7_ui::preferences::TabBarPosition;
use tty7_ui::sidebar_view::{
    diff_activates, diff_click_cwd, sidebar_info, GitStatus, RailFacts, RowFacts, Shown, TitleSource,
    DIFF_PREVIEW_DEFAULT,
};
use tty7_ui::tab_strip::{StatusWords, TabFacts};
use tty7_ui::workspace::{auto_key, pinned_names, EntryWatch, PinnedGroup, WorkspaceGroups};

fn p(s: &str) -> FolderPath {
    FolderPath { text: s.to_string(), windows: false }
}

/// The same on Windows.
fn w(s: &str) -> FolderPath {
    FolderPath { text: s.to_string(), windows: true }
}

fn text(path: &Option<FolderPath>) -> Option<&str> {
    path.as_ref().map(|p| p.text.as_str())
}

/// The auto group keyed on repo root `s`.
fn g(s: &str) -> GroupKey {
    GroupKey::Auto(AutoKey::Repo(p(s)))
}

fn host(s: &str) -> GroupKey {
    GroupKey::Auto(AutoKey::SshHost(s.into()))
}

fn none() -> WorkspaceGroups {
    WorkspaceGroups::new()
}

#[test]
fn diff_preview_setting_gates_the_click_target() {
    let mut sidebar_diff_preview = DIFF_PREVIEW_DEFAULT;
    assert!(sidebar_diff_preview, "default is today's behaviour");
    assert_eq!(
        diff_click_cwd(sidebar_diff_preview, Some(p("/w/repo"))),
        Some(p("/w/repo")),
        "enabled: the counts are a click target"
    );

    sidebar_diff_preview = false;
    assert_eq!(
        diff_click_cwd(sidebar_diff_preview, Some(p("/w/repo"))),
        None,
        "disabled: no cwd, so no cursor and no toggle_diff_overlay"
    );
}

#[test]
fn diff_click_target_needs_a_repo_either_way() {
    assert_eq!(diff_click_cwd::<FolderPath>(true, None), None);
    assert_eq!(diff_click_cwd::<FolderPath>(false, None), None);
}

/// Two machines' `/home/ubuntu` are two directories: each host gets a
/// group of its own, named for the host.
#[test]
fn ssh_tabs_on_two_hosts_land_in_two_groups() {
    let keys = [Some(host("ubuntu@alpha")), Some(host("ubuntu@beta")), Some(host("ubuntu@alpha"))];
    let sections = sidebar_sections(&keys, &none(), "Ungrouped");
    let shape: Vec<(Option<String>, Vec<usize>)> =
        sections.into_iter().map(|s| (s.name, s.tabs)).collect();
    assert_eq!(
        shape,
        vec![
            (Some("ubuntu@alpha".into()), vec![0, 2]),
            (Some("ubuntu@beta".into()), vec![1]),
        ]
    );
}

#[test]
fn a_shell_that_sshd_onward_groups_by_host_and_wsl_does_not() {
    let ctx = |kind| RemoteContext { kind, argv: vec![], target: "u@h".into() };
    assert_eq!(ssh_host(Some(&ctx(RemoteKind::Ssh))).as_deref(), Some("u@h"));
    assert_eq!(ssh_host(Some(&ctx(RemoteKind::NativeSsh))).as_deref(), Some("u@h"));
    assert_eq!(ssh_host(Some(&ctx(RemoteKind::Wsl))), None);
    assert_eq!(ssh_host(None), None);
}

#[test]
fn sections_order_groups_by_first_appearance_ungrouped_last() {
    let keys = vec![Some(g("/w/beta")), None, Some(g("/w/alpha")), Some(g("/w/beta"))];
    let sections = sidebar_sections(&keys, &none(), "Ungrouped");
    let shape: Vec<(Option<GroupKey>, Option<String>, Vec<usize>)> =
        sections.into_iter().map(|s| (s.key, s.name, s.tabs)).collect();
    assert_eq!(
        shape,
        vec![
            (Some(g("/w/beta")), Some("beta".into()), vec![0, 3]),
            (Some(g("/w/alpha")), Some("alpha".into()), vec![2]),
            (None, Some("Ungrouped".into()), vec![1]),
        ]
    );

    let flat = sidebar_sections(&[None, None], &none(), "Ungrouped");
    assert_eq!(flat.len(), 1);
    assert_eq!(flat[0].name, None);
    assert_eq!(flat[0].tabs, vec![0, 1]);
}

/// Pinned groups come first, in the order the user gave them, whatever
/// order their tabs are in — and an empty one keeps its place.
#[test]
fn pinned_groups_lead_in_their_own_order_empty_or_not() {
    let mut groups = none();
    let (a, b, c) = (PinnedGroup::label("a"), PinnedGroup::folder(p("/w/b")), PinnedGroup::label("c"));
    groups.pinned = vec![a.clone(), b.clone(), c.clone()];
    let keys = vec![
        Some(g("/w/r")),
        Some(GroupKey::Pinned(c.id)),
        Some(GroupKey::Pinned(a.id)),
        None,
    ];
    let sections = sidebar_sections(&keys, &groups, "Ungrouped");
    let shape: Vec<(Option<String>, Vec<usize>)> =
        sections.into_iter().map(|s| (s.name, s.tabs)).collect();
    assert_eq!(
        shape,
        vec![
            (Some("a".into()), vec![2]),
            (Some("b".into()), vec![]),
            (Some("c".into()), vec![1]),
            (Some("r".into()), vec![0]),
            (Some("Ungrouped".into()), vec![3]),
        ]
    );
}

/// With pinned groups and nothing auto-grouped below them, the rest is
/// just the list — a header reading "Ungrouped" over all of it would be a
/// label on nothing.
#[test]
fn below_pinned_groups_the_rest_needs_no_header_on_its_own() {
    let mut groups = none();
    let work = PinnedGroup::label("work");
    groups.pinned = vec![work.clone()];
    let keys = vec![Some(GroupKey::Pinned(work.id)), None];
    let sections = sidebar_sections(&keys, &groups, "Ungrouped");
    assert_eq!(sections.len(), 2);
    assert_eq!(sections[1].name, None);
    assert_eq!(sections[1].tabs, vec![1]);
}

/// The badge on a row and the tab a chord opens are two readings of one order,
/// taken in two places. Grouping makes them diverge from the order of the
/// tabs — tab 3 sits in the second row here — so if they are ever read
/// off different things, the badge names a chord that opens another tab.
#[test]
fn a_row_badge_names_the_chord_that_opens_that_row() {
    let keys = vec![Some(g("/w/beta")), None, Some(g("/w/alpha")), Some(g("/w/beta"))];
    let order = flat_tabs(&sidebar_sections(&keys, &none(), "Ungrouped"));
    assert_eq!(order, vec![0, 3, 2, 1]);

    let badge_pos = badge_positions(&order, keys.len());
    let mut sidebar = sidebar(4);
    for (row, tab) in order.iter().copied().enumerate() {
        let chord = badge_pos[tab] + 1;
        sidebar.activate_visual(&order, badge_pos[tab]);
        let opens = sidebar.active;
        assert_eq!(opens, tab, "row {row} badges {chord}, which opens tab {opens}");
    }
}

#[test]
fn reordered_rows_moves_within_the_group_only() {
    let keys = vec![Some(g("/w/alpha")), Some(g("/w/beta")), Some(g("/w/alpha")), None];
    let alpha = Some(g("/w/alpha"));
    assert_eq!(
        reordered_rows(&keys, &none(), &alpha, &[0, 2], 0, 1),
        Some(vec![2, 0, 1, 3])
    );
    assert_eq!(
        reordered_rows(&keys, &none(), &alpha, &[0, 2], 1, 0),
        Some(vec![2, 0, 1, 3])
    );
    assert_eq!(reordered_rows(&keys, &none(), &alpha, &[0, 2], 1, 1), None);
}

#[test]
fn reordered_rows_leaves_filtered_out_rows_alone() {
    let keys = vec![Some(g("/w/a")), Some(g("/w/a")), Some(g("/w/a"))];
    let a = Some(g("/w/a"));
    assert_eq!(reordered_rows(&keys, &none(), &a, &[0, 2], 0, 1), Some(vec![1, 2, 0]));
}

/// A pinned group is where a tab was put, and rows move within it the
/// same way they move within a repo group.
#[test]
fn rows_reorder_inside_a_pinned_group_too() {
    let mut groups = none();
    let work = PinnedGroup::label("work");
    groups.pinned = vec![work.clone()];
    let w = Some(GroupKey::Pinned(work.id));
    let keys = vec![w.clone(), Some(g("/w/beta")), w.clone()];
    assert_eq!(reordered_rows(&keys, &groups, &w, &[0, 2], 0, 1), Some(vec![2, 0, 1]));
}

#[test]
fn regrouped_order_moves_the_group_into_the_target_slot() {
    let keys = vec![
        Some(g("/w/alpha")),
        None,
        Some(g("/w/beta")),
        Some(g("/w/alpha")),
        Some(g("/w/gamma")),
    ];
    let r = |s: &str| AutoKey::Repo(p(s));
    assert_eq!(
        regrouped_order(&keys, &r("/w/gamma"), &r("/w/alpha")),
        Some(vec![4, 0, 3, 2, 1])
    );
    assert_eq!(
        regrouped_order(&keys, &r("/w/alpha"), &r("/w/gamma")),
        Some(vec![2, 4, 0, 3, 1])
    );
}

#[test]
fn regrouped_order_ignores_self_and_unknown_roots() {
    let keys = vec![Some(g("/w/alpha")), Some(g("/w/beta"))];
    let r = |s: &str| AutoKey::Repo(p(s));
    assert_eq!(regrouped_order(&keys, &r("/w/alpha"), &r("/w/alpha")), None);
    assert_eq!(regrouped_order(&keys, &r("/w/gone"), &r("/w/beta")), None);
    assert_eq!(regrouped_order(&keys, &r("/w/alpha"), &r("/w/gone")), None);
}

#[test]
fn reordered_pinned_moves_a_header_among_the_ones_shown() {
    let ids: Vec<u128> = (0..4).map(|_| PinnedGroup::label("g").id).collect();
    // All four shown: dragging the first onto the third.
    assert_eq!(reordered_pinned(&ids, &ids, 0, 2), Some(vec![1, 2, 0, 3]));
    assert_eq!(reordered_pinned(&ids, &ids, 3, 0), Some(vec![3, 0, 1, 2]));
    assert_eq!(reordered_pinned(&ids, &ids, 1, 1), None);
    // A search hides the second; it keeps its place.
    let shown = [ids[0], ids[2], ids[3]];
    assert_eq!(reordered_pinned(&ids, &shown, 2, 0), Some(vec![3, 0, 1, 2]));
}

/// A label is the name the user typed. Running it through the path
/// splitter would chop one containing a `/` into components and then
/// "shorten" it to the tail, so `work/urgent` would print as `urgent`.
#[test]
fn a_label_is_never_shortened_the_way_a_path_is() {
    let pinned = vec![PinnedGroup::label("work/urgent"), PinnedGroup::folder(p("/home/u/tty7"))];
    assert_eq!(pinned_names(&pinned), vec!["work/urgent", "tty7"]);
}

/// Two folders ending in the same component grow a prefix until they
/// differ, the way two repo roots do; a named one sits that out.
#[test]
fn pinned_folders_disambiguate_like_repo_roots() {
    let mut named = PinnedGroup::folder(p("/home/u/other/app"));
    named.name = Some("mine".into());
    let pinned =
        vec![PinnedGroup::folder(p("/home/u/work/app")), named, PinnedGroup::folder(p("/home/u/fork/app"))];
    assert_eq!(pinned_names(&pinned), vec!["work/app", "mine", "fork/app"]);
}

#[test]
fn group_names_disambiguate_only_the_collisions() {
    let names = group_names(&vec![p("/home/u/work/app"), p("/home/u/fork/app"), p("/home/u/tty7")]);
    assert_eq!(names, vec!["work/app", "fork/app", "tty7"]);
}

#[test]
fn group_names_handle_suffix_roots() {
    let names = group_names(&vec![p("/app"), p("/x/app")]);
    assert_eq!(names, vec!["app", "x/app"]);
}

fn sidebar(tabs: u64) -> Sidebar {
    Sidebar {
        tabs: (0..tabs).map(SidebarTab::new).collect(),
        active: 0,
        groups: none(),
        group_rename: None,
    }
}

/// A tab in a directory that is in the repo whose home is `home`.
fn in_repo(cwd: &str, home: &str) -> TabProbe {
    TabProbe { terminal: true, remote: None, cwd: Some(p(cwd)), known_repo: Some(Some(p(home))) }
}

/// A tab somewhere known to be in no repo at all.
fn in_plain(cwd: &str) -> TabProbe {
    TabProbe { terminal: true, remote: None, cwd: Some(p(cwd)), known_repo: Some(None) }
}

/// A tab of which nothing is known yet.
fn unknown() -> TabProbe {
    TabProbe { terminal: true, remote: None, cwd: None, known_repo: None }
}

fn label(s: &mut Sidebar, name: &str) -> u128 {
    let group = PinnedGroup::label(name);
    let id = group.id;
    s.groups.pinned.push(group);
    id
}

fn folder(s: &mut Sidebar, path: &str) -> u128 {
    s.pin_folder(p(path));
    s.groups.pinned.iter().find(|g| g.folder == Some(p(path))).expect("just pinned").id
}

/// What a frame does: tabs that walked into a kept folder join it, then each is placed.
fn frame(s: &mut Sidebar, probes: &Vec<TabProbe>) -> Vec<Option<GroupKey>> {
    s.settle_sidebar_groups(probes);
    s.sidebar_group_keys(probes, true)
}

#[test]
fn a_probe_files_an_auto_tab_and_never_a_pinned_one() {
    let mut s = sidebar(2);
    let work = label(&mut s, "work");
    s.set_tab_group(0, Some(work));
    let probes =
        vec![in_repo("/w/probed/sub", "/w/probed"), in_repo("/w/probed/sub", "/w/probed")];
    let keys = frame(&mut s, &probes);
    assert_eq!(keys[0], Some(GroupKey::Pinned(work)));
    assert_eq!(keys[1], Some(g("/w/probed")));
}

#[test]
fn a_tab_handed_back_to_auto_follows_its_cwd_again() {
    let mut s = sidebar(1);
    let work = label(&mut s, "work");
    s.set_tab_group(0, Some(work));
    let probes = vec![in_repo("/w/probed/sub", "/w/probed")];
    assert_eq!(frame(&mut s, &probes)[0], Some(GroupKey::Pinned(work)));
    let dragged = s.tabs[0].tree_id;
    s.regroup_tab(dragged, Regroup::ToAuto);
    assert_eq!(frame(&mut s, &probes)[0], Some(g("/w/probed")));
}

#[test]
fn a_drop_finds_its_tab_after_the_indexes_shift() {
    let mut s = sidebar(3);
    let dragged = s.tabs[2].tree_id;
    let work = label(&mut s, "work");
    s.tabs.remove(0);
    s.regroup_tab(dragged, Regroup::Into(work));
    let moved = s.tabs.iter().find(|t| t.tree_id == dragged).expect("still open");
    assert_eq!(moved.group, Some(work));
    assert!(s.tabs.iter().filter(|t| t.tree_id != dragged).all(|t| t.group.is_none()));
}

#[test]
fn a_tab_spawned_inside_a_pinned_group_joins_it() {
    let mut s = sidebar(1);
    let work = label(&mut s, "work");
    s.set_tab_group(0, Some(work));
    s.active = 0;
    let known = || Some(Some(p("/w/probed")));
    let place = s.spawn_group(Some(&p("/w/probed/sub")), known());
    assert_eq!(place.group, Some(work));

    s.set_tab_group(0, None);
    let place = s.spawn_group(Some(&p("/w/probed/sub")), known());
    assert_eq!(place.group, None, "with nothing kept, nothing inherited");
    assert_eq!(place.auto, Some(Some(AutoKey::Repo(p("/w/probed")))));
}

#[test]
fn a_tab_spawned_in_a_pinned_folder_joins_it() {
    let mut s = sidebar(1);
    let tty7 = folder(&mut s, "/w/tty7");
    assert_eq!(s.spawn_group(Some(&p("/w/tty7/src")), None).group, Some(tty7));
    assert_eq!(s.spawn_group(Some(&p("/w/else")), None).group, None);
}

#[test]
fn renaming_a_group_keeps_its_tabs_in_it() {
    let mut s = sidebar(2);
    let work = label(&mut s, "work");
    s.set_tab_group(0, Some(work));
    s.set_tab_group(1, Some(work));
    assert_eq!(s.start_group_rename(work).as_deref(), Some("work"));
    s.commit_group_rename("urgent");
    assert_eq!(s.pinned_group_names(), vec![(work, "urgent".to_string())]);
    assert!(s.tabs.iter().all(|t| t.group == Some(work)));
}

#[test]
fn a_blank_rename_keeps_a_label_and_resets_a_folder() {
    let mut s = sidebar(1);
    let work = label(&mut s, "work");
    let tty7 = folder(&mut s, "/w/tty7");
    let at = s.groups.find(tty7).expect("pinned");
    s.groups.pinned[at].name = Some("mine".into());
    for id in [work, tty7] {
        s.start_group_rename(id);
        s.commit_group_rename("   ");
    }
    assert_eq!(
        s.pinned_group_names(),
        vec![(work, "work".to_string()), (tty7, "tty7".to_string())]
    );
}

#[test]
fn a_second_new_group_does_not_land_on_the_first() {
    let mut s = sidebar(2);
    s.new_tab_group(0, "New group");
    s.commit_group_rename("New group");
    let second = s.new_tab_group(1, "New group");
    let typed = s.start_group_rename(second).expect("the box is up");
    s.commit_group_rename(&typed);
    let names = s.pinned_group_names();
    assert_eq!(names.len(), 2);
    assert_ne!(names[0].1, names[1].1);
    assert_ne!(s.tabs[0].group, s.tabs[1].group);
}

#[test]
fn auto_grouping_off_hides_auto_groups_and_keeps_pinned_ones() {
    let mut s = sidebar(3);
    let work = label(&mut s, "work");
    s.set_tab_group(0, Some(work));
    let probes = vec![unknown(), in_repo("/w/alpha", "/w/alpha"), in_plain("/tmp")];
    let keys = s.sidebar_group_keys(&probes, false);
    assert_eq!(keys, vec![Some(GroupKey::Pinned(work)), None, None]);
    let sections = sidebar_sections(&keys, &s.groups, "Ungrouped");
    assert_eq!(
        sections.iter().map(|s| s.name.clone()).collect::<Vec<_>>(),
        vec![Some("work".into()), None]
    );

    let keys = s.sidebar_group_keys(&probes, true);
    assert_eq!(keys, vec![Some(GroupKey::Pinned(work)), Some(g("/w/alpha")), None]);
    let sections = sidebar_sections(&keys, &s.groups, "Ungrouped");
    assert_eq!(sections.last().and_then(|s| s.name.clone()), Some("Ungrouped".into()));
}

#[test]
fn a_tab_walking_into_a_pinned_folder_joins_it() {
    let mut s = sidebar(2);
    let probed = folder(&mut s, "/w/probed");
    frame(&mut s, &vec![in_plain("/w/elsewhere"), in_plain("/w/elsewhere")]);
    let keys =
        frame(&mut s, &vec![in_repo("/w/probed/sub", "/w/probed"), in_plain("/w/elsewhere")]);
    assert_eq!(s.tabs[0].group, Some(probed), "walked in: joined");
    assert_eq!(s.tabs[1].group, None, "stayed out: did not");
    assert_eq!(keys[0], Some(GroupKey::Pinned(probed)));
}

#[test]
fn nested_pinned_folders_file_a_tab_under_the_deepest() {
    let mut s = sidebar(2);
    let mono = folder(&mut s, "/w/mono");
    let pkg = folder(&mut s, "/w/mono/pkg");
    frame(&mut s, &vec![in_repo("/w/mono/pkg/src", "/w/mono"), in_repo("/w/mono/docs", "/w/mono")]);
    assert_eq!(s.tabs[0].group, Some(pkg));
    assert_eq!(s.tabs[1].group, Some(mono));
}

#[test]
fn a_worktree_joins_the_folder_its_repo_home_is_pinned_as() {
    let mut s = sidebar(1);
    let tty7 = folder(&mut s, "/w/tty7");
    frame(&mut s, &vec![in_repo("/tmp/wt/feature/src", "/w/tty7")]);
    assert_eq!(s.tabs[0].group, Some(tty7));
}

#[test]
fn a_tab_dragged_out_is_not_pulled_back_until_it_re_enters() {
    let mut s = sidebar(1);
    let probed = folder(&mut s, "/w/probed");
    let inside = vec![in_repo("/w/probed/sub", "/w/probed")];
    frame(&mut s, &inside);
    assert_eq!(s.tabs[0].group, Some(probed), "joined on the way in");
    s.set_tab_group(0, None);
    for _ in 0..3 {
        frame(&mut s, &inside);
    }
    assert_eq!(s.tabs[0].group, None, "still inside: stays out");
    frame(&mut s, &vec![in_plain("/w/elsewhere")]);
    assert_eq!(s.tabs[0].group, None, "left: nothing to join");
    frame(&mut s, &inside);
    assert_eq!(s.tabs[0].group, Some(probed), "re-entered: joined");
}

#[test]
fn a_restored_tab_is_not_pulled_in_by_where_it_already_is() {
    let mut s = sidebar(1);
    s.tabs[0].folder_watch = EntryWatch::baseline();
    folder(&mut s, "/w/probed");
    frame(&mut s, &vec![in_repo("/w/probed/sub", "/w/probed")]);
    assert_eq!(s.tabs[0].group, None);
}

#[test]
fn deleting_a_group_returns_its_tabs_to_auto_grouping() {
    let mut s = sidebar(2);
    let work = label(&mut s, "work");
    s.set_tab_group(0, Some(work));
    s.set_tab_group(1, Some(work));
    s.delete_group(work);
    assert_eq!(s.tabs.len(), 2, "no tab was closed");
    assert!(s.groups.pinned.is_empty());
    assert!(s.tabs.iter().all(|t| t.group.is_none()));
    let keys = frame(&mut s, &vec![in_repo("/w/alpha", "/w/alpha"), unknown()]);
    assert_eq!(keys[0], Some(g("/w/alpha")));
}

#[test]
fn pinning_an_auto_group_keeps_its_tabs_and_its_folder() {
    let mut s = sidebar(3);
    let probes = vec![
        in_repo("/w/alpha", "/w/alpha"),
        in_repo("/w/alpha/src", "/w/alpha"),
        in_repo("/w/beta", "/w/beta"),
    ];
    s.toggle_sidebar_group(&Some(g("/w/alpha")));
    let keys = frame(&mut s, &probes);
    s.pin_auto_group(AutoKey::Repo(p("/w/alpha")), &keys);
    frame(&mut s, &probes);
    let group = s.groups.pinned.first().expect("pinned");
    assert_eq!(text(&group.folder), Some("/w/alpha"));
    assert!(group.collapsed, "the fold came along");
    assert!(s.groups.auto_collapsed.is_empty());
    assert_eq!(s.tabs[0].group, Some(group.id));
    assert_eq!(s.tabs[1].group, Some(group.id));
    assert_eq!(s.tabs[2].group, None, "beta stays auto");
}

#[test]
fn an_empty_pinned_group_still_has_a_section() {
    let mut s = sidebar(1);
    let work = label(&mut s, "work");
    let keys = frame(&mut s, &vec![unknown()]);
    let sections = sidebar_sections(&keys, &s.groups, "Ungrouped");
    assert_eq!(sections[0].key, Some(GroupKey::Pinned(work)));
    assert!(sections[0].tabs.is_empty());
}

fn row(name: &str) -> RowFacts {
    RowFacts {
        tab: TabFacts {
            name: Some(name.to_string()),
            title: String::new(),
            unnamed: "Shell".into(),
            home: None,
            renaming: false,
            agent: None,
            remote: false,
        },
        source: TitleSource::Unknown,
        git: None,
        cwd: None,
        zoomed: false,
    }
}

fn rail(search: &str) -> RailFacts {
    RailFacts {
        search: search.into(),
        show_badges: true,
        words: StatusWords { working: "Working".into(), waiting: "Waiting".into(), done: "Done".into() },
        ungrouped: "Ungrouped".into(),
        dragged_slot: None,
        lifting: false,
        over: None,
    }
}

fn drawn(s: &Sidebar, keys: &Vec<Option<GroupKey>>, search: &str) -> Vec<usize> {
    let facts: Vec<RowFacts> = (0..keys.len()).map(|i| row(&format!("tab{i}"))).collect();
    s.tab_sidebar(keys, &facts, &rail(search))
        .blocks
        .iter()
        .flat_map(|b| b.rows.iter().map(|r| r.tab))
        .collect()
}

#[test]
fn folding_a_group_takes_its_rows_off_the_sidebar() {
    let mut s = sidebar(3);
    let keys = vec![Some(g("/w/alpha")), Some(g("/w/alpha")), Some(g("/w/beta"))];
    s.active = 2;
    assert_eq!(drawn(&s, &keys, ""), [0, 1, 2]);
    s.toggle_sidebar_group(&keys[0]);
    assert_eq!(drawn(&s, &keys, ""), [2]);
    assert_eq!(s.groups.auto_collapsed, vec![AutoKey::Repo(p("/w/alpha"))]);
    s.toggle_sidebar_group(&keys[0]);
    assert_eq!(drawn(&s, &keys, ""), [0, 1, 2]);
    assert!(s.groups.auto_collapsed.is_empty());
}

#[test]
fn a_search_outranks_a_fold() {
    let mut s = sidebar(2);
    let keys = vec![Some(g("/w/alpha")), Some(g("/w/alpha"))];
    s.toggle_sidebar_group(&keys[0]);
    assert!(drawn(&s, &keys, "").is_empty());
    assert_eq!(drawn(&s, &keys, "TAB1"), [1]);
}

#[test]
fn a_fold_hides_the_active_row_too() {
    let mut s = sidebar(2);
    let keys = vec![Some(g("/w/alpha")), Some(g("/w/alpha"))];
    s.active = 0;
    s.toggle_sidebar_group(&keys[0]);
    assert!(drawn(&s, &keys, "").is_empty());
    s.toggle_sidebar_group(&keys[0]);
    assert_eq!(drawn(&s, &keys, ""), [0, 1]);
}

#[test]
fn a_search_that_finds_nothing_says_so() {
    let s = sidebar(1);
    let keys = vec![None];
    let view = s.tab_sidebar(&keys, &vec![row("alpha")], &rail("zzz"));
    assert!(view.nothing_matches);
    assert!(view.blocks.iter().all(|b| b.rows.is_empty()));
}

#[test]
fn a_header_takes_the_branch_its_rows_share() {
    let s = sidebar(2);
    let keys = vec![Some(g("/w/alpha")), Some(g("/w/alpha"))];
    let git = || Some(GitStatus { branch: "main".into(), added: 1, removed: 2 });
    let mut facts = vec![row("a"), row("b")];
    facts[0].git = git();
    facts[1].git = git();
    let view = s.tab_sidebar(&keys, &facts, &rail(""));
    let header = view.blocks[0].header.as_ref().expect("a group has a header");
    assert_eq!(header.name, "alpha");
    assert_eq!(header.tabs.len(), 2);
    assert_eq!(header.diff_of, Some(0));
    assert_eq!(header.shared, git());
    facts[1].git = Some(GitStatus { branch: "other".into(), added: 1, removed: 2 });
    let view = s.tab_sidebar(&keys, &facts, &rail(""));
    assert_eq!(view.blocks[0].header.as_ref().and_then(|h| h.shared.as_ref()), None);
    assert_eq!(view.blocks[0].header.as_ref().and_then(|h| h.diff_of), None);
    facts[0].git = None;
    let view = s.tab_sidebar(&keys, &facts, &rail(""));
    assert_eq!(view.blocks[0].header.as_ref().and_then(|h| h.diff_of), Some(1));
}

#[test]
fn clicking_shared_counts_opens_a_row_of_the_group() {
    assert_eq!(diff_activates(&vec![1, 3], 0), Some(1));
    assert_eq!(diff_activates(&vec![1, 3], 3), None);
}

#[test]
fn a_tab_is_dropped_into_the_group_under_it() {
    let mut s = sidebar(1);
    let work = label(&mut s, "work");
    let dragged = s.tabs[0].tree_id;
    assert_eq!(s.sidebar_regroup_target(dragged, Some(work), false), Some(Regroup::Into(work)));
    s.set_tab_group(0, Some(work));
    assert_eq!(s.sidebar_regroup_target(dragged, Some(work), false), None);
    assert_eq!(s.sidebar_regroup_target(dragged, None, true), Some(Regroup::ToAuto));
}

#[test]
fn kept_groups_take_the_order_they_are_given() {
    let mut s = sidebar(0);
    let a = label(&mut s, "a");
    let b = label(&mut s, "b");
    s.apply_pinned_order(&vec![1, 0]);
    assert_eq!(s.groups.pinned.iter().map(|g| g.id).collect::<Vec<_>>(), [b, a]);
}

#[test]
fn a_new_tab_starts_in_its_group_s_folder() {
    let mut s = sidebar(1);
    let tty7 = folder(&mut s, "/w/tty7");
    let work = label(&mut s, "work");
    assert_eq!(text(&s.new_tab_folder(&GroupKey::Pinned(tty7))), Some("/w/tty7"));
    assert_eq!(s.new_tab_folder(&GroupKey::Pinned(work)), None);
    assert_eq!(text(&s.new_tab_folder(&g("/w/repo"))), Some("/w/repo"));
    s.set_group_folder(work, Some(p("/w/here")));
    assert_eq!(text(&s.new_tab_folder(&GroupKey::Pinned(work))), Some("/w/here"));
}

#[test]
fn paths_lie_inside_by_whole_components() {
    assert!(p("/w/tty7/src").is_within(&p("/w/tty7")));
    assert!(p("/w/tty7").is_within(&p("/w/tty7")));
    assert!(!p("/w/tty7-core").is_within(&p("/w/tty7")));
}

#[test]
fn a_host_outranks_what_is_known_of_the_repo() {
    assert_eq!(auto_key(Some("u@h"), Some(Some(p("/w")))), Some(Some(AutoKey::SshHost("u@h".into()))));
    assert_eq!(auto_key(None, Some(Some(p("/w")))), Some(Some(AutoKey::Repo(p("/w")))));
    assert_eq!(auto_key(None, Some(None)), Some(None));
    assert_eq!(auto_key(None, None), None);
}

#[test]
fn a_tab_keeps_the_group_it_had_until_something_is_known() {
    let mut tab = SidebarTab::new(1);
    assert_eq!(tab.tab_auto_group(&in_repo("/w/a", "/w/a")), Some(AutoKey::Repo(p("/w/a"))));
    assert_eq!(tab.tab_auto_group(&unknown()), Some(AutoKey::Repo(p("/w/a"))));
    assert_eq!(tab.tab_auto_group(&in_plain("/tmp")), None);
}

#[test]
fn a_spawned_tab_takes_the_seat_it_was_given() {
    let mut s = sidebar(1);
    let work = label(&mut s, "work");
    s.set_tab_group(0, Some(work));
    let place = s.spawn_group(Some(&p("/w/a")), Some(Some(p("/w/a"))));
    let mut tab = SidebarTab::new(9);
    place.seat(&mut tab);
    assert_eq!(tab.group, Some(work));
    assert_eq!(tab.tree_id, 9);
}

#[test]
fn the_rail_is_open_at_the_left_with_tabs_in_it() {
    assert!(sidebar(1).sidebar_open(TabBarPosition::Left, false));
    assert!(!sidebar(1).sidebar_open(TabBarPosition::Left, true));
    assert!(!sidebar(1).sidebar_open(TabBarPosition::Top, false));
    assert!(!sidebar(0).sidebar_open(TabBarPosition::Left, false));
}

#[test]
fn the_tabs_are_read_as_the_rail_shows_them() {
    let s = sidebar(3);
    let keys = vec![None, Some(g("/w/a")), None];
    assert_eq!(s.visual_tab_order(&keys, true), [1, 0, 2]);
    assert_eq!(s.visual_tab_order(&keys, false), [0, 1, 2]);
}

#[test]
fn a_card_spells_out_what_was_cut() {
    let shown = |shown: &str, full: &str| Some(Shown { shown: shown.into(), full: full.into() });
    assert!(sidebar_info(&shown("a", "a"), &None, 0, 0, &None, &None).is_none());
    let info = sidebar_info(&shown("…b", "a/b"), &shown("main", "main"), 1, 2, &None, &None).unwrap();
    assert_eq!(info.title.as_deref(), Some("a/b"));
    assert!(info.branch.is_none());
    let info = sidebar_info(&None, &shown("m…n", "main"), 1, 2, &None, &Some("u@h".to_string())).unwrap();
    assert_eq!(info.branch, Some(GitStatus { branch: "main".into(), added: 1, removed: 2 }));
    assert_eq!(info.host.as_deref(), Some("u@h"));
}

#[test]
fn a_new_tab_joins_the_group_it_was_opened_from() {
    let mut s = sidebar(1);
    let work = s.new_empty_group("New group");
    assert_eq!(s.pinned_group_names(), vec![(work, "New group".to_string())]);
    assert_eq!(s.group_rename, Some(work));
    assert!(!s.new_tab_in_group(&GroupKey::Pinned(work), 1), "no tab was opened");
    s.tabs.push(SidebarTab::new(5));
    s.active = 1;
    assert!(s.new_tab_in_group(&GroupKey::Pinned(work), 1));
    assert_eq!(s.tabs[1].group, Some(work));
    assert!(!s.new_tab_in_group(&g("/w/a"), 1), "a worked-out group is worked out");
}

#[test]
fn a_path_is_its_components() {
    assert_eq!(p("/w"), p("/w/"));
    assert_eq!(p("/w/./a//b"), p("/w/a/b"));
    assert_ne!(p("/w/../a"), p("/a"));
    assert_ne!(p("w"), p("/w"));
    assert_ne!(p("./w"), p("w"));
    assert_ne!(p("/W"), p("/w"));
    assert_ne!(p("a\\b"), p("a/b"));
    assert!(p("/w/a").is_within(&p("/w/")));
    assert!(p("/w").is_within(&p("")));
    assert!(!p("w/a").is_within(&p("/w")));
}

#[test]
fn a_windows_path_has_two_separators_and_a_start_of_its_own() {
    assert_eq!(w("a\\b"), w("a/b"));
    assert_eq!(w("c:\\w\\"), w("C:/w"));
    assert_ne!(w("C:w"), w("C:\\w"));
    assert_ne!(w("C:\\w"), w("D:\\w"));
    assert_eq!(w("\\\\srv\\share\\a"), w("//srv/share/a"));
    assert_eq!(w("\\\\srv\\share"), w("\\\\srv\\share\\"));
    assert_ne!(w("\\\\srv\\one\\a"), w("\\\\srv\\two\\a"));
    assert!(w("c:\\w\\a").is_within(&w("C:\\")));
    assert!(!w("C:\\w-core").is_within(&w("C:\\w")));
}

#[test]
fn groups_on_windows_are_named_by_their_last_component() {
    assert_eq!(group_names(&vec![w("a\\b")]), ["b"]);
    assert_eq!(group_names(&vec![p("a\\b")]), ["a\\b"]);
    assert_eq!(group_names(&vec![w("C:\\work\\app"), w("C:\\fork\\app")]), ["work/app", "fork/app"]);
    assert_eq!(group_names(&vec![w("C:\\"), w("\\\\srv\\share\\x")]), ["C:\\", "x"]);
    assert_eq!(group_names(&vec![p("/"), p("/a/..")]), ["/", "a"]);
}

#[test]
fn one_repository_is_one_group_however_it_is_written() {
    let keys = vec![Some(g("/w")), Some(g("/w/")), Some(g("/w/."))];
    let sections = sidebar_sections(&keys, &none(), "Ungrouped");
    assert_eq!(sections.len(), 1);
    assert_eq!(sections[0].tabs, [0, 1, 2]);
    let keys = vec![Some(g("//")), Some(g("/"))];
    let sections = sidebar_sections(&keys, &none(), "Ungrouped");
    assert_eq!(sections[0].name.as_deref(), Some("//"), "named as the first tab has it");
    let mut s = sidebar(0);
    folder(&mut s, "/w");
    s.pin_folder(p("/w/"));
    assert_eq!(s.groups.pinned.len(), 1, "kept already");
}

#[test]
fn a_blank_search_leaves_every_row() {
    let s = sidebar(2);
    let keys = vec![None, Some(g("/w/a"))];
    assert_eq!(drawn(&s, &keys, " \t "), drawn(&s, &keys, ""));
    assert_eq!(drawn(&s, &keys, "tab1"), [1]);
}

#[test]
fn a_row_without_an_agent_has_a_terminal_s_mark() {
    let s = sidebar(1);
    let mut facts = vec![row("a")];
    facts[0].tab.remote = true;
    let view = s.tab_sidebar(&vec![None], &facts, &rail(""));
    assert!(matches!(view.blocks[0].rows[0].avatar, TabAvatar::Terminal { dot: true }));
}

#[test]
fn a_dragged_tab_lights_the_group_it_would_land_in() {
    let mut s = sidebar(2);
    let work = label(&mut s, "work");
    let keys = vec![Some(g("/w/a")), Some(GroupKey::Pinned(work))];
    let facts = vec![row("a"), row("b")];
    let marks = |facts_of: &RailFacts| {
        let view = s.tab_sidebar(&keys, &facts, facts_of);
        view.blocks.iter().map(|b| (b.dragged, b.faded, b.lit)).collect::<Vec<_>>()
    };
    let mut r = rail("");
    assert_eq!(marks(&r), [(false, false, false), (false, false, false)]);
    r.lifting = true;
    r.over = Some(Regroup::Into(work));
    assert_eq!(marks(&r), [(false, false, true), (false, true, false)]);
    r.lifting = false;
    r.over = None;
    r.dragged_slot = Some(0);
    assert_eq!(marks(&r), [(false, false, false), (true, false, false)]);
}

#[test]
fn a_name_is_no_longer_than_it_has_to_be() {
    let names = group_names(&vec![p("/a/x/app"), p("/b/x/app"), p("/c/y/app"), p("/c/z")]);
    assert_eq!(names, ["a/x/app", "b/x/app", "y/app", "z"]);
}

fn dragging(from: usize, target: usize, order: Vec<usize>) -> DragPreview {
    DragPreview { from, target, order }
}

#[test]
fn a_dragged_group_is_previewed_among_its_like() {
    let mut s = sidebar(4);
    let work = label(&mut s, "work");
    let keys =
        vec![Some(g("/w/a")), Some(GroupKey::Pinned(work)), None, Some(g("/w/b"))];
    let facts: Vec<RowFacts> = (0..4).map(|i| row(&format!("tab{i}"))).collect();
    let view = s.tab_sidebar(&keys, &facts, &rail(""));
    assert_eq!(view.block_order(&None), [0, 1, 2, 3]);
    let drag = dragging(0, 1, vec![1, 0]);
    assert_eq!(view.pending_groups(&keys, &drag), regrouped_order(
        &keys,
        &AutoKey::Repo(p("/w/a")),
        &AutoKey::Repo(p("/w/b")),
    ));
    assert!(view.pending_groups(&keys, &drag).is_some());
    assert_eq!(view.pending_groups(&keys, &dragging(0, 2, vec![])), None);
    assert_eq!(view.block_order(&Some(drag)), [0, 2, 1, 3]);
}

#[test]
fn a_dragged_row_is_previewed_within_its_group() {
    let s = sidebar(3);
    let keys = vec![Some(g("/w/a")), None, Some(g("/w/a"))];
    let facts: Vec<RowFacts> = (0..3).map(|i| row(&format!("tab{i}"))).collect();
    let view = s.tab_sidebar(&keys, &facts, &rail(""));
    let drag = dragging(0, 1, vec![1, 0]);
    let block = &view.blocks[0];
    assert_eq!(
        s.pending_rows(&keys, block, &drag),
        reordered_rows(&keys, &s.groups, &keys[0], &[0, 2], 0, 1)
    );
    assert!(s.pending_rows(&keys, block, &drag).is_some());
    assert_eq!(display_order(2, &Some(drag)), [1, 0]);
    assert_eq!(display_order(2, &None), [0, 1]);
}
