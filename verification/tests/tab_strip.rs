use tty7_ui::agents::CLIAgent;
use tty7_ui::chrome::{StatusDot, TabAvatar};
use tty7_ui::elide::{elide_keep_edges, elide_label, elide_path_keep_tail, elide_tail_chars};
use tty7_ui::tab_strip::{
    agent_status_label, attach_new_tab_menu, avatar_tip, changes_tooltip, chord_hint, dot_number, monogram,
    select_workspace_action, shell_spec, tab_context_menu, tab_strip, visible_chips, AgentStatus,
    DetectedShell, NewTabEntry, StatusWords, StripFacts, TabAction, TabAgent, TabFacts, TabMenuFacts,
    TabMenuLine, CHIP_GAP, CHIP_MIN_W,
};
use tty7_ui::titles::{abbreviate_home, short_title, strip_host_prefix, tab_label, tab_title_tooltip};

fn words() -> StatusWords {
    StatusWords { working: "Working".into(), waiting: "Waiting for you".into(), done: "Done".into() }
}

#[test]
fn every_visible_agent_state_has_words_for_it() {
    let words = words();
    // Idle draws no dot, so it has nothing to name.
    assert_eq!(agent_status_label(None, &words), None);
    assert_eq!(agent_status_label(Some(AgentStatus::Idle), &words), None);
    // Every state that does draw a dot can be read out loud.
    for status in [AgentStatus::Working, AgentStatus::Waiting, AgentStatus::Done] {
        assert!(status.paints_dot());
        assert!(
            agent_status_label(Some(status), &words).is_some_and(|s| !s.is_empty()),
            "{status:?} paints a dot with no words behind it"
        );
    }
    // Waiting is the state worth acting on; it must not read as Done.
    assert_ne!(
        agent_status_label(Some(AgentStatus::Waiting), &words),
        agent_status_label(Some(AgentStatus::Done), &words)
    );
}

fn short(raw: &str) -> String {
    short_title(raw, None)
}

#[test]
fn short_title_strips_user_host_and_shows_shallow_path_in_full() {
    assert_eq!(short("user@host:~/projects/app"), "~/projects/app");
    assert_eq!(short("/usr/local/bin"), "/usr/local/bin");
    assert_eq!(short("plain"), "plain");
}

#[test]
fn short_title_truncates_deep_paths_to_trailing_segments() {
    assert_eq!(short("user@host:~/repo/025/tty7"), "…/repo/025/tty7");
    assert_eq!(short("/usr/local/share/man"), "…/local/share/man");
    assert_eq!(short("a/b/c/d"), "…/b/c/d");
}

#[test]
fn short_title_keeps_home_tilde_and_normalizes_trailing_slash() {
    assert_eq!(short("user@host:~"), "~");
    assert_eq!(short("~"), "~");
    assert_eq!(short("a/b/c/"), "a/b/c");
}

#[test]
fn short_title_blank_input_is_empty_and_long_names_are_clamped() {
    assert_eq!(short("   "), "");
    let long = "a".repeat(50);
    let out = short(&long);
    assert_eq!(out.chars().count(), 41);
    assert!(out.ends_with('…'));
}

#[test]
fn short_title_cuts_windows_paths_on_backslashes() {
    assert_eq!(short(r"C:\Users\dev\projects\app"), "…/dev/projects/app");
    assert_eq!(short(r"C:\Users\dev\repo\deep\path\src\ui"), "…/path/src/ui");
}

/// One chip is 100 wide plus a 6 gap, so this is "room for exactly four".
const FOUR_CHIPS: u32 = 4 * (CHIP_MIN_W + CHIP_GAP);

#[test]
fn every_chip_is_drawn_while_they_all_fit() {
    let order: Vec<usize> = (0..4).collect();
    assert_eq!(visible_chips(&order, 0, FOUR_CHIPS), order);
    assert_eq!(visible_chips(&order, 3, FOUR_CHIPS), order);
    assert_eq!(visible_chips(&[0, 1], 1, FOUR_CHIPS), vec![0, 1]);
}

#[test]
fn the_run_stays_put_until_the_active_chip_would_fall_off() {
    let order: Vec<usize> = (0..9).collect();
    // Anchored at the first tab for as long as the active one is inside it.
    assert_eq!(visible_chips(&order, 0, FOUR_CHIPS), vec![0, 1, 2, 3]);
    assert_eq!(visible_chips(&order, 3, FOUR_CHIPS), vec![0, 1, 2, 3]);
    // Then it slides by exactly as much as it has to.
    assert_eq!(visible_chips(&order, 4, FOUR_CHIPS), vec![1, 2, 3, 4]);
    assert_eq!(visible_chips(&order, 8, FOUR_CHIPS), vec![5, 6, 7, 8]);
}

#[test]
fn the_active_chip_is_always_among_the_drawn_ones() {
    let order: Vec<usize> = (0..40).collect();
    for active in 0..40 {
        for avail in [0, 1, 80, FOUR_CHIPS, 4000] {
            let shown = visible_chips(&order, active, avail);
            assert!(
                shown.contains(&active),
                "active {active} missing at {avail}px: {shown:?}"
            );
        }
    }
}

#[test]
fn a_reordered_run_is_sliced_in_its_own_order() {
    // Mid-drag the strip draws the previewed order, not 0..n.
    let order = vec![3, 0, 1, 2, 4, 5];
    assert_eq!(visible_chips(&order, 5, FOUR_CHIPS), vec![1, 2, 4, 5]);
}

#[test]
fn configured_shell_arguments_remain_user_authored_in_the_menu() {
    let shell = DetectedShell {
        label: "custom".into(),
        program: "custom-shell".into(),
        args: vec!["--login".into()],
        args_are_tty7_defaults: false,
    };
    let spec = shell_spec(&shell);

    assert_eq!(spec.program, "custom-shell");
    assert_eq!(spec.args, ["--login"]);
    assert!(!spec.args_are_tty7_defaults);
}

/// The width of a text where every character is seven wide.
fn width(s: &str) -> usize {
    7 * s.chars().count()
}

fn path_at(path: &str, max: usize) -> String {
    elide_path_keep_tail(path, |s| width(s) <= max, max > width("…"), |s| width("…") + width(s) <= max)
}

fn name_at(name: &str, max: usize) -> String {
    elide_keep_edges(name, |s| width(s) <= max, max > width("…"), |s| width("…") + width(s) <= max)
}

#[test]
fn elide_path_fits_shallow_paths_untouched() {
    let path = "~/tty7";
    assert_eq!(path_at(path, width(path) + 1), "~/tty7");
}

#[test]
fn elide_path_shows_the_whole_deep_path_when_the_budget_allows() {
    // A wide sidebar must not elide a deep path: only the width may
    // decide, never a fixed segment cap.
    let path = "E:/work/toolbox/crates/tty7-core/src/client";
    assert_eq!(path_at(path, width(path) + 1), path);
}

#[test]
fn elide_path_keeps_drive_tail_and_budget() {
    let path = "E:/work/toolbox/src/ui/tab_sidebar.rs";
    let max = 200;
    assert!(width(path) > max);
    let out = path_at(path, max);
    assert!(out.starts_with("E:/…/"), "drive letter survives: {out}");
    assert!(out.ends_with("tab_sidebar.rs"), "the file name always survives: {out}");
    assert!(width(&out) <= max, "the elided label fits the budget");
}

#[test]
fn elide_path_keeps_tilde_and_leading_slash() {
    let home = "~/projects/toolbox/src/ui/tab_sidebar.rs";
    let out = path_at(home, 200);
    assert!(out.starts_with("~/…/"), "tilde root survives: {out}");
    assert!(out.ends_with("tab_sidebar.rs"));

    let abs = "/usr/local/share/man/man1/git.1";
    let out = path_at(abs, 120);
    assert!(out.starts_with("/…/"), "absolute root survives: {out}");
    assert!(out.ends_with("git.1"));
}

#[test]
fn elide_path_tears_only_the_last_segment_as_a_last_resort() {
    let path = "E:/supercalifragilisticexpialidocious";
    let max = 60;
    assert!(width(path) > max);
    let out = path_at(path, max);
    assert!(out.starts_with('…'), "a torn segment reads as torn: {out}");
    assert!(out.chars().nth(1) != Some('/'), "no slash after a torn segment: {out}");
    assert!(out.ends_with('s'), "the word's tail survives: {out}");
    assert!(width(&out) <= max);
}

#[test]
fn elide_edges_keeps_both_ends_of_a_branch() {
    let branch = "window-transparency-backdrop";
    let max = 140;
    assert!(width(branch) > max);
    let out = name_at(branch, max);
    assert!(out.starts_with("window-"), "head survives: {out}");
    assert!(out.ends_with("backdrop"), "tail survives: {out}");
    assert!(out.contains('…'));
    assert!(width(&out) <= max);
    assert!(out.chars().count() < branch.chars().count());
}

#[test]
fn elide_edges_keeps_the_last_word_and_what_it_leaves_of_the_head() {
    let cut = |max: usize| {
        elide_keep_edges(
            "window-transparency-backdrop",
            |s| s.chars().count() <= max,
            max > 1,
            |s| s.chars().count() < max,
        )
    };
    assert_eq!(cut(28), "window-transparency-backdrop");
    assert_eq!(cut(25), "window-trans…ncy-backdrop");
    assert_eq!(cut(21), "window-trans…backdrop");
    assert_eq!(cut(18), "window-tr…backdrop");
    assert_eq!(cut(16), "window-…backdrop");
    assert_eq!(cut(13), "window-…kdrop");
    assert_eq!(cut(8), "window-…");
    assert_eq!(cut(7), "…ckdrop");
}

#[test]
fn elide_edges_leaves_short_branches_alone() {
    assert_eq!(name_at("main", width("main") + 1), "main");
}

#[test]
fn elide_edges_falls_back_to_a_tail_sliver_when_the_head_cannot_fit() {
    let out = name_at("window-transparency-backdrop", 30);
    assert!(out.starts_with('…'));
    assert!(width(&out) <= 30);
}

#[test]
fn elide_path_cuts_windows_backslash_paths_on_segments() {
    let path = "C:\\Users\\dev\\AppData\\Local\\Temp\\verify-build";
    let max = 200;
    assert!(width(path) > max);
    let out = path_at(path, max);
    assert!(out.starts_with("C:/…/"), "drive letter survives: {out}");
    assert!(out.ends_with("verify-build"), "the leaf segment survives: {out}");
    assert!(width(&out) <= max);
}

#[test]
fn a_label_is_cut_where_it_tells_least() {
    let cut = |s: &str| {
        let max = 20;
        elide_label(s, |t| t.chars().count() <= max, true, |t| t.chars().count() < max)
    };
    assert_eq!(cut("~/projects/toolbox/src/ui/rows.rs"), "~/…/src/ui/rows.rs");
    assert_eq!(cut("window-transparency-backdrop"), "window-tran…backdrop");
    assert_eq!(cut("main"), "main");
}

#[test]
fn the_longest_tail_that_fits_is_kept() {
    let fits = |s: &str| s.chars().count() <= 3;
    assert_eq!(elide_tail_chars("abcdef", true, fits), "…def");
    assert_eq!(elide_tail_chars("abcdef", false, fits), "…");
}

#[test]
fn host_prefixes_are_cut_and_home_is_abbreviated() {
    assert_eq!(strip_host_prefix("user@host:~/x"), "~/x");
    assert_eq!(strip_host_prefix("a:b"), "a:b");
    assert_eq!(abbreviate_home("/home/u/x", Some("/home/u")), "~/x");
    assert_eq!(abbreviate_home("/home/u", Some("/home/u")), "~");
    assert_eq!(abbreviate_home("/home/user", Some("/home/u")), "/home/user");
    assert_eq!(abbreviate_home("/home/u", None), "/home/u");
}

#[test]
fn a_name_given_by_hand_outranks_the_title() {
    assert_eq!(tab_label(&Some("mine".into()), "user@host:~/x", "Shell", None), "mine");
    assert_eq!(tab_label(&None, "user@host:~/x", "Shell", None), "~/x");
    assert_eq!(tab_label(&None, "", "Shell", None), "Shell");
    assert_eq!(
        tab_title_tooltip(&None, "/usr/local/share/man", "Shell", None).as_deref(),
        Some("/usr/local/share/man")
    );
    assert_eq!(tab_title_tooltip(&None, "/usr", "Shell", None), None);
}

#[test]
fn monograms_are_the_first_letter_in_upper_case() {
    assert_eq!(monogram("workspace"), "W");
    assert_eq!(monogram("ärger"), "Ä");
    assert_eq!(monogram("ßeta"), "SS");
    assert_eq!(monogram(""), "~");
}

#[test]
fn a_dot_counts_up_to_nine() {
    assert_eq!(dot_number(0), None);
    assert_eq!(dot_number(1), Some(1));
    assert_eq!(dot_number(8), Some(8));
    assert_eq!(dot_number(40), Some(9));
}

#[test]
fn an_avatar_says_what_its_agent_does() {
    assert_eq!(avatar_tip("Codex", None, &words()), "Codex");
    assert_eq!(avatar_tip("Codex", Some(AgentStatus::Done), &words()), "Codex — Done");
}

#[test]
fn the_first_nine_workspaces_have_a_chord() {
    assert_eq!(select_workspace_action(0), Some(1));
    assert_eq!(select_workspace_action(8), Some(9));
    assert_eq!(select_workspace_action(9), None);
}

fn shell(label: &str) -> DetectedShell {
    DetectedShell {
        label: label.into(),
        program: label.into(),
        args: vec![],
        args_are_tty7_defaults: true,
    }
}

#[test]
fn the_default_shell_is_marked_in_the_menu() {
    let menu = attach_new_tab_menu(&vec![shell("bash"), shell("zsh")], "zsh");
    assert_eq!(
        menu,
        vec![
            NewTabEntry::Shell { index: 0, is_default: false },
            NewTabEntry::Shell { index: 1, is_default: true },
        ]
    );
    assert_eq!(attach_new_tab_menu(&vec![], "zsh"), vec![NewTabEntry::NewTab]);
}

#[test]
fn the_last_tab_has_none_to_its_right() {
    let facts = TabMenuFacts {
        has_agent: false,
        status: None,
        in_repo: false,
        session: false,
        can_fork: false,
        forkable: false,
        has_session_id: false,
        has_cwd: true,
        below_wording: false,
    };
    let line = |action, enabled| TabMenuLine::Item { action, enabled };
    let menu = tab_context_menu(&facts, 1, 2);
    assert!(menu.contains(&line(TabAction::CloseToTheRight, false)));
    assert!(menu.contains(&line(TabAction::CloseOthers, true)));
    let menu = tab_context_menu(&facts, 0, 1);
    assert!(menu.contains(&line(TabAction::CloseOthers, false)));
}

#[test]
fn chips_are_drawn_in_order_with_the_active_one_marked() {
    let tab = |name: &str| TabFacts {
        name: Some(name.into()),
        title: String::new(),
        unnamed: "Shell".into(),
        home: None,
        renaming: false,
        agent: None,
        remote: false,
    };
    let words = words();
    let facts = StripFacts {
        show_chips: true,
        active: 1,
        show_badges: true,
        avail: FOUR_CHIPS,
        dragged: None,
        left_panel_open: false,
        right_panel_open: false,
        panel_has_chrome: false,
    };
    let strip = tab_strip(&vec![tab("a"), tab("b")], &vec![1, 0], &facts, &words);
    assert_eq!(strip.chips.iter().map(|c| c.label.as_str()).collect::<Vec<_>>(), ["b", "a"]);
    assert_eq!(strip.chips.iter().map(|c| c.active).collect::<Vec<_>>(), [true, false]);
    assert!(strip.add_button);
    assert!(strip.chips.iter().all(|c| c.avatar.is_none() && !c.remote_dot));

    let mut busy = tab("a");
    busy.remote = true;
    busy.agent = Some(TabAgent {
        agent: CLIAgent::Codex,
        name: "Codex".into(),
        status: Some(AgentStatus::Waiting),
        unread: 12,
    });
    let strip = tab_strip(&vec![busy], &vec![0], &facts, &words);
    assert!(strip.chips[0].remote_dot);
    match &strip.chips[0].avatar {
        Some(TabAvatar::Agent { agent, tip, dot }) => {
            assert_eq!(*agent, CLIAgent::Codex);
            assert_eq!(tip, "Codex — Waiting for you");
            assert_eq!(*dot, Some(StatusDot { number: Some(9), hollow: false }));
        },
        other => panic!("an agent's tab has its mark, not {other:?}"),
    }
}

#[test]
fn hints_name_their_chord() {
    assert_eq!(chord_hint("New tab", Some("Ctrl+T")), "New tab  Ctrl+T");
    assert_eq!(chord_hint("New tab", None), "New tab");
    assert_eq!(changes_tooltip("Changes", 0), "Changes");
    assert_eq!(changes_tooltip("Changes", 3), "Changes · 3");
}
