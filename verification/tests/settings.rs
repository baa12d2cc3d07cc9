use tty7_ui::agents::{
    cli_agent, AgentHookRow, AgentHooksView, AgentsBody, AgentsState, CLIAgent, HookAgent, HookHost,
    HookStatus, HooksState, Machine, NoAgents,
};
use tty7_ui::chrome::{
    right_panel_tabs, tab_avatar, window_chrome, workspace_avatar, workspace_head, LiveDot, Liveness,
    PanelTip, PanelWords, TabAvatar, WorkspaceHead,
};
use tty7_ui::connections::SshPane;
use tty7_ui::hosts::{
    host_address, host_form_key, host_title, ssh_command, visible_ids, FormError, FormErrors, FormStep,
    HostBody, HostFacts, HostForm, HostLine, HostMeta, HostsFooter, HostsState,
};
use tty7_ui::preferences::{
    bell_index, bell_mode_at, cursor_index, cursor_style_at, ligatures_on, notify_index, notify_mode_at,
    channel_index, grouping_index, link_file_open_at, link_index, new_tab_index, new_tab_position_at,
    preset_choice, sidebar_grouping_at, startup_index, startup_mode_at, tab_bar_index, tab_bar_position_at,
    update_channel_at, wd_index, wd_strategy_at, zoom_index, zoom_labels, zoom_modifier_at, BellMode,
    Config,
    CursorStyle, FontFeatures, HostUsage, LinkFileOpen, MouseZoomModifier, NewTabPosition, NotifyMode,
    Platform, SidebarGrouping, StartupMode, TabBarPosition, ThemeMode, ThemePresets, UpdateChannel, Usage,
    WdStrategy, WindowBackdrop,
};
use tty7_ui::settings::{
    text_field, AvailableUpdate, BindingHit, BtnKey, Control, FieldRing, FieldTexts, FocusStep, Group,
    InventoryShell, Label, Language, Line, MenuEntry, MenuKey, PageFacts, Pick, RowDesc, RowKey, RowMark,
    SearchEntry, SearchOption, SettingsSection, SettingsState, Theme, Tty7App, UpdatePhase, UpdateStatus,
};
use tty7_ui::settings_results::{Content, NoResults};
use tty7_ui::settings_search::{
    page_key, search_result_actions, search_result_order, CaptureStep, EscapeStep, Notice, PageKey,
};
use tty7_ui::sftp::{RightPanel, RightPanelTab};
use tty7_ui::shortcuts::{
    conflict_keys, conflict_label, keycap_row, prefix_at, preset_at, ActionKeys, CapPart, Conflict, Recording, ShortcutsState,
};
use tty7_ui::ssh_connect::AliasResolver;
use tty7_ui::ssh_profile::{parse_quick_connect, InMemoryCredentialStore, SshProfile};
use tty7_ui::tab_strip::{AgentStatus, StatusWords};
use tty7_ui::theme_picker::{FootLink, FootWork, Preview};

fn config() -> Config {
    Config {
        gui_language: "en".into(),
        startup_mode: StartupMode::Normal,
        restore_session: true,
        remember_window_size: true,
        show_tray_icon: false,
        notify_on_command_finish: NotifyMode::Unfocused,
        notify_threshold_secs: 10,
        cursor_style: CursorStyle::Bar,
        cursor_blink: true,
        font_thicken: false,
        font_family: "Mono".into(),
        font_family_bold: None,
        font_family_italic: None,
        ui_font_family: None,
        font_features: None,
        dim_inactive_panes: true,
        window_backdrop: WindowBackdrop::Auto,
        window_blur: None,
        wd_strategy: WdStrategy::Inherit,
        link_url: true,
        ssh_loopback_forward: true,
        smooth_scroll: true,
        bell: BellMode::Visual,
        link_file_open: LinkFileOpen::Internal,
        scrollback_limit: 10_000,
        prompt_editor: true,
        tab_completion: true,
        history_search: true,
        per_pane_history: false,
        mouse_hide_while_typing: true,
        focus_follows_mouse: false,
        mouse_reporting: true,
        mouse_zoom_modifier: MouseZoomModifier::Platform,
        macos_option_as_alt: false,
        smart_select: true,
        copy_on_select: false,
        clipboard_trim_trailing_spaces: true,
        new_tab_position: NewTabPosition::End,
        tab_bar_position: TabBarPosition::Left,
        sidebar_diff_preview: true,
        sidebar_grouping: SidebarGrouping::Repo,
        check_for_updates: true,
        auto_download_updates: false,
        update_channel: UpdateChannel::Stable,
        install_cli_on_path: false,
        verify_host_keys: true,
        ssh_warn_on_close: true,
        themes: ThemePresets {
            follow_system: false,
            single: "night".into(),
            light: "day".into(),
            dark: "night".into(),
        },
        theme_legible_palette: true,
        keybinding_preset: "default".into(),
        prefix: "ctrl-b".into(),
        keybindings: vec![],
        ssh_profiles: vec![],
    }
}

fn theme(id: &str, dark: bool, custom: bool) -> Theme {
    Theme { id: id.into(), name: id.to_uppercase(), dark, custom }
}

fn facts() -> PageFacts {
    PageFacts {
        language: "en".into(),
        languages: vec![
            Language { code: "en".into(), label: "English".into() },
            Language { code: "de".into(), label: "Deutsch".into() },
        ],
        notify_buckets: vec![5, 10, 30],
        scrollback_buckets: vec![1_000, 10_000],
        shells: vec![InventoryShell {
            label: "zsh".into(),
            program: "/bin/zsh".into(),
            user_authored: false,
        }],
        backdrops: vec![(WindowBackdrop::Auto, "Automatic".into())],
        window_overridden: false,
        theme_blur: false,
        theme_image: false,
        hosts: vec![],
        by_frecency: vec![],
        live: vec![],
        actions: vec![],
        action_groups: vec![1, 2],
        hook_agents: vec![],
        machines: vec![Machine { host: HookHost::Local, label: "This computer".into() }],
        offline_machines: 0,
        themes: vec![theme("day", false, false), theme("mine", true, true), theme("night", true, false)],
        fallback_theme: theme("night", true, false),
        rejected_themes: 0,
        update: UpdateStatus {
            phase: UpdatePhase::Idle,
            phase_has_text: false,
            ready: None,
            failed: false,
            available: None,
        },
        settings_file: true,
        stale_server: false,
        server_hands_over: false,
    }
}

fn open_settings() -> SettingsState {
    SettingsState {
        section: SettingsSection::General,
        search: String::new(),
        search_active: false,
        modified_only: false,
        search_selection: 0,
        focused_setting: None,
        reveal_first_hit: false,
        menu: None,
        menu_hi: 0,
        menu_query: String::new(),
        focused_input: None,
        font_names: vec!["Mono".into(), "Serif".into()],
        fields: FieldTexts {
            shell_program: String::new(),
            shell_args_valid: true,
            wd_path_saveable: true,
            http_proxy: String::new(),
            http_proxy_valid: true,
        },
        theme_editor: None,
        theme_draft_dirty: false,
        theme_draft_error: None,
        save_error: None,
        ssh: HostsState {
            filter: String::new(),
            show_all: false,
            collapsed: vec![],
            form: None,
            open: None,
            confirm_remove: false,
            copied: None,
        },
        agents: AgentsState {
            view: AgentHooksView::Loading,
            note: None,
            host: HookHost::Local,
            query: String::new(),
            show_all: false,
            touched: vec![],
            busy: vec![],
        },
        keys: ShortcutsState { search: String::new(), recording: None, conflict: None, note: None },
    }
}

fn app() -> Tty7App {
    Tty7App {
        config: config(),
        platform: Platform::Linux,
        settings: Some(open_settings()),
        catalog: vec![],
        sections: vec![
            SettingsSection::General,
            SettingsSection::Appearance,
            SettingsSection::Terminal,
        ],
        bindings: vec![],
        ssh_profile_frecency: vec![],
        facts: facts(),
    }
}

fn state(app: &mut Tty7App) -> &mut SettingsState {
    app.settings.as_mut().expect("the page is open")
}

fn entry(title: RowKey, section: SettingsSection, rank: u64, matches: bool, modified: bool) -> SearchEntry {
    SearchEntry { title, section, matches, rank, modified }
}

fn row_keys(group: &Group) -> Vec<RowKey> {
    group
        .body
        .iter()
        .filter_map(|l| match l {
            Line::Row(r) => Some(r.key),
            _ => None,
        })
        .collect()
}

fn control_of(group: &Group, key: RowKey) -> Control {
    group
        .body
        .iter()
        .find_map(|l| match l {
            Line::Row(r) if r.key == key => Some(r.control),
            _ => None,
        })
        .expect("the row is drawn")
}

#[test]
fn search_results_follow_the_rail_and_then_their_rank() {
    let a = app();
    let catalog = vec![
        entry(RowKey::FontSize, SettingsSection::Appearance, 2, true, false),
        entry(RowKey::CursorShape, SettingsSection::Appearance, 1, true, true),
        entry(RowKey::Language, SettingsSection::General, 9, true, false),
        entry(RowKey::Scrollback, SettingsSection::Terminal, 0, false, true),
    ];
    let shown: Vec<RowKey> =
        search_result_order(&catalog, &a.sections, false).iter().map(|e| e.title).collect();
    assert_eq!(shown, [RowKey::Language, RowKey::CursorShape, RowKey::FontSize]);
    let changed: Vec<RowKey> =
        search_result_order(&catalog, &a.sections, true).iter().map(|e| e.title).collect();
    assert_eq!(changed, [RowKey::CursorShape]);
}

#[test]
fn shortcuts_are_found_only_by_a_query() {
    let bindings = vec![
        BindingHit { action: "NewTab".into(), matches: true },
        BindingHit { action: "Quit".into(), matches: false },
    ];
    assert_eq!(search_result_actions(&bindings, "tab", false), ["NewTab"]);
    assert!(search_result_actions(&bindings, "", false).is_empty());
    assert!(search_result_actions(&bindings, "tab", true).is_empty());
}

#[test]
fn the_results_are_walked_with_the_arrows() {
    let mut a = app();
    a.catalog = vec![
        entry(RowKey::Language, SettingsSection::General, 0, true, false),
        entry(RowKey::Keybindings, SettingsSection::Terminal, 0, true, false),
    ];
    a.bindings = vec![BindingHit { action: "NewTab".into(), matches: true }];
    state(&mut a).search = "a".into();
    assert!(matches!(a.settings_capture_key(true, true, PageKey::Down), CaptureStep::Taken));
    assert_eq!(state(&mut a).search_selection, 1);
    assert!(matches!(
        a.settings_capture_key(true, true, PageKey::Enter),
        CaptureStep::Navigate { section: SettingsSection::Keybindings, title: RowKey::Keybindings }
    ));
    a.settings_capture_key(true, true, PageKey::Down);
    a.settings_capture_key(true, true, PageKey::Down);
    assert_eq!(state(&mut a).search_selection, 2, "the last one stays");
    assert!(matches!(
        a.settings_capture_key(true, true, PageKey::Enter),
        CaptureStep::OpenShortcut(action) if action == "NewTab"
    ));
    assert!(matches!(a.settings_capture_key(true, true, PageKey::Find), CaptureStep::FocusSearch));
    assert!(matches!(a.settings_capture_key(false, true, PageKey::Up), CaptureStep::Passed));
}

#[test]
fn keys_of_the_page_are_told_apart() {
    assert_eq!(page_key("f", true, false), PageKey::Find);
    assert_eq!(page_key("f", false, false), PageKey::Other);
    assert_eq!(page_key("up", false, false), PageKey::Up);
    assert_eq!(page_key("down", false, false), PageKey::Down);
    assert_eq!(page_key("enter", false, false), PageKey::Enter);
}

#[test]
fn escape_leaves_one_layer_at_a_time() {
    let mut a = app();
    state(&mut a).search = "font".into();
    state(&mut a).menu = Some("lang".into());
    state(&mut a).keys.conflict =
        Some(Conflict { action: "A".into(), spec: "ctrl-t".into(), other: "B".into() });
    assert_eq!(a.settings_escape(true), EscapeStep::ClosedMenu);
    assert_eq!(a.settings_escape(true), EscapeStep::DroppedConflict);
    assert_eq!(a.settings_escape(true), EscapeStep::ClearedSearch);
    assert_eq!(state(&mut a).search, "");
    assert_eq!(a.settings_escape(false), EscapeStep::CloseSettings);
}

#[test]
fn a_hit_is_revealed_once() {
    let mut a = app();
    state(&mut a).reveal_first_hit = true;
    state(&mut a).search_active = true;
    assert!(a.take_reveal());
    assert!(!a.take_reveal());
    state(&mut a).reveal_first_hit = true;
    state(&mut a).search_active = false;
    assert!(!a.take_reveal(), "there is no hit to reveal");
}

#[test]
fn a_shortcut_opens_its_own_page() {
    let mut a = app();
    assert_eq!(a.open_shortcut_search("NewTab".into()), Some(SettingsSection::Keybindings));
    a.settings = None;
    assert_eq!(a.open_shortcut_search("NewTab".into()), None);
}

#[test]
fn the_rail_counts_what_was_changed() {
    let mut a = app();
    a.catalog = vec![
        entry(RowKey::Language, SettingsSection::General, 0, false, true),
        entry(RowKey::FontSize, SettingsSection::Appearance, 0, false, true),
        entry(RowKey::LineHeight, SettingsSection::Appearance, 0, false, true),
    ];
    let rail = a.render_settings_nav(false).unwrap();
    assert_eq!(rail.items.iter().map(|i| i.changed).collect::<Vec<_>>(), [1, 2, 0]);
    assert_eq!(rail.changed, 3);
    assert!(rail.items[0].active && !rail.items[1].active);
    assert!(a.render_settings_nav(true).unwrap().items.iter().all(|i| !i.active));
}

#[test]
fn unsaved_work_is_announced() {
    let mut a = app();
    assert!(a.render_settings_notices().is_empty());
    state(&mut a).theme_draft_dirty = true;
    state(&mut a).save_error = Some("disk full".into());
    let notices = a.render_settings_notices();
    assert!(matches!(&notices[0], Notice::ThemeDraft { error: None, .. }));
    assert!(matches!(&notices[1], Notice::SaveFailed { reason, .. } if reason == "disk full"));
}

#[test]
fn a_changed_row_offers_its_reset() {
    let mut a = app();
    a.catalog = vec![entry(RowKey::FontSize, SettingsSection::Appearance, 0, true, true)];
    let row = a.settings_row(RowKey::FontSize, RowDesc::Standing, Control::Languages);
    assert_eq!(row.mark, RowMark::Reset);
    assert!(!row.gated);
    let row = a.settings_row(RowKey::LineHeight, RowDesc::Standing, Control::Languages);
    assert_eq!(row.mark, RowMark::Unchanged);
    let row = a.settings_row_gated_when(RowKey::LineHeight, RowDesc::Blank, Control::Languages, true);
    assert!(row.gated);
}

#[test]
fn one_menu_is_open_at_a_time() {
    let mut a = app();
    assert_eq!(a.toggle_settings_menu("lang", 1, false), FocusStep::Stays);
    assert!(a.settings_menu_open("lang"));
    assert_eq!(a.toggle_settings_menu("font", 0, true), FocusStep::QueryBox);
    assert!(!a.settings_menu_open("lang"));
    assert!(a.settings_menu_open("font"));
    assert_eq!(a.toggle_settings_menu("font", 0, true), FocusStep::Page);
    assert!(!a.settings_menu_open("font"));
}

#[test]
fn a_language_menu_opens_on_the_one_in_use() {
    let mut a = app();
    a.facts.language = "de".into();
    assert_eq!(a.language_name(), "Deutsch");
    let menu = a.language_menu();
    assert_eq!((menu.open, menu.start), (false, 1));
    assert!(menu.panel.is_none());
}

#[test]
fn rows_of_a_menu_carry_their_place() {
    let a = app();
    let rows = a.settings_menu_panel(
        "m",
        vec![
            MenuEntry::item(Label::Text("one".into()), false, Pick::Language(0)),
            MenuEntry::Separator,
        ],
    );
    assert_eq!(rows.len(), 2);
    assert_ne!(rows[0].id, rows[1].id);
    assert!(rows[0].id.starts_with('m'));
}

#[test]
fn a_menu_is_filtered_and_walked() {
    let mut a = app();
    let options = || {
        vec![
            SearchOption { label: "Mono".into(), font: None },
            SearchOption { label: "Serif".into(), font: None },
            SearchOption { label: "Sans".into(), font: None },
        ]
    };
    a.toggle_settings_menu("font", 0, true);
    state(&mut a).menu_query = " S".into();
    let menu = a.settings_search_dropdown("font", &options(), Some(2));
    let rows = menu.rows.expect("open");
    assert_eq!(rows.iter().map(|r| r.option).collect::<Vec<_>>(), [1, 2]);
    assert_eq!(rows.iter().map(|r| r.checked).collect::<Vec<_>>(), [false, true]);
    assert!(rows[0].highlighted);
    assert_eq!(a.menu_key(2, MenuKey::Down), None);
    assert_eq!(a.menu_key(2, MenuKey::Enter), Some(1));
    a.hover_menu_row(0);
    assert_eq!(state(&mut a).menu_hi, 0);
}

#[test]
fn one_cell_of_a_row_is_highlighted() {
    let a = app();
    let options: Vec<String> = vec!["a".into(), "b".into()];
    let cells = a.segmented(&options, 1);
    assert_eq!(cells.iter().map(|c| c.active).collect::<Vec<_>>(), [false, true]);
    let cells = a.segmented_valued(&options, None, Some("7".into()));
    assert_eq!(cells.iter().filter(|c| c.active).count(), 1);
    assert!(cells.iter().any(|c| c.active && c.label == "7" && c.bucket.is_none()));
}

#[test]
fn a_picked_cell_is_the_one_highlighted() {
    for ix in 0..3 {
        assert_eq!(startup_index(startup_mode_at(ix)), ix);
        assert_eq!(notify_index(notify_mode_at(ix)), ix);
        assert_eq!(cursor_index(cursor_style_at(ix)), ix);
        assert_eq!(wd_index(wd_strategy_at(ix)), ix);
        assert_eq!(link_index(link_file_open_at(ix)), ix);
        assert_eq!(grouping_index(sidebar_grouping_at(ix)), ix);
    }
    for ix in 0..2 {
        assert_eq!(new_tab_index(new_tab_position_at(ix)), ix);
        assert_eq!(tab_bar_index(tab_bar_position_at(ix)), ix);
        assert_eq!(channel_index(update_channel_at(ix)), ix);
    }
    for ix in 0..4 {
        assert_eq!(bell_index(bell_mode_at(ix)), ix);
        assert_eq!(zoom_index(zoom_modifier_at(ix, true), true), ix);
    }
    assert_eq!(zoom_index(MouseZoomModifier::Ctrl, false), 0);
    assert_eq!(zoom_labels(true, "Off"), ["⌘", "⌃", "⌥", "Off"]);
    assert_eq!(zoom_labels(false, "Off"), ["Ctrl", "Alt", "Off"]);
    assert_eq!(zoom_modifier_at(0, false), MouseZoomModifier::Platform);
}

#[test]
fn a_value_between_the_buckets_is_shown_as_it_is() {
    let buckets = vec![5, 10, 30];
    assert_eq!(preset_choice(&buckets, 10), (Some(1), None));
    assert_eq!(preset_choice(&buckets, 11), (None, Some(11)));
}

#[test]
fn ligatures_are_on_where_a_feature_says_so() {
    assert!(!ligatures_on(&None));
    assert!(!ligatures_on(&Some(FontFeatures { calt: Some(false), tags: vec![] })));
    assert!(ligatures_on(&Some(FontFeatures { calt: Some(true), tags: vec![] })));
    assert!(ligatures_on(&Some(FontFeatures { calt: None, tags: vec![("liga".into(), 1)] })));
    assert!(!ligatures_on(&Some(FontFeatures { calt: None, tags: vec![("liga".into(), 0)] })));
}

#[test]
fn a_field_rings_red_before_it_rings_blue() {
    assert_eq!(text_field(true, true), FieldRing::Danger);
    assert_eq!(text_field(true, false), FieldRing::Focused);
    assert_eq!(text_field(false, false), FieldRing::Rest);
}

#[test]
fn switches_turn_what_is_set() {
    let a = app();
    assert_eq!(a.settings_switch(true).toggled(), Some(false));
    assert_eq!(Control::Switch { on: true, disabled: true }.toggled(), None);
    assert_eq!(Control::Languages.toggled(), None);
}

#[test]
fn the_prompt_s_switches_wait_for_its_editor() {
    let mut a = app();
    a.config.prompt_editor = false;
    let group = a.render_prompt_group();
    match control_of(&group, RowKey::TabCompletion) {
        Control::Switch { on, disabled } => assert!(on && disabled, "kept, but out of reach"),
        other => panic!("{other:?}"),
    }
    a.config.prompt_editor = true;
    match control_of(&a.render_prompt_group(), RowKey::TabCompletion) {
        Control::Switch { on, disabled } => assert!(on && !disabled),
        other => panic!("{other:?}"),
    }
}

#[test]
fn a_custom_folder_is_asked_for_only_where_it_is_used() {
    let mut a = app();
    assert!(!row_keys(&a.render_shell_group()).contains(&RowKey::CustomPath));
    a.config.wd_strategy = WdStrategy::Custom;
    assert!(row_keys(&a.render_shell_group()).contains(&RowKey::CustomPath));
}

#[test]
fn option_as_meta_is_a_matter_of_the_mac() {
    let mut a = app();
    let all = |a: &Tty7App| {
        a.render_settings_input().groups.iter().flat_map(row_keys).collect::<Vec<RowKey>>()
    };
    assert!(!all(&a).contains(&RowKey::OptionAsMeta));
    a.platform = Platform::MacOs;
    assert!(all(&a).contains(&RowKey::OptionAsMeta));
}

#[test]
fn the_shells_found_are_offered() {
    let a = app();
    let picker = a.shell_picker().expect("a page is open");
    assert!(picker.rows.is_none(), "closed");
    let mut a = app();
    a.toggle_settings_menu("shell-program", 0, false);
    assert!(a.settings_menu_open("shell-program"));
}

#[test]
fn the_font_in_use_is_marked_in_its_menu() {
    let mut a = app();
    a.toggle_settings_menu("font", 0, true);
    let menu = a.font_dropdown("font", Some("Serif"), None);
    assert_eq!(menu.label, "Serif");
    assert_eq!(menu.values, ["Mono", "Serif"]);
    let rows = menu.menu.rows.expect("open");
    assert_eq!(rows.iter().map(|r| r.checked).collect::<Vec<_>>(), [false, true]);
    let menu = a.font_dropdown("font", None, Some("Same as regular"));
    assert_eq!(menu.label, "Same as regular");
    assert!(menu.menu.rows.unwrap()[0].checked);
}

#[test]
fn an_update_is_offered_where_there_is_one() {
    let mut a = app();
    let keys = |a: &Tty7App| {
        a.render_settings_about().groups.iter().flat_map(row_keys).collect::<Vec<RowKey>>()
    };
    assert!(!keys(&a).contains(&RowKey::UpdateAvailable));
    a.facts.update.available = Some(AvailableUpdate { installable: true, has_hint: false });
    assert!(keys(&a).contains(&RowKey::UpdateAvailable));
}

#[test]
fn a_check_under_way_is_named_on_its_button() {
    let mut a = app();
    let button = |a: &Tty7App| {
        a.render_settings_about().groups.iter().flat_map(|g| g.body.iter()).find_map(|l| match l {
            Line::Row(r) if r.key == RowKey::Version => match r.control {
                Control::Buttons { last, .. } => Some((last.key, last.disabled)),
                _ => None,
            },
            _ => None,
        })
    };
    assert_eq!(button(&a), Some((BtnKey::CheckForUpdates, false)));
    a.facts.update.phase = UpdatePhase::Checking;
    assert_eq!(button(&a), Some((BtnKey::CheckingForUpdates, true)));
    a.facts.update.phase = UpdatePhase::Installing;
    assert_eq!(button(&a), Some((BtnKey::CheckForUpdates, true)));
}

#[test]
fn a_stale_server_is_named() {
    let mut a = app();
    let desc = |a: &Tty7App| {
        a.render_settings_maintenance().body.iter().find_map(|l| match l {
            Line::Row(r) if r.key == RowKey::Server => Some(r.desc),
            _ => None,
        })
    };
    assert_eq!(desc(&a), Some(RowDesc::Standing));
    a.facts.stale_server = true;
    assert_eq!(desc(&a), Some(RowDesc::StaleServer { in_place: false }));
}

#[test]
fn a_slot_offers_its_shade_with_one_s_own_last() {
    let mut a = app();
    assert_eq!(a.theme_mode(), ThemeMode::Dark);
    let cards = a.theme_mode_cards();
    assert_eq!(cards.iter().filter(|c| c.on).map(|c| c.mode).collect::<Vec<_>>(), [ThemeMode::Dark]);
    let slot = a.theme_slot_dropdown(true);
    assert_eq!(slot.name, "NIGHT");
    assert!(!slot.open);
    let list = vec![2, 1];
    let popover = a.theme_popover(&open_settings(), "night", &list);
    assert_eq!(popover.rows.iter().map(|r| r.theme).collect::<Vec<_>>(), [2, 1]);
    assert!(popover.rows[0].checked && !popover.rows[1].checked);
    assert!(popover.rows[1].custom && !popover.rows[0].custom);
    assert_eq!(popover.preview, Preview::Theme(2));
    assert_eq!(popover.foot, [FootLink::DuplicateToEdit, FootLink::OpenFolder]);
    a.config.themes.follow_system = true;
    assert_eq!(a.theme_mode(), ThemeMode::System);
    assert_eq!(a.theme_slot_dropdown(false).name, "DAY");
}

#[test]
fn the_foot_of_a_slot_copies_the_theme_it_holds() {
    let mut a = app();
    a.toggle_settings_menu("theme-slot-dark", 1, true);
    assert!(a.settings_menu_open("theme-slot-dark"));
    let (focus, work) = a.click_theme_foot(true, FootLink::DuplicateToEdit);
    assert_eq!(focus, FocusStep::Page);
    assert_eq!(work, FootWork::CopyTheme("night".into()));
    assert!(!a.settings_menu_open("theme-slot-dark"));

    let themes = &mut a.config.themes;
    assert_eq!(themes.fork_slot_theme(true, Err("read-only".into())), Some("read-only".into()));
    assert_eq!(themes.single, "night");
    assert_eq!(themes.fork_slot_theme(true, Ok("night-2".into())), None);
    assert_eq!(themes.single, "night-2");
    themes.follow_system = true;
    themes.fork_slot_theme(true, Ok("dusk".into()));
    themes.pick_slot_theme(false, "dawn".into());
    assert_eq!((themes.light.as_str(), themes.dark.as_str()), ("dawn", "dusk"));
    assert_eq!(themes.single, "night-2");
}

#[test]
fn the_foot_of_a_slot_opens_the_folder() {
    let mut a = app();
    let (focus, work) = a.click_theme_foot(false, FootLink::OpenFolder);
    assert_eq!((focus, work), (FocusStep::Stays, FootWork::OpenFolder));
}

#[test]
fn the_theme_editor_has_a_row_for_each_seed() {
    let mut a = app();
    assert!(a.render_theme_editor_group().is_none());
    state(&mut a).theme_editor = Some(3);
    let group = a.render_theme_editor_group().expect("a theme is edited");
    assert_eq!(
        row_keys(&group)[..3],
        [RowKey::SeedColor(0), RowKey::SeedColor(1), RowKey::SeedColor(2)]
    );
}

fn host(name: &str, address: &str, user: &str) -> SshProfile {
    let mut p = SshProfile::new(name);
    p.host = address.into();
    p.user = user.into();
    p
}

fn with_hosts() -> Tty7App {
    let mut a = app();
    a.config.ssh_profiles = vec![host("beta", "b", "u"), host("Alpha", "a", "u"), host("gamma", "c", "u")];
    let facts = |group: &str, rank, matches| HostFacts {
        group: group.into(),
        group_label: group.to_uppercase(),
        group_rank: rank,
        matches,
    };
    a.facts.hosts = vec![facts("work", 1, true), facts("home", 0, true), facts("work", 1, false)];
    a.facts.by_frecency = vec![2, 0];
    a
}

#[test]
fn hosts_are_shown_by_how_often_they_are_used() {
    let a = with_hosts();
    let group = a.render_hosts_group().unwrap();
    assert_eq!(group.lines, [HostLine::Host(2), HostLine::Host(0)]);
    assert_eq!(group.footer, HostsFooter::More { rest: 1 });
    assert_eq!(group.more.map(|b| b.key), Some(BtnKey::ShowAll));
    assert!(!group.scrolls);
    let ids = visible_ids(&a.config.ssh_profiles, &group.lines);
    assert_eq!(ids, [a.config.ssh_profiles[2].id, a.config.ssh_profiles[0].id]);
}

#[test]
fn all_hosts_are_shown_in_their_groups() {
    let mut a = with_hosts();
    a.toggle_show_all_hosts();
    let group = a.render_hosts_group().unwrap();
    assert_eq!(
        group.lines,
        [
            HostLine::Head { first: 1, count: 1, collapsed: false },
            HostLine::Host(1),
            HostLine::Head { first: 0, count: 2, collapsed: false },
            HostLine::Host(0),
            HostLine::Host(2),
        ]
    );
    assert_eq!(group.footer, HostsFooter::All { count: 3, files: 2 });
    assert_eq!(group.more.map(|b| b.key), Some(BtnKey::ShowFewer));
    assert_eq!(a.render_host_group_head(1, 1, false).label, "HOME");
    state(&mut a).ssh.collapsed = vec!["work".into()];
    let group = a.render_hosts_group().unwrap();
    assert!(!group.lines.contains(&HostLine::Host(0)));
}

#[test]
fn a_search_for_a_host_is_sorted_by_title() {
    let mut a = with_hosts();
    state(&mut a).ssh.filter = "a".into();
    let group = a.render_hosts_group().unwrap();
    assert_eq!(group.lines, [HostLine::Host(1), HostLine::Host(0)], "Alpha before beta");
    for h in a.facts.hosts.iter_mut() {
        h.matches = false;
    }
    assert_eq!(a.render_hosts_group().unwrap().footer, HostsFooter::NoMatch);
    assert_eq!(app().render_hosts_group().unwrap().footer, HostsFooter::NoHosts);
}

#[test]
fn a_host_is_called_by_its_name_or_its_address() {
    let mut p = host("", "example.com", "me");
    assert_eq!(host_title(&p), "me@example.com");
    p.name = "web".into();
    assert_eq!(host_title(&p), "web");
    let bastion = host("bastion", "b", "u");
    p.jump_host = Some(bastion.id);
    assert_eq!(host_address(&p, &vec![bastion]), "me@example.com  via bastion");
    p.port = 2222;
    p.identity_files = vec!["~/.ssh/k".into()];
    assert_eq!(ssh_command(&p), "ssh -p 2222 -i ~/.ssh/k me@example.com");
}

fn form(editing: u128) -> HostForm {
    HostForm {
        editing,
        name: String::new(),
        host: " web ".into(),
        user: "me".into(),
        port: "2222".into(),
        jump: "bastion".into(),
        dirty: true,
        core_blank: false,
        errors: FormErrors { host: false, port: false, jump: false, socks: false, http: false },
    }
}

#[test]
fn a_host_under_edit_reads_as_typed() {
    let mut a = with_hosts();
    let id = a.config.ssh_profiles[0].id;
    let row = a.render_host_row(Some(0), id, "New host").unwrap();
    assert_eq!((row.title.as_str(), row.body, row.meta), ("beta", HostBody::Nothing, HostMeta::Never));
    a.ssh_profile_frecency = vec![HostUsage { id, usage: Usage { count: 1, last_used: 99 } }];
    assert_eq!(a.render_host_row(Some(0), id, "").unwrap().meta, HostMeta::LastUsed(99));
    a.facts.live = vec![id];
    assert_eq!(a.render_host_row(Some(0), id, "").unwrap().meta, HostMeta::Live);
    state(&mut a).ssh.form = Some(form(id));
    let row = a.render_host_row(Some(0), id, "New host").unwrap();
    assert_eq!(row.title, "web");
    assert_eq!(row.address, "me@web:2222  via bastion");
    assert_eq!((row.body, row.meta), (HostBody::Editor, HostMeta::Unsaved));
}

#[test]
fn a_row_is_opened_and_shut_by_its_click() {
    let mut a = with_hosts();
    let id = a.config.ssh_profiles[0].id;
    a.click_host_row(id);
    assert_eq!(state(&mut a).ssh.open, Some(id));
    assert_eq!(a.render_host_row(Some(0), id, "").unwrap().body, HostBody::Details);
    assert_eq!(a.render_host_details(0).command, "ssh u@b");
    a.click_host_row(id);
    assert_eq!(state(&mut a).ssh.open, None);
}

#[test]
fn a_form_with_an_error_offers_nothing_to_save() {
    let mut a = with_hosts();
    let id = a.config.ssh_profiles[0].id;
    let mut f = form(id);
    f.errors.port = true;
    state(&mut a).ssh.form = Some(f);
    let editor = a.render_host_editor(true).unwrap();
    assert_eq!(editor.error, Some(FormError::Port));
    assert!(editor.port_bad && !editor.host_bad);
    assert!(editor.save.disabled || editor.save.dimmed);
    assert!(editor.remove.is_some());
    assert!(a.render_host_editor(false).unwrap().remove.is_none());
}

#[test]
fn a_host_is_removed_at_the_second_click() {
    let mut a = with_hosts();
    state(&mut a).ssh.form = Some(form(a.config.ssh_profiles[0].id));
    assert!(!a.click_remove_host());
    assert!(state(&mut a).ssh.confirm_remove);
    assert!(a.click_remove_host());
}

#[test]
fn a_copied_command_says_so_for_a_while() {
    let mut a = with_hosts();
    a.host_command_copied(7);
    assert_eq!(state(&mut a).ssh.copied, Some(7));
    a.host_copy_expired(8);
    assert_eq!(state(&mut a).ssh.copied, Some(7));
    a.host_copy_expired(7);
    assert_eq!(state(&mut a).ssh.copied, None);
}

#[test]
fn a_connection_counts_for_its_host_alone() {
    let mut a = with_hosts();
    let store = InMemoryCredentialStore::new();
    let (id, other) = (a.config.ssh_profiles[0].id, a.config.ssh_profiles[1].id);
    a.ssh_profile_frecency = vec![HostUsage { id: other, usage: Usage { count: 3, last_used: 5 } }];
    let spec = a.connect_ssh_profile(id, &store, 100).expect("a saved host");
    assert_eq!(spec.host, "b");
    a.connect_ssh_profile(id, &store, 200);
    let used = a.ssh_profile_frecency.iter().find(|u| u.id == id).unwrap().usage;
    assert_eq!(used, Usage { count: 2, last_used: 200 });
    let kept = a.ssh_profile_frecency.iter().find(|u| u.id == other).unwrap().usage;
    assert_eq!(kept, Usage { count: 3, last_used: 5 });
    assert!(a.connect_ssh_profile(1, &store, 300).is_none() || id == 1 || other == 1);
}

#[test]
fn a_lost_session_is_started_again() {
    let a = with_hosts();
    let store = InMemoryCredentialStore::new();
    let spec = || Some(Box::new(a.native_ssh_spec_for_profile(&a.config.ssh_profiles[0], &store)));
    let again = a.restart_ssh_session(Some(SshPane { disconnected: true, spec: spec() }), &store);
    assert_eq!(again.map(|s| s.host).as_deref(), Some("b"));
    assert!(a.restart_ssh_session(Some(SshPane { disconnected: false, spec: spec() }), &store).is_none());
    assert!(a.restart_ssh_session(None, &store).is_none());
    let qc = parse_quick_connect("me@fresh").unwrap();
    assert_eq!(a.quick_connect(qc, &store, &AliasResolver { entries: vec![] }).host, "fresh");
}

fn agent(agent: HookAgent, name: &str, state: HooksState) -> AgentHookRow {
    AgentHookRow { agent, name: name.into(), target: "~/.config".into(), state }
}

#[test]
fn agents_are_named_after_their_command_line() {
    assert_eq!(cli_agent(HookAgent::Codex), CLIAgent::Codex);
    assert_eq!(cli_agent(HookAgent::Cursor), CLIAgent::Cursor);
}

#[test]
fn installed_agents_are_drawn_first_of_all() {
    let mut a = app();
    assert!(matches!(a.render_agent_hooks_group().unwrap().body, AgentsBody::Loading));
    a.facts.hook_agents = vec![HookAgent::Codex, HookAgent::Pi];
    state(&mut a).agents.view = AgentHooksView::Ready(vec![
        agent(HookAgent::Codex, "Codex", HooksState::Installed),
        agent(HookAgent::Pi, "Pi", HooksState::NotInstalled),
    ]);
    let group = a.render_agent_hooks_group().unwrap();
    assert_eq!(group.installed, Some(1));
    assert_eq!(group.label, "This computer");
    match group.body {
        AgentsBody::Ready { rows, more, empty, .. } => {
            assert_eq!(rows.iter().map(|r| r.agent).collect::<Vec<_>>(), [HookAgent::Codex]);
            assert_eq!(rows[0].status, Some(HookStatus::Installed));
            assert_eq!(more.map(|m| m.rest), Some(Some(1)));
            assert_eq!(empty, None);
        },
        other => panic!("{other:?}"),
    }
    a.toggle_show_all_agents();
    match a.render_agent_hooks_group().unwrap().body {
        AgentsBody::Ready { rows, .. } => assert_eq!(rows.len(), 2),
        other => panic!("{other:?}"),
    }
    state(&mut a).agents.query = "PI".into();
    match a.render_agent_hooks_group().unwrap().body {
        AgentsBody::Ready { rows, .. } => {
            assert_eq!(rows.iter().map(|r| r.name.as_str()).collect::<Vec<_>>(), ["Pi"]);
        },
        other => panic!("{other:?}"),
    }
    state(&mut a).agents.query = "zzz".into();
    match a.render_agent_hooks_group().unwrap().body {
        AgentsBody::Ready { empty, .. } => assert_eq!(empty, Some(NoAgents::NoneMatch)),
        other => panic!("{other:?}"),
    }
}

#[test]
fn an_agent_offers_what_its_hooks_lack() {
    let a = app();
    let row = a.render_agent_row(0, &agent(HookAgent::Pi, "Pi", HooksState::NotInstalled), false, None);
    assert_eq!(row.action.map(|b| b.key), Some(BtnKey::InstallHooks));
    let row = a.render_agent_row(0, &agent(HookAgent::Pi, "Pi", HooksState::Outdated), false, None);
    assert_eq!(row.action.map(|b| b.key), Some(BtnKey::UpdateHooks));
    assert_eq!(row.status, Some(HookStatus::UpdateAvailable));
    let row = a.render_agent_row(0, &agent(HookAgent::Pi, "Pi", HooksState::Outdated), true, None);
    assert_eq!(row.status, Some(HookStatus::Working));
}

fn action(name: &str, group: u32, keys: &str) -> ActionKeys {
    ActionKeys {
        action: name.into(),
        keys: vec![keys.into()],
        group,
        label: name.to_string(),
        matches: false,
    }
}

#[test]
fn shortcuts_are_listed_by_their_groups() {
    let mut a = app();
    a.facts.actions = vec![action("Zoom", 2, "+"), action("NewTab", 1, "t"), action("Close", 1, "w")];
    let page = a.render_settings_keybindings().unwrap();
    assert_eq!(page.groups.iter().map(|g| g.group).collect::<Vec<_>>(), [1, 2]);
    assert_eq!(page.groups[0].rows.iter().map(|r| r.place).collect::<Vec<_>>(), [1, 2]);
    assert_eq!((page.preset, page.prefix, page.changed), (0, None, 0));
    assert!(page.restore.is_none());

    state(&mut a).keys.search = "ZOOM".into();
    let page = a.render_settings_keybindings().unwrap();
    assert_eq!(page.groups.iter().map(|g| g.group).collect::<Vec<_>>(), [2]);

    a.config.keybinding_preset = "tmux".into();
    a.config.prefix = "ctrl-a".into();
    a.config.keybindings = vec!["Zoom".into()];
    let page = a.render_settings_keybindings().unwrap();
    assert_eq!((page.preset, page.prefix, page.changed), (1, Some(1), 1));
    assert!(page.groups[0].rows[0].modified);
}

#[test]
fn a_chord_being_typed_is_shown_in_its_row() {
    let mut a = app();
    a.facts.actions = vec![action("NewTab", 1, "t")];
    state(&mut a).keys.recording =
        Some(Recording { action: "NewTab".into(), chords: vec!["ctrl-b".into(), "c".into()] });
    let page = a.render_settings_keybindings().unwrap();
    assert!(page.groups[0].rows[0].recording);
    assert_eq!(page.groups[0].rows[0].shown, ["ctrl-b c"]);
}

#[test]
fn a_click_records_and_a_second_one_stops() {
    let mut a = app();
    assert!(a.click_shortcut("NewTab"));
    state(&mut a).keys.recording = Some(Recording { action: "NewTab".into(), chords: vec![] });
    assert!(!a.click_shortcut("NewTab"));
}

#[test]
fn shortcut_presets_are_told_by_their_names() {
    assert_eq!(preset_at(0), "default");
    assert_eq!(preset_at(1), "tmux");
    assert_eq!(prefix_at(0), "ctrl-b");
    assert_eq!(prefix_at(1), "ctrl-a");
}

#[test]
fn a_conflict_names_the_other_action() {
    assert_eq!(conflict_label("Rename tab…"), "Rename tab");
    let chords = vec![vec!["⌘".to_string(), "K".to_string()], vec!["C".to_string()]];
    assert_eq!(conflict_keys(&chords, "then"), "⌘K then C");
}

#[test]
fn results_take_the_place_of_the_page() {
    let mut a = app();
    match a.render_settings().unwrap().content {
        Content::Rows(page) => assert!(!page.groups.is_empty()),
        other => panic!("{other:?}"),
    }
    a.catalog = vec![entry(RowKey::FontSize, SettingsSection::Appearance, 0, true, false)];
    state(&mut a).search = "font".into();
    state(&mut a).search_active = true;
    match a.render_settings().unwrap().content {
        Content::Results(results) => {
            assert_eq!(results.rows.len(), 1);
            assert!(results.rows[0].selected && results.rows[0].head);
        },
        other => panic!("{other:?}"),
    }
    a.catalog.clear();
    assert_eq!(a.render_settings_results().unwrap().empty, Some(NoResults::NothingMatches));
    a.settings = None;
    assert!(a.render_settings().is_none());
}

#[test]
fn the_panel_s_tabs_say_how_much_changed() {
    let words =
        PanelWords { info: "Info".into(), changes: "Changes".into(), files: "Files".into() };
    let tiles = right_panel_tabs(RightPanelTab::Changes, Some((2, 1)), &words);
    assert_eq!(tiles.iter().filter(|t| t.selected).map(|t| t.tab).collect::<Vec<_>>(), [RightPanelTab::Changes]);
    assert_eq!(window_chrome(&RightPanel { visible: true, tab: RightPanelTab::Info }), PanelTip::Hide);
    assert_eq!(window_chrome(&RightPanel { visible: false, tab: RightPanelTab::Info }), PanelTip::Show);
}

#[test]
fn a_workspace_shows_its_letter_and_whether_it_lives() {
    let avatar = workspace_avatar("tty", Liveness::Alive, false);
    assert_eq!(avatar.initial, "T");
    assert_eq!(avatar.dot, Some(LiveDot::Live));
    let avatar = workspace_avatar("tty", Liveness::Stopped, false);
    assert!(avatar.dimmed && avatar.dot.is_none());
    assert!(matches!(workspace_head(true, &None), WorkspaceHead::Field));
    assert!(matches!(
        workspace_head(false, &Some("tty".into())),
        WorkspaceHead::Named { name, monogram } if name == "tty" && monogram == "T"
    ));
}

#[test]
fn a_tab_wears_its_agent() {
    let words = StatusWords { working: "W".into(), waiting: "Waiting".into(), done: "D".into() };
    match tab_avatar(Some(CLIAgent::Codex), "Codex", Some(AgentStatus::Waiting), 3, false, &words) {
        TabAvatar::Agent { agent, tip, dot } => {
            assert_eq!(agent, CLIAgent::Codex);
            assert_eq!(tip, "Codex — Waiting");
            assert!(dot.is_some());
        },
        other => panic!("{other:?}"),
    }
    assert!(matches!(tab_avatar(None, "", None, 0, false, &words), TabAvatar::Terminal { dot: false }));
}

#[test]
fn a_saved_host_is_left_open() {
    let mut a = with_hosts();
    let id = a.config.ssh_profiles[0].id;
    state(&mut a).ssh.form = Some(form(id));
    a.save_host_form(None);
    assert!(state(&mut a).ssh.form.is_some(), "the form has an error");
    a.save_host_form(Some(id));
    assert!(state(&mut a).ssh.form.is_none());
    assert_eq!(state(&mut a).ssh.open, Some(id));
}

#[test]
fn hosts_are_walked_with_the_arrows() {
    let mut a = with_hosts();
    assert!(a.hosts_key(&vec![10, 20], MenuKey::Down));
    assert_eq!(state(&mut a).ssh.open, Some(10));
    assert!(a.hosts_key(&vec![10, 20], MenuKey::Down));
    assert_eq!(state(&mut a).ssh.open, Some(20));
    assert!(a.hosts_key(&vec![10, 20], MenuKey::Up));
    assert_eq!(state(&mut a).ssh.open, Some(10));
}

#[test]
fn one_new_host_is_added_at_a_time() {
    let mut a = with_hosts();
    let id = a.config.ssh_profiles[0].id;
    state(&mut a).ssh.filter = "web".into();
    state(&mut a).ssh.form = Some(form(id ^ 1));
    assert!(!a.click_add_host());
    assert_eq!(state(&mut a).ssh.filter, "web");
    state(&mut a).ssh.form = Some(form(id));
    assert!(a.click_add_host(), "a saved host under edit is no new one");
    assert_eq!(state(&mut a).ssh.filter, "");
}

#[test]
fn escape_clears_the_search_of_agents() {
    let mut a = app();
    state(&mut a).agents.query = "pi".into();
    assert!(!a.agents_key(MenuKey::Enter));
    assert_eq!(state(&mut a).agents.query, "pi");
    assert!(a.agents_key(MenuKey::Escape));
    assert_eq!(state(&mut a).agents.query, "");
    assert!(!a.agents_key(MenuKey::Escape));
}

#[test]
fn another_machine_starts_afresh() {
    let mut a = app();
    state(&mut a).agents.touched = vec![HookAgent::Pi];
    a.machine_picked();
    assert!(state(&mut a).agents.touched.is_empty());
}

#[test]
fn the_backdrop_in_use_is_checked() {
    let mut a = app();
    a.facts.backdrops =
        vec![(WindowBackdrop::Auto, "Automatic".into()), (WindowBackdrop::Material(3), "Glass".into())];
    a.config.window_backdrop = WindowBackdrop::Material(3);
    assert_eq!(a.backdrop_menu().start, 1);
    a.toggle_settings_menu("window-backdrop", 0, false);
    let menu = a.backdrop_menu();
    assert_eq!(menu.panel.map(|rows| rows.len()), Some(2));
    state(&mut a).focused_input = Some(3);
    assert!(a.settings_input_focused(3) && !a.settings_input_focused(4));
}

#[test]
fn a_shortcut_of_two_chords_says_so() {
    let key = |k: &str| CapPart::Key(k.into());
    let chord = |keys: &[&str]| keys.iter().map(|k| k.to_string()).collect::<Vec<String>>();
    assert_eq!(keycap_row(&vec![chord(&["⌘", "T"])]), [key("⌘"), key("T")]);
    assert_eq!(
        keycap_row(&vec![chord(&["⌃", "B"]), chord(&["X"])]),
        [key("⌃"), key("B"), CapPart::Between, key("X")]
    );
    assert!(keycap_row(&vec![]).is_empty());
}

#[test]
fn the_fields_of_a_host_are_saved_or_given_up_by_key() {
    assert_eq!(host_form_key(MenuKey::Enter), Some(FormStep::Save));
    assert_eq!(host_form_key(MenuKey::Escape), Some(FormStep::Cancel));
    assert_eq!(host_form_key(MenuKey::Down), None);
}

#[test]
fn only_changes_are_shown_and_everything_again() {
    let mut a = app();
    let before = state(&mut a).modified_only;
    a.toggle_modified_only();
    assert_eq!(state(&mut a).modified_only, !before);
    a.toggle_modified_only();
    assert_eq!(state(&mut a).modified_only, before);
}
