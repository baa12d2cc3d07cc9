//! The pages that are rows and nothing else.

use vstd::prelude::*;
use vstd::string::*;
use crate::preferences;
use crate::preferences::{Platform, WdStrategy, LinkFileOpen, WindowBackdrop};
use crate::settings;
use crate::settings::{
    Btn, BtnKey, BtnKind, Control, Dropdown, FontSlot, Group, GroupDesc,
    GroupLines, HeadKey, InventoryShell, Label, LabelView, Language, Line, MenuEntry, EntryView,
    MenuRow, Page, PendingUpdate, Pick, Quantity, Row, RowDesc, RowKey, SearchMenu, SearchOption,
    SettingsState, Tty7App, UpdatePhase, UpdateStatus, Word,
};
use crate::text;

verus! {

pub open spec fn is_mac(app: Tty7App) -> bool {
    app.platform == Platform::MacOs
}

pub open spec fn is_windows(app: Tty7App) -> bool {
    app.platform == Platform::Windows
}

/// The control over a value that some buckets hold.
pub open spec fn bucket_control(buckets: Seq<u64>, value: u64) -> Control {
    let at = preferences::bucket_of(buckets, value);
    Control::Segments {
        selected: at,
        custom: if at is None {
            Some(value)
        } else {
            None
        },
    }
}

/// The first group of the general page. Only the Mac lets a terminal be the
/// default one.
pub open spec fn general_first(app: Tty7App) -> Seq<Line> {
    let language = seq![settings::plain_row(app, RowKey::Language, Control::Languages)];
    if is_mac(app) {
        language.push(
            settings::plain_row(
                app,
                RowKey::DefaultTerminal,
                Control::Button(
                    settings::button_of(BtnKey::SetDefaultTerminal, BtnKind::Secondary),
                ),
            ),
        )
    } else {
        language
    }
}

pub open spec fn startup_rows(app: Tty7App) -> Seq<Line> {
    let c = app.config;
    seq![
        settings::plain_row(
            app,
            RowKey::StartupWindow,
            settings::segments_of(preferences::startup_cell(c.startup_mode)),
        ),
        settings::plain_row(
            app,
            RowKey::RememberWindowSize,
            settings::switch_of(c.remember_window_size),
        ),
        settings::plain_row(
            app,
            RowKey::RestoreLastLayout,
            settings::switch_of(c.restore_session),
        ),
        settings::plain_row(app, RowKey::ShowTrayIcon, settings::switch_of(c.show_tray_icon)),
    ]
}

pub open spec fn notify_rows(app: Tty7App) -> Seq<Line> {
    let c = app.config;
    seq![
        settings::plain_row(
            app,
            RowKey::NotifyOnCommandFinish,
            settings::segments_of(preferences::notify_cell(c.notify_on_command_finish)),
        ),
        settings::plain_row(
            app,
            RowKey::NotifyThreshold,
            bucket_control(app.facts.notify_buckets@, c.notify_threshold_secs),
        ),
    ]
}

/// The general page.
pub open spec fn general_page(app: Tty7App) -> Seq<GroupLines> {
    seq![
        settings::group_of(None, None, general_first(app)),
        settings::group_of(Some(HeadKey::StartupRestore), None, startup_rows(app)),
        settings::group_of(Some(HeadKey::Notifications), None, notify_rows(app)),
    ]
}

pub open spec fn prompt_rows(app: Tty7App) -> Seq<Line> {
    let c = app.config;
    let off = !c.prompt_editor;
    let desc = if off {
        RowDesc::NeedsPromptEditor
    } else {
        RowDesc::Standing
    };
    seq![
        settings::plain_row(app, RowKey::PromptEditor, settings::switch_of(c.prompt_editor)),
        Line::Row(
            settings::row_of(
                app,
                RowKey::TabCompletion,
                desc,
                Control::Switch { on: c.tab_completion, disabled: off },
                off,
            ),
        ),
        Line::Row(
            settings::row_of(
                app,
                RowKey::HistorySearch,
                desc,
                Control::Switch { on: c.history_search, disabled: off },
                off,
            ),
        ),
        settings::plain_row(
            app,
            RowKey::PerPaneHistory,
            settings::switch_of(c.per_pane_history),
        ),
    ]
}

/// The group of the prompt: what only the prompt editor can do is greyed out
/// while it is off.
pub open spec fn prompt_group(app: Tty7App) -> GroupLines {
    settings::group_of(Some(HeadKey::Prompt), Some(GroupDesc::Prompt), prompt_rows(app))
}

pub open spec fn shell_rows(app: Tty7App, s: SettingsState) -> Seq<Line> {
    let c = app.config;
    let first = seq![
        settings::plain_row(app, RowKey::Program, Control::ShellProgram),
        settings::plain_row(
            app,
            RowKey::Arguments,
            Control::TextField { invalid: !s.fields.shell_args_valid },
        ),
        settings::plain_row(
            app,
            RowKey::StartIn,
            settings::segments_of(preferences::wd_cell(c.wd_strategy)),
        ),
    ];
    let path = if c.wd_strategy == WdStrategy::Custom {
        seq![
            settings::plain_row(
                app,
                RowKey::CustomPath,
                Control::TextField { invalid: !s.fields.wd_path_saveable },
            ),
        ]
    } else {
        Seq::empty()
    };
    (first + path).push(Line::ShellFooter)
}

/// A group with nothing in it.
pub open spec fn no_group() -> GroupLines {
    settings::group_of(None, None, Seq::empty())
}

/// The group of the shell. A path is asked for only where shells start at one.
pub open spec fn shell_group(app: Tty7App) -> GroupLines {
    match app.settings {
        Some(s) => settings::group_of(
            Some(HeadKey::Shell),
            Some(GroupDesc::ShellDefault { powershell: is_windows(app) }),
            shell_rows(app, s),
        ),
        None => no_group(),
    }
}

/// The places of the shells that were found rather than written down: a shell
/// that was written down has arguments that a pick would drop.
pub open spec fn offered(shells: Seq<InventoryShell>) -> Seq<usize>
    decreases shells.len(),
{
    if shells.len() == 0 {
        Seq::empty()
    } else if shells.last().user_authored {
        offered(shells.drop_last())
    } else {
        offered(shells.drop_last()).push((shells.len() - 1) as usize)
    }
}

/// The items for the shells of `places`.
pub open spec fn shell_items(
    shells: Seq<InventoryShell>,
    places: Seq<usize>,
    program: Seq<char>,
) -> Seq<EntryView> {
    Seq::new(
        places.len(),
        |i: int|
            settings::plain_item(
                LabelView::Text(shells[places[i] as int].label@),
                program == shells[places[i] as int].program@,
                Pick::Shell(places[i]),
            ),
    )
}

/// The menu of shells: the platform's own, and behind a line those that were
/// found.
pub open spec fn shell_menu(
    shells: Seq<InventoryShell>,
    typed: Seq<char>,
    windows: bool,
) -> Seq<EntryView> {
    let program = text::trimmed(typed);
    let places = offered(shells);
    let first = seq![
        settings::plain_item(
            LabelView::Word(
                if windows {
                    Word::PowerShell
                } else {
                    Word::LoginShell
                },
            ),
            program.len() == 0,
            Pick::DefaultShell,
        ),
    ];
    if places.len() == 0 {
        first
    } else {
        first.push(EntryView::Separator) + shell_items(shells, places, program)
    }
}

/// The menu beside the field for the shell: none when no shell was found, and
/// its rows while it is open.
#[derive(Debug)]
pub struct ShellPicker {
    pub rows: Option<Vec<MenuRow>>,
}

pub open spec fn scroll_rows(app: Tty7App) -> Seq<Line> {
    let c = app.config;
    seq![
        settings::plain_row(
            app,
            RowKey::Scrollback,
            bucket_control(app.facts.scrollback_buckets@, c.scrollback_limit),
        ),
        settings::plain_row(app, RowKey::ScrollSpeed, Control::Slider(Quantity::ScrollSpeed)),
        settings::plain_row(app, RowKey::SmoothScroll, settings::switch_of(c.smooth_scroll)),
    ]
}

pub open spec fn link_rows(app: Tty7App) -> Seq<Line> {
    let c = app.config;
    let rows = seq![
        settings::plain_row(app, RowKey::DetectUrls, settings::switch_of(c.link_url)),
        settings::plain_row(
            app,
            RowKey::ForwardSshLoopbackLinks,
            settings::switch_of(c.ssh_loopback_forward),
        ),
        settings::plain_row(
            app,
            RowKey::OpenFilesWith,
            settings::segments_of(preferences::link_cell(c.link_file_open)),
        ),
    ];
    if c.link_file_open == LinkFileOpen::Command {
        rows.push(
            settings::plain_row(
                app,
                RowKey::OpenFilesCommand,
                Control::TextField { invalid: false },
            ),
        )
    } else {
        rows
    }
}

/// The terminal page. The command that opens files is asked for only where
/// files are opened with a command.
pub open spec fn terminal_page(app: Tty7App) -> Seq<GroupLines> {
    if app.settings is None {
        Seq::empty()
    } else {
        seq![
            shell_group(app),
            prompt_group(app),
            settings::group_of(Some(HeadKey::Scrolling), None, scroll_rows(app)),
            settings::group_of(
                Some(HeadKey::Bell),
                None,
                seq![
                    settings::plain_row(
                        app,
                        RowKey::TerminalBell,
                        settings::segments_of(preferences::bell_cell(app.config.bell)),
                    ),
                ],
            ),
            settings::group_of(Some(HeadKey::Links), None, link_rows(app)),
        ]
    }
}

pub open spec fn clipboard_rows(app: Tty7App) -> Seq<Line> {
    let c = app.config;
    seq![
        settings::plain_row(app, RowKey::SmartSelection, settings::switch_of(c.smart_select)),
        settings::plain_row(app, RowKey::CopyOnSelect, settings::switch_of(c.copy_on_select)),
        settings::plain_row(
            app,
            RowKey::TrimTrailingSpaces,
            settings::switch_of(c.clipboard_trim_trailing_spaces),
        ),
    ]
}

pub open spec fn mouse_rows(app: Tty7App) -> Seq<Line> {
    let c = app.config;
    seq![
        settings::plain_row(
            app,
            RowKey::FocusFollowsMouse,
            settings::switch_of(c.focus_follows_mouse),
        ),
        settings::plain_row(
            app,
            RowKey::HideMouseWhileTyping,
            settings::switch_of(c.mouse_hide_while_typing),
        ),
        settings::plain_row(
            app,
            RowKey::ReportMouseToApps,
            settings::switch_of(c.mouse_reporting),
        ),
        settings::plain_row(
            app,
            RowKey::MouseZoom,
            settings::segments_of(preferences::zoom_cell(c.mouse_zoom_modifier, is_mac(app))),
        ),
    ]
}

/// The page of the keyboard and the mouse. Only the Mac has an Option key.
pub open spec fn input_page(app: Tty7App) -> Seq<GroupLines> {
    let first = seq![
        settings::group_of(
            None,
            None,
            seq![
                settings::plain_row(
                    app,
                    RowKey::Keybindings,
                    Control::Button(
                        settings::button_of(BtnKey::EditShortcuts, BtnKind::Secondary),
                    ),
                ),
            ],
        ),
        settings::group_of(Some(HeadKey::SelectionClipboard), None, clipboard_rows(app)),
    ];
    let option = if is_mac(app) {
        seq![
            settings::group_of(
                Some(HeadKey::Keyboard),
                None,
                seq![
                    settings::plain_row(
                        app,
                        RowKey::OptionAsMeta,
                        settings::switch_of(app.config.macos_option_as_alt),
                    ),
                ],
            ),
        ]
    } else {
        Seq::empty()
    };
    (first + option).push(settings::group_of(Some(HeadKey::Mouse), None, mouse_rows(app)))
}

/// The page of the window and its tabs.
pub open spec fn window_page(app: Tty7App) -> Seq<GroupLines> {
    let c = app.config;
    seq![
        settings::group_of(
            Some(HeadKey::Tabs),
            None,
            seq![
                settings::plain_row(
                    app,
                    RowKey::NewTabPosition,
                    settings::segments_of(preferences::new_tab_cell(c.new_tab_position)),
                ),
                settings::plain_row(
                    app,
                    RowKey::TabBarPosition,
                    settings::segments_of(preferences::tab_bar_cell(c.tab_bar_position)),
                ),
                settings::plain_row(
                    app,
                    RowKey::SidebarGrouping,
                    settings::segments_of(preferences::grouping_cell(c.sidebar_grouping)),
                ),
                settings::plain_row(
                    app,
                    RowKey::DiffPreviewFromCounts,
                    settings::switch_of(c.sidebar_diff_preview),
                ),
            ],
        ),
    ]
}

/// The group of the rows that secure connections.
pub open spec fn security_group(app: Tty7App) -> GroupLines {
    settings::group_of(
        Some(HeadKey::Security),
        Some(GroupDesc::Security),
        seq![
            settings::plain_row(
                app,
                RowKey::VerifyHostKeys,
                settings::switch_of(app.config.verify_host_keys),
            ),
            settings::plain_row(
                app,
                RowKey::WarnBeforeClosing,
                settings::switch_of(app.config.ssh_warn_on_close),
            ),
        ],
    )
}

/// The group of the command line.
pub open spec fn command_line_group(app: Tty7App) -> GroupLines {
    settings::group_of(
        Some(HeadKey::CommandLine),
        None,
        seq![
            settings::plain_row(
                app,
                RowKey::InstallCliOnPath,
                settings::switch_of(app.config.install_cli_on_path),
            ),
        ],
    )
}

pub open spec fn is_busy(phase: UpdatePhase) -> bool {
    phase == UpdatePhase::Checking || phase == UpdatePhase::Downloading || phase
        == UpdatePhase::Verifying || phase == UpdatePhase::Installing
}

/// The update that is ready: one that was downloaded and is still there.
pub open spec fn ready_update(u: UpdateStatus) -> Option<PendingUpdate> {
    match u.ready {
        Some(p) => if p.usable {
            Some(p)
        } else {
            None
        },
        None => None,
    }
}

pub open spec fn disabled_when(b: Btn, busy: bool) -> Btn {
    Btn { disabled: busy, ..b }
}

/// The row of the version: a download can be cancelled, and nothing can be
/// asked for while something is under way. While it is a check, the button says
/// so. That this is the latest version is not said beside an update that is
/// ready.
pub open spec fn version_row(app: Tty7App) -> Line {
    let u = app.facts.update;
    let phase = u.phase_has_text && (ready_update(u) is None || u.phase != UpdatePhase::UpToDate);
    Line::Row(
        settings::row_of(
            app,
            RowKey::Version,
            RowDesc::Version { phase },
            Control::Buttons {
                first: if u.phase == UpdatePhase::Downloading || u.phase == UpdatePhase::Verifying {
                    Some(settings::button_of(BtnKey::CancelDownload, BtnKind::Link))
                } else {
                    None
                },
                second: None,
                last: disabled_when(
                    settings::button_of(
                        if u.phase == UpdatePhase::Checking {
                            BtnKey::CheckingForUpdates
                        } else {
                            BtnKey::CheckForUpdates
                        },
                        BtnKind::Secondary,
                    ),
                    is_busy(u.phase),
                ),
            },
            false,
        ),
    )
}

pub open spec fn failed_row(app: Tty7App) -> Seq<Line> {
    let u = app.facts.update;
    if u.failed {
        seq![
            Line::Row(
                settings::row_of(
                    app,
                    RowKey::UpdateFailed,
                    RowDesc::FailureDetail,
                    Control::Buttons {
                        first: Some(settings::button_of(BtnKey::DismissFailure, BtnKind::Link)),
                        second: Some(settings::button_of(BtnKey::DownloadManually, BtnKind::Link)),
                        last: disabled_when(
                            settings::button_of(BtnKey::RetryUpdate, BtnKind::Secondary),
                            is_busy(u.phase),
                        ),
                    },
                    false,
                ),
            ),
        ]
    } else {
        Seq::empty()
    }
}

pub open spec fn ready_row(app: Tty7App) -> Seq<Line> {
    let u = app.facts.update;
    match ready_update(u) {
        Some(p) => seq![
            Line::Row(
                settings::row_of(
                    app,
                    RowKey::UpdateReady,
                    if p.apply_on_launch {
                        RowDesc::NextLaunch
                    } else {
                        RowDesc::Blank
                    },
                    Control::Buttons {
                        first: Some(
                            disabled_when(
                                settings::button_of(BtnKey::DiscardUpdate, BtnKind::Link),
                                is_busy(u.phase),
                            ),
                        ),
                        second: None,
                        last: disabled_when(
                            settings::button_of(BtnKey::InstallUpdate, BtnKind::Primary),
                            is_busy(u.phase),
                        ),
                    },
                    false,
                ),
            ),
        ],
        None => Seq::empty(),
    }
}

pub open spec fn available_row(app: Tty7App) -> Seq<Line> {
    let u = app.facts.update;
    match u.available {
        Some(a) => if ready_update(u) is None {
            seq![
                Line::Row(
                    settings::row_of(
                        app,
                        RowKey::UpdateAvailable,
                        if a.has_hint {
                            RowDesc::InstallHint
                        } else {
                            RowDesc::Blank
                        },
                        Control::Button(
                            disabled_when(
                                settings::button_of(
                                    if a.installable {
                                        BtnKey::UpdateAndRelaunch
                                    } else {
                                        BtnKey::ViewRelease
                                    },
                                    BtnKind::Primary,
                                ),
                                is_busy(u.phase),
                            ),
                        ),
                        false,
                    ),
                ),
            ]
        } else {
            Seq::empty()
        },
        None => Seq::empty(),
    }
}

pub open spec fn file_row(app: Tty7App) -> Seq<Line> {
    if app.facts.settings_file {
        seq![
            Line::Row(
                settings::row_of(
                    app,
                    RowKey::SettingsFile,
                    RowDesc::FilePath,
                    Control::Button(settings::button_of(BtnKey::RevealFile, BtnKind::Secondary)),
                    false,
                ),
            ),
        ]
    } else {
        Seq::empty()
    }
}

/// What is said of updates: how it stands, a failure that can be acted on, an
/// update that is ready, and one that could be had when none is ready.
pub open spec fn about_rows(app: Tty7App) -> Seq<Line> {
    seq![version_row(app)] + failed_row(app) + ready_row(app) + available_row(app) + file_row(app)
}

pub open spec fn maintenance_rows(app: Tty7App, s: SettingsState) -> Seq<Line> {
    let c = app.config;
    seq![
        settings::plain_row(
            app,
            RowKey::AutoDownload,
            settings::switch_of(c.auto_download_updates),
        ),
        settings::plain_row(
            app,
            RowKey::CheckUpdatesOnLaunch,
            settings::switch_of(c.check_for_updates),
        ),
        settings::plain_row(
            app,
            RowKey::UpdateChannel,
            settings::segments_of(preferences::channel_cell(c.update_channel)),
        ),
        settings::plain_row(
            app,
            RowKey::HttpProxy,
            Control::TextField {
                invalid: text::trimmed(s.fields.http_proxy@).len() > 0
                    && !s.fields.http_proxy_valid,
            },
        ),
        Line::Row(
            settings::row_of(
                app,
                RowKey::Server,
                if app.facts.stale_server {
                    RowDesc::StaleServer { in_place: app.facts.server_hands_over }
                } else {
                    RowDesc::Standing
                },
                Control::Button(settings::button_of(BtnKey::RestartServer, BtnKind::Secondary)),
                false,
            ),
        ),
    ]
}

/// The group of what keeps the terminal current. An empty proxy is no error.
pub open spec fn maintenance_group(app: Tty7App) -> GroupLines {
    match app.settings {
        Some(s) => settings::group_of(Some(HeadKey::Updates), None, maintenance_rows(app, s)),
        None => no_group(),
    }
}

/// The page about the terminal.
pub open spec fn about_page(app: Tty7App) -> Seq<GroupLines> {
    seq![
        settings::group_of(None, None, about_rows(app)),
        maintenance_group(app),
        settings::group_of(None, None, seq![Line::AboutText]),
    ]
}

pub open spec fn font_rows(app: Tty7App) -> Seq<Line> {
    let rows = seq![
        settings::plain_row(app, RowKey::FontFamily, Control::Fonts(FontSlot::Regular)),
        settings::plain_row(app, RowKey::FontSize, Control::Stepper(Quantity::FontSize)),
        settings::plain_row(app, RowKey::LineHeight, Control::Stepper(Quantity::LineHeight)),
        settings::plain_row(app, RowKey::BoldFont, Control::Fonts(FontSlot::Bold)),
        settings::plain_row(app, RowKey::ItalicFont, Control::Fonts(FontSlot::Italic)),
        settings::plain_row(
            app,
            RowKey::FontLigatures,
            settings::switch_of(preferences::has_ligatures(app.config.font_features)),
        ),
    ];
    if is_mac(app) {
        rows.push(
            settings::plain_row(
                app,
                RowKey::FontThicken,
                settings::switch_of(app.config.font_thicken),
            ),
        )
    } else {
        rows
    }
}

pub open spec fn ui_font_rows(app: Tty7App) -> Seq<Line> {
    seq![
        settings::plain_row(app, RowKey::UiFontFamily, Control::Fonts(FontSlot::Interface)),
        settings::plain_row(app, RowKey::UiFontSize, Control::Stepper(Quantity::UiFontSize)),
    ]
}

pub open spec fn cursor_rows(app: Tty7App) -> Seq<Line> {
    seq![
        settings::plain_row(
            app,
            RowKey::CursorShape,
            settings::segments_of(preferences::cursor_cell(app.config.cursor_style)),
        ),
        settings::plain_row(
            app,
            RowKey::CursorBlink,
            settings::switch_of(app.config.cursor_blink),
        ),
    ]
}

/// Whether the window is blurred: as it was set, else as the theme says.
pub open spec fn blur_on(app: Tty7App) -> bool {
    match app.config.window_blur {
        Some(on) => on,
        None => app.facts.theme_blur,
    }
}

/// The rows of the window. Windows has backdrops, of which the automatic one
/// alone still goes by the blur; elsewhere there is the blur itself.
pub open spec fn window_rows(app: Tty7App) -> Seq<Line> {
    let first = seq![
        settings::plain_row(app, RowKey::Opacity, Control::Slider(Quantity::WindowOpacity)),
        if is_windows(app) {
            settings::plain_row(app, RowKey::Backdrop, Control::Backdrops)
        } else {
            settings::plain_row(app, RowKey::Blur, settings::switch_of(blur_on(app)))
        },
    ];
    let auto = if is_windows(app) && app.config.window_backdrop == WindowBackdrop::Auto {
        seq![
            Line::Row(
                settings::row_of(
                    app,
                    RowKey::Blur,
                    RowDesc::BlurOfAuto,
                    settings::switch_of(blur_on(app)),
                    false,
                ),
            ),
        ]
    } else {
        Seq::empty()
    };
    let follow = if app.facts.window_overridden {
        seq![Line::FollowTheme]
    } else {
        Seq::empty()
    };
    (first + auto + follow).push(
        settings::plain_row(
            app,
            RowKey::DimInactivePanes,
            settings::switch_of(app.config.dim_inactive_panes),
        ),
    )
}

pub open spec fn window_section(app: Tty7App) -> GroupLines {
    settings::group_of(Some(HeadKey::Transparency), None, window_rows(app))
}

/// The part of the appearance page behind the themes.
pub open spec fn text_groups(app: Tty7App) -> Seq<GroupLines> {
    seq![
        settings::group_of(Some(HeadKey::TerminalFont), None, font_rows(app)),
        settings::group_of(Some(HeadKey::InterfaceFont), None, ui_font_rows(app)),
        settings::group_of(Some(HeadKey::Cursor), None, cursor_rows(app)),
        window_section(app),
    ]
}

/// The values a font menu offers: what an empty choice means, when it means
/// something, then every family.
pub open spec fn font_values(names: Seq<Seq<char>>, default_label: Option<Seq<char>>) -> Seq<
    Seq<char>,
> {
    match default_label {
        Some(l) => seq![l] + names,
        None => names,
    }
}

/// The place of the first `x`.
pub open spec fn place_of(v: Seq<Seq<char>>, x: Seq<char>) -> Option<usize>
    decreases v.len(),
{
    if v.len() == 0 {
        None
    } else {
        match place_of(v.drop_last(), x) {
            Some(i) => Some(i),
            None => if v.last() == x {
                Some((v.len() - 1) as usize)
            } else {
                None
            },
        }
    }
}

/// The option a font menu marks.
pub open spec fn font_selected(
    names: Seq<Seq<char>>,
    current: Option<Seq<char>>,
    default_label: Option<Seq<char>>,
) -> Option<usize> {
    match current {
        Some(name) => place_of(font_values(names, default_label), name),
        None => if default_label is Some {
            Some(0)
        } else {
            None
        },
    }
}

/// A font menu.
#[derive(Debug)]
pub struct FontMenu {
    pub label: String,
    pub values: Vec<String>,
    pub menu: SearchMenu,
}

/// The families there are to choose from.
pub open spec fn font_names(app: Tty7App) -> Seq<Seq<char>> {
    match app.settings {
        Some(s) => text::views(s.font_names@),
        None => Seq::empty(),
    }
}

pub open spec fn language_items(languages: Seq<Language>, current: Seq<char>) -> Seq<EntryView> {
    Seq::new(
        languages.len(),
        |i: int|
            settings::plain_item(
                LabelView::Text(languages[i].label@),
                languages[i].code@ == current,
                Pick::Language(i as usize),
            ),
    )
}

/// What the language in use is called, if it is one of those there are.
pub open spec fn language_label(languages: Seq<Language>, current: Seq<char>) -> Seq<char>
    decreases languages.len(),
{
    if languages.len() == 0 {
        Seq::empty()
    } else if exists|i: int|
        0 <= i < languages.len() - 1 && (#[trigger] languages[i]).code@ == current {
        language_label(languages.drop_last(), current)
    } else if languages.last().code@ == current {
        languages.last().label@
    } else {
        Seq::empty()
    }
}

pub open spec fn backdrop_items(
    backdrops: Seq<(WindowBackdrop, String)>,
    current: WindowBackdrop,
) -> Seq<EntryView> {
    Seq::new(
        backdrops.len(),
        |i: int|
            settings::plain_item(
                LabelView::Text(backdrops[i].1@),
                backdrops[i].0 == current,
                Pick::Backdrop(i as usize),
            ),
    )
}

fn position(v: &Vec<String>, x: &str) -> (r: Option<usize>)
    ensures
        r == place_of(text::views(v@), x@),
{
    let ghost all = text::views(v@);
    let mut found: Option<usize> = None;
    let mut i: usize = 0;
    assert(all.take(0) =~= Seq::<Seq<char>>::empty());
    while i < v.len()
        invariant
            i <= v@.len(),
            all == text::views(v@),
            found == place_of(all.take(i as int), x@),
        decreases v@.len() - i,
    {
        assert(all.take(i + 1).drop_last() =~= all.take(i as int));
        if found.is_none() && text::same(v[i].as_str(), x) {
            found = Some(i);
        }
        i = i + 1;
    }
    assert(all.take(all.len() as int) =~= all);
    found
}

impl Tty7App {
    fn is_mac(&self) -> (r: bool)
        ensures
            r == is_mac(*self),
    {
        self.platform == Platform::MacOs
    }

    fn is_windows(&self) -> (r: bool)
        ensures
            r == is_windows(*self),
    {
        self.platform == Platform::Windows
    }

    fn plain_line(&self, key: RowKey, control: Control) -> (r: Line)
        ensures
            r == settings::plain_row(*self, key, control),
    {
        Line::Row(self.settings_row(key, RowDesc::Standing, control))
    }

    fn cells(selected: usize) -> (r: Control)
        ensures
            r == settings::segments_of(selected),
    {
        Control::Segments { selected: Some(selected), custom: None }
    }

    fn buckets(buckets: &Vec<u64>, value: u64) -> (r: Control)
        ensures
            r == bucket_control(buckets@, value),
    {
        let (selected, custom) = preferences::preset_choice(buckets, value);
        Control::Segments { selected, custom }
    }

    /// The menu of languages.
    pub fn language_menu(&self) -> (r: Dropdown)
        ensures
            ({
                let items = language_items(self.facts.languages@, self.facts.language@);
                &&& r.open == settings::menu_is(self.settings, "settings-language"@)
                &&& r.start == settings::checked_at(items)
                &&& match r.panel {
                    Some(rows) => r.open && settings::are_menu_rows(
                        rows@,
                        "settings-language"@,
                        items,
                    ),
                    None => !r.open,
                }
            }),
    {
        let mut entries: Vec<MenuEntry> = Vec::new();
        let ghost want = language_items(self.facts.languages@, self.facts.language@);
        let mut i: usize = 0;
        while i < self.facts.languages.len()
            invariant
                i <= self.facts.languages@.len(),
                want == language_items(self.facts.languages@, self.facts.language@),
                entries@.len() == i,
                forall|k: int| 0 <= k < i ==> (#[trigger] entries@[k])@ == want[k],
            decreases self.facts.languages@.len() - i,
        {
            let l = &self.facts.languages[i];
            entries.push(
                MenuEntry::item(
                    Label::Text(l.label.clone()),
                    text::same(l.code.as_str(), self.facts.language.as_str()),
                    Pick::Language(i),
                ),
            );
            i = i + 1;
        }
        assert(settings::entry_views(entries@) =~= want);
        self.settings_dropdown("settings-language", entries)
    }

    /// What the language in use is called.
    pub fn language_name(&self) -> (r: String)
        ensures
            r@ == language_label(self.facts.languages@, self.facts.language@),
    {
        let ghost all = self.facts.languages@;
        let mut found: Option<usize> = None;
        let mut i: usize = 0;
        while i < self.facts.languages.len()
            invariant
                i <= all.len(),
                all == self.facts.languages@,
                match found {
                    Some(k) => k < i && all[k as int].code@ == self.facts.language@
                        && language_label(all.take(i as int), self.facts.language@)
                        == all[k as int].label@,
                    None => language_label(all.take(i as int), self.facts.language@)
                        == Seq::<char>::empty() && forall|k: int|
                        0 <= k < i ==> (#[trigger] all[k]).code@ != self.facts.language@,
                },
            decreases all.len() - i,
        {
            proof {
                let t = all.take(i + 1);
                assert(t.drop_last() =~= all.take(i as int));
                assert(t.last() == all[i as int]);
                if found is Some {
                    assert(t[found->0 as int].code@ == self.facts.language@);
                }
            }
            if found.is_none() && text::same(
                self.facts.languages[i].code.as_str(),
                self.facts.language.as_str(),
            ) {
                found = Some(i);
            }
            i = i + 1;
        }
        assert(all.take(all.len() as int) =~= all);
        match found {
            Some(k) => self.facts.languages[k].label.clone(),
            None => {
                let s = String::new();
                assert(s@ =~= Seq::<char>::empty());
                s
            },
        }
    }

    /// The menu of backdrops.
    pub fn backdrop_menu(&self) -> (r: Dropdown)
        ensures
            ({
                let items = backdrop_items(self.facts.backdrops@, self.config.window_backdrop);
                &&& r.open == settings::menu_is(self.settings, "window-backdrop"@)
                &&& r.start == settings::checked_at(items)
                &&& match r.panel {
                    Some(rows) => r.open && settings::are_menu_rows(
                        rows@,
                        "window-backdrop"@,
                        items,
                    ),
                    None => !r.open,
                }
            }),
    {
        let mut entries: Vec<MenuEntry> = Vec::new();
        let ghost want = backdrop_items(self.facts.backdrops@, self.config.window_backdrop);
        let mut i: usize = 0;
        while i < self.facts.backdrops.len()
            invariant
                i <= self.facts.backdrops@.len(),
                want == backdrop_items(self.facts.backdrops@, self.config.window_backdrop),
                entries@.len() == i,
                forall|k: int| 0 <= k < i ==> (#[trigger] entries@[k])@ == want[k],
            decreases self.facts.backdrops@.len() - i,
        {
            let label = self.facts.backdrops[i].1.clone();
            let checked: bool = self.facts.backdrops[i].0 == self.config.window_backdrop;
            entries.push(MenuEntry::item(Label::Text(label), checked, Pick::Backdrop(i)));
            i = i + 1;
        }
        assert(settings::entry_views(entries@) =~= want);
        self.settings_dropdown("window-backdrop", entries)
    }

    /// The general page.
    pub fn render_settings_general(&self) -> (r: Page)
        ensures
            r@ == general_page(*self),
    {
        let mut first: Vec<Line> = Vec::new();
        first.push(self.plain_line(RowKey::Language, Control::Languages));
        if self.is_mac() {
            let set_default = self.settings_button(BtnKey::SetDefaultTerminal);
            first.push(self.plain_line(RowKey::DefaultTerminal, Control::Button(set_default)));
        }
        let c = &self.config;
        let mut startup: Vec<Line> = Vec::new();
        startup.push(
            self.plain_line(
                RowKey::StartupWindow,
                Self::cells(preferences::startup_index(c.startup_mode)),
            ),
        );
        startup.push(
            self.plain_line(
                RowKey::RememberWindowSize,
                self.settings_switch(c.remember_window_size),
            ),
        );
        startup.push(
            self.plain_line(RowKey::RestoreLastLayout, self.settings_switch(c.restore_session)),
        );
        startup.push(
            self.plain_line(RowKey::ShowTrayIcon, self.settings_switch(c.show_tray_icon)),
        );
        let mut notify: Vec<Line> = Vec::new();
        notify.push(
            self.plain_line(
                RowKey::NotifyOnCommandFinish,
                Self::cells(preferences::notify_index(c.notify_on_command_finish)),
            ),
        );
        notify.push(
            self.plain_line(
                RowKey::NotifyThreshold,
                Self::buckets(&self.facts.notify_buckets, c.notify_threshold_secs),
            ),
        );
        assert(first@ =~= general_first(*self));
        assert(startup@ =~= startup_rows(*self));
        assert(notify@ =~= notify_rows(*self));
        let mut groups: Vec<Group> = Vec::new();
        groups.push(self.settings_group(None, None, first));
        groups.push(self.settings_group(Some(HeadKey::StartupRestore), None, startup));
        groups.push(self.settings_group(Some(HeadKey::Notifications), None, notify));
        let page = Self::settings_page(groups);
        assert(page@ =~= general_page(*self));
        page
    }

    /// The group of the prompt.
    pub fn render_prompt_group(&self) -> (r: Group)
        ensures
            r@ == prompt_group(*self),
    {
        let c = &self.config;
        let off: bool = !c.prompt_editor;
        let desc = if off {
            RowDesc::NeedsPromptEditor
        } else {
            RowDesc::Standing
        };
        let mut rows: Vec<Line> = Vec::new();
        rows.push(
            self.plain_line(RowKey::PromptEditor, self.settings_switch(c.prompt_editor)),
        );
        rows.push(
            Line::Row(
                self.settings_row_gated_when(
                    RowKey::TabCompletion,
                    desc,
                    Control::Switch { on: c.tab_completion, disabled: off },
                    off,
                ),
            ),
        );
        rows.push(
            Line::Row(
                self.settings_row_gated_when(
                    RowKey::HistorySearch,
                    desc,
                    Control::Switch { on: c.history_search, disabled: off },
                    off,
                ),
            ),
        );
        rows.push(
            self.plain_line(RowKey::PerPaneHistory, self.settings_switch(c.per_pane_history)),
        );
        assert(rows@ =~= prompt_rows(*self));
        self.settings_group(Some(HeadKey::Prompt), Some(GroupDesc::Prompt), rows)
    }

    /// The group of the shell.
    pub fn render_shell_group(&self) -> (r: Group)
        ensures
            r@ == shell_group(*self),
    {
        match &self.settings {
            None => {
                let group = self.settings_group(None, None, Vec::new());
                assert(group@.body =~= Seq::<Line>::empty());
                group
            },
            Some(s) => {
                let c = &self.config;
                let mut rows: Vec<Line> = Vec::new();
                rows.push(self.plain_line(RowKey::Program, Control::ShellProgram));
                rows.push(
                    self.plain_line(
                        RowKey::Arguments,
                        Control::TextField { invalid: !s.fields.shell_args_valid },
                    ),
                );
                rows.push(
                    self.plain_line(
                        RowKey::StartIn,
                        Self::cells(preferences::wd_index(c.wd_strategy)),
                    ),
                );
                if c.wd_strategy == WdStrategy::Custom {
                    rows.push(
                        self.plain_line(
                            RowKey::CustomPath,
                            Control::TextField { invalid: !s.fields.wd_path_saveable },
                        ),
                    );
                }
                rows.push(Line::ShellFooter);
                assert(rows@ =~= shell_rows(*self, *s));
                let desc = GroupDesc::ShellDefault { powershell: self.is_windows() };
                self.settings_group(Some(HeadKey::Shell), Some(desc), rows)
            },
        }
    }

    /// The menu of shells beside the field for the shell.
    pub fn shell_picker(&self) -> (r: Option<ShellPicker>)
        ensures
            match self.settings {
                None => r is None,
                Some(s) => if offered(self.facts.shells@).len() == 0 {
                    r is None
                } else {
                    r matches Some(p) && match p.rows {
                        Some(rows) => settings::menu_is(
                            self.settings,
                            "shell-program-detected"@,
                        ) && settings::are_menu_rows(
                            rows@,
                            "shell-program-detected"@,
                            shell_menu(
                                self.facts.shells@,
                                s.fields.shell_program@,
                                is_windows(*self),
                            ),
                        ),
                        None => !settings::menu_is(self.settings, "shell-program-detected"@),
                    }
                },
            },
    {
        let s = match &self.settings {
            None => {
                return None;
            },
            Some(s) => s,
        };
        let typed = text::trim(s.fields.shell_program.as_str());
        let program = text::string_of(typed.as_slice());
        let windows: bool = self.is_windows();
        let mut entries: Vec<MenuEntry> = Vec::new();
        let word = if windows {
            Word::PowerShell
        } else {
            Word::LoginShell
        };
        entries.push(
            MenuEntry::item(Label::Word(word), typed.len() == 0, Pick::DefaultShell),
        );
        entries.push(MenuEntry::Separator);
        let ghost shells = self.facts.shells@;
        let ghost base = settings::entry_views(entries@);
        let mut i: usize = 0;
        let mut count: usize = 0;
        assert(shells.take(0) =~= Seq::<InventoryShell>::empty());
        assert(settings::entry_views(entries@) =~= base + shell_items(
            shells,
            offered(shells.take(0)),
            program@,
        ));
        while i < self.facts.shells.len()
            invariant
                i <= shells.len(),
                shells == self.facts.shells@,
                count <= i,
                count == offered(shells.take(i as int)).len(),
                settings::entry_views(entries@) == base + shell_items(
                    shells,
                    offered(shells.take(i as int)),
                    program@,
                ),
            decreases shells.len() - i,
        {
            assert(shells.take(i + 1).drop_last() =~= shells.take(i as int));
            let shell = &self.facts.shells[i];
            if !shell.user_authored {
                let ghost before = settings::entry_views(entries@);
                let entry = MenuEntry::item(
                    Label::Text(shell.label.clone()),
                    text::same(program.as_str(), shell.program.as_str()),
                    Pick::Shell(i),
                );
                entries.push(entry);
                count = count + 1;
                assert(settings::entry_views(entries@) =~= before.push(entry@));
                assert(settings::entry_views(entries@) =~= base + shell_items(
                    shells,
                    offered(shells.take(i + 1)),
                    program@,
                ));
            }
            i = i + 1;
        }
        assert(shells.take(shells.len() as int) =~= shells);
        if count == 0 {
            return None;
        }
        assert(settings::entry_views(entries@) =~= shell_menu(
            shells,
            s.fields.shell_program@,
            windows,
        ));
        let rows = if self.settings_menu_open("shell-program-detected") {
            Some(self.settings_menu_panel("shell-program-detected", entries))
        } else {
            None
        };
        Some(ShellPicker { rows })
    }

    /// The terminal page.
    pub fn render_settings_terminal(&self) -> (r: Page)
        ensures
            r@ == terminal_page(*self),
    {
        let mut groups: Vec<Group> = Vec::new();
        if self.settings.is_none() {
            let page = Self::settings_page(groups);
            assert(page@ =~= terminal_page(*self));
            return page;
        }
        let c = &self.config;
        let mut scroll: Vec<Line> = Vec::new();
        scroll.push(
            self.plain_line(
                RowKey::Scrollback,
                Self::buckets(&self.facts.scrollback_buckets, c.scrollback_limit),
            ),
        );
        scroll.push(self.plain_line(RowKey::ScrollSpeed, Control::Slider(Quantity::ScrollSpeed)));
        scroll.push(
            self.plain_line(RowKey::SmoothScroll, self.settings_switch(c.smooth_scroll)),
        );
        assert(scroll@ =~= scroll_rows(*self));
        let mut bell: Vec<Line> = Vec::new();
        bell.push(
            self.plain_line(RowKey::TerminalBell, Self::cells(preferences::bell_index(c.bell))),
        );
        let ghost bell_rows = bell@;
        let mut links: Vec<Line> = Vec::new();
        links.push(self.plain_line(RowKey::DetectUrls, self.settings_switch(c.link_url)));
        links.push(
            self.plain_line(
                RowKey::ForwardSshLoopbackLinks,
                self.settings_switch(c.ssh_loopback_forward),
            ),
        );
        links.push(
            self.plain_line(
                RowKey::OpenFilesWith,
                Self::cells(preferences::link_index(c.link_file_open)),
            ),
        );
        if c.link_file_open == LinkFileOpen::Command {
            links.push(
                self.plain_line(
                    RowKey::OpenFilesCommand,
                    Control::TextField { invalid: false },
                ),
            );
        }
        assert(links@ =~= link_rows(*self));
        groups.push(self.render_shell_group());
        groups.push(self.render_prompt_group());
        groups.push(self.settings_group(Some(HeadKey::Scrolling), None, scroll));
        groups.push(self.settings_group(Some(HeadKey::Bell), None, bell));
        groups.push(self.settings_group(Some(HeadKey::Links), None, links));
        let page = Self::settings_page(groups);
        assert(bell_rows =~= terminal_page(*self)[3].body);
        assert(page@ =~= terminal_page(*self));
        page
    }

    /// The page of the keyboard and the mouse.
    pub fn render_settings_input(&self) -> (r: Page)
        ensures
            r@ == input_page(*self),
    {
        let c = &self.config;
        let mut groups: Vec<Group> = Vec::new();
        let mut keys: Vec<Line> = Vec::new();
        let shortcuts = self.settings_button(BtnKey::EditShortcuts);
        keys.push(self.plain_line(RowKey::Keybindings, Control::Button(shortcuts)));
        let ghost key_rows = keys@;
        let mut clip: Vec<Line> = Vec::new();
        clip.push(self.plain_line(RowKey::SmartSelection, self.settings_switch(c.smart_select)));
        clip.push(self.plain_line(RowKey::CopyOnSelect, self.settings_switch(c.copy_on_select)));
        clip.push(
            self.plain_line(
                RowKey::TrimTrailingSpaces,
                self.settings_switch(c.clipboard_trim_trailing_spaces),
            ),
        );
        assert(clip@ =~= clipboard_rows(*self));
        groups.push(self.settings_group(None, None, keys));
        groups.push(self.settings_group(Some(HeadKey::SelectionClipboard), None, clip));
        assert(groups@[0]@.body =~= input_page(*self)[0].body);
        if self.is_mac() {
            let mut option: Vec<Line> = Vec::new();
            option.push(
                self.plain_line(RowKey::OptionAsMeta, self.settings_switch(c.macos_option_as_alt)),
            );
            groups.push(self.settings_group(Some(HeadKey::Keyboard), None, option));
            assert(groups@[2]@.body =~= input_page(*self)[2].body);
        }
        let mut mouse: Vec<Line> = Vec::new();
        mouse.push(
            self.plain_line(
                RowKey::FocusFollowsMouse,
                self.settings_switch(c.focus_follows_mouse),
            ),
        );
        mouse.push(
            self.plain_line(
                RowKey::HideMouseWhileTyping,
                self.settings_switch(c.mouse_hide_while_typing),
            ),
        );
        mouse.push(
            self.plain_line(RowKey::ReportMouseToApps, self.settings_switch(c.mouse_reporting)),
        );
        mouse.push(
            self.plain_line(
                RowKey::MouseZoom,
                Self::cells(preferences::zoom_index(c.mouse_zoom_modifier, self.is_mac())),
            ),
        );
        assert(mouse@ =~= mouse_rows(*self));
        groups.push(self.settings_group(Some(HeadKey::Mouse), None, mouse));
        let page = Self::settings_page(groups);
        assert(page@ =~= input_page(*self));
        page
    }

    /// The page of the window and its tabs.
    pub fn render_window_preferences(&self) -> (r: Page)
        ensures
            r@ == window_page(*self),
    {
        let c = &self.config;
        let mut rows: Vec<Line> = Vec::new();
        rows.push(
            self.plain_line(
                RowKey::NewTabPosition,
                Self::cells(preferences::new_tab_index(c.new_tab_position)),
            ),
        );
        rows.push(
            self.plain_line(
                RowKey::TabBarPosition,
                Self::cells(preferences::tab_bar_index(c.tab_bar_position)),
            ),
        );
        rows.push(
            self.plain_line(
                RowKey::SidebarGrouping,
                Self::cells(preferences::grouping_index(c.sidebar_grouping)),
            ),
        );
        rows.push(
            self.plain_line(
                RowKey::DiffPreviewFromCounts,
                self.settings_switch(c.sidebar_diff_preview),
            ),
        );
        assert(rows@ =~= window_page(*self)[0].body);
        let mut groups: Vec<Group> = Vec::new();
        groups.push(self.settings_group(Some(HeadKey::Tabs), None, rows));
        let page = Self::settings_page(groups);
        assert(page@ =~= window_page(*self));
        page
    }

    /// The rows that secure connections.
    pub fn render_ssh_connection_rows(&self) -> (r: Group)
        ensures
            r@ == security_group(*self),
    {
        let mut rows: Vec<Line> = Vec::new();
        rows.push(
            self.plain_line(
                RowKey::VerifyHostKeys,
                self.settings_switch(self.config.verify_host_keys),
            ),
        );
        rows.push(
            self.plain_line(
                RowKey::WarnBeforeClosing,
                self.settings_switch(self.config.ssh_warn_on_close),
            ),
        );
        assert(rows@ =~= security_group(*self).body);
        self.settings_group(Some(HeadKey::Security), Some(GroupDesc::Security), rows)
    }

    /// The rows of the command line.
    pub fn render_command_line_rows(&self) -> (r: Group)
        ensures
            r@ == command_line_group(*self),
    {
        let mut rows: Vec<Line> = Vec::new();
        rows.push(
            self.plain_line(
                RowKey::InstallCliOnPath,
                self.settings_switch(self.config.install_cli_on_path),
            ),
        );
        assert(rows@ =~= command_line_group(*self).body);
        self.settings_group(Some(HeadKey::CommandLine), None, rows)
    }

    fn push_update_rows(&self, rows: &mut Vec<Line>)
        ensures
            final(rows)@ == old(rows)@ + (seq![version_row(*self)] + failed_row(*self) + ready_row(
                *self,
            ) + available_row(*self)),
    {
        let u = &self.facts.update;
        let busy: bool = match u.phase {
            UpdatePhase::Checking => true,
            UpdatePhase::Downloading => true,
            UpdatePhase::Verifying => true,
            UpdatePhase::Installing => true,
            _ => false,
        };
        let ready: Option<PendingUpdate> = match u.ready {
            Some(p) => if p.usable {
                Some(p)
            } else {
                None
            },
            None => None,
        };
        let phase: bool = u.phase_has_text && (ready.is_none() || u.phase != UpdatePhase::UpToDate);
        let check = if u.phase == UpdatePhase::Checking {
            BtnKey::CheckingForUpdates
        } else {
            BtnKey::CheckForUpdates
        };
        let cancel = if u.phase == UpdatePhase::Downloading || u.phase == UpdatePhase::Verifying {
            Some(Btn::new(BtnKey::CancelDownload, BtnKind::Link))
        } else {
            None
        };
        rows.push(
            Line::Row(
                self.settings_row(
                    RowKey::Version,
                    RowDesc::Version { phase },
                    Control::Buttons {
                        first: cancel,
                        second: None,
                        last: Btn::new(check, BtnKind::Secondary).disabled(busy),
                    },
                ),
            ),
        );
        if u.failed {
            rows.push(
                Line::Row(
                    self.settings_row(
                        RowKey::UpdateFailed,
                        RowDesc::FailureDetail,
                        Control::Buttons {
                            first: Some(Btn::new(BtnKey::DismissFailure, BtnKind::Link)),
                            second: Some(Btn::new(BtnKey::DownloadManually, BtnKind::Link)),
                            last: Btn::new(BtnKey::RetryUpdate, BtnKind::Secondary).disabled(busy),
                        },
                    ),
                ),
            );
        }
        match ready {
            Some(p) => {
                let desc = if p.apply_on_launch {
                    RowDesc::NextLaunch
                } else {
                    RowDesc::Blank
                };
                rows.push(
                    Line::Row(
                        self.settings_row(
                            RowKey::UpdateReady,
                            desc,
                            Control::Buttons {
                                first: Some(
                                    Btn::new(BtnKey::DiscardUpdate, BtnKind::Link).disabled(busy),
                                ),
                                second: None,
                                last: Btn::new(BtnKey::InstallUpdate, BtnKind::Primary).disabled(
                                    busy,
                                ),
                            },
                        ),
                    ),
                );
            },
            None => {
                match u.available {
                    Some(a) => {
                        let key = if a.installable {
                            BtnKey::UpdateAndRelaunch
                        } else {
                            BtnKey::ViewRelease
                        };
                        let desc = if a.has_hint {
                            RowDesc::InstallHint
                        } else {
                            RowDesc::Blank
                        };
                        rows.push(
                            Line::Row(
                                self.settings_row(
                                    RowKey::UpdateAvailable,
                                    desc,
                                    Control::Button(
                                        Btn::new(key, BtnKind::Primary).disabled(busy),
                                    ),
                                ),
                            ),
                        );
                    },
                    None => {},
                }
            },
        }
        assert(rows@ =~= old(rows)@ + (seq![version_row(*self)] + failed_row(*self) + ready_row(
            *self,
        ) + available_row(*self)));
    }

    /// The page about the terminal.
    pub fn render_settings_about(&self) -> (r: Page)
        ensures
            r@ == about_page(*self),
    {
        let mut rows: Vec<Line> = Vec::new();
        self.push_update_rows(&mut rows);
        if self.facts.settings_file {
            let reveal = self.settings_button(BtnKey::RevealFile);
            rows.push(
                Line::Row(
                    self.settings_row(
                        RowKey::SettingsFile,
                        RowDesc::FilePath,
                        Control::Button(reveal),
                    ),
                ),
            );
        }
        assert(rows@ =~= about_rows(*self));
        let mut groups: Vec<Group> = Vec::new();
        groups.push(self.settings_group(None, None, rows));
        groups.push(self.render_settings_maintenance());
        let mut last: Vec<Line> = Vec::new();
        last.push(Line::AboutText);
        assert(last@ =~= seq![Line::AboutText]);
        groups.push(self.settings_group(None, None, last));
        let page = Self::settings_page(groups);
        assert(page@ =~= about_page(*self));
        page
    }

    /// What keeps the terminal current.
    pub fn render_settings_maintenance(&self) -> (r: Group)
        ensures
            r@ == maintenance_group(*self),
    {
        match &self.settings {
            None => {
                let group = self.settings_group(None, None, Vec::new());
                assert(group@.body =~= Seq::<Line>::empty());
                group
            },
            Some(s) => {
                let c = &self.config;
                let mut rows: Vec<Line> = Vec::new();
                rows.push(
                    self.plain_line(
                        RowKey::AutoDownload,
                        self.settings_switch(c.auto_download_updates),
                    ),
                );
                rows.push(
                    self.plain_line(
                        RowKey::CheckUpdatesOnLaunch,
                        self.settings_switch(c.check_for_updates),
                    ),
                );
                rows.push(
                    self.plain_line(
                        RowKey::UpdateChannel,
                        Self::cells(preferences::channel_index(c.update_channel)),
                    ),
                );
                let proxy = text::trim(s.fields.http_proxy.as_str());
                rows.push(
                    self.plain_line(
                        RowKey::HttpProxy,
                        Control::TextField {
                            invalid: proxy.len() > 0 && !s.fields.http_proxy_valid,
                        },
                    ),
                );
                let desc = if self.facts.stale_server {
                    RowDesc::StaleServer { in_place: self.facts.server_hands_over }
                } else {
                    RowDesc::Standing
                };
                let restart = self.settings_button(BtnKey::RestartServer);
                rows.push(
                    Line::Row(self.settings_row(RowKey::Server, desc, Control::Button(restart))),
                );
                assert(rows@ =~= maintenance_rows(*self, *s));
                self.settings_group(Some(HeadKey::Updates), None, rows)
            },
        }
    }

    /// The rows of the window.
    pub fn render_window_section(&self) -> (r: Group)
        ensures
            r@ == window_section(*self),
    {
        let mut rows: Vec<Line> = Vec::new();
        rows.push(self.plain_line(RowKey::Opacity, Control::Slider(Quantity::WindowOpacity)));
        let blur: bool = match self.config.window_blur {
            Some(on) => on,
            None => self.facts.theme_blur,
        };
        if self.is_windows() {
            rows.push(self.plain_line(RowKey::Backdrop, Control::Backdrops));
            if self.config.window_backdrop == WindowBackdrop::Auto {
                rows.push(
                    Line::Row(
                        self.settings_row(
                            RowKey::Blur,
                            RowDesc::BlurOfAuto,
                            self.settings_switch(blur),
                        ),
                    ),
                );
            }
        } else {
            rows.push(self.plain_line(RowKey::Blur, self.settings_switch(blur)));
        }
        if self.facts.window_overridden {
            rows.push(Line::FollowTheme);
        }
        rows.push(
            self.plain_line(
                RowKey::DimInactivePanes,
                self.settings_switch(self.config.dim_inactive_panes),
            ),
        );
        assert(rows@ =~= window_rows(*self));
        self.settings_group(Some(HeadKey::Transparency), None, rows)
    }

    /// The groups of the appearance page behind the themes, put behind
    /// `groups`.
    pub fn push_text_groups(&self, groups: &mut Vec<Group>)
        ensures
            final(groups)@.len() == old(groups)@.len() + 4,
            forall|i: int|
                0 <= i < old(groups)@.len() ==> #[trigger] final(groups)@[i] == old(groups)@[i],
            forall|i: int|
                0 <= i < 4 ==> (#[trigger] final(groups)@[old(groups)@.len() + i])@ == text_groups(
                    *self,
                )[i],
    {
        let c = &self.config;
        let mut fonts: Vec<Line> = Vec::new();
        fonts.push(self.plain_line(RowKey::FontFamily, Control::Fonts(FontSlot::Regular)));
        fonts.push(self.plain_line(RowKey::FontSize, Control::Stepper(Quantity::FontSize)));
        fonts.push(self.plain_line(RowKey::LineHeight, Control::Stepper(Quantity::LineHeight)));
        fonts.push(self.plain_line(RowKey::BoldFont, Control::Fonts(FontSlot::Bold)));
        fonts.push(self.plain_line(RowKey::ItalicFont, Control::Fonts(FontSlot::Italic)));
        fonts.push(
            self.plain_line(
                RowKey::FontLigatures,
                self.settings_switch(preferences::ligatures_on(&c.font_features)),
            ),
        );
        if self.is_mac() {
            fonts.push(
                self.plain_line(RowKey::FontThicken, self.settings_switch(c.font_thicken)),
            );
        }
        assert(fonts@ =~= font_rows(*self));
        let mut ui: Vec<Line> = Vec::new();
        ui.push(self.plain_line(RowKey::UiFontFamily, Control::Fonts(FontSlot::Interface)));
        ui.push(self.plain_line(RowKey::UiFontSize, Control::Stepper(Quantity::UiFontSize)));
        assert(ui@ =~= ui_font_rows(*self));
        let mut cursor: Vec<Line> = Vec::new();
        cursor.push(
            self.plain_line(
                RowKey::CursorShape,
                Self::cells(preferences::cursor_index(c.cursor_style)),
            ),
        );
        cursor.push(self.plain_line(RowKey::CursorBlink, self.settings_switch(c.cursor_blink)));
        assert(cursor@ =~= cursor_rows(*self));
        groups.push(self.settings_group(Some(HeadKey::TerminalFont), None, fonts));
        groups.push(self.settings_group(Some(HeadKey::InterfaceFont), None, ui));
        groups.push(self.settings_group(Some(HeadKey::Cursor), None, cursor));
        groups.push(self.render_window_section());
        let ghost n = old(groups)@.len() as int;
        assert(groups@[n]@ == text_groups(*self)[0]);
        assert(groups@[n + 1]@ == text_groups(*self)[1]);
        assert(groups@[n + 2]@ == text_groups(*self)[2]);
        assert(groups@[n + 3]@ == text_groups(*self)[3]);
        assert forall|i: int| 0 <= i < 4 implies (#[trigger] groups@[n + i])@ == text_groups(
            *self,
        )[i] by {
            if i == 0 {
            } else if i == 1 {
            } else if i == 2 {
            } else {
                assert(i == 3);
            }
        }
    }

    /// A font menu over every family. `default_label` names the first option
    /// of the menus whose empty value means to follow something else.
    pub fn font_dropdown(&self, id: &str, current: Option<&str>, default_label: Option<&str>) -> (r:
        FontMenu)
        ensures
            ({
                let cur = match current {
                    Some(s) => Some(s@),
                    None => None,
                };
                let def = match default_label {
                    Some(s) => Some(s@),
                    None => None,
                };
                let values = font_values(font_names(*self), def);
                let selected = font_selected(font_names(*self), cur, def);
                &&& text::views(r.values@) == values
                &&& r.label@ == (match cur {
                    Some(s) => s,
                    None => match def {
                        Some(l) => l,
                        None => Seq::empty(),
                    },
                })
                &&& r.menu.open == settings::menu_is(self.settings, id@)
                &&& r.menu.start == (match selected {
                    Some(i) => i,
                    None => 0,
                })
                &&& match r.menu.rows {
                    Some(rows) => r.menu.open && rows@ == settings::search_rows(
                        settings::visible_options(
                            values,
                            text::query_of(self.settings->0.menu_query@),
                        ),
                        self.settings->0.menu_hi,
                        selected,
                    ),
                    None => !r.menu.open,
                }
            }),
    {
        let ghost names = font_names(*self);
        let ghost def = match default_label {
            Some(s) => Some(s@),
            None => None,
        };
        let mut options: Vec<SearchOption> = Vec::new();
        let mut values: Vec<String> = Vec::new();
        match default_label {
            Some(l) => {
                options.push(SearchOption { label: text::owned(l), font: None });
                values.push(text::owned(l));
            },
            None => {},
        }
        let ghost front = text::views(values@);
        match &self.settings {
            Some(s) => {
                let mut i: usize = 0;
                assert(text::views(values@) =~= front + names.take(0));
                assert(settings::option_labels(options@) =~= text::views(values@));
                while i < s.font_names.len()
                    invariant
                        i <= s.font_names@.len(),
                        names == text::views(s.font_names@),
                        text::views(values@) == front + names.take(i as int),
                        settings::option_labels(options@) == text::views(values@),
                    decreases s.font_names@.len() - i,
                {
                    let name = &s.font_names[i];
                    let ghost before = text::views(values@);
                    options.push(SearchOption { label: name.clone(), font: Some(name.clone()) });
                    values.push(name.clone());
                    assert(text::views(values@) =~= before.push(name@));
                    assert(text::views(values@) =~= front + names.take(i + 1));
                    assert(settings::option_labels(options@) =~= text::views(values@));
                    i = i + 1;
                }
                assert(names.take(names.len() as int) =~= names);
            },
            None => {
                assert(settings::option_labels(options@) =~= text::views(values@));
                assert(text::views(values@) =~= front + names);
            },
        }
        assert(text::views(values@) =~= font_values(names, def));
        let selected: Option<usize> = match current {
            Some(name) => position(&values, name),
            None => if default_label.is_some() {
                Some(0)
            } else {
                None
            },
        };
        let label: String = match current {
            Some(s) => text::owned(s),
            None => match default_label {
                Some(l) => text::owned(l),
                None => String::new(),
            },
        };
        let menu = self.settings_search_dropdown(id, &options, selected);
        FontMenu { label, values, menu }
    }
}

proof fn lemma_place(v: Seq<Seq<char>>, x: Seq<char>)
    requires
        v.len() <= usize::MAX,
    ensures
        match place_of(v, x) {
            Some(i) => i < v.len() && v[i as int] == x,
            None => !v.contains(x),
        },
    decreases v.len(),
{
    if v.len() > 0 {
        let h = v.drop_last();
        lemma_place(h, x);
        if place_of(v, x) is None && v.contains(x) {
            let k = choose|k: int| 0 <= k < v.len() && v[k] == x;
            assert(k < h.len());
            assert(h[k] == x);
        }
    }
}

/// A font menu marks the family that is in use, whenever it offers it.
pub proof fn the_font_in_use_is_marked(
    names: Seq<Seq<char>>,
    current: Seq<char>,
    default_label: Option<Seq<char>>,
)
    requires
        font_values(names, default_label).len() <= usize::MAX,
    ensures
        match font_selected(names, Some(current), default_label) {
            Some(i) => i < font_values(names, default_label).len() && font_values(
                names,
                default_label,
            )[i as int] == current,
            None => !names.contains(current),
        },
{
    let values = font_values(names, default_label);
    lemma_place(values, current);
    if place_of(values, current) is None && names.contains(current) {
        let k = choose|k: int| 0 <= k < names.len() && names[k] == current;
        let at = if default_label is Some { k + 1 } else { k };
        assert(values[at] == current);
        assert(values.contains(current));
    }
}

/// With the prompt editor off, what needs it cannot be switched but keeps its
/// value.
pub proof fn a_gated_switch_keeps_its_value(app: Tty7App)
    requires
        !app.config.prompt_editor,
    ensures
        prompt_group(app).body[1] matches Line::Row(row) && row.gated && row.control == (
        Control::Switch { on: app.config.tab_completion, disabled: true }),
        prompt_group(app).body[2] matches Line::Row(row) && row.gated && row.control == (
        Control::Switch { on: app.config.history_search, disabled: true }),
{
}

/// An update that is ready and one that could be had are never offered side by
/// side.
pub proof fn only_one_update_is_offered(app: Tty7App)
    ensures
        ready_row(app).len() == 0 || available_row(app).len() == 0,
{
}

/// Whether a line is the row of this setting under this control.
pub open spec fn shows(line: Line, key: RowKey, control: Control) -> bool {
    line matches Line::Row(row) && row.key == key && row.control == control
}

/// Whether a line is the row of a switch that can be thrown, and is on as
/// said.
pub open spec fn shows_switch(line: Line, key: RowKey, on: bool) -> bool {
    shows(line, key, Control::Switch { on, disabled: false })
}

/// Whether a line is the row of a control whose cell at `at` is lit.
pub open spec fn shows_cell(line: Line, key: RowKey, at: usize) -> bool {
    shows(line, key, Control::Segments { selected: Some(at), custom: None })
}

/// Each switch shows its own setting, on every page.
pub proof fn every_switch_shows_its_own_setting(app: Tty7App)
    ensures
        ({
            let c = app.config;
            &&& shows_switch(startup_rows(app)[1], RowKey::RememberWindowSize, c.remember_window_size)
            &&& shows_switch(startup_rows(app)[2], RowKey::RestoreLastLayout, c.restore_session)
            &&& shows_switch(startup_rows(app)[3], RowKey::ShowTrayIcon, c.show_tray_icon)
            &&& shows_switch(prompt_rows(app)[0], RowKey::PromptEditor, c.prompt_editor)
            &&& shows_switch(prompt_rows(app)[3], RowKey::PerPaneHistory, c.per_pane_history)
            &&& c.prompt_editor ==> shows_switch(
                prompt_rows(app)[1],
                RowKey::TabCompletion,
                c.tab_completion,
            ) && shows_switch(prompt_rows(app)[2], RowKey::HistorySearch, c.history_search)
            &&& shows_switch(scroll_rows(app)[2], RowKey::SmoothScroll, c.smooth_scroll)
            &&& shows_switch(link_rows(app)[0], RowKey::DetectUrls, c.link_url)
            &&& shows_switch(
                link_rows(app)[1],
                RowKey::ForwardSshLoopbackLinks,
                c.ssh_loopback_forward,
            )
            &&& shows_switch(clipboard_rows(app)[0], RowKey::SmartSelection, c.smart_select)
            &&& shows_switch(clipboard_rows(app)[1], RowKey::CopyOnSelect, c.copy_on_select)
            &&& shows_switch(
                clipboard_rows(app)[2],
                RowKey::TrimTrailingSpaces,
                c.clipboard_trim_trailing_spaces,
            )
            &&& shows_switch(mouse_rows(app)[0], RowKey::FocusFollowsMouse, c.focus_follows_mouse)
            &&& shows_switch(
                mouse_rows(app)[1],
                RowKey::HideMouseWhileTyping,
                c.mouse_hide_while_typing,
            )
            &&& shows_switch(mouse_rows(app)[2], RowKey::ReportMouseToApps, c.mouse_reporting)
            &&& shows_switch(
                window_page(app)[0].body[3],
                RowKey::DiffPreviewFromCounts,
                c.sidebar_diff_preview,
            )
            &&& shows_switch(
                security_group(app).body[0],
                RowKey::VerifyHostKeys,
                c.verify_host_keys,
            )
            &&& shows_switch(
                security_group(app).body[1],
                RowKey::WarnBeforeClosing,
                c.ssh_warn_on_close,
            )
            &&& shows_switch(
                command_line_group(app).body[0],
                RowKey::InstallCliOnPath,
                c.install_cli_on_path,
            )
            &&& shows_switch(cursor_rows(app)[1], RowKey::CursorBlink, c.cursor_blink)
            &&& shows_switch(window_rows(app).last(), RowKey::DimInactivePanes, c.dim_inactive_panes)
            &&& shows_switch(
                font_rows(app)[5],
                RowKey::FontLigatures,
                preferences::has_ligatures(c.font_features),
            )
        }),
{
}

/// The switches for updates each show their own setting; a proxy that is left
/// empty is no error.
pub proof fn updates_are_set_as_shown(app: Tty7App, s: SettingsState)
    ensures
        shows_switch(
            maintenance_rows(app, s)[0],
            RowKey::AutoDownload,
            app.config.auto_download_updates,
        ),
        shows_switch(
            maintenance_rows(app, s)[1],
            RowKey::CheckUpdatesOnLaunch,
            app.config.check_for_updates,
        ),
        app.config.update_channel is Stable ==> shows_cell(
            maintenance_rows(app, s)[2],
            RowKey::UpdateChannel,
            0,
        ),
        app.config.update_channel is Nightly ==> shows_cell(
            maintenance_rows(app, s)[2],
            RowKey::UpdateChannel,
            1,
        ),
        text::trimmed(s.fields.http_proxy@).len() == 0 || s.fields.http_proxy_valid ==> shows(
            maintenance_rows(app, s)[3],
            RowKey::HttpProxy,
            Control::TextField { invalid: false },
        ),
        text::trimmed(s.fields.http_proxy@).len() > 0 && !s.fields.http_proxy_valid ==> shows(
            maintenance_rows(app, s)[3],
            RowKey::HttpProxy,
            Control::TextField { invalid: true },
        ),
{
}

/// Each control of cells lights the cell that reads what is set.
pub proof fn every_cell_lit_reads_what_is_set(app: Tty7App, s: SettingsState)
    ensures
        ({
            let c = app.config;
            let startup: usize = if c.startup_mode is Normal {
                0
            } else if c.startup_mode is Maximized {
                1
            } else {
                2
            };
            let notify: usize = if c.notify_on_command_finish is Never {
                0
            } else if c.notify_on_command_finish is Unfocused {
                1
            } else {
                2
            };
            let cursor: usize = if c.cursor_style is Block {
                0
            } else if c.cursor_style is Bar {
                1
            } else {
                2
            };
            let wd: usize = if c.wd_strategy is Inherit {
                0
            } else if c.wd_strategy is Home {
                1
            } else {
                2
            };
            let link: usize = if c.link_file_open is Internal {
                0
            } else if c.link_file_open is System {
                1
            } else {
                2
            };
            let grouping: usize = if c.sidebar_grouping is Repo {
                0
            } else if c.sidebar_grouping is RepoOrDirectory {
                1
            } else {
                2
            };
            &&& shows_cell(startup_rows(app)[0], RowKey::StartupWindow, startup)
            &&& shows_cell(notify_rows(app)[0], RowKey::NotifyOnCommandFinish, notify)
            &&& shows_cell(cursor_rows(app)[0], RowKey::CursorShape, cursor)
            &&& shows_cell(shell_rows(app, s)[2], RowKey::StartIn, wd)
            &&& shows_cell(link_rows(app)[2], RowKey::OpenFilesWith, link)
            &&& shows_cell(window_page(app)[0].body[2], RowKey::SidebarGrouping, grouping)
            &&& c.new_tab_position is AfterCurrent ==> shows_cell(
                window_page(app)[0].body[0],
                RowKey::NewTabPosition,
                0,
            )
            &&& c.new_tab_position is End ==> shows_cell(
                window_page(app)[0].body[0],
                RowKey::NewTabPosition,
                1,
            )
            &&& c.tab_bar_position is Top ==> shows_cell(
                window_page(app)[0].body[1],
                RowKey::TabBarPosition,
                0,
            )
            &&& c.tab_bar_position is Left ==> shows_cell(
                window_page(app)[0].body[1],
                RowKey::TabBarPosition,
                1,
            )
        }),
{
}

/// A value that no bucket holds is named beside the buckets; one that a bucket
/// holds lights that bucket, and is named nowhere else.
pub proof fn a_value_is_a_bucket_or_is_named(buckets: Seq<u64>, value: u64)
    requires
        buckets.len() <= usize::MAX,
    ensures
        buckets.contains(value) ==> (bucket_control(buckets, value) matches Control::Segments {
            selected: Some(i),
            custom: None,
        } && i < buckets.len() && buckets[i as int] == value),
        !buckets.contains(value) ==> bucket_control(buckets, value) == (Control::Segments {
            selected: None,
            custom: Some(value),
        }),
{
    preferences::a_bucket_never_claims_another_value(buckets, value);
}

/// What only one platform has is drawn only there: the default terminal, the
/// Option key and thick strokes on the Mac, backdrops on Windows, and the blur
/// alone elsewhere.
pub proof fn a_platform_shows_what_it_has(app: Tty7App)
    ensures
        general_first(app).len() == (if app.platform is MacOs {
            2int
        } else {
            1int
        }),
        app.platform is MacOs ==> shows(
            general_first(app)[1],
            RowKey::DefaultTerminal,
            Control::Button(
                Btn {
                    key: BtnKey::SetDefaultTerminal,
                    kind: BtnKind::Secondary,
                    disabled: false,
                    dimmed: false,
                },
            ),
        ),
        input_page(app).len() == (if app.platform is MacOs {
            4int
        } else {
            3int
        }),
        app.platform is MacOs ==> shows_switch(
            input_page(app)[2].body[0],
            RowKey::OptionAsMeta,
            app.config.macos_option_as_alt,
        ),
        font_rows(app).len() == (if app.platform is MacOs {
            7int
        } else {
            6int
        }),
        app.platform is MacOs ==> shows_switch(
            font_rows(app)[6],
            RowKey::FontThicken,
            app.config.font_thicken,
        ),
        app.platform is Windows ==> shows(
            window_rows(app)[1],
            RowKey::Backdrop,
            Control::Backdrops,
        ),
        app.platform !is Windows ==> shows_switch(window_rows(app)[1], RowKey::Blur, blur_on(app)),
        app.platform is Windows && app.config.window_backdrop is Auto ==> shows_switch(
            window_rows(app)[2],
            RowKey::Blur,
            blur_on(app),
        ),
{
}

/// The blur is as it was set, and only where it was not as the theme says.
pub proof fn a_blur_that_was_set_goes_before_the_theme(app: Tty7App)
    ensures
        app.config.window_blur is Some ==> blur_on(app) == app.config.window_blur->0,
        app.config.window_blur is None ==> blur_on(app) == app.facts.theme_blur,
{
}

/// A path is asked for only where shells start at one of one's own, and a
/// command only where files are opened with one. A field that cannot be saved
/// is marked.
pub proof fn a_field_is_asked_for_where_it_counts(app: Tty7App, s: SettingsState)
    ensures
        shows(
            shell_rows(app, s)[1],
            RowKey::Arguments,
            Control::TextField { invalid: !s.fields.shell_args_valid },
        ),
        app.config.wd_strategy is Custom ==> shell_rows(app, s).len() == 5 && shows(
            shell_rows(app, s)[3],
            RowKey::CustomPath,
            Control::TextField { invalid: !s.fields.wd_path_saveable },
        ),
        app.config.wd_strategy !is Custom ==> shell_rows(app, s).len() == 4,
        app.config.link_file_open is Command ==> link_rows(app).len() == 4 && shows(
            link_rows(app)[3],
            RowKey::OpenFilesCommand,
            Control::TextField { invalid: false },
        ),
        app.config.link_file_open !is Command ==> link_rows(app).len() == 3,
{
}

/// What only the prompt editor can do is drawn as it is set, and greyed out
/// and explained exactly while the editor is off.
pub proof fn the_prompt_editor_opens_what_needs_it(app: Tty7App)
    ensures
        prompt_rows(app)[1] matches Line::Row(row) && row.key == RowKey::TabCompletion && row.gated
            == !app.config.prompt_editor && row.control == (Control::Switch {
            on: app.config.tab_completion,
            disabled: !app.config.prompt_editor,
        }) && (row.desc is NeedsPromptEditor <==> !app.config.prompt_editor),
        prompt_rows(app)[2] matches Line::Row(row) && row.key == RowKey::HistorySearch && row.gated
            == !app.config.prompt_editor && row.control == (Control::Switch {
            on: app.config.history_search,
            disabled: !app.config.prompt_editor,
        }) && (row.desc is NeedsPromptEditor <==> !app.config.prompt_editor),
{
}

/// The button of a buttons' row that stands last.
pub open spec fn last_button(line: Line) -> Btn {
    line->Row_0.control->last
}

/// Updates can be asked for while nothing is under way. While a check is, the
/// button says so; a download, and only that, can be cancelled.
pub proof fn only_a_download_can_be_cancelled(app: Tty7App)
    ensures
        ({
            let u = app.facts.update;
            let line = version_row(app);
            &&& line is Row && line->Row_0.key == RowKey::Version && line->Row_0.control is Buttons
            &&& line->Row_0.control->first is Some <==> u.phase is Downloading || u.phase
                is Verifying
            &&& line->Row_0.control->first is Some ==> line->Row_0.control->first->0.key
                == BtnKey::CancelDownload
            &&& last_button(line).disabled <==> u.phase is Checking || u.phase is Downloading
                || u.phase is Verifying || u.phase is Installing
            &&& last_button(line).key == (if u.phase is Checking {
                BtnKey::CheckingForUpdates
            } else {
                BtnKey::CheckForUpdates
            })
        }),
{
}

/// A failure is shown exactly where there is one, and can be dismissed, got
/// around or tried again.
pub proof fn a_failure_can_be_acted_on(app: Tty7App)
    ensures
        failed_row(app).len() == (if app.facts.update.failed {
            1int
        } else {
            0int
        }),
        app.facts.update.failed ==> {
            let line = failed_row(app)[0];
            &&& line is Row && line->Row_0.key == RowKey::UpdateFailed && line->Row_0.control
                is Buttons
            &&& line->Row_0.control->first is Some && line->Row_0.control->first->0.key
                == BtnKey::DismissFailure
            &&& line->Row_0.control->second is Some && line->Row_0.control->second->0.key
                == BtnKey::DownloadManually
            &&& last_button(line).key == BtnKey::RetryUpdate
            &&& last_button(line).disabled == is_busy(app.facts.update.phase)
        },
{
}

/// An update is ready exactly where it was downloaded and is still there. One
/// that is ready can be installed or discarded; one that could be had is
/// fetched where that can be done here, and else looked at; neither while
/// something is under way.
pub proof fn an_update_is_offered_as_it_can_be_had(app: Tty7App)
    ensures
        ({
            let u = app.facts.update;
            let ready = u.ready is Some && u.ready->0.usable;
            &&& ready_update(u) is Some <==> ready
            &&& ready_row(app).len() == (if ready {
                1int
            } else {
                0int
            })
            &&& ready ==> {
                let line = ready_row(app)[0];
                &&& line is Row && line->Row_0.key == RowKey::UpdateReady && line->Row_0.control
                    is Buttons
                &&& line->Row_0.control->first is Some && line->Row_0.control->first->0.key
                    == BtnKey::DiscardUpdate
                &&& last_button(line).key == BtnKey::InstallUpdate
                &&& last_button(line).disabled == is_busy(u.phase)
                &&& line->Row_0.desc is NextLaunch <==> u.ready->0.apply_on_launch
            }
            &&& available_row(app).len() == (if u.available is Some && !ready {
                1int
            } else {
                0int
            })
            &&& u.available is Some && !ready ==> {
                let line = available_row(app)[0];
                &&& line is Row && line->Row_0.key == RowKey::UpdateAvailable
                    && line->Row_0.control is Button
                &&& line->Row_0.control->Button_0.key == (if u.available->0.installable {
                    BtnKey::UpdateAndRelaunch
                } else {
                    BtnKey::ViewRelease
                })
                &&& line->Row_0.control->Button_0.disabled == is_busy(u.phase)
                &&& line->Row_0.desc is InstallHint <==> u.available->0.has_hint
            }
        }),
{
}

/// Something is under way from the check to the install.
pub proof fn work_is_under_way_from_check_to_install(phase: UpdatePhase)
    ensures
        is_busy(phase) <==> phase is Checking || phase is Downloading || phase is Verifying || phase
            is Installing,
{
}

proof fn lemma_offered(shells: Seq<InventoryShell>)
    requires
        shells.len() <= usize::MAX,
    ensures
        forall|i: int|
            0 <= i < offered(shells).len() ==> (#[trigger] offered(shells)[i]) < shells.len()
                && !shells[offered(shells)[i] as int].user_authored,
        forall|k: int|
            0 <= k < shells.len() && !(#[trigger] shells[k]).user_authored ==> offered(
                shells,
            ).contains(k as usize),
    decreases shells.len(),
{
    if shells.len() > 0 {
        let front = shells.drop_last();
        let head = offered(front);
        let all = offered(shells);
        lemma_offered(front);
        assert forall|i: int| 0 <= i < all.len() implies (#[trigger] all[i]) < shells.len()
            && !shells[all[i] as int].user_authored by {
            if i < head.len() {
                assert(all[i] == head[i]);
                assert(front[head[i] as int] == shells[head[i] as int]);
            }
        }
        assert forall|k: int| 0 <= k < shells.len() && !(#[trigger] shells[k]).user_authored implies all.contains(
            k as usize,
        ) by {
            if k < front.len() {
                assert(front[k] == shells[k]);
                let w = choose|w: int| 0 <= w < head.len() && head[w] == k as usize;
                assert(all[w] == k as usize);
            } else {
                assert(all[head.len() as int] == k as usize);
            }
        }
    }
}

/// Every shell that was found is offered, and none that was written down.
pub proof fn only_found_shells_are_offered(shells: Seq<InventoryShell>, k: int)
    requires
        0 <= k < shells.len() <= usize::MAX,
    ensures
        offered(shells).contains(k as usize) <==> !shells[k].user_authored,
{
    lemma_offered(shells);
    if offered(shells).contains(k as usize) {
        let w = choose|w: int| 0 <= w < offered(shells).len() && offered(shells)[w] == k as usize;
        assert(offered(shells)[w] < shells.len());
    }
    if !shells[k].user_authored {
        assert(offered(shells).contains(k as usize));
    }
}

/// The menu of shells checks the platform's own where none is typed, and else
/// the one that is; each item picks the shell it names.
pub proof fn a_shell_menu_checks_the_shell_in_use(
    shells: Seq<InventoryShell>,
    typed: Seq<char>,
    windows: bool,
    i: int,
)
    requires
        0 <= i < offered(shells).len(),
    ensures
        shell_menu(shells, typed, windows)[0] == settings::plain_item(
            LabelView::Word(
                if windows {
                    Word::PowerShell
                } else {
                    Word::LoginShell
                },
            ),
            text::trimmed(typed).len() == 0,
            Pick::DefaultShell,
        ),
        shell_menu(shells, typed, windows)[i + 2] == (EntryView::Item {
            label: LabelView::Text(shells[offered(shells)[i] as int].label@),
            checked: text::trimmed(typed) == shells[offered(shells)[i] as int].program@,
            danger: false,
            trailing: None,
            pick: Pick::Shell(offered(shells)[i]),
        }),
{
}

/// The menu of languages lists each once, in order, and checks the one in use;
/// that one is also what the control reads.
pub proof fn the_language_in_use_is_checked(
    languages: Seq<Language>,
    current: Seq<char>,
    k: int,
)
    requires
        0 <= k < languages.len() <= usize::MAX,
    ensures
        language_items(languages, current).len() == languages.len(),
        language_items(languages, current)[k] == (EntryView::Item {
            label: LabelView::Text(languages[k].label@),
            checked: languages[k].code@ == current,
            danger: false,
            trailing: None,
            pick: Pick::Language(k as usize),
        }),
        languages[k].code@ == current && (forall|i: int|
            0 <= i < k ==> (#[trigger] languages[i]).code@ != current) ==> language_label(
            languages,
            current,
        ) == languages[k].label@,
    decreases languages.len(),
{
    let front = languages.drop_last();
    assert(forall|i: int| 0 <= i < front.len() ==> front[i] == languages[i]);
    if languages[k].code@ == current && (forall|i: int|
        0 <= i < k ==> (#[trigger] languages[i]).code@ != current) {
        if k < front.len() {
            assert(languages[k].code@ == current);
            the_language_in_use_is_checked(front, current, k);
        }
    }
}

/// The menu of backdrops checks the one in use, and each item picks its own.
pub proof fn the_backdrop_in_use_is_checked(
    backdrops: Seq<(WindowBackdrop, String)>,
    current: WindowBackdrop,
    k: int,
)
    requires
        0 <= k < backdrops.len() <= usize::MAX,
    ensures
        backdrop_items(backdrops, current)[k] == (EntryView::Item {
            label: LabelView::Text(backdrops[k].1@),
            checked: backdrops[k].0 == current,
            danger: false,
            trailing: None,
            pick: Pick::Backdrop(k as usize),
        }),
{
}

/// A page holds its groups in order, under their headings.
pub proof fn a_page_holds_its_groups_in_order(app: Tty7App)
    ensures
        general_page(app).len() == 3,
        general_page(app)[0].body == general_first(app),
        general_page(app)[1].title == Some(HeadKey::StartupRestore) && general_page(app)[1].body
            == startup_rows(app),
        general_page(app)[2].title == Some(HeadKey::Notifications) && general_page(app)[2].body
            == notify_rows(app),
        app.settings is Some ==> terminal_page(app).len() == 5 && terminal_page(app)[0].title
            == Some(HeadKey::Shell) && terminal_page(app)[1].title == Some(HeadKey::Prompt)
            && terminal_page(app)[1].body == prompt_rows(app) && terminal_page(app)[2].title
            == Some(HeadKey::Scrolling) && terminal_page(app)[2].body == scroll_rows(app)
            && terminal_page(app)[3].title == Some(HeadKey::Bell) && terminal_page(app)[4].title
            == Some(HeadKey::Links) && terminal_page(app)[4].body == link_rows(app),
        app.settings is None ==> terminal_page(app).len() == 0,
        input_page(app)[1].title == Some(HeadKey::SelectionClipboard) && input_page(app)[1].body
            == clipboard_rows(app),
        input_page(app).last().title == Some(HeadKey::Mouse) && input_page(app).last().body
            == mouse_rows(app),
        about_page(app).len() == 3 && about_page(app)[0].body == about_rows(app),
        text_groups(app).len() == 4 && text_groups(app)[0].body == font_rows(app) && text_groups(
            app,
        )[1].body == ui_font_rows(app) && text_groups(app)[2].body == cursor_rows(app)
            && text_groups(app)[3].body == window_rows(app),
{
}

/// Each font menu is for its own font, and each stepper for its own size.
pub proof fn each_font_has_its_own_menu(app: Tty7App)
    ensures
        shows(font_rows(app)[0], RowKey::FontFamily, Control::Fonts(FontSlot::Regular)),
        shows(font_rows(app)[1], RowKey::FontSize, Control::Stepper(Quantity::FontSize)),
        shows(font_rows(app)[2], RowKey::LineHeight, Control::Stepper(Quantity::LineHeight)),
        shows(font_rows(app)[3], RowKey::BoldFont, Control::Fonts(FontSlot::Bold)),
        shows(font_rows(app)[4], RowKey::ItalicFont, Control::Fonts(FontSlot::Italic)),
        shows(ui_font_rows(app)[0], RowKey::UiFontFamily, Control::Fonts(FontSlot::Interface)),
        shows(ui_font_rows(app)[1], RowKey::UiFontSize, Control::Stepper(Quantity::UiFontSize)),
        shows(window_rows(app)[0], RowKey::Opacity, Control::Slider(Quantity::WindowOpacity)),
        shows(scroll_rows(app)[1], RowKey::ScrollSpeed, Control::Slider(Quantity::ScrollSpeed)),
{
}

/// Without a font of one's own the menu marks what an empty choice means,
/// where it means something; that stands before every family.
pub proof fn an_empty_choice_is_offered_first(
    names: Seq<Seq<char>>,
    default_label: Option<Seq<char>>,
)
    ensures
        default_label is Some ==> font_values(names, default_label).len() == names.len() + 1
            && font_values(names, default_label)[0] == default_label->0 && font_selected(
            names,
            None,
            default_label,
        ) == Some(0usize),
        default_label is None ==> font_values(names, default_label) == names && font_selected(
            names,
            None,
            default_label,
        ) is None,
        forall|i: int|
            0 <= i < names.len() ==> #[trigger] names[i] == font_values(names, default_label)[if default_label
                is Some {
                i + 1
            } else {
                i
            }],
{
}

/// The shell's group and the group of updates are drawn only while the
/// settings are open; the file of the settings can be shown only where there
/// is one.
pub proof fn groups_of_open_settings_are_drawn(app: Tty7App)
    ensures
        app.settings is Some ==> shell_group(app).title == Some(HeadKey::Shell) && shell_group(
            app,
        ).body == shell_rows(app, app.settings->0),
        app.settings is None ==> shell_group(app).title is None && shell_group(app).body.len() == 0,
        app.settings is Some ==> maintenance_group(app).title == Some(HeadKey::Updates)
            && maintenance_group(app).body == maintenance_rows(app, app.settings->0),
        app.settings is None ==> maintenance_group(app).title is None && maintenance_group(
            app,
        ).body.len() == 0,
        window_section(app).title == Some(HeadKey::Transparency) && window_section(app).body
            == window_rows(app),
        file_row(app).len() == (if app.facts.settings_file {
            1int
        } else {
            0int
        }),
        app.facts.settings_file ==> shows(
            file_row(app)[0],
            RowKey::SettingsFile,
            Control::Button(settings::button_of(BtnKey::RevealFile, BtnKind::Secondary)),
        ),
        prompt_group(app).title == Some(HeadKey::Prompt) && prompt_group(app).body == prompt_rows(
            app,
        ),
        security_group(app).title == Some(HeadKey::Security),
        command_line_group(app).title == Some(HeadKey::CommandLine),
{
}

/// The rows about updates stand in one order: the version, a failure, what is
/// ready, what could be had, and the file of the settings.
pub proof fn rows_about_updates_stand_in_order(app: Tty7App)
    ensures
        about_rows(app)[0] == version_row(app),
        about_rows(app) == seq![version_row(app)] + failed_row(app) + ready_row(app)
            + available_row(app) + file_row(app),
{
}

/// A server that is out of date is said to be, and can be restarted at any
/// time.
pub proof fn a_server_can_be_restarted(app: Tty7App, s: SettingsState)
    ensures
        shows(
            maintenance_rows(app, s)[4],
            RowKey::Server,
            Control::Button(settings::button_of(BtnKey::RestartServer, BtnKind::Secondary)),
        ),
        app.facts.stale_server ==> maintenance_rows(app, s)[4]->Row_0.desc == (RowDesc::StaleServer {
            in_place: app.facts.server_hands_over,
        }),
        !app.facts.stale_server ==> maintenance_rows(app, s)[4]->Row_0.desc is Standing,
{
}

/// Each value of the bell, and of the zoom on either platform, lights its own
/// cell.
pub proof fn the_bell_and_the_zoom_light_their_cells(app: Tty7App)
    ensures
        app.settings is Some ==> {
            let line = terminal_page(app)[3].body[0];
            &&& app.config.bell is Silent ==> shows_cell(line, RowKey::TerminalBell, 0)
            &&& app.config.bell is Visual ==> shows_cell(line, RowKey::TerminalBell, 1)
            &&& app.config.bell is Audible ==> shows_cell(line, RowKey::TerminalBell, 2)
            &&& app.config.bell is Both ==> shows_cell(line, RowKey::TerminalBell, 3)
        },
        app.config.mouse_zoom_modifier is Platform ==> shows_cell(
            mouse_rows(app)[3],
            RowKey::MouseZoom,
            0,
        ),
        app.config.mouse_zoom_modifier is Alt && app.platform is MacOs ==> shows_cell(
            mouse_rows(app)[3],
            RowKey::MouseZoom,
            2,
        ),
        app.config.mouse_zoom_modifier is Alt && app.platform !is MacOs ==> shows_cell(
            mouse_rows(app)[3],
            RowKey::MouseZoom,
            1,
        ),
        app.config.mouse_zoom_modifier is Off && app.platform is MacOs ==> shows_cell(
            mouse_rows(app)[3],
            RowKey::MouseZoom,
            3,
        ),
        app.config.mouse_zoom_modifier is Off && app.platform !is MacOs ==> shows_cell(
            mouse_rows(app)[3],
            RowKey::MouseZoom,
            2,
        ),
{
}

/// The threshold of notices and the length of what can be scrolled back each
/// go by their own value and their own buckets.
pub proof fn each_value_goes_by_its_own_buckets(app: Tty7App)
    ensures
        shows(
            notify_rows(app)[1],
            RowKey::NotifyThreshold,
            bucket_control(app.facts.notify_buckets@, app.config.notify_threshold_secs),
        ),
        shows(
            scroll_rows(app)[0],
            RowKey::Scrollback,
            bucket_control(app.facts.scrollback_buckets@, app.config.scrollback_limit),
        ),
{
}

} // verus!
