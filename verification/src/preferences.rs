//! The preferences the settings pages edit, and how each choice of a segmented
//! control stands for a value.

use vstd::prelude::*;
use vstd::string::*;
use crate::ssh_profile::SshProfile;
use crate::text;

verus! {

#[derive(Clone, Copy, Debug, PartialEq, Eq, Structural)]
pub enum Platform {
    MacOs,
    Windows,
    Linux,
}

#[derive(Clone, Copy, Debug, PartialEq, Eq, Structural)]
pub enum StartupMode {
    Normal,
    Maximized,
    Fullscreen,
}

#[derive(Clone, Copy, Debug, PartialEq, Eq, Structural)]
pub enum NotifyMode {
    Never,
    Unfocused,
    Always,
}

#[derive(Clone, Copy, Debug, PartialEq, Eq, Structural)]
pub enum CursorStyle {
    Block,
    Bar,
    Underline,
}

/// Where a new shell starts.
#[derive(Clone, Copy, Debug, PartialEq, Eq, Structural)]
pub enum WdStrategy {
    Inherit,
    Home,
    Custom,
}

/// What opens a file link.
#[derive(Clone, Copy, Debug, PartialEq, Eq, Structural)]
pub enum LinkFileOpen {
    Internal,
    System,
    Command,
}

#[derive(Clone, Copy, Debug, PartialEq, Eq, Structural)]
pub enum BellMode {
    Silent,
    Visual,
    Audible,
    Both,
}

/// The key that zooms with the wheel.
#[derive(Clone, Copy, Debug, PartialEq, Eq, Structural)]
pub enum MouseZoomModifier {
    Platform,
    Ctrl,
    Alt,
    Off,
}

#[derive(Clone, Copy, Debug, PartialEq, Eq, Structural)]
pub enum NewTabPosition {
    AfterCurrent,
    End,
}

#[derive(Clone, Copy, Debug, PartialEq, Eq, Structural)]
pub enum TabBarPosition {
    Top,
    Left,
}

#[derive(Clone, Copy, Debug, PartialEq, Eq, Structural)]
pub enum SidebarGrouping {
    Repo,
    RepoOrDirectory,
    Flat,
}

#[derive(Clone, Copy, Debug, PartialEq, Eq, Structural)]
pub enum UpdateChannel {
    Stable,
    Nightly,
}

/// A backdrop material of the window; any but the automatic one is told by
/// its number.
#[derive(Clone, Copy, Debug, PartialEq, Eq, Structural)]
pub enum WindowBackdrop {
    Auto,
    Material(u8),
}

/// Which themes are used: one, or one by day and one by night.
#[derive(Clone, Copy, Debug, PartialEq, Eq, Structural)]
pub enum ThemeMode {
    Light,
    Dark,
    System,
}

/// The features a font is drawn with.
#[derive(Debug)]
pub struct FontFeatures {
    /// Whether contextual alternates are on, when it is said.
    pub calt: Option<bool>,
    pub tags: Vec<(String, u32)>,
}

/// How often a host was connected to, and when last.
#[derive(Clone, Copy, Debug, PartialEq, Eq, Structural)]
pub struct Usage {
    pub count: u32,
    pub last_used: u64,
}

/// The use of one host.
#[derive(Clone, Copy, Debug, PartialEq, Eq, Structural)]
pub struct HostUsage {
    pub id: u128,
    pub usage: Usage,
}

/// The themes in use, by id: one by day and one by night while the system is
/// followed, and one for both while it is not.
#[derive(Debug)]
pub struct ThemePresets {
    pub follow_system: bool,
    pub single: String,
    pub light: String,
    pub dark: String,
}

/// The preferences.
#[derive(Debug)]
pub struct Config {
    pub gui_language: String,
    pub startup_mode: StartupMode,
    pub restore_session: bool,
    pub remember_window_size: bool,
    pub show_tray_icon: bool,
    pub notify_on_command_finish: NotifyMode,
    pub notify_threshold_secs: u64,
    pub cursor_style: CursorStyle,
    pub cursor_blink: bool,
    pub font_thicken: bool,
    pub font_family: String,
    pub font_family_bold: Option<String>,
    pub font_family_italic: Option<String>,
    pub ui_font_family: Option<String>,
    pub font_features: Option<FontFeatures>,
    pub dim_inactive_panes: bool,
    pub window_backdrop: WindowBackdrop,
    pub window_blur: Option<bool>,
    pub wd_strategy: WdStrategy,
    pub link_url: bool,
    pub ssh_loopback_forward: bool,
    pub smooth_scroll: bool,
    pub bell: BellMode,
    pub link_file_open: LinkFileOpen,
    pub scrollback_limit: u64,
    pub prompt_editor: bool,
    pub tab_completion: bool,
    pub history_search: bool,
    pub per_pane_history: bool,
    pub mouse_hide_while_typing: bool,
    pub focus_follows_mouse: bool,
    pub mouse_reporting: bool,
    pub mouse_zoom_modifier: MouseZoomModifier,
    pub macos_option_as_alt: bool,
    pub smart_select: bool,
    pub copy_on_select: bool,
    pub clipboard_trim_trailing_spaces: bool,
    pub new_tab_position: NewTabPosition,
    pub tab_bar_position: TabBarPosition,
    pub sidebar_diff_preview: bool,
    pub sidebar_grouping: SidebarGrouping,
    pub check_for_updates: bool,
    pub auto_download_updates: bool,
    pub update_channel: UpdateChannel,
    pub install_cli_on_path: bool,
    pub verify_host_keys: bool,
    pub ssh_warn_on_close: bool,
    pub themes: ThemePresets,
    pub theme_legible_palette: bool,
    pub keybinding_preset: String,
    pub prefix: String,
    /// The actions whose keys were changed, each once.
    pub keybindings: Vec<String>,
    pub ssh_profiles: Vec<SshProfile>,
}

pub open spec fn startup_cell(mode: StartupMode) -> usize {
    match mode {
        StartupMode::Normal => 0,
        StartupMode::Maximized => 1,
        StartupMode::Fullscreen => 2,
    }
}

pub fn startup_index(mode: StartupMode) -> (r: usize)
    ensures
        r == startup_cell(mode),
        (r == 0) == (mode is Normal),
        (r == 1) == (mode is Maximized),
        (r == 2) == (mode is Fullscreen),
{
    match mode {
        StartupMode::Normal => 0,
        StartupMode::Maximized => 1,
        StartupMode::Fullscreen => 2,
    }
}

pub open spec fn startup_of(ix: usize) -> StartupMode {
    if ix == 0 {
        StartupMode::Normal
    } else if ix == 1 {
        StartupMode::Maximized
    } else {
        StartupMode::Fullscreen
    }
}

pub fn startup_mode_at(ix: usize) -> (r: StartupMode)
    ensures
        r == startup_of(ix),
        (r is Normal) == (ix == 0),
        (r is Maximized) == (ix == 1),
        (r is Fullscreen) == (ix >= 2),
{
    match ix {
        0 => StartupMode::Normal,
        1 => StartupMode::Maximized,
        _ => StartupMode::Fullscreen,
    }
}

pub open spec fn notify_cell(mode: NotifyMode) -> usize {
    match mode {
        NotifyMode::Never => 0,
        NotifyMode::Unfocused => 1,
        NotifyMode::Always => 2,
    }
}

pub fn notify_index(mode: NotifyMode) -> (r: usize)
    ensures
        r == notify_cell(mode),
        (r == 0) == (mode is Never),
        (r == 1) == (mode is Unfocused),
        (r == 2) == (mode is Always),
{
    match mode {
        NotifyMode::Never => 0,
        NotifyMode::Unfocused => 1,
        NotifyMode::Always => 2,
    }
}

pub open spec fn notify_of(ix: usize) -> NotifyMode {
    if ix == 0 {
        NotifyMode::Never
    } else if ix == 1 {
        NotifyMode::Unfocused
    } else {
        NotifyMode::Always
    }
}

pub fn notify_mode_at(ix: usize) -> (r: NotifyMode)
    ensures
        r == notify_of(ix),
        (r is Never) == (ix == 0),
        (r is Unfocused) == (ix == 1),
        (r is Always) == (ix >= 2),
{
    match ix {
        0 => NotifyMode::Never,
        1 => NotifyMode::Unfocused,
        _ => NotifyMode::Always,
    }
}

pub open spec fn cursor_cell(style: CursorStyle) -> usize {
    match style {
        CursorStyle::Block => 0,
        CursorStyle::Bar => 1,
        CursorStyle::Underline => 2,
    }
}

pub fn cursor_index(style: CursorStyle) -> (r: usize)
    ensures
        r == cursor_cell(style),
        (r == 0) == (style is Block),
        (r == 1) == (style is Bar),
        (r == 2) == (style is Underline),
{
    match style {
        CursorStyle::Block => 0,
        CursorStyle::Bar => 1,
        CursorStyle::Underline => 2,
    }
}

pub open spec fn cursor_of(ix: usize) -> CursorStyle {
    if ix == 0 {
        CursorStyle::Block
    } else if ix == 1 {
        CursorStyle::Bar
    } else {
        CursorStyle::Underline
    }
}

pub fn cursor_style_at(ix: usize) -> (r: CursorStyle)
    ensures
        r == cursor_of(ix),
        (r is Block) == (ix == 0),
        (r is Bar) == (ix == 1),
        (r is Underline) == (ix >= 2),
{
    match ix {
        0 => CursorStyle::Block,
        1 => CursorStyle::Bar,
        _ => CursorStyle::Underline,
    }
}

pub open spec fn wd_cell(strategy: WdStrategy) -> usize {
    match strategy {
        WdStrategy::Inherit => 0,
        WdStrategy::Home => 1,
        WdStrategy::Custom => 2,
    }
}

pub fn wd_index(strategy: WdStrategy) -> (r: usize)
    ensures
        r == wd_cell(strategy),
        (r == 0) == (strategy is Inherit),
        (r == 1) == (strategy is Home),
        (r == 2) == (strategy is Custom),
{
    match strategy {
        WdStrategy::Inherit => 0,
        WdStrategy::Home => 1,
        WdStrategy::Custom => 2,
    }
}

pub open spec fn wd_of(ix: usize) -> WdStrategy {
    if ix == 0 {
        WdStrategy::Inherit
    } else if ix == 1 {
        WdStrategy::Home
    } else {
        WdStrategy::Custom
    }
}

pub fn wd_strategy_at(ix: usize) -> (r: WdStrategy)
    ensures
        r == wd_of(ix),
        (r is Inherit) == (ix == 0),
        (r is Home) == (ix == 1),
        (r is Custom) == (ix >= 2),
{
    match ix {
        0 => WdStrategy::Inherit,
        1 => WdStrategy::Home,
        _ => WdStrategy::Custom,
    }
}

pub open spec fn link_cell(mode: LinkFileOpen) -> usize {
    match mode {
        LinkFileOpen::Internal => 0,
        LinkFileOpen::System => 1,
        LinkFileOpen::Command => 2,
    }
}

pub fn link_index(mode: LinkFileOpen) -> (r: usize)
    ensures
        r == link_cell(mode),
        (r == 0) == (mode is Internal),
        (r == 1) == (mode is System),
        (r == 2) == (mode is Command),
{
    match mode {
        LinkFileOpen::Internal => 0,
        LinkFileOpen::System => 1,
        LinkFileOpen::Command => 2,
    }
}

pub open spec fn link_of(ix: usize) -> LinkFileOpen {
    if ix == 0 {
        LinkFileOpen::Internal
    } else if ix == 1 {
        LinkFileOpen::System
    } else {
        LinkFileOpen::Command
    }
}

pub fn link_file_open_at(ix: usize) -> (r: LinkFileOpen)
    ensures
        r == link_of(ix),
        (r is Internal) == (ix == 0),
        (r is System) == (ix == 1),
        (r is Command) == (ix >= 2),
{
    match ix {
        0 => LinkFileOpen::Internal,
        1 => LinkFileOpen::System,
        _ => LinkFileOpen::Command,
    }
}

pub open spec fn bell_cell(mode: BellMode) -> usize {
    match mode {
        BellMode::Silent => 0,
        BellMode::Visual => 1,
        BellMode::Audible => 2,
        BellMode::Both => 3,
    }
}

pub fn bell_index(mode: BellMode) -> (r: usize)
    ensures
        r == bell_cell(mode),
        (r == 0) == (mode is Silent),
        (r == 1) == (mode is Visual),
        (r == 2) == (mode is Audible),
        (r == 3) == (mode is Both),
{
    match mode {
        BellMode::Silent => 0,
        BellMode::Visual => 1,
        BellMode::Audible => 2,
        BellMode::Both => 3,
    }
}

pub open spec fn bell_of(ix: usize) -> BellMode {
    if ix == 0 {
        BellMode::Silent
    } else if ix == 1 {
        BellMode::Visual
    } else if ix == 2 {
        BellMode::Audible
    } else {
        BellMode::Both
    }
}

/// The bell of one of the four cells.
pub fn bell_mode_at(ix: usize) -> (r: BellMode)
    requires
        ix < 4,
    ensures
        r == bell_of(ix),
        (r is Silent) == (ix == 0),
        (r is Visual) == (ix == 1),
        (r is Audible) == (ix == 2),
        (r is Both) == (ix >= 3),
{
    match ix {
        0 => BellMode::Silent,
        1 => BellMode::Visual,
        2 => BellMode::Audible,
        _ => BellMode::Both,
    }
}

/// Control has a cell of its own only where it is another key than the one of
/// the platform.
pub open spec fn zoom_cell(modifier: MouseZoomModifier, mac: bool) -> usize {
    match modifier {
        MouseZoomModifier::Platform => 0,
        MouseZoomModifier::Ctrl => if mac {
            1
        } else {
            0
        },
        MouseZoomModifier::Alt => if mac {
            2
        } else {
            1
        },
        MouseZoomModifier::Off => if mac {
            3
        } else {
            2
        },
    }
}

pub fn zoom_index(modifier: MouseZoomModifier, mac: bool) -> (r: usize)
    ensures
        r == zoom_cell(modifier, mac),
        modifier is Platform ==> r == 0,
        modifier is Ctrl && mac ==> r == 1,
        modifier is Ctrl && !mac ==> r == 0,
        modifier is Alt && mac ==> r == 2,
        modifier is Alt && !mac ==> r == 1,
        modifier is Off && mac ==> r == 3,
        modifier is Off && !mac ==> r == 2,
{
    match modifier {
        MouseZoomModifier::Platform => 0,
        MouseZoomModifier::Ctrl => if mac {
            1
        } else {
            0
        },
        MouseZoomModifier::Alt => if mac {
            2
        } else {
            1
        },
        MouseZoomModifier::Off => if mac {
            3
        } else {
            2
        },
    }
}

/// What the cells read, from the first to the last.
pub open spec fn zoom_texts(mac: bool, off: Seq<char>) -> Seq<Seq<char>> {
    if mac {
        seq!["⌘"@, "⌃"@, "⌥"@, off]
    } else {
        seq!["Ctrl"@, "Alt"@, off]
    }
}

pub fn zoom_labels(mac: bool, off: &str) -> (r: Vec<String>)
    ensures
        text::views(r@) == zoom_texts(mac, off@),
{
    let mut out: Vec<String> = Vec::new();
    if mac {
        out.push(text::owned("⌘"));
        out.push(text::owned("⌃"));
        out.push(text::owned("⌥"));
    } else {
        out.push(text::owned("Ctrl"));
        out.push(text::owned("Alt"));
    }
    out.push(text::owned(off));
    assert(text::views(out@) =~= zoom_texts(mac, off@));
    out
}

/// Every modifier has a cell on either platform.
pub proof fn every_zoom_has_a_cell(modifier: MouseZoomModifier, mac: bool, off: Seq<char>)
    ensures
        zoom_cell(modifier, mac) < zoom_texts(mac, off).len(),
{
}

pub open spec fn zoom_of(ix: usize, mac: bool) -> MouseZoomModifier {
    if ix == 0 {
        MouseZoomModifier::Platform
    } else if ix == 1 && mac {
        MouseZoomModifier::Ctrl
    } else if (ix == 1 && !mac) || (ix == 2 && mac) {
        MouseZoomModifier::Alt
    } else {
        MouseZoomModifier::Off
    }
}

pub fn zoom_modifier_at(ix: usize, mac: bool) -> (r: MouseZoomModifier)
    ensures
        r == zoom_of(ix, mac),
        (r is Platform) == (ix == 0),
        (r is Ctrl) == (mac && ix == 1),
        (r is Alt) == (if mac {
            ix == 2
        } else {
            ix == 1
        }),
        (r is Off) == (if mac {
            ix >= 3
        } else {
            ix >= 2
        }),
{
    if ix == 0 {
        MouseZoomModifier::Platform
    } else if ix == 1 {
        if mac {
            MouseZoomModifier::Ctrl
        } else {
            MouseZoomModifier::Alt
        }
    } else if ix == 2 && mac {
        MouseZoomModifier::Alt
    } else {
        MouseZoomModifier::Off
    }
}

pub open spec fn new_tab_cell(p: NewTabPosition) -> usize {
    match p {
        NewTabPosition::AfterCurrent => 0,
        NewTabPosition::End => 1,
    }
}

pub fn new_tab_index(p: NewTabPosition) -> (r: usize)
    ensures
        r == new_tab_cell(p),
        (r == 0) == (p is AfterCurrent),
        (r == 1) == (p is End),
{
    match p {
        NewTabPosition::AfterCurrent => 0,
        NewTabPosition::End => 1,
    }
}

pub open spec fn new_tab_of(ix: usize) -> NewTabPosition {
    if ix == 0 {
        NewTabPosition::AfterCurrent
    } else {
        NewTabPosition::End
    }
}

pub fn new_tab_position_at(ix: usize) -> (r: NewTabPosition)
    ensures
        r == new_tab_of(ix),
        (r is AfterCurrent) == (ix == 0),
        (r is End) == (ix >= 1),
{
    if ix == 0 {
        NewTabPosition::AfterCurrent
    } else {
        NewTabPosition::End
    }
}

pub open spec fn tab_bar_cell(p: TabBarPosition) -> usize {
    match p {
        TabBarPosition::Top => 0,
        TabBarPosition::Left => 1,
    }
}

pub fn tab_bar_index(p: TabBarPosition) -> (r: usize)
    ensures
        r == tab_bar_cell(p),
        (r == 0) == (p is Top),
        (r == 1) == (p is Left),
{
    match p {
        TabBarPosition::Top => 0,
        TabBarPosition::Left => 1,
    }
}

pub open spec fn tab_bar_of(ix: usize) -> TabBarPosition {
    if ix == 0 {
        TabBarPosition::Top
    } else {
        TabBarPosition::Left
    }
}

pub fn tab_bar_position_at(ix: usize) -> (r: TabBarPosition)
    ensures
        r == tab_bar_of(ix),
        (r is Top) == (ix == 0),
        (r is Left) == (ix >= 1),
{
    if ix == 0 {
        TabBarPosition::Top
    } else {
        TabBarPosition::Left
    }
}

pub open spec fn grouping_cell(g: SidebarGrouping) -> usize {
    match g {
        SidebarGrouping::Repo => 0,
        SidebarGrouping::RepoOrDirectory => 1,
        SidebarGrouping::Flat => 2,
    }
}

pub fn grouping_index(g: SidebarGrouping) -> (r: usize)
    ensures
        r == grouping_cell(g),
        (r == 0) == (g is Repo),
        (r == 1) == (g is RepoOrDirectory),
        (r == 2) == (g is Flat),
{
    match g {
        SidebarGrouping::Repo => 0,
        SidebarGrouping::RepoOrDirectory => 1,
        SidebarGrouping::Flat => 2,
    }
}

pub open spec fn grouping_of(ix: usize) -> SidebarGrouping {
    if ix == 0 {
        SidebarGrouping::Repo
    } else if ix == 1 {
        SidebarGrouping::RepoOrDirectory
    } else {
        SidebarGrouping::Flat
    }
}

pub fn sidebar_grouping_at(ix: usize) -> (r: SidebarGrouping)
    ensures
        r == grouping_of(ix),
        (r is Repo) == (ix == 0),
        (r is RepoOrDirectory) == (ix == 1),
        (r is Flat) == (ix >= 2),
{
    match ix {
        0 => SidebarGrouping::Repo,
        1 => SidebarGrouping::RepoOrDirectory,
        _ => SidebarGrouping::Flat,
    }
}

pub open spec fn channel_cell(c: UpdateChannel) -> usize {
    match c {
        UpdateChannel::Stable => 0,
        UpdateChannel::Nightly => 1,
    }
}

pub fn channel_index(c: UpdateChannel) -> (r: usize)
    ensures
        r == channel_cell(c),
        (r == 0) == (c is Stable),
        (r == 1) == (c is Nightly),
{
    match c {
        UpdateChannel::Stable => 0,
        UpdateChannel::Nightly => 1,
    }
}

pub open spec fn channel_of(ix: usize) -> UpdateChannel {
    if ix == 0 {
        UpdateChannel::Stable
    } else {
        UpdateChannel::Nightly
    }
}

pub fn update_channel_at(ix: usize) -> (r: UpdateChannel)
    ensures
        r == channel_of(ix),
        (r is Stable) == (ix == 0),
        (r is Nightly) == (ix >= 1),
{
    match ix {
        0 => UpdateChannel::Stable,
        _ => UpdateChannel::Nightly,
    }
}

/// The cell that is picked is the cell that is then highlighted, for every
/// segmented control.
pub proof fn a_picked_cell_is_highlighted(ix: usize, mac: bool)
    ensures
        ix < 3 ==> startup_cell(startup_of(ix)) == ix,
        ix < 3 ==> notify_cell(notify_of(ix)) == ix,
        ix < 3 ==> cursor_cell(cursor_of(ix)) == ix,
        ix < 3 ==> wd_cell(wd_of(ix)) == ix,
        ix < 3 ==> link_cell(link_of(ix)) == ix,
        ix < 4 ==> bell_cell(bell_of(ix)) == ix,
        ix < 3 || (ix == 3 && mac) ==> zoom_cell(zoom_of(ix, mac), mac) == ix,
        ix < 2 ==> new_tab_cell(new_tab_of(ix)) == ix,
        ix < 2 ==> tab_bar_cell(tab_bar_of(ix)) == ix,
        ix < 3 ==> grouping_cell(grouping_of(ix)) == ix,
        ix < 2 ==> channel_cell(channel_of(ix)) == ix,
{
}

/// Picking the cell that is highlighted changes nothing. The one value without
/// a cell of its own is Control off the Mac, where it is the platform's key.
pub proof fn picking_the_highlighted_cell_changes_nothing(config: Config, mac: bool)
    ensures
        startup_of(startup_cell(config.startup_mode)) == config.startup_mode,
        notify_of(notify_cell(config.notify_on_command_finish)) == config.notify_on_command_finish,
        cursor_of(cursor_cell(config.cursor_style)) == config.cursor_style,
        wd_of(wd_cell(config.wd_strategy)) == config.wd_strategy,
        link_of(link_cell(config.link_file_open)) == config.link_file_open,
        bell_of(bell_cell(config.bell)) == config.bell,
        mac || config.mouse_zoom_modifier != MouseZoomModifier::Ctrl ==> zoom_of(
            zoom_cell(config.mouse_zoom_modifier, mac),
            mac,
        ) == config.mouse_zoom_modifier,
        new_tab_of(new_tab_cell(config.new_tab_position)) == config.new_tab_position,
        tab_bar_of(tab_bar_cell(config.tab_bar_position)) == config.tab_bar_position,
        grouping_of(grouping_cell(config.sidebar_grouping)) == config.sidebar_grouping,
        channel_of(channel_cell(config.update_channel)) == config.update_channel,
{
}

/// The first bucket that holds exactly `value`.
pub open spec fn bucket_of(buckets: Seq<u64>, value: u64) -> Option<usize>
    decreases buckets.len(),
{
    if buckets.len() == 0 {
        None
    } else {
        match bucket_of(buckets.drop_last(), value) {
            Some(i) => Some(i),
            None => if buckets.last() == value {
                Some((buckets.len() - 1) as usize)
            } else {
                None
            },
        }
    }
}

/// Which bucket a value is highlighted in, and the value to name when it is in
/// none.
pub fn preset_choice(buckets: &Vec<u64>, value: u64) -> (r: (Option<usize>, Option<u64>))
    ensures
        r.0 == bucket_of(buckets@, value),
        r.1 == (if r.0 is None {
            Some(value)
        } else {
            None
        }),
{
    let mut found: Option<usize> = None;
    let mut i: usize = 0;
    assert(buckets@.take(0) =~= Seq::<u64>::empty());
    while i < buckets.len()
        invariant
            i <= buckets@.len(),
            found == bucket_of(buckets@.take(i as int), value),
        decreases buckets@.len() - i,
    {
        assert(buckets@.take(i + 1).drop_last() =~= buckets@.take(i as int));
        if found.is_none() && buckets[i] == value {
            found = Some(i);
        }
        i = i + 1;
    }
    assert(buckets@.take(buckets@.len() as int) =~= buckets@);
    match found {
        Some(ix) => (Some(ix), None),
        None => (None, Some(value)),
    }
}

proof fn lemma_bucket(buckets: Seq<u64>, value: u64)
    requires
        buckets.len() <= usize::MAX,
    ensures
        match bucket_of(buckets, value) {
            Some(i) => i < buckets.len() && buckets[i as int] == value,
            None => forall|k: int| 0 <= k < buckets.len() ==> #[trigger] buckets[k] != value,
        },
    decreases buckets.len(),
{
    if buckets.len() > 0 {
        let h = buckets.drop_last();
        lemma_bucket(h, value);
        if bucket_of(h, value) is None {
            assert forall|k: int| 0 <= k < buckets.len() && bucket_of(
                buckets,
                value,
            ) is None implies #[trigger] buckets[k] != value by {
                if k < h.len() {
                    assert(h[k] == buckets[k]);
                }
            }
        }
    }
}

/// A highlighted bucket holds exactly the value, and the value is named apart
/// exactly when no bucket holds it.
pub proof fn a_bucket_never_claims_another_value(buckets: Seq<u64>, value: u64)
    requires
        buckets.len() <= usize::MAX,
    ensures
        bucket_of(buckets, value) matches Some(i) ==> i < buckets.len() && buckets[i as int]
            == value,
        bucket_of(buckets, value) is None <==> !buckets.contains(value),
{
    lemma_bucket(buckets, value);
    match bucket_of(buckets, value) {
        Some(i) => {
            assert(buckets[i as int] == value);
        },
        None => {
            if buckets.contains(value) {
                let k = choose|k: int| 0 <= k < buckets.len() && buckets[k] == value;
                assert(buckets[k] != value);
            }
        },
    }
}

/// Whether the fonts' ligatures are on: contextual alternates are said to be
/// on, or the feature for ligatures is.
pub open spec fn has_ligatures(features: Option<FontFeatures>) -> bool {
    match features {
        Some(f) => f.calt == Some(true) || exists|i: int|
            0 <= i < f.tags@.len() && (#[trigger] f.tags@[i]).0@ == "liga"@ && f.tags@[i].1 != 0,
        None => false,
    }
}

pub fn ligatures_on(features: &Option<FontFeatures>) -> (r: bool)
    ensures
        r == has_ligatures(*features),
{
    match features {
        None => false,
        Some(f) => {
            let calt: bool = match f.calt {
                Some(on) => on,
                None => false,
            };
            if calt {
                return true;
            }
            let mut i: usize = 0;
            while i < f.tags.len()
                invariant
                    i <= f.tags@.len(),
                    *features == Some(*f),
                    forall|k: int|
                        0 <= k < i ==> !((#[trigger] f.tags@[k]).0@ == "liga"@ && f.tags@[k].1
                            != 0),
                decreases f.tags@.len() - i,
            {
                if text::same(f.tags[i].0.as_str(), "liga") && f.tags[i].1 != 0 {
                    return true;
                }
                i = i + 1;
            }
            false
        },
    }
}

/// Picking a cell sets what the cell reads, whatever was set before: the cells
/// stand in the order of their labels, and a place behind the last cell counts
/// as the last.
pub proof fn a_cell_sets_what_it_reads(ix: usize, mac: bool)
    ensures
        (startup_of(ix) is Normal) == (ix == 0),
        (startup_of(ix) is Maximized) == (ix == 1),
        (startup_of(ix) is Fullscreen) == (ix >= 2),
        (notify_of(ix) is Never) == (ix == 0),
        (notify_of(ix) is Unfocused) == (ix == 1),
        (notify_of(ix) is Always) == (ix >= 2),
        (cursor_of(ix) is Block) == (ix == 0),
        (cursor_of(ix) is Bar) == (ix == 1),
        (cursor_of(ix) is Underline) == (ix >= 2),
        (wd_of(ix) is Inherit) == (ix == 0),
        (wd_of(ix) is Home) == (ix == 1),
        (wd_of(ix) is Custom) == (ix >= 2),
        (link_of(ix) is Internal) == (ix == 0),
        (link_of(ix) is System) == (ix == 1),
        (link_of(ix) is Command) == (ix >= 2),
        (bell_of(ix) is Silent) == (ix == 0),
        (bell_of(ix) is Visual) == (ix == 1),
        (bell_of(ix) is Audible) == (ix == 2),
        (bell_of(ix) is Both) == (ix >= 3),
        (new_tab_of(ix) is AfterCurrent) == (ix == 0),
        (new_tab_of(ix) is End) == (ix >= 1),
        (tab_bar_of(ix) is Top) == (ix == 0),
        (tab_bar_of(ix) is Left) == (ix >= 1),
        (grouping_of(ix) is Repo) == (ix == 0),
        (grouping_of(ix) is RepoOrDirectory) == (ix == 1),
        (grouping_of(ix) is Flat) == (ix >= 2),
        (channel_of(ix) is Stable) == (ix == 0),
        (channel_of(ix) is Nightly) == (ix >= 1),
        (zoom_of(ix, mac) is Platform) == (ix == 0),
        (zoom_of(ix, mac) is Ctrl) == (mac && ix == 1),
        (zoom_of(ix, mac) is Alt) == (if mac {
            ix == 2
        } else {
            ix == 1
        }),
        (zoom_of(ix, mac) is Off) == (if mac {
            ix >= 3
        } else {
            ix >= 2
        }),
{
}

/// The cell that is highlighted is the one that reads what is set.
pub proof fn the_highlighted_cell_reads_what_is_set(config: Config)
    ensures
        (startup_cell(config.startup_mode) == 0) == (config.startup_mode is Normal),
        (startup_cell(config.startup_mode) == 1) == (config.startup_mode is Maximized),
        (startup_cell(config.startup_mode) == 2) == (config.startup_mode is Fullscreen),
        (notify_cell(config.notify_on_command_finish) == 0) == (config.notify_on_command_finish is Never),
        (notify_cell(config.notify_on_command_finish) == 1) == (config.notify_on_command_finish is Unfocused),
        (notify_cell(config.notify_on_command_finish) == 2) == (config.notify_on_command_finish is Always),
        (cursor_cell(config.cursor_style) == 0) == (config.cursor_style is Block),
        (cursor_cell(config.cursor_style) == 1) == (config.cursor_style is Bar),
        (cursor_cell(config.cursor_style) == 2) == (config.cursor_style is Underline),
        (wd_cell(config.wd_strategy) == 0) == (config.wd_strategy is Inherit),
        (wd_cell(config.wd_strategy) == 1) == (config.wd_strategy is Home),
        (wd_cell(config.wd_strategy) == 2) == (config.wd_strategy is Custom),
        (link_cell(config.link_file_open) == 0) == (config.link_file_open is Internal),
        (link_cell(config.link_file_open) == 1) == (config.link_file_open is System),
        (link_cell(config.link_file_open) == 2) == (config.link_file_open is Command),
        (bell_cell(config.bell) == 0) == (config.bell is Silent),
        (bell_cell(config.bell) == 1) == (config.bell is Visual),
        (bell_cell(config.bell) == 2) == (config.bell is Audible),
        (bell_cell(config.bell) == 3) == (config.bell is Both),
        (new_tab_cell(config.new_tab_position) == 0) == (config.new_tab_position is AfterCurrent),
        (new_tab_cell(config.new_tab_position) == 1) == (config.new_tab_position is End),
        (tab_bar_cell(config.tab_bar_position) == 0) == (config.tab_bar_position is Top),
        (tab_bar_cell(config.tab_bar_position) == 1) == (config.tab_bar_position is Left),
        (grouping_cell(config.sidebar_grouping) == 0) == (config.sidebar_grouping is Repo),
        (grouping_cell(config.sidebar_grouping) == 1) == (config.sidebar_grouping is RepoOrDirectory),
        (grouping_cell(config.sidebar_grouping) == 2) == (config.sidebar_grouping is Flat),
        (channel_cell(config.update_channel) == 0) == (config.update_channel is Stable),
        (channel_cell(config.update_channel) == 1) == (config.update_channel is Nightly),
{
}

/// The key for zooming is named on its own cell: on the Mac control, option
/// and none each have one behind the platform's key; elsewhere control is the
/// platform's key. The last cell always reads that there is none.
pub proof fn a_zoom_cell_names_its_key(modifier: MouseZoomModifier, mac: bool, off: Seq<char>)
    ensures
        modifier is Off ==> zoom_texts(mac, off)[zoom_cell(modifier, mac) as int] == off,
        modifier is Off ==> zoom_cell(modifier, mac) == zoom_texts(mac, off).len() - 1,
        mac && modifier is Platform ==> zoom_texts(mac, off)[zoom_cell(modifier, mac) as int]
            == "⌘"@,
        mac && modifier is Ctrl ==> zoom_texts(mac, off)[zoom_cell(modifier, mac) as int] == "⌃"@,
        mac && modifier is Alt ==> zoom_texts(mac, off)[zoom_cell(modifier, mac) as int] == "⌥"@,
        !mac && (modifier is Platform || modifier is Ctrl) ==> zoom_texts(mac, off)[zoom_cell(
            modifier,
            mac,
        ) as int] == "Ctrl"@,
        !mac && modifier is Alt ==> zoom_texts(mac, off)[zoom_cell(modifier, mac) as int] == "Alt"@,
{
}

/// Ligatures are on exactly where contextual alternates are said to be on, or
/// the feature for ligatures is.
pub proof fn ligatures_are_on_where_a_feature_is(features: Option<FontFeatures>, i: int)
    ensures
        features is None ==> !has_ligatures(features),
        features is Some && features->0.calt == Some(true) ==> has_ligatures(features),
        features is Some && 0 <= i < features->0.tags@.len() && features->0.tags@[i].0@ == "liga"@
            && features->0.tags@[i].1 != 0 ==> has_ligatures(features),
        features is Some && features->0.calt != Some(true) && (forall|k: int|
            0 <= k < features->0.tags@.len() ==> (#[trigger] features->0.tags@[k]).0@ != "liga"@
                || features->0.tags@[k].1 == 0) ==> !has_ligatures(features),
{
}

} // verus!
