//! The frame of the settings: the menus its controls open, the rows and groups
//! every page is made of, the rail, and the keys the page takes for itself.

use vstd::prelude::*;
use vstd::string::*;
use crate::agents::{AgentsState, HookAgent, Machine};
use crate::hosts::{HostFacts, HostsState};
use crate::shortcuts::{ActionKeys, ShortcutsState};
use crate::preferences::{Config, HostUsage, Platform, WindowBackdrop};
use crate::text;

verus! {

/// The pages of the settings.
#[derive(Clone, Copy, Debug, PartialEq, Eq, Structural)]
pub enum SettingsSection {
    General,
    Appearance,
    Terminal,
    KeyboardMouse,
    WindowTabs,
    Ssh,
    Agents,
    Keybindings,
    About,
}

impl SettingsSection {
    /// The page the rail marks: the shortcuts are reached from the keyboard's.
    pub open spec fn rail_page(self) -> SettingsSection {
        if self == SettingsSection::Keybindings {
            SettingsSection::KeyboardMouse
        } else {
            self
        }
    }

    pub fn navigation_section(self) -> (r: SettingsSection)
        ensures
            r == self.rail_page(),
    {
        if self == SettingsSection::Keybindings {
            SettingsSection::KeyboardMouse
        } else {
            self
        }
    }
}

/// The rows of the settings.
#[derive(Clone, Copy, Debug, PartialEq, Eq, Structural)]
pub enum RowKey {
    Language,
    DefaultTerminal,
    StartupWindow,
    RememberWindowSize,
    RestoreLastLayout,
    ShowTrayIcon,
    NotifyOnCommandFinish,
    NotifyThreshold,
    Theme,
    SyncWithSystem,
    LegiblePalette,
    SeedColor(u8),
    BackgroundImage,
    ImageOpacity,
    AnsiColors,
    FontFamily,
    FontSize,
    LineHeight,
    BoldFont,
    ItalicFont,
    FontLigatures,
    FontThicken,
    UiFontFamily,
    UiFontSize,
    CursorShape,
    CursorBlink,
    Opacity,
    Backdrop,
    Blur,
    DimInactivePanes,
    Program,
    Arguments,
    StartIn,
    CustomPath,
    PromptEditor,
    TabCompletion,
    HistorySearch,
    PerPaneHistory,
    Scrollback,
    ScrollSpeed,
    SmoothScroll,
    TerminalBell,
    DetectUrls,
    ForwardSshLoopbackLinks,
    OpenFilesWith,
    OpenFilesCommand,
    Keybindings,
    SmartSelection,
    CopyOnSelect,
    TrimTrailingSpaces,
    OptionAsMeta,
    FocusFollowsMouse,
    HideMouseWhileTyping,
    ReportMouseToApps,
    MouseZoom,
    NewTabPosition,
    TabBarPosition,
    SidebarGrouping,
    DiffPreviewFromCounts,
    VerifyHostKeys,
    WarnBeforeClosing,
    InstallCliOnPath,
    Agent(HookAgent),
    Version,
    UpdateFailed,
    UpdateReady,
    UpdateAvailable,
    SettingsFile,
    AutoDownload,
    CheckUpdatesOnLaunch,
    UpdateChannel,
    HttpProxy,
    Server,
}

/// What a row says under its name.
#[derive(Clone, Copy, Debug, PartialEq, Eq, Structural)]
pub enum RowDesc {
    /// What it always says.
    Standing,
    Blank,
    /// What it always says, and that the prompt editor is needed.
    NeedsPromptEditor,
    FollowsSystem,
    AlwaysLight,
    AlwaysDark,
    /// That the automatic backdrop goes by this switch.
    BlurOfAuto,
    /// The version, with how the update is going or without.
    Version { phase: bool },
    FailureDetail,
    NextLaunch,
    InstallHint,
    FilePath,
    StaleServer { in_place: bool },
}

/// How a button is drawn.
#[derive(Clone, Copy, Debug, PartialEq, Eq, Structural)]
pub enum BtnKind {
    Secondary,
    Primary,
    Link,
    Danger,
}

/// What a button does.
#[derive(Clone, Copy, Debug, PartialEq, Eq, Structural)]
pub enum BtnKey {
    SetDefaultTerminal,
    EditShortcuts,
    OpenSetting,
    CancelDownload,
    CheckForUpdates,
    /// The same button while a check is under way.
    CheckingForUpdates,
    DismissFailure,
    DownloadManually,
    RetryUpdate,
    DiscardUpdate,
    InstallUpdate,
    UpdateAndRelaunch,
    ViewRelease,
    RevealFile,
    RestartServer,
    RemoveImage,
    ChooseImage,
    ChangeImage,
    SaveTheme,
    CancelTheme,
    RetrySave,
    InstallHooks,
    UpdateHooks,
    ShowAll,
    ShowFewer,
    ImportHosts,
    AddHost,
    ConnectHost,
    EditHost,
    CopyCommand,
    Copied,
    SaveHost,
    Cancel,
    RemoveHost,
    ConfirmRemove,
    RestoreShortcuts,
    ReplaceShortcut,
    ResetShortcut,
}

/// A button: a dimmed one can still be clicked, a disabled one not.
#[derive(Clone, Copy, Debug, PartialEq, Eq, Structural)]
pub struct Btn {
    pub key: BtnKey,
    pub kind: BtnKind,
    pub disabled: bool,
    pub dimmed: bool,
}

/// A button as it is drawn at rest.
pub open spec fn button_of(key: BtnKey, kind: BtnKind) -> Btn {
    Btn { key, kind, disabled: false, dimmed: false }
}

impl Btn {
    pub fn new(key: BtnKey, kind: BtnKind) -> (r: Btn)
        ensures
            r == button_of(key, kind),
    {
        Btn { key, kind, disabled: false, dimmed: false }
    }

    pub fn disabled(self, disabled: bool) -> (r: Btn)
        ensures
            r == (Btn { disabled, ..self }),
    {
        Btn { disabled, ..self }
    }

    pub fn dimmed(self, dimmed: bool) -> (r: Btn)
        ensures
            r == (Btn { dimmed, ..self }),
    {
        Btn { dimmed, ..self }
    }
}

/// The fonts that can be chosen.
#[derive(Clone, Copy, Debug, PartialEq, Eq, Structural)]
pub enum FontSlot {
    Regular,
    Bold,
    Italic,
    Interface,
}

/// The quantities a row steps or slides through.
#[derive(Clone, Copy, Debug, PartialEq, Eq, Structural)]
pub enum Quantity {
    FontSize,
    LineHeight,
    UiFontSize,
    WindowOpacity,
    ScrollSpeed,
    ImageOpacity,
}

/// What a row is set with.
#[derive(Clone, Copy, Debug, PartialEq, Eq, Structural)]
pub enum Control {
    Switch { on: bool, disabled: bool },
    /// The highlighted cell, or the value that no cell holds.
    Segments { selected: Option<usize>, custom: Option<u64> },
    Languages,
    Fonts(FontSlot),
    Stepper(Quantity),
    Slider(Quantity),
    ThemeModes,
    Backdrops,
    ShellProgram,
    TextField { invalid: bool },
    ColorPicker,
    AnsiGrid,
    Button(Btn),
    Buttons { first: Option<Btn>, second: Option<Btn>, last: Btn },
}

impl Control {
    /// What a click on a switch sets it to; nothing when it is disabled.
    pub fn toggled(&self) -> (r: Option<bool>)
        ensures
            r == (match *self {
                Control::Switch { on, disabled } => if disabled {
                    None
                } else {
                    Some(!on)
                },
                _ => None,
            }),
    {
        match self {
            Control::Switch { on, disabled } => if *disabled {
                None
            } else {
                Some(!*on)
            },
            _ => None,
        }
    }
}

/// The ring of a text field.
#[derive(Clone, Copy, Debug, PartialEq, Eq, Structural)]
pub enum FieldRing {
    Rest,
    Focused,
    Danger,
}

/// The ring of a text field: an error outranks the focus.
pub fn text_field(focused: bool, invalid: bool) -> (r: FieldRing)
    ensures
        r == (if invalid {
            FieldRing::Danger
        } else if focused {
            FieldRing::Focused
        } else {
            FieldRing::Rest
        }),
{
    if invalid {
        FieldRing::Danger
    } else if focused {
        FieldRing::Focused
    } else {
        FieldRing::Rest
    }
}

/// What a changed row shows beside its name: a way back, or only that it was
/// changed.
#[derive(Clone, Copy, Debug, PartialEq, Eq, Structural)]
pub enum RowMark {
    Unchanged,
    Reset,
    Modified,
}

/// A row of a page.
#[derive(Clone, Copy, Debug, PartialEq, Eq, Structural)]
pub struct Row {
    pub key: RowKey,
    pub desc: RowDesc,
    pub control: Control,
    /// Greyed out, because another setting has switched it off.
    pub gated: bool,
    pub mark: RowMark,
    /// Whether a search found it, or it was asked for.
    pub hit: bool,
    /// Whether a search found others on the page and not this one.
    pub miss: bool,
}

/// The headings of groups.
#[derive(Clone, Copy, Debug, PartialEq, Eq, Structural)]
pub enum HeadKey {
    StartupRestore,
    Notifications,
    Theme,
    EditTheme,
    TerminalFont,
    InterfaceFont,
    Cursor,
    Transparency,
    Shell,
    Prompt,
    Scrolling,
    Bell,
    Links,
    SelectionClipboard,
    Keyboard,
    Mouse,
    Tabs,
    Updates,
    Hosts,
    Security,
    Agents,
    CommandLine,
}

/// The sentences under headings.
#[derive(Clone, Copy, Debug, PartialEq, Eq, Structural)]
pub enum GroupDesc {
    Security,
    Hosts,
    Agents,
    Prompt,
    /// Which shell is started when none is named.
    ShellDefault { powershell: bool },
    EditTheme,
}

/// A line of a group: a row, or something between rows.
#[derive(Clone, Copy, Debug, PartialEq, Eq, Structural)]
pub enum Line {
    Row(Row),
    ThemeSlot { dark: bool, desc: SlotDesc },
    FollowTheme,
    ShellFooter,
    ThemesFolder,
    AboutText,
}

/// What a theme's row says under its name.
#[derive(Clone, Copy, Debug, PartialEq, Eq, Structural)]
pub enum SlotDesc {
    ByDay,
    ByNight,
    Always,
}

/// A group of lines under a heading.
#[derive(Debug)]
pub struct Group {
    pub title: Option<HeadKey>,
    pub desc: Option<GroupDesc>,
    pub body: Vec<Line>,
}

#[verifier::ext_equal]
pub struct GroupLines {
    pub title: Option<HeadKey>,
    pub desc: Option<GroupDesc>,
    pub body: Seq<Line>,
}

impl View for Group {
    type V = GroupLines;

    open spec fn view(&self) -> GroupLines {
        GroupLines { title: self.title, desc: self.desc, body: self.body@ }
    }
}

/// A page: its groups from top to bottom.
#[derive(Debug)]
pub struct Page {
    pub groups: Vec<Group>,
}

impl View for Page {
    type V = Seq<GroupLines>;

    open spec fn view(&self) -> Seq<GroupLines> {
        Seq::new(self.groups@.len(), |i: int| self.groups@[i]@)
    }
}

/// A setting the search knows: what it is called, the page it is on, and of
/// the search under way whether it is found and how well.
#[derive(Clone, Copy, Debug, PartialEq, Eq, Structural)]
pub struct SearchEntry {
    pub title: RowKey,
    pub section: SettingsSection,
    pub matches: bool,
    pub rank: u64,
    /// Whether it differs from what it is by default.
    pub modified: bool,
}

/// The words of a menu that are not names.
#[derive(Clone, Copy, Debug, PartialEq, Eq, Structural)]
pub enum Word {
    Reinstall,
    RevealHookFile,
    Uninstall,
    LoginShell,
    PowerShell,
    ConnectedMachines,
}

/// What a menu's line reads.
#[derive(Debug)]
pub enum Label {
    Word(Word),
    Text(String),
}

/// The same with its text as a sequence.
pub enum LabelView {
    Word(Word),
    Text(Seq<char>),
}

impl View for Label {
    type V = LabelView;

    open spec fn view(&self) -> LabelView {
        match *self {
            Label::Word(w) => LabelView::Word(w),
            Label::Text(s) => LabelView::Text(s@),
        }
    }
}

/// What picking a menu's line does.
#[derive(Clone, Copy, Debug, PartialEq, Eq, Structural)]
pub enum Pick {
    Language(usize),
    DefaultShell,
    Shell(usize),
    Machine(usize),
    Backdrop(usize),
    ReinstallHooks,
    RevealHooks,
    UninstallHooks,
}

/// A line of a menu.
#[derive(Debug)]
pub enum MenuEntry {
    Item { label: Label, checked: bool, danger: bool, trailing: Option<usize>, pick: Pick },
    Heading(Word),
    Separator,
    /// How many machines are out of reach.
    OfflineNote(usize),
}

/// The same with its texts as sequences.
pub enum EntryView {
    Item { label: LabelView, checked: bool, danger: bool, trailing: Option<usize>, pick: Pick },
    Heading(Word),
    Separator,
    OfflineNote(usize),
}

impl View for MenuEntry {
    type V = EntryView;

    open spec fn view(&self) -> EntryView {
        match *self {
            MenuEntry::Item { label, checked, danger, trailing, pick } => EntryView::Item {
                label: label@,
                checked,
                danger,
                trailing,
                pick,
            },
            MenuEntry::Heading(w) => EntryView::Heading(w),
            MenuEntry::Separator => EntryView::Separator,
            MenuEntry::OfflineNote(n) => EntryView::OfflineNote(n),
        }
    }
}

pub open spec fn entry_views(v: Seq<MenuEntry>) -> Seq<EntryView> {
    Seq::new(v.len(), |i: int| v[i]@)
}

/// A plain item of a menu.
pub open spec fn plain_item(label: LabelView, checked: bool, pick: Pick) -> EntryView {
    EntryView::Item { label, checked, danger: false, trailing: None, pick }
}

impl MenuEntry {
    /// A plain item.
    pub fn item(label: Label, checked: bool, pick: Pick) -> (r: MenuEntry)
        ensures
            r@ == plain_item(label@, checked, pick),
    {
        MenuEntry::Item { label, checked, danger: false, trailing: None, pick }
    }
}

/// A row of a menu's panel, under an id of its own.
#[derive(Debug)]
pub struct MenuRow {
    pub id: String,
    pub entry: MenuEntry,
}

/// The id of the row at `i` of the menu `id`.
pub open spec fn menu_row_id(id: Seq<char>, i: nat) -> Seq<char> {
    id + "-item-"@ + text::decimal(i)
}

/// `rows` are the lines of the menu `id`, each under its own id.
pub open spec fn are_menu_rows(rows: Seq<MenuRow>, id: Seq<char>, entries: Seq<EntryView>) -> bool {
    rows.len() == entries.len() && forall|i: int|
        0 <= i < rows.len() ==> (#[trigger] rows[i]).entry@ == entries[i] && rows[i].id@
            == menu_row_id(id, i as nat)
}

/// A control that opens a menu: whether it is open, the row the arrow keys
/// start from, and while open the menu.
#[derive(Debug)]
pub struct Dropdown {
    pub open: bool,
    pub start: usize,
    pub panel: Option<Vec<MenuRow>>,
}

pub open spec fn is_checked(e: EntryView) -> bool {
    e matches EntryView::Item { checked, .. } && checked
}

/// The place of the first checked item, or the front.
pub open spec fn checked_at(entries: Seq<EntryView>) -> usize
    decreases entries.len(),
{
    if entries.len() == 0 {
        0
    } else if exists|i: int| 0 <= i < entries.len() - 1 && is_checked(#[trigger] entries[i]) {
        checked_at(entries.drop_last())
    } else if is_checked(entries.last()) {
        (entries.len() - 1) as usize
    } else {
        0
    }
}

/// An option of a menu with a query box.
#[derive(Debug)]
pub struct SearchOption {
    pub label: String,
    /// The family the label is drawn in.
    pub font: Option<String>,
}

/// A row of a menu with a query box.
#[derive(Clone, Copy, Debug, PartialEq, Eq, Structural)]
pub struct SearchRow {
    pub option: usize,
    pub highlighted: bool,
    pub checked: bool,
}

/// A control that opens a menu with a query box.
#[derive(Debug)]
pub struct SearchMenu {
    pub open: bool,
    pub start: usize,
    /// The rows the query leaves; empty ones are said to be none.
    pub rows: Option<Vec<SearchRow>>,
}

/// The places of the labels that hold the query, in any case.
pub open spec fn visible_options(labels: Seq<Seq<char>>, query: Seq<char>) -> Seq<usize>
    decreases labels.len(),
{
    if labels.len() == 0 {
        Seq::empty()
    } else if query.len() == 0 || text::occurs(text::lower_of(labels.last()), query) {
        visible_options(labels.drop_last(), query).push((labels.len() - 1) as usize)
    } else {
        visible_options(labels.drop_last(), query)
    }
}

pub open spec fn option_labels(options: Seq<SearchOption>) -> Seq<Seq<char>> {
    Seq::new(options.len(), |i: int| options[i].label@)
}

/// A highlight kept within `len` rows.
pub open spec fn clamped(hi: usize, len: nat) -> usize {
    if len == 0 {
        0
    } else if hi < len {
        hi
    } else {
        (len - 1) as usize
    }
}

pub fn clamp(hi: usize, len: usize) -> (r: usize)
    ensures
        r == clamped(hi, len as nat),
{
    if len == 0 {
        0
    } else if hi < len {
        hi
    } else {
        len - 1
    }
}

/// The rows of a menu with a query box.
pub open spec fn search_rows(visible: Seq<usize>, hi: usize, current: Option<usize>) -> Seq<
    SearchRow,
> {
    Seq::new(
        visible.len(),
        |i: int|
            SearchRow {
                option: visible[i],
                highlighted: i == clamped(hi, visible.len()),
                checked: current == Some(visible[i]),
            },
    )
}

/// The keys a menu takes.
#[derive(Clone, Copy, Debug, PartialEq, Eq, Structural)]
pub enum MenuKey {
    Up,
    Down,
    Enter,
    Escape,
}

/// Where the focus goes.
#[derive(Clone, Copy, Debug, PartialEq, Eq, Structural)]
pub enum FocusStep {
    Stays,
    Page,
    QueryBox,
}

/// A cell of a segmented control. One without a bucket only names the value
/// and cannot be clicked.
#[derive(Debug)]
pub struct SegmentCell {
    pub label: String,
    pub bucket: Option<usize>,
    pub active: bool,
}

#[verifier::ext_equal]
pub struct CellView {
    pub label: Seq<char>,
    pub bucket: Option<usize>,
    pub active: bool,
}

impl View for SegmentCell {
    type V = CellView;

    open spec fn view(&self) -> CellView {
        CellView { label: self.label@, bucket: self.bucket, active: self.active }
    }
}

pub open spec fn cell_views(v: Seq<SegmentCell>) -> Seq<CellView> {
    Seq::new(v.len(), |i: int| v[i]@)
}

/// The cells of a segmented control: one per option, and behind them the one
/// that names a value no option has.
pub open spec fn cells_of(
    options: Seq<Seq<char>>,
    selected: Option<usize>,
    custom: Option<Seq<char>>,
) -> Seq<CellView> {
    let cells = Seq::new(
        options.len(),
        |i: int|
            CellView {
                label: options[i],
                bucket: Some(i as usize),
                active: selected == Some(i as usize),
            },
    );
    match custom {
        Some(label) => cells.push(CellView { label, bucket: None, active: selected is None }),
        None => cells,
    }
}

/// What is typed into the fields of the pages, and whether it can be saved.
#[derive(Debug)]
pub struct FieldTexts {
    pub shell_program: String,
    pub shell_args_valid: bool,
    pub wd_path_saveable: bool,
    pub http_proxy: String,
    pub http_proxy_valid: bool,
}

/// The settings while they are open.
#[derive(Debug)]
pub struct SettingsState {
    pub section: SettingsSection,
    pub search: String,
    pub search_active: bool,
    pub modified_only: bool,
    pub search_selection: usize,
    pub focused_setting: Option<RowKey>,
    pub reveal_first_hit: bool,
    /// The menu that is open.
    pub menu: Option<String>,
    pub menu_hi: usize,
    pub menu_query: String,
    /// The field that has the focus.
    pub focused_input: Option<u64>,
    pub font_names: Vec<String>,
    pub fields: FieldTexts,
    /// How many seed colors the theme under edit has.
    pub theme_editor: Option<u8>,
    pub theme_draft_dirty: bool,
    pub theme_draft_error: Option<String>,
    pub save_error: Option<String>,
    pub ssh: HostsState,
    pub agents: AgentsState,
    pub keys: ShortcutsState,
}

/// What the settings are drawn from.
#[derive(Debug)]
pub struct Tty7App {
    pub config: Config,
    pub platform: Platform,
    pub settings: Option<SettingsState>,
    /// The settings the search knows.
    pub catalog: Vec<SearchEntry>,
    /// The pages in the order the rail lists them.
    pub sections: Vec<SettingsSection>,
    /// The actions that have keys, and whether the search finds them.
    pub bindings: Vec<BindingHit>,
    /// How often and how lately each host was used, at most once each.
    pub ssh_profile_frecency: Vec<HostUsage>,
    pub facts: PageFacts,
}

/// A language the interface can be read in.
#[derive(Debug)]
pub struct Language {
    pub code: String,
    pub label: String,
}

/// A shell the picker can offer.
#[derive(Debug)]
pub struct InventoryShell {
    pub label: String,
    pub program: String,
    /// Whether it was written by the user, with arguments of its own.
    pub user_authored: bool,
}

/// How an update is going.
#[derive(Clone, Copy, Debug, PartialEq, Eq, Structural)]
pub enum UpdatePhase {
    Idle,
    Checking,
    Downloading,
    Verifying,
    Installing,
    UpToDate,
    Other,
}

/// An update that was downloaded.
#[derive(Clone, Copy, Debug, PartialEq, Eq, Structural)]
pub struct PendingUpdate {
    pub apply_on_launch: bool,
    /// Whether what was downloaded is still there.
    pub usable: bool,
}

/// An update that could be had.
#[derive(Clone, Copy, Debug, PartialEq, Eq, Structural)]
pub struct AvailableUpdate {
    pub installable: bool,
    /// Whether it says how it is installed.
    pub has_hint: bool,
}

#[derive(Clone, Copy, Debug, PartialEq, Eq, Structural)]
pub struct UpdateStatus {
    pub phase: UpdatePhase,
    /// Whether the phase has words of its own.
    pub phase_has_text: bool,
    pub ready: Option<PendingUpdate>,
    pub failed: bool,
    pub available: Option<AvailableUpdate>,
}

/// A theme.
#[derive(Debug)]
pub struct Theme {
    pub id: String,
    pub name: String,
    pub dark: bool,
    /// Whether it comes from a file of the user's.
    pub custom: bool,
}

/// What the pages show beside the preferences.
#[derive(Debug)]
pub struct PageFacts {
    /// The language the interface is in.
    pub language: String,
    pub languages: Vec<Language>,
    pub notify_buckets: Vec<u64>,
    pub scrollback_buckets: Vec<u64>,
    pub shells: Vec<InventoryShell>,
    /// The backdrops there are to choose from, and what they are called.
    pub backdrops: Vec<(WindowBackdrop, String)>,
    /// Whether the window departs from what its theme says.
    pub window_overridden: bool,
    /// Whether the theme in use blurs the window.
    pub theme_blur: bool,
    /// Whether the theme in use has a background image.
    pub theme_image: bool,
    /// What is known of each saved host.
    pub hosts: Vec<HostFacts>,
    /// The saved hosts by how often and how lately they were used.
    pub by_frecency: Vec<usize>,
    /// The hosts that are connected to right now.
    pub live: Vec<u128>,
    /// Every action, with the keys it has.
    pub actions: Vec<ActionKeys>,
    /// The groups of actions, in the order they are listed.
    pub action_groups: Vec<u32>,
    /// Every agent that has hooks, in the order they are listed.
    pub hook_agents: Vec<HookAgent>,
    /// The machines that can be reached.
    pub machines: Vec<Machine>,
    /// How many machines cannot be reached.
    pub offline_machines: usize,
    pub themes: Vec<Theme>,
    /// The theme that stands in for one that is missing.
    pub fallback_theme: Theme,
    /// How many files of themes could not be read.
    pub rejected_themes: usize,
    pub update: UpdateStatus,
    /// Whether there is a file of settings to show.
    pub settings_file: bool,
    /// Whether the server runs another build.
    pub stale_server: bool,
    /// Whether the server can hand its panes over.
    pub server_hands_over: bool,
}

/// An action that has keys, and whether the search under way finds it.
#[derive(Debug)]
pub struct BindingHit {
    pub action: String,
    pub matches: bool,
}

/// Whether the menu `id` is the one that is open.
pub open spec fn menu_is(settings: Option<SettingsState>, id: Seq<char>) -> bool {
    settings matches Some(s) && s.menu matches Some(m) && m@ == id
}

/// What toggling the menu `id` does to the settings.
pub open spec fn menu_toggled(
    s: SettingsState,
    id: Seq<char>,
    highlight: usize,
    t: SettingsState,
) -> bool {
    if s.menu matches Some(m) && m@ == id {
        t == (SettingsState { menu: None, ..s })
    } else {
        &&& t == (SettingsState {
            menu: t.menu,
            menu_hi: highlight,
            menu_query: t.menu_query,
            ..s
        })
        &&& t.menu matches Some(m) && m@ == id
        &&& t.menu_query@.len() == 0
    }
}

/// The place of the entry that a row is searched by.
pub open spec fn entry_at(catalog: Seq<SearchEntry>, key: RowKey) -> Option<int>
    decreases catalog.len(),
{
    if catalog.len() == 0 {
        None
    } else {
        match entry_at(catalog.drop_last(), key) {
            Some(i) => Some(i),
            None => if catalog.last().title == key {
                Some(catalog.len() - 1)
            } else {
                None
            },
        }
    }
}

/// What a row shows of having been changed: the list of shortcuts and the
/// theme have no one value to go back to.
pub open spec fn mark_of(catalog: Seq<SearchEntry>, key: RowKey) -> RowMark {
    match entry_at(catalog, key) {
        Some(i) => if !catalog[i].modified {
            RowMark::Unchanged
        } else if key == RowKey::Keybindings || key == RowKey::Theme {
            RowMark::Modified
        } else {
            RowMark::Reset
        },
        None => RowMark::Unchanged,
    }
}

/// How many settings of a page the search finds.
pub open spec fn section_match_count(catalog: Seq<SearchEntry>, section: SettingsSection) -> nat
    decreases catalog.len(),
{
    if catalog.len() == 0 {
        0
    } else {
        section_match_count(catalog.drop_last(), section) + (if catalog.last().section == section
            && catalog.last().matches {
            1nat
        } else {
            0
        })
    }
}

/// Whether the search finds the row on the page.
pub open spec fn row_matches(
    catalog: Seq<SearchEntry>,
    section: SettingsSection,
    key: RowKey,
) -> bool {
    exists|i: int|
        0 <= i < catalog.len() && (#[trigger] catalog[i]).section == section && catalog[i].title
            == key && catalog[i].matches
}

/// Whether a row is picked out, and whether it is dimmed: with something
/// searched for that is on the page, the rows that are found and the others;
/// else the row that was asked for.
pub open spec fn hit_and_miss(app: Tty7App, key: RowKey) -> (bool, bool) {
    match app.settings {
        Some(s) => if s.search_active {
            (false, false)
        } else if text::query_of(s.search@).len() == 0 || section_match_count(app.catalog@, s.section)
            == 0 {
            (s.focused_setting == Some(key), false)
        } else {
            (
                row_matches(app.catalog@, s.section, key),
                !row_matches(app.catalog@, s.section, key),
            )
        },
        None => (false, false),
    }
}

/// The row `key`.
pub open spec fn row_of(
    app: Tty7App,
    key: RowKey,
    desc: RowDesc,
    control: Control,
    gated: bool,
) -> Row {
    Row {
        key,
        desc,
        control,
        gated,
        mark: mark_of(app.catalog@, key),
        hit: hit_and_miss(app, key).0,
        miss: hit_and_miss(app, key).1,
    }
}

/// A plain row with its standing description.
pub open spec fn plain_row(app: Tty7App, key: RowKey, control: Control) -> Line {
    Line::Row(row_of(app, key, RowDesc::Standing, control, false))
}

pub open spec fn switch_of(on: bool) -> Control {
    Control::Switch { on, disabled: false }
}

pub open spec fn segments_of(selected: usize) -> Control {
    Control::Segments { selected: Some(selected), custom: None }
}

pub fn find_entry(catalog: &Vec<SearchEntry>, key: RowKey) -> (r: Option<usize>)
    ensures
        match r {
            Some(i) => entry_at(catalog@, key) == Some(i as int) && i < catalog@.len()
                && catalog@[i as int].title == key,
            None => entry_at(catalog@, key) is None,
        },
{
    let mut found: Option<usize> = None;
    let mut i: usize = 0;
    assert(catalog@.take(0) =~= Seq::<SearchEntry>::empty());
    while i < catalog.len()
        invariant
            i <= catalog@.len(),
            match found {
                Some(k) => entry_at(catalog@.take(i as int), key) == Some(k as int) && k < i
                    && catalog@[k as int].title == key,
                None => entry_at(catalog@.take(i as int), key) is None,
            },
        decreases catalog@.len() - i,
    {
        assert(catalog@.take(i + 1).drop_last() =~= catalog@.take(i as int));
        if found.is_none() && catalog[i].title == key {
            found = Some(i);
        }
        i = i + 1;
    }
    assert(catalog@.take(catalog@.len() as int) =~= catalog@);
    found
}

pub fn any_match(catalog: &Vec<SearchEntry>, section: SettingsSection) -> (r: bool)
    ensures
        r == (section_match_count(catalog@, section) > 0),
{
    let mut found: bool = false;
    let mut i: usize = 0;
    assert(catalog@.take(0) =~= Seq::<SearchEntry>::empty());
    while i < catalog.len()
        invariant
            i <= catalog@.len(),
            found == (section_match_count(catalog@.take(i as int), section) > 0),
        decreases catalog@.len() - i,
    {
        assert(catalog@.take(i + 1).drop_last() =~= catalog@.take(i as int));
        if catalog[i].section == section && catalog[i].matches {
            found = true;
        }
        i = i + 1;
    }
    assert(catalog@.take(catalog@.len() as int) =~= catalog@);
    found
}

fn row_is_found(catalog: &Vec<SearchEntry>, section: SettingsSection, key: RowKey) -> (r: bool)
    ensures
        r == row_matches(catalog@, section, key),
{
    let mut i: usize = 0;
    while i < catalog.len()
        invariant
            i <= catalog@.len(),
            forall|k: int|
                0 <= k < i ==> !((#[trigger] catalog@[k]).section == section && catalog@[k].title
                    == key && catalog@[k].matches),
        decreases catalog@.len() - i,
    {
        if catalog[i].section == section && catalog[i].title == key && catalog[i].matches {
            assert(catalog@[i as int].matches);
            return true;
        }
        i = i + 1;
    }
    false
}

impl Tty7App {
    pub fn settings_menu_open(&self, id: &str) -> (r: bool)
        ensures
            r == menu_is(self.settings, id@),
    {
        match &self.settings {
            Some(s) => match &s.menu {
                Some(m) => text::same(m.as_str(), id),
                None => false,
            },
            None => false,
        }
    }

    /// Open the menu `id`, in place of the one that is open, or close it when
    /// it is that one.
    pub fn toggle_settings_menu(&mut self, id: &str, highlight: usize, with_query: bool) -> (r:
        FocusStep)
        ensures
            *final(self) == (Tty7App { settings: final(self).settings, ..*old(self) }),
            match old(self).settings {
                None => final(self).settings is None && r == FocusStep::Stays,
                Some(s) => {
                    &&& final(self).settings matches Some(t)
                    &&& menu_toggled(s, id@, highlight, t)
                    &&& r == (if menu_is(old(self).settings, id@) {
                        FocusStep::Page
                    } else if with_query {
                        FocusStep::QueryBox
                    } else {
                        FocusStep::Stays
                    })
                },
            },
    {
        let open: bool = self.settings_menu_open(id);
        match &mut self.settings {
            None => FocusStep::Stays,
            Some(s) => {
                if open {
                    s.menu = None;
                    return FocusStep::Page;
                }
                s.menu = Some(text::owned(id));
                s.menu_hi = highlight;
                s.menu_query = String::new();
                if with_query {
                    FocusStep::QueryBox
                } else {
                    FocusStep::Stays
                }
            },
        }
    }

    pub fn close_settings_menu(&mut self) -> (r: FocusStep)
        ensures
            *final(self) == (Tty7App { settings: final(self).settings, ..*old(self) }),
            match old(self).settings {
                None => final(self).settings is None && r == FocusStep::Stays,
                Some(s) => final(self).settings == Some(SettingsState { menu: None, ..s }) && r == (
                if s.menu is Some {
                    FocusStep::Page
                } else {
                    FocusStep::Stays
                }),
            },
    {
        match &mut self.settings {
            None => FocusStep::Stays,
            Some(s) => {
                let open: bool = s.menu.is_some();
                s.menu = None;
                if open {
                    FocusStep::Page
                } else {
                    FocusStep::Stays
                }
            },
        }
    }

    /// The rows of a menu's panel.
    pub fn settings_menu_panel(&self, id: &str, entries: Vec<MenuEntry>) -> (r: Vec<MenuRow>)
        ensures
            are_menu_rows(r@, id@, entry_views(entries@)),
    {
        let ghost want = entry_views(entries@);
        let mut out: Vec<MenuRow> = Vec::new();
        let mut rest = entries;
        let total: usize = rest.len();
        let mut i: usize = 0;
        while i < total
            invariant
                i <= total == want.len(),
                rest@.len() == total - i,
                forall|k: int| 0 <= k < rest@.len() ==> (#[trigger] rest@[k])@ == want[i + k],
                are_menu_rows(out@, id@, want.take(i as int)),
            decreases total - i,
        {
            let ghost before = rest@;
            let entry = rest.remove(0);
            assert(entry == before[0]);
            let mut row_id = text::owned(id);
            row_id.append("-item-");
            let n = text::decimal_of(i as u128);
            row_id.append(n.as_str());
            out.push(MenuRow { id: row_id, entry });
            i = i + 1;
        }
        assert(want.take(total as int) =~= want);
        out
    }

    fn first_checked(entries: &Vec<MenuEntry>) -> (r: usize)
        ensures
            r == checked_at(entry_views(entries@)),
    {
        let ghost views = entry_views(entries@);
        let mut found: Option<usize> = None;
        let mut i: usize = 0;
        while i < entries.len()
            invariant
                i <= entries@.len(),
                views == entry_views(entries@),
                match found {
                    Some(k) => k < i && is_checked(views[k as int]) && checked_at(
                        views.take(i as int),
                    ) == k,
                    None => checked_at(views.take(i as int)) == 0 && forall|k: int|
                        0 <= k < i ==> !is_checked(#[trigger] views[k]),
                },
            decreases entries@.len() - i,
        {
            let checked: bool = match &entries[i] {
                MenuEntry::Item { checked, .. } => *checked,
                _ => false,
            };
            proof {
                let v = views.take(i + 1);
                assert(v.drop_last() =~= views.take(i as int));
                assert(v.last() == views[i as int]);
                assert(checked == is_checked(views[i as int]));
                if found is Some {
                    assert(is_checked(v[found->0 as int]));
                }
            }
            if found.is_none() && checked {
                found = Some(i);
            }
            i = i + 1;
        }
        assert(views.take(views.len() as int) =~= views);
        match found {
            Some(k) => k,
            None => 0,
        }
    }

    /// A control that opens a menu. The arrow keys start from the first
    /// checked item.
    pub fn settings_dropdown(&self, id: &str, entries: Vec<MenuEntry>) -> (r: Dropdown)
        ensures
            r.open == menu_is(self.settings, id@),
            r.start == checked_at(entry_views(entries@)),
            match r.panel {
                Some(rows) => r.open && are_menu_rows(rows@, id@, entry_views(entries@)),
                None => !r.open,
            },
    {
        let open: bool = self.settings_menu_open(id);
        let start: usize = Self::first_checked(&entries);
        let panel = if open {
            Some(self.settings_menu_panel(id, entries))
        } else {
            None
        };
        Dropdown { open, start, panel }
    }

    /// A control that opens a menu with a query box over `options`.
    pub fn settings_search_dropdown(
        &self,
        id: &str,
        options: &Vec<SearchOption>,
        current: Option<usize>,
    ) -> (r: SearchMenu)
        ensures
            r.open == menu_is(self.settings, id@),
            r.start == (match current {
                Some(i) => i,
                None => 0,
            }),
            match r.rows {
                Some(rows) => r.open && rows@ == search_rows(
                    visible_options(
                        option_labels(options@),
                        text::query_of(self.settings->0.menu_query@),
                    ),
                    self.settings->0.menu_hi,
                    current,
                ),
                None => !r.open,
            },
    {
        let open: bool = self.settings_menu_open(id);
        let start: usize = match current {
            Some(i) => i,
            None => 0,
        };
        let rows = match &self.settings {
            Some(s) => {
                if open {
                    let query = text::query_text(s.menu_query.as_str());
                    let ghost labels = option_labels(options@);
                    let mut visible: Vec<usize> = Vec::new();
                    let mut i: usize = 0;
                    assert(labels.take(0) =~= Seq::<Seq<char>>::empty());
                    while i < options.len()
                        invariant
                            i <= options@.len(),
                            labels == option_labels(options@),
                            visible@ == visible_options(labels.take(i as int), query@),
                        decreases options@.len() - i,
                    {
                        assert(labels.take(i + 1).drop_last() =~= labels.take(i as int));
                        let lower = text::to_lower(options[i].label.as_str());
                        if query.as_str().is_empty() || text::contains(
                            lower.as_str(),
                            query.as_str(),
                        ) {
                            visible.push(i);
                        }
                        i = i + 1;
                    }
                    assert(labels.take(labels.len() as int) =~= labels);
                    let hi: usize = clamp(s.menu_hi, visible.len());
                    Some(rows_of(&visible, hi, s.menu_hi, current))
                } else {
                    None
                }
            },
            None => None,
        };
        SearchMenu { open, start, rows }
    }

    /// A key in an open menu of `len` rows: the row that is picked, if one is.
    pub fn menu_key(&mut self, len: usize, key: MenuKey) -> (r: Option<usize>)
        ensures
            *final(self) == (Tty7App { settings: final(self).settings, ..*old(self) }),
            menu_key_step(old(self).settings, len as nat, key, final(self).settings, r),
    {
        match key {
            MenuKey::Up => {
                match &mut self.settings {
                    Some(s) => {
                        let hi: usize = clamp(s.menu_hi, len);
                        s.menu_hi = if hi > 0 {
                            hi - 1
                        } else {
                            0
                        };
                    },
                    None => {},
                }
                None
            },
            MenuKey::Down => {
                match &mut self.settings {
                    Some(s) => {
                        let hi: usize = clamp(s.menu_hi, len);
                        s.menu_hi = if hi < usize::MAX {
                            clamp(hi + 1, len)
                        } else {
                            hi
                        };
                    },
                    None => {},
                }
                None
            },
            MenuKey::Enter => {
                let hi: usize = match &self.settings {
                    Some(s) => clamp(s.menu_hi, len),
                    None => 0,
                };
                if hi < len {
                    self.close_settings_menu();
                    Some(hi)
                } else {
                    None
                }
            },
            MenuKey::Escape => {
                self.close_settings_menu();
                None
            },
        }
    }

    /// The pointer is over a row of an open menu.
    pub fn hover_menu_row(&mut self, row: usize)
        ensures
            *final(self) == (Tty7App { settings: final(self).settings, ..*old(self) }),
            final(self).settings == (match old(self).settings {
                Some(s) => Some(SettingsState { menu_hi: row, ..s }),
                None => None,
            }),
    {
        match &mut self.settings {
            Some(s) => {
                s.menu_hi = row;
            },
            None => {},
        }
    }

    /// A group of lines; a sentence is only drawn under a heading.
    pub fn settings_group(
        &self,
        title: Option<HeadKey>,
        desc: Option<GroupDesc>,
        body: Vec<Line>,
    ) -> (r: Group)
        ensures
            r@ == group_of(title, desc, body@),
    {
        let desc = if title.is_some() {
            desc
        } else {
            None
        };
        Group { title, desc, body }
    }

    /// A page of groups.
    pub fn settings_page(groups: Vec<Group>) -> (r: Page)
        ensures
            r.groups == groups,
            r@ == Seq::new(groups@.len(), |i: int| groups@[i]@),
    {
        Page { groups }
    }

    pub fn settings_row(&self, key: RowKey, desc: RowDesc, control: Control) -> (r: Row)
        ensures
            r == row_of(*self, key, desc, control, false),
    {
        self.settings_row_gated_when(key, desc, control, false)
    }

    /// The row `key`, greyed out when `gated`.
    pub fn settings_row_gated_when(
        &self,
        key: RowKey,
        desc: RowDesc,
        control: Control,
        gated: bool,
    ) -> (r: Row)
        ensures
            r == row_of(*self, key, desc, control, gated),
    {
        let mark = match find_entry(&self.catalog, key) {
            Some(i) => {
                if !self.catalog[i].modified {
                    RowMark::Unchanged
                } else if key == RowKey::Keybindings || key == RowKey::Theme {
                    RowMark::Modified
                } else {
                    RowMark::Reset
                }
            },
            None => RowMark::Unchanged,
        };
        let (hit, miss): (bool, bool) = match &self.settings {
            None => (false, false),
            Some(s) => {
                if s.search_active {
                    (false, false)
                } else {
                    let query = text::query_text(s.search.as_str());
                    if query.as_str().is_empty() || !any_match(&self.catalog, s.section) {
                        let focused: bool = match s.focused_setting {
                            Some(k) => k == key,
                            None => false,
                        };
                        (focused, false)
                    } else {
                        let hit: bool = row_is_found(&self.catalog, s.section, key);
                        (hit, !hit)
                    }
                }
            },
        };
        Row { key, desc, control, gated, mark, hit, miss }
    }

    /// Whether a field has the focus.
    pub fn settings_input_focused(&self, input: u64) -> (r: bool)
        ensures
            r == (self.settings matches Some(s) && s.focused_input == Some(input)),
    {
        match &self.settings {
            Some(s) => match s.focused_input {
                Some(f) => f == input,
                None => false,
            },
            None => false,
        }
    }

    /// The cells of a segmented control over values that all have a cell.
    pub fn segmented(&self, options: &Vec<String>, selected: usize) -> (r: Vec<SegmentCell>)
        ensures
            cell_views(r@) == cells_of(text::views(options@), Some(selected), None),
    {
        self.segmented_full(options, Some(selected), None)
    }

    /// The cells of a segmented control over values of which some have a cell.
    pub fn segmented_valued(
        &self,
        options: &Vec<String>,
        selected: Option<usize>,
        custom_label: Option<String>,
    ) -> (r: Vec<SegmentCell>)
        ensures
            cell_views(r@) == cells_of(
                text::views(options@),
                selected,
                text::option_text(custom_label),
            ),
    {
        self.segmented_full(options, selected, custom_label)
    }

    pub fn segmented_full(
        &self,
        options: &Vec<String>,
        selected: Option<usize>,
        custom_label: Option<String>,
    ) -> (r: Vec<SegmentCell>)
        ensures
            cell_views(r@) == cells_of(
                text::views(options@),
                selected,
                text::option_text(custom_label),
            ),
    {
        let ghost want = cells_of(
            text::views(options@),
            selected,
            text::option_text(custom_label),
        );
        let mut out: Vec<SegmentCell> = Vec::new();
        let mut i: usize = 0;
        while i < options.len()
            invariant
                i <= options@.len(),
                out@.len() == i,
                want.len() >= options@.len(),
                forall|k: int|
                    0 <= k < options@.len() ==> #[trigger] want[k] == (CellView {
                        label: options@[k]@,
                        bucket: Some(k as usize),
                        active: selected == Some(k as usize),
                    }),
                forall|k: int| 0 <= k < i ==> (#[trigger] out@[k])@ == want[k],
            decreases options@.len() - i,
        {
            let active: bool = match selected {
                Some(s) => s == i,
                None => false,
            };
            out.push(SegmentCell { label: options[i].clone(), bucket: Some(i), active });
            i = i + 1;
        }
        match custom_label {
            Some(label) => {
                out.push(SegmentCell { label, bucket: None, active: selected.is_none() });
            },
            None => {},
        }
        assert(cell_views(out@) =~= want);
        out
    }

    /// A switch.
    pub fn settings_switch(&self, on: bool) -> (r: Control)
        ensures
            r == switch_of(on),
    {
        Control::Switch { on, disabled: false }
    }

    /// A raised button.
    pub fn settings_button(&self, key: BtnKey) -> (r: Btn)
        ensures
            r == button_of(key, BtnKind::Secondary),
    {
        Btn::new(key, BtnKind::Secondary)
    }
}

pub open spec fn group_of(title: Option<HeadKey>, desc: Option<GroupDesc>, body: Seq<Line>) -> GroupLines {
    GroupLines {
        title,
        desc: if title is Some {
            desc
        } else {
            None
        },
        body,
    }
}

fn rows_of(visible: &Vec<usize>, hi: usize, menu_hi: usize, current: Option<usize>) -> (r: Vec<
    SearchRow,
>)
    requires
        hi == clamped(menu_hi, visible@.len()),
    ensures
        r@ == search_rows(visible@, menu_hi, current),
{
    let mut out: Vec<SearchRow> = Vec::new();
    let mut i: usize = 0;
    while i < visible.len()
        invariant
            i <= visible@.len(),
            hi == clamped(menu_hi, visible@.len()),
            out@.len() == i,
            forall|k: int|
                0 <= k < i ==> #[trigger] out@[k] == search_rows(visible@, menu_hi, current)[k],
        decreases visible@.len() - i,
    {
        let checked: bool = match current {
            Some(c) => c == visible[i],
            None => false,
        };
        out.push(SearchRow { option: visible[i], highlighted: i == hi, checked });
        i = i + 1;
    }
    assert(out@ =~= search_rows(visible@, menu_hi, current));
    out
}

/// A key in an open menu of `len` rows leads from `s` to `t` and picks `r`:
/// the arrows walk the rows and stop at the ends, Enter picks the highlighted
/// one and closes the menu, Escape closes it.
pub open spec fn menu_key_step(
    s: Option<SettingsState>,
    len: nat,
    key: MenuKey,
    t: Option<SettingsState>,
    r: Option<usize>,
) -> bool {
    let hi = match s {
        Some(st) => clamped(st.menu_hi, len),
        None => 0,
    };
    match key {
        MenuKey::Up => r is None && t == (match s {
            Some(st) => Some(
                SettingsState {
                    menu_hi: if hi > 0 {
                        (hi - 1) as usize
                    } else {
                        0
                    },
                    ..st
                },
            ),
            None => None,
        }),
        MenuKey::Down => r is None && t == (match s {
            Some(st) => Some(
                SettingsState {
                    menu_hi: if hi + 1 < len {
                        (hi + 1) as usize
                    } else {
                        hi
                    },
                    ..st
                },
            ),
            None => None,
        }),
        MenuKey::Enter => if hi < len {
            r == Some(hi) && t == (match s {
                Some(st) => Some(SettingsState { menu: None, ..st }),
                None => None,
            })
        } else {
            r is None && t == s
        },
        MenuKey::Escape => r is None && t == (match s {
            Some(st) => Some(SettingsState { menu: None, ..st }),
            None => None,
        }),
    }
}

/// Exactly one cell of a segmented control is highlighted, when the value is
/// one of the options or is named apart.
pub proof fn exactly_one_cell_is_highlighted(
    options: Seq<Seq<char>>,
    selected: Option<usize>,
    custom: Option<Seq<char>>,
)
    requires
        options.len() <= usize::MAX,
        selected matches Some(i) ==> i < options.len(),
        selected is None ==> custom is Some,
    ensures
        exists|i: int|
            0 <= i < cells_of(options, selected, custom).len() && (#[trigger] cells_of(
                options,
                selected,
                custom,
            )[i]).active && cells_of(options, selected, custom)[i].bucket == selected && forall|
                j: int,
            |
                0 <= j < cells_of(options, selected, custom).len() && j != i ==> !(
                #[trigger] cells_of(options, selected, custom)[j]).active,
{
    let cells = cells_of(options, selected, custom);
    let at = match selected {
        Some(i) => i as int,
        None => options.len() as int,
    };
    assert(cells[at].active && cells[at].bucket == selected);
    assert forall|j: int| 0 <= j < cells.len() && j != at implies !(#[trigger] cells[j]).active by {
        if j < options.len() {
            assert(cells[j].bucket == Some(j as usize));
        }
    }
}

proof fn lemma_all_visible(labels: Seq<Seq<char>>, query: Seq<char>)
    requires
        query.len() == 0,
        labels.len() <= usize::MAX,
    ensures
        visible_options(labels, query).len() == labels.len(),
        forall|i: int|
            0 <= i < labels.len() ==> #[trigger] visible_options(labels, query)[i] == i,
    decreases labels.len(),
{
    if labels.len() > 0 {
        lemma_all_visible(labels.drop_last(), query);
    }
}

/// A menu with a query box opens on the current option: with nothing typed
/// yet, the row that is highlighted is the one that is checked.
pub proof fn a_menu_opens_on_its_current_option(
    labels: Seq<Seq<char>>,
    query: Seq<char>,
    current: usize,
)
    requires
        query.len() == 0,
        labels.len() <= usize::MAX,
        current < labels.len(),
    ensures
        search_rows(visible_options(labels, query), current, Some(current))[current as int] == (
        SearchRow { option: current, highlighted: true, checked: true }),
{
    lemma_all_visible(labels, query);
    assert(visible_options(labels, query)[current as int] == current);
}

/// Toggling a menu twice leaves no menu open.
pub proof fn toggling_a_menu_twice_closes_it(
    s: SettingsState,
    id: Seq<char>,
    highlight: usize,
    t: SettingsState,
    again: usize,
    u: SettingsState,
)
    requires
        !(s.menu matches Some(m) && m@ == id),
        menu_toggled(s, id, highlight, t),
        menu_toggled(t, id, again, u),
    ensures
        u.menu is None,
{
}

/// The rail marks the page that is open; the page of shortcuts is marked as
/// the keyboard's, from which it is reached.
pub proof fn the_rail_marks_the_page_that_is_open(section: SettingsSection)
    ensures
        section is Keybindings ==> section.rail_page() is KeyboardMouse,
        section !is Keybindings ==> section.rail_page() == section,
{
}

proof fn lemma_entry_at(catalog: Seq<SearchEntry>, key: RowKey)
    ensures
        match entry_at(catalog, key) {
            Some(i) => 0 <= i < catalog.len() && catalog[i].title == key && forall|k: int|
                0 <= k < i ==> (#[trigger] catalog[k]).title != key,
            None => forall|k: int| 0 <= k < catalog.len() ==> (#[trigger] catalog[k]).title != key,
        },
    decreases catalog.len(),
{
    if catalog.len() > 0 {
        lemma_entry_at(catalog.drop_last(), key);
        assert(forall|k: int|
            0 <= k < catalog.len() - 1 ==> catalog.drop_last()[k] == #[trigger] catalog[k]);
    }
}

/// A row is marked exactly where its setting differs from its default, and
/// offers the way back there, but for the shortcuts and the theme, which have
/// no one value to go back to.
pub proof fn a_changed_row_offers_the_way_back(catalog: Seq<SearchEntry>, key: RowKey, k: int)
    ensures
        0 <= k < catalog.len() && catalog[k].title == key && (forall|i: int|
            0 <= i < k ==> (#[trigger] catalog[i]).title != key) ==> {
            &&& mark_of(catalog, key) is Unchanged <==> !catalog[k].modified
            &&& mark_of(catalog, key) is Modified <==> catalog[k].modified && (key is Keybindings
                || key is Theme)
            &&& mark_of(catalog, key) is Reset <==> catalog[k].modified && !(key is Keybindings
                || key is Theme)
        },
        (forall|i: int| 0 <= i < catalog.len() ==> (#[trigger] catalog[i]).title != key) ==> mark_of(
            catalog,
            key,
        ) is Unchanged,
{
    lemma_entry_at(catalog, key);
}

/// The settings of a page that the search finds are counted one by one.
pub proof fn what_a_search_finds_is_counted(catalog: Seq<SearchEntry>, section: SettingsSection)
    ensures
        section_match_count(catalog, section) == catalog.filter(
            |e: SearchEntry| e.section == section && e.matches,
        ).len(),
    decreases catalog.len(),
{
    reveal(Seq::filter);
    if catalog.len() > 0 {
        what_a_search_finds_is_counted(catalog.drop_last(), section);
    }
}

/// While something is searched for that the page holds, each row is either
/// found or dimmed; otherwise none is dimmed, and the one that was asked for
/// is picked out. The list of results neither picks out nor dims.
pub proof fn a_row_is_found_or_dimmed(app: Tty7App, key: RowKey)
    ensures
        app.settings is None ==> hit_and_miss(app, key) == (false, false),
        app.settings is Some && app.settings->0.search_active ==> hit_and_miss(app, key) == (
            false,
            false,
        ),
        app.settings is Some && !app.settings->0.search_active ==> {
            let s = app.settings->0;
            let found = text::query_of(s.search@).len() > 0 && section_match_count(
                app.catalog@,
                s.section,
            ) > 0;
            &&& !found ==> hit_and_miss(app, key) == (s.focused_setting == Some(key), false)
            &&& found ==> hit_and_miss(app, key).0 == row_matches(app.catalog@, s.section, key)
            &&& found ==> hit_and_miss(app, key).1 == !hit_and_miss(app, key).0
        },
{
}

/// A row carries its own key, description and control, and is drawn as gated
/// exactly where it is.
pub proof fn a_row_carries_its_own_control(
    app: Tty7App,
    key: RowKey,
    desc: RowDesc,
    control: Control,
    gated: bool,
)
    ensures
        row_of(app, key, desc, control, gated).key == key,
        row_of(app, key, desc, control, gated).desc == desc,
        row_of(app, key, desc, control, gated).control == control,
        row_of(app, key, desc, control, gated).gated == gated,
        row_of(app, key, desc, control, gated).mark == mark_of(app.catalog@, key),
        row_of(app, key, desc, control, gated).hit == hit_and_miss(app, key).0,
        row_of(app, key, desc, control, gated).miss == hit_and_miss(app, key).1,
        plain_row(app, key, control) == Line::Row(
            row_of(app, key, RowDesc::Standing, control, false),
        ),
{
}

/// A switch is on exactly where its setting is, and can be thrown; a control
/// of cells lights the cell it was given.
pub proof fn a_switch_shows_its_setting(on: bool, selected: usize)
    ensures
        switch_of(on) == (Control::Switch { on, disabled: false }),
        segments_of(selected) == (Control::Segments { selected: Some(selected), custom: None }),
{
}

/// A button does what its key says and is neither disabled nor dimmed at rest.
pub proof fn a_button_is_ready_at_rest(key: BtnKey, kind: BtnKind)
    ensures
        button_of(key, kind).key == key,
        button_of(key, kind).kind == kind,
        !button_of(key, kind).disabled && !button_of(key, kind).dimmed,
{
}

/// A menu starts at its first checked item, or at the front without one.
pub proof fn a_menu_starts_at_what_is_checked(entries: Seq<EntryView>, k: int)
    requires
        entries.len() <= usize::MAX,
    ensures
        0 <= k < entries.len() && is_checked(entries[k]) && (forall|i: int|
            0 <= i < k ==> !is_checked(#[trigger] entries[i])) ==> checked_at(entries) == k,
        (forall|i: int| 0 <= i < entries.len() ==> !is_checked(#[trigger] entries[i]))
            ==> checked_at(entries) == 0,
    decreases entries.len(),
{
    if entries.len() > 0 {
        let front = entries.drop_last();
        assert(forall|i: int| 0 <= i < front.len() ==> front[i] == entries[i]);
        a_menu_starts_at_what_is_checked(front, k);
        assert(entries[entries.len() - 1] == entries.last());
        if 0 <= k < entries.len() - 1 && is_checked(entries[k]) {
            assert(exists|i: int| 0 <= i < entries.len() - 1 && is_checked(#[trigger] entries[i]));
        }
    }
}

/// The rows of a menu are its entries, in order, each under an id made of the
/// menu's and its place.
pub proof fn a_menu_lists_its_entries(rows: Seq<MenuRow>, id: Seq<char>, entries: Seq<EntryView>)
    requires
        are_menu_rows(rows, id, entries),
    ensures
        rows.len() == entries.len(),
        forall|i: int|
            0 <= i < rows.len() ==> (#[trigger] rows[i]).entry@ == entries[i] && rows[i].id@ == id
                + "-item-"@ + text::decimal(i as nat),
{
}

/// Whether a label holds what is typed, in any case.
pub open spec fn label_holds(label: Seq<char>, query: Seq<char>) -> bool {
    query.len() == 0 || text::occurs(text::lower_of(label), query)
}

proof fn lemma_visible_options(labels: Seq<Seq<char>>, query: Seq<char>)
    requires
        labels.len() <= usize::MAX,
    ensures
        forall|i: int|
            0 <= i < visible_options(labels, query).len() ==> (#[trigger] visible_options(
                labels,
                query,
            )[i]) < labels.len() && label_holds(
                labels[visible_options(labels, query)[i] as int],
                query,
            ),
        forall|i: int, j: int|
            0 <= i < j < visible_options(labels, query).len() ==> (#[trigger] visible_options(
                labels,
                query,
            )[i]) < (#[trigger] visible_options(labels, query)[j]),
    decreases labels.len(),
{
    if labels.len() > 0 {
        let front = labels.drop_last();
        let head = visible_options(front, query);
        let all = visible_options(labels, query);
        lemma_visible_options(front, query);
        assert forall|i: int| 0 <= i < all.len() implies (#[trigger] all[i]) < labels.len()
            && label_holds(labels[all[i] as int], query) by {
            if i < head.len() {
                assert(all[i] == head[i]);
                assert(front[head[i] as int] == labels[head[i] as int]);
            }
        }
        assert forall|i: int, j: int| 0 <= i < j < all.len() implies (#[trigger] all[i]) < (
        #[trigger] all[j]) by {
            assert(all[i] == head[i]);
            if j < head.len() {
                assert(all[j] == head[j]);
            }
        }
    }
}

proof fn lemma_option_is_visible(labels: Seq<Seq<char>>, query: Seq<char>, k: int)
    requires
        labels.len() <= usize::MAX,
        0 <= k < labels.len(),
        label_holds(labels[k], query),
    ensures
        visible_options(labels, query).contains(k as usize),
    decreases labels.len(),
{
    let front = labels.drop_last();
    let head = visible_options(front, query);
    let all = visible_options(labels, query);
    if k < front.len() {
        lemma_option_is_visible(front, query, k);
        let w = choose|w: int| 0 <= w < head.len() && head[w] == k as usize;
        assert(all[w] == k as usize);
    } else {
        assert(all[head.len() as int] == k as usize);
    }
}

/// A menu with a query box offers exactly the options whose labels hold what
/// is typed, in their order.
pub proof fn a_query_leaves_the_options_that_hold_it(
    labels: Seq<Seq<char>>,
    query: Seq<char>,
    k: int,
)
    requires
        labels.len() <= usize::MAX,
        0 <= k < labels.len(),
    ensures
        visible_options(labels, query).contains(k as usize) <==> query.len() == 0 || text::occurs(
            text::lower_of(labels[k]),
            query,
        ),
        forall|i: int, j: int|
            0 <= i < j < visible_options(labels, query).len() ==> (#[trigger] visible_options(
                labels,
                query,
            )[i]) < (#[trigger] visible_options(labels, query)[j]),
{
    lemma_visible_options(labels, query);
    let v = visible_options(labels, query);
    if v.contains(k as usize) {
        let w = choose|w: int| 0 <= w < v.len() && v[w] == k as usize;
        assert(v[w] < labels.len());
    }
    if label_holds(labels[k], query) {
        lemma_option_is_visible(labels, query, k);
    }
}

/// In a menu exactly one row is lit, the one the highlight is at or else the
/// last; and the current option is checked.
pub proof fn one_row_of_a_menu_is_lit(
    visible: Seq<usize>,
    hi: usize,
    current: Option<usize>,
    i: int,
)
    requires
        0 <= i < visible.len() <= usize::MAX,
    ensures
        search_rows(visible, hi, current)[i].option == visible[i],
        search_rows(visible, hi, current)[i].checked <==> current == Some(visible[i]),
        hi < visible.len() ==> (search_rows(visible, hi, current)[i].highlighted <==> i == hi),
        hi >= visible.len() ==> (search_rows(visible, hi, current)[i].highlighted <==> i
            == visible.len() - 1),
{
}

/// The arrows walk a menu one row at a time and stop at its ends; Enter picks
/// the row that is lit and closes the menu, and so does Escape without
/// picking.
pub proof fn arrows_walk_a_menu(
    s: SettingsState,
    len: nat,
    key: MenuKey,
    t: Option<SettingsState>,
    r: Option<usize>,
)
    requires
        menu_key_step(Some(s), len, key, t, r),
        s.menu_hi < len <= usize::MAX,
    ensures
        t is Some,
        key is Up && s.menu_hi > 0 ==> t->0.menu_hi == s.menu_hi - 1,
        key is Up && s.menu_hi == 0 ==> t->0.menu_hi == 0,
        key is Down && s.menu_hi + 1 < len ==> t->0.menu_hi == s.menu_hi + 1,
        key is Down && s.menu_hi + 1 == len ==> t->0.menu_hi == s.menu_hi,
        key is Up || key is Down ==> r is None && t->0.menu == s.menu,
        key is Enter ==> r == Some(s.menu_hi) && t->0.menu is None,
        key is Escape ==> r is None && t->0.menu is None,
{
}

/// Opening a menu closes the one that was open; the new one starts with an
/// empty query at the row it was given.
pub proof fn only_one_menu_is_open(
    s: SettingsState,
    id: Seq<char>,
    highlight: usize,
    t: SettingsState,
    other: Seq<char>,
)
    requires
        menu_toggled(s, id, highlight, t),
    ensures
        menu_is(Some(s), id) ==> t.menu is None,
        !menu_is(Some(s), id) ==> menu_is(Some(t), id) && t.menu_hi == highlight
            && t.menu_query@.len() == 0,
        other != id ==> !menu_is(Some(t), other),
        t.section == s.section && t.search == s.search,
{
}

/// A sentence is drawn only under a heading.
pub proof fn a_sentence_needs_a_heading(
    title: Option<HeadKey>,
    desc: Option<GroupDesc>,
    body: Seq<Line>,
)
    ensures
        group_of(title, desc, body).title == title,
        title is Some ==> group_of(title, desc, body).desc == desc,
        title is None ==> group_of(title, desc, body).desc is None,
        group_of(title, desc, body).body == body,
{
}

/// The cells of a control carry the labels of its options, in order, and each
/// stands for its own; a value that no option has is named behind them, and
/// is lit exactly while no option is.
pub proof fn each_cell_carries_its_own_label(
    options: Seq<Seq<char>>,
    selected: Option<usize>,
    custom: Option<Seq<char>>,
    i: int,
)
    requires
        0 <= i < options.len() <= usize::MAX,
    ensures
        cells_of(options, selected, custom)[i].label == options[i],
        cells_of(options, selected, custom)[i].bucket == Some(i as usize),
        cells_of(options, selected, custom)[i].active <==> selected == Some(i as usize),
        custom is None ==> cells_of(options, selected, custom).len() == options.len(),
        custom is Some ==> cells_of(options, selected, custom).len() == options.len() + 1
            && cells_of(options, selected, custom).last().label == custom->0 && cells_of(
            options,
            selected,
            custom,
        ).last().bucket is None && (cells_of(options, selected, custom).last().active <==> selected
            is None),
{
}

} // verus!
