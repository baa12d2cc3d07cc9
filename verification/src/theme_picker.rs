//! The themes of the appearance page: the mode, a menu per slot with a preview
//! of the theme under the pointer, and the editor of a theme of one's own.

use vstd::prelude::*;
use vstd::string::*;
use crate::order;
use crate::preferences::{ThemeMode, ThemePresets};
use crate::settings;
use crate::settings::{
    Btn, BtnKey, BtnKind, Control, FocusStep, Group, GroupDesc, GroupLines, HeadKey, Line, Page,
    Quantity, RowDesc, RowKey, SettingsState, SlotDesc, Theme, Tty7App,
};
use crate::settings_pages;
use crate::text;

verus! {

/// The place of the first theme with this id.
pub open spec fn theme_place(themes: Seq<Theme>, id: Seq<char>) -> Option<int>
    decreases themes.len(),
{
    if themes.len() == 0 {
        None
    } else {
        match theme_place(themes.drop_last(), id) {
            Some(i) => Some(i),
            None => if themes.last().id@ == id {
                Some(themes.len() - 1)
            } else {
                None
            },
        }
    }
}

/// The theme with this id, or the one that stands in for it.
pub open spec fn theme_by_id(app: Tty7App, id: Seq<char>) -> Theme {
    match theme_place(app.facts.themes@, id) {
        Some(i) => app.facts.themes@[i],
        None => app.facts.fallback_theme,
    }
}

/// Which themes are used.
pub open spec fn mode_of(app: Tty7App) -> ThemeMode {
    if app.config.themes.follow_system {
        ThemeMode::System
    } else if theme_by_id(app, app.config.themes.single@).dark {
        ThemeMode::Dark
    } else {
        ThemeMode::Light
    }
}

/// The slots a mode uses, with what is said of them.
pub open spec fn slots_of(mode: ThemeMode) -> Seq<Line> {
    match mode {
        ThemeMode::System => seq![
            Line::ThemeSlot { dark: false, desc: SlotDesc::ByDay },
            Line::ThemeSlot { dark: true, desc: SlotDesc::ByNight },
        ],
        ThemeMode::Light => seq![Line::ThemeSlot { dark: false, desc: SlotDesc::Always }],
        ThemeMode::Dark => seq![Line::ThemeSlot { dark: true, desc: SlotDesc::Always }],
    }
}

pub open spec fn mode_desc(mode: ThemeMode) -> RowDesc {
    match mode {
        ThemeMode::System => RowDesc::FollowsSystem,
        ThemeMode::Light => RowDesc::AlwaysLight,
        ThemeMode::Dark => RowDesc::AlwaysDark,
    }
}

pub open spec fn theme_rows(app: Tty7App) -> Seq<Line> {
    let mode = mode_of(app);
    let first = seq![
        Line::Row(
            settings::row_of(
                app,
                RowKey::SyncWithSystem,
                mode_desc(mode),
                Control::ThemeModes,
                false,
            ),
        ),
    ];
    (first + slots_of(mode)).push(
        settings::plain_row(
            app,
            RowKey::LegiblePalette,
            settings::switch_of(app.config.theme_legible_palette),
        ),
    )
}

/// The group of the themes.
pub open spec fn theme_group(app: Tty7App) -> GroupLines {
    settings::group_of(Some(HeadKey::Theme), None, theme_rows(app))
}

pub open spec fn seed_rows(app: Tty7App, seeds: nat) -> Seq<Line> {
    Seq::new(
        seeds,
        |i: int|
            Line::Row(
                settings::row_of(
                    app,
                    RowKey::SeedColor(i as u8),
                    RowDesc::Blank,
                    Control::ColorPicker,
                    false,
                ),
            ),
    )
}

pub open spec fn image_rows(app: Tty7App) -> Seq<Line> {
    let picture = settings::plain_row(
        app,
        RowKey::BackgroundImage,
        Control::Buttons {
            first: if app.facts.theme_image {
                Some(settings::button_of(BtnKey::RemoveImage, BtnKind::Link))
            } else {
                None
            },
            second: None,
            last: settings::button_of(
                if app.facts.theme_image {
                    BtnKey::ChangeImage
                } else {
                    BtnKey::ChooseImage
                },
                BtnKind::Secondary,
            ),
        },
    );
    if app.facts.theme_image {
        seq![
            picture,
            settings::plain_row(app, RowKey::ImageOpacity, Control::Slider(Quantity::ImageOpacity)),
        ]
    } else {
        seq![picture]
    }
}

pub open spec fn editor_rows(app: Tty7App, seeds: nat) -> Seq<Line> {
    seed_rows(app, seeds) + image_rows(app) + seq![
        Line::Row(
            settings::row_of(app, RowKey::AnsiColors, RowDesc::Blank, Control::AnsiGrid, false),
        ),
        Line::ThemesFolder,
    ]
}

/// The editor of a theme of one's own, while one is edited.
pub open spec fn editor_group(app: Tty7App) -> Option<GroupLines> {
    match app.settings {
        Some(s) => match s.theme_editor {
            Some(seeds) => Some(
                settings::group_of(
                    Some(HeadKey::EditTheme),
                    Some(GroupDesc::EditTheme),
                    editor_rows(app, seeds as nat),
                ),
            ),
            None => None,
        },
        None => None,
    }
}

/// The appearance page.
pub open spec fn appearance_page(app: Tty7App) -> Seq<GroupLines> {
    let editor = match editor_group(app) {
        Some(g) => seq![g],
        None => Seq::empty(),
    };
    seq![theme_group(app)] + editor + settings_pages::text_groups(app)
}

/// The theme a slot holds. One theme serves for both while the system is not
/// followed.
pub open spec fn slot_theme(themes: ThemePresets, dark: bool) -> Seq<char> {
    if !themes.follow_system {
        themes.single@
    } else if dark {
        themes.dark@
    } else {
        themes.light@
    }
}

/// The places of the themes a slot offers: those of its shade, and the one it
/// holds.
pub open spec fn slot_places(themes: Seq<Theme>, dark: bool, current: Seq<char>) -> Seq<usize>
    decreases themes.len(),
{
    if themes.len() == 0 {
        Seq::empty()
    } else if themes.last().dark == dark || themes.last().id@ == current {
        slot_places(themes.drop_last(), dark, current).push((themes.len() - 1) as usize)
    } else {
        slot_places(themes.drop_last(), dark, current)
    }
}

pub open spec fn custom_key(t: Theme) -> order::KeyView {
    order::KeyView {
        major: if t.custom {
            1
        } else {
            0
        },
        minor: 0,
        text: Seq::empty(),
    }
}

pub open spec fn custom_keys(themes: Seq<Theme>, places: Seq<usize>) -> Seq<order::KeyView> {
    Seq::new(places.len(), |i: int| custom_key(themes[places[i] as int]))
}

/// The places of the themes a slot offers, in the order it lists them: the
/// user's own last.
pub open spec fn slot_list(themes: Seq<Theme>, dark: bool, current: Seq<char>) -> Seq<usize> {
    let places = slot_places(themes, dark, current);
    let o = order::order_of(custom_keys(themes, places));
    Seq::new(places.len(), |i: int| places[o[i] as int])
}

/// Where in a list the theme with this id is first, or the front.
pub open spec fn start_at(themes: Seq<Theme>, list: Seq<usize>, id: Seq<char>) -> usize
    decreases list.len(),
{
    if list.len() == 0 {
        0
    } else if exists|k: int|
        0 <= k < list.len() - 1 && themes[#[trigger] list[k] as int].id@ == id {
        start_at(themes, list.drop_last(), id)
    } else if themes[list.last() as int].id@ == id {
        (list.len() - 1) as usize
    } else {
        0
    }
}

/// The themes of a list whose names hold the query.
pub open spec fn named(themes: Seq<Theme>, list: Seq<usize>, query: Seq<char>) -> Seq<usize>
    decreases list.len(),
{
    if list.len() == 0 {
        Seq::empty()
    } else if query.len() == 0 || text::occurs(
        text::lower_of(themes[list.last() as int].name@),
        query,
    ) {
        named(themes, list.drop_last(), query).push(list.last())
    } else {
        named(themes, list.drop_last(), query)
    }
}

/// A row of a slot's menu.
#[derive(Clone, Copy, Debug, PartialEq, Eq, Structural)]
pub struct ThemeRow {
    pub theme: usize,
    pub highlighted: bool,
    pub checked: bool,
    pub custom: bool,
}

/// What a preview is drawn from.
#[derive(Clone, Copy, Debug, PartialEq, Eq, Structural)]
pub enum Preview {
    Theme(usize),
    /// The theme the slot holds, as nothing is highlighted.
    Current,
}

/// The open menu of a slot.
#[derive(Debug)]
pub struct ThemePopover {
    pub rows: Vec<ThemeRow>,
    pub preview: Preview,
    /// Whether the files that could not be read are named.
    pub names_rejected: bool,
    pub foot: Vec<FootLink>,
}

/// A link at the foot of a slot's menu.
#[derive(Clone, Copy, Debug, PartialEq, Eq, Structural)]
pub enum FootLink {
    DuplicateToEdit,
    OpenFolder,
}

/// The work a link at the foot asks for.
#[derive(Clone, Debug, PartialEq, Eq)]
pub enum FootWork {
    /// Copy the theme with this id to a file of its own.
    CopyTheme(String),
    OpenFolder,
}

/// A slot: whether its menu is open, the row the arrow keys start from, and
/// the menu.
#[derive(Debug)]
pub struct ThemeSlot {
    pub name: String,
    pub open: bool,
    pub start: usize,
    pub popover: Option<ThemePopover>,
}

pub open spec fn theme_menu_rows(
    themes: Seq<Theme>,
    visible: Seq<usize>,
    hi: usize,
    current: Seq<char>,
) -> Seq<ThemeRow> {
    Seq::new(
        visible.len(),
        |i: int|
            ThemeRow {
                theme: visible[i],
                highlighted: i == settings::clamped(hi, visible.len()),
                checked: themes[visible[i] as int].id@ == current,
                custom: themes[visible[i] as int].custom,
            },
    )
}

/// `p` is the open menu over `list`. What could not be read is named only
/// while nothing is searched for.
pub open spec fn is_popover(
    p: ThemePopover,
    app: Tty7App,
    s: SettingsState,
    list: Seq<usize>,
    current: Seq<char>,
) -> bool {
    let query = text::query_of(s.menu_query@);
    let visible = named(app.facts.themes@, list, query);
    let hi = settings::clamped(s.menu_hi, visible.len());
    &&& p.rows@ == theme_menu_rows(app.facts.themes@, visible, s.menu_hi, current)
    &&& p.preview == (if hi < visible.len() {
        Preview::Theme(visible[hi as int])
    } else {
        Preview::Current
    })
    &&& p.names_rejected == (app.facts.rejected_themes > 0 && query.len() == 0)
    &&& p.foot@ == seq![FootLink::DuplicateToEdit, FootLink::OpenFolder]
}

/// `work` is what `link` asks for in a slot: a copy is of the theme the slot
/// holds, whichever is highlighted.
pub open spec fn is_foot_work(work: FootWork, app: Tty7App, dark: bool, link: FootLink) -> bool {
    match link {
        FootLink::DuplicateToEdit => {
            &&& work matches FootWork::CopyTheme(id)
            &&& id@ == theme_by_id(app, slot_theme(app.config.themes, dark)).id@
        },
        FootLink::OpenFolder => work is OpenFolder,
    }
}

/// `a` with the theme `id` in a slot.
pub open spec fn with_slot(a: ThemePresets, dark: bool, id: String) -> ThemePresets {
    if !a.follow_system {
        ThemePresets { single: id, ..a }
    } else if dark {
        ThemePresets { dark: id, ..a }
    } else {
        ThemePresets { light: id, ..a }
    }
}

/// The id of a slot's menu.
pub open spec fn slot_id(dark: bool) -> Seq<char> {
    if dark {
        "theme-slot-dark"@
    } else {
        "theme-slot-light"@
    }
}

/// A card of the modes.
#[derive(Clone, Copy, Debug, PartialEq, Eq, Structural)]
pub struct ModeCard {
    pub mode: ThemeMode,
    pub on: bool,
}

fn find_theme(themes: &Vec<Theme>, id: &str) -> (r: Option<usize>)
    ensures
        match r {
            Some(i) => i < themes@.len() && theme_place(themes@, id@) == Some(i as int),
            None => theme_place(themes@, id@) is None,
        },
{
    let mut found: Option<usize> = None;
    let mut i: usize = 0;
    assert(themes@.take(0) =~= Seq::<Theme>::empty());
    while i < themes.len()
        invariant
            i <= themes@.len(),
            match found {
                Some(k) => k < i && theme_place(themes@.take(i as int), id@) == Some(k as int),
                None => theme_place(themes@.take(i as int), id@) is None,
            },
        decreases themes@.len() - i,
    {
        assert(themes@.take(i + 1).drop_last() =~= themes@.take(i as int));
        if found.is_none() && text::same(themes[i].id.as_str(), id) {
            found = Some(i);
        }
        i = i + 1;
    }
    assert(themes@.take(themes@.len() as int) =~= themes@);
    found
}

impl ThemePresets {
    fn in_slot(&self, dark: bool) -> (r: &String)
        ensures
            r@ == slot_theme(*self, dark),
    {
        if !self.follow_system {
            &self.single
        } else if dark {
            &self.dark
        } else {
            &self.light
        }
    }

    /// Put the theme `id` in a slot.
    pub fn pick_slot_theme(&mut self, dark_slot: bool, id: String)
        ensures
            *final(self) == with_slot(*old(self), dark_slot, id),
            slot_theme(*final(self), dark_slot) == id@,
    {
        if !self.follow_system {
            self.single = id;
        } else if dark_slot {
            self.dark = id;
        } else {
            self.light = id;
        }
    }

    /// The copy of a slot's theme was made, under this id, or it failed. A copy
    /// is put in the slot, where the editor picks it up; a failure changes
    /// nothing, and its words are told.
    pub fn fork_slot_theme(&mut self, dark_slot: bool, copied: Result<String, String>) -> (r: Option<
        String,
    >)
        ensures
            match copied {
                Ok(id) => r is None && *final(self) == with_slot(*old(self), dark_slot, id)
                    && slot_theme(*final(self), dark_slot) == id@,
                Err(e) => r == Some(e) && *final(self) == *old(self),
            },
    {
        match copied {
            Ok(id) => {
                self.pick_slot_theme(dark_slot, id);
                None
            },
            Err(e) => Some(e),
        }
    }
}

impl Tty7App {
    fn theme_named(&self, id: &str) -> (r: &Theme)
        ensures
            *r == theme_by_id(*self, id@),
    {
        match find_theme(&self.facts.themes, id) {
            Some(i) => &self.facts.themes[i],
            None => &self.facts.fallback_theme,
        }
    }

    /// Which themes are used.
    pub fn theme_mode(&self) -> (r: ThemeMode)
        ensures
            r == mode_of(*self),
    {
        if self.config.themes.follow_system {
            ThemeMode::System
        } else if self.theme_named(self.config.themes.single.as_str()).dark {
            ThemeMode::Dark
        } else {
            ThemeMode::Light
        }
    }

    /// The cards of the modes.
    pub fn theme_mode_cards(&self) -> (r: Vec<ModeCard>)
        ensures
            r@ == seq![
                ModeCard { mode: ThemeMode::Light, on: mode_of(*self) == ThemeMode::Light },
                ModeCard { mode: ThemeMode::Dark, on: mode_of(*self) == ThemeMode::Dark },
                ModeCard { mode: ThemeMode::System, on: mode_of(*self) == ThemeMode::System },
            ],
    {
        let mode = self.theme_mode();
        let mut out: Vec<ModeCard> = Vec::new();
        out.push(ModeCard { mode: ThemeMode::Light, on: mode == ThemeMode::Light });
        out.push(ModeCard { mode: ThemeMode::Dark, on: mode == ThemeMode::Dark });
        out.push(ModeCard { mode: ThemeMode::System, on: mode == ThemeMode::System });
        out
    }

    /// The group of the themes.
    pub fn render_theme_group(&self) -> (r: Group)
        ensures
            r@ == theme_group(*self),
    {
        let mode = self.theme_mode();
        let desc = match mode {
            ThemeMode::System => RowDesc::FollowsSystem,
            ThemeMode::Light => RowDesc::AlwaysLight,
            ThemeMode::Dark => RowDesc::AlwaysDark,
        };
        let mut rows: Vec<Line> = Vec::new();
        rows.push(
            Line::Row(self.settings_row(RowKey::SyncWithSystem, desc, Control::ThemeModes)),
        );
        match mode {
            ThemeMode::System => {
                rows.push(Line::ThemeSlot { dark: false, desc: SlotDesc::ByDay });
                rows.push(Line::ThemeSlot { dark: true, desc: SlotDesc::ByNight });
            },
            ThemeMode::Light => {
                rows.push(Line::ThemeSlot { dark: false, desc: SlotDesc::Always });
            },
            ThemeMode::Dark => {
                rows.push(Line::ThemeSlot { dark: true, desc: SlotDesc::Always });
            },
        }
        let legible = self.settings_switch(self.config.theme_legible_palette);
        rows.push(
            Line::Row(self.settings_row(RowKey::LegiblePalette, RowDesc::Standing, legible)),
        );
        assert(rows@ =~= theme_rows(*self));
        self.settings_group(Some(HeadKey::Theme), None, rows)
    }

    /// The editor of a theme of one's own.
    pub fn render_theme_editor_group(&self) -> (r: Option<Group>)
        ensures
            match r {
                Some(g) => editor_group(*self) == Some(g@),
                None => editor_group(*self) is None,
            },
    {
        let seeds: u8 = match &self.settings {
            Some(s) => match s.theme_editor {
                Some(n) => n,
                None => {
                    return None;
                },
            },
            None => {
                return None;
            },
        };
        let mut rows: Vec<Line> = Vec::new();
        let mut i: u8 = 0;
        assert(rows@ =~= seed_rows(*self, 0));
        while i < seeds
            invariant
                i <= seeds,
                rows@ == seed_rows(*self, i as nat),
            decreases seeds - i,
        {
            rows.push(
                Line::Row(
                    self.settings_row(RowKey::SeedColor(i), RowDesc::Blank, Control::ColorPicker),
                ),
            );
            i = i + 1;
            assert(rows@ =~= seed_rows(*self, i as nat));
        }
        let image: bool = self.facts.theme_image;
        let control = if image {
            Control::Buttons {
                first: Some(Btn::new(BtnKey::RemoveImage, BtnKind::Link)),
                second: None,
                last: Btn::new(BtnKey::ChangeImage, BtnKind::Secondary),
            }
        } else {
            Control::Buttons {
                first: None,
                second: None,
                last: Btn::new(BtnKey::ChooseImage, BtnKind::Secondary),
            }
        };
        rows.push(
            Line::Row(self.settings_row(RowKey::BackgroundImage, RowDesc::Standing, control)),
        );
        if image {
            rows.push(
                Line::Row(
                    self.settings_row(
                        RowKey::ImageOpacity,
                        RowDesc::Standing,
                        Control::Slider(Quantity::ImageOpacity),
                    ),
                ),
            );
        }
        rows.push(
            Line::Row(self.settings_row(RowKey::AnsiColors, RowDesc::Blank, Control::AnsiGrid)),
        );
        rows.push(Line::ThemesFolder);
        assert(rows@ =~= editor_rows(*self, seeds as nat));
        Some(self.settings_group(Some(HeadKey::EditTheme), Some(GroupDesc::EditTheme), rows))
    }

    /// The appearance page.
    pub fn render_settings_appearance(&self) -> (r: Page)
        ensures
            r@ == appearance_page(*self),
    {
        let mut groups: Vec<Group> = Vec::new();
        groups.push(self.render_theme_group());
        match self.render_theme_editor_group() {
            Some(g) => {
                groups.push(g);
            },
            None => {},
        }
        let ghost front = groups@;
        self.push_text_groups(&mut groups);
        let page = Self::settings_page(groups);
        proof {
            let want = appearance_page(*self);
            assert(want.len() == front.len() + 4);
            assert forall|i: int| 0 <= i < page@.len() implies page@[i] == want[i] by {
                if i >= front.len() {
                    let k = i - front.len();
                    assert(groups@[front.len() + k]@ == settings_pages::text_groups(*self)[k]);
                } else {
                    assert(groups@[i] == front[i]);
                }
            }
            assert(page@ =~= want);
        }
        page
    }

    fn list_slot(&self, dark: bool, current: &str) -> (r: Vec<usize>)
        ensures
            r@ == slot_list(self.facts.themes@, dark, current@),
            forall|k: int| 0 <= k < r@.len() ==> #[trigger] r@[k] < self.facts.themes@.len(),
    {
        let ghost themes = self.facts.themes@;
        let mut places: Vec<usize> = Vec::new();
        let mut keys: Vec<order::SortKey> = Vec::new();
        let mut i: usize = 0;
        assert(themes.take(0) =~= Seq::<Theme>::empty());
        while i < self.facts.themes.len()
            invariant
                i <= themes.len(),
                themes == self.facts.themes@,
                places@ == slot_places(themes.take(i as int), dark, current@),
                keys@.len() == places@.len(),
                forall|k: int| 0 <= k < places@.len() ==> #[trigger] places@[k] < i,
                forall|k: int|
                    0 <= k < keys@.len() ==> (#[trigger] keys@[k])@ == custom_key(
                        themes[places@[k] as int],
                    ),
            decreases themes.len() - i,
        {
            assert(themes.take(i + 1).drop_last() =~= themes.take(i as int));
            let t = &self.facts.themes[i];
            if t.dark == dark || text::same(t.id.as_str(), current) {
                let major: u64 = if t.custom {
                    1
                } else {
                    0
                };
                let key = order::key_of(major, 0, "");
                proof {
                    reveal_strlit("");
                    assert(key@.text =~= Seq::<char>::empty());
                }
                places.push(i);
                keys.push(key);
            }
            i = i + 1;
        }
        assert(themes.take(themes.len() as int) =~= themes);
        let o = order::stable_order(&keys);
        assert(order::key_views(keys@) =~= custom_keys(themes, places@));
        let mut out: Vec<usize> = Vec::new();
        let mut i: usize = 0;
        while i < o.len()
            invariant
                i <= o@.len(),
                themes == self.facts.themes@,
                places@ == slot_places(themes, dark, current@),
                forall|k: int| 0 <= k < places@.len() ==> #[trigger] places@[k] < themes.len(),
                o@ == order::order_of(custom_keys(themes, places@)),
                order::is_stable_order(custom_keys(themes, places@), o@),
                out@.len() == i,
                forall|k: int| 0 <= k < i ==> #[trigger] out@[k] == places@[o@[k] as int],
            decreases o@.len() - i,
        {
            out.push(places[o[i]]);
            i = i + 1;
        }
        assert(out@ =~= slot_list(themes, dark, current@));
        assert forall|k: int| 0 <= k < out@.len() implies #[trigger] out@[k] < themes.len() by {
            assert(out@[k] == places@[o@[k] as int]);
        }
        out
    }

    fn start_of(&self, list: &Vec<usize>, id: &str) -> (r: usize)
        requires
            forall|k: int| 0 <= k < list@.len() ==> #[trigger] list@[k] < self.facts.themes@.len(),
        ensures
            r == start_at(self.facts.themes@, list@, id@),
    {
        let ghost themes = self.facts.themes@;
        let mut found: Option<usize> = None;
        let mut i: usize = 0;
        while i < list.len()
            invariant
                i <= list@.len(),
                themes == self.facts.themes@,
                forall|k: int| 0 <= k < list@.len() ==> #[trigger] list@[k] < themes.len(),
                match found {
                    Some(k) => k < i && themes[list@[k as int] as int].id@ == id@ && start_at(
                        themes,
                        list@.take(i as int),
                        id@,
                    ) == k,
                    None => start_at(themes, list@.take(i as int), id@) == 0 && forall|k: int|
                        0 <= k < i ==> themes[#[trigger] list@[k] as int].id@ != id@,
                },
            decreases list@.len() - i,
        {
            let same: bool = text::same(self.facts.themes[list[i]].id.as_str(), id);
            proof {
                let v = list@.take(i + 1);
                assert(v.drop_last() =~= list@.take(i as int));
                assert(v.last() == list@[i as int]);
                if found is Some {
                    assert(themes[v[found->0 as int] as int].id@ == id@);
                }
            }
            if found.is_none() && same {
                found = Some(i);
            }
            i = i + 1;
        }
        assert(list@.take(list@.len() as int) =~= list@);
        match found {
            Some(k) => k,
            None => 0,
        }
    }

    /// A slot and its menu.
    pub fn theme_slot_dropdown(&self, dark_slot: bool) -> (r: ThemeSlot)
        ensures
            ({
                let current = slot_theme(self.config.themes, dark_slot);
                let list = slot_list(self.facts.themes@, dark_slot, current);
                &&& r.name == theme_by_id(*self, current).name
                &&& r.open == settings::menu_is(self.settings, slot_id(dark_slot))
                &&& r.start == start_at(self.facts.themes@, list, current)
                &&& match r.popover {
                    Some(p) => r.open && is_popover(p, *self, self.settings->0, list, current),
                    None => !r.open,
                }
            }),
    {
        let current: &String = self.config.themes.in_slot(dark_slot);
        let open: bool = if dark_slot {
            self.settings_menu_open("theme-slot-dark")
        } else {
            self.settings_menu_open("theme-slot-light")
        };
        let list = self.list_slot(dark_slot, current.as_str());
        let start: usize = self.start_of(&list, current.as_str());
        let name = self.theme_named(current.as_str()).name.clone();
        let popover = match &self.settings {
            Some(s) => if open {
                Some(self.theme_popover(s, current.as_str(), &list))
            } else {
                None
            },
            None => None,
        };
        ThemeSlot { name, open, start, popover }
    }

    /// A click on a link at the foot of a slot's menu: the menu closes, and the
    /// link's work is left to do.
    pub fn click_theme_foot(&mut self, dark_slot: bool, link: FootLink) -> (r: (FocusStep, FootWork))
        ensures
            *final(self) == (Tty7App { settings: final(self).settings, ..*old(self) }),
            match old(self).settings {
                Some(s) => final(self).settings == Some(SettingsState { menu: None, ..s }),
                None => final(self).settings is None,
            },
            r.0 == (if old(self).settings matches Some(s) && s.menu is Some {
                FocusStep::Page
            } else {
                FocusStep::Stays
            }),
            is_foot_work(r.1, *old(self), dark_slot, link),
    {
        let work = match link {
            FootLink::DuplicateToEdit => {
                let current = self.config.themes.in_slot(dark_slot);
                FootWork::CopyTheme(self.theme_named(current.as_str()).id.clone())
            },
            FootLink::OpenFolder => FootWork::OpenFolder,
        };
        let focus = self.close_settings_menu();
        (focus, work)
    }

    /// The open menu of a slot over the themes of `list`.
    pub fn theme_popover(&self, s: &SettingsState, current: &str, list: &Vec<usize>) -> (r:
        ThemePopover)
        requires
            forall|k: int| 0 <= k < list@.len() ==> #[trigger] list@[k] < self.facts.themes@.len(),
        ensures
            is_popover(r, *self, *s, list@, current@),
    {
        let query = text::query_text(s.menu_query.as_str());
        let ghost themes = self.facts.themes@;
        let mut visible: Vec<usize> = Vec::new();
        let mut i: usize = 0;
        assert(list@.take(0) =~= Seq::<usize>::empty());
        while i < list.len()
            invariant
                i <= list@.len(),
                themes == self.facts.themes@,
                forall|k: int| 0 <= k < list@.len() ==> #[trigger] list@[k] < themes.len(),
                forall|k: int| 0 <= k < visible@.len() ==> #[trigger] visible@[k] < themes.len(),
                visible@ == named(themes, list@.take(i as int), query@),
            decreases list@.len() - i,
        {
            assert(list@.take(i + 1).drop_last() =~= list@.take(i as int));
            let at: usize = list[i];
            let lower = text::to_lower(self.facts.themes[at].name.as_str());
            if query.as_str().is_empty() || text::contains(lower.as_str(), query.as_str()) {
                visible.push(at);
            }
            i = i + 1;
        }
        assert(list@.take(list@.len() as int) =~= list@);
        let n: usize = visible.len();
        let hi: usize = settings::clamp(s.menu_hi, n);
        let mut rows: Vec<ThemeRow> = Vec::new();
        let mut i: usize = 0;
        while i < n
            invariant
                i <= n == visible@.len(),
                themes == self.facts.themes@,
                hi == settings::clamped(s.menu_hi, visible@.len()),
                forall|k: int| 0 <= k < visible@.len() ==> #[trigger] visible@[k] < themes.len(),
                rows@.len() == i,
                forall|k: int|
                    0 <= k < i ==> #[trigger] rows@[k] == theme_menu_rows(
                        themes,
                        visible@,
                        s.menu_hi,
                        current@,
                    )[k],
            decreases n - i,
        {
            let t = &self.facts.themes[visible[i]];
            rows.push(
                ThemeRow {
                    theme: visible[i],
                    highlighted: i == hi,
                    checked: text::same(t.id.as_str(), current),
                    custom: t.custom,
                },
            );
            i = i + 1;
        }
        assert(rows@ =~= theme_menu_rows(themes, visible@, s.menu_hi, current@));
        let preview = if hi < n {
            Preview::Theme(visible[hi])
        } else {
            Preview::Current
        };
        let mut foot: Vec<FootLink> = Vec::new();
        foot.push(FootLink::DuplicateToEdit);
        foot.push(FootLink::OpenFolder);
        assert(foot@ =~= seq![FootLink::DuplicateToEdit, FootLink::OpenFolder]);
        ThemePopover {
            rows,
            preview,
            names_rejected: self.facts.rejected_themes > 0 && query.as_str().is_empty(),
            foot,
        }
    }
}

proof fn lemma_slot_places(themes: Seq<Theme>, dark: bool, current: Seq<char>)
    requires
        themes.len() <= usize::MAX,
    ensures
        slot_places(themes, dark, current).len() <= themes.len(),
        forall|i: int|
            0 <= i < slot_places(themes, dark, current).len() ==> (#[trigger] slot_places(
                themes,
                dark,
                current,
            )[i]) < themes.len(),
        forall|k: int|
            0 <= k < themes.len() && ((#[trigger] themes[k]).dark == dark || themes[k].id@
                == current) ==> slot_places(themes, dark, current).contains(k as usize),
    decreases themes.len(),
{
    if themes.len() > 0 {
        let h = themes.drop_last();
        lemma_slot_places(h, dark, current);
        let a = slot_places(themes, dark, current);
        let b = slot_places(h, dark, current);
        assert forall|k: int|
            0 <= k < themes.len() && ((#[trigger] themes[k]).dark == dark || themes[k].id@
                == current) implies a.contains(k as usize) by {
            if k < h.len() {
                assert(h[k] == themes[k]);
                let w = choose|w: int| 0 <= w < b.len() && b[w] == k as usize;
                assert(a[w] == k as usize);
            } else {
                assert(a[a.len() - 1] == k as usize);
            }
        }
        assert forall|i: int| 0 <= i < a.len() implies (#[trigger] a[i]) < themes.len() by {
            if i < b.len() {
                assert(a[i] == b[i]);
            }
        }
    }
}

/// A slot offers every theme of its shade and always the one it holds, those
/// that came with the terminal before the user's own.
pub proof fn a_slot_offers_its_shade_and_its_own(
    themes: Seq<Theme>,
    dark: bool,
    current: Seq<char>,
    k: int,
)
    requires
        themes.len() <= usize::MAX,
        0 <= k < themes.len(),
        themes[k].dark == dark || themes[k].id@ == current,
    ensures
        slot_list(themes, dark, current).contains(k as usize),
        forall|i: int, j: int|
            0 <= i < j < slot_list(themes, dark, current).len() && !themes[#[trigger] slot_list(
                themes,
                dark,
                current,
            )[j] as int].custom ==> !themes[#[trigger] slot_list(themes, dark, current)[i] as int].custom,
{
    let places = slot_places(themes, dark, current);
    let keys = custom_keys(themes, places);
    let o = order::order_of(keys);
    let list = slot_list(themes, dark, current);
    lemma_slot_places(themes, dark, current);
    order::lemma_order_exists(keys);
    assert(places.contains(k as usize));
    let w = choose|w: int| 0 <= w < places.len() && places[w] == k as usize;
    assert(o.contains(w as usize));
    let i = choose|i: int| 0 <= i < o.len() && o[i] == w as usize;
    assert(list[i] == k as usize);
    assert forall|i: int, j: int|
        0 <= i < j < list.len() && !themes[#[trigger] list[j] as int].custom implies !themes[
    #[trigger] list[i] as int].custom by {
        assert(order::goes_before(keys, o[i] as int, o[j] as int));
        assert(keys[o[i] as int] == custom_key(themes[list[i] as int]));
        assert(keys[o[j] as int] == custom_key(themes[list[j] as int]));
    }
}

proof fn lemma_theme_place(themes: Seq<Theme>, id: Seq<char>)
    ensures
        match theme_place(themes, id) {
            Some(i) => 0 <= i < themes.len() && themes[i].id@ == id && forall|k: int|
                0 <= k < i ==> (#[trigger] themes[k]).id@ != id,
            None => forall|k: int| 0 <= k < themes.len() ==> (#[trigger] themes[k]).id@ != id,
        },
    decreases themes.len(),
{
    if themes.len() > 0 {
        lemma_theme_place(themes.drop_last(), id);
        assert(forall|k: int|
            0 <= k < themes.len() - 1 ==> themes.drop_last()[k] == #[trigger] themes[k]);
    }
}

/// A theme is the first with its id; for an id that no theme has, another
/// stands in.
pub proof fn a_theme_is_found_by_its_id(app: Tty7App, id: Seq<char>)
    ensures
        (exists|k: int| 0 <= k < app.facts.themes@.len() && (#[trigger] app.facts.themes@[k]).id@
            == id) ==> theme_by_id(app, id).id@ == id,
        (forall|k: int| 0 <= k < app.facts.themes@.len() ==> (#[trigger] app.facts.themes@[k]).id@
            != id) ==> theme_by_id(app, id) == app.facts.fallback_theme,
{
    lemma_theme_place(app.facts.themes@, id);
}

/// The mode is the system's exactly while it is followed, and otherwise the
/// shade of the one theme in use.
pub proof fn the_mode_is_the_shade_in_use(app: Tty7App)
    ensures
        mode_of(app) is System <==> app.config.themes.follow_system,
        mode_of(app) is Dark <==> !app.config.themes.follow_system && theme_by_id(
            app,
            app.config.themes.single@,
        ).dark,
        mode_of(app) is Light <==> !app.config.themes.follow_system && !theme_by_id(
            app,
            app.config.themes.single@,
        ).dark,
{
}

/// Following the system there is a light slot by day and a dark one by night;
/// else one slot of the shade in use, whatever the time.
pub proof fn a_mode_has_the_slots_it_uses(mode: ThemeMode)
    ensures
        mode is System ==> slots_of(mode).len() == 2 && slots_of(mode)[0] == (Line::ThemeSlot {
            dark: false,
            desc: SlotDesc::ByDay,
        }) && slots_of(mode)[1] == (Line::ThemeSlot { dark: true, desc: SlotDesc::ByNight }),
        mode is Light ==> slots_of(mode).len() == 1 && slots_of(mode)[0] == (Line::ThemeSlot {
            dark: false,
            desc: SlotDesc::Always,
        }),
        mode is Dark ==> slots_of(mode).len() == 1 && slots_of(mode)[0] == (Line::ThemeSlot {
            dark: true,
            desc: SlotDesc::Always,
        }),
        mode is System ==> mode_desc(mode) is FollowsSystem,
        mode is Light ==> mode_desc(mode) is AlwaysLight,
        mode is Dark ==> mode_desc(mode) is AlwaysDark,
{
}

/// A theme that is picked is what its slot then holds. Following the system,
/// the other slot keeps its own; else one theme serves for both.
pub proof fn a_picked_theme_goes_into_its_slot(a: ThemePresets, dark: bool, id: String)
    ensures
        slot_theme(with_slot(a, dark, id), dark) == id@,
        a.follow_system ==> slot_theme(with_slot(a, dark, id), !dark) == slot_theme(a, !dark),
        a.follow_system && dark ==> with_slot(a, dark, id).dark@ == id@ && with_slot(
            a,
            dark,
            id,
        ).light == a.light && with_slot(a, dark, id).single == a.single,
        a.follow_system && !dark ==> with_slot(a, dark, id).light@ == id@ && with_slot(
            a,
            dark,
            id,
        ).dark == a.dark && with_slot(a, dark, id).single == a.single,
        !a.follow_system ==> with_slot(a, dark, id).single@ == id@ && with_slot(a, dark, id).dark
            == a.dark && with_slot(a, dark, id).light == a.light,
        with_slot(a, dark, id).follow_system == a.follow_system,
        a.follow_system && dark ==> slot_theme(a, dark) == a.dark@,
        a.follow_system && !dark ==> slot_theme(a, dark) == a.light@,
        !a.follow_system ==> slot_theme(a, dark) == a.single@,
{
}

proof fn lemma_slot_places_are(themes: Seq<Theme>, dark: bool, current: Seq<char>)
    requires
        themes.len() <= usize::MAX,
    ensures
        slot_places(themes, dark, current).len() <= themes.len(),
        forall|i: int|
            0 <= i < slot_places(themes, dark, current).len() ==> (#[trigger] slot_places(
                themes,
                dark,
                current,
            )[i]) < themes.len() && (themes[slot_places(themes, dark, current)[i] as int].dark
                == dark || themes[slot_places(themes, dark, current)[i] as int].id@ == current),
    decreases themes.len(),
{
    if themes.len() > 0 {
        let front = themes.drop_last();
        let head = slot_places(front, dark, current);
        let all = slot_places(themes, dark, current);
        lemma_slot_places_are(front, dark, current);
        assert forall|i: int| 0 <= i < all.len() implies (#[trigger] all[i]) < themes.len() && (
        themes[all[i] as int].dark == dark || themes[all[i] as int].id@ == current) by {
            if i < head.len() {
                assert(all[i] == head[i]);
                assert(front[head[i] as int] == themes[head[i] as int]);
            }
        }
    }
}

/// A slot offers no theme of the other shade, but for the one it holds.
pub proof fn a_slot_offers_nothing_of_the_other_shade(
    themes: Seq<Theme>,
    dark: bool,
    current: Seq<char>,
    i: int,
)
    requires
        themes.len() <= usize::MAX,
        0 <= i < slot_list(themes, dark, current).len(),
    ensures
        slot_list(themes, dark, current)[i] < themes.len(),
        themes[slot_list(themes, dark, current)[i] as int].dark == dark || themes[slot_list(
            themes,
            dark,
            current,
        )[i] as int].id@ == current,
{
    let places = slot_places(themes, dark, current);
    let keys = custom_keys(themes, places);
    lemma_slot_places_are(themes, dark, current);
    order::lemma_order_exists(keys);
    let o = order::order_of(keys);
    assert(o[i] < places.len());
}

/// A search in a slot leaves the themes whose names hold it, in their order.
pub proof fn a_theme_is_found_by_its_name(themes: Seq<Theme>, list: Seq<usize>, query: Seq<char>)
    ensures
        named(themes, list, query) == list.filter(
            |t: usize|
                query.len() == 0 || text::occurs(text::lower_of(themes[t as int].name@), query),
        ),
    decreases list.len(),
{
    reveal(Seq::filter);
    if list.len() > 0 {
        a_theme_is_found_by_its_name(themes, list.drop_last(), query);
    }
}

/// The menu of a slot starts at the theme it holds.
pub proof fn a_menu_starts_at_the_theme_it_holds(
    themes: Seq<Theme>,
    list: Seq<usize>,
    id: Seq<char>,
    k: int,
)
    requires
        list.len() <= usize::MAX,
        0 <= k < list.len(),
        themes[list[k] as int].id@ == id,
        forall|i: int| 0 <= i < k ==> themes[(#[trigger] list[i]) as int].id@ != id,
    ensures
        start_at(themes, list, id) == k,
    decreases list.len(),
{
    let front = list.drop_last();
    if k < front.len() {
        assert(front[k] == list[k]);
        assert(exists|i: int|
            0 <= i < list.len() - 1 && themes[#[trigger] list[i] as int].id@ == id);
        a_menu_starts_at_the_theme_it_holds(themes, front, id, k);
    } else {
        assert(!(exists|i: int|
            0 <= i < list.len() - 1 && themes[#[trigger] list[i] as int].id@ == id));
    }
}

/// A row of the menu is checked exactly where it is the theme in use, and
/// lit exactly where the menu stands; the preview is of the one that is lit.
pub proof fn the_lit_theme_is_previewed(
    p: ThemePopover,
    app: Tty7App,
    s: SettingsState,
    list: Seq<usize>,
    current: Seq<char>,
    i: int,
)
    requires
        is_popover(p, app, s, list, current),
        0 <= i < p.rows@.len(),
    ensures
        p.rows@[i].checked <==> app.facts.themes@[p.rows@[i].theme as int].id@ == current,
        p.rows@[i].custom == app.facts.themes@[p.rows@[i].theme as int].custom,
        p.rows@[i].highlighted ==> p.preview == Preview::Theme(p.rows@[i].theme),
        p.names_rejected ==> app.facts.rejected_themes > 0 && text::query_of(s.menu_query@).len()
            == 0,
{
}

/// A picture can be removed and changed where there is one, and only chosen
/// where there is none; only a picture has an opacity.
pub proof fn a_picture_can_be_removed_only_where_there_is_one(app: Tty7App)
    ensures
        app.facts.theme_image ==> image_rows(app).len() == 2,
        !app.facts.theme_image ==> image_rows(app).len() == 1,
        image_rows(app)[0] matches Line::Row(row) && (row.control matches Control::Buttons {
            first,
            last,
            ..
        } && (first is Some <==> app.facts.theme_image) && (app.facts.theme_image ==> last.key
            == BtnKey::ChangeImage && first->0.key == BtnKey::RemoveImage) && (
        !app.facts.theme_image ==> last.key == BtnKey::ChooseImage)),
{
}

/// A copy is made of the theme the slot holds.
pub proof fn a_copy_is_of_the_theme_in_the_slot(
    work: FootWork,
    app: Tty7App,
    dark: bool,
    link: FootLink,
)
    requires
        is_foot_work(work, app, dark, link),
    ensures
        link is OpenFolder ==> work is OpenFolder,
        link is DuplicateToEdit ==> work is CopyTheme,
        link is DuplicateToEdit && (exists|k: int|
            0 <= k < app.facts.themes@.len() && (#[trigger] app.facts.themes@[k]).id@ == slot_theme(
                app.config.themes,
                dark,
            )) ==> work->CopyTheme_0@ == slot_theme(app.config.themes, dark),
{
    a_theme_is_found_by_its_id(app, slot_theme(app.config.themes, dark));
}

/// The group of themes chooses the mode first, then the theme of each slot in
/// use, and whether the palette is kept legible.
pub proof fn themes_are_chosen_by_mode_and_slot(app: Tty7App)
    ensures
        theme_group(app).title == Some(HeadKey::Theme),
        theme_group(app).body.len() == slots_of(mode_of(app)).len() + 2,
        theme_group(app).body[0] matches Line::Row(row) && row.key == RowKey::SyncWithSystem
            && row.control == Control::ThemeModes && row.desc == mode_desc(mode_of(app)),
        forall|i: int|
            0 <= i < slots_of(mode_of(app)).len() ==> #[trigger] slots_of(mode_of(app))[i]
                == theme_group(app).body[i + 1],
        theme_group(app).body.last() matches Line::Row(row) && row.key == RowKey::LegiblePalette
            && row.control == (Control::Switch {
            on: app.config.theme_legible_palette,
            disabled: false,
        }),
{
}

/// The editor is drawn exactly while a theme is edited, with a row for each of
/// its seed colours; the page holds the themes, the editor, and then the text.
pub proof fn an_editor_is_drawn_while_a_theme_is_edited(app: Tty7App)
    ensures
        editor_group(app) is Some <==> app.settings is Some && app.settings->0.theme_editor is Some,
        editor_group(app) is Some ==> {
            let seeds = app.settings->0.theme_editor->0;
            let body = editor_group(app)->0.body;
            &&& editor_group(app)->0.title == Some(HeadKey::EditTheme)
            &&& body.len() == seeds + image_rows(app).len() + 2
            &&& forall|i: int|
                #![trigger body[i]]
                0 <= i < seeds ==> (body[i] matches Line::Row(row) && row.key == RowKey::SeedColor(
                    i as u8,
                ) && row.control == Control::ColorPicker)
            &&& body.last() == Line::ThemesFolder
        },
        appearance_page(app)[0] == theme_group(app),
        editor_group(app) is Some ==> appearance_page(app)[1] == editor_group(app)->0
            && appearance_page(app).len() == 6,
        editor_group(app) is None ==> appearance_page(app).len() == 5 && appearance_page(app)[1]
            == settings_pages::text_groups(app)[0],
{
    if editor_group(app) is Some {
        let seeds = app.settings->0.theme_editor->0 as nat;
        let body = editor_group(app)->0.body;
        assert(body == editor_rows(app, seeds));
        assert forall|i: int|
            #![trigger body[i]]
            0 <= i < seeds implies (body[i] matches Line::Row(row) && row.key == RowKey::SeedColor(
            i as u8,
        ) && row.control == Control::ColorPicker) by {
            assert(body[i] == seed_rows(app, seeds)[i]);
        }
    }
}

/// Each slot opens a menu of its own.
pub proof fn each_slot_has_its_own_menu()
    ensures
        slot_id(true) == "theme-slot-dark"@,
        slot_id(false) == "theme-slot-light"@,
{
}

} // verus!
