//! Looking for a setting: what is found and in which order, the keys that walk
//! what was found, and the rail beside the pages.

use vstd::prelude::*;
use vstd::string::*;
use crate::order;
use crate::settings;
use crate::settings::{
    BindingHit, Btn, BtnKey, BtnKind, RowKey, SearchEntry, SettingsSection, SettingsState, Tty7App,
};
use crate::shortcuts::ShortcutsState;
use crate::text;

verus! {

/// Whether an entry is among what was found.
pub open spec fn is_found(e: SearchEntry, modified_only: bool) -> bool {
    e.matches && (!modified_only || e.modified)
}

/// The entries that were found, in the order of the catalog.
pub open spec fn found(catalog: Seq<SearchEntry>, modified_only: bool) -> Seq<SearchEntry>
    decreases catalog.len(),
{
    if catalog.len() == 0 {
        Seq::empty()
    } else if is_found(catalog.last(), modified_only) {
        found(catalog.drop_last(), modified_only).push(catalog.last())
    } else {
        found(catalog.drop_last(), modified_only)
    }
}

/// The place of a page on the rail, the front when it is not on it.
pub open spec fn rail_place(sections: Seq<SettingsSection>, section: SettingsSection) -> nat
    decreases sections.len(),
{
    if sections.len() == 0 {
        0
    } else if sections.drop_last().contains(section) || sections.last() != section {
        rail_place(sections.drop_last(), section)
    } else {
        (sections.len() - 1) as nat
    }
}

pub fn rail_position(sections: &Vec<SettingsSection>, section: SettingsSection) -> (r: usize)
    ensures
        r == rail_place(sections@, section),
{
    let mut at: Option<usize> = None;
    let mut i: usize = 0;
    assert(sections@.take(0) =~= Seq::<SettingsSection>::empty());
    while i < sections.len()
        invariant
            i <= sections@.len(),
            match at {
                Some(k) => k < i && sections@[k as int] == section && rail_place(
                    sections@.take(i as int),
                    section,
                ) == k,
                None => rail_place(sections@.take(i as int), section) == 0 && forall|k: int|
                    0 <= k < i ==> #[trigger] sections@[k] != section,
            },
        decreases sections@.len() - i,
    {
        proof {
            let t = sections@.take(i + 1);
            assert(t.drop_last() =~= sections@.take(i as int));
            if at is Some {
                assert(t.drop_last()[at->0 as int] == section);
            }
        }
        if at.is_none() && sections[i] == section {
            at = Some(i);
        }
        i = i + 1;
    }
    assert(sections@.take(sections@.len() as int) =~= sections@);
    match at {
        Some(k) => k,
        None => 0,
    }
}

/// What an entry is listed by: its page, then how well it is found.
pub open spec fn result_key(sections: Seq<SettingsSection>, e: SearchEntry) -> order::KeyView {
    order::KeyView {
        major: rail_place(sections, e.section),
        minor: e.rank as nat,
        text: Seq::empty(),
    }
}

pub open spec fn result_keys(sections: Seq<SettingsSection>, entries: Seq<SearchEntry>) -> Seq<
    order::KeyView,
> {
    Seq::new(entries.len(), |i: int| result_key(sections, entries[i]))
}

/// What was found, page by page in the order of the rail, the best first.
pub open spec fn results_of(
    catalog: Seq<SearchEntry>,
    sections: Seq<SettingsSection>,
    modified_only: bool,
) -> Seq<SearchEntry> {
    let hits = found(catalog, modified_only);
    let o = order::order_of(result_keys(sections, hits));
    Seq::new(hits.len(), |i: int| hits[o[i] as int])
}

/// What was found, in the order it is drawn.
pub fn search_result_order(
    catalog: &Vec<SearchEntry>,
    sections: &Vec<SettingsSection>,
    modified_only: bool,
) -> (r: Vec<SearchEntry>)
    ensures
        r@ == results_of(catalog@, sections@, modified_only),
{
    let mut hits: Vec<SearchEntry> = Vec::new();
    let mut keys: Vec<order::SortKey> = Vec::new();
    let mut i: usize = 0;
    assert(catalog@.take(0) =~= Seq::<SearchEntry>::empty());
    while i < catalog.len()
        invariant
            i <= catalog@.len(),
            hits@ == found(catalog@.take(i as int), modified_only),
            keys@.len() == hits@.len(),
            forall|k: int|
                0 <= k < keys@.len() ==> (#[trigger] keys@[k])@ == result_key(sections@, hits@[k]),
        decreases catalog@.len() - i,
    {
        assert(catalog@.take(i + 1).drop_last() =~= catalog@.take(i as int));
        let e = catalog[i];
        if e.matches && (!modified_only || e.modified) {
            let place: usize = rail_position(sections, e.section);
            let key = order::key_of(place as u64, e.rank, "");
            proof {
                reveal_strlit("");
                assert(key@.text =~= Seq::<char>::empty());
            }
            hits.push(e);
            keys.push(key);
        }
        i = i + 1;
    }
    assert(catalog@.take(catalog@.len() as int) =~= catalog@);
    let o = order::stable_order(&keys);
    assert(order::key_views(keys@) =~= result_keys(sections@, hits@));
    let mut out: Vec<SearchEntry> = Vec::new();
    let mut i: usize = 0;
    while i < o.len()
        invariant
            i <= o@.len(),
            hits@ == found(catalog@, modified_only),
            o@ == order::order_of(result_keys(sections@, hits@)),
            order::is_stable_order(result_keys(sections@, hits@), o@),
            out@.len() == i,
            forall|k: int| 0 <= k < i ==> #[trigger] out@[k] == hits@[o@[k] as int],
        decreases o@.len() - i,
    {
        out.push(hits[o[i]]);
        i = i + 1;
    }
    assert(out@ =~= results_of(catalog@, sections@, modified_only));
    out
}

/// The actions that are found.
pub open spec fn found_actions(bindings: Seq<BindingHit>) -> Seq<Seq<char>>
    decreases bindings.len(),
{
    if bindings.len() == 0 {
        Seq::empty()
    } else if bindings.last().matches {
        found_actions(bindings.drop_last()).push(bindings.last().action@)
    } else {
        found_actions(bindings.drop_last())
    }
}

/// The actions a query names; none without a query, and none while only what
/// was changed is shown.
pub open spec fn actions_of(bindings: Seq<BindingHit>, query: Seq<char>, modified_only: bool) -> Seq<
    Seq<char>,
> {
    if query.len() == 0 || modified_only {
        Seq::empty()
    } else {
        found_actions(bindings)
    }
}

/// The actions a query names.
pub fn search_result_actions(bindings: &Vec<BindingHit>, query: &str, modified_only: bool) -> (r:
    Vec<String>)
    ensures
        text::views(r@) == actions_of(bindings@, query@, modified_only),
{
    let mut out: Vec<String> = Vec::new();
    if query.is_empty() || modified_only {
        assert(text::views(out@) =~= Seq::<Seq<char>>::empty());
        return out;
    }
    let mut i: usize = 0;
    assert(bindings@.take(0) =~= Seq::<BindingHit>::empty());
    assert(text::views(out@) =~= found_actions(bindings@.take(0)));
    while i < bindings.len()
        invariant
            i <= bindings@.len(),
            text::views(out@) == found_actions(bindings@.take(i as int)),
        decreases bindings@.len() - i,
    {
        assert(bindings@.take(i + 1).drop_last() =~= bindings@.take(i as int));
        if bindings[i].matches {
            let ghost before = text::views(out@);
            out.push(bindings[i].action.clone());
            assert(text::views(out@) =~= before.push(bindings@[i as int].action@));
        }
        i = i + 1;
    }
    assert(bindings@.take(bindings@.len() as int) =~= bindings@);
    out
}

/// The keys the page takes before any control sees them.
#[derive(Clone, Copy, Debug, PartialEq, Eq, Structural)]
pub enum PageKey {
    /// The chord that goes to the search.
    Find,
    Up,
    Down,
    Enter,
    Other,
}

/// Which key a keystroke is: the search's chord is `f` with the platform's
/// modifier, without Shift.
pub fn page_key(key: &str, secondary: bool, shift: bool) -> (r: PageKey)
    ensures
        r == (if key@ == "f"@ && secondary && !shift {
            PageKey::Find
        } else if key@ == "up"@ {
            PageKey::Up
        } else if key@ == "down"@ {
            PageKey::Down
        } else if key@ == "enter"@ {
            PageKey::Enter
        } else {
            PageKey::Other
        }),
{
    if text::same(key, "f") && secondary && !shift {
        PageKey::Find
    } else if text::same(key, "up") {
        PageKey::Up
    } else if text::same(key, "down") {
        PageKey::Down
    } else if text::same(key, "enter") {
        PageKey::Enter
    } else {
        PageKey::Other
    }
}

/// What a key of the page leads to.
#[derive(Debug)]
pub enum CaptureStep {
    /// The key is not the page's.
    Passed,
    Taken,
    FocusSearch,
    Navigate { section: SettingsSection, title: RowKey },
    OpenShortcut(String),
}

/// The page an entry is opened on: the shortcuts have a page of their own.
pub open spec fn target_of(e: SearchEntry) -> SettingsSection {
    if e.title == RowKey::Keybindings {
        SettingsSection::Keybindings
    } else {
        e.section
    }
}

pub fn target_section(e: &SearchEntry) -> (r: SettingsSection)
    ensures
        r == target_of(*e),
{
    if e.title == RowKey::Keybindings {
        SettingsSection::Keybindings
    } else {
        e.section
    }
}

/// The selection kept within `count` results.
pub open spec fn selected_at(selection: usize, count: nat) -> int {
    if selection < count {
        selection as int
    } else {
        count - 1
    }
}

/// A key of the page leads from `s` to `t` and to `r`. The chord goes to the
/// search and closes any menu. While results are shown and the search has the
/// focus, the arrows walk them and stop at the ends, and Enter opens the one
/// that is selected.
pub open spec fn captures(
    s: Tty7App,
    searching: bool,
    search_focused: bool,
    key: PageKey,
    t: Tty7App,
    r: CaptureStep,
) -> bool {
    match s.settings {
        None => t == s && r is Passed,
        Some(st) => {
            let query = text::query_of(st.search@);
            let entries = results_of(s.catalog@, s.sections@, st.modified_only);
            let actions = actions_of(s.bindings@, query, st.modified_only);
            let count = entries.len() + actions.len();
            if key == PageKey::Find {
                r is FocusSearch && t == (Tty7App {
                    settings: Some(SettingsState { menu: None, ..st }),
                    ..s
                })
            } else if !searching || !search_focused || key == PageKey::Other {
                r is Passed && t == s
            } else if count == 0 {
                r is Taken && t == s
            } else {
                let index = selected_at(st.search_selection, count);
                if key == PageKey::Enter {
                    t == s && if index >= entries.len() {
                        r matches CaptureStep::OpenShortcut(a) && a@ == actions[index
                            - entries.len()]
                    } else {
                        r == CaptureStep::Navigate {
                            section: target_of(entries[index]),
                            title: entries[index].title,
                        }
                    }
                } else {
                    r is Taken && t == (Tty7App {
                        settings: Some(
                            SettingsState {
                                search_selection: if key == PageKey::Down {
                                    (if index + 1 < count {
                                        index + 1
                                    } else {
                                        index
                                    }) as usize
                                } else {
                                    (if index > 0 {
                                        index - 1
                                    } else {
                                        0
                                    }) as usize
                                },
                                reveal_first_hit: true,
                                ..st
                            },
                        ),
                        ..s
                    })
                }
            }
        },
    }
}

/// A page of the rail.
#[derive(Clone, Copy, Debug, PartialEq, Eq, Structural)]
pub struct RailItem {
    pub section: SettingsSection,
    pub active: bool,
    /// How many of its settings were changed.
    pub changed: usize,
}

/// The rail beside the pages.
#[derive(Debug)]
pub struct Rail {
    pub items: Vec<RailItem>,
    /// How many settings were changed on all the pages.
    pub changed: usize,
    pub modified_only: bool,
}

/// How many settings of a page were changed.
pub open spec fn changed_on(catalog: Seq<SearchEntry>, section: SettingsSection) -> nat
    decreases catalog.len(),
{
    if catalog.len() == 0 {
        0
    } else {
        changed_on(catalog.drop_last(), section) + (if catalog.last().section == section
            && catalog.last().modified {
            1nat
        } else {
            0
        })
    }
}

/// How many settings were changed on these pages together.
pub open spec fn changed_in(catalog: Seq<SearchEntry>, sections: Seq<SettingsSection>) -> nat
    decreases sections.len(),
{
    if sections.len() == 0 {
        0
    } else {
        changed_in(catalog, sections.drop_last()) + changed_on(catalog, sections.last())
    }
}

fn count_changed(catalog: &Vec<SearchEntry>, section: SettingsSection) -> (r: usize)
    ensures
        r == changed_on(catalog@, section),
{
    let mut n: usize = 0;
    let mut i: usize = 0;
    assert(catalog@.take(0) =~= Seq::<SearchEntry>::empty());
    while i < catalog.len()
        invariant
            i <= catalog@.len(),
            n <= i,
            n == changed_on(catalog@.take(i as int), section),
        decreases catalog@.len() - i,
    {
        assert(catalog@.take(i + 1).drop_last() =~= catalog@.take(i as int));
        if catalog[i].section == section && catalog[i].modified {
            n = n + 1;
        }
        i = i + 1;
    }
    assert(catalog@.take(catalog@.len() as int) =~= catalog@);
    n
}

/// `r` is the rail.
pub open spec fn is_rail(r: Rail, app: Tty7App, s: SettingsState, searching: bool) -> bool {
    &&& r.items@ == Seq::new(
        app.sections@.len(),
        |i: int|
            RailItem {
                section: app.sections@[i],
                active: !searching && s.section.rail_page() == app.sections@[i],
                changed: changed_on(app.catalog@, app.sections@[i]) as usize,
            },
    )
    &&& r.changed == changed_in(app.catalog@, app.sections@)
    &&& r.modified_only == s.modified_only
}

/// A notice at the top of a page.
#[derive(Debug)]
pub enum Notice {
    /// A theme was edited and not saved, and why saving failed.
    ThemeDraft { error: Option<String>, save: Btn, cancel: Btn },
    SaveFailed { reason: String, retry: Btn },
}

/// The notices: an unsaved theme first, then a failed save.
pub open spec fn notices_of(s: SettingsState) -> Seq<Notice> {
    let draft = if s.theme_draft_dirty {
        seq![
            Notice::ThemeDraft {
                error: s.theme_draft_error,
                save: settings::button_of(BtnKey::SaveTheme, BtnKind::Primary),
                cancel: settings::button_of(BtnKey::CancelTheme, BtnKind::Secondary),
            },
        ]
    } else {
        Seq::empty()
    };
    let failed = match s.save_error {
        Some(reason) => seq![
            Notice::SaveFailed {
                reason,
                retry: settings::button_of(BtnKey::RetrySave, BtnKind::Secondary),
            },
        ],
        None => Seq::empty(),
    };
    draft + failed
}

/// What Escape leads to.
#[derive(Clone, Copy, Debug, PartialEq, Eq, Structural)]
pub enum EscapeStep {
    ClosedMenu,
    DroppedConflict,
    ClearedSearch,
    CloseSettings,
}

/// Escape leads from `s` to `t` and to `r`: it peels one layer, an open menu
/// first, then a shortcut's conflict, then the search, and at last the window.
pub open spec fn peels(s: SettingsState, searching: bool, t: SettingsState, r: EscapeStep) -> bool {
    if s.menu is Some {
        r == EscapeStep::ClosedMenu && t == (SettingsState { menu: None, ..s })
    } else if s.keys.conflict is Some {
        r == EscapeStep::DroppedConflict && t == (SettingsState {
            keys: ShortcutsState { conflict: None, ..s.keys },
            ..s
        })
    } else if searching {
        &&& r == EscapeStep::ClearedSearch
        &&& t == (SettingsState { modified_only: false, search: t.search, ..s })
        &&& t.search@.len() == 0
    } else {
        r == EscapeStep::CloseSettings && t == s
    }
}

impl Tty7App {
    /// A key of the page, before any control sees it.
    pub fn settings_capture_key(&mut self, searching: bool, search_focused: bool, key: PageKey) -> (r:
        CaptureStep)
        requires
            old(self).catalog@.len() + old(self).bindings@.len() <= usize::MAX,
        ensures
            captures(*old(self), searching, search_focused, key, *final(self), r),
    {
        if self.settings.is_none() {
            return CaptureStep::Passed;
        }
        if key == PageKey::Find {
            match &mut self.settings {
                Some(s) => {
                    s.menu = None;
                },
                None => {},
            }
            return CaptureStep::FocusSearch;
        }
        if !searching || !search_focused || key == PageKey::Other {
            return CaptureStep::Passed;
        }
        let (query, modified_only, selection): (String, bool, usize) = match &self.settings {
            Some(s) => (
                text::query_text(s.search.as_str()),
                s.modified_only,
                s.search_selection,
            ),
            None => (String::new(), false, 0),
        };
        let entries = search_result_order(&self.catalog, &self.sections, modified_only);
        let actions = search_result_actions(&self.bindings, query.as_str(), modified_only);
        assert(text::views(actions@).len() == actions@.len());
        proof {
            lemma_found_len(self.catalog@, modified_only);
            lemma_found_actions_len(self.bindings@);
        }
        let shown: usize = entries.len();
        let count: usize = shown + actions.len();
        if count == 0 {
            return CaptureStep::Taken;
        }
        let index: usize = if selection < count {
            selection
        } else {
            count - 1
        };
        if key == PageKey::Enter {
            if index >= shown {
                return CaptureStep::OpenShortcut(actions[index - shown].clone());
            }
            let e = entries[index];
            return CaptureStep::Navigate { section: target_section(&e), title: e.title };
        }
        let next: usize = if key == PageKey::Down {
            if index + 1 < count {
                index + 1
            } else {
                index
            }
        } else if index > 0 {
            index - 1
        } else {
            0
        };
        match &mut self.settings {
            Some(s) => {
                s.search_selection = next;
                s.reveal_first_hit = true;
            },
            None => {},
        }
        CaptureStep::Taken
    }

    /// Filter the shortcuts by one action; the page to go to.
    pub fn open_shortcut_search(&mut self, action: String) -> (r: Option<SettingsSection>)
        ensures
            *final(self) == (Tty7App { settings: final(self).settings, ..*old(self) }),
            match old(self).settings {
                Some(s) => r == Some(SettingsSection::Keybindings) && final(self).settings == Some(
                    SettingsState { keys: ShortcutsState { search: action, ..s.keys }, ..s },
                ),
                None => r is None && final(self).settings is None,
            },
    {
        match &mut self.settings {
            Some(s) => {
                s.keys.search = action;
                Some(SettingsSection::Keybindings)
            },
            None => None,
        }
    }

    /// The rail beside the pages.
    pub fn render_settings_nav(&self, searching: bool) -> (r: Option<Rail>)
        requires
            changed_in(self.catalog@, self.sections@) <= usize::MAX,
        ensures
            match self.settings {
                Some(s) => r matches Some(rail) && is_rail(rail, *self, s, searching),
                None => r is None,
            },
    {
        match &self.settings {
            None => None,
            Some(s) => {
                let section = s.section.navigation_section();
                let mut items: Vec<RailItem> = Vec::new();
                let mut total: usize = 0;
                let mut i: usize = 0;
                assert(self.sections@.take(0) =~= Seq::<SettingsSection>::empty());
                while i < self.sections.len()
                    invariant
                        i <= self.sections@.len(),
                        section == s.section.rail_page(),
                        changed_in(self.catalog@, self.sections@) <= usize::MAX,
                        total == changed_in(self.catalog@, self.sections@.take(i as int)),
                        items@.len() == i,
                        forall|k: int|
                            0 <= k < i ==> #[trigger] items@[k] == (RailItem {
                                section: self.sections@[k],
                                active: !searching && section == self.sections@[k],
                                changed: changed_on(self.catalog@, self.sections@[k]) as usize,
                            }),
                    decreases self.sections@.len() - i,
                {
                    assert(self.sections@.take(i + 1).drop_last() =~= self.sections@.take(i as int));
                    let target = self.sections[i];
                    let n: usize = count_changed(&self.catalog, target);
                    proof {
                        lemma_changed_in_grows(self.catalog@, self.sections@, i + 1);
                    }
                    total = total + n;
                    items.push(
                        RailItem {
                            section: target,
                            active: !searching && section == target,
                            changed: n,
                        },
                    );
                    i = i + 1;
                }
                assert(self.sections@.take(self.sections@.len() as int) =~= self.sections@);
                let rail = Rail { items, changed: total, modified_only: s.modified_only };
                assert(rail.items@ =~= Seq::new(
                    self.sections@.len(),
                    |i: int|
                        RailItem {
                            section: self.sections@[i],
                            active: !searching && s.section.rail_page() == self.sections@[i],
                            changed: changed_on(self.catalog@, self.sections@[i]) as usize,
                        },
                ));
                Some(rail)
            },
        }
    }

    /// The notices at the top of a page.
    pub fn render_settings_notices(&self) -> (r: Vec<Notice>)
        ensures
            r@ == (match self.settings {
                Some(s) => notices_of(s),
                None => Seq::empty(),
            }),
    {
        let mut out: Vec<Notice> = Vec::new();
        match &self.settings {
            None => {},
            Some(s) => {
                if s.theme_draft_dirty {
                    out.push(
                        Notice::ThemeDraft {
                            error: text::copy_option(&s.theme_draft_error),
                            save: Btn::new(BtnKey::SaveTheme, BtnKind::Primary),
                            cancel: Btn::new(BtnKey::CancelTheme, BtnKind::Secondary),
                        },
                    );
                }
                match &s.save_error {
                    Some(reason) => {
                        out.push(
                            Notice::SaveFailed {
                                reason: reason.clone(),
                                retry: Btn::new(BtnKey::RetrySave, BtnKind::Secondary),
                            },
                        );
                    },
                    None => {},
                }
                assert(out@ =~= notices_of(*s));
            },
        }
        out
    }

    /// Escape on the page.
    pub fn settings_escape(&mut self, searching: bool) -> (r: EscapeStep)
        ensures
            *final(self) == (Tty7App { settings: final(self).settings, ..*old(self) }),
            match old(self).settings {
                Some(s) => final(self).settings matches Some(t) && peels(s, searching, t, r),
                None => final(self).settings is None && r == EscapeStep::CloseSettings,
            },
    {
        match &mut self.settings {
            None => EscapeStep::CloseSettings,
            Some(s) => {
                if s.menu.is_some() {
                    s.menu = None;
                    return EscapeStep::ClosedMenu;
                }
                if s.keys.conflict.is_some() {
                    s.keys.conflict = None;
                    return EscapeStep::DroppedConflict;
                }
                if searching {
                    s.modified_only = false;
                    s.search = String::new();
                    return EscapeStep::ClearedSearch;
                }
                EscapeStep::CloseSettings
            },
        }
    }

    /// Show only what was changed, or everything again.
    pub fn toggle_modified_only(&mut self)
        ensures
            *final(self) == (Tty7App { settings: final(self).settings, ..*old(self) }),
            match old(self).settings {
                Some(s) => final(self).settings == Some(
                    SettingsState { modified_only: !s.modified_only, ..s },
                ),
                None => final(self).settings is None,
            },
    {
        match &mut self.settings {
            Some(s) => {
                s.modified_only = !s.modified_only;
            },
            None => {},
        }
    }

    /// Whether to scroll to the first hit, asked once for each time it was
    /// wanted.
    pub fn take_reveal(&mut self) -> (r: bool)
        ensures
            *final(self) == (Tty7App { settings: final(self).settings, ..*old(self) }),
            match old(self).settings {
                None => final(self).settings is None && !r,
                Some(s) => {
                    &&& final(self).settings == Some(SettingsState { reveal_first_hit: false, ..s })
                    &&& r == (s.reveal_first_hit && (s.search_active || s.focused_setting is Some || (
                    text::query_of(s.search@).len() > 0 && settings::section_match_count(
                        old(self).catalog@,
                        s.section,
                    ) > 0)))
                },
            },
    {
        let found: bool = match &self.settings {
            Some(s) => {
                let query = text::query_text(s.search.as_str());
                s.search_active || s.focused_setting.is_some() || (!query.as_str().is_empty()
                    && settings::any_match(&self.catalog, s.section))
            },
            None => false,
        };
        match &mut self.settings {
            Some(s) => {
                let wanted: bool = s.reveal_first_hit;
                s.reveal_first_hit = false;
                wanted && found
            },
            None => false,
        }
    }
}

proof fn lemma_found_len(catalog: Seq<SearchEntry>, modified_only: bool)
    ensures
        found(catalog, modified_only).len() <= catalog.len(),
    decreases catalog.len(),
{
    if catalog.len() > 0 {
        lemma_found_len(catalog.drop_last(), modified_only);
    }
}

pub proof fn lemma_found_actions_len(bindings: Seq<BindingHit>)
    ensures
        found_actions(bindings).len() <= bindings.len(),
    decreases bindings.len(),
{
    if bindings.len() > 0 {
        lemma_found_actions_len(bindings.drop_last());
    }
}

proof fn lemma_changed_in_grows(catalog: Seq<SearchEntry>, sections: Seq<SettingsSection>, n: int)
    requires
        0 <= n <= sections.len(),
    ensures
        changed_in(catalog, sections.take(n)) <= changed_in(catalog, sections),
    decreases sections.len() - n,
{
    if n < sections.len() {
        lemma_changed_in_grows(catalog, sections, n + 1);
        assert(sections.take(n + 1).drop_last() =~= sections.take(n));
    } else {
        assert(sections.take(n) =~= sections);
    }
}

/// Everything that is found is drawn, and nothing else; each page's settings
/// stand together, in the order of the rail.
pub proof fn results_hold_what_was_found(
    catalog: Seq<SearchEntry>,
    sections: Seq<SettingsSection>,
    modified_only: bool,
)
    requires
        catalog.len() <= usize::MAX,
    ensures
        forall|i: int|
            0 <= i < results_of(catalog, sections, modified_only).len() ==> is_found(
                #[trigger] results_of(catalog, sections, modified_only)[i],
                modified_only,
            ),
        forall|k: int|
            0 <= k < catalog.len() && is_found(#[trigger] catalog[k], modified_only)
                ==> results_of(catalog, sections, modified_only).contains(catalog[k]),
        forall|i: int, j: int|
            0 <= i < j < results_of(catalog, sections, modified_only).len() ==> rail_place(
                sections,
                (#[trigger] results_of(catalog, sections, modified_only)[i]).section,
            ) <= rail_place(
                sections,
                (#[trigger] results_of(catalog, sections, modified_only)[j]).section,
            ),
{
    let hits = found(catalog, modified_only);
    let keys = result_keys(sections, hits);
    let o = order::order_of(keys);
    let r = results_of(catalog, sections, modified_only);
    lemma_found_len(catalog, modified_only);
    lemma_found_holds(catalog, modified_only);
    order::lemma_order_exists(keys);
    assert forall|k: int| 0 <= k < catalog.len() && is_found(#[trigger] catalog[k], modified_only) implies r.contains(
        catalog[k],
    ) by {
        assert(hits.contains(catalog[k]));
        let w = choose|w: int| 0 <= w < hits.len() && hits[w] == catalog[k];
        assert(o.contains(w as usize));
        let i = choose|i: int| 0 <= i < o.len() && o[i] == w as usize;
        assert(r[i] == catalog[k]);
    }
    assert forall|i: int| 0 <= i < r.len() implies is_found(#[trigger] r[i], modified_only) by {
        assert(r[i] == hits[o[i] as int]);
    }
    assert forall|i: int, j: int| 0 <= i < j < r.len() implies rail_place(
        sections,
        (#[trigger] r[i]).section,
    ) <= rail_place(sections, (#[trigger] r[j]).section) by {
        assert(order::goes_before(keys, o[i] as int, o[j] as int));
        assert(keys[o[i] as int] == result_key(sections, r[i]));
        assert(keys[o[j] as int] == result_key(sections, r[j]));
    }
}

proof fn lemma_found_holds(catalog: Seq<SearchEntry>, modified_only: bool)
    ensures
        forall|i: int|
            0 <= i < found(catalog, modified_only).len() ==> is_found(
                #[trigger] found(catalog, modified_only)[i],
                modified_only,
            ),
        forall|k: int|
            0 <= k < catalog.len() && is_found(#[trigger] catalog[k], modified_only) ==> found(
                catalog,
                modified_only,
            ).contains(catalog[k]),
    decreases catalog.len(),
{
    if catalog.len() > 0 {
        let h = catalog.drop_last();
        lemma_found_holds(h, modified_only);
        let a = found(catalog, modified_only);
        let b = found(h, modified_only);
        assert forall|k: int| 0 <= k < catalog.len() && is_found(
            #[trigger] catalog[k],
            modified_only,
        ) implies a.contains(catalog[k]) by {
            if k < h.len() {
                assert(h[k] == catalog[k]);
                let w = choose|w: int| 0 <= w < b.len() && b[w] == catalog[k];
                assert(a[w] == catalog[k]);
            } else {
                assert(a[a.len() - 1] == catalog[k]);
            }
        }
    }
}

/// Escape always gets to the window in the end: every layer it peels leaves
/// one fewer.
pub proof fn escape_leaves_fewer_layers(
    s: SettingsState,
    searching: bool,
    t: SettingsState,
    r: EscapeStep,
)
    requires
        peels(s, searching, t, r),
    ensures
        r == EscapeStep::ClosedMenu ==> s.menu is Some && t.menu is None,
        r == EscapeStep::DroppedConflict ==> s.menu is None && s.keys.conflict is Some
            && t.keys.conflict is None,
        r == EscapeStep::ClearedSearch ==> s.menu is None && s.keys.conflict is None
            && !t.modified_only,
        r == EscapeStep::CloseSettings <==> s.menu is None && s.keys.conflict is None
            && !searching,
{
}

/// An entry is found where it matches, and among the changes only where it was
/// changed.
pub proof fn only_what_was_changed_is_among_the_changes(e: SearchEntry)
    ensures
        is_found(e, false) <==> e.matches,
        is_found(e, true) <==> e.matches && e.modified,
{
}

/// A page stands where the rail first has it.
pub proof fn a_page_stands_where_the_rail_has_it(
    sections: Seq<SettingsSection>,
    section: SettingsSection,
    k: int,
)
    requires
        0 <= k < sections.len(),
        sections[k] == section,
        forall|i: int| 0 <= i < k ==> #[trigger] sections[i] != section,
    ensures
        rail_place(sections, section) == k,
    decreases sections.len(),
{
    let front = sections.drop_last();
    if k < front.len() {
        assert(front[k] == section);
        a_page_stands_where_the_rail_has_it(front, section, k);
    } else {
        assert(!front.contains(section)) by {
            if front.contains(section) {
                let w = choose|w: int| 0 <= w < front.len() && front[w] == section;
                assert(sections[w] == section);
            }
        }
    }
}

/// Results are listed page by page in the order of the rail, and on each page
/// by how well they are found.
pub proof fn results_are_listed_by_page_and_rank(
    catalog: Seq<SearchEntry>,
    sections: Seq<SettingsSection>,
    modified_only: bool,
    i: int,
    j: int,
)
    requires
        catalog.len() <= usize::MAX,
        0 <= i < j < results_of(catalog, sections, modified_only).len(),
    ensures
        ({
            let a = results_of(catalog, sections, modified_only)[i];
            let b = results_of(catalog, sections, modified_only)[j];
            &&& rail_place(sections, a.section) <= rail_place(sections, b.section)
            &&& rail_place(sections, a.section) == rail_place(sections, b.section) ==> a.rank
                <= b.rank
        }),
{
    let hits = found(catalog, modified_only);
    let keys = result_keys(sections, hits);
    lemma_found_len(catalog, modified_only);
    order::lemma_order_exists(keys);
    let o = order::order_of(keys);
    assert(order::goes_before(keys, o[i] as int, o[j] as int));
    assert(o[i] < hits.len() && o[j] < hits.len());
}

/// The actions that a query names are those that match, in their order; none
/// without a query, and none among the changes.
pub proof fn actions_are_named_by_a_query(bindings: Seq<BindingHit>, query: Seq<char>)
    ensures
        actions_of(bindings, query, true).len() == 0,
        actions_of(bindings, Seq::empty(), false).len() == 0,
        query.len() > 0 ==> actions_of(bindings, query, false) == found_actions(bindings),
        found_actions(bindings) == bindings.filter(|b: BindingHit| b.matches).map_values(
            |b: BindingHit| b.action@,
        ),
    decreases bindings.len(),
{
    reveal(Seq::filter);
    let f = |b: BindingHit| b.action@;
    if bindings.len() > 0 {
        let front = bindings.drop_last();
        actions_are_named_by_a_query(front, query);
        let kept = front.filter(|b: BindingHit| b.matches);
        if bindings.last().matches {
            assert(kept.push(bindings.last()).map_values(f) =~= kept.map_values(f).push(
                bindings.last().action@,
            ));
        }
    } else {
        assert(bindings.filter(|b: BindingHit| b.matches).map_values(f) =~= Seq::empty());
    }
}

/// A setting is opened on its own page; the shortcuts on theirs.
pub proof fn a_setting_is_opened_on_its_page(e: SearchEntry)
    ensures
        e.title is Keybindings ==> target_of(e) is Keybindings,
        e.title !is Keybindings ==> target_of(e) == e.section,
{
}

/// While results are shown, the arrows walk them and stop at the ends, and
/// Enter opens the one that is selected: a setting on its page, or an action
/// behind the settings. The chord always goes to the search; every other key
/// is the page's own.
pub proof fn arrows_walk_the_results(
    s: Tty7App,
    searching: bool,
    search_focused: bool,
    key: PageKey,
    t: Tty7App,
    r: CaptureStep,
)
    requires
        captures(s, searching, search_focused, key, t, r),
        s.settings is Some,
    ensures
        ({
            let st = s.settings->0;
            let entries = results_of(s.catalog@, s.sections@, st.modified_only);
            let actions = actions_of(s.bindings@, text::query_of(st.search@), st.modified_only);
            let count = entries.len() + actions.len();
            let at = st.search_selection;
            let walks = searching && search_focused && at < count <= usize::MAX;
            &&& key is Find ==> r is FocusSearch && t.settings is Some && t.settings->0.menu is None
            &&& key is Other ==> r is Passed && t == s
            &&& key !is Find && (!searching || !search_focused) ==> r is Passed && t == s
            &&& walks && key is Down && at + 1 < count ==> r is Taken && t.settings is Some
                && t.settings->0.search_selection == at + 1
            &&& walks && key is Down && at + 1 == count ==> r is Taken && t.settings is Some
                && t.settings->0.search_selection == at
            &&& walks && key is Up && at > 0 ==> r is Taken && t.settings is Some
                && t.settings->0.search_selection == at - 1
            &&& walks && key is Up && at == 0 ==> r is Taken && t.settings is Some
                && t.settings->0.search_selection == 0
            &&& walks && key is Enter && at < entries.len() ==> r is Navigate && r->title
                == entries[at as int].title && r->section == target_of(entries[at as int])
            &&& walks && key is Enter && at >= entries.len() ==> r is OpenShortcut
                && r->OpenShortcut_0@ == actions[at - entries.len()]
            &&& walks && key is Enter ==> t == s
        }),
{
}

/// The settings that were changed are counted page by page, each once.
pub proof fn changes_are_counted_page_by_page(
    catalog: Seq<SearchEntry>,
    sections: Seq<SettingsSection>,
    section: SettingsSection,
)
    ensures
        changed_on(catalog, section) == catalog.filter(
            |e: SearchEntry| e.section == section && e.modified,
        ).len(),
        changed_in(catalog, Seq::empty()) == 0,
        changed_in(catalog, sections.push(section)) == changed_in(catalog, sections) + changed_on(
            catalog,
            section,
        ),
    decreases catalog.len(),
{
    reveal(Seq::filter);
    assert(sections.push(section).drop_last() =~= sections);
    if catalog.len() > 0 {
        changes_are_counted_page_by_page(catalog.drop_last(), sections, section);
    }
}

/// The rail lists every page in order and marks the one that is open, none
/// while something is searched for; each says how many of its settings were
/// changed.
pub proof fn the_rail_marks_one_page(
    r: Rail,
    app: Tty7App,
    s: SettingsState,
    searching: bool,
    i: int,
)
    requires
        is_rail(r, app, s, searching),
        0 <= i < app.sections@.len(),
    ensures
        r.items@.len() == app.sections@.len(),
        r.items@[i].section == app.sections@[i],
        r.items@[i].active <==> !searching && (s.section == app.sections@[i] && s.section
            !is Keybindings || s.section is Keybindings && app.sections@[i] is KeyboardMouse),
        r.items@[i].changed == changed_on(app.catalog@, app.sections@[i]) as usize,
        r.modified_only == s.modified_only,
{
}

/// An unsaved theme can be saved or given up, a failed save tried again; each
/// is said exactly while it is so, the theme first.
pub proof fn a_notice_is_given_while_it_holds(s: SettingsState)
    ensures
        notices_of(s).len() == (if s.theme_draft_dirty {
            1int
        } else {
            0int
        }) + (if s.save_error is Some {
            1int
        } else {
            0int
        }),
        s.theme_draft_dirty ==> notices_of(s)[0] is ThemeDraft && notices_of(s)[0]->error
            == s.theme_draft_error && notices_of(s)[0]->save.key == BtnKey::SaveTheme && notices_of(
            s,
        )[0]->cancel.key == BtnKey::CancelTheme,
        s.save_error is Some ==> notices_of(s).last() is SaveFailed && notices_of(s).last()->reason
            == s.save_error->0 && notices_of(s).last()->retry.key == BtnKey::RetrySave,
{
}

/// Escape takes one layer at a time: an open menu, then a question about keys,
/// then the search, and at last the window; and leaves the rest as it is.
pub proof fn escape_takes_the_topmost_layer(
    s: SettingsState,
    searching: bool,
    t: SettingsState,
    r: EscapeStep,
)
    requires
        peels(s, searching, t, r),
    ensures
        s.menu is Some ==> r is ClosedMenu && t.menu is None && t.search == s.search && t.keys
            == s.keys,
        s.menu is None && s.keys.conflict is Some ==> r is DroppedConflict && t.keys.conflict is None
            && t.search == s.search,
        s.menu is None && s.keys.conflict is None && searching ==> r is ClearedSearch
            && t.search@.len() == 0 && !t.modified_only,
        s.menu is None && s.keys.conflict is None && !searching ==> r is CloseSettings && t == s,
        t.section == s.section,
{
}

} // verus!
