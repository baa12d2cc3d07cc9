//! What a search of the settings draws in place of a page, and the frame
//! around either.

use vstd::prelude::*;
use vstd::string::*;
use crate::agents;
use crate::agents::AgentsPage;
use crate::hosts;
use crate::hosts::SshPage;
use crate::settings;
use crate::settings::{
    BtnKey, BtnKind, Control, Group, GroupLines, Line, Page, Row, RowDesc, SearchEntry,
    SettingsSection, SettingsState, Tty7App,
};
use crate::settings_pages;
use crate::settings_search;
use crate::settings_search::{Notice, Rail};
use crate::shortcuts;
use crate::shortcuts::{ActionKeys, ShortcutsPage};
use crate::text;
use crate::theme_picker;

verus! {

/// A setting that was found, with the row that sets it.
#[derive(Clone, Copy, Debug, PartialEq, Eq, Structural)]
pub struct ResultRow {
    pub entry: SearchEntry,
    /// Whether the name of its page goes before it.
    pub head: bool,
    pub row: Row,
    pub selected: bool,
    /// The page it is opened on.
    pub target: SettingsSection,
}

/// An action that was found.
#[derive(Debug)]
pub struct ResultAction {
    pub action: String,
    pub keys: String,
    pub selected: bool,
}

/// What is said when nothing was found.
#[derive(Clone, Copy, Debug, PartialEq, Eq, Structural)]
pub enum NoResults {
    NothingModified,
    NoModified,
    NothingMatches,
}

/// What a search draws.
#[derive(Debug)]
pub struct Results {
    /// Whether it is the list of what was changed.
    pub changes: bool,
    /// How many there are, unless it is the list of what was changed.
    pub count: Option<usize>,
    pub rows: Vec<ResultRow>,
    pub actions: Vec<ResultAction>,
    pub empty: Option<NoResults>,
}

/// The rows among lines.
pub open spec fn rows_among(lines: Seq<Line>) -> Seq<Row>
    decreases lines.len(),
{
    if lines.len() == 0 {
        Seq::empty()
    } else {
        match lines.last() {
            Line::Row(r) => rows_among(lines.drop_last()).push(r),
            _ => rows_among(lines.drop_last()),
        }
    }
}

/// The rows of a page.
pub open spec fn rows_on(groups: Seq<GroupLines>) -> Seq<Row>
    decreases groups.len(),
{
    if groups.len() == 0 {
        Seq::empty()
    } else {
        rows_on(groups.drop_last()) + rows_among(groups.last().body)
    }
}

/// The rows of a page that can be searched for. The hosts, the agents and the
/// shortcuts themselves are no rows.
pub open spec fn searchable_rows(app: Tty7App, section: SettingsSection) -> Seq<Row> {
    match section {
        SettingsSection::General => rows_on(settings_pages::general_page(app)),
        SettingsSection::Appearance => rows_on(theme_picker::appearance_page(app)),
        SettingsSection::Terminal => rows_on(settings_pages::terminal_page(app)),
        SettingsSection::KeyboardMouse => rows_on(settings_pages::input_page(app)),
        SettingsSection::WindowTabs => rows_on(settings_pages::window_page(app)),
        SettingsSection::Ssh => rows_among(settings_pages::security_group(app).body),
        SettingsSection::Agents => rows_among(settings_pages::command_line_group(app).body),
        SettingsSection::About => rows_on(settings_pages::about_page(app)),
        SettingsSection::Keybindings => Seq::empty(),
    }
}

/// Whether a page has something that was found.
pub open spec fn has_result(
    catalog: Seq<SearchEntry>,
    section: SettingsSection,
    modified_only: bool,
) -> bool {
    exists|i: int|
        0 <= i < catalog.len() && (#[trigger] catalog[i]).section == section
            && settings_search::is_found(catalog[i], modified_only)
}

/// The rows of `rows` that the search knows, as they are drawn among results.
pub open spec fn known_rows(catalog: Seq<SearchEntry>, rows: Seq<Row>) -> Seq<Row>
    decreases rows.len(),
{
    if rows.len() == 0 {
        Seq::empty()
    } else if settings::entry_at(catalog, rows.last().key) is Some {
        known_rows(catalog, rows.drop_last()).push(Row { hit: false, miss: false, ..rows.last() })
    } else {
        known_rows(catalog, rows.drop_last())
    }
}

/// The rows of the pages that have something that was found.
pub open spec fn live_rows(app: Tty7App, sections: Seq<SettingsSection>, modified_only: bool) -> Seq<
    Row,
>
    decreases sections.len(),
{
    if sections.len() == 0 {
        Seq::empty()
    } else if has_result(app.catalog@, sections.last(), modified_only) {
        live_rows(app, sections.drop_last(), modified_only) + known_rows(
            app.catalog@,
            searchable_rows(app, sections.last()),
        )
    } else {
        live_rows(app, sections.drop_last(), modified_only)
    }
}

/// The entries on a page.
pub open spec fn entries_on(entries: Seq<SearchEntry>, section: SettingsSection) -> Seq<SearchEntry>
    decreases entries.len(),
{
    if entries.len() == 0 {
        Seq::empty()
    } else if entries.last().section == section {
        entries_on(entries.drop_last(), section).push(entries.last())
    } else {
        entries_on(entries.drop_last(), section)
    }
}

/// The entries as they are drawn, page by page.
pub open spec fn drawn_entries(entries: Seq<SearchEntry>, sections: Seq<SettingsSection>) -> Seq<
    SearchEntry,
>
    decreases sections.len(),
{
    if sections.len() == 0 {
        Seq::empty()
    } else {
        drawn_entries(entries, sections.drop_last()) + entries_on(entries, sections.last())
    }
}

/// The place of the first row of an entry, or the end.
pub open spec fn row_place(rows: Seq<Row>, key: settings::RowKey) -> int
    decreases rows.len(),
{
    if rows.len() == 0 || rows[0].key == key {
        0
    } else {
        1 + row_place(rows.skip(1), key)
    }
}

/// The row of a setting that no page draws: a button that opens it.
pub open spec fn opening_row(app: Tty7App, e: SearchEntry) -> Row {
    settings::row_of(
        app,
        e.title,
        RowDesc::Standing,
        Control::Button(settings::button_of(BtnKey::OpenSetting, BtnKind::Secondary)),
        false,
    )
}

/// The rows of the entries: each takes its own from `rows`, or is given one
/// that opens it.
pub open spec fn filled(app: Tty7App, entries: Seq<SearchEntry>, rows: Seq<Row>) -> Seq<Row>
    decreases entries.len(),
{
    if entries.len() == 0 {
        Seq::empty()
    } else {
        let e = entries[0];
        let at = row_place(rows, e.title);
        if at < rows.len() {
            seq![rows[at]] + filled(app, entries.skip(1), rows.remove(at))
        } else {
            seq![opening_row(app, e)] + filled(app, entries.skip(1), rows)
        }
    }
}

/// The entries a search draws.
pub open spec fn shown_entries(app: Tty7App, s: SettingsState) -> Seq<SearchEntry> {
    drawn_entries(
        settings_search::results_of(app.catalog@, app.sections@, s.modified_only),
        app.sections@,
    )
}

pub open spec fn result_rows(app: Tty7App, s: SettingsState) -> Seq<ResultRow> {
    let entries = shown_entries(app, s);
    let rows = filled(app, entries, live_rows(app, app.sections@, s.modified_only));
    Seq::new(
        entries.len(),
        |i: int|
            ResultRow {
                entry: entries[i],
                head: i == 0 || entries[i - 1].section != entries[i].section,
                row: rows[i],
                selected: i == s.search_selection,
                target: settings_search::target_of(entries[i]),
            },
    )
}

/// The place of the first action of this name.
pub open spec fn action_place(actions: Seq<ActionKeys>, action: Seq<char>) -> Option<int>
    decreases actions.len(),
{
    if actions.len() == 0 {
        None
    } else {
        match action_place(actions.drop_last(), action) {
            Some(i) => Some(i),
            None => if actions.last().action@ == action {
                Some(actions.len() - 1)
            } else {
                None
            },
        }
    }
}

/// The first keys of an action; nothing when it has none.
pub open spec fn first_keys(actions: Seq<ActionKeys>, action: Seq<char>) -> Seq<char> {
    match action_place(actions, action) {
        Some(i) => if actions[i].keys@.len() > 0 {
            actions[i].keys@[0]@
        } else {
            Seq::empty()
        },
        None => Seq::empty(),
    }
}

/// `v` draws the actions that were found, behind `before` settings.
pub open spec fn draws_actions(
    v: Seq<ResultAction>,
    app: Tty7App,
    s: SettingsState,
    found: Seq<Seq<char>>,
    before: nat,
) -> bool {
    v.len() == found.len() && forall|i: int|
        0 <= i < v.len() ==> {
            &&& (#[trigger] v[i]).action@ == found[i]
            &&& v[i].keys@ == first_keys(app.facts.actions@, found[i])
            &&& v[i].selected == (before + i == s.search_selection)
        }
}

/// `r` is what a search draws.
pub open spec fn are_results(r: Results, app: Tty7App, s: SettingsState) -> bool {
    let query = text::query_of(s.search@);
    let found = settings_search::actions_of(app.bindings@, query, s.modified_only);
    let changes = s.modified_only && query.len() == 0;
    let shown = shown_entries(app, s);
    &&& r.changes == changes
    &&& r.count == (if changes {
        None
    } else {
        Some((shown.len() + found.len()) as usize)
    })
    &&& r.rows@ == result_rows(app, s)
    &&& draws_actions(r.actions@, app, s, found, shown.len())
    &&& r.empty == (if shown.len() + found.len() > 0 {
        None
    } else if changes {
        Some(NoResults::NothingModified)
    } else if s.modified_only {
        Some(NoResults::NoModified)
    } else {
        Some(NoResults::NothingMatches)
    })
}

/// What the frame holds.
#[derive(Debug)]
pub enum Content {
    Results(Results),
    Rows(Page),
    Ssh(SshPage),
    Agents(AgentsPage),
    Shortcuts(ShortcutsPage),
}

/// The settings as they are drawn.
#[derive(Debug)]
pub struct SettingsFrame {
    pub nav: Rail,
    pub notices: Vec<Notice>,
    pub content: Content,
    /// Whether there is a way back to the page of the keyboard.
    pub back: bool,
    /// Whether the page is covered, so that a click only closes the menu.
    pub covered: bool,
}

/// `c` is the page of `section`.
pub open spec fn is_page_of(c: Content, app: Tty7App, s: SettingsState, section: SettingsSection) -> bool {
    match section {
        SettingsSection::General => c matches Content::Rows(p) && p@
            == settings_pages::general_page(app),
        SettingsSection::Appearance => c matches Content::Rows(p) && p@
            == theme_picker::appearance_page(app),
        SettingsSection::Terminal => c matches Content::Rows(p) && p@
            == settings_pages::terminal_page(app),
        SettingsSection::KeyboardMouse => c matches Content::Rows(p) && p@
            == settings_pages::input_page(app),
        SettingsSection::WindowTabs => c matches Content::Rows(p) && p@
            == settings_pages::window_page(app),
        SettingsSection::About => c matches Content::Rows(p) && p@
            == settings_pages::about_page(app),
        SettingsSection::Ssh => c matches Content::Ssh(p) && p.security@
            == settings_pages::security_group(app) && p.hosts is Some && hosts::is_hosts_group(
            p.hosts->0,
            app,
            s.ssh,
        ),
        SettingsSection::Agents => c matches Content::Agents(p) && p.command_line@
            == settings_pages::command_line_group(app) && p.hooks is Some
            && agents::is_agents_group(p.hooks->0, app, s),
        SettingsSection::Keybindings => c matches Content::Shortcuts(p) && shortcuts::is_page(
            p,
            app,
            s.keys,
        ),
    }
}

/// `f` is the frame: results while something is searched for, else the page.
pub open spec fn is_frame(f: SettingsFrame, app: Tty7App, s: SettingsState) -> bool {
    &&& settings_search::is_rail(f.nav, app, s, s.search_active)
    &&& f.notices@ == settings_search::notices_of(s)
    &&& if s.search_active {
        f.content matches Content::Results(r) && are_results(r, app, s)
    } else {
        is_page_of(f.content, app, s, s.section)
    }
    &&& f.back == (!s.search_active && s.section == SettingsSection::Keybindings)
    &&& f.covered == s.menu is Some
}

/// What the frame is drawn from fits together.
pub open spec fn frame_fits(app: Tty7App) -> bool {
    &&& hosts::hosts_fit(app)
    &&& agents::agents_fit(app)
    &&& settings_search::changed_in(app.catalog@, app.sections@) <= usize::MAX
    &&& app.settings matches Some(s) ==> shown_entries(app, s).len() + app.bindings@.len()
        <= usize::MAX
}

fn push_rows_among(out: &mut Vec<Row>, lines: &Vec<Line>)
    ensures
        final(out)@ == old(out)@ + rows_among(lines@),
{
    let ghost before = out@;
    let mut i: usize = 0;
    assert(lines@.take(0) =~= Seq::<Line>::empty());
    assert(out@ =~= before + rows_among(lines@.take(0)));
    while i < lines.len()
        invariant
            i <= lines@.len(),
            out@ == before + rows_among(lines@.take(i as int)),
        decreases lines@.len() - i,
    {
        assert(lines@.take(i + 1).drop_last() =~= lines@.take(i as int));
        match lines[i] {
            Line::Row(r) => {
                out.push(r);
                assert(out@ =~= before + rows_among(lines@.take(i + 1)));
            },
            _ => {},
        }
        i = i + 1;
    }
    assert(lines@.take(lines@.len() as int) =~= lines@);
}

fn page_rows(page: &Page) -> (r: Vec<Row>)
    ensures
        r@ == rows_on(page@),
{
    let mut out: Vec<Row> = Vec::new();
    let ghost all = page@;
    let mut i: usize = 0;
    assert(all.take(0) =~= Seq::<GroupLines>::empty());
    while i < page.groups.len()
        invariant
            i <= page.groups@.len(),
            all == page@,
            out@ == rows_on(all.take(i as int)),
        decreases page.groups@.len() - i,
    {
        assert(all.take(i + 1).drop_last() =~= all.take(i as int));
        assert(all.take(i + 1).last().body == page.groups@[i as int].body@);
        push_rows_among(&mut out, &page.groups[i].body);
        i = i + 1;
    }
    assert(all.take(all.len() as int) =~= all);
    out
}

fn group_rows(group: &Group) -> (r: Vec<Row>)
    ensures
        r@ == rows_among(group@.body),
{
    let mut out: Vec<Row> = Vec::new();
    push_rows_among(&mut out, &group.body);
    assert(out@ =~= rows_among(group@.body));
    out
}

fn push_entries_on(out: &mut Vec<SearchEntry>, entries: &Vec<SearchEntry>, section: SettingsSection)
    ensures
        final(out)@ == old(out)@ + entries_on(entries@, section),
{
    let ghost before = out@;
    let mut i: usize = 0;
    assert(entries@.take(0) =~= Seq::<SearchEntry>::empty());
    assert(out@ =~= before + entries_on(entries@.take(0), section));
    while i < entries.len()
        invariant
            i <= entries@.len(),
            out@ == before + entries_on(entries@.take(i as int), section),
        decreases entries@.len() - i,
    {
        assert(entries@.take(i + 1).drop_last() =~= entries@.take(i as int));
        if entries[i].section == section {
            out.push(entries[i]);
            assert(out@ =~= before + entries_on(entries@.take(i + 1), section));
        }
        i = i + 1;
    }
    assert(entries@.take(entries@.len() as int) =~= entries@);
}

fn find_row(rows: &Vec<Row>, key: settings::RowKey) -> (r: usize)
    ensures
        r == row_place(rows@, key),
        r <= rows@.len(),
{
    let mut i: usize = 0;
    assert(rows@.skip(0) =~= rows@);
    while i < rows.len() && rows[i].key != key
        invariant
            i <= rows@.len(),
            i + row_place(rows@.skip(i as int), key) == row_place(rows@, key),
        decreases rows@.len() - i,
    {
        assert(rows@.skip(i as int).skip(1) =~= rows@.skip(i + 1));
        i = i + 1;
    }
    i
}

impl Tty7App {
    fn rows_of_section(&self, section: SettingsSection) -> (r: Vec<Row>)
        ensures
            r@ == searchable_rows(*self, section),
    {
        match section {
            SettingsSection::General => page_rows(&self.render_settings_general()),
            SettingsSection::Appearance => page_rows(&self.render_settings_appearance()),
            SettingsSection::Terminal => page_rows(&self.render_settings_terminal()),
            SettingsSection::KeyboardMouse => page_rows(&self.render_settings_input()),
            SettingsSection::WindowTabs => page_rows(&self.render_window_preferences()),
            SettingsSection::Ssh => group_rows(&self.render_ssh_connection_rows()),
            SettingsSection::Agents => group_rows(&self.render_command_line_rows()),
            SettingsSection::About => page_rows(&self.render_settings_about()),
            SettingsSection::Keybindings => Vec::new(),
        }
    }

    fn section_has_result(&self, section: SettingsSection, modified_only: bool) -> (r: bool)
        ensures
            r == has_result(self.catalog@, section, modified_only),
    {
        let mut i: usize = 0;
        while i < self.catalog.len()
            invariant
                i <= self.catalog@.len(),
                forall|k: int|
                    0 <= k < i ==> !((#[trigger] self.catalog@[k]).section == section
                        && settings_search::is_found(self.catalog@[k], modified_only)),
            decreases self.catalog@.len() - i,
        {
            let e = self.catalog[i];
            if e.section == section && e.matches && (!modified_only || e.modified) {
                assert(settings_search::is_found(self.catalog@[i as int], modified_only));
                return true;
            }
            i = i + 1;
        }
        false
    }

    fn push_known(&self, out: &mut Vec<Row>, rows: &Vec<Row>)
        ensures
            final(out)@ == old(out)@ + known_rows(self.catalog@, rows@),
    {
        let ghost before = out@;
        let mut i: usize = 0;
        assert(rows@.take(0) =~= Seq::<Row>::empty());
        assert(out@ =~= before + known_rows(self.catalog@, rows@.take(0)));
        while i < rows.len()
            invariant
                i <= rows@.len(),
                out@ == before + known_rows(self.catalog@, rows@.take(i as int)),
            decreases rows@.len() - i,
        {
            assert(rows@.take(i + 1).drop_last() =~= rows@.take(i as int));
            let row = rows[i];
            if settings::find_entry(&self.catalog, row.key).is_some() {
                out.push(Row { hit: false, miss: false, ..row });
                assert(out@ =~= before + known_rows(self.catalog@, rows@.take(i + 1)));
            }
            i = i + 1;
        }
        assert(rows@.take(rows@.len() as int) =~= rows@);
    }

    fn collect_live(&self, modified_only: bool) -> (r: Vec<Row>)
        ensures
            r@ == live_rows(*self, self.sections@, modified_only),
    {
        let mut out: Vec<Row> = Vec::new();
        let mut i: usize = 0;
        assert(self.sections@.take(0) =~= Seq::<SettingsSection>::empty());
        while i < self.sections.len()
            invariant
                i <= self.sections@.len(),
                out@ == live_rows(*self, self.sections@.take(i as int), modified_only),
            decreases self.sections@.len() - i,
        {
            assert(self.sections@.take(i + 1).drop_last() =~= self.sections@.take(i as int));
            let section = self.sections[i];
            if self.section_has_result(section, modified_only) {
                let rows = self.rows_of_section(section);
                self.push_known(&mut out, &rows);
            }
            i = i + 1;
        }
        assert(self.sections@.take(self.sections@.len() as int) =~= self.sections@);
        out
    }

    fn collect_drawn(&self, modified_only: bool) -> (r: Vec<SearchEntry>)
        ensures
            r@ == drawn_entries(
                settings_search::results_of(self.catalog@, self.sections@, modified_only),
                self.sections@,
            ),
    {
        let found = settings_search::search_result_order(
            &self.catalog,
            &self.sections,
            modified_only,
        );
        let mut out: Vec<SearchEntry> = Vec::new();
        let mut i: usize = 0;
        assert(self.sections@.take(0) =~= Seq::<SettingsSection>::empty());
        while i < self.sections.len()
            invariant
                i <= self.sections@.len(),
                out@ == drawn_entries(found@, self.sections@.take(i as int)),
            decreases self.sections@.len() - i,
        {
            assert(self.sections@.take(i + 1).drop_last() =~= self.sections@.take(i as int));
            push_entries_on(&mut out, &found, self.sections[i]);
            i = i + 1;
        }
        assert(self.sections@.take(self.sections@.len() as int) =~= self.sections@);
        out
    }

    fn fill_rows(&self, entries: &Vec<SearchEntry>, rows: Vec<Row>) -> (r: Vec<Row>)
        ensures
            r@ == filled(*self, entries@, rows@),
            r@.len() == entries@.len(),
    {
        let ghost want = filled(*self, entries@, rows@);
        let mut left = rows;
        let mut out: Vec<Row> = Vec::new();
        let mut i: usize = 0;
        assert(entries@.skip(0) =~= entries@);
        assert(out@ + filled(*self, entries@, left@) =~= want);
        while i < entries.len()
            invariant
                i <= entries@.len(),
                out@.len() == i,
                out@ + filled(*self, entries@.skip(i as int), left@) == want,
            decreases entries@.len() - i,
        {
            let e = entries[i];
            let ghost rest = entries@.skip(i as int);
            let ghost before = out@;
            let ghost had = left@;
            assert(rest.skip(1) =~= entries@.skip(i + 1));
            assert(rest[0] == e);
            let at: usize = find_row(&left, e.title);
            if at < left.len() {
                let row = left.remove(at);
                out.push(row);
                assert(left@ =~= had.remove(at as int));
                assert(out@ + filled(*self, rest.skip(1), left@) =~= before + filled(
                    *self,
                    rest,
                    had,
                ));
            } else {
                let open = self.settings_button(BtnKey::OpenSetting);
                out.push(self.settings_row(e.title, RowDesc::Standing, Control::Button(open)));
                assert(out@ + filled(*self, rest.skip(1), left@) =~= before + filled(
                    *self,
                    rest,
                    had,
                ));
            }
            i = i + 1;
        }
        assert(entries@.skip(entries@.len() as int) =~= Seq::<SearchEntry>::empty());
        assert(out@ =~= want);
        out
    }

    fn keys_of(&self, action: &str) -> (r: String)
        ensures
            r@ == first_keys(self.facts.actions@, action@),
    {
        let ghost all = self.facts.actions@;
        let mut found: Option<usize> = None;
        let mut i: usize = 0;
        assert(all.take(0) =~= Seq::<ActionKeys>::empty());
        while i < self.facts.actions.len()
            invariant
                i <= all.len(),
                all == self.facts.actions@,
                match found {
                    Some(k) => k < i && action_place(all.take(i as int), action@) == Some(k as int),
                    None => action_place(all.take(i as int), action@) is None,
                },
            decreases all.len() - i,
        {
            assert(all.take(i + 1).drop_last() =~= all.take(i as int));
            if found.is_none() && text::same(self.facts.actions[i].action.as_str(), action) {
                found = Some(i);
            }
            i = i + 1;
        }
        assert(all.take(all.len() as int) =~= all);
        match found {
            Some(k) => {
                if self.facts.actions[k].keys.len() > 0 {
                    self.facts.actions[k].keys[0].clone()
                } else {
                    let s = String::new();
                    assert(s@ =~= Seq::<char>::empty());
                    s
                }
            },
            None => {
                let s = String::new();
                assert(s@ =~= Seq::<char>::empty());
                s
            },
        }
    }

    /// What a search draws in place of a page.
    pub fn render_settings_results(&self) -> (r: Option<Results>)
        requires
            self.settings matches Some(s) ==> shown_entries(*self, s).len() + self.bindings@.len()
                <= usize::MAX,
        ensures
            match self.settings {
                Some(s) => r matches Some(res) && are_results(res, *self, s),
                None => r is None,
            },
    {
        let s: &SettingsState = match &self.settings {
            None => {
                return None;
            },
            Some(s) => s,
        };
        let query = text::query_text(s.search.as_str());
        let modified_only: bool = s.modified_only;
        let selection: usize = s.search_selection;
        let live = self.collect_live(modified_only);
        let entries = self.collect_drawn(modified_only);
        let found = settings_search::search_result_actions(
            &self.bindings,
            query.as_str(),
            modified_only,
        );
        assert(text::views(found@).len() == found@.len());
        proof {
            settings_search::lemma_found_actions_len(self.bindings@);
        }
        let ghost filled_rows = filled(*self, entries@, live@);
        let rows = self.fill_rows(&entries, live);
        let mut out: Vec<ResultRow> = Vec::new();
        let mut i: usize = 0;
        while i < entries.len()
            invariant
                i <= entries@.len() == rows@.len(),
                rows@ == filled_rows,
                selection == s.search_selection,
                entries@ == shown_entries(*self, *s),
                filled_rows == filled(
                    *self,
                    entries@,
                    live_rows(*self, self.sections@, s.modified_only),
                ),
                out@.len() == i,
                forall|k: int| 0 <= k < i ==> #[trigger] out@[k] == result_rows(*self, *s)[k],
            decreases entries@.len() - i,
        {
            let e = entries[i];
            let head: bool = i == 0 || entries[i - 1].section != e.section;
            out.push(
                ResultRow {
                    entry: e,
                    head,
                    row: rows[i],
                    selected: i == selection,
                    target: settings_search::target_section(&e),
                },
            );
            i = i + 1;
        }
        assert(out@ =~= result_rows(*self, *s));
        let shown: usize = entries.len();
        let mut actions: Vec<ResultAction> = Vec::new();
        let mut i: usize = 0;
        while i < found.len()
            invariant
                i <= found@.len(),
                shown + found@.len() <= usize::MAX,
                selection == s.search_selection,
                actions@.len() == i,
                forall|k: int|
                    0 <= k < i ==> {
                        &&& (#[trigger] actions@[k]).action@ == found@[k]@
                        &&& actions@[k].keys@ == first_keys(self.facts.actions@, found@[k]@)
                        &&& actions@[k].selected == (shown + k == s.search_selection)
                    },
            decreases found@.len() - i,
        {
            actions.push(
                ResultAction {
                    action: found[i].clone(),
                    keys: self.keys_of(found[i].as_str()),
                    selected: shown + i == selection,
                },
            );
            i = i + 1;
        }
        let changes: bool = modified_only && query.as_str().is_empty();
        let total: usize = shown + found.len();
        let empty = if total > 0 {
            None
        } else if changes {
            Some(NoResults::NothingModified)
        } else if modified_only {
            Some(NoResults::NoModified)
        } else {
            Some(NoResults::NothingMatches)
        };
        let count = if changes {
            None
        } else {
            Some(total)
        };
        Some(Results { changes, count, rows: out, actions, empty })
    }

    /// The settings as they are drawn.
    pub fn render_settings(&self) -> (r: Option<SettingsFrame>)
        requires
            frame_fits(*self),
        ensures
            match self.settings {
                Some(s) => r matches Some(f) && is_frame(f, *self, s),
                None => r is None,
            },
    {
        let s: &SettingsState = match &self.settings {
            None => {
                return None;
            },
            Some(s) => s,
        };
        let searching: bool = s.search_active;
        let nav = match self.render_settings_nav(searching) {
            Some(n) => n,
            None => {
                return None;
            },
        };
        let content = if searching {
            match self.render_settings_results() {
                Some(r) => Content::Results(r),
                None => {
                    return None;
                },
            }
        } else {
            match s.section {
                SettingsSection::General => Content::Rows(self.render_settings_general()),
                SettingsSection::Appearance => Content::Rows(self.render_settings_appearance()),
                SettingsSection::Terminal => Content::Rows(self.render_settings_terminal()),
                SettingsSection::KeyboardMouse => Content::Rows(self.render_settings_input()),
                SettingsSection::Ssh => Content::Ssh(self.render_settings_ssh()),
                SettingsSection::Agents => Content::Agents(self.render_settings_agents()),
                SettingsSection::WindowTabs => Content::Rows(self.render_window_preferences()),
                SettingsSection::Keybindings => match self.render_settings_keybindings() {
                    Some(p) => Content::Shortcuts(p),
                    None => {
                        return None;
                    },
                },
                SettingsSection::About => Content::Rows(self.render_settings_about()),
            }
        };
        Some(
            SettingsFrame {
                nav,
                notices: self.render_settings_notices(),
                content,
                back: !searching && s.section == SettingsSection::Keybindings,
                covered: s.menu.is_some(),
            },
        )
    }
}

proof fn lemma_row_place(rows: Seq<Row>, key: settings::RowKey)
    ensures
        0 <= row_place(rows, key) <= rows.len(),
        row_place(rows, key) < rows.len() ==> rows[row_place(rows, key)].key == key,
    decreases rows.len(),
{
    if rows.len() > 0 && rows[0].key != key {
        lemma_row_place(rows.skip(1), key);
    }
}

/// Every setting that a search draws has a row of its own: its control from
/// the page it is on, or a button that opens it.
pub proof fn every_result_has_its_own_row(
    app: Tty7App,
    entries: Seq<SearchEntry>,
    rows: Seq<Row>,
    i: int,
)
    requires
        0 <= i < entries.len(),
    ensures
        filled(app, entries, rows).len() == entries.len(),
        filled(app, entries, rows)[i].key == entries[i].title,
        rows.contains(filled(app, entries, rows)[i]) || filled(app, entries, rows)[i]
            == opening_row(app, entries[i]),
    decreases entries.len(),
{
    let e = entries[0];
    let at = row_place(rows, e.title);
    let rest = entries.skip(1);
    lemma_row_place(rows, e.title);
    let left = if at < rows.len() {
        rows.remove(at)
    } else {
        rows
    };
    lemma_filled_len(app, rest, left);
    if i > 0 {
        every_result_has_its_own_row(app, rest, left, i - 1);
        let row = filled(app, rest, left)[i - 1];
        assert(filled(app, entries, rows)[i] == row);
        if left.contains(row) {
            let k = choose|k: int| 0 <= k < left.len() && left[k] == row;
            if at < rows.len() && k >= at {
                assert(rows[k + 1] == row);
            } else {
                assert(rows[k] == row);
            }
        }
    } else if at < rows.len() {
        assert(rows[at] == filled(app, entries, rows)[0]);
    }
}

proof fn lemma_filled_len(app: Tty7App, entries: Seq<SearchEntry>, rows: Seq<Row>)
    ensures
        filled(app, entries, rows).len() == entries.len(),
    decreases entries.len(),
{
    if entries.len() > 0 {
        let at = row_place(rows, entries[0].title);
        if at < rows.len() {
            lemma_filled_len(app, entries.skip(1), rows.remove(at));
        } else {
            lemma_filled_len(app, entries.skip(1), rows);
        }
    }
}

/// The rows of a page are the rows of its groups, in order.
pub proof fn a_page_is_searched_row_by_row(groups: Seq<GroupLines>, group: GroupLines)
    ensures
        rows_on(Seq::empty()).len() == 0,
        rows_on(groups.push(group)) == rows_on(groups) + rows_among(group.body),
{
    assert(groups.push(group).drop_last() =~= groups);
}

/// The rows among lines are those lines that are rows, in order.
pub proof fn rows_are_found_among_lines(lines: Seq<Line>, line: Line)
    ensures
        rows_among(Seq::empty()).len() == 0,
        line matches Line::Row(r) ==> rows_among(lines.push(line)) == rows_among(lines).push(r),
        !(line is Row) ==> rows_among(lines.push(line)) == rows_among(lines),
{
    assert(lines.push(line).drop_last() =~= lines);
}

/// A search looks at the page of each section.
pub proof fn each_section_is_searched_on_its_page(app: Tty7App)
    ensures
        searchable_rows(app, SettingsSection::General) == rows_on(settings_pages::general_page(app)),
        searchable_rows(app, SettingsSection::Appearance) == rows_on(
            theme_picker::appearance_page(app),
        ),
        searchable_rows(app, SettingsSection::Terminal) == rows_on(
            settings_pages::terminal_page(app),
        ),
        searchable_rows(app, SettingsSection::KeyboardMouse) == rows_on(
            settings_pages::input_page(app),
        ),
        searchable_rows(app, SettingsSection::WindowTabs) == rows_on(
            settings_pages::window_page(app),
        ),
        searchable_rows(app, SettingsSection::About) == rows_on(settings_pages::about_page(app)),
        searchable_rows(app, SettingsSection::Keybindings).len() == 0,
{
}

/// Among results a row is neither picked out nor dimmed, and is otherwise the
/// row of its page; a row that the search does not know is left out.
pub proof fn a_result_is_the_row_of_its_page(catalog: Seq<SearchEntry>, rows: Seq<Row>, i: int)
    requires
        0 <= i < known_rows(catalog, rows).len(),
    ensures
        !known_rows(catalog, rows)[i].hit && !known_rows(catalog, rows)[i].miss,
        exists|k: int|
            0 <= k < rows.len() && (#[trigger] rows[k]).key == known_rows(catalog, rows)[i].key
                && rows[k].control == known_rows(catalog, rows)[i].control && rows[k].desc
                == known_rows(catalog, rows)[i].desc && rows[k].mark == known_rows(
                catalog,
                rows,
            )[i].mark && rows[k].gated == known_rows(catalog, rows)[i].gated
                && settings::entry_at(catalog, rows[k].key) is Some,
    decreases rows.len(),
{
    let front = rows.drop_last();
    let head = known_rows(catalog, front);
    let all = known_rows(catalog, rows);
    if i < head.len() {
        a_result_is_the_row_of_its_page(catalog, front, i);
        assert(all[i] == head[i]);
        let k = choose|k: int|
            0 <= k < front.len() && (#[trigger] front[k]).key == head[i].key && front[k].control
                == head[i].control && front[k].desc == head[i].desc && front[k].mark == head[i].mark
                && front[k].gated == head[i].gated && settings::entry_at(catalog, front[k].key)
                is Some;
        assert(rows[k] == front[k]);
    } else {
        assert(rows[rows.len() - 1] == rows.last());
    }
}

/// The entries on a page are those of its section, in order.
pub proof fn a_page_draws_its_own_entries(entries: Seq<SearchEntry>, section: SettingsSection)
    ensures
        entries_on(entries, section) == entries.filter(|e: SearchEntry| e.section == section),
    decreases entries.len(),
{
    reveal(Seq::filter);
    if entries.len() > 0 {
        a_page_draws_its_own_entries(entries.drop_last(), section);
    }
}

/// A result names its page before the first of that page, is opened where its
/// setting is, and exactly the one the selection is at is selected.
pub proof fn a_result_names_its_page_once(app: Tty7App, s: SettingsState, i: int)
    requires
        0 <= i < result_rows(app, s).len(),
    ensures
        result_rows(app, s)[i].entry == shown_entries(app, s)[i],
        result_rows(app, s)[i].head <==> i == 0 || shown_entries(app, s)[i - 1].section
            != shown_entries(app, s)[i].section,
        result_rows(app, s)[i].selected <==> i == s.search_selection,
        result_rows(app, s)[i].entry.title is Keybindings ==> result_rows(app, s)[i].target
            is Keybindings,
        result_rows(app, s)[i].entry.title !is Keybindings ==> result_rows(app, s)[i].target
            == result_rows(app, s)[i].entry.section,
{
}

/// A setting without a row of its own gets a button that opens it.
pub proof fn a_setting_without_a_row_can_be_opened(app: Tty7App, e: SearchEntry)
    ensures
        opening_row(app, e).key == e.title,
        opening_row(app, e).control == Control::Button(
            settings::button_of(BtnKey::OpenSetting, BtnKind::Secondary),
        ),
        !opening_row(app, e).gated,
{
}

/// An action is shown with its first keys, and with none where it has none.
pub proof fn an_action_is_shown_with_its_first_keys(
    actions: Seq<ActionKeys>,
    action: Seq<char>,
    k: int,
)
    ensures
        0 <= k < actions.len() && actions[k].action@ == action && (forall|i: int|
            0 <= i < k ==> (#[trigger] actions[i]).action@ != action) ==> {
            &&& actions[k].keys@.len() > 0 ==> first_keys(actions, action) == actions[k].keys@[0]@
            &&& actions[k].keys@.len() == 0 ==> first_keys(actions, action).len() == 0
        },
        (forall|i: int| 0 <= i < actions.len() ==> (#[trigger] actions[i]).action@ != action)
            ==> first_keys(actions, action).len() == 0,
{
    lemma_action_place(actions, action);
}

proof fn lemma_action_place(actions: Seq<ActionKeys>, action: Seq<char>)
    ensures
        match action_place(actions, action) {
            Some(i) => 0 <= i < actions.len() && actions[i].action@ == action && forall|k: int|
                0 <= k < i ==> (#[trigger] actions[k]).action@ != action,
            None => forall|k: int| 0 <= k < actions.len() ==> (#[trigger] actions[k]).action@ != action,
        },
    decreases actions.len(),
{
    if actions.len() > 0 {
        lemma_action_place(actions.drop_last(), action);
        assert(forall|k: int|
            0 <= k < actions.len() - 1 ==> actions.drop_last()[k] == #[trigger] actions[k]);
    }
}

/// What a search says when it finds nothing: that nothing was changed, that no
/// change matches, or that nothing matches. The list of changes is not
/// counted; everything else is, settings and actions together.
pub proof fn an_empty_search_says_why(r: Results, app: Tty7App, s: SettingsState)
    requires
        are_results(r, app, s),
    ensures
        ({
            let query = text::query_of(s.search@);
            let found = shown_entries(app, s).len() + settings_search::actions_of(
                app.bindings@,
                query,
                s.modified_only,
            ).len();
            &&& r.changes <==> s.modified_only && query.len() == 0
            &&& r.count is None <==> r.changes
            &&& r.count is Some ==> r.count->0 == found as usize
            &&& r.empty is None <==> found > 0
            &&& r.empty == Some(NoResults::NothingModified) <==> found == 0 && s.modified_only
                && query.len() == 0
            &&& r.empty == Some(NoResults::NoModified) <==> found == 0 && s.modified_only
                && query.len() > 0
            &&& r.empty == Some(NoResults::NothingMatches) <==> found == 0 && !s.modified_only
            &&& r.rows@.len() == shown_entries(app, s).len()
        }),
{
}

/// The frame shows results while something is searched for, and else the page
/// of the section; there is a way back only from the shortcuts.
pub proof fn a_frame_shows_results_or_the_page(f: SettingsFrame, app: Tty7App, s: SettingsState)
    requires
        is_frame(f, app, s),
    ensures
        f.content is Results <==> s.search_active,
        !s.search_active && s.section is General ==> f.content is Rows && f.content->Rows_0@
            == settings_pages::general_page(app),
        !s.search_active && s.section is Appearance ==> f.content is Rows && f.content->Rows_0@
            == theme_picker::appearance_page(app),
        !s.search_active && s.section is Terminal ==> f.content is Rows && f.content->Rows_0@
            == settings_pages::terminal_page(app),
        !s.search_active && s.section is KeyboardMouse ==> f.content is Rows && f.content->Rows_0@
            == settings_pages::input_page(app),
        !s.search_active && s.section is WindowTabs ==> f.content is Rows && f.content->Rows_0@
            == settings_pages::window_page(app),
        !s.search_active && s.section is About ==> f.content is Rows && f.content->Rows_0@
            == settings_pages::about_page(app),
        !s.search_active && s.section is Ssh ==> f.content is Ssh,
        !s.search_active && s.section is Agents ==> f.content is Agents,
        !s.search_active && s.section is Keybindings ==> f.content is Shortcuts,
        f.back <==> !s.search_active && s.section is Keybindings,
        f.covered <==> s.menu is Some,
{
}

/// A page is looked at only where something on it was found.
pub proof fn only_pages_with_results_are_drawn(
    app: Tty7App,
    sections: Seq<SettingsSection>,
    section: SettingsSection,
    modified_only: bool,
)
    ensures
        live_rows(app, Seq::empty(), modified_only).len() == 0,
        (exists|i: int|
            0 <= i < app.catalog@.len() && (#[trigger] app.catalog@[i]).section == section
                && app.catalog@[i].matches && (!modified_only || app.catalog@[i].modified))
            ==> live_rows(app, sections.push(section), modified_only) == live_rows(
            app,
            sections,
            modified_only,
        ) + known_rows(app.catalog@, searchable_rows(app, section)),
        (forall|i: int|
            0 <= i < app.catalog@.len() && (#[trigger] app.catalog@[i]).section == section ==> !(
            app.catalog@[i].matches && (!modified_only || app.catalog@[i].modified))) ==> live_rows(
            app,
            sections.push(section),
            modified_only,
        ) == live_rows(app, sections, modified_only),
{
    assert(sections.push(section).drop_last() =~= sections);
}

/// Results are drawn page by page in the order of the rail.
pub proof fn results_are_drawn_page_by_page(
    entries: Seq<SearchEntry>,
    sections: Seq<SettingsSection>,
    section: SettingsSection,
)
    ensures
        drawn_entries(entries, Seq::empty()).len() == 0,
        drawn_entries(entries, sections.push(section)) == drawn_entries(entries, sections)
            + entries_on(entries, section),
{
    assert(sections.push(section).drop_last() =~= sections);
}

/// Actions that were found are drawn behind the settings, each with its own
/// keys, and selected where the selection has come to them.
pub proof fn actions_are_drawn_behind_the_settings(
    v: Seq<ResultAction>,
    app: Tty7App,
    s: SettingsState,
    found: Seq<Seq<char>>,
    before: nat,
    i: int,
)
    requires
        draws_actions(v, app, s, found, before),
        0 <= i < found.len(),
    ensures
        v.len() == found.len(),
        v[i].action@ == found[i],
        v[i].keys@ == first_keys(app.facts.actions@, found[i]),
        v[i].selected <==> s.search_selection == before + i,
{
}

} // verus!
