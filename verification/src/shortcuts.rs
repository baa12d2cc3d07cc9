//! Keyboard shortcuts: every action in its group, with its keys. A chord that
//! another action has is asked about before it is taken over.

use vstd::prelude::*;
use vstd::string::*;
use crate::order;
use crate::settings;
use crate::settings::{Btn, BtnKey, BtnKind, SettingsState, Tty7App};
use crate::text;

verus! {

/// An action: its keys, the group it is in, what it is called, and whether the
/// search under way finds it by its own name.
#[derive(Debug)]
pub struct ActionKeys {
    pub action: String,
    pub keys: Vec<String>,
    pub group: u32,
    pub label: String,
    pub matches: bool,
}

/// Keys being recorded for an action.
#[derive(Debug)]
pub struct Recording {
    pub action: String,
    pub chords: Vec<String>,
}

/// Keys recorded for `action` that `other` has.
#[derive(Debug)]
pub struct Conflict {
    pub action: String,
    pub spec: String,
    pub other: String,
}

/// The page of shortcuts while it is open.
#[derive(Debug)]
pub struct ShortcutsState {
    pub search: String,
    pub recording: Option<Recording>,
    pub conflict: Option<Conflict>,
    pub note: Option<String>,
}

/// The row of an action.
#[derive(Debug)]
pub struct ShortcutRow {
    /// Which action it is.
    pub place: usize,
    pub recording: bool,
    /// The keys it shows.
    pub shown: Vec<String>,
    /// Whether there is a way back from a change.
    pub modified: bool,
    /// Whether it asks about keys that another action has.
    pub conflict: bool,
}

/// A group of actions.
#[derive(Debug)]
pub struct ShortcutGroup {
    pub group: u32,
    pub rows: Vec<ShortcutRow>,
}

/// The page of shortcuts.
#[derive(Debug)]
pub struct ShortcutsPage {
    /// Which preset the table starts from: the second one is tmux's.
    pub preset: usize,
    /// Which prefix tmux's preset has.
    pub prefix: Option<usize>,
    /// How many actions have other keys than the preset gives them.
    pub changed: usize,
    /// The way back from every change at once.
    pub restore: Option<Btn>,
    pub note: Option<String>,
    /// Nothing to draw means that nothing was found.
    pub groups: Vec<ShortcutGroup>,
}

/// Whether an action is drawn: its name or what it is called holds what is
/// searched for.
pub open spec fn is_drawn(a: ActionKeys, query: Seq<char>) -> bool {
    query.len() == 0 || a.matches || text::occurs(text::lower_of(a.label@), query)
}

/// The actions of a group that are drawn.
pub open spec fn members(actions: Seq<ActionKeys>, query: Seq<char>, group: u32) -> Seq<usize>
    decreases actions.len(),
{
    if actions.len() == 0 {
        Seq::empty()
    } else if is_drawn(actions.last(), query) && actions.last().group == group {
        members(actions.drop_last(), query, group).push((actions.len() - 1) as usize)
    } else {
        members(actions.drop_last(), query, group)
    }
}

/// The groups that have something to draw, as they first occur.
pub open spec fn groups_in(actions: Seq<ActionKeys>, query: Seq<char>) -> Seq<u32>
    decreases actions.len(),
{
    if actions.len() == 0 {
        Seq::empty()
    } else {
        let h = groups_in(actions.drop_last(), query);
        if is_drawn(actions.last(), query) && !h.contains(actions.last().group) {
            h.push(actions.last().group)
        } else {
            h
        }
    }
}

/// The place of a group, behind all others when it has none.
pub open spec fn group_place(all: Seq<u32>, group: u32) -> nat
    decreases all.len(),
{
    if all.len() == 0 {
        u64::MAX as nat
    } else if all.drop_last().contains(group) || all.last() != group {
        group_place(all.drop_last(), group)
    } else {
        (all.len() - 1) as nat
    }
}

pub open spec fn group_key(all: Seq<u32>, group: u32) -> order::KeyView {
    order::KeyView { major: group_place(all, group), minor: 0, text: Seq::empty() }
}

pub open spec fn group_keys(all: Seq<u32>, groups: Seq<u32>) -> Seq<order::KeyView> {
    Seq::new(groups.len(), |i: int| group_key(all, groups[i]))
}

/// The groups as they are drawn.
pub open spec fn drawn_groups(actions: Seq<ActionKeys>, all: Seq<u32>, query: Seq<char>) -> Seq<
    u32,
> {
    let g = groups_in(actions, query);
    let o = order::order_of(group_keys(all, g));
    Seq::new(g.len(), |i: int| g[o[i] as int])
}

pub open spec fn records(s: ShortcutsState, action: Seq<char>) -> bool {
    s.recording matches Some(r) && r.action@ == action
}

pub open spec fn asks_about(s: ShortcutsState, action: Seq<char>) -> bool {
    s.conflict matches Some(c) && c.action@ == action
}

/// The keys a row shows: what was recorded so far, else what is asked about,
/// else the keys there are.
pub open spec fn shown_keys(a: ActionKeys, s: ShortcutsState) -> Seq<Seq<char>> {
    if records(s, a.action@) {
        let typed = text::joined(text::views(s.recording->0.chords@), " "@);
        if typed.len() == 0 {
            Seq::empty()
        } else {
            seq![typed]
        }
    } else if asks_about(s, a.action@) {
        seq![s.conflict->0.spec@]
    } else {
        text::views(a.keys@)
    }
}

/// `r` is the row of the action at `place`.
pub open spec fn is_row(r: ShortcutRow, app: Tty7App, s: ShortcutsState, place: usize) -> bool {
    let a = app.facts.actions@[place as int];
    &&& r.place == place
    &&& r.recording == records(s, a.action@)
    &&& text::views(r.shown@) == shown_keys(a, s)
    &&& r.modified == (text::views(app.config.keybindings@).contains(a.action@) && !r.recording)
    &&& r.conflict == asks_about(s, a.action@)
}

/// `g` is a group as it is drawn.
pub open spec fn is_group(g: ShortcutGroup, app: Tty7App, s: ShortcutsState, group: u32) -> bool {
    let own = members(app.facts.actions@, text::query_of(s.search@), group);
    &&& g.group == group
    &&& g.rows@.len() == own.len()
    &&& forall|i: int| 0 <= i < own.len() ==> is_row(#[trigger] g.rows@[i], app, s, own[i])
}

/// `r` is the page of shortcuts. A prefix is asked for only under tmux's
/// preset.
pub open spec fn is_page(r: ShortcutsPage, app: Tty7App, s: ShortcutsState) -> bool {
    let tmux = app.config.keybinding_preset@ == "tmux"@;
    let query = text::query_of(s.search@);
    let groups = drawn_groups(app.facts.actions@, app.facts.action_groups@, query);
    &&& r.preset == (if tmux {
        1
    } else {
        0usize
    })
    &&& r.prefix == (if tmux {
        Some(
            if app.config.prefix@ == "ctrl-a"@ {
                1
            } else {
                0usize
            },
        )
    } else {
        None
    })
    &&& r.changed == app.config.keybindings@.len()
    &&& r.restore == (if r.changed > 0 {
        Some(settings::button_of(BtnKey::RestoreShortcuts, BtnKind::Link))
    } else {
        None
    })
    &&& r.note == s.note
    &&& r.groups@.len() == groups.len()
    &&& forall|i: int| 0 <= i < groups.len() ==> is_group(#[trigger] r.groups@[i], app, s, groups[i])
}

/// The preset of one of the two cells.
pub fn preset_at(ix: usize) -> (r: String)
    ensures
        r@ == (if ix == 0 {
            "default"@
        } else {
            "tmux"@
        }),
{
    if ix == 0 {
        text::owned("default")
    } else {
        text::owned("tmux")
    }
}

/// The prefix of one of the two cells.
pub fn prefix_at(ix: usize) -> (r: String)
    ensures
        r@ == (if ix == 0 {
            "ctrl-b"@
        } else {
            "ctrl-a"@
        }),
{
    if ix == 0 {
        text::owned("ctrl-b")
    } else {
        text::owned("ctrl-a")
    }
}

fn is_visible(a: &ActionKeys, query: &String) -> (r: bool)
    ensures
        r == is_drawn(*a, query@),
{
    if query.as_str().is_empty() || a.matches {
        return true;
    }
    let lower = text::to_lower(a.label.as_str());
    text::contains(lower.as_str(), query.as_str())
}

fn find_members(actions: &Vec<ActionKeys>, query: &String, group: u32) -> (r: Vec<usize>)
    ensures
        r@ == members(actions@, query@, group),
        forall|k: int| 0 <= k < r@.len() ==> #[trigger] r@[k] < actions@.len(),
{
    let mut out: Vec<usize> = Vec::new();
    let mut i: usize = 0;
    assert(actions@.take(0) =~= Seq::<ActionKeys>::empty());
    while i < actions.len()
        invariant
            i <= actions@.len(),
            out@ == members(actions@.take(i as int), query@, group),
            forall|k: int| 0 <= k < out@.len() ==> #[trigger] out@[k] < i,
        decreases actions@.len() - i,
    {
        assert(actions@.take(i + 1).drop_last() =~= actions@.take(i as int));
        if actions[i].group == group && is_visible(&actions[i], query) {
            out.push(i);
        }
        i = i + 1;
    }
    assert(actions@.take(actions@.len() as int) =~= actions@);
    out
}

fn has_group(v: &Vec<u32>, group: u32) -> (r: bool)
    ensures
        r == v@.contains(group),
{
    let mut i: usize = 0;
    while i < v.len()
        invariant
            i <= v@.len(),
            forall|k: int| 0 <= k < i ==> #[trigger] v@[k] != group,
        decreases v@.len() - i,
    {
        if v[i] == group {
            assert(v@[i as int] == group);
            return true;
        }
        i = i + 1;
    }
    false
}

fn find_groups(actions: &Vec<ActionKeys>, query: &String) -> (r: Vec<u32>)
    ensures
        r@ == groups_in(actions@, query@),
{
    let mut out: Vec<u32> = Vec::new();
    let mut i: usize = 0;
    assert(actions@.take(0) =~= Seq::<ActionKeys>::empty());
    while i < actions.len()
        invariant
            i <= actions@.len(),
            out@ == groups_in(actions@.take(i as int), query@),
        decreases actions@.len() - i,
    {
        assert(actions@.take(i + 1).drop_last() =~= actions@.take(i as int));
        let group: u32 = actions[i].group;
        if is_visible(&actions[i], query) && !has_group(&out, group) {
            out.push(group);
        }
        i = i + 1;
    }
    assert(actions@.take(actions@.len() as int) =~= actions@);
    out
}

fn position_of(all: &Vec<u32>, group: u32) -> (r: u64)
    ensures
        r == group_place(all@, group),
{
    let mut at: Option<usize> = None;
    let mut i: usize = 0;
    assert(all@.take(0) =~= Seq::<u32>::empty());
    while i < all.len()
        invariant
            i <= all@.len(),
            match at {
                Some(k) => k < i && all@[k as int] == group && group_place(
                    all@.take(i as int),
                    group,
                ) == k,
                None => group_place(all@.take(i as int), group) == u64::MAX && forall|k: int|
                    0 <= k < i ==> #[trigger] all@[k] != group,
            },
        decreases all@.len() - i,
    {
        proof {
            let t = all@.take(i + 1);
            assert(t.drop_last() =~= all@.take(i as int));
            if at is Some {
                assert(t.drop_last()[at->0 as int] == group);
            }
        }
        if at.is_none() && all[i] == group {
            at = Some(i);
        }
        i = i + 1;
    }
    assert(all@.take(all@.len() as int) =~= all@);
    match at {
        Some(k) => k as u64,
        None => u64::MAX,
    }
}

fn order_groups(actions: &Vec<ActionKeys>, all: &Vec<u32>, query: &String) -> (r: Vec<u32>)
    ensures
        r@ == drawn_groups(actions@, all@, query@),
{
    let groups = find_groups(actions, query);
    let mut keys: Vec<order::SortKey> = Vec::new();
    let mut i: usize = 0;
    while i < groups.len()
        invariant
            i <= groups@.len(),
            keys@.len() == i,
            forall|k: int| 0 <= k < i ==> (#[trigger] keys@[k])@ == group_key(all@, groups@[k]),
        decreases groups@.len() - i,
    {
        let place: u64 = position_of(all, groups[i]);
        let key = order::key_of(place, 0, "");
        proof {
            reveal_strlit("");
            assert(key@.text =~= Seq::<char>::empty());
        }
        keys.push(key);
        i = i + 1;
    }
    assert(order::key_views(keys@) =~= group_keys(all@, groups@));
    let o = order::stable_order(&keys);
    let mut out: Vec<u32> = Vec::new();
    let mut i: usize = 0;
    while i < o.len()
        invariant
            i <= o@.len(),
            groups@ == groups_in(actions@, query@),
            o@ == order::order_of(group_keys(all@, groups@)),
            order::is_stable_order(group_keys(all@, groups@), o@),
            out@.len() == i,
            forall|k: int| 0 <= k < i ==> #[trigger] out@[k] == groups@[o@[k] as int],
        decreases o@.len() - i,
    {
        out.push(groups[o[i]]);
        i = i + 1;
    }
    assert(out@ =~= drawn_groups(actions@, all@, query@));
    out
}

/// The text in which all but the end is kept: `s` without the ellipses it ends
/// in.
pub open spec fn without_ellipsis(s: Seq<char>) -> Seq<char>
    decreases s.len(),
{
    if s.len() > 0 && s.last() == '…' {
        without_ellipsis(s.drop_last())
    } else {
        s
    }
}

/// What another action is called in the question about its keys.
pub fn conflict_label(label: &str) -> (r: String)
    ensures
        r@ == without_ellipsis(label@),
{
    let v = text::chars_of(label);
    let mut n: usize = v.len();
    assert(v@.take(n as int) =~= v@);
    while n > 0 && v[n - 1] == '…'
        invariant
            n <= v@.len(),
            v@ == label@,
            without_ellipsis(v@.take(n as int)) == without_ellipsis(label@),
        decreases n,
    {
        assert(v@.take(n as int).drop_last() =~= v@.take(n - 1));
        n = n - 1;
    }
    let kept = text::part(v.as_slice(), 0, n);
    assert(kept@ =~= v@.take(n as int));
    text::string_of(kept.as_slice())
}

/// The keys of one chord, side by side.
pub open spec fn side_by_side(chord: Seq<Seq<char>>) -> Seq<char>
    decreases chord.len(),
{
    if chord.len() == 0 {
        Seq::empty()
    } else {
        side_by_side(chord.drop_last()) + chord.last()
    }
}

/// The chords, each with its keys side by side.
pub open spec fn chord_texts(chords: Seq<Vec<String>>) -> Seq<Seq<char>> {
    Seq::new(chords.len(), |i: int| side_by_side(text::views(chords[i]@)))
}

/// The chords of a shortcut in words: one, then the next.
pub fn conflict_keys(chords: &Vec<Vec<String>>, then_word: &str) -> (r: String)
    ensures
        r@ == text::joined(chord_texts(chords@), seq![' '] + then_word@ + seq![' ']),
{
    let mut parts: Vec<String> = Vec::new();
    let mut i: usize = 0;
    while i < chords.len()
        invariant
            i <= chords@.len(),
            parts@.len() == i,
            forall|k: int|
                0 <= k < i ==> (#[trigger] parts@[k])@ == side_by_side(text::views(chords@[k]@)),
        decreases chords@.len() - i,
    {
        let chord = &chords[i];
        let ghost keys = text::views(chord@);
        let mut out = String::new();
        let mut j: usize = 0;
        assert(keys.take(0) =~= Seq::<Seq<char>>::empty());
        assert(out@ =~= side_by_side(keys.take(0)));
        while j < chord.len()
            invariant
                j <= chord@.len(),
                keys == text::views(chord@),
                out@ == side_by_side(keys.take(j as int)),
            decreases chord@.len() - j,
        {
            assert(keys.take(j + 1).drop_last() =~= keys.take(j as int));
            out.append(chord[j].as_str());
            j = j + 1;
        }
        assert(keys.take(keys.len() as int) =~= keys);
        parts.push(out);
        i = i + 1;
    }
    let mut sep = String::new();
    sep.push(' ');
    sep.append(then_word);
    sep.push(' ');
    assert(sep@ =~= seq![' '] + then_word@ + seq![' ']);
    assert(text::views(parts@) =~= chord_texts(chords@));
    text::join(parts.as_slice(), sep.as_str())
}

/// A part of a row of keycaps.
#[derive(Debug, PartialEq, Eq)]
pub enum CapPart {
    /// The word between two chords.
    Between,
    Key(String),
}

pub enum CapView {
    Between,
    Key(Seq<char>),
}

impl View for CapPart {
    type V = CapView;

    open spec fn view(&self) -> CapView {
        match self {
            CapPart::Between => CapView::Between,
            CapPart::Key(k) => CapView::Key(k@),
        }
    }
}

pub open spec fn cap_views(v: Seq<CapPart>) -> Seq<CapView> {
    Seq::new(v.len(), |i: int| v[i]@)
}

/// A cap for each key of a chord.
pub open spec fn chord_caps(chord: Seq<Seq<char>>) -> Seq<CapView> {
    Seq::new(chord.len(), |i: int| CapView::Key(chord[i]))
}

/// A cap for each key of each chord, with a word between two chords.
pub open spec fn caps_of(chords: Seq<Vec<String>>) -> Seq<CapView>
    decreases chords.len(),
{
    if chords.len() == 0 {
        Seq::empty()
    } else {
        caps_of(chords.drop_last()) + (if chords.len() > 1 {
            seq![CapView::Between]
        } else {
            Seq::empty()
        }) + chord_caps(text::views(chords.last()@))
    }
}

/// A shortcut as keycaps.
pub fn keycap_row(chords: &Vec<Vec<String>>) -> (r: Vec<CapPart>)
    ensures
        cap_views(r@) == caps_of(chords@),
{
    let mut out: Vec<CapPart> = Vec::new();
    let mut i: usize = 0;
    assert(chords@.take(0) =~= Seq::<Vec<String>>::empty());
    assert(cap_views(out@) =~= Seq::<CapView>::empty());
    while i < chords.len()
        invariant
            i <= chords@.len(),
            cap_views(out@) == caps_of(chords@.take(i as int)),
        decreases chords@.len() - i,
    {
        let ghost before = cap_views(out@);
        assert(chords@.take(i + 1).drop_last() =~= chords@.take(i as int));
        let ghost front = before + (if i > 0 {
            seq![CapView::Between]
        } else {
            Seq::empty()
        });
        if i > 0 {
            out.push(CapPart::Between);
        }
        assert(cap_views(out@) =~= front);
        let chord = &chords[i];
        let ghost keys = text::views(chord@);
        let mut j: usize = 0;
        assert(front =~= front + chord_caps(keys).take(0));
        while j < chord.len()
            invariant
                j <= chord@.len(),
                keys == text::views(chord@),
                cap_views(out@) == front + chord_caps(keys).take(j as int),
            decreases chord@.len() - j,
        {
            let ghost so_far = cap_views(out@);
            let cap = CapPart::Key(chord[j].clone());
            out.push(cap);
            assert(cap_views(out@) =~= so_far.push(cap@));
            assert(cap_views(out@) =~= front + chord_caps(keys).take(j + 1));
            j = j + 1;
        }
        assert(chord_caps(keys).take(keys.len() as int) =~= chord_caps(keys));
        i = i + 1;
    }
    assert(chords@.take(chords@.len() as int) =~= chords@);
    out
}

impl Tty7App {
    fn shortcut_row(&self, s: &ShortcutsState, place: usize) -> (r: ShortcutRow)
        requires
            place < self.facts.actions@.len(),
        ensures
            is_row(r, *self, *s, place),
    {
        let a = &self.facts.actions[place];
        let recording: bool = match &s.recording {
            Some(rec) => text::same(rec.action.as_str(), a.action.as_str()),
            None => false,
        };
        let conflict: bool = match &s.conflict {
            Some(c) => text::same(c.action.as_str(), a.action.as_str()),
            None => false,
        };
        let mut shown: Vec<String> = Vec::new();
        if recording {
            match &s.recording {
                Some(rec) => {
                    let typed = text::join(rec.chords.as_slice(), " ");
                    if !typed.as_str().is_empty() {
                        shown.push(typed);
                    }
                },
                None => {},
            }
        } else if conflict {
            match &s.conflict {
                Some(c) => {
                    shown.push(c.spec.clone());
                },
                None => {},
            }
        } else {
            shown = text::copy_strings(&a.keys);
        }
        assert(text::views(shown@) =~= shown_keys(*a, *s));
        let changed: bool = text::has_text(&self.config.keybindings, a.action.as_str());
        ShortcutRow { place, recording, shown, modified: changed && !recording, conflict }
    }

    fn shortcut_group(&self, s: &ShortcutsState, query: &String, group: u32) -> (r: ShortcutGroup)
        requires
            query@ == text::query_of(s.search@),
        ensures
            is_group(r, *self, *s, group),
    {
        let own = find_members(&self.facts.actions, query, group);
        let mut rows: Vec<ShortcutRow> = Vec::new();
        let mut i: usize = 0;
        while i < own.len()
            invariant
                i <= own@.len(),
                forall|k: int| 0 <= k < own@.len() ==> #[trigger] own@[k] < self.facts.actions@.len(),
                rows@.len() == i,
                forall|k: int| 0 <= k < i ==> is_row(#[trigger] rows@[k], *self, *s, own@[k]),
            decreases own@.len() - i,
        {
            rows.push(self.shortcut_row(s, own[i]));
            i = i + 1;
        }
        ShortcutGroup { group, rows }
    }

    /// The page of shortcuts.
    pub fn render_settings_keybindings(&self) -> (r: Option<ShortcutsPage>)
        ensures
            match self.settings {
                Some(st) => r matches Some(page) && is_page(page, *self, st.keys),
                None => r is None,
            },
    {
        let s: &ShortcutsState = match &self.settings {
            None => {
                return None;
            },
            Some(st) => &st.keys,
        };
        let query = text::query_text(s.search.as_str());
        let tmux: bool = text::same(self.config.keybinding_preset.as_str(), "tmux");
        let order = order_groups(&self.facts.actions, &self.facts.action_groups, &query);
        let mut groups: Vec<ShortcutGroup> = Vec::new();
        let mut i: usize = 0;
        while i < order.len()
            invariant
                i <= order@.len(),
                query@ == text::query_of(s.search@),
                groups@.len() == i,
                forall|k: int| 0 <= k < i ==> is_group(#[trigger] groups@[k], *self, *s, order@[k]),
            decreases order@.len() - i,
        {
            groups.push(self.shortcut_group(s, &query, order[i]));
            i = i + 1;
        }
        let changed: usize = self.config.keybindings.len();
        let restore = if changed > 0 {
            Some(Btn::new(BtnKey::RestoreShortcuts, BtnKind::Link))
        } else {
            None
        };
        let prefix: Option<usize> = if tmux {
            if text::same(self.config.prefix.as_str(), "ctrl-a") {
                Some(1)
            } else {
                Some(0)
            }
        } else {
            None
        };
        let preset: usize = if tmux {
            1
        } else {
            0
        };
        Some(
            ShortcutsPage {
                preset,
                prefix,
                changed,
                restore,
                note: text::copy_option(&s.note),
                groups,
            },
        )
    }

    /// A click on an action's keys: recording stops when it is under way for
    /// this action, else it is to start.
    pub fn click_shortcut(&mut self, action: &str) -> (r: bool)
        ensures
            *final(self) == (Tty7App { settings: final(self).settings, ..*old(self) }),
            match old(self).settings {
                Some(s) => if records(s.keys, action@) {
                    !r && final(self).settings == Some(
                        SettingsState { keys: ShortcutsState { recording: None, ..s.keys }, ..s },
                    )
                } else {
                    r && final(self).settings == old(self).settings
                },
                None => r && final(self).settings is None,
            },
    {
        match &mut self.settings {
            Some(s) => {
                let already: bool = match &s.keys.recording {
                    Some(rec) => text::same(rec.action.as_str(), action),
                    None => false,
                };
                if already {
                    s.keys.recording = None;
                }
                !already
            },
            None => true,
        }
    }
}

/// The preset and the prefix that are picked are the ones then highlighted.
pub proof fn a_picked_preset_is_highlighted(app: Tty7App, s: ShortcutsState, r: ShortcutsPage)
    requires
        is_page(r, app, s),
    ensures
        app.config.keybinding_preset@ == "tmux"@ ==> r.preset == 1 && r.prefix is Some,
        app.config.keybinding_preset@ == "default"@ ==> r.preset == 0 && r.prefix is None,
        app.config.keybinding_preset@ == "tmux"@ && app.config.prefix@ == "ctrl-a"@ ==> r.prefix
            == Some(1usize),
        app.config.keybinding_preset@ == "tmux"@ && app.config.prefix@ == "ctrl-b"@ ==> r.prefix
            == Some(0usize),
{
    reveal_strlit("default");
    reveal_strlit("tmux");
    reveal_strlit("ctrl-a");
    reveal_strlit("ctrl-b");
    if app.config.keybinding_preset@ == "default"@ {
        assert("default"@.len() != "tmux"@.len());
    }
    if app.config.prefix@ == "ctrl-b"@ {
        assert("ctrl-b"@[5] != "ctrl-a"@[5]);
    }
}

proof fn lemma_group_in(actions: Seq<ActionKeys>, query: Seq<char>, k: int)
    requires
        0 <= k < actions.len(),
        is_drawn(actions[k], query),
    ensures
        groups_in(actions, query).contains(actions[k].group),
    decreases actions.len(),
{
    let h = actions.drop_last();
    let a = groups_in(actions, query);
    let b = groups_in(h, query);
    if k < h.len() {
        lemma_group_in(h, query, k);
        let w = choose|w: int| 0 <= w < b.len() && b[w] == actions[k].group;
        assert(a[w] == actions[k].group);
    } else if !b.contains(actions[k].group) {
        assert(a[a.len() - 1] == actions[k].group);
    }
}

proof fn lemma_groups_len(actions: Seq<ActionKeys>, query: Seq<char>)
    ensures
        groups_in(actions, query).len() <= actions.len(),
    decreases actions.len(),
{
    if actions.len() > 0 {
        lemma_groups_len(actions.drop_last(), query);
    }
}

proof fn lemma_member(actions: Seq<ActionKeys>, query: Seq<char>, k: int)
    requires
        actions.len() <= usize::MAX,
        0 <= k < actions.len(),
        is_drawn(actions[k], query),
    ensures
        members(actions, query, actions[k].group).contains(k as usize),
    decreases actions.len(),
{
    let h = actions.drop_last();
    let g = actions[k].group;
    let a = members(actions, query, g);
    let b = members(h, query, g);
    if k < h.len() {
        lemma_member(h, query, k);
        let w = choose|w: int| 0 <= w < b.len() && b[w] == k as usize;
        assert(a[w] == k as usize);
    } else {
        assert(a[a.len() - 1] == k as usize);
    }
}

/// Every action that is found is drawn, in its own group.
pub proof fn every_action_found_is_drawn(
    actions: Seq<ActionKeys>,
    all: Seq<u32>,
    query: Seq<char>,
    k: int,
)
    requires
        actions.len() <= usize::MAX,
        0 <= k < actions.len(),
        is_drawn(actions[k], query),
    ensures
        drawn_groups(actions, all, query).contains(actions[k].group),
        members(actions, query, actions[k].group).contains(k as usize),
{
    let g = groups_in(actions, query);
    let keys = group_keys(all, g);
    let o = order::order_of(keys);
    lemma_group_in(actions, query, k);
    lemma_groups_len(actions, query);
    lemma_member(actions, query, k);
    order::lemma_order_exists(keys);
    let w = choose|w: int| 0 <= w < g.len() && g[w] == actions[k].group;
    assert(o.contains(w as usize));
    let i = choose|i: int| 0 <= i < o.len() && o[i] == w as usize;
    assert(drawn_groups(actions, all, query)[i] == actions[k].group);
}

/// An action is drawn where nothing is searched for, where the search finds it
/// by its own name, or where what it is called holds it.
pub proof fn an_action_is_found_by_name_or_label(a: ActionKeys, query: Seq<char>)
    ensures
        query.len() == 0 ==> is_drawn(a, query),
        a.matches ==> is_drawn(a, query),
        text::occurs(text::lower_of(a.label@), query) ==> is_drawn(a, query),
        is_drawn(a, query) ==> query.len() == 0 || a.matches || text::occurs(
            text::lower_of(a.label@),
            query,
        ),
{
}

/// A group lists its own actions, those that are drawn, in the order of the
/// table.
pub proof fn a_group_lists_its_own_actions(
    actions: Seq<ActionKeys>,
    query: Seq<char>,
    group: u32,
)
    requires
        actions.len() <= usize::MAX,
    ensures
        forall|i: int|
            0 <= i < members(actions, query, group).len() ==> (#[trigger] members(
                actions,
                query,
                group,
            )[i]) < actions.len() && actions[members(actions, query, group)[i] as int].group
                == group && is_drawn(actions[members(actions, query, group)[i] as int], query),
        forall|i: int, j: int|
            0 <= i < j < members(actions, query, group).len() ==> (#[trigger] members(
                actions,
                query,
                group,
            )[i]) < (#[trigger] members(actions, query, group)[j]),
    decreases actions.len(),
{
    if actions.len() > 0 {
        let front = actions.drop_last();
        let head = members(front, query, group);
        let all = members(actions, query, group);
        a_group_lists_its_own_actions(front, query, group);
        assert forall|i: int| 0 <= i < all.len() implies (#[trigger] all[i]) < actions.len()
            && actions[all[i] as int].group == group && is_drawn(
            actions[all[i] as int],
            query,
        ) by {
            if i < head.len() {
                assert(all[i] == head[i]);
                assert(front[head[i] as int] == actions[head[i] as int]);
            }
        }
        assert forall|i: int, j: int| 0 <= i < j < all.len() implies (#[trigger] all[i]) < (
        #[trigger] all[j]) by {
            assert(all[i] == head[i]);
            if j < head.len() {
                assert(all[j] == head[j]);
            }
        }
    }
}

/// Groups are drawn in the order of the table of groups.
pub proof fn groups_stand_in_the_order_of_the_table(
    actions: Seq<ActionKeys>,
    all: Seq<u32>,
    query: Seq<char>,
    i: int,
    j: int,
)
    requires
        actions.len() <= usize::MAX,
        0 <= i < j < drawn_groups(actions, all, query).len(),
    ensures
        group_place(all, drawn_groups(actions, all, query)[i]) <= group_place(
            all,
            drawn_groups(actions, all, query)[j],
        ),
{
    let g = groups_in(actions, query);
    let keys = group_keys(all, g);
    lemma_groups_len(actions, query);
    order::lemma_order_exists(keys);
    let o = order::order_of(keys);
    assert(order::goes_before(keys, o[i] as int, o[j] as int));
    assert(o[i] < g.len() && o[j] < g.len());
}

/// The place of a group is where the table first has it.
pub proof fn a_group_stands_where_the_table_has_it(all: Seq<u32>, group: u32, k: int)
    requires
        0 <= k < all.len(),
        all[k] == group,
        forall|i: int| 0 <= i < k ==> #[trigger] all[i] != group,
    ensures
        group_place(all, group) == k,
    decreases all.len(),
{
    let front = all.drop_last();
    if k < front.len() {
        assert(front[k] == group);
        a_group_stands_where_the_table_has_it(front, group, k);
    } else {
        assert(!front.contains(group)) by {
            if front.contains(group) {
                let w = choose|w: int| 0 <= w < front.len() && front[w] == group;
                assert(all[w] == group);
            }
        }
    }
}

/// A row shows the keys of its own action. While keys are recorded for it, it
/// shows what was recorded so far; while it is asked about keys, those. The
/// way back is offered only for an action whose keys were changed.
pub proof fn a_row_shows_the_keys_of_its_action(
    r: ShortcutRow,
    app: Tty7App,
    s: ShortcutsState,
    place: usize,
)
    requires
        is_row(r, app, s, place),
        place < app.facts.actions@.len(),
    ensures
        ({
            let a = app.facts.actions@[place as int];
            &&& r.place == place
            &&& r.recording <==> s.recording is Some && s.recording->0.action@ == a.action@
            &&& r.conflict <==> s.conflict is Some && s.conflict->0.action@ == a.action@
            &&& !r.recording && !r.conflict ==> text::views(r.shown@) == text::views(a.keys@)
            &&& !r.recording && r.conflict ==> r.shown@.len() == 1 && r.shown@[0]@
                == s.conflict->0.spec@
            &&& r.recording && r.shown@.len() > 0 ==> r.shown@.len() == 1 && r.shown@[0]@
                == text::joined(text::views(s.recording->0.chords@), " "@)
            &&& r.modified <==> !r.recording && text::views(app.config.keybindings@).contains(
                a.action@,
            )
        }),
{
    let shown = text::views(r.shown@);
    assert(shown.len() == r.shown@.len());
    if r.shown@.len() > 0 {
        assert(shown[0] == r.shown@[0]@);
    }
}

/// What another action is called keeps all but the ellipses it ends in.
pub proof fn only_ellipses_at_the_end_are_left_out(s: Seq<char>)
    ensures
        without_ellipsis(s).len() <= s.len(),
        without_ellipsis(s) == s.take(without_ellipsis(s).len() as int),
        without_ellipsis(s).len() > 0 ==> without_ellipsis(s).last() != '…',
        forall|i: int| without_ellipsis(s).len() <= i < s.len() ==> #[trigger] s[i] == '…',
    decreases s.len(),
{
    if s.len() > 0 && s.last() == '…' {
        let front = s.drop_last();
        only_ellipses_at_the_end_are_left_out(front);
        assert(without_ellipsis(s) =~= s.take(without_ellipsis(s).len() as int));
        assert forall|i: int| without_ellipsis(s).len() <= i < s.len() implies #[trigger] s[i]
            == '…' by {
            if i < front.len() {
                assert(front[i] == s[i]);
            }
        }
    } else {
        assert(s.take(s.len() as int) =~= s);
    }
}

/// A shortcut has a cap for each of its keys, in order, and a word between two
/// chords.
pub proof fn a_word_stands_between_two_chords(first: Vec<String>, second: Vec<String>)
    ensures
        caps_of(seq![first]) == chord_caps(text::views(first@)),
        caps_of(seq![first, second]) == chord_caps(text::views(first@)) + seq![CapView::Between]
            + chord_caps(text::views(second@)),
        forall|i: int|
            0 <= i < first@.len() ==> #[trigger] chord_caps(text::views(first@))[i]
                == CapView::Key(first@[i]@),
        chord_caps(text::views(first@)).len() == first@.len(),
{
    let none = Seq::<Vec<String>>::empty();
    let one = seq![first];
    let two = seq![first, second];
    assert(one.drop_last() =~= none);
    assert(two.drop_last() =~= one);
    reveal_with_fuel(caps_of, 3);
    assert(caps_of(one) =~= chord_caps(text::views(first@)));
    assert(caps_of(two) =~= chord_caps(text::views(first@)) + seq![CapView::Between] + chord_caps(
        text::views(second@),
    ));
}

/// The keys of a chord stand side by side, in order.
pub proof fn keys_of_a_chord_stand_in_order(chord: Seq<Seq<char>>, key: Seq<char>)
    ensures
        side_by_side(Seq::empty()).len() == 0,
        side_by_side(chord.push(key)) == side_by_side(chord) + key,
{
    assert(chord.push(key).drop_last() =~= chord);
}

/// The way back from every change is offered exactly where something was
/// changed.
pub proof fn restoring_is_offered_where_something_changed(
    r: ShortcutsPage,
    app: Tty7App,
    s: ShortcutsState,
)
    requires
        is_page(r, app, s),
    ensures
        r.changed == app.config.keybindings@.len(),
        r.restore is Some <==> app.config.keybindings@.len() > 0,
        r.restore is Some ==> r.restore->0.key == BtnKey::RestoreShortcuts,
        r.note == s.note,
{
}

/// A group draws a row for each of its actions, in order, and the page draws
/// its groups in order.
pub proof fn a_page_draws_its_groups_in_order(
    r: ShortcutsPage,
    app: Tty7App,
    s: ShortcutsState,
    i: int,
    j: int,
)
    requires
        is_page(r, app, s),
        0 <= i < r.groups@.len(),
        0 <= j < r.groups@[i].rows@.len(),
    ensures
        r.groups@.len() == drawn_groups(
            app.facts.actions@,
            app.facts.action_groups@,
            text::query_of(s.search@),
        ).len(),
        r.groups@[i].group == drawn_groups(
            app.facts.actions@,
            app.facts.action_groups@,
            text::query_of(s.search@),
        )[i],
        r.groups@[i].rows@[j].place == members(
            app.facts.actions@,
            text::query_of(s.search@),
            r.groups@[i].group,
        )[j],
{
    let groups = drawn_groups(
        app.facts.actions@,
        app.facts.action_groups@,
        text::query_of(s.search@),
    );
    assert(is_group(r.groups@[i], app, s, groups[i]));
    let own = members(app.facts.actions@, text::query_of(s.search@), groups[i]);
    assert(is_row(r.groups@[i].rows@[j], app, s, own[j]));
}

/// The groups that are drawn are those of the actions that are, each once.
pub proof fn a_group_without_actions_is_not_drawn(actions: Seq<ActionKeys>, query: Seq<char>)
    ensures
        groups_in(actions, query).no_duplicates(),
        forall|g: u32| #[trigger]
            groups_in(actions, query).contains(g) ==> exists|k: int|
                0 <= k < actions.len() && (#[trigger] actions[k]).group == g && is_drawn(
                    actions[k],
                    query,
                ),
    decreases actions.len(),
{
    if actions.len() > 0 {
        let front = actions.drop_last();
        let head = groups_in(front, query);
        let all = groups_in(actions, query);
        a_group_without_actions_is_not_drawn(front, query);
        assert forall|g: u32| #[trigger] all.contains(g) implies exists|k: int|
            0 <= k < actions.len() && (#[trigger] actions[k]).group == g && is_drawn(
                actions[k],
                query,
            ) by {
            if head.contains(g) {
                let k = choose|k: int|
                    0 <= k < front.len() && (#[trigger] front[k]).group == g && is_drawn(
                        front[k],
                        query,
                    );
                assert(actions[k] == front[k]);
            } else {
                let w = choose|w: int| 0 <= w < all.len() && all[w] == g;
                if w < head.len() {
                    assert(head[w] == g);
                }
                assert(actions[actions.len() - 1].group == g);
            }
        }
        assert forall|a: int, b: int|
            0 <= a < all.len() && 0 <= b < all.len() && a != b implies all[a] != all[b] by {
            if a < head.len() && b < head.len() {
                assert(all[a] == head[a] && all[b] == head[b]);
            } else if a < head.len() {
                assert(all[a] == head[a]);
                assert(head.contains(head[a]));
            } else {
                assert(all[b] == head[b]);
                assert(head.contains(head[b]));
            }
        }
    }
}

} // verus!
