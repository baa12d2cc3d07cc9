//! The sections of the tab rail, top to bottom, and how rows and groups move.

use vstd::prelude::*;
use crate::groups;
use crate::groups::{AutoKey, AutoView, GroupKey, GroupView};
use crate::text;
use crate::workspace;
use crate::workspace::WorkspaceGroups;

verus! {

/// A group as it is drawn: its header and the tabs under it.
#[derive(Debug, PartialEq)]
pub struct Section {
    pub key: Option<GroupKey>,
    pub name: Option<String>,
    pub tabs: Vec<usize>,
}

#[verifier::ext_equal]
pub struct SectionView {
    pub key: Option<GroupView>,
    pub name: Option<Seq<char>>,
    pub tabs: Seq<usize>,
}

impl View for Section {
    type V = SectionView;

    open spec fn view(&self) -> SectionView {
        SectionView {
            key: groups::option_view(self.key),
            name: match self.name {
                Some(n) => Some(n@),
                None => None,
            },
            tabs: self.tabs@,
        }
    }
}

impl Section {
    /// The kept group this is.
    pub fn pinned(&self) -> (r: Option<u128>)
        ensures
            r == match self@.key {
                Some(GroupView::Pinned(id)) => Some(id),
                _ => None,
            },
    {
        match &self.key {
            Some(k) => k.pinned(),
            None => None,
        }
    }
}

pub open spec fn section_views(v: Seq<Section>) -> Seq<SectionView> {
    Seq::new(v.len(), |i: int| v[i]@)
}

/// The tabs drawn under `key`, in tab order.
pub open spec fn rows_of(keys: Seq<Option<GroupView>>, key: Option<GroupView>) -> Seq<usize>
    decreases keys.len(),
{
    if keys.len() == 0 {
        Seq::empty()
    } else if keys.last() == key {
        rows_of(keys.drop_last(), key).push((keys.len() - 1) as usize)
    } else {
        rows_of(keys.drop_last(), key)
    }
}

/// The worked-out groups in the order their first tab appears.
pub open spec fn auto_order_of(keys: Seq<Option<GroupView>>) -> Seq<AutoView>
    decreases keys.len(),
{
    if keys.len() == 0 {
        Seq::empty()
    } else {
        let head = auto_order_of(keys.drop_last());
        match keys.last() {
            Some(GroupView::Auto(k)) => if head.contains(k) {
                head
            } else {
                head.push(k)
            },
            _ => head,
        }
    }
}

/// The worked-out groups in the order their first tab appears, each as that
/// tab has it.
pub open spec fn first_keys(keys: Seq<Option<GroupKey>>) -> Seq<AutoKey>
    decreases keys.len(),
{
    if keys.len() == 0 {
        Seq::empty()
    } else {
        let head = first_keys(keys.drop_last());
        match keys.last() {
            Some(GroupKey::Auto(k)) => if workspace::has_auto(head, k@) {
                head
            } else {
                head.push(k)
            },
            _ => head,
        }
    }
}

/// What the headers of the worked-out groups of these tabs read.
pub open spec fn heads_of(keys: Seq<Option<GroupKey>>) -> Seq<Seq<char>> {
    workspace::auto_names_of(first_keys(keys))
}

pub open spec fn pinned_section(
    keys: Seq<Option<GroupView>>,
    p: Seq<workspace::PinnedGroup>,
    i: int,
) -> SectionView {
    SectionView {
        key: Some(GroupView::Pinned(p[i].id)),
        name: Some(workspace::pinned_names_of(p)[i]),
        tabs: rows_of(keys, Some(GroupView::Pinned(p[i].id))),
    }
}

pub open spec fn auto_section(
    keys: Seq<Option<GroupView>>,
    autos: Seq<AutoView>,
    heads: Seq<Seq<char>>,
    i: int,
) -> SectionView {
    SectionView {
        key: Some(GroupView::Auto(autos[i])),
        name: Some(heads[i]),
        tabs: rows_of(keys, Some(GroupView::Auto(autos[i]))),
    }
}

/// The sections, top to bottom: every kept group in the user's order, an empty
/// one too; the worked-out groups in the order their first tab appears; then
/// the tabs without a group, under a header only where worked-out groups set
/// them apart. `heads` is what the headers of the worked-out groups read.
pub open spec fn sections_of(
    keys: Seq<Option<GroupView>>,
    p: Seq<workspace::PinnedGroup>,
    ungrouped: Seq<char>,
    heads: Seq<Seq<char>>,
) -> Seq<SectionView> {
    let autos = auto_order_of(keys);
    let rest = rows_of(keys, None);
    if p.len() == 0 && autos.len() == 0 {
        seq![SectionView { key: None, name: None, tabs: rest }]
    } else {
        Seq::new(p.len(), |i: int| pinned_section(keys, p, i)) + Seq::new(
            autos.len(),
            |i: int| auto_section(keys, autos, heads, i),
        ) + if rest.len() > 0 {
            seq![
                SectionView {
                    key: None,
                    name: if autos.len() > 0 {
                        Some(ungrouped)
                    } else {
                        None
                    },
                    tabs: rest,
                },
            ]
        } else {
            Seq::empty()
        }
    }
}

/// The tabs drawn under `key`.
pub fn members(keys: &[Option<GroupKey>], key: &Option<GroupKey>) -> (r: Vec<usize>)
    ensures
        r@ == rows_of(groups::key_views(keys@), groups::option_view(*key)),
{
    let ghost kv = groups::key_views(keys@);
    let mut out: Vec<usize> = Vec::new();
    let mut i: usize = 0;
    assert(kv.take(0) =~= Seq::<Option<GroupView>>::empty());
    while i < keys.len()
        invariant
            i <= keys@.len(),
            kv == groups::key_views(keys@),
            out@ == rows_of(kv.take(i as int), groups::option_view(*key)),
        decreases keys@.len() - i,
    {
        assert(kv.take(i + 1).drop_last() =~= kv.take(i as int));
        if groups::same_option(&keys[i], key) {
            out.push(i);
        }
        i = i + 1;
    }
    assert(kv.take(kv.len() as int) =~= kv);
    out
}

/// The worked-out groups in the order their first tab appears.
pub fn auto_order(keys: &[Option<GroupKey>]) -> (r: Vec<AutoKey>)
    ensures
        r@ == first_keys(keys@),
        workspace::auto_views(r@) == auto_order_of(groups::key_views(keys@)),
{
    let ghost kv = groups::key_views(keys@);
    let mut out: Vec<AutoKey> = Vec::new();
    let mut i: usize = 0;
    assert(workspace::auto_views(out@) =~= auto_order_of(kv.take(0)));
    assert(out@ =~= first_keys(keys@.take(0)));
    while i < keys.len()
        invariant
            i <= keys@.len(),
            kv == groups::key_views(keys@),
            out@ == first_keys(keys@.take(i as int)),
            workspace::auto_views(out@) == auto_order_of(kv.take(i as int)),
        decreases keys@.len() - i,
    {
        assert(kv.take(i + 1).drop_last() =~= kv.take(i as int));
        assert(keys@.take(i + 1).drop_last() =~= keys@.take(i as int));
        let ghost before = workspace::auto_views(out@);
        if let Some(GroupKey::Auto(k)) = &keys[i] {
            if !workspace::contains_auto(&out, k) {
                out.push(k.copy());
                assert(workspace::auto_views(out@) =~= before.push(k@));
            }
        }
        i = i + 1;
    }
    assert(kv.take(kv.len() as int) =~= kv);
    assert(keys@.take(keys@.len() as int) =~= keys@);
    out
}

/// The sections of the tab rail, top to bottom. `ungrouped` is what the header
/// over the tabs without a group reads.
pub fn sidebar_sections(
    keys: &[Option<GroupKey>],
    groups: &WorkspaceGroups,
    ungrouped: &str,
) -> (r: Vec<Section>)
    ensures
        section_views(r@) == sections_of(
            groups::key_views(keys@),
            groups.pinned@,
            ungrouped@,
            heads_of(keys@),
        ),
{
    let ghost kv = groups::key_views(keys@);
    let autos = auto_order(keys);
    let ghost av = workspace::auto_views(autos@);
    let ghost heads = heads_of(keys@);
    assert(av.len() == autos@.len());
    let rest = members(keys, &None);
    let mut out: Vec<Section> = Vec::new();
    if groups.pinned.len() == 0 && autos.len() == 0 {
        out.push(Section { key: None, name: None, tabs: rest });
        assert(section_views(out@) =~= sections_of(kv, groups.pinned@, ungrouped@, heads));
        return out;
    }
    let pinned = workspace::pinned_names(&groups.pinned);
    let names = workspace::auto_names(&autos);
    assert(text::views(pinned@).len() == groups.pinned@.len());
    assert(text::views(names@).len() == av.len());
    let ghost p = groups.pinned@;
    let mut i: usize = 0;
    while i < groups.pinned.len()
        invariant
            i <= p.len(),
            p == groups.pinned@,
            kv == groups::key_views(keys@),
            pinned@.len() == p.len(),
            text::views(pinned@) == workspace::pinned_names_of(p),
            section_views(out@) == Seq::new(i as nat, |k: int| pinned_section(kv, p, k)),
        decreases p.len() - i,
    {
        let ghost before = section_views(out@);
        let key = Some(GroupKey::Pinned(groups.pinned[i].id));
        let tabs = members(keys, &key);
        let name = pinned[i].clone();
        assert(text::views(pinned@)[i as int] == name@);
        let s = Section { tabs, key, name: Some(name) };
        assert(s@ == pinned_section(kv, p, i as int));
        out.push(s);
        assert(section_views(out@) =~= before.push(s@));
        i = i + 1;
        assert(section_views(out@) =~= Seq::new(i as nat, |k: int| pinned_section(kv, p, k)));
    }
    let ghost head = section_views(out@);
    let mut i: usize = 0;
    assert(head =~= head + Seq::new(0, |k: int| auto_section(kv, av, heads, k)));
    while i < autos.len()
        invariant
            i <= autos@.len(),
            av == workspace::auto_views(autos@),
            kv == groups::key_views(keys@),
            names@.len() == autos@.len(),
            text::views(names@) == heads,
            section_views(out@) == head + Seq::new(i as nat, |k: int| auto_section(kv, av, heads, k)),
        decreases autos@.len() - i,
    {
        let ghost before = section_views(out@);
        let key = Some(GroupKey::Auto(autos[i].copy()));
        let tabs = members(keys, &key);
        let name = names[i].clone();
        assert(text::views(names@)[i as int] == name@);
        let s = Section { tabs, key, name: Some(name) };
        assert(s@ == auto_section(kv, av, heads, i as int));
        out.push(s);
        assert(section_views(out@) =~= before.push(s@));
        i = i + 1;
        assert(section_views(out@) =~= head + Seq::new(
            i as nat,
            |k: int| auto_section(kv, av, heads, k),
        ));
    }
    let ghost upto = section_views(out@);
    if rest.len() > 0 {
        let name = if autos.len() > 0 {
            Some(text::owned(ungrouped))
        } else {
            None
        };
        let s = Section { key: None, name, tabs: rest };
        out.push(s);
        assert(section_views(out@) =~= upto.push(s@));
    }
    assert(section_views(out@) =~= sections_of(kv, p, ungrouped@, heads));
    out
}

// ---- The order the tabs are drawn in ----

/// The tabs of all sections, top to bottom.
pub open spec fn flat(s: Seq<SectionView>) -> Seq<usize>
    decreases s.len(),
{
    if s.len() == 0 {
        Seq::empty()
    } else {
        flat(s.drop_last()) + s.last().tabs
    }
}

/// The order the tabs are drawn in, top to bottom.
pub open spec fn visual_order(
    keys: Seq<Option<GroupView>>,
    p: Seq<workspace::PinnedGroup>,
) -> Seq<usize> {
    flat(sections_of(keys, p, Seq::empty(), Seq::empty()))
}

/// The tabs of all sections, top to bottom.
pub fn flat_tabs(sections: &Vec<Section>) -> (r: Vec<usize>)
    ensures
        r@ == flat(section_views(sections@)),
{
    let ghost sv = section_views(sections@);
    let mut out: Vec<usize> = Vec::new();
    let mut i: usize = 0;
    assert(sv.take(0) =~= Seq::<SectionView>::empty());
    while i < sections.len()
        invariant
            i <= sections@.len(),
            sv == section_views(sections@),
            out@ == flat(sv.take(i as int)),
        decreases sections@.len() - i,
    {
        assert(sv.take(i + 1).drop_last() =~= sv.take(i as int));
        push_all(&mut out, &sections[i].tabs);
        i = i + 1;
    }
    assert(sv.take(sv.len() as int) =~= sv);
    out
}

pub fn push_all(out: &mut Vec<usize>, more: &Vec<usize>)
    ensures
        final(out)@ == old(out)@ + more@,
{
    let ghost before = out@;
    let mut i: usize = 0;
    assert(before + more@.take(0) =~= before);
    while i < more.len()
        invariant
            i <= more@.len(),
            out@ == before + more@.take(i as int),
        decreases more@.len() - i,
    {
        out.push(more[i]);
        i = i + 1;
        assert(out@ =~= before + more@.take(i as int));
    }
    assert(more@.take(more@.len() as int) =~= more@);
}

/// Whether a list names each of `n` items once.
pub open spec fn names_each_once(order: Seq<usize>, n: nat) -> bool {
    &&& order.no_duplicates()
    &&& forall|i: int| 0 <= i < order.len() ==> #[trigger] order[i] < n
    &&& forall|k: int| 0 <= k < n ==> #[trigger] order.contains(k as usize)
}

/// Every kept group that a tab is drawn in is there, under an identifier of
/// its own.
pub open spec fn keys_fit(keys: Seq<Option<GroupView>>, p: Seq<workspace::PinnedGroup>) -> bool {
    &&& keys.len() <= usize::MAX
    &&& forall|i: int, j: int|
        0 <= i < j < p.len() ==> (#[trigger] p[i]).id != (#[trigger] p[j]).id
    &&& forall|i: int|
        0 <= i < keys.len() ==> (#[trigger] keys[i] matches Some(GroupView::Pinned(id))
            ==> workspace::place_of_group(p, id) is Some)
}

pub proof fn lemma_rows(keys: Seq<Option<GroupView>>, key: Option<GroupView>)
    requires
        keys.len() <= usize::MAX,
    ensures
        rows_of(keys, key).no_duplicates(),
        forall|i: int|
            0 <= i < rows_of(keys, key).len() ==> (#[trigger] rows_of(keys, key)[i]) < keys.len(),
        forall|k: int|
            0 <= k < keys.len() ==> (#[trigger] rows_of(keys, key).contains(k as usize) <==> keys[k]
                == key),
    decreases keys.len(),
{
    let rows = rows_of(keys, key);
    if keys.len() > 0 {
        let head = rows_of(keys.drop_last(), key);
        lemma_rows(keys.drop_last(), key);
        let last = (keys.len() - 1) as usize;
        assert forall|k: int| 0 <= k < keys.len() implies (#[trigger] rows.contains(k as usize)
            <==> keys[k] == key) by {
            if k < keys.len() - 1 {
                assert(keys.drop_last()[k] == keys[k]);
                assert(head.contains(k as usize) <==> keys[k] == key);
                if head.contains(k as usize) {
                    let w = choose|w: int| 0 <= w < head.len() && head[w] == k as usize;
                    assert(rows[w] == k as usize);
                }
                if rows.contains(k as usize) {
                    let w = choose|w: int| 0 <= w < rows.len() && rows[w] == k as usize;
                    if w < head.len() {
                        assert(head[w] == k as usize);
                    } else {
                        assert(rows[w] == last);
                        assert(k as usize != last);
                    }
                }
            } else {
                if keys.last() == key {
                    assert(rows[head.len() as int] == last);
                } else {
                    assert forall|w: int| 0 <= w < rows.len() implies rows[w] != last by {
                        assert(head[w] < keys.len() - 1);
                    }
                }
            }
        }
        assert forall|a: int, b: int|
            0 <= a < rows.len() && 0 <= b < rows.len() && a != b implies rows[a] != rows[b] by {
            if a < head.len() {
                assert(rows[a] == head[a] && head[a] < keys.len() - 1);
            }
            if b < head.len() {
                assert(rows[b] == head[b] && head[b] < keys.len() - 1);
            }
        }
        assert forall|i: int| 0 <= i < rows.len() implies (#[trigger] rows[i]) < keys.len() by {
            if i < head.len() {
                assert(rows[i] == head[i]);
            }
        }
    }
}

/// Sections that each hold the rows of a key of its own.
pub open spec fn sections_by_key(s: Seq<SectionView>, keys: Seq<Option<GroupView>>) -> bool {
    &&& forall|i: int| 0 <= i < s.len() ==> (#[trigger] s[i]).tabs == rows_of(keys, s[i].key)
    &&& forall|i: int, j: int| 0 <= i < j < s.len() ==> (#[trigger] s[i]).key != (#[trigger] s[j]).key
}

proof fn lemma_flat(s: Seq<SectionView>, keys: Seq<Option<GroupView>>)
    requires
        keys.len() <= usize::MAX,
        sections_by_key(s, keys),
    ensures
        flat(s).no_duplicates(),
        forall|i: int| 0 <= i < flat(s).len() ==> (#[trigger] flat(s)[i]) < keys.len(),
        forall|k: int|
            0 <= k < keys.len() ==> (#[trigger] flat(s).contains(k as usize) <==> exists|i: int|
                0 <= i < s.len() && (#[trigger] s[i]).key == keys[k]),
    decreases s.len(),
{
    if s.len() > 0 {
        let head = s.drop_last();
        assert forall|i: int| 0 <= i < head.len() implies (#[trigger] head[i]).tabs == rows_of(
            keys,
            head[i].key,
        ) by {
            assert(head[i] == s[i]);
        }
        assert forall|i: int, j: int| 0 <= i < j < head.len() implies (#[trigger] head[i]).key != (
        #[trigger] head[j]).key by {
            assert(head[i] == s[i] && head[j] == s[j]);
        }
        lemma_flat(head, keys);
        let f = flat(head);
        let rows = s.last().tabs;
        let all = flat(s);
        lemma_rows(keys, s.last().key);
        assert(s[s.len() - 1].tabs == rows_of(keys, s.last().key));
        // Nothing of the last section is in an earlier one.
        assert forall|a: int, b: int| 0 <= a < f.len() && 0 <= b < rows.len() implies f[a]
            != rows[b] by {
            if f[a] == rows[b] {
                let k = f[a] as int;
                assert(f.contains(k as usize));
                let i = choose|i: int| 0 <= i < head.len() && (#[trigger] head[i]).key == keys[k];
                assert(rows.contains(k as usize));
                assert(keys[k] == s.last().key);
                assert(s[i] == head[i]);
                assert(s[i].key != s[s.len() - 1].key);
            }
        }
        assert forall|a: int, b: int|
            0 <= a < all.len() && 0 <= b < all.len() && a != b implies all[a] != all[b] by {
            if a < f.len() && b < f.len() {
                assert(all[a] == f[a] && all[b] == f[b]);
            } else if a >= f.len() && b >= f.len() {
                assert(all[a] == rows[a - f.len()] && all[b] == rows[b - f.len()]);
            } else if a < f.len() {
                assert(all[a] == f[a] && all[b] == rows[b - f.len()]);
            } else {
                assert(all[a] == rows[a - f.len()] && all[b] == f[b]);
            }
        }
        assert forall|i: int| 0 <= i < all.len() implies (#[trigger] all[i]) < keys.len() by {
            if i < f.len() {
                assert(all[i] == f[i]);
            } else {
                assert(all[i] == rows[i - f.len()]);
            }
        }
        assert forall|k: int| 0 <= k < keys.len() implies (#[trigger] all.contains(k as usize)
            <==> exists|i: int| 0 <= i < s.len() && (#[trigger] s[i]).key == keys[k]) by {
            assert(f.contains(k as usize) <==> exists|i: int|
                0 <= i < head.len() && (#[trigger] head[i]).key == keys[k]);
            assert(rows.contains(k as usize) <==> keys[k] == s.last().key);
            if all.contains(k as usize) {
                let w = choose|w: int| 0 <= w < all.len() && all[w] == k as usize;
                if w < f.len() {
                    assert(f[w] == k as usize);
                    let i = choose|i: int|
                        0 <= i < head.len() && (#[trigger] head[i]).key == keys[k];
                    assert(s[i].key == keys[k]);
                } else {
                    assert(rows[w - f.len()] == k as usize);
                    assert(s[s.len() - 1].key == keys[k]);
                }
            }
            if exists|i: int| 0 <= i < s.len() && (#[trigger] s[i]).key == keys[k] {
                let i = choose|i: int| 0 <= i < s.len() && (#[trigger] s[i]).key == keys[k];
                if i < s.len() - 1 {
                    assert(head[i].key == keys[k]);
                    let w = choose|w: int| 0 <= w < f.len() && f[w] == k as usize;
                    assert(all[w] == k as usize);
                } else {
                    let w = choose|w: int| 0 <= w < rows.len() && rows[w] == k as usize;
                    assert(all[f.len() + w] == k as usize);
                }
            }
        }
    }
}

proof fn lemma_auto_order(keys: Seq<Option<GroupView>>)
    ensures
        auto_order_of(keys).no_duplicates(),
        forall|i: int|
            0 <= i < keys.len() ==> (#[trigger] keys[i] matches Some(GroupView::Auto(k))
                ==> auto_order_of(keys).contains(k)),
    decreases keys.len(),
{
    if keys.len() > 0 {
        lemma_auto_order(keys.drop_last());
        let head = auto_order_of(keys.drop_last());
        let all = auto_order_of(keys);
        assert forall|i: int| 0 <= i < keys.len() implies (#[trigger] keys[i] matches Some(
            GroupView::Auto(k),
        ) ==> all.contains(k)) by {
            if let Some(GroupView::Auto(k)) = keys[i] {
                if i < keys.len() - 1 {
                    assert(keys.drop_last()[i] == keys[i]);
                    assert(head.contains(k));
                    let w = choose|w: int| 0 <= w < head.len() && head[w] == k;
                    assert(all[w] == k);
                } else if !head.contains(k) {
                    assert(all[head.len() as int] == k);
                }
            }
        }
        assert forall|a: int, b: int|
            0 <= a < all.len() && 0 <= b < all.len() && a != b implies all[a] != all[b] by {
            if a < head.len() && b < head.len() {
                assert(all[a] == head[a] && all[b] == head[b]);
            } else if a < head.len() {
                assert(all[a] == head[a]);
                assert(!head.contains(all[b]));
            } else {
                assert(all[b] == head[b]);
                assert(!head.contains(all[a]));
            }
        }
    }
}

proof fn lemma_sections_by_key(
    keys: Seq<Option<GroupView>>,
    p: Seq<workspace::PinnedGroup>,
    ungrouped: Seq<char>,
    heads: Seq<Seq<char>>,
)
    requires
        keys_fit(keys, p),
    ensures
        sections_by_key(sections_of(keys, p, ungrouped, heads), keys),
        forall|k: int|
            0 <= k < keys.len() ==> exists|i: int|
                0 <= i < sections_of(keys, p, ungrouped, heads).len() && (#[trigger] sections_of(
                    keys,
                    p,
                    ungrouped,
                    heads,
                )[i]).key == #[trigger] keys[k],
{
    let s = sections_of(keys, p, ungrouped, heads);
    let autos = auto_order_of(keys);
    lemma_auto_order(keys);
    if p.len() == 0 && autos.len() == 0 {
        assert forall|k: int| 0 <= k < keys.len() implies exists|i: int|
            0 <= i < s.len() && (#[trigger] s[i]).key == #[trigger] keys[k] by {
            match keys[k] {
                Some(GroupView::Pinned(id)) => {
                    workspace::lemma_place_of_group(p, id);
                },
                Some(GroupView::Auto(a)) => {
                    assert(autos.contains(a));
                },
                None => {
                    assert(s[0].key == keys[k]);
                },
            }
        }
    } else {
        let np = p.len() as int;
        let na = autos.len() as int;
        assert forall|i: int, j: int| 0 <= i < j < s.len() implies (#[trigger] s[i]).key != (
        #[trigger] s[j]).key by {
            if i < np {
                assert(s[i] == pinned_section(keys, p, i));
                if j < np {
                    assert(s[j] == pinned_section(keys, p, j));
                    assert(p[i].id != p[j].id);
                } else if j < np + na {
                    assert(s[j] == auto_section(keys, autos, heads, j - np));
                }
            } else if i < np + na {
                assert(s[i] == auto_section(keys, autos, heads, i - np));
                if j < np + na {
                    assert(s[j] == auto_section(keys, autos, heads, j - np));
                    assert(autos[i - np] != autos[j - np]);
                }
            }
        }
        assert forall|i: int| 0 <= i < s.len() implies (#[trigger] s[i]).tabs == rows_of(
            keys,
            s[i].key,
        ) by {
            if i < np {
                assert(s[i] == pinned_section(keys, p, i));
            } else if i < np + na {
                assert(s[i] == auto_section(keys, autos, heads, i - np));
            }
        }
        assert forall|k: int| 0 <= k < keys.len() implies exists|i: int|
            0 <= i < s.len() && (#[trigger] s[i]).key == #[trigger] keys[k] by {
            match keys[k] {
                Some(GroupView::Pinned(id)) => {
                    workspace::lemma_place_of_group(p, id);
                    let i = workspace::place_of_group(p, id)->0;
                    assert(s[i] == pinned_section(keys, p, i));
                    assert(s[i].key == keys[k]);
                },
                Some(GroupView::Auto(a)) => {
                    assert(autos.contains(a));
                    let w = choose|w: int| 0 <= w < autos.len() && autos[w] == a;
                    assert(s[np + w] == auto_section(keys, autos, heads, w));
                    assert(s[np + w].key == keys[k]);
                },
                None => {
                    lemma_rows(keys, None);
                    assert(rows_of(keys, None).contains(k as usize));
                    assert(rows_of(keys, None).len() > 0);
                    assert(s[np + na].key == keys[k]);
                },
            }
        }
    }
}

/// Every tab is drawn once: the sections hold all tabs and none of them twice.
pub proof fn every_tab_is_drawn_once(
    keys: Seq<Option<GroupView>>,
    p: Seq<workspace::PinnedGroup>,
    ungrouped: Seq<char>,
    heads: Seq<Seq<char>>,
)
    requires
        keys_fit(keys, p),
    ensures
        names_each_once(flat(sections_of(keys, p, ungrouped, heads)), keys.len()),
{
    let s = sections_of(keys, p, ungrouped, heads);
    lemma_sections_by_key(keys, p, ungrouped, heads);
    lemma_flat(s, keys);
    assert forall|k: int| 0 <= k < keys.len() implies #[trigger] flat(s).contains(k as usize) by {
        assert(exists|i: int| 0 <= i < s.len() && (#[trigger] s[i]).key == keys[k]);
    }
}

/// What headers read does not move a tab.
pub proof fn lemma_name_moves_nothing(
    keys: Seq<Option<GroupView>>,
    p: Seq<workspace::PinnedGroup>,
    a: Seq<char>,
    heads: Seq<Seq<char>>,
    b: Seq<char>,
    others: Seq<Seq<char>>,
)
    ensures
        flat(sections_of(keys, p, a, heads)) == flat(sections_of(keys, p, b, others)),
{
    lemma_names_aside(keys, p, a, heads, b, others);
    lemma_flat_by_tabs(sections_of(keys, p, a, heads), sections_of(keys, p, b, others));
}

proof fn lemma_names_aside(
    keys: Seq<Option<GroupView>>,
    p: Seq<workspace::PinnedGroup>,
    a: Seq<char>,
    heads: Seq<Seq<char>>,
    b: Seq<char>,
    others: Seq<Seq<char>>,
)
    ensures
        alike(sections_of(keys, p, a, heads), sections_of(keys, p, b, others)),
{
}

/// The same groups with the same tabs, whatever their headers read.
spec fn alike(s: Seq<SectionView>, t: Seq<SectionView>) -> bool {
    s.len() == t.len() && forall|i: int|
        0 <= i < s.len() ==> (#[trigger] s[i]).tabs == t[i].tabs && s[i].key == t[i].key
}

proof fn lemma_flat_by_tabs(a: Seq<SectionView>, b: Seq<SectionView>)
    requires
        a.len() == b.len(),
        forall|i: int| 0 <= i < a.len() ==> (#[trigger] a[i]).tabs == b[i].tabs,
    ensures
        flat(a) == flat(b),
    decreases a.len(),
{
    if a.len() > 0 {
        assert forall|i: int| 0 <= i < a.len() - 1 implies (#[trigger] a.drop_last()[i]).tabs
            == b.drop_last()[i].tabs by {
            assert(a[i].tabs == b[i].tabs);
        }
        lemma_flat_by_tabs(a.drop_last(), b.drop_last());
        assert(a[a.len() - 1].tabs == b[a.len() - 1].tabs);
    }
}

/// For each tab, its place in the order.
pub fn badge_positions(order: &Vec<usize>, n: usize) -> (r: Vec<usize>)
    requires
        names_each_once(order@, n as nat),
    ensures
        r@.len() == n,
        forall|row: int| 0 <= row < order@.len() ==> r@[(#[trigger] order@[row]) as int] == row,
{
    let mut out: Vec<usize> = Vec::new();
    let mut i: usize = 0;
    while i < n
        invariant
            i <= n,
            out@.len() == i,
        decreases n - i,
    {
        out.push(0);
        i = i + 1;
    }
    let mut row: usize = 0;
    while row < order.len()
        invariant
            row <= order@.len(),
            out@.len() == n,
            names_each_once(order@, n as nat),
            forall|k: int| 0 <= k < row ==> out@[(#[trigger] order@[k]) as int] == k,
        decreases order@.len() - row,
    {
        let tab: usize = order[row];
        out.set(tab, row);
        row = row + 1;
    }
    out
}

/// The badge on a row names the chord that opens that row: the place a tab is
/// badged with is where the order has that tab.
pub proof fn a_badge_names_the_chord_that_opens_its_row(
    order: Seq<usize>,
    badges: Seq<usize>,
    tab: int,
)
    requires
        names_each_once(order, badges.len()),
        forall|row: int| 0 <= row < order.len() ==> badges[(#[trigger] order[row]) as int] == row,
        0 <= tab < badges.len() <= usize::MAX,
    ensures
        badges[tab] < order.len(),
        order[badges[tab] as int] == tab,
{
    assert(order.contains(tab as usize));
    let row = choose|row: int| 0 <= row < order.len() && order[row] == tab as usize;
    assert(order[row] == tab);
}

// ---- Moving rows and groups ----

/// The place of the first `x` in `s`.
pub open spec fn first_place<A>(s: Seq<A>, x: A) -> Option<int>
    decreases s.len(),
{
    if s.len() == 0 {
        None
    } else {
        match first_place(s.drop_last(), x) {
            Some(i) => Some(i),
            None => if s.last() == x {
                Some(s.len() - 1)
            } else {
                None
            },
        }
    }
}

/// `s` without `x`.
pub open spec fn without<A>(s: Seq<A>, x: A) -> Seq<A>
    decreases s.len(),
{
    if s.len() == 0 {
        Seq::empty()
    } else if s.last() == x {
        without(s.drop_last(), x)
    } else {
        without(s.drop_last(), x).push(s.last())
    }
}

/// `s` with `moved` taken out and put before `anchor`, or behind it.
pub open spec fn spliced<A>(s: Seq<A>, moved: A, anchor: A, behind: bool) -> Option<Seq<A>> {
    let rest = without(s, moved);
    match first_place(rest, anchor) {
        Some(i) => Some(
            rest.insert(
                if behind {
                    i + 1
                } else {
                    i
                },
                moved,
            ),
        ),
        None => None,
    }
}

pub proof fn lemma_first_place<A>(s: Seq<A>, x: A)
    ensures
        match first_place(s, x) {
            Some(i) => 0 <= i < s.len() && s[i] == x && forall|k: int|
                0 <= k < i ==> #[trigger] s[k] != x,
            None => forall|k: int| 0 <= k < s.len() ==> #[trigger] s[k] != x,
        },
    decreases s.len(),
{
    if s.len() > 0 {
        lemma_first_place(s.drop_last(), x);
        assert(forall|k: int| 0 <= k < s.len() - 1 ==> s.drop_last()[k] == #[trigger] s[k]);
    }
}

proof fn lemma_without<A>(s: Seq<A>, x: A)
    ensures
        without(s, x).len() <= s.len(),
        forall|y: A| #[trigger] without(s, x).contains(y) <==> s.contains(y) && y != x,
        s.no_duplicates() ==> without(s, x).no_duplicates(),
    decreases s.len(),
{
    let w = without(s, x);
    if s.len() > 0 {
        let h = s.drop_last();
        lemma_without(h, x);
        let wh = without(h, x);
        assert forall|y: A| #[trigger] w.contains(y) <==> s.contains(y) && y != x by {
            assert(wh.contains(y) <==> h.contains(y) && y != x);
            if w.contains(y) {
                let k = choose|k: int| 0 <= k < w.len() && w[k] == y;
                if k < wh.len() {
                    assert(wh[k] == y);
                    let m = choose|m: int| 0 <= m < h.len() && h[m] == y;
                    assert(s[m] == y);
                } else {
                    assert(s[s.len() - 1] == y);
                }
            }
            if s.contains(y) && y != x {
                let k = choose|k: int| 0 <= k < s.len() && s[k] == y;
                if k < h.len() {
                    assert(h[k] == y);
                    let m = choose|m: int| 0 <= m < wh.len() && wh[m] == y;
                    assert(w[m] == y);
                } else {
                    assert(w[wh.len() as int] == y);
                }
            }
        }
        if s.no_duplicates() {
            assert forall|a: int, b: int|
                0 <= a < h.len() && 0 <= b < h.len() && a != b implies h[a] != h[b] by {
                assert(s[a] != s[b]);
            }
            assert forall|a: int, b: int|
                0 <= a < w.len() && 0 <= b < w.len() && a != b implies w[a] != w[b] by {
                if a < wh.len() && b < wh.len() {
                    assert(wh[a] != wh[b]);
                } else {
                    let e = if a < wh.len() {
                        a
                    } else {
                        b
                    };
                    if w[a] == w[b] {
                        assert(wh.contains(wh[e]));
                        assert(h.contains(s.last()));
                        let m = choose|m: int| 0 <= m < h.len() && h[m] == s.last();
                        assert(s[m] == s[s.len() - 1]);
                    }
                }
            }
        }
    }
}

/// Moving an item within a list keeps every item, once each.
pub proof fn lemma_spliced_keeps_all<A>(s: Seq<A>, moved: A, anchor: A, behind: bool)
    requires
        s.no_duplicates(),
        s.contains(moved),
        spliced(s, moved, anchor, behind) is Some,
    ensures
        spliced(s, moved, anchor, behind)->0.no_duplicates(),
        forall|y: A| #[trigger] spliced(s, moved, anchor, behind)->0.contains(y) <==> s.contains(y),
{
    let rest = without(s, moved);
    let out = spliced(s, moved, anchor, behind)->0;
    lemma_without(s, moved);
    lemma_first_place(rest, anchor);
    let i = first_place(rest, anchor)->0;
    let at = if behind {
        i + 1
    } else {
        i
    };
    assert(!rest.contains(moved));
    assert forall|y: A| #[trigger] out.contains(y) <==> s.contains(y) by {
        if out.contains(y) {
            let k = choose|k: int| 0 <= k < out.len() && out[k] == y;
            if k < at {
                assert(rest[k] == y);
                assert(rest.contains(y));
            } else if k > at {
                assert(rest[k - 1] == y);
                assert(rest.contains(y));
            }
        }
        if s.contains(y) {
            if y == moved {
                assert(out[at] == y);
            } else {
                assert(rest.contains(y));
                let k = choose|k: int| 0 <= k < rest.len() && rest[k] == y;
                if k < at {
                    assert(out[k] == y);
                } else {
                    assert(out[k + 1] == y);
                }
            }
        }
    }
    assert forall|a: int, b: int|
        0 <= a < out.len() && 0 <= b < out.len() && a != b implies out[a] != out[b] by {
        let ra = if a < at {
            a
        } else {
            a - 1
        };
        let rb = if b < at {
            b
        } else {
            b - 1
        };
        if a == at {
            assert(out[b] == rest[rb]);
            assert(rest.contains(rest[rb]));
        } else if b == at {
            assert(out[a] == rest[ra]);
            assert(rest.contains(rest[ra]));
        } else {
            assert(out[a] == rest[ra] && out[b] == rest[rb]);
        }
    }
}

fn splice_rows(s: &Vec<usize>, moved: usize, anchor: usize, behind: bool) -> (r: Option<Vec<usize>>)
    ensures
        match spliced(s@, moved, anchor, behind) {
            Some(out) => r is Some && r->0@ == out,
            None => r is None,
        },
{
    let mut rest: Vec<usize> = Vec::new();
    let mut found: Option<usize> = None;
    let mut i: usize = 0;
    assert(s@.take(0) =~= Seq::<usize>::empty());
    while i < s.len()
        invariant
            i <= s@.len(),
            rest@.len() <= i,
            rest@ == without(s@.take(i as int), moved),
            match first_place(rest@, anchor) {
                Some(k) => found is Some && found->0 == k && 0 <= k < rest@.len(),
                None => found is None,
            },
        decreases s@.len() - i,
    {
        assert(s@.take(i + 1).drop_last() =~= s@.take(i as int));
        let x: usize = s[i];
        if x != moved {
            let ghost before = rest@;
            rest.push(x);
            assert(rest@.drop_last() =~= before);
            if found.is_none() && x == anchor {
                found = Some(rest.len() - 1);
            }
        }
        i = i + 1;
    }
    assert(s@.take(s@.len() as int) =~= s@);
    match found {
        Some(k) => {
            let at: usize = if behind {
                k + 1
            } else {
                k
            };
            rest.insert(at, moved);
            Some(rest)
        },
        None => None,
    }
}

fn splice_ids(s: &Vec<u128>, moved: u128, anchor: u128, behind: bool) -> (r: Option<Vec<u128>>)
    ensures
        match spliced(s@, moved, anchor, behind) {
            Some(out) => r is Some && r->0@ == out,
            None => r is None,
        },
{
    let mut rest: Vec<u128> = Vec::new();
    let mut found: Option<usize> = None;
    let mut i: usize = 0;
    assert(s@.take(0) =~= Seq::<u128>::empty());
    while i < s.len()
        invariant
            i <= s@.len(),
            rest@.len() <= i,
            rest@ == without(s@.take(i as int), moved),
            match first_place(rest@, anchor) {
                Some(k) => found is Some && found->0 == k && 0 <= k < rest@.len(),
                None => found is None,
            },
        decreases s@.len() - i,
    {
        assert(s@.take(i + 1).drop_last() =~= s@.take(i as int));
        let x: u128 = s[i];
        if x != moved {
            let ghost before = rest@;
            rest.push(x);
            assert(rest@.drop_last() =~= before);
            if found.is_none() && x == anchor {
                found = Some(rest.len() - 1);
            }
        }
        i = i + 1;
    }
    assert(s@.take(s@.len() as int) =~= s@);
    match found {
        Some(k) => {
            let at: usize = if behind {
                k + 1
            } else {
                k
            };
            rest.insert(at, moved);
            Some(rest)
        },
        None => None,
    }
}

fn place_in_ids(s: &Vec<u128>, x: u128) -> (r: Option<usize>)
    ensures
        match first_place(s@, x) {
            Some(i) => r is Some && r->0 == i && 0 <= i < s@.len(),
            None => r is None,
        },
{
    let mut i: usize = 0;
    while i < s.len()
        invariant
            i <= s@.len(),
            forall|k: int| 0 <= k < i ==> #[trigger] s@[k] != x,
        decreases s@.len() - i,
    {
        if s[i] == x {
            proof {
                lemma_first_place(s@, x);
            }
            return Some(i);
        }
        i = i + 1;
    }
    proof {
        lemma_first_place(s@, x);
    }
    None
}

/// The sections with the rows of one of them replaced.
pub open spec fn with_rows(
    s: Seq<SectionView>,
    key: Option<GroupView>,
    rows: Seq<usize>,
) -> Seq<SectionView> {
    Seq::new(
        s.len(),
        |i: int|
            if s[i].key == key {
                SectionView { tabs: rows, ..s[i] }
            } else {
                s[i]
            },
    )
}

/// The tab order after the row in visible slot `from` of a group is dropped on
/// slot `to`: the row goes where that one was, past it when it moves down.
pub open spec fn rows_after(
    keys: Seq<Option<GroupView>>,
    p: Seq<workspace::PinnedGroup>,
    group: Option<GroupView>,
    visible: Seq<usize>,
    from: int,
    to: int,
) -> Option<Seq<usize>> {
    if from >= visible.len() || to >= visible.len() || visible[from] == visible[to] {
        None
    } else {
        match spliced(rows_of(keys, group), visible[from], visible[to], to > from) {
            Some(rows) => Some(flat(with_rows(sections_of(keys, p, Seq::empty(), Seq::empty()), group, rows))),
            None => None,
        }
    }
}

/// The tab order after a row moved within its group.
pub fn reordered_rows(
    keys: &[Option<GroupKey>],
    groups: &WorkspaceGroups,
    group: &Option<GroupKey>,
    visible: &[usize],
    from: usize,
    to: usize,
) -> (r: Option<Vec<usize>>)
    ensures
        match rows_after(
            groups::key_views(keys@),
            groups.pinned@,
            groups::option_view(*group),
            visible@,
            from as int,
            to as int,
        ) {
            Some(out) => r is Some && r->0@ == out,
            None => r is None,
        },
{
    if from >= visible.len() || to >= visible.len() {
        return None;
    }
    let moved: usize = visible[from];
    let anchor: usize = visible[to];
    if moved == anchor {
        return None;
    }
    let own = members(keys, group);
    let rows = match splice_rows(&own, moved, anchor, to > from) {
        Some(rows) => rows,
        None => {
            return None;
        },
    };
    let sections = sidebar_sections(keys, groups, "");
    let ghost kv = groups::key_views(keys@);
    let ghost gv = groups::option_view(*group);
    let ghost plain = sections_of(kv, groups.pinned@, Seq::empty(), Seq::empty());
    let ghost named = section_views(sections@);
    let ghost target = with_rows(plain, gv, rows@);
    let mut out: Vec<usize> = Vec::new();
    let mut i: usize = 0;
    proof {
        reveal_strlit("");
        assert(""@ =~= Seq::<char>::empty());
        assert(target.take(0) =~= Seq::<SectionView>::empty());
        lemma_names_aside(
            kv,
            groups.pinned@,
            Seq::empty(),
            heads_of(keys@),
            Seq::empty(),
            Seq::empty(),
        );
    }
    while i < sections.len()
        invariant
            i <= sections@.len(),
            named == section_views(sections@),
            alike(named, plain),
            gv == groups::option_view(*group),
            target == with_rows(plain, gv, rows@),
            out@ == flat(target.take(i as int)),
        decreases sections@.len() - i,
    {
        assert(target.take(i + 1).drop_last() =~= target.take(i as int));
        assert(named[i as int] == sections@[i as int]@);
        if groups::same_option(&sections[i].key, group) {
            push_all(&mut out, &rows);
        } else {
            push_all(&mut out, &sections[i].tabs);
        }
        i = i + 1;
    }
    assert(target.take(target.len() as int) =~= target);
    Some(out)
}

/// Moving a row keeps every tab, once each, and leaves the rows of every other
/// group as they are.
pub proof fn moving_a_row_keeps_every_tab(
    keys: Seq<Option<GroupView>>,
    p: Seq<workspace::PinnedGroup>,
    group: Option<GroupView>,
    visible: Seq<usize>,
    from: int,
    to: int,
)
    requires
        keys_fit(keys, p),
        0 <= from,
        0 <= to,
        rows_after(keys, p, group, visible, from, to) is Some,
        visible[from] < keys.len(),
        keys[visible[from] as int] == group,
    ensures
        names_each_once(rows_after(keys, p, group, visible, from, to)->0, keys.len()),
        forall|g: Option<GroupView>|
            g != group ==> #[trigger] rows_in(
                rows_after(keys, p, group, visible, from, to)->0,
                keys,
                g,
            ) == rows_of(keys, g),
{
    let s = sections_of(keys, p, Seq::empty(), Seq::empty());
    let own = rows_of(keys, group);
    let moved = visible[from];
    let anchor = visible[to];
    let rows = spliced(own, moved, anchor, to > from)->0;
    let t = with_rows(s, group, rows);
    lemma_sections_by_key(keys, p, Seq::empty(), Seq::empty());
    lemma_rows(keys, group);
    assert(own.contains(moved as int as usize));
    lemma_spliced_keeps_all(own, moved, anchor, to > from);
    lemma_flat(s, keys);
    every_tab_is_drawn_once(keys, p, Seq::empty(), Seq::empty());
    assert forall|i: int| 0 <= i < s.len() implies (#[trigger] t[i]).tabs.no_duplicates()
        && forall|y: usize| #[trigger] t[i].tabs.contains(y) <==> s[i].tabs.contains(y) by {
        assert(s[i].tabs == rows_of(keys, s[i].key));
        lemma_rows(keys, s[i].key);
    }
    lemma_flat_same_sets(s, t, keys);
    let out = flat(t);
    assert forall|g: Option<GroupView>| g != group implies #[trigger] rows_in(out, keys, g)
        == rows_of(keys, g) by {
        lemma_rows_in_flat(t, keys, g);
        lemma_rows_in_flat(s, keys, g);
        lemma_rows_in_sections(s, t, keys, g);
        lemma_sections_hold_rows(s, keys, g);
        lemma_rows(keys, g);
        if rows_of(keys, g).len() == 0 {
            assert(rows_in_sections(s, keys, g) =~= rows_of(keys, g)) by {
                lemma_no_rows(s, keys, g);
            }
        } else {
            let k = rows_of(keys, g)[0] as int;
            assert(rows_of(keys, g).contains(k as usize));
            assert(keys[k] == g);
            assert(exists|i: int| 0 <= i < s.len() && (#[trigger] s[i]).key == keys[k]);
        }
    }
    assert forall|k: int| 0 <= k < keys.len() implies #[trigger] out.contains(k as usize) by {
        assert(flat(s).contains(k as usize));
    }
    assert forall|i: int| 0 <= i < out.len() implies (#[trigger] out[i]) < keys.len() by {
        assert(out.contains(out[i]));
        assert(flat(s).contains(out[i]));
        let w = choose|w: int| 0 <= w < flat(s).len() && flat(s)[w] == out[i];
        assert(flat(s)[w] < keys.len());
    }
}

proof fn lemma_flat_same_sets(
    s: Seq<SectionView>,
    t: Seq<SectionView>,
    keys: Seq<Option<GroupView>>,
)
    requires
        keys.len() <= usize::MAX,
        sections_by_key(s, keys),
        s.len() == t.len(),
        forall|i: int|
            0 <= i < s.len() ==> (#[trigger] t[i]).tabs.no_duplicates() && forall|y: usize|
                #[trigger] t[i].tabs.contains(y) <==> s[i].tabs.contains(y),
    ensures
        flat(t).no_duplicates(),
        forall|y: usize| #[trigger] flat(t).contains(y) <==> flat(s).contains(y),
    decreases s.len(),
{
    if s.len() > 0 {
        let hs = s.drop_last();
        let ht = t.drop_last();
        assert forall|i: int| 0 <= i < hs.len() implies (#[trigger] hs[i]).tabs == rows_of(
            keys,
            hs[i].key,
        ) by {
            assert(hs[i] == s[i]);
        }
        assert forall|i: int, j: int| 0 <= i < j < hs.len() implies (#[trigger] hs[i]).key != (
        #[trigger] hs[j]).key by {
            assert(hs[i] == s[i] && hs[j] == s[j]);
        }
        assert forall|i: int| 0 <= i < hs.len() implies (
        #[trigger] ht[i]).tabs.no_duplicates() && forall|y: usize| #[trigger]
            ht[i].tabs.contains(y) <==> hs[i].tabs.contains(y) by {
            assert(ht[i] == t[i] && hs[i] == s[i]);
        }
        lemma_flat_same_sets(hs, ht, keys);
        lemma_flat(s, keys);
        let ls = s.last().tabs;
        let lt = t.last().tabs;
        assert(t[t.len() - 1].tabs == lt && s[s.len() - 1].tabs == ls);
        let fs = flat(hs);
        let ft = flat(ht);
        let all = flat(t);
        assert forall|y: usize| #[trigger] all.contains(y) <==> flat(s).contains(y) by {
            lemma_contains_concat(ft, lt, y);
            lemma_contains_concat(fs, ls, y);
            assert(ft.contains(y) <==> fs.contains(y));
            assert(lt.contains(y) <==> ls.contains(y));
        }
        assert forall|a: int, b: int| 0 <= a < ft.len() && 0 <= b < lt.len() implies ft[a]
            != lt[b] by {
            if ft[a] == lt[b] {
                let y = ft[a];
                assert(ft.contains(y));
                assert(lt.contains(y));
                assert(fs.contains(y));
                assert(ls.contains(y));
                let i = choose|i: int| 0 <= i < fs.len() && fs[i] == y;
                let j = choose|j: int| 0 <= j < ls.len() && ls[j] == y;
                assert(flat(s)[i] == y);
                assert(flat(s)[fs.len() + j] == y);
            }
        }
        assert forall|a: int, b: int|
            0 <= a < all.len() && 0 <= b < all.len() && a != b implies all[a] != all[b] by {
            if a < ft.len() && b < ft.len() {
                assert(all[a] == ft[a] && all[b] == ft[b]);
            } else if a >= ft.len() && b >= ft.len() {
                assert(all[a] == lt[a - ft.len()] && all[b] == lt[b - ft.len()]);
            } else if a < ft.len() {
                assert(all[a] == ft[a] && all[b] == lt[b - ft.len()]);
            } else {
                assert(all[a] == lt[a - ft.len()] && all[b] == ft[b]);
            }
        }
    }
}

proof fn lemma_contains_concat(a: Seq<usize>, b: Seq<usize>, y: usize)
    ensures
        (a + b).contains(y) <==> a.contains(y) || b.contains(y),
{
    let c = a + b;
    if c.contains(y) {
        let k = choose|k: int| 0 <= k < c.len() && c[k] == y;
        if k < a.len() {
            assert(a[k] == y);
        } else {
            assert(b[k - a.len()] == y);
        }
    }
    if a.contains(y) {
        let k = choose|k: int| 0 <= k < a.len() && a[k] == y;
        assert(c[k] == y);
    }
    if b.contains(y) {
        let k = choose|k: int| 0 <= k < b.len() && b[k] == y;
        assert(c[a.len() + k] == y);
    }
}

/// The tabs of `order` that are drawn under `g`, in that order.
pub open spec fn rows_in(
    order: Seq<usize>,
    keys: Seq<Option<GroupView>>,
    g: Option<GroupView>,
) -> Seq<usize>
    decreases order.len(),
{
    if order.len() == 0 {
        Seq::empty()
    } else if keys[order.last() as int] == g {
        rows_in(order.drop_last(), keys, g).push(order.last())
    } else {
        rows_in(order.drop_last(), keys, g)
    }
}

spec fn rows_in_sections(
    s: Seq<SectionView>,
    keys: Seq<Option<GroupView>>,
    g: Option<GroupView>,
) -> Seq<usize>
    decreases s.len(),
{
    if s.len() == 0 {
        Seq::empty()
    } else {
        rows_in_sections(s.drop_last(), keys, g) + rows_in(s.last().tabs, keys, g)
    }
}

proof fn lemma_rows_in_concat(
    a: Seq<usize>,
    b: Seq<usize>,
    keys: Seq<Option<GroupView>>,
    g: Option<GroupView>,
)
    ensures
        rows_in(a + b, keys, g) == rows_in(a, keys, g) + rows_in(b, keys, g),
    decreases b.len(),
{
    let c = a + b;
    if b.len() == 0 {
        assert(c =~= a);
        assert(rows_in(a, keys, g) + rows_in(b, keys, g) =~= rows_in(a, keys, g));
    } else {
        assert(c.drop_last() =~= a + b.drop_last());
        assert(c.last() == b.last());
        lemma_rows_in_concat(a, b.drop_last(), keys, g);
        assert(rows_in(c, keys, g) =~= rows_in(a, keys, g) + rows_in(b, keys, g));
    }
}

proof fn lemma_rows_in_flat(s: Seq<SectionView>, keys: Seq<Option<GroupView>>, g: Option<GroupView>)
    ensures
        rows_in(flat(s), keys, g) == rows_in_sections(s, keys, g),
    decreases s.len(),
{
    if s.len() > 0 {
        lemma_rows_in_flat(s.drop_last(), keys, g);
        lemma_rows_in_concat(flat(s.drop_last()), s.last().tabs, keys, g);
    }
}

/// Rows that are all, or not at all, drawn under `g`.
proof fn lemma_rows_in_uniform(
    a: Seq<usize>,
    keys: Seq<Option<GroupView>>,
    g: Option<GroupView>,
    all: bool,
)
    requires
        forall|i: int| 0 <= i < a.len() ==> (keys[(#[trigger] a[i]) as int] == g) == all,
    ensures
        rows_in(a, keys, g) == if all {
            a
        } else {
            Seq::empty()
        },
    decreases a.len(),
{
    if a.len() > 0 {
        assert forall|i: int| 0 <= i < a.len() - 1 implies (keys[(
        #[trigger] a.drop_last()[i]) as int] == g) == all by {
            assert(a.drop_last()[i] == a[i]);
        }
        lemma_rows_in_uniform(a.drop_last(), keys, g, all);
        assert((keys[a[a.len() - 1] as int] == g) == all);
        if all {
            assert(a.drop_last().push(a.last()) =~= a);
        }
    } else {
        assert(a =~= Seq::<usize>::empty());
    }
}

proof fn lemma_rows_in_sections(
    s: Seq<SectionView>,
    t: Seq<SectionView>,
    keys: Seq<Option<GroupView>>,
    g: Option<GroupView>,
)
    requires
        keys.len() <= usize::MAX,
        s.len() == t.len(),
        forall|i: int| 0 <= i < s.len() ==> (#[trigger] s[i]).tabs == rows_of(keys, s[i].key),
        forall|i: int|
            0 <= i < s.len() ==> (#[trigger] t[i]).key == s[i].key && forall|y: usize| #[trigger]
                t[i].tabs.contains(y) <==> s[i].tabs.contains(y),
        forall|i: int| 0 <= i < s.len() && (#[trigger] s[i]).key == g ==> t[i].tabs == s[i].tabs,
    ensures
        rows_in_sections(t, keys, g) == rows_in_sections(s, keys, g),
    decreases s.len(),
{
    if s.len() > 0 {
        let n = s.len() - 1;
        let hs = s.drop_last();
        let ht = t.drop_last();
        assert forall|i: int| 0 <= i < hs.len() implies (#[trigger] hs[i]).tabs == rows_of(
            keys,
            hs[i].key,
        ) by {
            assert(hs[i] == s[i]);
        }
        assert forall|i: int| 0 <= i < hs.len() implies (#[trigger] ht[i]).key == hs[i].key
            && forall|y: usize| #[trigger] ht[i].tabs.contains(y) <==> hs[i].tabs.contains(y) by {
            assert(ht[i] == t[i] && hs[i] == s[i]);
        }
        assert forall|i: int| 0 <= i < hs.len() && (#[trigger] hs[i]).key == g implies ht[i].tabs
            == hs[i].tabs by {
            assert(ht[i] == t[i] && hs[i] == s[i]);
        }
        lemma_rows_in_sections(hs, ht, keys, g);
        assert(t[n].key == s[n].key);
        if s[n].key != g {
            lemma_rows(keys, s[n].key);
            assert(s[n].tabs == rows_of(keys, s[n].key));
            assert forall|i: int| 0 <= i < s[n].tabs.len() implies (keys[(
            #[trigger] s[n].tabs[i]) as int] == g) == false by {
                assert(s[n].tabs.contains(s[n].tabs[i] as int as usize));
            }
            assert forall|i: int| 0 <= i < t[n].tabs.len() implies (keys[(
            #[trigger] t[n].tabs[i]) as int] == g) == false by {
                let y = t[n].tabs[i];
                assert(t[n].tabs.contains(y));
                assert(s[n].tabs.contains(y));
                let w = choose|w: int| 0 <= w < s[n].tabs.len() && s[n].tabs[w] == y;
                assert(s[n].tabs[w] < keys.len());
                assert(s[n].tabs.contains(y as int as usize));
            }
            lemma_rows_in_uniform(s[n].tabs, keys, g, false);
            lemma_rows_in_uniform(t[n].tabs, keys, g, false);
        }
    }
}

proof fn lemma_no_rows(s: Seq<SectionView>, keys: Seq<Option<GroupView>>, g: Option<GroupView>)
    requires
        keys.len() <= usize::MAX,
        forall|i: int| 0 <= i < s.len() ==> (#[trigger] s[i]).tabs == rows_of(keys, s[i].key),
        rows_of(keys, g).len() == 0,
    ensures
        rows_in_sections(s, keys, g).len() == 0,
    decreases s.len(),
{
    if s.len() > 0 {
        let n = s.len() - 1;
        let hs = s.drop_last();
        assert forall|i: int| 0 <= i < hs.len() implies (#[trigger] hs[i]).tabs == rows_of(
            keys,
            hs[i].key,
        ) by {
            assert(hs[i] == s[i]);
        }
        lemma_no_rows(hs, keys, g);
        lemma_rows(keys, g);
        lemma_rows(keys, s[n].key);
        assert(s[n].tabs == rows_of(keys, s[n].key));
        assert forall|i: int| 0 <= i < s[n].tabs.len() implies (keys[(
        #[trigger] s[n].tabs[i]) as int] == g) == false by {
            let k = s[n].tabs[i] as int;
            if keys[k] == g {
                assert(rows_of(keys, g).contains(k as usize));
            }
        }
        lemma_rows_in_uniform(s[n].tabs, keys, g, false);
    }
}

/// Where one of the sections is drawn under `g`, its rows are the tabs drawn
/// under `g`.
proof fn lemma_sections_hold_rows(
    s: Seq<SectionView>,
    keys: Seq<Option<GroupView>>,
    g: Option<GroupView>,
)
    requires
        keys.len() <= usize::MAX,
        sections_by_key(s, keys),
    ensures
        rows_in_sections(s, keys, g) == if exists|i: int|
            0 <= i < s.len() && (#[trigger] s[i]).key == g {
            rows_of(keys, g)
        } else {
            Seq::empty()
        },
    decreases s.len(),
{
    if s.len() > 0 {
        let n = s.len() - 1;
        let hs = s.drop_last();
        assert forall|i: int| 0 <= i < hs.len() implies (#[trigger] hs[i]).tabs == rows_of(
            keys,
            hs[i].key,
        ) by {
            assert(hs[i] == s[i]);
        }
        assert forall|i: int, j: int| 0 <= i < j < hs.len() implies (#[trigger] hs[i]).key != (
        #[trigger] hs[j]).key by {
            assert(hs[i] == s[i] && hs[j] == s[j]);
        }
        lemma_sections_hold_rows(hs, keys, g);
        lemma_rows(keys, s[n].key);
        assert(s[n].tabs == rows_of(keys, s[n].key));
        assert forall|i: int| 0 <= i < s[n].tabs.len() implies (keys[(
        #[trigger] s[n].tabs[i]) as int] == g) == (s[n].key == g) by {
            assert(s[n].tabs.contains(s[n].tabs[i] as int as usize));
        }
        lemma_rows_in_uniform(s[n].tabs, keys, g, s[n].key == g);
        if s[n].key == g {
            if exists|i: int| 0 <= i < hs.len() && (#[trigger] hs[i]).key == g {
                let i = choose|i: int| 0 <= i < hs.len() && (#[trigger] hs[i]).key == g;
                assert(s[i] == hs[i]);
                assert(s[i].key != s[n].key);
            }
            assert(rows_in_sections(s, keys, g) =~= rows_of(keys, g));
        } else {
            if exists|i: int| 0 <= i < s.len() && (#[trigger] s[i]).key == g {
                let i = choose|i: int| 0 <= i < s.len() && (#[trigger] s[i]).key == g;
                assert(hs[i] == s[i]);
            }
            if exists|i: int| 0 <= i < hs.len() && (#[trigger] hs[i]).key == g {
                let i = choose|i: int| 0 <= i < hs.len() && (#[trigger] hs[i]).key == g;
                assert(s[i] == hs[i]);
            }
            assert(rows_in_sections(s, keys, g) =~= rows_in_sections(hs, keys, g));
        }
    }
}

/// `s` with the item at `from` taken out and put at `to`.
pub open spec fn moved_to<A>(s: Seq<A>, from: int, to: int) -> Seq<A> {
    s.remove(from).insert(to, s[from])
}

/// The tabs that are drawn in no worked-out group, in tab order.
pub open spec fn rows_beside_autos(keys: Seq<Option<GroupView>>) -> Seq<usize>
    decreases keys.len(),
{
    if keys.len() == 0 {
        Seq::empty()
    } else if keys.last() matches Some(GroupView::Auto(_)) {
        rows_beside_autos(keys.drop_last())
    } else {
        rows_beside_autos(keys.drop_last()).push((keys.len() - 1) as usize)
    }
}

/// A section for each worked-out group, in the order given.
pub open spec fn auto_blocks(keys: Seq<Option<GroupView>>, order: Seq<AutoView>) -> Seq<
    SectionView,
> {
    Seq::new(
        order.len(),
        |i: int|
            SectionView {
                key: Some(GroupView::Auto(order[i])),
                name: None,
                tabs: rows_of(keys, Some(GroupView::Auto(order[i]))),
            },
    )
}

/// The tab order that moves one worked-out group to where another is. Such
/// groups are ordered by where their first tab is, so moving one is moving its
/// tabs; all other tabs follow behind, where they draw no differently.
pub open spec fn regrouped(
    keys: Seq<Option<GroupView>>,
    from: AutoView,
    to: AutoView,
) -> Option<Seq<usize>> {
    let order = auto_order_of(keys);
    match (first_place(order, from), first_place(order, to)) {
        (Some(fi), Some(ti)) => if from == to {
            None
        } else {
            Some(flat(auto_blocks(keys, moved_to(order, fi, ti))) + rows_beside_autos(keys))
        },
        _ => None,
    }
}

fn place_in_autos(s: &Vec<AutoKey>, x: &AutoKey) -> (r: Option<usize>)
    ensures
        match first_place(workspace::auto_views(s@), x@) {
            Some(i) => r is Some && r->0 == i && 0 <= i < s@.len(),
            None => r is None,
        },
{
    let ghost sv = workspace::auto_views(s@);
    let mut i: usize = 0;
    while i < s.len()
        invariant
            i <= s@.len(),
            sv == workspace::auto_views(s@),
            forall|k: int| 0 <= k < i ==> #[trigger] sv[k] != x@,
        decreases s@.len() - i,
    {
        if s[i].same(x) {
            proof {
                lemma_first_place(sv, x@);
                assert(sv[i as int] == x@);
            }
            return Some(i);
        }
        assert(sv[i as int] != x@);
        i = i + 1;
    }
    proof {
        lemma_first_place(sv, x@);
    }
    None
}

/// The tab order that moves worked-out group `from` to where `to` is.
pub fn regrouped_order(keys: &[Option<GroupKey>], from: &AutoKey, to: &AutoKey) -> (r: Option<
    Vec<usize>,
>)
    ensures
        match regrouped(groups::key_views(keys@), from@, to@) {
            Some(out) => r is Some && r->0@ == out,
            None => r is None,
        },
{
    if from.same(to) {
        return None;
    }
    let ghost kv = groups::key_views(keys@);
    let mut order = auto_order(keys);
    let ghost ov = workspace::auto_views(order@);
    let fi = match place_in_autos(&order, from) {
        Some(i) => i,
        None => {
            return None;
        },
    };
    let ti = match place_in_autos(&order, to) {
        Some(i) => i,
        None => {
            return None;
        },
    };
    let moved = order.remove(fi);
    order.insert(ti, moved);
    let ghost new = moved_to(ov, fi as int, ti as int);
    assert(workspace::auto_views(order@) =~= new);
    let ghost blocks = auto_blocks(kv, new);
    let mut out: Vec<usize> = Vec::new();
    let mut i: usize = 0;
    assert(blocks.take(0) =~= Seq::<SectionView>::empty());
    while i < order.len()
        invariant
            i <= order@.len(),
            kv == groups::key_views(keys@),
            workspace::auto_views(order@) == new,
            blocks == auto_blocks(kv, new),
            out@ == flat(blocks.take(i as int)),
        decreases order@.len() - i,
    {
        assert(blocks.take(i + 1).drop_last() =~= blocks.take(i as int));
        assert(new[i as int] == order@[i as int]@);
        let key = Some(GroupKey::Auto(order[i].copy()));
        let rows = members(keys, &key);
        push_all(&mut out, &rows);
        i = i + 1;
    }
    assert(blocks.take(blocks.len() as int) =~= blocks);
    let ghost head = out@;
    let mut i: usize = 0;
    assert(head + rows_beside_autos(kv.take(0)) =~= head);
    while i < keys.len()
        invariant
            i <= keys@.len(),
            kv == groups::key_views(keys@),
            out@ == head + rows_beside_autos(kv.take(i as int)),
        decreases keys@.len() - i,
    {
        assert(kv.take(i + 1).drop_last() =~= kv.take(i as int));
        let auto = match &keys[i] {
            Some(GroupKey::Auto(_)) => true,
            _ => false,
        };
        if !auto {
            out.push(i);
        }
        i = i + 1;
        assert(out@ =~= head + rows_beside_autos(kv.take(i as int)));
    }
    assert(kv.take(kv.len() as int) =~= kv);
    Some(out)
}

proof fn lemma_moved_to<A>(s: Seq<A>, from: int, to: int)
    requires
        s.no_duplicates(),
        0 <= from < s.len(),
        0 <= to < s.len(),
    ensures
        moved_to(s, from, to).len() == s.len(),
        moved_to(s, from, to).no_duplicates(),
        forall|y: A| #[trigger] moved_to(s, from, to).contains(y) <==> s.contains(y),
{
    let rest = s.remove(from);
    let out = moved_to(s, from, to);
    assert forall|y: A| #[trigger] out.contains(y) <==> s.contains(y) by {
        if out.contains(y) {
            let k = choose|k: int| 0 <= k < out.len() && out[k] == y;
            let r = if k < to {
                k
            } else {
                k - 1
            };
            if k == to {
                assert(s[from] == y);
            } else {
                assert(rest[r] == y);
                assert(s[if r < from {
                    r
                } else {
                    r + 1
                }] == y);
            }
        }
        if s.contains(y) {
            let k = choose|k: int| 0 <= k < s.len() && s[k] == y;
            if k == from {
                assert(out[to] == y);
            } else {
                let r = if k < from {
                    k
                } else {
                    k - 1
                };
                assert(rest[r] == y);
                assert(out[if r < to {
                    r
                } else {
                    r + 1
                }] == y);
            }
        }
    }
    assert forall|a: int, b: int|
        0 <= a < out.len() && 0 <= b < out.len() && a != b implies out[a] != out[b] by {
        let ra = if a < to {
            a
        } else {
            a - 1
        };
        let rb = if b < to {
            b
        } else {
            b - 1
        };
        let sa = if a == to {
            from
        } else if ra < from {
            ra
        } else {
            ra + 1
        };
        let sb = if b == to {
            from
        } else if rb < from {
            rb
        } else {
            rb + 1
        };
        assert(out[a] == s[sa]);
        assert(out[b] == s[sb]);
        assert(sa != sb);
    }
}

proof fn lemma_rows_beside(keys: Seq<Option<GroupView>>)
    requires
        keys.len() <= usize::MAX,
    ensures
        rows_beside_autos(keys).no_duplicates(),
        forall|i: int|
            0 <= i < rows_beside_autos(keys).len() ==> (#[trigger] rows_beside_autos(keys)[i])
                < keys.len(),
        forall|k: int|
            0 <= k < keys.len() ==> (#[trigger] rows_beside_autos(keys).contains(k as usize)
                <==> !(keys[k] matches Some(GroupView::Auto(_)))),
    decreases keys.len(),
{
    if keys.len() > 0 {
        let rows = rows_beside_autos(keys);
        let head = rows_beside_autos(keys.drop_last());
        lemma_rows_beside(keys.drop_last());
        let last = (keys.len() - 1) as usize;
        assert forall|k: int| 0 <= k < keys.len() implies (#[trigger] rows.contains(k as usize)
            <==> !(keys[k] matches Some(GroupView::Auto(_)))) by {
            if k < keys.len() - 1 {
                assert(keys.drop_last()[k] == keys[k]);
                assert(head.contains(k as usize) <==> !(keys[k] matches Some(GroupView::Auto(_))));
                if head.contains(k as usize) {
                    let w = choose|w: int| 0 <= w < head.len() && head[w] == k as usize;
                    assert(rows[w] == k as usize);
                }
                if rows.contains(k as usize) {
                    let w = choose|w: int| 0 <= w < rows.len() && rows[w] == k as usize;
                    if w < head.len() {
                        assert(head[w] == k as usize);
                    }
                }
            } else {
                if keys.last() matches Some(GroupView::Auto(_)) {
                    assert forall|w: int| 0 <= w < rows.len() implies rows[w] != last by {
                        assert(head[w] < keys.len() - 1);
                    }
                } else {
                    assert(rows[head.len() as int] == last);
                }
            }
        }
        assert forall|a: int, b: int|
            0 <= a < rows.len() && 0 <= b < rows.len() && a != b implies rows[a] != rows[b] by {
            if a < head.len() {
                assert(rows[a] == head[a] && head[a] < keys.len() - 1);
            }
            if b < head.len() {
                assert(rows[b] == head[b] && head[b] < keys.len() - 1);
            }
        }
        assert forall|i: int| 0 <= i < rows.len() implies (#[trigger] rows[i]) < keys.len() by {
            if i < head.len() {
                assert(rows[i] == head[i]);
            }
        }
    }
}

/// Moving a worked-out group keeps every tab, once each.
pub proof fn moving_a_group_keeps_every_tab(
    keys: Seq<Option<GroupView>>,
    from: AutoView,
    to: AutoView,
)
    requires
        keys.len() <= usize::MAX,
        regrouped(keys, from, to) is Some,
    ensures
        names_each_once(regrouped(keys, from, to)->0, keys.len()),
{
    let order = auto_order_of(keys);
    lemma_auto_order(keys);
    lemma_first_place(order, from);
    lemma_first_place(order, to);
    let new = moved_to(order, first_place(order, from)->0, first_place(order, to)->0);
    lemma_moved_to(order, first_place(order, from)->0, first_place(order, to)->0);
    let blocks = auto_blocks(keys, new);
    assert(sections_by_key(blocks, keys)) by {
        assert forall|i: int, j: int| 0 <= i < j < blocks.len() implies (#[trigger] blocks[i]).key
            != (#[trigger] blocks[j]).key by {
            assert(new[i] != new[j]);
        }
    }
    lemma_flat(blocks, keys);
    lemma_rows_beside(keys);
    let a = flat(blocks);
    let b = rows_beside_autos(keys);
    let out = a + b;
    assert forall|k: int| 0 <= k < keys.len() implies (a.contains(k as usize) <==> #[trigger] keys[k]
        matches Some(GroupView::Auto(_))) by {
        assert(a.contains(k as usize) <==> exists|i: int|
            0 <= i < blocks.len() && (#[trigger] blocks[i]).key == keys[k]);
        if let Some(GroupView::Auto(x)) = keys[k] {
            assert(order.contains(x));
            assert(new.contains(x));
            let w = choose|w: int| 0 <= w < new.len() && new[w] == x;
            assert(blocks[w].key == keys[k]);
        }
    }
    assert forall|k: int| 0 <= k < keys.len() implies #[trigger] out.contains(k as usize) by {
        lemma_contains_concat(a, b, k as usize);
        assert(b.contains(k as usize) <==> !(keys[k] matches Some(GroupView::Auto(_))));
    }
    assert forall|x: int, y: int|
        0 <= x < out.len() && 0 <= y < out.len() && x != y implies out[x] != out[y] by {
        if x < a.len() && y < a.len() {
            assert(out[x] == a[x] && out[y] == a[y]);
        } else if x >= a.len() && y >= a.len() {
            assert(out[x] == b[x - a.len()] && out[y] == b[y - a.len()]);
        } else {
            let (i, j) = if x < a.len() {
                (x, y - a.len())
            } else {
                (y, x - a.len())
            };
            if a[i] == b[j] {
                let k = a[i] as int;
                assert(a.contains(k as usize));
                assert(b.contains(k as usize));
                assert(keys[k] == keys[k]);
            }
        }
    }
}

/// The order of all kept groups after the header in visible slot `from` is
/// dropped on slot `to`, as places in `all`. Groups that are not shown keep
/// their places.
pub open spec fn pinned_after(all: Seq<u128>, shown: Seq<u128>, from: int, to: int) -> Option<
    Seq<usize>,
> {
    if from >= shown.len() || to >= shown.len() || shown[from] == shown[to] {
        None
    } else {
        match spliced(all, shown[from], shown[to], to > from) {
            Some(o) => if all.contains(shown[from]) {
                Some(Seq::new(o.len(), |i: int| first_place(all, o[i])->0 as usize))
            } else {
                None
            },
            None => None,
        }
    }
}

pub fn reordered_pinned(all: &Vec<u128>, shown: &[u128], from: usize, to: usize) -> (r: Option<
    Vec<usize>,
>)
    ensures
        match pinned_after(all@, shown@, from as int, to as int) {
            Some(out) => r is Some && r->0@ == out,
            None => r is None,
        },
{
    if from >= shown.len() || to >= shown.len() {
        return None;
    }
    let moved: u128 = shown[from];
    let anchor: u128 = shown[to];
    if moved == anchor {
        return None;
    }
    let order = match splice_ids(all, moved, anchor, to > from) {
        Some(o) => o,
        None => {
            return None;
        },
    };
    if place_in_ids(all, moved).is_none() {
        proof {
            lemma_first_place(all@, moved);
            assert(!all@.contains(moved));
        }
        return None;
    }
    proof {
        lemma_first_place(all@, moved);
        assert(all@.contains(moved)) by {
            assert(all@[first_place(all@, moved)->0] == moved);
        }
        lemma_spliced_members(all@, moved, anchor, to > from);
    }
    let ghost want = Seq::new(order@.len(), |i: int| first_place(all@, order@[i])->0 as usize);
    let mut out: Vec<usize> = Vec::new();
    let mut i: usize = 0;
    while i < order.len()
        invariant
            i <= order@.len(),
            want == Seq::new(order@.len(), |i: int| first_place(all@, order@[i])->0 as usize),
            forall|y: u128| #[trigger] order@.contains(y) ==> all@.contains(y),
            out@ == want.take(i as int),
        decreases order@.len() - i,
    {
        proof {
            assert(order@.contains(order@[i as int]));
            lemma_first_place(all@, order@[i as int]);
        }
        match place_in_ids(all, order[i]) {
            Some(k) => {
                out.push(k);
            },
            None => {},
        }
        i = i + 1;
        assert(out@ =~= want.take(i as int));
    }
    assert(out@ =~= want);
    Some(out)
}

proof fn lemma_spliced_members(s: Seq<u128>, moved: u128, anchor: u128, behind: bool)
    requires
        spliced(s, moved, anchor, behind) is Some,
        s.contains(moved),
    ensures
        forall|y: u128| #[trigger]
            spliced(s, moved, anchor, behind)->0.contains(y) ==> s.contains(y),
{
    let rest = without(s, moved);
    lemma_without(s, moved);
    lemma_first_place(rest, anchor);
    let out = spliced(s, moved, anchor, behind)->0;
    let i = first_place(rest, anchor)->0;
    let at = if behind {
        i + 1
    } else {
        i
    };
    assert forall|y: u128| #[trigger] out.contains(y) implies s.contains(y) by {
        let k = choose|k: int| 0 <= k < out.len() && out[k] == y;
        if k < at {
            assert(rest[k] == y);
            assert(rest.contains(y));
        } else if k > at {
            assert(rest[k - 1] == y);
            assert(rest.contains(y));
        }
    }
}

/// Moving a header keeps every kept group, once each.
pub proof fn moving_a_header_keeps_every_group(
    all: Seq<u128>,
    shown: Seq<u128>,
    from: int,
    to: int,
)
    requires
        all.no_duplicates(),
        all.len() <= usize::MAX,
        pinned_after(all, shown, from, to) is Some,
    ensures
        names_each_once(pinned_after(all, shown, from, to)->0, all.len()),
{
    let o = spliced(all, shown[from], shown[to], to > from)->0;
    let out = pinned_after(all, shown, from, to)->0;
    lemma_spliced_keeps_all(all, shown[from], shown[to], to > from);
    assert forall|i: int| 0 <= i < o.len() implies first_place(all, #[trigger] o[i]) is Some && 0
        <= first_place(all, o[i])->0 < all.len() && all[first_place(all, o[i])->0] == o[i] by {
        assert(o.contains(o[i]));
        assert(all.contains(o[i]));
        lemma_first_place(all, o[i]);
    }
    assert forall|a: int, b: int|
        0 <= a < out.len() && 0 <= b < out.len() && a != b implies out[a] != out[b] by {
        assert(o[a] != o[b]);
    }
    assert forall|i: int| 0 <= i < out.len() implies (#[trigger] out[i]) < all.len() by {
        assert(o[i] == o[i]);
    }
    assert forall|k: int| 0 <= k < all.len() implies #[trigger] out.contains(k as usize) by {
        assert(all.contains(all[k]));
        assert(o.contains(all[k]));
        let w = choose|w: int| 0 <= w < o.len() && o[w] == all[k];
        assert(all[first_place(all, o[w])->0] == all[k]);
        assert(out[w] == k as usize);
    }
}

proof fn lemma_auto_order_places(keys: Seq<Option<GroupView>>, x: AutoView)
    ensures
        auto_order_of(keys).contains(x) <==> exists|t: int|
            0 <= t < keys.len() && #[trigger] keys[t] == Some(GroupView::Auto(x)),
    decreases keys.len(),
{
    if keys.len() > 0 {
        let rest = keys.drop_last();
        let head = auto_order_of(rest);
        let all = auto_order_of(keys);
        lemma_auto_order_places(rest, x);
        if all.contains(x) {
            if head.contains(x) {
                let t = choose|t: int|
                    0 <= t < rest.len() && #[trigger] rest[t] == Some(GroupView::Auto(x));
                assert(keys[t] == Some(GroupView::Auto(x)));
            } else {
                let w = choose|w: int| 0 <= w < all.len() && all[w] == x;
                if w < head.len() {
                    assert(head[w] == x);
                }
                assert(keys[keys.len() - 1] == Some(GroupView::Auto(x)));
            }
        }
        if exists|t: int| 0 <= t < keys.len() && #[trigger] keys[t] == Some(GroupView::Auto(x)) {
            let t = choose|t: int|
                0 <= t < keys.len() && #[trigger] keys[t] == Some(GroupView::Auto(x));
            lemma_auto_order(keys);
        }
    }
}

/// The worked-out groups are those that tabs are drawn in, once each, and one
/// stands before another exactly when its first tab is before every tab of the
/// other.
pub proof fn groups_come_by_their_first_tab(keys: Seq<Option<GroupView>>)
    ensures
        auto_order_of(keys).no_duplicates(),
        forall|x: AutoView| #[trigger]
            auto_order_of(keys).contains(x) <==> exists|t: int|
                0 <= t < keys.len() && #[trigger] keys[t] == Some(GroupView::Auto(x)),
        forall|a: int, b: int|
            #![trigger auto_order_of(keys)[a], auto_order_of(keys)[b]]
            0 <= a < b < auto_order_of(keys).len() ==> exists|t: int|
                #![trigger keys[t]]
                0 <= t < keys.len() && keys[t] == Some(GroupView::Auto(auto_order_of(keys)[a]))
                    && forall|u: int|
                    0 <= u <= t ==> #[trigger] keys[u] != Some(
                        GroupView::Auto(auto_order_of(keys)[b]),
                    ),
    decreases keys.len(),
{
    lemma_auto_order(keys);
    assert forall|x: AutoView| #[trigger] auto_order_of(keys).contains(x) <==> exists|t: int|
        0 <= t < keys.len() && #[trigger] keys[t] == Some(GroupView::Auto(x)) by {
        lemma_auto_order_places(keys, x);
    }
    if keys.len() > 0 {
        let rest = keys.drop_last();
        let head = auto_order_of(rest);
        let all = auto_order_of(keys);
        groups_come_by_their_first_tab(rest);
        assert forall|a: int, b: int|
            #![trigger all[a], all[b]]
            0 <= a < b < all.len() implies exists|t: int|
            #![trigger keys[t]]
            0 <= t < keys.len() && keys[t] == Some(GroupView::Auto(all[a])) && forall|u: int|
                0 <= u <= t ==> #[trigger] keys[u] != Some(GroupView::Auto(all[b])) by {
            assert(all[a] == head[a]);
            if b < head.len() {
                assert(all[b] == head[b]);
                let t = choose|t: int|
                    #![trigger rest[t]]
                    0 <= t < rest.len() && rest[t] == Some(GroupView::Auto(head[a])) && forall|u: int|
                        0 <= u <= t ==> #[trigger] rest[u] != Some(GroupView::Auto(head[b]));
                assert(keys[t] == rest[t]);
                assert forall|u: int| 0 <= u <= t implies #[trigger] keys[u] != Some(
                    GroupView::Auto(all[b]),
                ) by {
                    assert(keys[u] == rest[u]);
                }
            } else {
                assert(head.contains(head[a]));
                let t = choose|t: int|
                    0 <= t < rest.len() && #[trigger] rest[t] == Some(GroupView::Auto(head[a]));
                assert(keys[t] == rest[t]);
                assert forall|u: int| 0 <= u <= t implies #[trigger] keys[u] != Some(
                    GroupView::Auto(all[b]),
                ) by {
                    assert(keys[u] == rest[u]);
                    assert(!head.contains(all[b]));
                }
            }
        }
    }
}

/// What the tabs are drawn under, once they are in this order.
pub open spec fn keys_in(order: Seq<usize>, keys: Seq<Option<GroupView>>) -> Seq<
    Option<GroupView>,
> {
    Seq::new(order.len(), |i: int| keys[order[i] as int])
}

proof fn lemma_auto_order_grows(a: Seq<Option<GroupView>>, b: Seq<Option<GroupView>>, x: AutoView)
    requires
        forall|i: int| 0 <= i < b.len() ==> #[trigger] b[i] == Some(GroupView::Auto(x)),
    ensures
        auto_order_of(a + b) == if b.len() == 0 || auto_order_of(a).contains(x) {
            auto_order_of(a)
        } else {
            auto_order_of(a).push(x)
        },
    decreases b.len(),
{
    if b.len() == 0 {
        assert(a + b =~= a);
    } else {
        lemma_auto_order_grows(a, b.drop_last(), x);
        assert((a + b).drop_last() =~= a + b.drop_last());
        assert((a + b).last() == b[b.len() - 1]);
        let grown = auto_order_of(a).push(x);
        assert(grown[auto_order_of(a).len() as int] == x);
    }
}

proof fn lemma_auto_order_stays(a: Seq<Option<GroupView>>, b: Seq<Option<GroupView>>)
    requires
        forall|i: int| 0 <= i < b.len() ==> !(#[trigger] b[i] matches Some(GroupView::Auto(_))),
    ensures
        auto_order_of(a + b) == auto_order_of(a),
    decreases b.len(),
{
    if b.len() == 0 {
        assert(a + b =~= a);
    } else {
        lemma_auto_order_stays(a, b.drop_last());
        assert((a + b).drop_last() =~= a + b.drop_last());
        assert((a + b).last() == b[b.len() - 1]);
    }
}

proof fn lemma_auto_order_of_blocks(
    keys: Seq<Option<GroupView>>,
    order: Seq<AutoView>,
    n: int,
)
    requires
        keys.len() <= usize::MAX,
        order.no_duplicates(),
        0 <= n <= order.len(),
        forall|i: int|
            #![trigger order[i]]
            0 <= i < order.len() ==> exists|t: int|
                0 <= t < keys.len() && #[trigger] keys[t] == Some(GroupView::Auto(order[i])),
    ensures
        auto_order_of(keys_in(flat(auto_blocks(keys, order).take(n)), keys)) == order.take(n),
    decreases n,
{
    let blocks = auto_blocks(keys, order);
    if n == 0 {
        assert(order.take(0) =~= Seq::<AutoView>::empty());
        assert(keys_in(flat(blocks.take(0)), keys) =~= Seq::<Option<GroupView>>::empty());
    } else {
        lemma_auto_order_of_blocks(keys, order, n - 1);
        let x = order[n - 1];
        let rows = rows_of(keys, Some(GroupView::Auto(x)));
        lemma_rows(keys, Some(GroupView::Auto(x)));
        let t = choose|t: int|
            0 <= t < keys.len() && #[trigger] keys[t] == Some(GroupView::Auto(x));
        assert(rows.contains(t as usize));
        let a = flat(blocks.take(n - 1));
        assert(blocks.take(n).drop_last() =~= blocks.take(n - 1));
        assert(keys_in(a + rows, keys) =~= keys_in(a, keys) + keys_in(rows, keys));
        assert forall|i: int| 0 <= i < keys_in(rows, keys).len() implies #[trigger] keys_in(
            rows,
            keys,
        )[i] == Some(GroupView::Auto(x)) by {
            assert(rows.contains(rows[i] as int as usize));
        }
        lemma_auto_order_grows(keys_in(a, keys), keys_in(rows, keys), x);
        let front = order.take(n - 1);
        assert(!front.contains(x)) by {
            if front.contains(x) {
                let w = choose|w: int| 0 <= w < front.len() && front[w] == x;
                assert(order[w] == order[n - 1]);
            }
        }
        assert(order.take(n - 1).push(x) =~= order.take(n));
    }
}

/// A worked-out group that is moved takes the place that the other one had
/// among the worked-out groups, counted by their first tabs; all the others
/// stay in the order they were in, and the tabs of every group too. There is a
/// move exactly where tabs are drawn in both groups, and they are two.
pub proof fn a_moved_group_takes_the_place_of_the_other(
    keys: Seq<Option<GroupView>>,
    from: AutoView,
    to: AutoView,
)
    requires
        keys.len() <= usize::MAX,
    ensures
        regrouped(keys, from, to) is Some <==> from != to && auto_order_of(keys).contains(from)
            && auto_order_of(keys).contains(to),
        regrouped(keys, from, to) is Some ==> {
            let out = regrouped(keys, from, to)->0;
            let before = auto_order_of(keys);
            let after = auto_order_of(keys_in(out, keys));
            &&& after.len() == before.len()
            &&& forall|i: int|
                0 <= i < before.len() && #[trigger] before[i] == to ==> after[i] == from
            &&& forall|a: int, b: int|
                0 <= a < b < after.len() && #[trigger] after[a] != from && #[trigger] after[b] != from
                    ==> comes_before(before, after[a], after[b])
            &&& forall|i: int, j: int|
                0 <= i < j < out.len() && keys[(#[trigger] out[i]) as int] == keys[(
                #[trigger] out[j]) as int] ==> out[i] < out[j]
        },
{
    let before = auto_order_of(keys);
    groups_come_by_their_first_tab(keys);
    lemma_first_place(before, from);
    lemma_first_place(before, to);
    if first_place(before, from) is Some {
        assert(before[first_place(before, from)->0] == from);
    }
    if first_place(before, to) is Some {
        assert(before[first_place(before, to)->0] == to);
    }
    if regrouped(keys, from, to) is Some {
        let fi = first_place(before, from)->0;
        let ti = first_place(before, to)->0;
        let new = moved_to(before, fi, ti);
        lemma_moved_to(before, fi, ti);
        let blocks = auto_blocks(keys, new);
        let head = flat(blocks);
        let rest = rows_beside_autos(keys);
        let out = regrouped(keys, from, to)->0;
        assert forall|i: int|
            #![trigger new[i]]
            0 <= i < new.len() implies exists|t: int|
            0 <= t < keys.len() && #[trigger] keys[t] == Some(GroupView::Auto(new[i])) by {
            assert(new.contains(new[i]));
            assert(before.contains(new[i]));
        }
        lemma_auto_order_of_blocks(keys, new, new.len() as int);
        assert(blocks.take(new.len() as int) =~= blocks);
        assert(new.take(new.len() as int) =~= new);
        lemma_rows_beside(keys);
        assert(out == head + rest);
        assert(keys_in(out, keys) =~= keys_in(head, keys) + keys_in(rest, keys));
        assert forall|i: int| 0 <= i < keys_in(rest, keys).len() implies !(#[trigger] keys_in(
            rest,
            keys,
        )[i] matches Some(GroupView::Auto(_))) by {
            assert(rest.contains(rest[i] as int as usize));
        }
        lemma_auto_order_stays(keys_in(head, keys), keys_in(rest, keys));
        let after = auto_order_of(keys_in(out, keys));
        assert(after == new);
        assert(after[ti] == from);
        assert forall|i: int| 0 <= i < before.len() && #[trigger] before[i] == to implies after[i]
            == from by {
            assert(before[ti] == before[i]);
        }
        assert forall|a: int, b: int|
            0 <= a < b < after.len() && #[trigger] after[a] != from && #[trigger] after[b]
                != from implies comes_before(before, after[a], after[b]) by {
            let ra = if a < ti {
                a
            } else {
                a - 1
            };
            let rb = if b < ti {
                b
            } else {
                b - 1
            };
            let c = if ra < fi {
                ra
            } else {
                ra + 1
            };
            let d = if rb < fi {
                rb
            } else {
                rb + 1
            };
            assert(before[c] == after[a]);
            assert(before[d] == after[b]);
        }
        assert forall|i: int, j: int|
            0 <= i < j < out.len() && keys[(#[trigger] out[i]) as int] == keys[(
            #[trigger] out[j]) as int] implies out[i] < out[j] by {
            lemma_blocks_keep_order(keys, new, new.len() as int);
            lemma_rows_beside_ascend(keys);
            if j < head.len() {
                assert(out[i] == head[i] && out[j] == head[j]);
            } else if i >= head.len() {
                assert(out[i] == rest[i - head.len()] && out[j] == rest[j - head.len()]);
            } else {
                assert(rest.contains(rest[j - head.len()] as int as usize));
                assert(out[j] == rest[j - head.len()]);
                assert(out[i] == head[i]);
            }
        }
    }
}

proof fn lemma_rows_ascend(keys: Seq<Option<GroupView>>, key: Option<GroupView>)
    requires
        keys.len() <= usize::MAX,
    ensures
        forall|i: int, j: int|
            0 <= i < j < rows_of(keys, key).len() ==> (#[trigger] rows_of(keys, key)[i]) < (
            #[trigger] rows_of(keys, key)[j]),
    decreases keys.len(),
{
    if keys.len() > 0 {
        let head = rows_of(keys.drop_last(), key);
        lemma_rows_ascend(keys.drop_last(), key);
        lemma_rows(keys.drop_last(), key);
        assert forall|i: int, j: int| 0 <= i < j < rows_of(keys, key).len() implies (
        #[trigger] rows_of(keys, key)[i]) < (#[trigger] rows_of(keys, key)[j]) by {
            assert(rows_of(keys, key)[i] == head[i]);
            if j < head.len() {
                assert(rows_of(keys, key)[j] == head[j]);
            }
        }
    }
}

proof fn lemma_rows_beside_ascend(keys: Seq<Option<GroupView>>)
    requires
        keys.len() <= usize::MAX,
    ensures
        forall|i: int, j: int|
            0 <= i < j < rows_beside_autos(keys).len() ==> (#[trigger] rows_beside_autos(keys)[i])
                < (#[trigger] rows_beside_autos(keys)[j]),
    decreases keys.len(),
{
    if keys.len() > 0 {
        let head = rows_beside_autos(keys.drop_last());
        lemma_rows_beside_ascend(keys.drop_last());
        lemma_rows_beside(keys.drop_last());
        assert forall|i: int, j: int| 0 <= i < j < rows_beside_autos(keys).len() implies (
        #[trigger] rows_beside_autos(keys)[i]) < (#[trigger] rows_beside_autos(keys)[j]) by {
            assert(rows_beside_autos(keys)[i] == head[i]);
            if j < head.len() {
                assert(rows_beside_autos(keys)[j] == head[j]);
            }
        }
    }
}

/// The tabs of the first groups are drawn in those groups, and those of one
/// group in tab order.
proof fn lemma_blocks_keep_order(keys: Seq<Option<GroupView>>, order: Seq<AutoView>, n: int)
    requires
        keys.len() <= usize::MAX,
        order.no_duplicates(),
        0 <= n <= order.len(),
    ensures
        forall|i: int|
            #![trigger flat(auto_blocks(keys, order).take(n))[i]]
            0 <= i < flat(auto_blocks(keys, order).take(n)).len() ==> exists|g: int|
                0 <= g < n && keys[flat(auto_blocks(keys, order).take(n))[i] as int] == Some(
                    GroupView::Auto(#[trigger] order[g]),
                ),
        forall|i: int, j: int|
            0 <= i < j < flat(auto_blocks(keys, order).take(n)).len()
                && keys[(#[trigger] flat(auto_blocks(keys, order).take(n))[i]) as int] == keys[(
            #[trigger] flat(auto_blocks(keys, order).take(n))[j]) as int] ==> flat(
                auto_blocks(keys, order).take(n),
            )[i] < flat(auto_blocks(keys, order).take(n))[j],
        flat(auto_blocks(keys, order)) == flat(auto_blocks(keys, order).take(order.len() as int)),
    decreases n,
{
    let blocks = auto_blocks(keys, order);
    assert(blocks.take(order.len() as int) =~= blocks);
    if n > 0 {
        lemma_blocks_keep_order(keys, order, n - 1);
        assert(blocks.take(n).drop_last() =~= blocks.take(n - 1));
        let a = flat(blocks.take(n - 1));
        let x = order[n - 1];
        let rows = rows_of(keys, Some(GroupView::Auto(x)));
        let all = flat(blocks.take(n));
        assert(all == a + rows);
        lemma_rows(keys, Some(GroupView::Auto(x)));
        lemma_rows_ascend(keys, Some(GroupView::Auto(x)));
        assert forall|i: int|
            #![trigger all[i]]
            0 <= i < all.len() implies exists|g: int|
            0 <= g < n && keys[all[i] as int] == Some(GroupView::Auto(#[trigger] order[g])) by {
            if i < a.len() {
                assert(all[i] == a[i]);
            } else {
                assert(rows.contains(rows[i - a.len()] as int as usize));
                assert(keys[all[i] as int] == Some(GroupView::Auto(order[n - 1])));
            }
        }
        assert forall|i: int, j: int|
            0 <= i < j < all.len() && keys[(#[trigger] all[i]) as int] == keys[(
            #[trigger] all[j]) as int] implies all[i] < all[j] by {
            if j < a.len() {
                assert(all[i] == a[i] && all[j] == a[j]);
            } else if i >= a.len() {
                assert(all[i] == rows[i - a.len()] && all[j] == rows[j - a.len()]);
            } else {
                assert(rows.contains(rows[j - a.len()] as int as usize));
                assert(all[i] == a[i]);
                let g = choose|g: int|
                    0 <= g < n - 1 && keys[a[i] as int] == Some(
                        GroupView::Auto(#[trigger] order[g]),
                    );
                assert(order[g] == order[n - 1]);
            }
        }
    }
}

/// `a` stands before `b` in `s`.
pub open spec fn comes_before<A>(s: Seq<A>, a: A, b: A) -> bool {
    exists|i: int, j: int|
        #![trigger s[i], s[j]]
        0 <= i < j < s.len() && s[i] == a && s[j] == b
}

proof fn lemma_without_order<A>(s: Seq<A>, x: A, i: int, j: int)
    requires
        0 <= i < j < without(s, x).len(),
    ensures
        comes_before(s, without(s, x)[i], without(s, x)[j]),
    decreases s.len(),
{
    let h = s.drop_last();
    let wh = without(h, x);
    let w = without(s, x);
    lemma_without(h, x);
    assert(w[i] == wh[i]);
    if j < wh.len() {
        assert(w[j] == wh[j]);
        lemma_without_order(h, x, i, j);
        let (a, b) = choose|a: int, b: int|
            #![trigger h[a], h[b]]
            0 <= a < b < h.len() && h[a] == wh[i] && h[b] == wh[j];
        assert(s[a] == h[a] && s[b] == h[b]);
    } else {
        assert(wh.contains(wh[i]));
        assert(h.contains(wh[i]));
        let a = choose|a: int| 0 <= a < h.len() && h[a] == wh[i];
        assert(s[a] == h[a]);
        assert(s[s.len() - 1] == w[j]);
    }
}

/// An item that is moved ends up right beside the one it was dropped on, and
/// the others stay in the order they were in.
pub proof fn lemma_spliced_places<A>(s: Seq<A>, moved: A, anchor: A, behind: bool)
    requires
        spliced(s, moved, anchor, behind) is Some,
    ensures
        exists|k: int|
            #![trigger spliced(s, moved, anchor, behind)->0[k]]
            0 <= k < spliced(s, moved, anchor, behind)->0.len() - 1 && if behind {
                spliced(s, moved, anchor, behind)->0[k] == anchor && spliced(
                    s,
                    moved,
                    anchor,
                    behind,
                )->0[k + 1] == moved
            } else {
                spliced(s, moved, anchor, behind)->0[k] == moved && spliced(
                    s,
                    moved,
                    anchor,
                    behind,
                )->0[k + 1] == anchor
            },
        forall|i: int, j: int|
            0 <= i < j < spliced(s, moved, anchor, behind)->0.len() && #[trigger] spliced(
                s,
                moved,
                anchor,
                behind,
            )->0[i] != moved && #[trigger] spliced(s, moved, anchor, behind)->0[j] != moved
                ==> comes_before(
                s,
                spliced(s, moved, anchor, behind)->0[i],
                spliced(s, moved, anchor, behind)->0[j],
            ),
{
    let rest = without(s, moved);
    let out = spliced(s, moved, anchor, behind)->0;
    lemma_first_place(rest, anchor);
    let i = first_place(rest, anchor)->0;
    let at = if behind {
        i + 1
    } else {
        i
    };
    assert(out[at] == moved);
    if behind {
        assert(out[i] == anchor && out[i + 1] == moved);
    } else {
        assert(out[i] == moved && out[i + 1] == rest[i]);
    }
    assert forall|x: int, y: int|
        0 <= x < y < out.len() && #[trigger] out[x] != moved && #[trigger] out[y]
            != moved implies comes_before(s, out[x], out[y]) by {
        let p = if x < at {
            x
        } else {
            x - 1
        };
        let q = if y < at {
            y
        } else {
            y - 1
        };
        assert(out[x] == rest[p] && out[y] == rest[q]);
        lemma_without_order(s, moved, p, q);
    }
}

/// A header that is dropped on another one lands right behind it when it moved
/// down and right before it when it moved up; all other kept groups, hidden
/// ones too, stay in the order they were in. A drop does nothing only where a
/// slot is not there, where both slots hold one group, or where one of the two
/// groups is gone.
pub proof fn a_dropped_header_lands_beside_the_other(
    all: Seq<u128>,
    shown: Seq<u128>,
    from: int,
    to: int,
)
    requires
        all.no_duplicates(),
        all.len() <= usize::MAX,
        0 <= from,
        0 <= to,
    ensures
        pinned_after(all, shown, from, to) is Some <==> from < shown.len() && to < shown.len()
            && shown[from] != shown[to] && all.contains(shown[from]) && all.contains(shown[to]),
        pinned_after(all, shown, from, to) is Some ==> {
            let out = pinned_after(all, shown, from, to)->0;
            &&& exists|k: int|
                #![trigger out[k]]
                0 <= k < out.len() - 1 && if to > from {
                    all[out[k] as int] == shown[to] && all[out[k + 1] as int] == shown[from]
                } else {
                    all[out[k] as int] == shown[from] && all[out[k + 1] as int] == shown[to]
                }
            &&& forall|i: int, j: int|
                0 <= i < j < out.len() && all[(#[trigger] out[i]) as int] != shown[from] && all[(
                #[trigger] out[j]) as int] != shown[from] ==> out[i] < out[j]
        },
{
    if from < shown.len() && to < shown.len() && shown[from] != shown[to] {
        let rest = without(all, shown[from]);
        lemma_without(all, shown[from]);
        lemma_first_place(rest, shown[to]);
        if first_place(rest, shown[to]) is Some {
            assert(rest.contains(rest[first_place(rest, shown[to])->0]));
        }
        assert(rest.contains(shown[to]) <==> all.contains(shown[to]));
        if pinned_after(all, shown, from, to) is Some {
            let o = spliced(all, shown[from], shown[to], to > from)->0;
            let out = pinned_after(all, shown, from, to)->0;
            lemma_spliced_places(all, shown[from], shown[to], to > from);
            lemma_spliced_members(all, shown[from], shown[to], to > from);
            assert forall|i: int| 0 <= i < o.len() implies all[(#[trigger] out[i]) as int] == o[i] by {
                assert(o.contains(o[i]));
                lemma_first_place(all, o[i]);
            }
            let k = choose|k: int|
                #![trigger o[k]]
                0 <= k < o.len() - 1 && if to > from {
                    o[k] == shown[to] && o[k + 1] == shown[from]
                } else {
                    o[k] == shown[from] && o[k + 1] == shown[to]
                };
            assert(all[out[k] as int] == o[k]);
            assert(all[out[k + 1] as int] == o[k + 1]);
            assert forall|i: int, j: int|
                0 <= i < j < out.len() && all[(#[trigger] out[i]) as int] != shown[from] && all[(
                #[trigger] out[j]) as int] != shown[from] implies out[i] < out[j] by {
                assert(all[out[i] as int] == o[i] && all[out[j] as int] == o[j]);
                let (a, b) = choose|a: int, b: int|
                    #![trigger all[a], all[b]]
                    0 <= a < b < all.len() && all[a] == o[i] && all[b] == o[j];
                assert(o.contains(o[i]) && o.contains(o[j]));
                lemma_first_place(all, o[i]);
                lemma_first_place(all, o[j]);
            }
        }
    }
}

proof fn lemma_own_rows_in_sections(
    s: Seq<SectionView>,
    keys: Seq<Option<GroupView>>,
    g: Option<GroupView>,
    rows: Seq<usize>,
    n: int,
)
    requires
        0 <= n <= s.len(),
        forall|i: int, j: int|
            0 <= i < j < s.len() ==> (#[trigger] s[i]).key != (#[trigger] s[j]).key,
        forall|i: int|
            0 <= i < s.len() ==> rows_in((#[trigger] s[i]).tabs, keys, g) == if s[i].key == g {
                rows
            } else {
                Seq::empty()
            },
    ensures
        rows_in_sections(s.take(n), keys, g) == if exists|i: int|
            0 <= i < n && (#[trigger] s[i]).key == g {
            rows
        } else {
            Seq::empty()
        },
    decreases n,
{
    if n > 0 {
        lemma_own_rows_in_sections(s, keys, g, rows, n - 1);
        assert(s.take(n).drop_last() =~= s.take(n - 1));
        let before = rows_in_sections(s.take(n - 1), keys, g);
        let own = rows_in(s[n - 1].tabs, keys, g);
        assert(rows_in_sections(s.take(n), keys, g) == before + own);
        if s[n - 1].key == g {
            assert(before =~= Seq::<usize>::empty());
            assert(before + own =~= own);
        } else {
            assert(own =~= Seq::<usize>::empty());
            assert(before + own =~= before);
        }
    }
}

/// A row that is dropped on another row of its group lands right behind it when
/// it moved down and right before it when it moved up; the other rows of the
/// group, hidden ones too, stay in the order they were in.
pub proof fn a_dropped_row_lands_beside_the_other(
    keys: Seq<Option<GroupView>>,
    p: Seq<workspace::PinnedGroup>,
    group: Option<GroupView>,
    visible: Seq<usize>,
    from: int,
    to: int,
)
    requires
        keys_fit(keys, p),
        0 <= from < visible.len(),
        0 <= to < visible.len(),
        visible[from] < keys.len(),
        visible[to] < keys.len(),
        keys[visible[from] as int] == group,
        keys[visible[to] as int] == group,
        visible[from] != visible[to],
    ensures
        rows_after(keys, p, group, visible, from, to) is Some,
        ({
            let rows = rows_in(rows_after(keys, p, group, visible, from, to)->0, keys, group);
            &&& exists|k: int|
                #![trigger rows[k]]
                0 <= k < rows.len() - 1 && if to > from {
                    rows[k] == visible[to] && rows[k + 1] == visible[from]
                } else {
                    rows[k] == visible[from] && rows[k + 1] == visible[to]
                }
            &&& forall|i: int, j: int|
                0 <= i < j < rows.len() && #[trigger] rows[i] != visible[from]
                    && #[trigger] rows[j] != visible[from] ==> rows[i] < rows[j]
        }),
{
    let own = rows_of(keys, group);
    let moved = visible[from];
    let anchor = visible[to];
    lemma_rows(keys, group);
    lemma_rows_ascend(keys, group);
    assert(own.contains(moved as int as usize));
    assert(own.contains(anchor as int as usize));
    lemma_without(own, moved);
    lemma_first_place(without(own, moved), anchor);
    assert(without(own, moved).contains(anchor));
    let rows = spliced(own, moved, anchor, to > from)->0;
    lemma_spliced_places(own, moved, anchor, to > from);
    lemma_spliced_keeps_all(own, moved, anchor, to > from);
    let s = sections_of(keys, p, Seq::empty(), Seq::empty());
    let t = with_rows(s, group, rows);
    lemma_sections_by_key(keys, p, Seq::empty(), Seq::empty());
    lemma_flat(s, keys);
    every_tab_is_drawn_once(keys, p, Seq::empty(), Seq::empty());
    assert(flat(s).contains(moved as int as usize));
    assert(exists|i: int| 0 <= i < s.len() && (#[trigger] s[i]).key == group);
    let at = choose|i: int| 0 <= i < s.len() && (#[trigger] s[i]).key == group;
    assert(t[at].key == group);
    assert forall|i: int| 0 <= i < t.len() implies rows_in((#[trigger] t[i]).tabs, keys, group)
        == if t[i].key == group {
        rows
    } else {
        Seq::empty()
    } by {
        assert(t[i].key == s[i].key);
        assert(s[i].tabs == rows_of(keys, s[i].key));
        lemma_rows(keys, s[i].key);
        assert forall|k: int| 0 <= k < t[i].tabs.len() implies (keys[(
        #[trigger] t[i].tabs[k]) as int] == group) == (t[i].key == group) by {
            assert(t[i].tabs.contains(t[i].tabs[k]));
            if s[i].key == group {
                assert(own.contains(t[i].tabs[k]));
                let w = choose|w: int| 0 <= w < own.len() && own[w] == t[i].tabs[k];
                assert(own[w] < keys.len());
                assert(own.contains(t[i].tabs[k] as int as usize));
            } else {
                assert(s[i].tabs.contains(t[i].tabs[k] as int as usize));
            }
        }
        lemma_rows_in_uniform(t[i].tabs, keys, group, t[i].key == group);
    }
    assert forall|i: int, j: int| 0 <= i < j < t.len() implies (#[trigger] t[i]).key != (
    #[trigger] t[j]).key by {
        assert(s[i].key != s[j].key);
    }
    lemma_own_rows_in_sections(t, keys, group, rows, t.len() as int);
    assert(t.take(t.len() as int) =~= t);
    lemma_rows_in_flat(t, keys, group);
    let out = rows_after(keys, p, group, visible, from, to)->0;
    assert(out == flat(t));
    assert(rows_in(out, keys, group) == rows);
    let k = choose|k: int|
        #![trigger rows[k]]
        0 <= k < rows.len() - 1 && if to > from {
            rows[k] == anchor && rows[k + 1] == moved
        } else {
            rows[k] == moved && rows[k + 1] == anchor
        };
    assert(rows[k] == rows[k]);
    assert forall|i: int, j: int|
        0 <= i < j < rows.len() && #[trigger] rows[i] != moved && #[trigger] rows[j]
            != moved implies rows[i] < rows[j] by {
        let (a, b) = choose|a: int, b: int|
            #![trigger own[a], own[b]]
            0 <= a < b < own.len() && own[a] == rows[i] && own[b] == rows[j];
        assert(own[a] < own[b]);
    }
}

/// The rail holds the kept groups first, each with its own tabs under its own
/// name and in the user's order; then the worked-out groups by their first
/// tab; then the tabs without a group, under a header only where worked-out
/// groups stand above them.
pub proof fn kept_groups_then_worked_out_then_the_rest(
    keys: Seq<Option<GroupView>>,
    p: Seq<workspace::PinnedGroup>,
    ungrouped: Seq<char>,
    heads: Seq<Seq<char>>,
    i: int,
)
    requires
        p.len() > 0 || auto_order_of(keys).len() > 0,
        0 <= i < sections_of(keys, p, ungrouped, heads).len(),
    ensures
        ({
            let s = sections_of(keys, p, ungrouped, heads)[i];
            let autos = auto_order_of(keys);
            &&& s.tabs == rows_of(keys, s.key)
            &&& i < p.len() ==> s.key == Some(GroupView::Pinned(p[i].id)) && s.name == Some(
                workspace::pinned_names_of(p)[i],
            )
            &&& p.len() <= i < p.len() + autos.len() ==> s.key == Some(
                GroupView::Auto(autos[i - p.len()]),
            ) && s.name == Some(heads[i - p.len()])
            &&& i >= p.len() + autos.len() ==> s.key is None && i == p.len() + autos.len()
                && s.tabs.len() > 0 && (s.name is Some <==> autos.len() > 0)
            &&& i >= p.len() + autos.len() && s.name is Some ==> s.name == Some(ungrouped)
        }),
        sections_of(keys, p, ungrouped, heads).len() == p.len() + auto_order_of(keys).len() + (
        if rows_of(keys, None).len() > 0 {
            1int
        } else {
            0int
        }),
{
}

/// With no group at all the rail is one list of every tab, under no header.
pub proof fn without_groups_there_is_one_list(
    keys: Seq<Option<GroupView>>,
    ungrouped: Seq<char>,
    heads: Seq<Seq<char>>,
)
    requires
        auto_order_of(keys).len() == 0,
    ensures
        sections_of(keys, Seq::empty(), ungrouped, heads).len() == 1,
        sections_of(keys, Seq::empty(), ungrouped, heads)[0].name is None,
        sections_of(keys, Seq::empty(), ungrouped, heads)[0].tabs == rows_of(keys, None),
{
}

/// The tabs of a group are those drawn under it, in tab order.
pub proof fn a_group_holds_its_tabs_in_order(
    keys: Seq<Option<GroupView>>,
    key: Option<GroupView>,
    i: int,
    j: int,
)
    requires
        keys.len() <= usize::MAX,
    ensures
        0 <= i < rows_of(keys, key).len() ==> rows_of(keys, key)[i] < keys.len()
            && keys[rows_of(keys, key)[i] as int] == key,
        0 <= i < j < rows_of(keys, key).len() ==> rows_of(keys, key)[i] < rows_of(keys, key)[j],
        0 <= j < keys.len() && keys[j] == key ==> rows_of(keys, key).contains(j as usize),
{
    lemma_rows(keys, key);
    lemma_rows_ascend(keys, key);
    if 0 <= i < rows_of(keys, key).len() {
        assert(rows_of(keys, key).contains(rows_of(keys, key)[i] as int as usize));
    }
    if 0 <= j < keys.len() {
        assert(rows_of(keys, key).contains(j as usize) <==> keys[j] == key);
    }
}

/// The headers of the worked-out groups read, one by one, the groups in the
/// order they are drawn in.
pub proof fn headers_follow_the_groups(keys: Seq<Option<GroupKey>>)
    ensures
        workspace::auto_views(first_keys(keys)) == auto_order_of(groups::key_views(keys)),
        heads_of(keys).len() == auto_order_of(groups::key_views(keys)).len(),
    decreases keys.len(),
{
    let kv = groups::key_views(keys);
    if keys.len() > 0 {
        let front = keys.drop_last();
        headers_follow_the_groups(front);
        assert(kv.drop_last() =~= groups::key_views(front));
        assert(kv.last() == groups::option_view(keys.last()));
        let head = first_keys(front);
        if let Some(GroupKey::Auto(k)) = keys.last() {
            if !workspace::has_auto(head, k@) {
                assert(workspace::auto_views(head.push(k)) =~= workspace::auto_views(head).push(
                    k@,
                ));
            }
        }
    } else {
        assert(workspace::auto_views(first_keys(keys)) =~= auto_order_of(kv));
    }
}

/// The order the rail is read in is that of its sections, top to bottom, each
/// with its tabs in order.
pub proof fn the_rail_is_read_from_top_to_bottom(s: Seq<SectionView>, last: SectionView)
    ensures
        flat(Seq::empty()).len() == 0,
        flat(s.push(last)) == flat(s) + last.tabs,
{
    assert(s.push(last).drop_last() =~= s);
}

} // verus!
