//! What a drag over the rail shows before it is let go, and the order of the
//! tabs it leads to.

use vstd::prelude::*;
use crate::groups;
use crate::groups::{AutoKey, AutoView, GroupKey, GroupView};
use crate::sections;
use crate::sections::SectionView;
use crate::sidebar::Sidebar;
use crate::sidebar_view;
use crate::sidebar_view::{Block, RailFacts, Row, RowFacts, SidebarView};

verus! {

/// A drag over slots that stand in a row: the slot that was lifted, the one it
/// is over, and the order the slots would take.
#[derive(Debug)]
pub struct DragPreview {
    pub from: usize,
    pub target: usize,
    pub order: Vec<usize>,
}

/// The order so many slots are drawn in: the one a drag previews, else their
/// own.
pub open spec fn slots_shown(slots: nat, preview: Option<DragPreview>) -> Seq<usize> {
    match preview {
        Some(p) => p.order@,
        None => Seq::new(slots, |i: int| i as usize),
    }
}

pub fn display_order(slots: usize, preview: &Option<DragPreview>) -> (r: Vec<usize>)
    ensures
        r@ == slots_shown(slots as nat, *preview),
{
    match preview {
        Some(p) => copy_order(&p.order),
        None => {
            let mut out: Vec<usize> = Vec::new();
            let mut i: usize = 0;
            while i < slots
                invariant
                    i <= slots,
                    out@ == Seq::new(i as nat, |k: int| k as usize),
                decreases slots - i,
            {
                out.push(i);
                i = i + 1;
                assert(out@ =~= Seq::new(i as nat, |k: int| k as usize));
            }
            out
        },
    }
}

fn copy_order(v: &Vec<usize>) -> (r: Vec<usize>)
    ensures
        r@ == v@,
{
    let mut out: Vec<usize> = Vec::new();
    let mut i: usize = 0;
    while i < v.len()
        invariant
            i <= v@.len(),
            out@ == v@.take(i as int),
        decreases v@.len() - i,
    {
        out.push(v[i]);
        i = i + 1;
        assert(out@ =~= v@.take(i as int));
    }
    assert(out@ =~= v@);
    out
}

/// The kinds of blocks, in the order they stand in.
#[derive(Clone, Copy, Debug, PartialEq, Eq, Structural)]
pub enum BlockKind {
    Kept,
    WorkedOut,
    Ungrouped,
}

pub open spec fn kind_of(b: Block) -> BlockKind {
    match b.key {
        Some(GroupKey::Pinned(_)) => BlockKind::Kept,
        Some(GroupKey::Auto(_)) => BlockKind::WorkedOut,
        None => BlockKind::Ungrouped,
    }
}

/// The places of the blocks of one kind.
pub open spec fn places(blocks: Seq<Block>, kind: BlockKind) -> Seq<usize>
    decreases blocks.len(),
{
    if blocks.len() == 0 {
        Seq::empty()
    } else if kind_of(blocks.last()) == kind {
        places(blocks.drop_last(), kind).push((blocks.len() - 1) as usize)
    } else {
        places(blocks.drop_last(), kind)
    }
}

/// The places of the blocks in the order they are drawn in: the kept groups,
/// the worked-out ones as a drag previews them, then the tabs without a group.
pub open spec fn blocks_shown(blocks: Seq<Block>, preview: Option<DragPreview>) -> Seq<usize> {
    let autos = places(blocks, BlockKind::WorkedOut);
    let slots = slots_shown(autos.len(), preview);
    places(blocks, BlockKind::Kept) + Seq::new(slots.len(), |k: int| autos[slots[k] as int])
        + places(blocks, BlockKind::Ungrouped)
}

/// The worked-out group in a slot.
pub open spec fn key_in_slot(blocks: Seq<Block>, slot: usize) -> Option<AutoView> {
    let autos = places(blocks, BlockKind::WorkedOut);
    if slot < autos.len() {
        match blocks[autos[slot as int] as int].key {
            Some(GroupKey::Auto(k)) => Some(k@),
            _ => None,
        }
    } else {
        None
    }
}

/// The order of the tabs a drag of a group leads to, if it leads to one.
pub open spec fn groups_moved(
    keys: Seq<Option<GroupView>>,
    blocks: Seq<Block>,
    from: usize,
    target: usize,
) -> Option<Seq<usize>> {
    match (key_in_slot(blocks, from), key_in_slot(blocks, target)) {
        (Some(a), Some(b)) => sections::regrouped(keys, a, b),
        _ => None,
    }
}

/// The tabs of a block's rows.
pub open spec fn tabs_of(rows: Seq<Row>) -> Seq<usize> {
    Seq::new(rows.len(), |i: int| rows[i].tab)
}

proof fn lemma_places(blocks: Seq<Block>, kind: BlockKind)
    requires
        blocks.len() <= usize::MAX,
    ensures
        places(blocks, kind).len() <= blocks.len(),
        forall|k: int|
            0 <= k < places(blocks, kind).len() ==> (#[trigger] places(blocks, kind)[k])
                < blocks.len() && kind_of(blocks[places(blocks, kind)[k] as int]) == kind,
    decreases blocks.len(),
{
    if blocks.len() > 0 {
        lemma_places(blocks.drop_last(), kind);
        let head = places(blocks.drop_last(), kind);
        let all = places(blocks, kind);
        assert forall|k: int| 0 <= k < all.len() implies (#[trigger] all[k]) < blocks.len()
            && kind_of(blocks[all[k] as int]) == kind by {
            if k < head.len() {
                assert(all[k] == head[k]);
                assert(blocks.drop_last()[head[k] as int] == blocks[head[k] as int]);
            }
        }
    }
}

fn find_places(blocks: &Vec<Block>, kind: BlockKind) -> (r: Vec<usize>)
    ensures
        r@ == places(blocks@, kind),
{
    let mut out: Vec<usize> = Vec::new();
    let mut i: usize = 0;
    assert(blocks@.take(0) =~= Seq::<Block>::empty());
    while i < blocks.len()
        invariant
            i <= blocks@.len(),
            out@ == places(blocks@.take(i as int), kind),
        decreases blocks@.len() - i,
    {
        assert(blocks@.take(i + 1).drop_last() =~= blocks@.take(i as int));
        let own = match &blocks[i].key {
            Some(GroupKey::Pinned(_)) => BlockKind::Kept,
            Some(GroupKey::Auto(_)) => BlockKind::WorkedOut,
            None => BlockKind::Ungrouped,
        };
        if own == kind {
            out.push(i);
        }
        i = i + 1;
    }
    assert(blocks@.take(blocks@.len() as int) =~= blocks@);
    out
}

impl SidebarView {
    /// The places of the blocks in the order they are drawn in.
    pub fn block_order(&self, preview: &Option<DragPreview>) -> (r: Vec<usize>)
        requires
            preview matches Some(p) ==> forall|k: int|
                0 <= k < p.order@.len() ==> #[trigger] p.order@[k] < places(
                    self.blocks@,
                    BlockKind::WorkedOut,
                ).len(),
        ensures
            r@ == blocks_shown(self.blocks@, *preview),
    {
        let autos = find_places(&self.blocks, BlockKind::WorkedOut);
        let slots = display_order(autos.len(), preview);
        let mut out = find_places(&self.blocks, BlockKind::Kept);
        let ghost front = out@;
        let ghost middle = Seq::new(slots@.len(), |k: int| autos@[slots@[k] as int]);
        let mut i: usize = 0;
        assert(out@ =~= front + middle.take(0));
        while i < slots.len()
            invariant
                i <= slots@.len(),
                forall|k: int| 0 <= k < slots@.len() ==> #[trigger] slots@[k] < autos@.len(),
                middle == Seq::new(slots@.len(), |k: int| autos@[slots@[k] as int]),
                out@ == front + middle.take(i as int),
            decreases slots@.len() - i,
        {
            out.push(autos[slots[i]]);
            assert(out@ =~= front + middle.take(i + 1));
            i = i + 1;
        }
        assert(middle.take(middle.len() as int) =~= middle);
        let mut rest = find_places(&self.blocks, BlockKind::Ungrouped);
        out.append(&mut rest);
        assert(out@ =~= blocks_shown(self.blocks@, *preview));
        out
    }

    fn group_in_slot(&self, slot: usize) -> (r: Option<&AutoKey>)
        ensures
            match r {
                Some(k) => key_in_slot(self.blocks@, slot) == Some(k@),
                None => key_in_slot(self.blocks@, slot) is None,
            },
    {
        let autos = find_places(&self.blocks, BlockKind::WorkedOut);
        if slot >= autos.len() {
            return None;
        }
        assert(self.blocks.len() <= usize::MAX);
        proof {
            lemma_places(self.blocks@, BlockKind::WorkedOut);
        }
        match &self.blocks[autos[slot]].key {
            Some(GroupKey::Auto(k)) => Some(k),
            _ => None,
        }
    }

    /// The order of the tabs a drag of a group leads to.
    pub fn pending_groups(&self, keys: &[Option<GroupKey>], preview: &DragPreview) -> (r: Option<
        Vec<usize>,
    >)
        ensures
            match groups_moved(
                groups::key_views(keys@),
                self.blocks@,
                preview.from,
                preview.target,
            ) {
                Some(out) => r is Some && r->0@ == out,
                None => r is None,
            },
    {
        match self.group_in_slot(preview.from) {
            Some(from) => match self.group_in_slot(preview.target) {
                Some(to) => sections::regrouped_order(keys, from, to),
                None => None,
            },
            None => None,
        }
    }
}

impl Sidebar {
    /// The order of the tabs a drag of a row within its block leads to.
    pub fn pending_rows(
        &self,
        keys: &[Option<GroupKey>],
        block: &Block,
        preview: &DragPreview,
    ) -> (r: Option<Vec<usize>>)
        ensures
            match sections::rows_after(
                groups::key_views(keys@),
                self.groups.pinned@,
                groups::option_view(block.key),
                tabs_of(block.rows@),
                preview.from as int,
                preview.target as int,
            ) {
                Some(out) => r is Some && r->0@ == out,
                None => r is None,
            },
    {
        let mut tabs: Vec<usize> = Vec::new();
        let mut i: usize = 0;
        while i < block.rows.len()
            invariant
                i <= block.rows@.len(),
                tabs@ == tabs_of(block.rows@).take(i as int),
            decreases block.rows@.len() - i,
        {
            tabs.push(block.rows[i].tab);
            i = i + 1;
            assert(tabs@ =~= tabs_of(block.rows@).take(i as int));
        }
        assert(tabs@ =~= tabs_of(block.rows@));
        sections::reordered_rows(
            keys,
            &self.groups,
            &block.key,
            tabs.as_slice(),
            preview.from,
            preview.target,
        )
    }
}

// ---- What holds of a drag ----

proof fn lemma_places_in_order(blocks: Seq<Block>, n: int)
    requires
        0 <= n <= blocks.len() <= usize::MAX,
        forall|i: int, j: int|
            0 <= i < j < blocks.len() ==> rank_of(kind_of(#[trigger] blocks[i])) <= rank_of(
                kind_of(#[trigger] blocks[j]),
            ),
    ensures
        ({
            let upto = blocks.take(n);
            places(upto, BlockKind::Kept) + places(upto, BlockKind::WorkedOut) + places(
                upto,
                BlockKind::Ungrouped,
            ) == Seq::new(n as nat, |i: int| i as usize)
        }),
    decreases n,
{
    if n > 0 {
        lemma_places_in_order(blocks, n - 1);
        let upto = blocks.take(n);
        let head = blocks.take(n - 1);
        assert(upto.drop_last() =~= head);
        assert(upto.last() == blocks[n - 1]);
        let whole = Seq::new(n as nat, |i: int| i as usize);
        let short = Seq::new((n - 1) as nat, |i: int| i as usize);
        assert(whole =~= short.push((n - 1) as usize));
        let k = kind_of(upto.last());
        if k != BlockKind::Ungrouped {
            lemma_none_of_a_later_kind(blocks, n - 1, BlockKind::Ungrouped);
        }
        if k == BlockKind::Kept {
            lemma_none_of_a_later_kind(blocks, n - 1, BlockKind::WorkedOut);
        }
        assert(places(upto, BlockKind::Kept) + places(upto, BlockKind::WorkedOut) + places(
            upto,
            BlockKind::Ungrouped,
        ) =~= whole);
    } else {
        assert(blocks.take(0) =~= Seq::<Block>::empty());
        assert(Seq::<usize>::empty() =~= Seq::new(0, |i: int| i as usize));
        assert(places(blocks.take(0), BlockKind::Kept) + places(blocks.take(0), BlockKind::WorkedOut)
            + places(blocks.take(0), BlockKind::Ungrouped) =~= Seq::<usize>::empty());
    }
}

/// The place of a kind among the kinds.
pub open spec fn rank_of(kind: BlockKind) -> int {
    match kind {
        BlockKind::Kept => 0,
        BlockKind::WorkedOut => 1,
        BlockKind::Ungrouped => 2,
    }
}

proof fn lemma_none_of_a_later_kind(blocks: Seq<Block>, n: int, kind: BlockKind)
    requires
        0 <= n < blocks.len(),
        forall|i: int, j: int|
            0 <= i < j < blocks.len() ==> rank_of(kind_of(#[trigger] blocks[i])) <= rank_of(
                kind_of(#[trigger] blocks[j]),
            ),
        rank_of(kind_of(blocks[n])) < rank_of(kind),
    ensures
        places(blocks.take(n), kind) == Seq::<usize>::empty(),
    decreases n,
{
    if n > 0 {
        let upto = blocks.take(n);
        assert(upto.drop_last() =~= blocks.take(n - 1));
        assert(upto.last() == blocks[n - 1]);
        assert(rank_of(kind_of(blocks[n - 1])) <= rank_of(kind_of(blocks[n])));
        lemma_none_of_a_later_kind(blocks, n - 1, kind);
    } else {
        assert(blocks.take(0) =~= Seq::<Block>::empty());
    }
}

proof fn lemma_in_order_as_they_stand(blocks: Seq<Block>)
    requires
        blocks.len() <= usize::MAX,
        forall|i: int, j: int|
            0 <= i < j < blocks.len() ==> rank_of(kind_of(#[trigger] blocks[i])) <= rank_of(
                kind_of(#[trigger] blocks[j]),
            ),
    ensures
        blocks_shown(blocks, None) == Seq::new(blocks.len(), |i: int| i as usize),
{
    lemma_places_in_order(blocks, blocks.len() as int);
    lemma_places(blocks, BlockKind::WorkedOut);
    assert(blocks.take(blocks.len() as int) =~= blocks);
    let autos = places(blocks, BlockKind::WorkedOut);
    let slots = slots_shown(autos.len(), None);
    assert(Seq::new(slots.len(), |k: int| autos[slots[k] as int]) =~= autos);
}

proof fn lemma_drawn_in_order(s: Seq<SectionView>, facts: Seq<RowFacts>, q: Seq<char>)
    ensures
        forall|k: int|
            0 <= k < sidebar_view::drawn_sections(s, facts, q).len() ==> 0 <= (
            #[trigger] sidebar_view::drawn_sections(s, facts, q)[k]) < s.len(),
        forall|i: int, j: int|
            0 <= i < j < sidebar_view::drawn_sections(s, facts, q).len() ==> (
            #[trigger] sidebar_view::drawn_sections(s, facts, q)[i]) < (
            #[trigger] sidebar_view::drawn_sections(s, facts, q)[j]),
    decreases s.len(),
{
    if s.len() > 0 {
        lemma_drawn_in_order(s.drop_last(), facts, q);
        let head = sidebar_view::drawn_sections(s.drop_last(), facts, q);
        let all = sidebar_view::drawn_sections(s, facts, q);
        assert forall|k: int| 0 <= k < all.len() implies 0 <= (#[trigger] all[k]) < s.len() by {
            if k < head.len() {
                assert(all[k] == head[k]);
            }
        }
        assert forall|i: int, j: int| 0 <= i < j < all.len() implies (#[trigger] all[i]) < (
        #[trigger] all[j]) by {
            assert(all[i] == head[i]);
            if j < head.len() {
                assert(all[j] == head[j]);
            }
        }
    }
}

spec fn rank_of_key(key: Option<GroupView>) -> int {
    match key {
        Some(GroupView::Pinned(_)) => 0,
        Some(GroupView::Auto(_)) => 1,
        None => 2,
    }
}

/// While nothing is dragged, the blocks of the rail are drawn as they stand.
pub proof fn a_rail_at_rest_is_drawn_in_order(
    v: SidebarView,
    keys: Seq<Option<GroupView>>,
    bar: Sidebar,
    ungrouped: Seq<char>,
    heads: Seq<Seq<char>>,
    order: Seq<usize>,
    facts: Seq<RowFacts>,
    q: Seq<char>,
    rail: RailFacts,
)
    requires
        v.blocks@.len() <= usize::MAX,
        sidebar_view::view_of(
            v,
            sections::sections_of(keys, bar.groups.pinned@, ungrouped, heads),
            bar,
            order,
            facts,
            q,
            rail,
        ),
    ensures
        blocks_shown(v.blocks@, None) == Seq::new(v.blocks@.len(), |i: int| i as usize),
{
    let p = bar.groups.pinned@;
    let ss = sections::sections_of(keys, p, ungrouped, heads);
    let drawn = sidebar_view::drawn_sections(ss, facts, q);
    lemma_drawn_in_order(ss, facts, q);
    let autos = sections::auto_order_of(keys);
    assert forall|i: int, j: int| 0 <= i < j < ss.len() implies rank_of_key(
        (#[trigger] ss[i]).key,
    ) <= rank_of_key((#[trigger] ss[j]).key) by {
        let np = p.len() as int;
        if p.len() > 0 || autos.len() > 0 {
            if i >= np && i < np + autos.len() {
                assert(ss[i].key == Some(GroupView::Auto(autos[i - np])));
            }
            if j >= np && j < np + autos.len() {
                assert(ss[j].key == Some(GroupView::Auto(autos[j - np])));
            }
        }
    }
    assert forall|i: int, j: int| 0 <= i < j < v.blocks@.len() implies rank_of(
        kind_of(#[trigger] v.blocks@[i]),
    ) <= rank_of(kind_of(#[trigger] v.blocks@[j])) by {
        assert(drawn[i] < drawn[j]);
        assert(groups::option_view(v.blocks@[i].key) == ss[drawn[i]].key);
        assert(groups::option_view(v.blocks@[j].key) == ss[drawn[j]].key);
    }
    lemma_in_order_as_they_stand(v.blocks@);
}

/// A drag moves the group it lifted to the place of the group it is let go
/// over, not the other way round.
pub proof fn a_drag_moves_the_group_it_lifted(
    keys: Seq<Option<GroupView>>,
    blocks: Seq<Block>,
    from: usize,
    target: usize,
    i: int,
)
    requires
        keys.len() <= usize::MAX,
        groups_moved(keys, blocks, from, target) is Some,
        0 <= i < sections::auto_order_of(keys).len(),
        key_in_slot(blocks, target) == Some(sections::auto_order_of(keys)[i]),
    ensures
        key_in_slot(blocks, from) is Some,
        sections::auto_order_of(
            sections::keys_in(groups_moved(keys, blocks, from, target)->0, keys),
        )[i] == key_in_slot(blocks, from)->0,
{
    let a = key_in_slot(blocks, from)->0;
    let b = key_in_slot(blocks, target)->0;
    sections::a_moved_group_takes_the_place_of_the_other(keys, a, b);
}

/// Without a drag slots are drawn in their own order; with one in the order it
/// previews.
pub proof fn a_drag_is_drawn_as_it_would_end(slots: nat, preview: Option<DragPreview>)
    ensures
        preview is None ==> slots_shown(slots, preview).len() == slots && forall|i: int|
            0 <= i < slots ==> #[trigger] slots_shown(slots, preview)[i] == i as usize,
        preview is Some ==> slots_shown(slots, preview) == preview->0.order@,
{
}

/// The rail draws the kept groups first, then the worked-out ones, then the
/// tabs without a group, whatever is dragged.
pub proof fn kept_groups_are_drawn_first(
    blocks: Seq<Block>,
    preview: Option<DragPreview>,
    i: int,
    j: int,
)
    requires
        blocks.len() <= usize::MAX,
        preview matches Some(p) ==> forall|k: int|
            0 <= k < p.order@.len() ==> #[trigger] p.order@[k] < places(
                blocks,
                BlockKind::WorkedOut,
            ).len(),
        0 <= i < j < blocks_shown(blocks, preview).len(),
    ensures
        blocks_shown(blocks, preview)[i] < blocks.len(),
        blocks_shown(blocks, preview)[j] < blocks.len(),
        blocks[blocks_shown(blocks, preview)[j] as int].key matches Some(GroupKey::Pinned(_))
            ==> (blocks[blocks_shown(blocks, preview)[i] as int].key matches Some(
            GroupKey::Pinned(_),
        )),
        blocks[blocks_shown(blocks, preview)[i] as int].key is None
            ==> blocks[blocks_shown(blocks, preview)[j] as int].key is None,
{
    let autos = places(blocks, BlockKind::WorkedOut);
    let kept = places(blocks, BlockKind::Kept);
    let rest = places(blocks, BlockKind::Ungrouped);
    let slots = slots_shown(autos.len(), preview);
    lemma_places(blocks, BlockKind::WorkedOut);
    lemma_places(blocks, BlockKind::Kept);
    lemma_places(blocks, BlockKind::Ungrouped);
    let middle = Seq::new(slots.len(), |k: int| autos[slots[k] as int]);
    let all = blocks_shown(blocks, preview);
    assert(all == kept + middle + rest);
    assert forall|k: int| 0 <= k < slots.len() implies #[trigger] slots[k] < autos.len() by {}
    assert forall|k: int| 0 <= k < all.len() implies (#[trigger] all[k]) < blocks.len() && kind_of(
        blocks[all[k] as int],
    ) == (if k < kept.len() {
        BlockKind::Kept
    } else if k < kept.len() + middle.len() {
        BlockKind::WorkedOut
    } else {
        BlockKind::Ungrouped
    }) by {
        if k < kept.len() {
            assert(all[k] == kept[k]);
        } else if k < kept.len() + middle.len() {
            assert(all[k] == middle[k - kept.len()]);
            assert(slots[k - kept.len()] < autos.len());
            assert(all[k] == autos[slots[k - kept.len()] as int]);
        } else {
            assert(all[k] == rest[k - kept.len() - middle.len()]);
        }
    }
    assert(all[i] < blocks.len());
    assert(all[j] < blocks.len());
}

/// A drag within a block moves among the tabs of its rows, in their order.
pub proof fn a_block_drags_its_own_tabs(rows: Seq<Row>, i: int)
    requires
        0 <= i < rows.len(),
    ensures
        tabs_of(rows).len() == rows.len(),
        tabs_of(rows)[i] == rows[i].tab,
{
}

/// A slot holds a worked-out group exactly where there are that many, counted
/// in the order of the blocks.
pub proof fn a_slot_holds_a_worked_out_group(blocks: Seq<Block>, slot: usize)
    requires
        blocks.len() <= usize::MAX,
    ensures
        key_in_slot(blocks, slot) is Some <==> slot < places(blocks, BlockKind::WorkedOut).len(),
        key_in_slot(blocks, slot) is Some ==> exists|k: int|
            0 <= k < blocks.len() && ((#[trigger] blocks[k]).key matches Some(GroupKey::Auto(a))
                && a@ == key_in_slot(blocks, slot)->0),
{
    lemma_places(blocks, BlockKind::WorkedOut);
    if slot < places(blocks, BlockKind::WorkedOut).len() {
        let k = places(blocks, BlockKind::WorkedOut)[slot as int];
        assert(kind_of(blocks[k as int]) == BlockKind::WorkedOut);
    }
}

} // verus!
