//! A stable sort, stated as the one order of the indices that it gives.

use vstd::prelude::*;
use crate::text;

verus! {

/// What an item is sorted by: a first rank, a second rank, then a text.
pub struct SortKey {
    pub major: u64,
    pub minor: u64,
    pub text: Vec<char>,
}

/// The values of a sort key.
#[verifier::ext_equal]
pub struct KeyView {
    pub major: nat,
    pub minor: nat,
    pub text: Seq<char>,
}

impl View for SortKey {
    type V = KeyView;

    open spec fn view(&self) -> KeyView {
        KeyView { major: self.major as nat, minor: self.minor as nat, text: self.text@ }
    }
}

/// The order of two keys: by first rank, then by second rank, then by text.
pub open spec fn key_le(a: KeyView, b: KeyView) -> bool {
    if a.major != b.major {
        a.major < b.major
    } else if a.minor != b.minor {
        a.minor < b.minor
    } else {
        text::text_le(a.text, b.text)
    }
}

/// Whether item `a` goes before item `b`: the smaller key first, and of equal
/// keys the one that came first.
pub open spec fn goes_before(keys: Seq<KeyView>, a: int, b: int) -> bool {
    key_le(keys[a], keys[b]) && (key_le(keys[b], keys[a]) ==> a < b)
}

/// `order` names every item once, each before those that it goes before.
pub open spec fn is_stable_order(keys: Seq<KeyView>, order: Seq<usize>) -> bool {
    &&& order.len() == keys.len()
    &&& forall|i: int| 0 <= i < order.len() ==> #[trigger] order[i] < keys.len()
    &&& forall|k: int| 0 <= k < keys.len() ==> #[trigger] order.contains(k as usize)
    &&& forall|i: int, j: int|
        0 <= i < j < order.len() ==> goes_before(keys, #[trigger] order[i] as int, #[trigger] order[j] as int)
}

/// The stable order of the keys.
pub open spec fn order_of(keys: Seq<KeyView>) -> Seq<usize> {
    choose|order: Seq<usize>| is_stable_order(keys, order)
}

pub open spec fn key_views(keys: Seq<SortKey>) -> Seq<KeyView> {
    Seq::new(keys.len(), |i: int| keys[i]@)
}

/// A key of a rank and a text.
pub fn key_of(major: u64, minor: u64, text: &str) -> (r: SortKey)
    ensures
        r@ == (KeyView { major: major as nat, minor: minor as nat, text: text@ }),
{
    SortKey { major, minor, text: text::chars_of(text) }
}

fn le_keys(a: &SortKey, b: &SortKey) -> (r: bool)
    ensures
        r == key_le(a@, b@),
{
    if a.major != b.major {
        a.major < b.major
    } else if a.minor != b.minor {
        a.minor < b.minor
    } else {
        text::le_chars(a.text.as_slice(), b.text.as_slice())
    }
}

proof fn lemma_key_total(a: KeyView, b: KeyView)
    ensures
        key_le(a, b) || key_le(b, a),
        key_le(a, a),
{
    text::lemma_text_le_total(a.text, b.text);
}

proof fn lemma_key_trans(a: KeyView, b: KeyView, c: KeyView)
    requires
        key_le(a, b),
        key_le(b, c),
    ensures
        key_le(a, c),
{
    if a.major == b.major && b.major == c.major && a.minor == b.minor && b.minor == c.minor {
        text::lemma_text_le_trans(a.text, b.text, c.text);
    }
}

/// The indices of the keys, sorted: smaller keys first, equal ones in the
/// order they came.
pub fn stable_order(keys: &Vec<SortKey>) -> (r: Vec<usize>)
    ensures
        is_stable_order(key_views(keys@), r@),
        r@ == order_of(key_views(keys@)),
{
    let mut out: Vec<usize> = Vec::new();
    let ghost kv = key_views(keys@);
    let mut i: usize = 0;
    while i < keys.len()
        invariant
            i <= keys@.len(),
            kv == key_views(keys@),
            out@.len() == i,
            forall|k: int| 0 <= k < out@.len() ==> #[trigger] out@[k] < i,
            forall|k: int| 0 <= k < i ==> #[trigger] out@.contains(k as usize),
            forall|a: int, b: int|
                0 <= a < b < out@.len() ==> goes_before(kv, #[trigger] out@[a] as int, #[trigger] out@[b] as int),
        decreases keys@.len() - i,
    {
        // The new item goes behind every key that is not greater.
        let mut at: usize = out.len();
        while at > 0 && !le_keys(&keys[out[at - 1]], &keys[i])
            invariant
                at <= out@.len() == i,
                i < keys@.len(),
                kv == key_views(keys@),
                forall|k: int| 0 <= k < out@.len() ==> #[trigger] out@[k] < i,
                forall|a: int, b: int|
                    0 <= a < b < out@.len() ==> goes_before(kv, #[trigger] out@[a] as int, #[trigger] out@[b] as int),
                forall|k: int|
                    at <= k < out@.len() ==> goes_before(kv, i as int, #[trigger] out@[k] as int),
            decreases at,
        {
            proof {
                lemma_key_total(kv[i as int], kv[out@[at - 1] as int]);
            }
            at = at - 1;
        }
        let ghost prev = out@;
        proof {
            assert forall|k: int| 0 <= k < at implies goes_before(
                kv,
                #[trigger] prev[k] as int,
                i as int,
            ) by {
                if k < at - 1 {
                    assert(goes_before(kv, prev[k] as int, prev[at - 1] as int));
                    lemma_key_trans(kv[prev[k] as int], kv[prev[at - 1] as int], kv[i as int]);
                }
            }
        }
        out.insert(at, i);
        proof {
            assert forall|k: int| 0 <= k < i + 1 implies #[trigger] out@.contains(k as usize) by {
                if k < i {
                    assert(prev.contains(k as usize));
                    let w = choose|w: int| 0 <= w < prev.len() && prev[w] == k as usize;
                    if w < at {
                        assert(out@[w] == k as usize);
                    } else {
                        assert(out@[w + 1] == k as usize);
                    }
                } else {
                    assert(out@[at as int] == k as usize);
                }
            }
            assert forall|a: int, b: int| 0 <= a < b < out@.len() implies goes_before(
                kv,
                #[trigger] out@[a] as int,
                #[trigger] out@[b] as int,
            ) by {
                let pa = if a < at { a } else { a - 1 };
                let pb = if b < at { b } else { b - 1 };
                if a != at && b != at {
                    assert(out@[a] == prev[pa]);
                    assert(out@[b] == prev[pb]);
                } else if b == at {
                    assert(out@[a] == prev[a]);
                } else {
                    assert(out@[b] == prev[b - 1]);
                }
            }
        }
        i = i + 1;
    }
    proof {
        assert(is_stable_order(kv, out@));
        assert(keys@.len() <= usize::MAX) by {
            let n: usize = keys.len();
        }
        stable_order_is_unique(kv, order_of(kv), out@);
    }
    out
}

/// Every list of keys has a stable order.
pub proof fn lemma_order_exists(keys: Seq<KeyView>)
    requires
        keys.len() <= usize::MAX,
    ensures
        is_stable_order(keys, order_of(keys)),
    decreases keys.len(),
{
    let o = sorted(keys);
    lemma_sorted(keys);
    assert(is_stable_order(keys, o));
}

/// The order, built by putting each key behind those that are not greater.
spec fn sorted(keys: Seq<KeyView>) -> Seq<usize>
    decreases keys.len(),
{
    if keys.len() == 0 {
        Seq::empty()
    } else {
        let h = sorted(keys.drop_last());
        h.insert(place_behind(keys, h), (keys.len() - 1) as usize)
    }
}

/// The end of the front part of `order` whose keys are not greater than the
/// last key.
spec fn place_behind(keys: Seq<KeyView>, order: Seq<usize>) -> int
    decreases order.len(),
{
    if order.len() == 0 {
        0
    } else if key_le(keys[order.last() as int], keys.last()) {
        order.len() as int
    } else {
        place_behind(keys, order.drop_last())
    }
}

proof fn lemma_place_behind(keys: Seq<KeyView>, order: Seq<usize>)
    ensures
        0 <= place_behind(keys, order) <= order.len(),
        place_behind(keys, order) > 0 ==> key_le(
            keys[order[place_behind(keys, order) - 1] as int],
            keys.last(),
        ),
        forall|k: int|
            place_behind(keys, order) <= k < order.len() ==> !key_le(
                keys[#[trigger] order[k] as int],
                keys.last(),
            ),
    decreases order.len(),
{
    if order.len() > 0 && !key_le(keys[order.last() as int], keys.last()) {
        let h = order.drop_last();
        lemma_place_behind(keys, h);
        assert forall|k: int| place_behind(keys, order) <= k < order.len() implies !key_le(
            keys[#[trigger] order[k] as int],
            keys.last(),
        ) by {
            if k < h.len() {
                assert(h[k] == order[k]);
            }
        }
    }
}

proof fn lemma_sorted(keys: Seq<KeyView>)
    requires
        keys.len() <= usize::MAX,
    ensures
        is_stable_order(keys, sorted(keys)),
    decreases keys.len(),
{
    if keys.len() > 0 {
        let front = keys.drop_last();
        let h = sorted(front);
        lemma_sorted(front);
        let at = place_behind(keys, h);
        lemma_place_behind(keys, h);
        let n = keys.len() - 1;
        let o = sorted(keys);
        assert(o == h.insert(at, n as usize));
        assert forall|k: int| 0 <= k < keys.len() implies #[trigger] o.contains(k as usize) by {
            if k < n {
                assert(h.contains(k as usize));
                let w = choose|w: int| 0 <= w < h.len() && h[w] == k as usize;
                if w < at {
                    assert(o[w] == k as usize);
                } else {
                    assert(o[w + 1] == k as usize);
                }
            } else {
                assert(o[at] == k as usize);
            }
        }
        assert forall|i: int, j: int| 0 <= i < j < o.len() implies goes_before(
            keys,
            #[trigger] o[i] as int,
            #[trigger] o[j] as int,
        ) by {
            if i != at && j != at {
                let p = if i < at { i } else { i - 1 };
                let q = if j < at { j } else { j - 1 };
                assert(o[i] == h[p] && o[j] == h[q]);
                assert(goes_before(front, h[p] as int, h[q] as int));
            } else if j == at {
                assert(o[i] == h[i]);
                if i < at - 1 {
                    assert(goes_before(front, h[i] as int, h[at - 1] as int));
                    lemma_key_trans(keys[h[i] as int], keys[h[at - 1] as int], keys[n]);
                }
            } else {
                assert(o[j] == h[j - 1]);
                lemma_key_total(keys[n], keys[h[j - 1] as int]);
            }
        }
        assert forall|i: int| 0 <= i < o.len() implies #[trigger] o[i] < keys.len() by {
            if i != at {
                let p = if i < at { i } else { i - 1 };
                assert(o[i] == h[p]);
            }
        }
    }
}

/// Sorting leaves nothing to choose: two stable orders of the same keys are
/// the same.
pub proof fn stable_order_is_unique(keys: Seq<KeyView>, a: Seq<usize>, b: Seq<usize>)
    requires
        is_stable_order(keys, a),
        is_stable_order(keys, b),
        keys.len() <= usize::MAX,
    ensures
        a == b,
{
    lemma_same_prefix(keys, a, b, keys.len() as int);
    assert(a.take(a.len() as int) =~= a);
    assert(b.take(b.len() as int) =~= b);
}

proof fn lemma_same_prefix(keys: Seq<KeyView>, a: Seq<usize>, b: Seq<usize>, n: int)
    requires
        is_stable_order(keys, a),
        is_stable_order(keys, b),
        keys.len() <= usize::MAX,
        0 <= n <= keys.len(),
    ensures
        a.take(n) == b.take(n),
    decreases n,
{
    if n == 0 {
        assert(a.take(0) =~= b.take(0));
    } else {
        lemma_same_prefix(keys, a, b, n - 1);
        let i = n - 1;
        assert forall|k: int| 0 <= k < i implies a[k] == b[k] by {
            assert(a.take(i)[k] == b.take(i)[k]);
        }
        if a[i] != b[i] {
            let x = a[i];
            assert(b.contains(x as int as usize));
            let j = choose|j: int| 0 <= j < b.len() && b[j] == x;
            if j < i {
                assert(a[j] == x);
                assert(goes_before(keys, a[j] as int, a[i] as int));
            }
            let y = b[i];
            assert(a.contains(y as int as usize));
            let k = choose|k: int| 0 <= k < a.len() && a[k] == y;
            if k < i {
                assert(b[k] == y);
                assert(goes_before(keys, b[k] as int, b[i] as int));
            }
            assert(goes_before(keys, b[i] as int, b[j] as int));
            assert(goes_before(keys, a[i] as int, a[k] as int));
            assert(false);
        }
        assert(a.take(n) =~= a.take(i).push(a[i]));
        assert(b.take(n) =~= b.take(i).push(b[i]));
    }
}

/// Keys are compared by their first rank; by the second only where the first
/// are equal, and by the text only where both are.
pub proof fn ranks_go_before_the_text(a: KeyView, b: KeyView)
    ensures
        a.major < b.major ==> key_le(a, b) && !key_le(b, a),
        a.major == b.major && a.minor < b.minor ==> key_le(a, b) && !key_le(b, a),
        a.major == b.major && a.minor == b.minor ==> key_le(a, b) == text::text_le(a.text, b.text),
{
}

/// A stable order names each item once, the smaller keys first, and items with
/// equal keys in the order they came.
pub proof fn equal_keys_stay_in_order(keys: Seq<KeyView>, order: Seq<usize>, i: int, j: int)
    requires
        is_stable_order(keys, order),
        0 <= i < j < order.len(),
    ensures
        order.len() == keys.len(),
        key_le(keys[order[i] as int], keys[order[j] as int]),
        keys[order[i] as int] == keys[order[j] as int] ==> order[i] < order[j],
{
    assert(goes_before(keys, order[i] as int, order[j] as int));
    lemma_key_total(keys[order[i] as int], keys[order[i] as int]);
}

} // verus!
