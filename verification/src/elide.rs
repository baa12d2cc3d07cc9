//! Cutting a text to the room there is. What fits is decided by measured
//! glyphs, so the measuring is handed in as a question about a text.

use vstd::prelude::*;
use vstd::string::*;
use crate::text;
use crate::titles;

verus! {

/// The measure gives this answer for this text.
pub open spec fn says<F: Fn(&str) -> bool>(f: F, s: Seq<char>, answer: bool) -> bool {
    exists|t: &str| #[trigger] call_ensures(f, (t,), answer) && t@ == s
}

/// The measure answers for every text.
pub open spec fn answers_all<F: Fn(&str) -> bool>(f: F) -> bool {
    forall|t: &str| #[trigger] call_requires(f, (t,))
}

/// The last `n` characters of a text.
pub open spec fn tail(s: Seq<char>, n: int) -> Seq<char> {
    s.skip(s.len() - n)
}

/// A text cut to its tail: an ellipsis and as many last characters as fit
/// behind it, or the ellipsis alone.
pub open spec fn is_tail_cut<F: Fn(&str) -> bool>(
    r: Seq<char>,
    s: Seq<char>,
    room: bool,
    fits_behind: F,
) -> bool {
    if !room {
        r == seq!['…']
    } else {
        exists|n: int|
            {
                &&& 0 <= n <= s.len()
                &&& r == seq!['…'] + #[trigger] tail(s, n)
                &&& n > 0 ==> says(fits_behind, tail(s, n), true)
                &&& n < s.len() ==> says(fits_behind, tail(s, n + 1), false)
            }
    }
}

/// Keep the longest tail that fits behind an ellipsis. `room` says whether
/// anything fits there, `fits_behind` whether a text does.
pub fn elide_tail_chars<F: Fn(&str) -> bool>(s: &str, room: bool, fits_behind: F) -> (r: String)
    requires
        answers_all(fits_behind),
    ensures
        is_tail_cut(r@, s@, room, fits_behind),
{
    let mut out = String::new();
    out.push('…');
    assert(out@ =~= seq!['…']);
    if !room {
        return out;
    }
    let chars = text::chars_of(s);
    let total: usize = chars.len();
    let mut lo: usize = 0;
    let mut hi: usize = total;
    while lo < hi
        invariant
            lo <= hi <= total == s@.len(),
            chars@ == s@,
            answers_all(fits_behind),
            lo > 0 ==> says(fits_behind, tail(s@, lo as int), true),
            hi < total ==> says(fits_behind, tail(s@, hi + 1), false),
        decreases hi - lo,
    {
        let mid: usize = hi - (hi - lo) / 2;
        let piece = text::part(chars.as_slice(), total - mid, total);
        assert(piece@ =~= tail(s@, mid as int));
        let piece = text::string_of(piece.as_slice());
        let t: &str = piece.as_str();
        let answer = fits_behind(t);
        assert(call_ensures(fits_behind, (t,), answer) && t@ == tail(s@, mid as int));
        if answer {
            lo = mid;
        } else {
            hi = mid - 1;
        }
    }
    let rest = text::part(chars.as_slice(), total - lo, total);
    assert(rest@ =~= tail(s@, lo as int));
    let rest = text::string_of(rest.as_slice());
    out.append(rest.as_str());
    out
}

/// The marker that says where a path's tree is: the leading slash, `~`, or a
/// drive letter.
pub open spec fn root_marker(first: Seq<char>) -> Seq<char> {
    if first.len() == 0 {
        seq!['/']
    } else if first == seq!['~'] {
        first
    } else if first == seq!['…'] {
        Seq::empty()
    } else if first.last() == ':' {
        first
    } else {
        Seq::empty()
    }
}

/// Whether the first segment is such a marker, or an earlier elision's, and so
/// gives way to the new elision's prefix.
pub open spec fn marker_leads(first: Seq<char>) -> bool {
    first.len() == 0 || first == seq!['~'] || first == seq!['…'] || first.last() == ':'
}

/// What stands in front of the segments that are kept.
pub open spec fn elision_prefix(first: Seq<char>) -> Seq<char> {
    let root = root_marker(first);
    if root.len() == 0 {
        seq!['…', '/']
    } else if root.last() == '/' {
        root + seq!['…', '/']
    } else {
        root + seq!['/'] + seq!['…', '/']
    }
}

/// The path with its segments from `head` on.
pub open spec fn path_candidate(segments: Seq<Seq<char>>, head: int) -> Seq<char> {
    if head == 0 {
        text::joined(segments, seq!['/'])
    } else {
        elision_prefix(segments[0]) + text::joined(segments.skip(head), seq!['/'])
    }
}

pub open spec fn first_head(segments: Seq<Seq<char>>) -> int {
    if marker_leads(segments[0]) {
        1
    } else {
        0
    }
}

/// A path cut to what fits: all of it; else its marker and the most trailing
/// segments that fit; else the tail of its last segment.
pub open spec fn is_path_cut<F: Fn(&str) -> bool, G: Fn(&str) -> bool>(
    r: Seq<char>,
    path: Seq<char>,
    fits: F,
    room: bool,
    fits_behind: G,
) -> bool {
    let p = text::trimmed(path);
    let segments = titles::path_pieces(p);
    let h0 = first_head(segments);
    ||| r == p && (p.len() == 0 || says(fits, p, true))
    ||| p.len() > 0 && says(fits, p, false) && exists|h: int|
        {
            &&& h0 <= h
            &&& h == h0 || h < segments.len()
            &&& r == #[trigger] path_candidate(segments, h)
            &&& says(fits, r, true)
            &&& forall|k: int|
                h0 <= k < h ==> says(fits, #[trigger] path_candidate(segments, k), false)
        }
    ||| p.len() > 0 && says(fits, p, false) && (forall|k: int|
        h0 <= k < segments.len() || k == h0 ==> says(
            fits,
            #[trigger] path_candidate(segments, k),
            false,
        )) && is_tail_cut(r, segments.last(), room, fits_behind)
}

fn build_prefix(first: &str) -> (r: String)
    ensures
        r@ == elision_prefix(first@),
{
    let v = text::chars_of(first);
    let n: usize = v.len();
    let mut out = String::new();
    proof {
        if n == 1 && v@[0] == '~' {
            assert(v@ =~= seq!['~']);
        }
        if n == 1 && v@[0] == '…' {
            assert(v@ =~= seq!['…']);
        }
    }
    if n == 0 {
        out.push('/');
        out.push('…');
        out.push('/');
        assert(out@ =~= elision_prefix(first@));
        return out;
    }
    if (n == 1 && v[0] == '~') || v[n - 1] == ':' {
        out.append(first);
        out.push('/');
        out.push('…');
        out.push('/');
        assert(out@ =~= elision_prefix(first@));
        return out;
    }
    out.push('…');
    out.push('/');
    assert(out@ =~= elision_prefix(first@));
    out
}

fn leads(first: &str) -> (r: bool)
    ensures
        r == marker_leads(first@),
{
    let v = text::chars_of(first);
    let n: usize = v.len();
    proof {
        if n == 1 && v@[0] == '~' {
            assert(v@ =~= seq!['~']);
        }
        if n == 1 && v@[0] == '…' {
            assert(v@ =~= seq!['…']);
        }
    }
    n == 0 || (n == 1 && (v[0] == '~' || v[0] == '…')) || v[n - 1] == ':'
}

fn slash() -> (r: String)
    ensures
        r@ == seq!['/'],
{
    let mut s = String::new();
    s.push('/');
    assert(s@ =~= seq!['/']);
    s
}

/// Cut a path from the front to what fits, keeping the marker of its tree and
/// its tail. `fits` says whether a text does; `room` and `fits_behind` say
/// what does behind an ellipsis.
pub fn elide_path_keep_tail<F: Fn(&str) -> bool, G: Fn(&str) -> bool>(
    path: &str,
    fits: F,
    room: bool,
    fits_behind: G,
) -> (r: String)
    requires
        answers_all(fits),
        answers_all(fits_behind),
    ensures
        is_path_cut(r@, path@, fits, room, fits_behind),
{
    let p = text::trim(path);
    let whole = text::string_of(p.as_slice());
    if p.len() == 0 {
        return whole;
    }
    let t: &str = whole.as_str();
    let all = fits(t);
    assert(call_ensures(fits, (t,), all) && t@ == text::trimmed(path@));
    if all {
        return whole;
    }
    let segments = titles::split_segments(p.as_slice());
    let ghost sv = text::views(segments@);
    let count: usize = segments.len();
    assert(sv.len() == count);
    let prefix = build_prefix(segments[0].as_str());
    let sep = slash();
    let kept = leads(segments[0].as_str());
    let ghost h0 = first_head(sv);
    let mut head: usize = if kept {
        1
    } else {
        0
    };
    loop
        invariant
            sv == text::views(segments@),
            sv == titles::path_pieces(text::trimmed(path@)),
            count == segments@.len() == sv.len(),
            count >= 1,
            prefix@ == elision_prefix(sv[0]),
            sep@ == seq!['/'],
            h0 == first_head(sv),
            h0 <= head <= count,
            head == h0 || head < count,
            answers_all(fits),
            answers_all(fits_behind),
            text::trimmed(path@).len() > 0,
            says(fits, text::trimmed(path@), false),
            forall|k: int|
                h0 <= k < head ==> says(fits, #[trigger] path_candidate(sv, k), false),
        decreases count - head,
    {
        let candidate = if head == 0 {
            text::join(segments.as_slice(), sep.as_str())
        } else {
            let rest = vstd::slice::slice_subrange(segments.as_slice(), head, count);
            assert(text::views(rest@) =~= sv.skip(head as int));
            let joined = text::join(rest, sep.as_str());
            let mut c = prefix.clone();
            c.append(joined.as_str());
            c
        };
        assert(candidate@ =~= path_candidate(sv, head as int));
        let t: &str = candidate.as_str();
        let ok = fits(t);
        assert(call_ensures(fits, (t,), ok) && t@ == path_candidate(sv, head as int));
        if ok {
            return candidate;
        }
        if head + 1 >= count {
            let last = &segments[count - 1];
            assert(sv.last() == last@);
            return elide_tail_chars(last.as_str(), room, fits_behind);
        }
        head = head + 1;
    }
}

/// A character that a cut in a name may land on.
pub open spec fn is_joint(c: char) -> bool {
    c == '-' || c == '_' || c == '/' || c == '.'
}

/// The first joint from `i` on, or `cap`.
pub open spec fn next_joint(s: Seq<char>, i: int, cap: int) -> int
    decreases cap - i,
{
    if i >= cap || is_joint(s[i]) {
        i
    } else {
        next_joint(s, i + 1, cap)
    }
}

/// How much of a name's head is kept: six characters, up to and with the next
/// joint if one comes before the thirteenth.
pub open spec fn kept_head(s: Seq<char>) -> int {
    let n = s.len() as int;
    let h0 = if n < 6 {
        n
    } else {
        6
    };
    let cap = if n < 12 {
        n
    } else {
        12
    };
    if h0 < cap {
        let h = next_joint(s, h0, cap);
        if h < n && is_joint(s[h]) {
            h + 1
        } else {
            h
        }
    } else {
        h0
    }
}

/// How long the last word of a name is: what stands behind its last joint.
pub open spec fn last_word(s: Seq<char>) -> int
    decreases s.len(),
{
    if s.len() == 0 || is_joint(s.last()) {
        0
    } else {
        last_word(s.drop_last()) + 1
    }
}

/// How much of the last word stands behind the head.
pub open spec fn kept_word(s: Seq<char>) -> int {
    let behind = s.len() - kept_head(s);
    if last_word(s) < behind {
        last_word(s)
    } else {
        behind
    }
}

/// How far the head may grow where there is room: to twelve characters, short
/// of the last word.
pub open spec fn head_cap(s: Seq<char>) -> int {
    let before = s.len() - kept_word(s);
    let cap = if before < 12 {
        before
    } else {
        12
    };
    if cap < kept_head(s) {
        kept_head(s)
    } else {
        cap
    }
}

/// A name with its middle left out.
pub open spec fn edges(s: Seq<char>, head: int, n: int) -> Seq<char> {
    s.take(head).push('…') + tail(s, n)
}

/// The head grew as far as the last word leaves it room: with each head up to
/// this one the word fits, with the next it does not.
pub open spec fn is_grown_head<F: Fn(&str) -> bool>(s: Seq<char>, head: int, fits: F) -> bool {
    &&& kept_head(s) <= head <= head_cap(s)
    &&& forall|k: int|
        kept_head(s) <= k <= head ==> says(fits, #[trigger] edges(s, k, kept_word(s)), true)
    &&& head < head_cap(s) ==> says(fits, edges(s, head + 1, kept_word(s)), false)
}

/// A name cut to what fits: all of it; else, where its last word fits behind
/// the shortest head, a head as long as the word leaves room for and then a
/// tail as long as the head does; else the shortest head and as much of the
/// last word as fits; else its tail alone.
pub open spec fn is_edge_cut<F: Fn(&str) -> bool, G: Fn(&str) -> bool>(
    r: Seq<char>,
    name: Seq<char>,
    fits: F,
    room: bool,
    fits_behind: G,
) -> bool {
    let s = text::trimmed(name);
    let head = kept_head(s);
    let word = kept_word(s);
    ||| r == s && (s.len() == 0 || says(fits, s, true))
    ||| s.len() > 0 && says(fits, s, false) && exists|h: int, n: int|
        {
            &&& is_grown_head(s, h, fits)
            &&& word <= n <= s.len() - h
            &&& r == #[trigger] edges(s, h, n)
            &&& says(fits, r, true)
            &&& n < s.len() - h ==> says(fits, edges(s, h, n + 1), false)
        }
    ||| s.len() > 0 && says(fits, s, false) && says(fits, edges(s, head, word), false) && exists|
        n: int,
    |
        {
            &&& 0 <= n < word
            &&& r == #[trigger] edges(s, head, n)
            &&& says(fits, r, true)
            &&& says(fits, edges(s, head, n + 1), false)
        }
    ||| s.len() > 0 && says(fits, s, false) && says(fits, edges(s, head, 0), false)
        && is_tail_cut(r, s, room, fits_behind)
}

fn joint(c: char) -> (r: bool)
    ensures
        r == is_joint(c),
{
    c == '-' || c == '_' || c == '/' || c == '.'
}

proof fn lemma_next_joint(s: Seq<char>, i: int, cap: int)
    requires
        i <= cap,
    ensures
        i <= next_joint(s, i, cap) <= cap,
    decreases cap - i,
{
    if i < cap && !is_joint(s[i]) {
        lemma_next_joint(s, i + 1, cap);
    }
}

fn head_length(chars: &[char]) -> (r: usize)
    ensures
        r == kept_head(chars@),
        r <= chars@.len(),
{
    let n: usize = chars.len();
    let h0: usize = if n < 6 {
        n
    } else {
        6
    };
    let cap: usize = if n < 12 {
        n
    } else {
        12
    };
    if h0 >= cap {
        return h0;
    }
    proof {
        lemma_next_joint(chars@, h0 as int, cap as int);
    }
    let mut h: usize = h0;
    while h < cap && !joint(chars[h])
        invariant
            h <= cap <= n == chars@.len(),
            next_joint(chars@, h0 as int, cap as int) == next_joint(chars@, h as int, cap as int),
        decreases cap - h,
    {
        h = h + 1;
    }
    if h < n && joint(chars[h]) {
        h + 1
    } else {
        h
    }
}

fn word_length(chars: &[char]) -> (r: usize)
    ensures
        r == last_word(chars@),
        r <= chars@.len(),
{
    let n: usize = chars.len();
    let mut w: usize = 0;
    assert(chars@.take(n as int) =~= chars@);
    while w < n && !joint(chars[n - 1 - w])
        invariant
            w <= n == chars@.len(),
            last_word(chars@) == last_word(chars@.take(n - w)) + w,
        decreases n - w,
    {
        assert(chars@.take(n - w).drop_last() =~= chars@.take(n - w - 1));
        w = w + 1;
    }
    w
}

fn edges_text(chars: &[char], head: usize, n: usize) -> (r: String)
    requires
        head <= chars@.len(),
        n <= chars@.len(),
    ensures
        r@ == edges(chars@, head as int, n as int),
{
    let total: usize = chars.len();
    let front = text::part(chars, 0, head);
    let mut out = text::string_of(front.as_slice());
    out.push('…');
    let back = text::part(chars, total - n, total);
    let back = text::string_of(back.as_slice());
    out.append(back.as_str());
    assert(front@ =~= chars@.take(head as int));
    assert(back@ =~= tail(chars@, n as int));
    out
}

/// Cut a name in its middle to what fits, so that both its ends stay.
pub fn elide_keep_edges<F: Fn(&str) -> bool, G: Fn(&str) -> bool>(
    name: &str,
    fits: F,
    room: bool,
    fits_behind: G,
) -> (r: String)
    requires
        answers_all(fits),
        answers_all(fits_behind),
    ensures
        is_edge_cut(r@, name@, fits, room, fits_behind),
{
    let chars = text::trim(name);
    let whole = text::string_of(chars.as_slice());
    let ghost s = text::trimmed(name@);
    if chars.len() == 0 {
        return whole;
    }
    let t: &str = whole.as_str();
    let all = fits(t);
    assert(call_ensures(fits, (t,), all) && t@ == s);
    if all {
        return whole;
    }
    let head: usize = head_length(chars.as_slice());
    let bare = edges_text(chars.as_slice(), head, 0);
    let t: &str = bare.as_str();
    let ok = fits(t);
    assert(call_ensures(fits, (t,), ok) && t@ == edges(s, head as int, 0));
    if !ok {
        return elide_tail_chars(whole.as_str(), room, fits_behind);
    }
    let total: usize = chars.len();
    let own: usize = word_length(chars.as_slice());
    let word: usize = if own < total - head {
        own
    } else {
        total - head
    };
    let t = edges_text(chars.as_slice(), head, word);
    let t: &str = t.as_str();
    let ok = fits(t);
    assert(call_ensures(fits, (t,), ok) && t@ == edges(s, head as int, word as int));
    let mut h: usize = head;
    let mut lo: usize = 0;
    let mut top: usize = 0;
    if ok {
        let before: usize = total - word;
        let cap: usize = if before < 12 {
            before
        } else {
            12
        };
        let cap: usize = if cap < head {
            head
        } else {
            cap
        };
        assert(cap == head_cap(s));
        let mut growing: bool = h < cap;
        while growing
            invariant
                head <= h <= cap,
                cap + word <= total == chars@.len(),
                chars@ == s,
                head == kept_head(s),
                word == kept_word(s),
                cap == head_cap(s),
                answers_all(fits),
                growing ==> h < cap,
                forall|k: int|
                    head <= k <= h ==> says(
                        fits,
                        #[trigger] edges(s, k, word as int),
                        true,
                    ),
                !growing && h < cap ==> says(fits, edges(s, h + 1, word as int), false),
            decreases cap - h, growing as int,
        {
            let c = edges_text(chars.as_slice(), h + 1, word);
            let t: &str = c.as_str();
            let ok = fits(t);
            assert(call_ensures(fits, (t,), ok) && t@ == edges(s, h + 1, word as int));
            if ok {
                h = h + 1;
                growing = h < cap;
            } else {
                growing = false;
            }
        }
        lo = word;
        top = total - h;
        assert(is_grown_head(s, h as int, fits));
    } else {
        if word == 0 {
            assert(says(fits, edges(s, head as int, 0), false));
            return elide_tail_chars(whole.as_str(), room, fits_behind);
        }
        top = word - 1;
    }
    let mut hi: usize = top;
    while lo < hi
        invariant
            lo <= hi <= top,
            h + top <= total == chars@.len(),
            chars@ == s,
            answers_all(fits),
            ok ==> word <= lo,
            says(fits, edges(s, h as int, lo as int), true),
            hi < top ==> says(fits, edges(s, h as int, hi + 1), false),
        decreases hi - lo,
    {
        let mid: usize = hi - (hi - lo) / 2;
        let c = edges_text(chars.as_slice(), h, mid);
        let t: &str = c.as_str();
        let ok = fits(t);
        assert(call_ensures(fits, (t,), ok) && t@ == edges(s, h as int, mid as int));
        if ok {
            lo = mid;
        } else {
            hi = mid - 1;
        }
    }
    edges_text(chars.as_slice(), h, lo)
}

/// Whether a label reads as a path.
pub open spec fn reads_as_path(s: Seq<char>) -> bool {
    s.contains('/') || s.contains('\\')
}

/// Cut a label at whichever end does not tell it from others: a path from the
/// front, anything else in its middle.
pub fn elide_label<F: Fn(&str) -> bool, G: Fn(&str) -> bool>(
    label: &str,
    fits: F,
    room: bool,
    fits_behind: G,
) -> (r: String)
    requires
        answers_all(fits),
        answers_all(fits_behind),
    ensures
        reads_as_path(label@) ==> is_path_cut(r@, label@, fits, room, fits_behind),
        !reads_as_path(label@) ==> is_edge_cut(r@, label@, fits, room, fits_behind),
{
    let v = text::chars_of(label);
    let mut i: usize = 0;
    while i < v.len()
        invariant
            i <= v@.len(),
            v@ == label@,
            forall|k: int| 0 <= k < i ==> #[trigger] v@[k] != '/' && v@[k] != '\\',
            answers_all(fits),
            answers_all(fits_behind),
        decreases v@.len() - i,
    {
        if v[i] == '/' || v[i] == '\\' {
            assert(label@[i as int] == v@[i as int]);
            return elide_path_keep_tail(label, fits, room, fits_behind);
        }
        i = i + 1;
    }
    elide_keep_edges(label, fits, room, fits_behind)
}

/// What a name was cut to was found to fit, unless all that is left of it is a
/// tail behind an ellipsis.
pub proof fn a_cut_name_fits<F: Fn(&str) -> bool, G: Fn(&str) -> bool>(
    r: Seq<char>,
    name: Seq<char>,
    fits: F,
    room: bool,
    fits_behind: G,
)
    requires
        is_edge_cut(r, name, fits, room, fits_behind),
        text::trimmed(name).len() > 0,
    ensures
        says(fits, r, true) || is_tail_cut(r, text::trimmed(name), room, fits_behind),
{
}

/// A name that is cut keeps its last word whole, where the shortest head leaves
/// it room: no measure that finds both to fit has it cut.
pub proof fn the_last_word_is_kept<F: Fn(&str) -> bool, G: Fn(&str) -> bool>(
    r: Seq<char>,
    name: Seq<char>,
    fits: F,
    room: bool,
    fits_behind: G,
)
    requires
        is_edge_cut(r, name, fits, room, fits_behind),
        last_word(text::trimmed(name)) <= text::trimmed(name).len() - kept_head(text::trimmed(name)),
        !says(fits, edges(text::trimmed(name), kept_head(text::trimmed(name)), 0), false),
        !says(
            fits,
            edges(
                text::trimmed(name),
                kept_head(text::trimmed(name)),
                last_word(text::trimmed(name)),
            ),
            false,
        ),
    ensures
        r.len() >= last_word(text::trimmed(name)),
        tail(r, last_word(text::trimmed(name))) == tail(
            text::trimmed(name),
            last_word(text::trimmed(name)),
        ),
{
    let s = text::trimmed(name);
    let w = last_word(s);
    lemma_last_word(s);
    if s.len() > 6 {
        lemma_next_joint(s, 6, if s.len() < 12 {
            s.len() as int
        } else {
            12
        });
    }
    assert(0 <= kept_head(s) <= s.len());
    assert(kept_word(s) == w);
    if r != s {
        let (h, n) = choose|h: int, n: int|
            {
                &&& is_grown_head(s, h, fits)
                &&& kept_word(s) <= n <= s.len() - h
                &&& r == #[trigger] edges(s, h, n)
                &&& says(fits, r, true)
                &&& n < s.len() - h ==> says(fits, edges(s, h, n + 1), false)
            };
        assert(s.take(h).push('…').len() == h + 1);
        assert(tail(r, w) =~= tail(s, w));
    }
}

proof fn lemma_last_word(s: Seq<char>)
    ensures
        0 <= last_word(s) <= s.len(),
    decreases s.len(),
{
    if s.len() > 0 && !is_joint(s.last()) {
        lemma_last_word(s.drop_last());
    }
}

/// What a path was cut to was found to fit, unless all that is left of it is
/// the tail of its last segment behind an ellipsis.
pub proof fn a_cut_path_fits<F: Fn(&str) -> bool, G: Fn(&str) -> bool>(
    r: Seq<char>,
    path: Seq<char>,
    fits: F,
    room: bool,
    fits_behind: G,
)
    requires
        is_path_cut(r, path, fits, room, fits_behind),
        text::trimmed(path).len() > 0,
    ensures
        says(fits, r, true) || is_tail_cut(
            r,
            titles::path_pieces(text::trimmed(path)).last(),
            room,
            fits_behind,
        ),
{
}

/// Where a tail fits, no shorter tail is found not to.
pub open spec fn shorter_tails_fit_too<F: Fn(&str) -> bool>(f: F, s: Seq<char>) -> bool {
    forall|m: int, n: int|
        0 <= n <= m <= s.len() && says(f, #[trigger] tail(s, m), true) ==> !says(
            f,
            #[trigger] tail(s, n),
            false,
        )
}

/// The tail that is kept is the longest that fits.
pub proof fn the_longest_tail_is_kept<F: Fn(&str) -> bool>(r: Seq<char>, s: Seq<char>, fits_behind: F)
    requires
        is_tail_cut(r, s, true, fits_behind),
        shorter_tails_fit_too(fits_behind, s),
    ensures
        exists|n: int|
            {
                &&& 0 <= n <= s.len()
                &&& r == seq!['…'] + #[trigger] tail(s, n)
                &&& forall|m: int|
                    n < m <= s.len() ==> !says(fits_behind, #[trigger] tail(s, m), true)
            },
{
    let n = choose|n: int|
        {
            &&& 0 <= n <= s.len()
            &&& r == seq!['…'] + #[trigger] tail(s, n)
            &&& n > 0 ==> says(fits_behind, tail(s, n), true)
            &&& n < s.len() ==> says(fits_behind, tail(s, n + 1), false)
        };
    assert forall|m: int| n < m <= s.len() implies !says(
        fits_behind,
        #[trigger] tail(s, m),
        true,
    ) by {
        assert(says(fits_behind, tail(s, n + 1), false));
    }
}

proof fn lemma_next_joint_is_first(s: Seq<char>, i: int, cap: int, k: int)
    requires
        0 <= i <= k <= cap <= s.len(),
        forall|j: int| i <= j < k ==> !is_joint(#[trigger] s[j]),
        k < cap ==> is_joint(s[k]),
    ensures
        next_joint(s, i, cap) == k,
    decreases cap - i,
{
    if i < k {
        assert(!is_joint(s[i]));
        lemma_next_joint_is_first(s, i + 1, cap, k);
    }
}

/// The head of a name that is kept is at least six characters, and ends with
/// the first joint behind those, as long as that is no further than the
/// thirteenth character; without one it is twelve. A shorter name is all
/// head.
pub proof fn a_kept_head_ends_at_a_joint(s: Seq<char>, k: int)
    ensures
        s.len() <= 6 ==> kept_head(s) == s.len(),
        6 <= k <= 12 && k < s.len() && is_joint(s[k]) && (forall|j: int|
            6 <= j < k ==> !is_joint(#[trigger] s[j])) ==> kept_head(s) == k + 1,
        6 < s.len() <= 12 && (forall|j: int| 6 <= j < s.len() ==> !is_joint(#[trigger] s[j]))
            ==> kept_head(s) == s.len(),
        s.len() > 12 && (forall|j: int| 6 <= j <= 12 ==> !is_joint(#[trigger] s[j])) ==> kept_head(s)
            == 12,
{
    let n = s.len() as int;
    let cap = if n < 12 {
        n
    } else {
        12
    };
    if n > 6 {
        if 6 <= k <= 12 && k < n && is_joint(s[k]) && (forall|j: int|
            6 <= j < k ==> !is_joint(#[trigger] s[j])) {
            lemma_next_joint_is_first(s, 6, cap, k);
        }
        if forall|j: int| 6 <= j < cap ==> !is_joint(#[trigger] s[j]) {
            lemma_next_joint_is_first(s, 6, cap, cap);
            if n > 12 && (forall|j: int| 6 <= j <= 12 ==> !is_joint(#[trigger] s[j])) {
                assert(!is_joint(s[12]));
            }
        }
    }
}

/// The last word of a name is what stands behind its last joint.
pub proof fn the_last_word_stands_behind_the_last_joint(s: Seq<char>)
    ensures
        0 <= last_word(s) <= s.len(),
        forall|i: int| s.len() - last_word(s) <= i < s.len() ==> !is_joint(#[trigger] s[i]),
        last_word(s) < s.len() ==> is_joint(s[s.len() - last_word(s) - 1]),
    decreases s.len(),
{
    if s.len() > 0 && !is_joint(s.last()) {
        let front = s.drop_last();
        the_last_word_stands_behind_the_last_joint(front);
        assert forall|i: int| s.len() - last_word(s) <= i < s.len() implies !is_joint(
            #[trigger] s[i],
        ) by {
            if i < front.len() {
                assert(front[i] == s[i]);
            }
        }
        if last_word(s) < s.len() {
            assert(front[front.len() - last_word(front) - 1] == s[s.len() - last_word(s) - 1]);
        }
    }
}

/// A name with its middle left out begins as it did and ends as it did, with
/// an ellipsis in between.
pub proof fn a_cut_name_keeps_both_ends(s: Seq<char>, head: int, n: int)
    requires
        0 <= head <= s.len(),
        0 <= n <= s.len(),
    ensures
        edges(s, head, n).len() == head + 1 + n,
        forall|i: int| 0 <= i < head ==> #[trigger] edges(s, head, n)[i] == s[i],
        edges(s, head, n)[head] == '…',
        forall|i: int|
            0 <= i < n ==> #[trigger] edges(s, head, n)[head + 1 + i] == s[s.len() - n + i],
{
}

/// A path that is cut keeps the marker of its tree: the leading slash, the
/// tilde, or the drive. Any other path begins with the ellipsis.
pub proof fn a_cut_path_keeps_its_tree(first: Seq<char>)
    ensures
        first.len() == 0 ==> elision_prefix(first) == seq!['/', '…', '/'],
        first == seq!['~'] ==> elision_prefix(first) == seq!['~', '/', '…', '/'],
        first.len() > 0 && first.last() == ':' ==> elision_prefix(first) == first + seq![
            '/',
            '…',
            '/',
        ],
        first.len() > 0 && first != seq!['~'] && first.last() != ':' ==> elision_prefix(first)
            == seq!['…', '/'],
        marker_leads(first) <==> first.len() == 0 || first == seq!['~'] || first == seq!['…']
            || first.last() == ':',
{
    if first == seq!['…'] {
        assert(first.last() == '…');
    }
    if first == seq!['~'] {
        assert(first.last() == '~');
        assert(elision_prefix(first) =~= seq!['~', '/', '…', '/']);
    }
    if first.len() == 0 {
        assert(seq!['/'] + seq!['…', '/'] =~= seq!['/', '…', '/']);
    }
    if first.len() > 0 && first.last() == ':' {
        assert(first != seq!['…']);
        assert(first != seq!['~']);
        assert(first + seq!['/'] + seq!['…', '/'] =~= first + seq!['/', '…', '/']);
    }
}

/// A path that is cut ends in its last segments, whole.
pub proof fn a_cut_path_ends_in_whole_segments(segments: Seq<Seq<char>>, head: int)
    requires
        0 <= head <= segments.len(),
        segments.len() > 0,
    ensures
        head == 0 ==> path_candidate(segments, head) == text::joined(segments, seq!['/']),
        head > 0 ==> path_candidate(segments, head) == elision_prefix(segments[0]) + text::joined(
            segments.subrange(head, segments.len() as int),
            seq!['/'],
        ),
        marker_leads(segments[0]) ==> first_head(segments) == 1,
        !marker_leads(segments[0]) ==> first_head(segments) == 0,
{
    assert(segments.skip(head) =~= segments.subrange(head, segments.len() as int));
}

/// A text cut to its tail is an ellipsis and the end of the text; without room
/// the ellipsis alone.
pub proof fn a_tail_cut_ends_as_the_text_does<F: Fn(&str) -> bool>(
    r: Seq<char>,
    s: Seq<char>,
    room: bool,
    fits_behind: F,
)
    requires
        is_tail_cut(r, s, room, fits_behind),
    ensures
        r.len() > 0 && r[0] == '…',
        !room ==> r.len() == 1,
        r.len() - 1 <= s.len(),
        forall|i: int| 1 <= i < r.len() ==> #[trigger] r[i] == s[s.len() - r.len() + i],
{
    if room {
        let n = choose|n: int|
            {
                &&& 0 <= n <= s.len()
                &&& r == seq!['…'] + #[trigger] tail(s, n)
                &&& n > 0 ==> says(fits_behind, tail(s, n), true)
                &&& n < s.len() ==> says(fits_behind, tail(s, n + 1), false)
            };
        assert(r.len() == n + 1);
    }
}

/// A label reads as a path exactly where it holds a separator of either kind.
pub proof fn a_separator_makes_a_path(s: Seq<char>, i: int)
    ensures
        0 <= i < s.len() && (s[i] == '/' || s[i] == '\\') ==> reads_as_path(s),
        (forall|k: int| 0 <= k < s.len() ==> #[trigger] s[k] != '/' && s[k] != '\\')
            ==> !reads_as_path(s),
{
}

/// Of the last word as much is kept as stands behind the head, and the head
/// grows to no more than twelve characters and never into that word, unless
/// the shortest head already goes further.
pub proof fn a_head_grows_short_of_the_last_word(s: Seq<char>)
    ensures
        last_word(s) <= s.len() - kept_head(s) ==> kept_word(s) == last_word(s),
        last_word(s) > s.len() - kept_head(s) ==> kept_word(s) == s.len() - kept_head(s),
        head_cap(s) >= kept_head(s),
        head_cap(s) > kept_head(s) ==> head_cap(s) <= 12 && head_cap(s) + kept_word(s) <= s.len(),
        head_cap(s) < 12 && head_cap(s) > kept_head(s) ==> head_cap(s) + kept_word(s) == s.len(),
{
}

/// A head grew as far as it could: it fits with the last word behind it, and
/// one more character would not, or there is no more to grow by.
pub proof fn a_grown_head_could_grow_no_further<F: Fn(&str) -> bool>(
    s: Seq<char>,
    head: int,
    fits: F,
)
    requires
        is_grown_head(s, head, fits),
    ensures
        kept_head(s) <= head <= head_cap(s),
        says(fits, edges(s, head, kept_word(s)), true),
        head < head_cap(s) ==> says(fits, edges(s, head + 1, kept_word(s)), false),
{
}

} // verus!
