//! Files on the other machine: how a directory is listed, what a path, a
//! size and a mode read, and how paths are put together.

use vstd::prelude::*;
use vstd::string::*;
use crate::order;
use crate::text;

verus! {

#[derive(Clone, Copy, Debug, PartialEq, Eq, Structural)]
pub enum SftpEntryKind {
    File,
    Dir,
    Symlink,
    Other,
}

/// An entry of a remote directory.
#[derive(Debug)]
pub struct SftpEntry {
    pub name: String,
    pub kind: SftpEntryKind,
    pub size: u64,
    pub mtime: u64,
    pub permissions: u32,
    /// Whether a symbolic link leads to a directory.
    pub target_is_dir: bool,
}

impl SftpEntry {
    pub fn copy(&self) -> (r: SftpEntry)
        ensures
            r == *self,
    {
        SftpEntry {
            name: self.name.clone(),
            kind: self.kind,
            size: self.size,
            mtime: self.mtime,
            permissions: self.permissions,
            target_is_dir: self.target_is_dir,
        }
    }
}

/// Whether an entry can be gone into.
pub open spec fn dir_like(e: SftpEntry) -> bool {
    e.kind == SftpEntryKind::Dir || (e.kind == SftpEntryKind::Symlink && e.target_is_dir)
}

pub fn is_dir_like(e: &SftpEntry) -> (r: bool)
    ensures
        r == dir_like(*e),
        e.kind is Dir ==> r,
        e.kind is Symlink ==> r == e.target_is_dir,
        e.kind is File || e.kind is Other ==> !r,
{
    match e.kind {
        SftpEntryKind::Dir => true,
        SftpEntryKind::Symlink => e.target_is_dir,
        _ => false,
    }
}

/// Whether an entry's name holds what is looked for, in any case.
pub open spec fn passes(e: SftpEntry, needle: Seq<char>) -> bool {
    needle.len() == 0 || text::occurs(text::lower_of(e.name@), needle)
}

/// The places of the entries that pass.
pub open spec fn passing(entries: Seq<SftpEntry>, needle: Seq<char>) -> Seq<usize>
    decreases entries.len(),
{
    if entries.len() == 0 {
        Seq::empty()
    } else if passes(entries.last(), needle) {
        passing(entries.drop_last(), needle).push((entries.len() - 1) as usize)
    } else {
        passing(entries.drop_last(), needle)
    }
}

/// What an entry is listed by: directories first, then the name in lower case.
pub open spec fn listing_key(e: SftpEntry) -> order::KeyView {
    order::KeyView {
        major: if dir_like(e) {
            0
        } else {
            1
        },
        minor: 0,
        text: text::lower_of(e.name@),
    }
}

pub open spec fn listing_keys(entries: Seq<SftpEntry>, places: Seq<usize>) -> Seq<order::KeyView> {
    Seq::new(places.len(), |i: int| listing_key(entries[places[i] as int]))
}

/// `r` lists the entries that pass: directories first, each kind by name in
/// any case, entries of one name in the order they came.
pub open spec fn is_listing(r: Seq<&SftpEntry>, entries: Seq<SftpEntry>, needle: Seq<char>) -> bool {
    let places = passing(entries, needle);
    exists|o: Seq<usize>| #[trigger]
        order::is_stable_order(listing_keys(entries, places), o) && r.len() == o.len() && forall|
            i: int,
        |
            0 <= i < r.len() ==> *(#[trigger] r[i]) == entries[places[o[i] as int] as int]
}

proof fn lemma_passing(entries: Seq<SftpEntry>, needle: Seq<char>)
    requires
        entries.len() <= usize::MAX,
    ensures
        forall|i: int|
            0 <= i < passing(entries, needle).len() ==> (#[trigger] passing(entries, needle)[i])
                < entries.len() && passes(entries[passing(entries, needle)[i] as int], needle),
        forall|k: int|
            0 <= k < entries.len() && passes(#[trigger] entries[k], needle) ==> passing(
                entries,
                needle,
            ).contains(k as usize),
        passing(entries, needle).no_duplicates(),
        passing(entries, needle).len() <= entries.len(),
    decreases entries.len(),
{
    if entries.len() > 0 {
        let h = entries.drop_last();
        lemma_passing(h, needle);
        let a = passing(entries, needle);
        let b = passing(h, needle);
        assert forall|i: int| 0 <= i < a.len() implies (#[trigger] a[i]) < entries.len() && passes(
            entries[a[i] as int],
            needle,
        ) by {
            if i < b.len() {
                assert(a[i] == b[i]);
                assert(h[b[i] as int] == entries[b[i] as int]);
            }
        }
        assert forall|k: int| 0 <= k < entries.len() && passes(#[trigger] entries[k], needle) implies a.contains(
            k as usize,
        ) by {
            if k < h.len() {
                assert(h[k] == entries[k]);
                let w = choose|w: int| 0 <= w < b.len() && b[w] == k as usize;
                assert(a[w] == k as usize);
            } else {
                assert(a[b.len() as int] == k as usize);
            }
        }
        assert forall|x: int, y: int|
            0 <= x < a.len() && 0 <= y < a.len() && x != y implies a[x] != a[y] by {
            if x < b.len() {
                assert(a[x] == b[x] && b[x] < h.len());
            }
            if y < b.len() {
                assert(a[y] == b[y] && b[y] < h.len());
            }
        }
    }
}

/// The entries whose names hold `filter`, directories first.
pub fn sorted_filtered_entries<'a>(entries: &'a [SftpEntry], filter: &str) -> (r: Vec<
    &'a SftpEntry,
>)
    ensures
        is_listing(r@, entries@, text::needle_of(filter@)),
{
    let needle = text::needle(filter);
    let mut places: Vec<usize> = Vec::new();
    let mut keys: Vec<order::SortKey> = Vec::new();
    let mut i: usize = 0;
    assert(entries@.take(0) =~= Seq::<SftpEntry>::empty());
    while i < entries.len()
        invariant
            i <= entries@.len(),
            needle@ == text::needle_of(filter@),
            places@ == passing(entries@.take(i as int), needle@),
            keys@.len() == places@.len(),
            forall|k: int| 0 <= k < places@.len() ==> #[trigger] places@[k] < i,
            forall|k: int|
                0 <= k < keys@.len() ==> (#[trigger] keys@[k])@ == listing_key(
                    entries@[places@[k] as int],
                ),
        decreases entries@.len() - i,
    {
        assert(entries@.take(i + 1).drop_last() =~= entries@.take(i as int));
        let lower = text::to_lower(entries[i].name.as_str());
        if needle.as_str().is_empty() || text::contains(lower.as_str(), needle.as_str()) {
            let major: u64 = if is_dir_like(&entries[i]) {
                0
            } else {
                1
            };
            places.push(i);
            keys.push(order::key_of(major, 0, lower.as_str()));
        }
        i = i + 1;
    }
    assert(entries@.take(entries@.len() as int) =~= entries@);
    let o = order::stable_order(&keys);
    assert(order::key_views(keys@) =~= listing_keys(entries@, places@));
    let mut out: Vec<&'a SftpEntry> = Vec::new();
    let mut i: usize = 0;
    while i < o.len()
        invariant
            i <= o@.len(),
            places@ == passing(entries@, needle@),
            order::is_stable_order(listing_keys(entries@, places@), o@),
            forall|k: int| 0 <= k < places@.len() ==> #[trigger] places@[k] < entries@.len(),
            out@.len() == i,
            forall|k: int|
                0 <= k < i ==> *(#[trigger] out@[k]) == entries@[places@[o@[k] as int] as int],
        decreases o@.len() - i,
    {
        let at: usize = places[o[i]];
        out.push(&entries[at]);
        i = i + 1;
    }
    out
}

/// A listing holds every entry that passes, and no other.
pub proof fn a_listing_holds_what_passes(
    r: Seq<&SftpEntry>,
    entries: Seq<SftpEntry>,
    needle: Seq<char>,
)
    requires
        is_listing(r, entries, needle),
        entries.len() <= usize::MAX,
    ensures
        forall|i: int| 0 <= i < r.len() ==> passes(*(#[trigger] r[i]), needle),
        forall|k: int|
            0 <= k < entries.len() && passes(#[trigger] entries[k], needle) ==> exists|i: int|
                0 <= i < r.len() && *(#[trigger] r[i]) == entries[k],
        forall|i: int, j: int|
            0 <= i < j < r.len() && dir_like(*(#[trigger] r[j])) ==> dir_like(*(#[trigger] r[i])),
{
    let places = passing(entries, needle);
    let keys = listing_keys(entries, places);
    lemma_passing(entries, needle);
    let o = choose|o: Seq<usize>| #[trigger]
        order::is_stable_order(keys, o) && r.len() == o.len() && forall|i: int|
            0 <= i < r.len() ==> *(#[trigger] r[i]) == entries[places[o[i] as int] as int];
    assert forall|k: int| 0 <= k < entries.len() && passes(#[trigger] entries[k], needle) implies exists|
        i: int,
    |
        0 <= i < r.len() && *(#[trigger] r[i]) == entries[k] by {
        assert(places.contains(k as usize));
        let w = choose|w: int| 0 <= w < places.len() && places[w] == k as usize;
        assert(o.contains(w as usize));
        let i = choose|i: int| 0 <= i < o.len() && o[i] == w as usize;
        assert(*r[i] == entries[k]);
    }
    assert forall|i: int, j: int|
        0 <= i < j < r.len() && dir_like(*(#[trigger] r[j])) implies dir_like(
        *(#[trigger] r[i]),
    ) by {
        assert(order::goes_before(keys, o[i] as int, o[j] as int));
        assert(keys[o[i] as int] == listing_key(*r[i]));
        assert(keys[o[j] as int] == listing_key(*r[j]));
    }
}

/// What entries are ordered by when only their names count.
pub open spec fn name_keys(entries: Seq<SftpEntry>) -> Seq<order::KeyView> {
    Seq::new(
        entries.len(),
        |i: int| order::KeyView { major: 0, minor: 0, text: entries[i].name@ },
    )
}

/// The entries by name, in the order of their characters.
pub open spec fn by_name(r: Seq<SftpEntry>, entries: Seq<SftpEntry>) -> bool {
    exists|o: Seq<usize>| #[trigger]
        order::is_stable_order(name_keys(entries), o) && r.len() == o.len() && forall|i: int|
            0 <= i < r.len() ==> #[trigger] r[i] == entries[o[i] as int]
}

pub fn sort_by_name(entries: &Vec<SftpEntry>) -> (r: Vec<SftpEntry>)
    ensures
        by_name(r@, entries@),
{
    let mut keys: Vec<order::SortKey> = Vec::new();
    let mut i: usize = 0;
    let ghost want = name_keys(entries@);
    while i < entries.len()
        invariant
            i <= entries@.len(),
            want == name_keys(entries@),
            keys@.len() == i,
            forall|k: int| 0 <= k < i ==> (#[trigger] keys@[k])@ == want[k],
        decreases entries@.len() - i,
    {
        keys.push(order::key_of(0, 0, entries[i].name.as_str()));
        i = i + 1;
    }
    assert(order::key_views(keys@) =~= want);
    let o = order::stable_order(&keys);
    let mut out: Vec<SftpEntry> = Vec::new();
    let mut i: usize = 0;
    while i < o.len()
        invariant
            i <= o@.len(),
            order::is_stable_order(want, o@),
            want.len() == entries@.len(),
            out@.len() == i,
            forall|k: int| 0 <= k < i ==> #[trigger] out@[k] == entries@[o@[k] as int],
        decreases o@.len() - i,
    {
        out.push(entries[o[i]].copy());
        i = i + 1;
    }
    out
}

/// The segments of a path that hold something.
pub open spec fn segments(path: Seq<char>) -> Seq<Seq<char>> {
    held(text::pieces(path, '/'))
}

pub open spec fn held(parts: Seq<Seq<char>>) -> Seq<Seq<char>>
    decreases parts.len(),
{
    if parts.len() == 0 {
        Seq::empty()
    } else if parts.last().len() == 0 {
        held(parts.drop_last())
    } else {
        held(parts.drop_last()).push(parts.last())
    }
}

/// The path that leads to these segments.
pub open spec fn path_to(segs: Seq<Seq<char>>) -> Seq<char>
    decreases segs.len(),
{
    if segs.len() == 0 {
        Seq::empty()
    } else {
        path_to(segs.drop_last()).push('/') + segs.last()
    }
}

/// A crumb: what it reads, and where it leads.
pub open spec fn crumb_of(segs: Seq<Seq<char>>, i: int) -> (Seq<char>, Seq<char>) {
    if i == 0 {
        (seq!['/'], seq!['/'])
    } else {
        (segs[i - 1], path_to(segs.take(i)))
    }
}

/// The crumbs of a path: the root, then each segment with the path up to it.
pub open spec fn crumbs_of(path: Seq<char>) -> Seq<(Seq<char>, Seq<char>)> {
    let segs = segments(path);
    Seq::new((segs.len() + 1) as nat, |i: int| crumb_of(segs, i))
}

pub open spec fn crumb_views(v: Seq<(String, String)>) -> Seq<(Seq<char>, Seq<char>)> {
    Seq::new(v.len(), |i: int| (v[i].0@, v[i].1@))
}

fn split_held(path: &str) -> (r: Vec<String>)
    ensures
        text::views(r@) == segments(path@),
{
    let parts = text::split(path, '/');
    let ghost all = text::views(parts@);
    let mut out: Vec<String> = Vec::new();
    let mut i: usize = 0;
    assert(text::views(out@) =~= held(all.take(0)));
    while i < parts.len()
        invariant
            i <= parts@.len(),
            all == text::views(parts@),
            text::views(out@) == held(all.take(i as int)),
        decreases parts@.len() - i,
    {
        let ghost before = text::views(out@);
        assert(all.take(i + 1).drop_last() =~= all.take(i as int));
        if !parts[i].as_str().is_empty() {
            out.push(parts[i].clone());
            assert(text::views(out@) =~= before.push(all[i as int]));
        }
        i = i + 1;
    }
    assert(all.take(all.len() as int) =~= all);
    out
}

fn slash() -> (r: String)
    ensures
        r@ == seq!['/'],
{
    let mut s = String::new();
    s.push('/');
    assert(s@ =~= seq!['/']);
    s
}

/// The crumbs of a path, each with where it leads.
pub fn breadcrumb_segments(path: &str) -> (r: Vec<(String, String)>)
    ensures
        crumb_views(r@) == crumbs_of(path@),
{
    let parts = split_held(path);
    let ghost segs = text::views(parts@);
    let mut out: Vec<(String, String)> = Vec::new();
    out.push((slash(), slash()));
    let mut acc = String::new();
    let mut i: usize = 0;
    assert(segs.take(0) =~= Seq::<Seq<char>>::empty());
    assert(acc@ =~= path_to(segs.take(0)));
    assert(crumb_views(out@) =~= crumbs_of(path@).take(1));
    while i < parts.len()
        invariant
            i <= parts@.len(),
            segs == text::views(parts@),
            segs == segments(path@),
            acc@ == path_to(segs.take(i as int)),
            crumb_views(out@) == crumbs_of(path@).take(i + 1),
        decreases parts@.len() - i,
    {
        let ghost before = crumb_views(out@);
        assert(segs.take(i + 1).drop_last() =~= segs.take(i as int));
        assert(segs.take(i + 1).last() == parts@[i as int]@);
        acc.push('/');
        acc.append(parts[i].as_str());
        out.push((parts[i].clone(), acc.clone()));
        assert(crumb_views(out@) =~= before.push((segs[i as int], acc@)));
        i = i + 1;
        assert(crumb_views(out@) =~= crumbs_of(path@).take(i + 1));
    }
    assert(crumbs_of(path@).take((parts@.len() + 1) as int) =~= crumbs_of(path@));
    out
}

/// The last crumb leads to the path itself, written with one slash before
/// each segment; the first always leads to the root.
pub proof fn crumbs_lead_from_the_root_to_the_path(path: Seq<char>)
    ensures
        crumbs_of(path)[0] == (seq!['/'], seq!['/']),
        segments(path).len() > 0 ==> crumbs_of(path).last().1 == path_to(segments(path)),
        crumbs_of(path).len() == segments(path).len() + 1,
{
    let segs = segments(path);
    assert(segs.take(segs.len() as int) =~= segs);
}

/// Round to the nearest whole number of `den`s, a half to the even one.
pub open spec fn nearest(num: nat, den: nat) -> nat {
    let q = num / den;
    let twice = 2 * (num % den);
    if twice > den || (twice == den && q % 2 == 1) {
        q + 1
    } else {
        q
    }
}

/// The spacing of the numbers a binary float of 53 bits can hold around `n`.
pub open spec fn float_step(n: nat, step: nat) -> nat
    decreases n / step,
{
    if step == 0 || n < 0x20_0000_0000_0000 * step {
        step
    } else {
        proof {
            assert(n / (2 * step) < n / step) by (nonlinear_arith)
                requires
                    step > 0,
                    n >= 0x20_0000_0000_0000 * step,
            ;
        }
        float_step(n, 2 * step)
    }
}

/// The binary float of 53 bits nearest to a number of bytes.
pub open spec fn as_float(n: nat) -> nat {
    let step = float_step(n, 1);
    nearest(n, step) * step
}

fn round_nearest(num: u128, den: u128) -> (r: u128)
    requires
        0 < den < 0x1_0000_0000_0000_0000,
        num < 0x1_0000_0000_0000_0000_0000,
    ensures
        r == nearest(num as nat, den as nat),
{
    let q: u128 = num / den;
    let rem: u128 = num % den;
    if 2 * rem > den || (2 * rem == den && q % 2 == 1) {
        q + 1
    } else {
        q
    }
}

fn nearest_float(n: u64) -> (r: u128)
    ensures
        r == as_float(n as nat),
        r < 0x2_0000_0000_0000_0000,
{
    let mut step: u128 = 1;
    while n as u128 >= 0x20_0000_0000_0000 * step
        invariant
            1 <= step <= 4096,
            float_step(n as nat, 1) == float_step(n as nat, step as nat),
        decreases 4096 - step,
    {
        assert(step < 2048);
        step = 2 * step;
    }
    let q: u128 = round_nearest(n as u128, step);
    proof {
        lemma_nearest_bound(n as nat, step as nat);
        assert(q * step <= n + step) by (nonlinear_arith)
            requires
                q * step <= n + step,
        ;
    }
    q * step
}

proof fn lemma_nearest_bound(num: nat, den: nat)
    requires
        den > 0,
    ensures
        nearest(num, den) * den <= num + den,
{
    let q = num / den;
    assert(q * den <= num) by (nonlinear_arith)
        requires
            q == num / den,
            den > 0,
    ;
    assert((q + 1) * den == q * den + den) by (nonlinear_arith);
}

/// Which unit a size is written in: bytes below 1024, then by 1024 each up to
/// the fifth.
pub open spec fn size_unit(bytes: nat) -> nat {
    if bytes < 1024 {
        0
    } else if bytes < 1048576 {
        1
    } else if bytes < 1073741824 {
        2
    } else if bytes < 1099511627776 {
        3
    } else {
        4
    }
}

pub open spec fn unit_bytes(unit: nat) -> nat {
    if unit == 0 {
        1
    } else if unit == 1 {
        1024
    } else if unit == 2 {
        1048576
    } else if unit == 3 {
        1073741824
    } else {
        1099511627776
    }
}

pub open spec fn unit_letter(unit: nat) -> char {
    if unit == 1 {
        'K'
    } else if unit == 2 {
        'M'
    } else if unit == 3 {
        'G'
    } else {
        'T'
    }
}

/// A size in tenths of its unit.
pub open spec fn size_tenths(bytes: nat) -> nat {
    nearest(10 * as_float(bytes), unit_bytes(size_unit(bytes)))
}

/// What a size reads: bytes in full, anything larger to one decimal.
pub open spec fn size_text(bytes: nat) -> Seq<char> {
    if size_unit(bytes) == 0 {
        text::decimal(bytes) + seq![' ', 'B']
    } else {
        (text::decimal(size_tenths(bytes) / 10).push('.') + text::decimal(
            size_tenths(bytes) % 10,
        )).push(unit_letter(size_unit(bytes)))
    }
}

/// What a size reads.
pub fn human_size(bytes: u64) -> (r: String)
    ensures
        r@ == size_text(bytes as nat),
{
    if bytes < 1024 {
        let mut out = text::decimal_of(bytes as u128);
        out.push(' ');
        out.push('B');
        assert(out@ =~= size_text(bytes as nat));
        return out;
    }
    let (den, letter): (u128, char) = if bytes < 1048576 {
        (1024, 'K')
    } else if bytes < 1073741824 {
        (1048576, 'M')
    } else if bytes < 1099511627776 {
        (1073741824, 'G')
    } else {
        (1099511627776, 'T')
    };
    let value: u128 = nearest_float(bytes);
    let tenths: u128 = round_nearest(10 * value, den);
    let mut out = text::decimal_of(tenths / 10);
    out.push('.');
    let low = text::decimal_of(tenths % 10);
    out.append(low.as_str());
    out.push(letter);
    assert(out@ =~= size_text(bytes as nat));
    out
}

/// The letters of one octal digit of a mode.
pub open spec fn rwx(d: nat) -> Seq<char> {
    seq![
        if d / 4 % 2 == 1 {
            'r'
        } else {
            '-'
        },
        if d / 2 % 2 == 1 {
            'w'
        } else {
            '-'
        },
        if d % 2 == 1 {
            'x'
        } else {
            '-'
        },
    ]
}

/// A mode in letters: the owner's, the group's, everybody's.
pub open spec fn mode_text(mode: nat) -> Seq<char> {
    rwx(mode / 64 % 8) + rwx(mode / 8 % 8) + rwx(mode % 8)
}

fn push_rwx(out: &mut String, d: u32)
    ensures
        final(out)@ == old(out)@ + rwx(d as nat),
{
    out.push(
        if d / 4 % 2 == 1 {
            'r'
        } else {
            '-'
        },
    );
    out.push(
        if d / 2 % 2 == 1 {
            'w'
        } else {
            '-'
        },
    );
    out.push(
        if d % 2 == 1 {
            'x'
        } else {
            '-'
        },
    );
    assert(out@ =~= old(out)@ + rwx(d as nat));
}

/// A mode in letters.
pub fn mode_string(mode: u32) -> (r: String)
    ensures
        r@ == mode_text(mode as nat),
{
    let mut out = String::new();
    push_rwx(&mut out, mode / 64 % 8);
    push_rwx(&mut out, mode / 8 % 8);
    push_rwx(&mut out, mode % 8);
    assert(out@ =~= mode_text(mode as nat));
    out
}

/// A number in octal digits.
pub open spec fn octal(n: nat) -> Seq<char>
    decreases n,
{
    if n < 8 {
        seq![text::digit(n)]
    } else {
        octal(n / 8).push(text::digit(n % 8))
    }
}

/// A number in octal digits.
pub fn octal_of(n: u32) -> (r: String)
    ensures
        r@ == octal(n as nat),
    decreases n,
{
    let low: u8 = (n % 8) as u8;
    let c: char = (48 + low) as char;
    if n < 8 {
        let mut out = String::new();
        out.push(c);
        out
    } else {
        let mut out = octal_of(n / 8);
        out.push(c);
        out
    }
}

/// The value of a run of octal digits, if it is one and not empty.
pub open spec fn octal_value(s: Seq<char>) -> Option<nat>
    decreases s.len(),
{
    if s.len() == 0 {
        None
    } else if !(48 <= s.last() as int <= 55) {
        None
    } else {
        let d = (s.last() as int - 48) as nat;
        if s.len() == 1 {
            Some(d)
        } else {
            match octal_value(s.drop_last()) {
                Some(n) => Some(n * 8 + d),
                None => None,
            }
        }
    }
}

/// The mode a text stands for: octal digits, a plus sign before them or not,
/// with white space around, no more than 32 bits.
pub open spec fn mode_value(s: Seq<char>) -> Option<u32> {
    let t = text::trimmed(s);
    let digits = if t.len() > 0 && t[0] == '+' {
        t.skip(1)
    } else {
        t
    };
    match octal_value(digits) {
        Some(n) => if n <= u32::MAX {
            Some(n as u32)
        } else {
            None
        },
        None => None,
    }
}

proof fn lemma_octal_prefix(s: Seq<char>, i: int)
    requires
        1 <= i <= s.len(),
        octal_value(s.take(i)) is None,
    ensures
        octal_value(s) is None,
    decreases s.len() - i,
{
    if i < s.len() {
        assert(s.take(i + 1).drop_last() =~= s.take(i));
        lemma_octal_prefix(s, i + 1);
    } else {
        assert(s.take(i) =~= s);
    }
}

/// The mode a text stands for.
pub fn parse_mode(s: &str) -> (r: Option<u32>)
    ensures
        r == mode_value(s@),
{
    let t = text::trim(s);
    let total: usize = t.len();
    let from: usize = if total > 0 && t[0] == '+' {
        1
    } else {
        0
    };
    let v = text::part(t.as_slice(), from, total);
    let ghost digits = if t@.len() > 0 && t@[0] == '+' {
        t@.skip(1)
    } else {
        t@
    };
    assert(v@ =~= digits);
    if v.len() == 0 {
        return None;
    }
    let mut i: usize = 0;
    let mut n: u64 = 0;
    let mut over: bool = false;
    while i < v.len()
        invariant
            i <= v@.len(),
            v@ == digits,
            mode_value(s@) == match octal_value(digits) {
                Some(n) => if n <= u32::MAX {
                    Some(n as u32)
                } else {
                    None
                },
                None => None,
            },
            i == 0 ==> n == 0 && !over,
            n <= u32::MAX,
            i > 0 ==> octal_value(v@.take(i as int)) is Some,
            i > 0 && !over ==> octal_value(v@.take(i as int)) == Some(n as nat),
            i > 0 && over ==> octal_value(v@.take(i as int))->0 > u32::MAX,
        decreases v@.len() - i,
    {
        let c: u32 = text::code(v[i]);
        assert(v@.take(i + 1).drop_last() =~= v@.take(i as int));
        if c < 48 || c > 55 {
            proof {
                lemma_octal_prefix(v@, i + 1);
            }
            return None;
        }
        if !over {
            let m: u64 = n * 8 + (c - 48) as u64;
            if m > u32::MAX as u64 {
                over = true;
            } else {
                n = m;
            }
        }
        i = i + 1;
    }
    assert(v@.take(v@.len() as int) =~= v@);
    if over {
        None
    } else {
        Some(n as u32)
    }
}

proof fn lemma_octal_read_back(mode: nat)
    ensures
        octal_value(octal(mode)) == Some(mode),
        octal(mode).len() > 0,
        forall|i: int| 0 <= i < octal(mode).len() ==> 48 <= (#[trigger] octal(mode)[i]) as int <= 55,
    decreases mode,
{
    if mode >= 8 {
        lemma_octal_read_back(mode / 8);
        assert(octal(mode).drop_last() =~= octal(mode / 8));
        assert(octal(mode).last() == text::digit(mode % 8));
    }
}

/// A mode written in octal is read back as the same mode.
pub proof fn a_mode_is_read_back(mode: u32)
    ensures
        mode_value(octal(mode as nat)) == Some(mode),
{
    let s = octal(mode as nat);
    lemma_octal_read_back(mode as nat);
    assert(48 <= s[0] as int <= 55);
    assert(48 <= s[s.len() - 1] as int <= 55);
    assert(text::trimmed_start(s) == s);
    assert(text::trimmed_end(s) == s);
}

/// A name below a directory.
pub open spec fn joined_path(dir: Seq<char>, name: Seq<char>) -> Seq<char> {
    if dir.len() > 0 && dir.last() == '/' {
        dir + name
    } else {
        dir.push('/') + name
    }
}

/// The name below the directory.
pub fn remote_join(dir: &str, name: &str) -> (r: String)
    ensures
        r@ == joined_path(dir@, name@),
{
    let v = text::chars_of(dir);
    let mut out = dir.to_owned();
    if !(v.len() > 0 && v[v.len() - 1] == '/') {
        out.push('/');
    }
    out.append(name);
    out
}

/// The directory a path is in: the path of all but its last segment.
pub open spec fn parent_path(path: Seq<char>) -> Seq<char> {
    let segs = segments(path);
    if segs.len() <= 1 {
        seq!['/']
    } else {
        path_to(segs.drop_last())
    }
}

/// The directory a path is in; the root is in itself.
pub fn remote_parent(path: &str) -> (r: String)
    ensures
        r@ == parent_path(path@),
{
    let parts = split_held(path);
    let ghost segs = text::views(parts@);
    assert(segs.len() == parts@.len());
    if parts.len() <= 1 {
        return slash();
    }
    let mut out = String::new();
    let last: usize = parts.len() - 1;
    let mut i: usize = 0;
    assert(segs.take(0) =~= Seq::<Seq<char>>::empty());
    assert(out@ =~= path_to(segs.take(0)));
    while i < last
        invariant
            i <= last < parts@.len(),
            segs == text::views(parts@),
            out@ == path_to(segs.take(i as int)),
        decreases last - i,
    {
        assert(segs.take(i + 1).drop_last() =~= segs.take(i as int));
        out.push('/');
        out.append(parts[i].as_str());
        i = i + 1;
    }
    assert(segs.take(last as int) =~= segs.drop_last());
    out
}

/// The last segment of a path.
pub open spec fn base_name(path: Seq<char>) -> Seq<char> {
    let segs = segments(path);
    if segs.len() == 0 {
        path
    } else {
        segs.last()
    }
}

/// The last segment of a path; the root as it is.
pub fn remote_basename(path: &str) -> (r: String)
    ensures
        r@ == base_name(path@),
{
    let parts = split_held(path);
    assert(text::views(parts@).len() == parts@.len());
    if parts.len() == 0 {
        path.to_owned()
    } else {
        let n: usize = parts.len();
        assert(text::views(parts@).last() == parts@[n - 1]@);
        parts[n - 1].clone()
    }
}

proof fn lemma_segments_of_joined(dir: Seq<char>, name: Seq<char>)
    requires
        name.len() > 0,
        !name.contains('/'),
    ensures
        segments(joined_path(dir, name)) == segments(dir).push(name),
{
    if dir.len() > 0 && dir.last() == '/' {
        let front = dir.drop_last();
        assert(joined_path(dir, name) =~= front + seq!['/'] + name);
        text::lemma_pieces_behind(front, name, '/');
        let p = text::pieces(dir, '/');
        assert(p == text::pieces(front, '/').push(Seq::<char>::empty()));
        assert(p.drop_last() =~= text::pieces(front, '/'));
    } else {
        assert(joined_path(dir, name) =~= dir + seq!['/'] + name);
        text::lemma_pieces_behind(dir, name, '/');
    }
    let all = text::pieces(joined_path(dir, name), '/');
    assert(all.last() == name);
    assert(all.drop_last().push(name) =~= all);
    if dir.len() > 0 && dir.last() == '/' {
        assert(all.drop_last() =~= text::pieces(dir.drop_last(), '/'));
    } else {
        assert(all.drop_last() =~= text::pieces(dir, '/'));
    }
}

/// Going up from a folder that was entered leads back to where it was entered
/// from, and the last segment there was the folder's name.
pub proof fn going_up_undoes_entering(dir: Seq<char>, name: Seq<char>)
    requires
        name.len() > 0,
        !name.contains('/'),
    ensures
        segments(dir).len() > 0 ==> parent_path(joined_path(dir, name)) == path_to(segments(dir)),
        segments(dir).len() == 0 ==> parent_path(joined_path(dir, name)) == seq!['/'],
        base_name(joined_path(dir, name)) == name,
{
    lemma_segments_of_joined(dir, name);
    assert(segments(dir).push(name).drop_last() =~= segments(dir));
}

/// Whether a remote name can name a file in one local directory: it holds no
/// separator and is neither empty nor a step in the tree.
pub open spec fn names_one_file(name: Seq<char>) -> bool {
    &&& name.len() > 0
    &&& name != seq!['.']
    &&& name != seq!['.', '.']
    &&& forall|i: int|
        0 <= i < name.len() ==> #[trigger] name[i] != '/' && name[i] != '\\' && name[i] as int != 0
}

pub fn safe_local_name(name: &str) -> (r: bool)
    ensures
        r == names_one_file(name@),
{
    let v = text::chars_of(name);
    let n: usize = v.len();
    if n == 0 {
        return false;
    }
    if n == 1 && v[0] == '.' {
        assert(name@ =~= seq!['.']);
        return false;
    }
    if n == 2 && v[0] == '.' && v[1] == '.' {
        assert(name@ =~= seq!['.', '.']);
        return false;
    }
    let mut i: usize = 0;
    while i < n
        invariant
            i <= n == v@.len(),
            v@ == name@,
            forall|k: int|
                0 <= k < i ==> #[trigger] v@[k] != '/' && v@[k] != '\\' && v@[k] as int != 0,
        decreases n - i,
    {
        let c: char = v[i];
        if c == '/' || c == '\\' || text::code(c) == 0 {
            return false;
        }
        i = i + 1;
    }
    true
}

proof fn lemma_held_concat(a: Seq<Seq<char>>, b: Seq<Seq<char>>)
    ensures
        held(a + b) == held(a) + held(b),
    decreases b.len(),
{
    if b.len() == 0 {
        assert(a + b =~= a);
        assert(held(a) + held(b) =~= held(a));
    } else {
        lemma_held_concat(a, b.drop_last());
        assert((a + b).drop_last() =~= a + b.drop_last());
        assert((a + b).last() == b.last());
        assert(held(a + b) =~= held(a) + held(b));
    }
}

/// A path below a directory leads through the directory's segments and then
/// through its own, however either is written.
pub proof fn a_joined_path_goes_through_both(dir: Seq<char>, name: Seq<char>)
    ensures
        segments(joined_path(dir, name)) == segments(dir) + segments(name),
{
    if dir.len() > 0 && dir.last() == '/' {
        let front = dir.drop_last();
        assert(joined_path(dir, name) =~= front + seq!['/'] + name);
        text::lemma_pieces_around(front, name, '/');
        lemma_held_concat(text::pieces(front, '/'), text::pieces(name, '/'));
        let p = text::pieces(dir, '/');
        assert(p == text::pieces(front, '/').push(Seq::<char>::empty()));
        assert(p.drop_last() =~= text::pieces(front, '/'));
        assert(segments(dir) == segments(front));
    } else {
        assert(joined_path(dir, name) =~= dir + seq!['/'] + name);
        text::lemma_pieces_around(dir, name, '/');
        lemma_held_concat(text::pieces(dir, '/'), text::pieces(name, '/'));
    }
}

proof fn lemma_held_parts(parts: Seq<Seq<char>>)
    requires
        forall|i: int| 0 <= i < parts.len() ==> !(#[trigger] parts[i]).contains('/'),
    ensures
        forall|i: int|
            0 <= i < held(parts).len() ==> (#[trigger] held(parts)[i]).len() > 0 && !held(
                parts,
            )[i].contains('/'),
    decreases parts.len(),
{
    if parts.len() > 0 {
        let head = held(parts.drop_last());
        lemma_held_parts(parts.drop_last());
        assert forall|i: int| 0 <= i < held(parts).len() implies (#[trigger] held(parts)[i]).len()
            > 0 && !held(parts)[i].contains('/') by {
            if i < head.len() {
                assert(held(parts)[i] == head[i]);
            } else {
                assert(held(parts)[i] == parts[parts.len() - 1]);
            }
        }
    }
}

/// The segments of a path hold something, and no separator.
pub proof fn lemma_segments(path: Seq<char>)
    ensures
        forall|i: int|
            0 <= i < segments(path).len() ==> (#[trigger] segments(path)[i]).len() > 0 && !segments(
                path,
            )[i].contains('/'),
{
    text::lemma_pieces_hold_no_separator(path, '/');
    lemma_held_parts(text::pieces(path, '/'));
}

proof fn lemma_segments_of_path_to(segs: Seq<Seq<char>>)
    requires
        forall|i: int|
            0 <= i < segs.len() ==> (#[trigger] segs[i]).len() > 0 && !segs[i].contains('/'),
    ensures
        segments(path_to(segs)) == segs,
    decreases segs.len(),
{
    if segs.len() == 0 {
        assert(text::pieces(path_to(segs), '/') =~= seq![Seq::<char>::empty()]);
        assert(text::pieces(path_to(segs), '/').drop_last() =~= Seq::<Seq<char>>::empty());
        reveal_with_fuel(held, 2);
        assert(segments(path_to(segs)) =~= segs);
    } else {
        let front = segs.drop_last();
        let last = segs.last();
        lemma_segments_of_path_to(front);
        assert(path_to(segs) =~= path_to(front) + seq!['/'] + last);
        assert(segs[segs.len() - 1] == last);
        text::lemma_pieces_behind(path_to(front), last, '/');
        let p = text::pieces(path_to(segs), '/');
        assert(p.drop_last() =~= text::pieces(path_to(front), '/'));
        assert(front.push(last) =~= segs);
    }
}

/// Going up leaves out the last segment and keeps all the others; at the root
/// there is nowhere higher to go. What is left out is the name that the path
/// is known by.
pub proof fn going_up_leaves_out_the_last_segment(path: Seq<char>)
    ensures
        parent_path(path).len() > 0 && parent_path(path)[0] == '/',
        segments(path).len() == 0 ==> segments(parent_path(path)).len() == 0,
        segments(path).len() > 0 ==> segments(parent_path(path)).push(base_name(path)) == segments(
            path,
        ),
{
    let segs = segments(path);
    lemma_segments(path);
    if segs.len() <= 1 {
        let none = Seq::<Seq<char>>::empty();
        let root = seq!['/'];
        assert(root.drop_last() =~= Seq::<char>::empty());
        reveal_with_fuel(text::pieces, 2);
        assert(text::pieces(root, '/') =~= seq![Seq::<char>::empty(), Seq::<char>::empty()]);
        assert(text::pieces(root, '/').drop_last() =~= seq![Seq::<char>::empty()]);
        assert(text::pieces(root, '/').drop_last().drop_last() =~= none);
        reveal_with_fuel(held, 3);
        assert(segments(root) =~= none);
        if segs.len() == 1 {
            assert(none.push(segs.last()) =~= segs);
        }
    } else {
        let front = segs.drop_last();
        lemma_segments_of_path_to(front);
        assert(front.push(segs.last()) =~= segs);
        assert(path_to(front) =~= path_to(front.drop_last()) + seq!['/'] + front.last());
        lemma_path_to_starts(front);
    }
}

proof fn lemma_path_to_starts(segs: Seq<Seq<char>>)
    requires
        segs.len() > 0,
    ensures
        path_to(segs).len() > 0,
        path_to(segs)[0] == '/',
    decreases segs.len(),
{
    if segs.len() > 1 {
        lemma_path_to_starts(segs.drop_last());
    } else {
        assert(path_to(segs.drop_last()) =~= Seq::<char>::empty());
    }
}

/// A name without a separator is one segment.
pub proof fn lemma_one_segment(name: Seq<char>)
    requires
        name.len() > 0,
        !name.contains('/'),
    ensures
        segments(name) == seq![name],
{
    lemma_segments_of_joined(Seq::empty(), name);
    a_joined_path_goes_through_both(Seq::empty(), name);
    reveal_with_fuel(held, 2);
    assert(text::pieces(Seq::<char>::empty(), '/').drop_last() =~= Seq::<Seq<char>>::empty());
    assert(segments(Seq::<char>::empty()) =~= Seq::<Seq<char>>::empty());
    assert(Seq::<Seq<char>>::empty().push(name) =~= seq![name]);
    assert(segments(Seq::<char>::empty()) + segments(name) =~= segments(name));
}

/// A directory can be gone into, and a link to one; nothing else can.
pub proof fn only_directories_can_be_entered(e: SftpEntry)
    ensures
        e.kind is Dir ==> dir_like(e),
        e.kind is Symlink ==> (dir_like(e) <==> e.target_is_dir),
        e.kind is File || e.kind is Other ==> !dir_like(e),
{
}

/// An empty filter hides nothing.
pub proof fn an_empty_filter_hides_nothing(e: SftpEntry)
    ensures
        passes(e, text::needle_of(Seq::empty())),
{
}

/// In a listing no file stands before anything that can be gone into, and
/// within each kind the names are in order, whatever their case.
pub proof fn a_listing_is_by_kind_and_then_by_name(
    r: Seq<&SftpEntry>,
    entries: Seq<SftpEntry>,
    needle: Seq<char>,
)
    requires
        is_listing(r, entries, needle),
        entries.len() <= usize::MAX,
    ensures
        forall|i: int, j: int|
            0 <= i < j < r.len() ==> {
                ||| dir_like(*(#[trigger] r[i])) && !dir_like(*(#[trigger] r[j]))
                ||| dir_like(*r[i]) == dir_like(*r[j]) && text::text_le(
                    text::lower_of(r[i].name@),
                    text::lower_of(r[j].name@),
                )
            },
{
    let places = passing(entries, needle);
    let keys = listing_keys(entries, places);
    let o = choose|o: Seq<usize>| #[trigger]
        order::is_stable_order(keys, o) && r.len() == o.len() && forall|i: int|
            0 <= i < r.len() ==> *(#[trigger] r[i]) == entries[places[o[i] as int] as int];
    assert forall|i: int, j: int| 0 <= i < j < r.len() implies {
        ||| dir_like(*(#[trigger] r[i])) && !dir_like(*(#[trigger] r[j]))
        ||| dir_like(*r[i]) == dir_like(*r[j]) && text::text_le(
            text::lower_of(r[i].name@),
            text::lower_of(r[j].name@),
        )
    } by {
        assert(order::goes_before(keys, o[i] as int, o[j] as int));
        assert(keys[o[i] as int] == listing_key(*r[i]));
        assert(keys[o[j] as int] == listing_key(*r[j]));
    }
}

/// The entries of a directory are kept by name, every one of them and no
/// other.
pub proof fn a_directory_is_kept_by_name(r: Seq<SftpEntry>, entries: Seq<SftpEntry>)
    requires
        by_name(r, entries),
        entries.len() <= usize::MAX,
    ensures
        r.len() == entries.len(),
        forall|i: int, j: int|
            0 <= i < j < r.len() ==> text::text_le(
                (#[trigger] r[i]).name@,
                (#[trigger] r[j]).name@,
            ),
        forall|k: int| 0 <= k < entries.len() ==> r.contains(#[trigger] entries[k]),
        forall|i: int| 0 <= i < r.len() ==> entries.contains(#[trigger] r[i]),
{
    let keys = name_keys(entries);
    let o = choose|o: Seq<usize>| #[trigger]
        order::is_stable_order(keys, o) && r.len() == o.len() && forall|i: int|
            0 <= i < r.len() ==> #[trigger] r[i] == entries[o[i] as int];
    assert forall|i: int, j: int| 0 <= i < j < r.len() implies text::text_le(
        (#[trigger] r[i]).name@,
        (#[trigger] r[j]).name@,
    ) by {
        assert(order::goes_before(keys, o[i] as int, o[j] as int));
    }
    assert forall|k: int| 0 <= k < entries.len() implies r.contains(#[trigger] entries[k]) by {
        assert(o.contains(k as usize));
        let i = choose|i: int| 0 <= i < o.len() && o[i] == k as usize;
        assert(r[i] == entries[k]);
    }
    assert forall|i: int| 0 <= i < r.len() implies entries.contains(#[trigger] r[i]) by {
        assert(o[i] < entries.len());
    }
}

/// A mode reads nine letters, three each for the owner, the group and
/// everybody: reading, writing and running, each where its bit is set and a
/// dash where it is not.
pub proof fn a_mode_reads_bit_by_bit(mode: u32)
    ensures
        mode_text(mode as nat).len() == 9,
        mode_text(mode as nat)[0] == letter_if(mode / 256 % 2 == 1, 'r'),
        mode_text(mode as nat)[1] == letter_if(mode / 128 % 2 == 1, 'w'),
        mode_text(mode as nat)[2] == letter_if(mode / 64 % 2 == 1, 'x'),
        mode_text(mode as nat)[3] == letter_if(mode / 32 % 2 == 1, 'r'),
        mode_text(mode as nat)[4] == letter_if(mode / 16 % 2 == 1, 'w'),
        mode_text(mode as nat)[5] == letter_if(mode / 8 % 2 == 1, 'x'),
        mode_text(mode as nat)[6] == letter_if(mode / 4 % 2 == 1, 'r'),
        mode_text(mode as nat)[7] == letter_if(mode / 2 % 2 == 1, 'w'),
        mode_text(mode as nat)[8] == letter_if(mode % 2 == 1, 'x'),
{
    assert((mode / 64 % 8) / 4 % 2 == mode / 256 % 2 && (mode / 64 % 8) / 2 % 2 == mode / 128 % 2
        && (mode / 64 % 8) % 2 == mode / 64 % 2) by (bit_vector);
    assert((mode / 8 % 8) / 4 % 2 == mode / 32 % 2 && (mode / 8 % 8) / 2 % 2 == mode / 16 % 2
        && (mode / 8 % 8) % 2 == mode / 8 % 2) by (bit_vector);
    assert((mode % 8) / 4 % 2 == mode / 4 % 2 && (mode % 8) / 2 % 2 == mode / 2 % 2 && (mode % 8)
        % 2 == mode % 2) by (bit_vector);
}

/// A letter where it holds, a dash where it does not.
pub open spec fn letter_if(holds: bool, letter: char) -> char {
    if holds {
        letter
    } else {
        '-'
    }
}

/// A size is written in the largest unit it fills, each 1024 times the one
/// before: plain bytes below the first, and terabytes for all there is above.
pub proof fn a_size_is_written_in_the_largest_unit_it_fills(bytes: nat)
    ensures
        bytes < 1024 ==> size_text(bytes) == text::decimal(bytes) + seq![' ', 'B'],
        1024 <= bytes < 1024 * 1024 ==> size_text(bytes).last() == 'K',
        1024 * 1024 <= bytes < 1024 * 1024 * 1024 ==> size_text(bytes).last() == 'M',
        1024 * 1024 * 1024 <= bytes < 1024 * 1024 * 1024 * 1024 ==> size_text(bytes).last() == 'G',
        1024 * 1024 * 1024 * 1024 <= bytes ==> size_text(bytes).last() == 'T',
{
}

/// What a size reads is right to half a tenth of its unit, for every size that
/// a float holds exactly.
pub proof fn a_size_is_right_to_half_a_tenth(bytes: nat)
    requires
        bytes < 0x20_0000_0000_0000,
    ensures
        20 * bytes - unit_bytes(size_unit(bytes)) <= 2 * size_tenths(bytes) * unit_bytes(
            size_unit(bytes),
        ) <= 20 * bytes + unit_bytes(size_unit(bytes)),
{
    let unit = unit_bytes(size_unit(bytes));
    assert(float_step(bytes, 1) == 1);
    assert(bytes % 1 == 0 && bytes / 1 == bytes);
    assert(nearest(bytes, 1) == bytes);
    assert(as_float(bytes) == bytes);
    lemma_nearest_is_near(10 * bytes, unit);
    let t = size_tenths(bytes);
    assert(2 * t * unit == 2 * (t * unit)) by (nonlinear_arith);
}

proof fn lemma_nearest_is_near(num: nat, den: nat)
    requires
        den > 0,
    ensures
        2 * num - den <= 2 * (nearest(num, den) * den) <= 2 * num + den,
{
    let q = num / den;
    let m = num % den;
    vstd::arithmetic::div_mod::lemma_fundamental_div_mod(num as int, den as int);
    assert(den * q == q * den) by (nonlinear_arith);
    assert((q + 1) * den == q * den + den) by (nonlinear_arith);
}

/// An octal numeral is read digit by digit, each worth eight times less than
/// the one before it; anything but the digits up to seven makes it none.
pub proof fn an_octal_numeral_is_read_digit_by_digit(s: Seq<char>, c: char)
    ensures
        octal_value(Seq::empty()) is None,
        !(48 <= c as int <= 55) ==> octal_value(s.push(c)) is None,
        48 <= c as int <= 55 && s.len() == 0 ==> octal_value(s.push(c)) == Some(
            (c as int - 48) as nat,
        ),
        48 <= c as int <= 55 && s.len() > 0 && octal_value(s) is Some ==> octal_value(s.push(c))
            == Some((octal_value(s)->0 * 8 + (c as int - 48)) as nat),
        s.len() > 0 && octal_value(s) is None ==> octal_value(s.push(c)) is None,
{
    assert(s.push(c).drop_last() =~= s);
    assert(s.push(c).last() == c);
}

/// A name below a directory stands behind one slash: the directory's own where
/// it ends in one.
pub proof fn one_slash_stands_before_a_name(dir: Seq<char>, name: Seq<char>)
    ensures
        joined_path(dir.push('/'), name) == dir + seq!['/'] + name,
        dir.len() == 0 || dir.last() != '/' ==> joined_path(dir, name) == dir + seq!['/'] + name,
        joined_path(seq!['/'], name) == seq!['/'] + name,
{
    assert(dir.push('/') + name =~= dir + seq!['/'] + name);
    assert(dir.push('/').last() == '/');
}

/// The path to segments has a slash before each of them and none behind.
pub proof fn a_path_has_a_slash_before_each_segment(segs: Seq<Seq<char>>, seg: Seq<char>)
    ensures
        path_to(Seq::empty()).len() == 0,
        path_to(segs.push(seg)) == path_to(segs) + seq!['/'] + seg,
{
    assert(segs.push(seg).drop_last() =~= segs);
    assert(path_to(segs).push('/') + seg =~= path_to(segs) + seq!['/'] + seg);
}

/// A remote name can name a file here unless it is empty, a step in the tree,
/// or holds a separator of either kind or a null character.
pub proof fn a_name_that_leads_elsewhere_is_refused(name: Seq<char>, i: int)
    ensures
        !names_one_file(Seq::empty()),
        !names_one_file(seq!['.']),
        !names_one_file(seq!['.', '.']),
        0 <= i < name.len() && (name[i] == '/' || name[i] == '\\' || name[i] as int == 0)
            ==> !names_one_file(name),
        name.len() > 2 && (forall|k: int|
            0 <= k < name.len() ==> #[trigger] name[k] != '/' && name[k] != '\\' && name[k] as int
                != 0) ==> names_one_file(name),
{
}

} // verus!
