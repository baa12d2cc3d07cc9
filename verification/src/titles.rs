//! What a tab is called: host prefixes stripped, the home directory
//! abbreviated, deep paths cut to their tail, and texts cut to what fits.

use vstd::prelude::*;
use vstd::string::*;
use crate::text;

verus! {

/// How many trailing segments a shortened path keeps.
pub const KEEP_SEGMENTS: usize = 3;

/// How many characters a shortened title keeps.
pub const KEEP_CHARS: usize = 40;

/// The place of the first `c` in `s`, from `i` on.
pub open spec fn first_from(s: Seq<char>, c: char, i: int) -> Option<int>
    decreases s.len() - i,
{
    if i < 0 || i >= s.len() {
        None
    } else if s[i] == c {
        Some(i)
    } else {
        first_from(s, c, i + 1)
    }
}

/// A title without the `user@host:` a shell put in front of it. A `host:`
/// without a user stays: that is a drive letter.
pub open spec fn host_stripped(s: Seq<char>) -> Seq<char> {
    match first_from(s, ':', 0) {
        Some(i) => if s.take(i).contains('@') {
            s.skip(i + 1)
        } else {
            s
        },
        None => s,
    }
}

fn find_char(s: &[char], c: char) -> (r: Option<usize>)
    ensures
        match first_from(s@, c, 0) {
            Some(i) => r is Some && r->0 == i && 0 <= i < s@.len() && s@[i] == c,
            None => r is None && !s@.contains(c),
        },
{
    let mut i: usize = 0;
    while i < s.len()
        invariant
            i <= s@.len(),
            first_from(s@, c, 0) == first_from(s@, c, i as int),
            forall|k: int| 0 <= k < i ==> s@[k] != c,
        decreases s@.len() - i,
    {
        if s[i] == c {
            return Some(i);
        }
        i = i + 1;
    }
    None
}

/// The title without a `user@host:` in front.
pub fn strip_host_prefix(raw: &str) -> (r: String)
    ensures
        r@ == host_stripped(raw@),
{
    let v = text::chars_of(raw);
    let n: usize = v.len();
    match find_char(v.as_slice(), ':') {
        Some(i) => {
            let head = text::part(v.as_slice(), 0, i);
            assert(head@ =~= raw@.take(i as int));
            match find_char(head.as_slice(), '@') {
                Some(at) => {
                    assert(raw@.take(i as int).contains('@')) by {
                        assert(head@[at as int] == '@');
                    }
                    let tail = text::part(v.as_slice(), i + 1, n);
                    assert(tail@ =~= raw@.skip(i + 1));
                    text::string_of(tail.as_slice())
                },
                None => raw.to_owned(),
            }
        },
        None => raw.to_owned(),
    }
}

/// `s` without the slashes behind.
pub open spec fn slashes_off(s: Seq<char>) -> Seq<char>
    decreases s.len(),
{
    if s.len() > 0 && s.last() == '/' {
        slashes_off(s.drop_last())
    } else {
        s
    }
}

/// A path with the home directory in front written `~`.
pub open spec fn home_abbreviated(path: Seq<char>, home: Option<Seq<char>>) -> Seq<char> {
    if path.len() > 0 && path[0] == '~' {
        path
    } else {
        match home {
            Some(h) => {
                let base = slashes_off(h);
                if base.len() == 0 {
                    path
                } else if path == base {
                    seq!['~']
                } else if text::begins_with(path, base) && path[base.len() as int] == '/' {
                    seq!['~'] + path.skip(base.len() as int)
                } else {
                    path
                }
            },
            None => path,
        }
    }
}

fn trim_slashes(s: &str) -> (r: Vec<char>)
    ensures
        r@ == slashes_off(s@),
{
    let v = text::chars_of(s);
    let mut n: usize = v.len();
    assert(v@.take(n as int) =~= v@);
    while n > 0 && v[n - 1] == '/'
        invariant
            n <= v@.len(),
            slashes_off(v@.take(n as int)) == slashes_off(v@),
        decreases n,
    {
        assert(v@.take(n as int).drop_last() =~= v@.take(n - 1));
        n = n - 1;
    }
    let out = text::part(v.as_slice(), 0, n);
    assert(out@ =~= v@.take(n as int));
    out
}

/// The path with the home directory in front written `~`.
pub fn abbreviate_home(path: &str, home: Option<&str>) -> (r: String)
    ensures
        r@ == home_abbreviated(
            path@,
            match home {
                Some(h) => Some(h@),
                None => None,
            },
        ),
{
    let v = text::chars_of(path);
    if v.len() > 0 && v[0] == '~' {
        return path.to_owned();
    }
    let home = match home {
        Some(h) => h,
        None => {
            return path.to_owned();
        },
    };
    let base = trim_slashes(home);
    if base.len() == 0 {
        return path.to_owned();
    }
    if text::same_chars(v.as_slice(), base.as_slice()) {
        let mut out = String::new();
        out.push('~');
        assert(out@ =~= seq!['~']);
        return out;
    }
    if text::starts_with(v.as_slice(), base.as_slice()) {
        let n: usize = base.len();
        if n == v.len() {
            assert(path@.take(n as int) =~= path@);
            return path.to_owned();
        }
        if v[n] == '/' {
            let rest = text::part(v.as_slice(), n, v.len());
            assert(rest@ =~= path@.skip(n as int));
            let mut out = String::new();
            out.push('~');
            let tail = text::string_of(rest.as_slice());
            out.append(tail.as_str());
            assert(out@ =~= seq!['~'] + path@.skip(n as int));
            return out;
        }
    }
    path.to_owned()
}

/// Whether a character separates the segments of a path. Shells on Windows
/// write `\\` where everything else writes `/`.
pub open spec fn separates(c: char) -> bool {
    c == '/' || c == '\\'
}

/// The segments of a path, empty ones among them.
pub open spec fn path_pieces(s: Seq<char>) -> Seq<Seq<char>>
    decreases s.len(),
{
    if s.len() == 0 {
        seq![Seq::<char>::empty()]
    } else {
        let p = path_pieces(s.drop_last());
        if separates(s.last()) {
            p.push(Seq::<char>::empty())
        } else {
            p.update(p.len() - 1, p.last().push(s.last()))
        }
    }
}

/// The segments that hold something.
pub open spec fn nonempty(parts: Seq<Seq<char>>) -> Seq<Seq<char>>
    decreases parts.len(),
{
    if parts.len() == 0 {
        Seq::empty()
    } else if parts.last().len() == 0 {
        nonempty(parts.drop_last())
    } else {
        nonempty(parts.drop_last()).push(parts.last())
    }
}

/// The segments of a path, empty ones among them.
pub fn split_segments(v: &[char]) -> (r: Vec<String>)
    ensures
        text::views(r@) == path_pieces(v@),
        r@.len() >= 1,
{
    let mut out: Vec<String> = Vec::new();
    let mut cur = String::new();
    let mut i: usize = 0;
    assert(v@.take(0) =~= Seq::<char>::empty());
    while i < v.len()
        invariant
            i <= v@.len(),
            text::views(out@).push(cur@) == path_pieces(v@.take(i as int)),
        decreases v@.len() - i,
    {
        assert(v@.take(i + 1).drop_last() =~= v@.take(i as int));
        let ghost before = text::views(out@).push(cur@);
        let c = v[i];
        if c == '/' || c == '\\' {
            out.push(cur);
            cur = String::new();
            assert(text::views(out@) =~= before);
        } else {
            cur.push(c);
            assert(text::views(out@).push(cur@) =~= before.update(
                before.len() - 1,
                before.last().push(c),
            ));
        }
        i = i + 1;
    }
    assert(v@.take(v@.len() as int) =~= v@);
    let ghost done = text::views(out@).push(cur@);
    out.push(cur);
    assert(text::views(out@) =~= done);
    out
}

fn keep_nonempty(parts: &Vec<String>) -> (r: Vec<String>)
    ensures
        text::views(r@) == nonempty(text::views(parts@)),
{
    let ghost all = text::views(parts@);
    let mut out: Vec<String> = Vec::new();
    let mut i: usize = 0;
    assert(text::views(out@) =~= nonempty(all.take(0)));
    while i < parts.len()
        invariant
            i <= parts@.len(),
            all == text::views(parts@),
            text::views(out@) == nonempty(all.take(i as int)),
        decreases parts@.len() - i,
    {
        let ghost before = text::views(out@);
        assert(all.take(i + 1).drop_last() =~= all.take(i as int));
        if !parts[i].as_str().is_empty() {
            out.push(parts[i].clone());
            assert(text::views(out@) =~= before.push(all[i as int]));
        }
        i = i + 1;
    }
    assert(all.take(all.len() as int) =~= all);
    out
}

/// Where a path starts.
#[derive(Clone, Copy, Debug, PartialEq, Eq, Structural)]
pub enum PathRoot {
    Home,
    Absolute,
    Relative,
}

pub open spec fn root_of(path: Seq<char>) -> PathRoot {
    if path.len() > 0 && path[0] == '~' && (path.len() == 1 || path[1] == '/') {
        PathRoot::Home
    } else if path.len() > 0 && path[0] == '/' {
        PathRoot::Absolute
    } else {
        PathRoot::Relative
    }
}

/// What stands behind the start of a path.
pub open spec fn body_of(path: Seq<char>) -> Seq<char> {
    match root_of(path) {
        PathRoot::Home => if path.len() == 1 {
            Seq::empty()
        } else {
            path.skip(2)
        },
        PathRoot::Absolute => path.skip(1),
        PathRoot::Relative => path,
    }
}

/// A path in at most three segments: in full if it has no more, the home
/// directory counting as one, otherwise its tail behind an ellipsis.
pub open spec fn path_label(path: Seq<char>) -> Seq<char> {
    let segments = nonempty(path_pieces(body_of(path)));
    let home: nat = if root_of(path) == PathRoot::Home {
        1
    } else {
        0
    };
    if segments.len() == 0 {
        match root_of(path) {
            PathRoot::Home => seq!['~'],
            PathRoot::Absolute => seq!['/'],
            PathRoot::Relative => Seq::empty(),
        }
    } else if segments.len() + home > KEEP_SEGMENTS {
        seq!['…', '/'] + text::joined(segments.skip(segments.len() - KEEP_SEGMENTS), seq!['/'])
    } else {
        (match root_of(path) {
            PathRoot::Home => seq!['~', '/'],
            PathRoot::Absolute => seq!['/'],
            PathRoot::Relative => Seq::empty(),
        }) + text::joined(segments, seq!['/'])
    }
}

/// The first characters of a text that is too long, with an ellipsis behind.
pub open spec fn clamped(s: Seq<char>) -> Seq<char> {
    if s.len() > KEEP_CHARS {
        s.take(KEEP_CHARS as int).push('…')
    } else {
        s
    }
}

/// A title in short.
pub open spec fn short_title_of(raw: Seq<char>, home: Option<Seq<char>>) -> Seq<char> {
    let named = text::trimmed(host_stripped(text::trimmed(raw)));
    if named.len() == 0 {
        Seq::empty()
    } else {
        clamped(path_label(home_abbreviated(named, home)))
    }
}

fn slash() -> (r: String)
    ensures
        r@ == seq!['/'],
{
    let mut s = String::new();
    s.push('/');
    assert(s@ =~= seq!['/']);
    s
}

fn label_of_path(path: &str) -> (r: String)
    ensures
        r@ == path_label(path@),
{
    let v = text::chars_of(path);
    let n: usize = v.len();
    let root = if n > 0 && v[0] == '~' && (n == 1 || v[1] == '/') {
        PathRoot::Home
    } else if n > 0 && v[0] == '/' {
        PathRoot::Absolute
    } else {
        PathRoot::Relative
    };
    let from: usize = match root {
        PathRoot::Home => if n == 1 {
            1
        } else {
            2
        },
        PathRoot::Absolute => 1,
        PathRoot::Relative => 0,
    };
    let body = text::part(v.as_slice(), from, n);
    assert(body@ =~= body_of(path@));
    let parts = split_segments(body.as_slice());
    let segments = keep_nonempty(&parts);
    let ghost sv = text::views(segments@);
    assert(sv.len() == segments@.len());
    let count: usize = segments.len();
    let mut out = String::new();
    if count == 0 {
        match root {
            PathRoot::Home => {
                out.push('~');
            },
            PathRoot::Absolute => {
                out.push('/');
            },
            PathRoot::Relative => {},
        }
        assert(out@ =~= path_label(path@));
        return out;
    }
    let over = match root {
        PathRoot::Home => count >= KEEP_SEGMENTS,
        _ => count > KEEP_SEGMENTS,
    };
    let sep = slash();
    if over {
        out.push('…');
        out.push('/');
        let tail = vstd::slice::slice_subrange(segments.as_slice(), count - KEEP_SEGMENTS, count);
        assert(text::views(tail@) =~= sv.skip(count - KEEP_SEGMENTS));
        let joined = text::join(tail, sep.as_str());
        out.append(joined.as_str());
        assert(out@ =~= path_label(path@));
    } else {
        match root {
            PathRoot::Home => {
                out.push('~');
                out.push('/');
            },
            PathRoot::Absolute => {
                out.push('/');
            },
            PathRoot::Relative => {},
        }
        let joined = text::join(segments.as_slice(), sep.as_str());
        out.append(joined.as_str());
        assert(out@ =~= path_label(path@));
    }
    out
}

/// The title in short: without a host in front, the home directory written
/// `~`, at most three segments, at most forty characters.
pub fn short_title(raw: &str, home: Option<&str>) -> (r: String)
    ensures
        r@ == short_title_of(
            raw@,
            match home {
                Some(h) => Some(h@),
                None => None,
            },
        ),
{
    let t = text::trim(raw);
    let t = text::string_of(t.as_slice());
    let after_host = strip_host_prefix(t.as_str());
    let named = text::trim(after_host.as_str());
    if named.len() == 0 {
        let out = String::new();
        assert(out@ =~= Seq::<char>::empty());
        return out;
    }
    let named = text::string_of(named.as_slice());
    let path = abbreviate_home(named.as_str(), home);
    let label = label_of_path(path.as_str());
    let chars = text::chars_of(label.as_str());
    if chars.len() > KEEP_CHARS {
        let head = text::part(chars.as_slice(), 0, KEEP_CHARS);
        assert(head@ =~= label@.take(KEEP_CHARS as int));
        let mut out = text::string_of(head.as_slice());
        out.push('…');
        out
    } else {
        label
    }
}

/// A shortened title is never longer than forty characters and an ellipsis.
pub proof fn a_short_title_is_short(raw: Seq<char>, home: Option<Seq<char>>)
    ensures
        short_title_of(raw, home).len() <= KEEP_CHARS + 1,
{
}

/// What a tab is called: the name it was given, else its title in short, else
/// the name of a shell without one.
pub open spec fn tab_label_of(
    name: Option<Seq<char>>,
    title: Seq<char>,
    unnamed: Seq<char>,
    home: Option<Seq<char>>,
) -> Seq<char> {
    if name is Some && text::trimmed(name->0).len() > 0 {
        text::trimmed(name->0)
    } else if text::trimmed(short_title_of(title, home)).len() > 0 {
        short_title_of(title, home)
    } else {
        unnamed
    }
}

pub fn tab_label(name: &Option<String>, title: &str, unnamed: &str, home: Option<&str>) -> (r: String)
    ensures
        r@ == tab_label_of(
            match *name {
                Some(n) => Some(n@),
                None => None,
            },
            title@,
            unnamed@,
            match home {
                Some(h) => Some(h@),
                None => None,
            },
        ),
{
    if let Some(n) = name {
        let t = text::trim(n.as_str());
        if t.len() > 0 {
            return text::string_of(t.as_slice());
        }
    }
    let label = short_title(title, home);
    let t = text::trim(label.as_str());
    if t.len() > 0 {
        label
    } else {
        unnamed.to_owned()
    }
}

/// The full title behind a shortened one; nothing where the tab has a name of
/// its own, has no title, or shows all of it.
pub open spec fn tooltip_of(
    name: Option<Seq<char>>,
    title: Seq<char>,
    unnamed: Seq<char>,
    home: Option<Seq<char>>,
) -> Option<Seq<char>> {
    let raw = text::trimmed(title);
    if (name is Some && text::trimmed(name->0).len() > 0) || raw.len() == 0 || raw == tab_label_of(
        name,
        title,
        unnamed,
        home,
    ) {
        None
    } else {
        Some(home_abbreviated(raw, home))
    }
}

pub fn tab_title_tooltip(
    name: &Option<String>,
    title: &str,
    unnamed: &str,
    home: Option<&str>,
) -> (r: Option<String>)
    ensures
        (match r {
            Some(s) => Some(s@),
            None => None,
        }) == tooltip_of(
            match *name {
                Some(n) => Some(n@),
                None => None,
            },
            title@,
            unnamed@,
            match home {
                Some(h) => Some(h@),
                None => None,
            },
        ),
{
    if let Some(n) = name {
        let t = text::trim(n.as_str());
        if t.len() > 0 {
            return None;
        }
    }
    let raw = text::trim(title);
    if raw.len() == 0 {
        return None;
    }
    let label = tab_label(name, title, unnamed, home);
    let lv = text::chars_of(label.as_str());
    if text::same_chars(raw.as_slice(), lv.as_slice()) {
        return None;
    }
    let raw = text::string_of(raw.as_slice());
    Some(abbreviate_home(raw.as_str(), home))
}

proof fn lemma_first_from(s: Seq<char>, c: char, i: int)
    requires
        0 <= i,
    ensures
        match first_from(s, c, i) {
            Some(k) => i <= k < s.len() && s[k] == c && forall|j: int| i <= j < k ==> s[j] != c,
            None => forall|j: int| i <= j < s.len() ==> s[j] != c,
        },
    decreases s.len() - i,
{
    if i < s.len() && s[i] != c {
        lemma_first_from(s, c, i + 1);
    }
}

/// A title that starts with a user and a host before a colon reads what stands
/// behind the colon; any other title reads as it is.
pub proof fn only_a_user_at_a_host_is_taken_off(lead: Seq<char>, rest: Seq<char>)
    requires
        !lead.contains(':'),
    ensures
        lead.contains('@') ==> host_stripped(lead + seq![':'] + rest) == rest,
        !lead.contains('@') ==> host_stripped(lead + seq![':'] + rest) == lead + seq![':'] + rest,
        host_stripped(lead) == lead,
{
    let s = lead + seq![':'] + rest;
    lemma_first_from(s, ':', 0);
    lemma_first_from(lead, ':', 0);
    assert(first_from(lead, ':', 0) is None) by {
        if let Some(k) = first_from(lead, ':', 0) {
            assert(lead[k] == ':');
        }
    }
    assert(s[lead.len() as int] == ':');
    let i = first_from(s, ':', 0)->0;
    assert(i == lead.len()) by {
        if i < lead.len() {
            assert(lead[i] == ':');
        }
    }
    assert(s.take(i) =~= lead);
    assert(s.skip(i + 1) =~= rest);
}

proof fn lemma_slashes_off(s: Seq<char>)
    ensures
        s.len() > 0 && s.last() != '/' ==> slashes_off(s) == s,
        slashes_off(s.push('/')) == slashes_off(s),
{
    assert(s.push('/').drop_last() =~= s);
}

/// The home directory reads as a tilde, and what stands below it as a path
/// behind one; a directory that only begins like it reads as it is, and so
/// does everything where no home is known.
pub proof fn only_what_is_below_home_is_abbreviated(
    home: Seq<char>,
    below: Seq<char>,
    path: Seq<char>,
)
    requires
        home.len() > 0,
        home.last() != '/',
        home[0] != '~',
    ensures
        home_abbreviated(home, Some(home)) == seq!['~'],
        home_abbreviated(home + seq!['/'] + below, Some(home)) == seq!['~', '/'] + below,
        home_abbreviated(home + seq!['/'] + below, Some(home.push('/'))) == seq!['~', '/'] + below,
        below.len() > 0 && below[0] != '/' ==> home_abbreviated(home + below, Some(home)) == home
            + below,
        !text::begins_with(path, home) ==> home_abbreviated(path, Some(home)) == path,
        home_abbreviated(path, None) == path,
{
    lemma_slashes_off(home);
    let p = home + seq!['/'] + below;
    assert(p.take(home.len() as int) =~= home);
    assert(p != home) by {
        assert(p.len() > home.len());
    }
    assert(seq!['~'] + p.skip(home.len() as int) =~= seq!['~', '/'] + below);
    if below.len() > 0 {
        let q = home + below;
        assert(q.len() > home.len());
        assert(q[home.len() as int] == below[0]);
    }
    if path == home {
        assert(path.take(home.len() as int) =~= home);
    }
}

/// A path of up to three segments, the home directory counting as one, reads
/// in full; a longer one reads an ellipsis and its last three segments.
pub proof fn a_long_path_reads_its_last_three_segments(path: Seq<char>)
    ensures
        ({
            let segs = nonempty(path_pieces(body_of(path)));
            let home: nat = if root_of(path) is Home {
                1
            } else {
                0
            };
            &&& segs.len() + home > 3 && segs.len() >= 3 ==> path_label(path) == seq!['…', '/']
                + text::joined(segs.subrange(segs.len() - 3, segs.len() as int), seq!['/'])
            &&& 0 < segs.len() && segs.len() + home <= 3 && root_of(path) is Absolute ==> path_label(
                path,
            ) == seq!['/'] + text::joined(segs, seq!['/'])
            &&& 0 < segs.len() && segs.len() + home <= 3 && root_of(path) is Home ==> path_label(path)
                == seq!['~', '/'] + text::joined(segs, seq!['/'])
            &&& 0 < segs.len() <= 3 && root_of(path) is Relative ==> path_label(path)
                == text::joined(segs, seq!['/'])
            &&& segs.len() == 0 && root_of(path) is Home ==> path_label(path) == seq!['~']
            &&& segs.len() == 0 && root_of(path) is Absolute ==> path_label(path) == seq!['/']
        }),
{
    let segs = nonempty(path_pieces(body_of(path)));
    if segs.len() >= 3 {
        assert(segs.skip(segs.len() - 3) =~= segs.subrange(segs.len() - 3, segs.len() as int));
    }
    if segs.len() > 0 && root_of(path) is Relative {
        assert(Seq::<char>::empty() + text::joined(segs, seq!['/']) =~= text::joined(
            segs,
            seq!['/'],
        ));
    }
}

/// A text of up to forty characters reads in full; a longer one reads its
/// first forty and an ellipsis.
pub proof fn a_long_text_reads_its_first_forty_characters(s: Seq<char>)
    ensures
        s.len() <= 40 ==> clamped(s) == s,
        s.len() > 40 ==> clamped(s).len() == 41 && clamped(s).last() == '…' && forall|i: int|
            0 <= i < 40 ==> #[trigger] clamped(s)[i] == s[i],
{
}

/// A tab is called by the name it was given; without one by its title in
/// short; and only without either by what a shell without a title is called.
pub proof fn a_given_name_is_what_a_tab_is_called(
    name: Option<Seq<char>>,
    title: Seq<char>,
    unnamed: Seq<char>,
    home: Option<Seq<char>>,
)
    ensures
        name is Some && text::trimmed(name->0).len() > 0 ==> tab_label_of(name, title, unnamed, home)
            == text::trimmed(name->0),
        (name is None || text::trimmed(name->0).len() == 0) && text::trimmed(
            short_title_of(title, home),
        ).len() > 0 ==> tab_label_of(name, title, unnamed, home) == short_title_of(title, home),
        (name is None || text::trimmed(name->0).len() == 0) && text::trimmed(title).len() == 0
            ==> tab_label_of(name, title, unnamed, home) == unnamed,
{
    if text::trimmed(title).len() == 0 {
        let t = text::trimmed(title);
        assert(t =~= Seq::<char>::empty());
        assert(host_stripped(t) =~= t);
        assert(text::trimmed(Seq::<char>::empty()).len() == 0);
        assert(short_title_of(title, home) =~= Seq::<char>::empty());
    }
}

/// A tooltip brings the title in full exactly where the chip reads less of it:
/// not where the tab was given a name, has no title, or reads all of it.
pub proof fn a_tooltip_brings_what_the_chip_leaves_out(
    name: Option<Seq<char>>,
    title: Seq<char>,
    unnamed: Seq<char>,
    home: Option<Seq<char>>,
)
    ensures
        name is Some && text::trimmed(name->0).len() > 0 ==> tooltip_of(name, title, unnamed, home)
            is None,
        text::trimmed(title).len() == 0 ==> tooltip_of(name, title, unnamed, home) is None,
        tab_label_of(name, title, unnamed, home) == text::trimmed(title) ==> tooltip_of(
            name,
            title,
            unnamed,
            home,
        ) is None,
        (name is None || text::trimmed(name->0).len() == 0) && text::trimmed(title).len() > 0
            && tab_label_of(name, title, unnamed, home) != text::trimmed(title) ==> tooltip_of(
            name,
            title,
            unnamed,
            home,
        ) == Some(home_abbreviated(text::trimmed(title), home)),
{
}

/// A short title is the end of its path, in short: without the blanks, the
/// user and the host around it. A blank title is none.
pub proof fn a_short_title_reads_the_end_of_its_path(raw: Seq<char>, home: Option<Seq<char>>)
    ensures
        text::trimmed(host_stripped(text::trimmed(raw))).len() == 0 ==> short_title_of(
            raw,
            home,
        ).len() == 0,
        text::trimmed(host_stripped(text::trimmed(raw))).len() > 0 ==> short_title_of(raw, home)
            == clamped(
            path_label(
                home_abbreviated(text::trimmed(host_stripped(text::trimmed(raw))), home),
            ),
        ),
{
}

/// Segments end at a slash and at a backslash alike.
pub proof fn either_separator_ends_a_segment(s: Seq<char>, c: char)
    ensures
        path_pieces(Seq::empty()) == seq![Seq::<char>::empty()],
        c == '/' || c == '\\' ==> path_pieces(s.push(c)) == path_pieces(s).push(
            Seq::<char>::empty(),
        ),
        c != '/' && c != '\\' ==> path_pieces(s.push(c)).len() == path_pieces(s).len()
            && path_pieces(s.push(c)).last() == path_pieces(s).last().push(c),
{
    assert(s.push(c).drop_last() =~= s);
    lemma_has_pieces(s);
}

proof fn lemma_has_pieces(s: Seq<char>)
    ensures
        path_pieces(s).len() > 0,
    decreases s.len(),
{
    if s.len() > 0 {
        lemma_has_pieces(s.drop_last());
    }
}

} // verus!
