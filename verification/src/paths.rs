//! Paths of the machine the tabs run on, read by their components.

use vstd::prelude::*;
use vstd::string::*;
use crate::text;

verus! {

/// A path as it was written, and the rules it is read by: on Windows a
/// backslash separates too, and a path may start at a drive or at a share.
/// Two paths are the same where their components are, however they were
/// written.
#[derive(Clone, Debug)]
pub struct FolderPath {
    pub text: String,
    pub windows: bool,
}

/// A component of a path.
#[derive(Debug)]
pub enum Component {
    /// A drive, by the code of its letter in lower case.
    Drive(u32),
    /// A machine, and what it shares.
    Share(String, String),
    Root,
    /// The `.` a path that does not start at a root may start with.
    Here,
    Part(String),
}

pub enum ComponentView {
    Drive(int),
    Share(Seq<char>, Seq<char>),
    Root,
    Here,
    Part(Seq<char>),
}

impl View for Component {
    type V = ComponentView;

    open spec fn view(&self) -> ComponentView {
        match self {
            Component::Drive(c) => ComponentView::Drive(*c as int),
            Component::Share(a, b) => ComponentView::Share(a@, b@),
            Component::Root => ComponentView::Root,
            Component::Here => ComponentView::Here,
            Component::Part(s) => ComponentView::Part(s@),
        }
    }
}

pub open spec fn component_views(v: Seq<Component>) -> Seq<ComponentView> {
    Seq::new(v.len(), |i: int| v[i]@)
}

/// A path with one separator, the slash, throughout.
pub open spec fn slashed(path: Seq<char>, windows: bool) -> Seq<char> {
    Seq::new(
        path.len(),
        |i: int|
            if windows && path[i] == '\\' {
                '/'
            } else {
                path[i]
            },
    )
}

/// Where the first slash at `i` or behind it stands; the end without one.
pub open spec fn next_slash(t: Seq<char>, i: int) -> int
    decreases t.len() - i,
{
    if i < 0 || i >= t.len() {
        t.len() as int
    } else if t[i] == '/' {
        i
    } else {
        next_slash(t, i + 1)
    }
}

/// Whether a path starts at a share: two slashes, the machine, a slash, and
/// what it shares. A path that starts with `\\?\` is read the same way, as if
/// `?` were a machine.
pub open spec fn has_share(t: Seq<char>) -> bool {
    let a = next_slash(t, 2);
    &&& t.len() >= 2 && t[0] == '/' && t[1] == '/'
    &&& 2 < a < t.len()
    &&& a + 1 < next_slash(t, a + 1)
}

/// Whether a path starts at a drive: a letter and a colon.
pub open spec fn has_drive(t: Seq<char>) -> bool {
    t.len() >= 2 && 97 <= text::ascii_lower(t[0]) <= 122 && t[1] == ':'
}

/// Whether a path without what stands before it starts at the root.
pub open spec fn is_rooted(t: Seq<char>) -> bool {
    t.len() > 0 && t[0] == '/'
}

/// Whether it starts with `.`, alone or before a slash.
pub open spec fn starts_here(t: Seq<char>) -> bool {
    t.len() > 0 && t[0] == '.' && (t.len() == 1 || t[1] == '/')
}

/// The pieces of a path that count: neither empty nor `.`.
pub open spec fn counted(pieces: Seq<Seq<char>>) -> Seq<ComponentView>
    decreases pieces.len(),
{
    if pieces.len() == 0 {
        Seq::empty()
    } else if pieces.last().len() == 0 || pieces.last() == seq!['.'] {
        counted(pieces.drop_last())
    } else {
        counted(pieces.drop_last()).push(ComponentView::Part(pieces.last()))
    }
}

/// The components behind a drive, or of a path that starts at neither a drive
/// nor a share.
pub open spec fn plain_components(t: Seq<char>) -> Seq<ComponentView> {
    let front = if is_rooted(t) {
        seq![ComponentView::Root]
    } else if starts_here(t) {
        seq![ComponentView::Here]
    } else {
        Seq::empty()
    };
    front + counted(text::pieces(t, '/'))
}

/// The components of a path. A share has its root with or without a slash
/// behind it.
pub open spec fn components_of(path: Seq<char>, windows: bool) -> Seq<ComponentView> {
    let t = slashed(path, windows);
    if windows && has_share(t) {
        let a = next_slash(t, 2);
        let b = next_slash(t, a + 1);
        seq![
            ComponentView::Share(t.subrange(2, a), t.subrange(a + 1, b)),
            ComponentView::Root,
        ] + counted(text::pieces(t.skip(b), '/'))
    } else if windows && has_drive(t) {
        seq![ComponentView::Drive(text::ascii_lower(t[0]))] + plain_components(t.skip(2))
    } else {
        plain_components(t)
    }
}

/// The components that name something: `..` does not.
pub open spec fn names_of(v: Seq<ComponentView>) -> Seq<Seq<char>>
    decreases v.len(),
{
    if v.len() == 0 {
        Seq::empty()
    } else {
        match v.last() {
            ComponentView::Part(s) => if s == seq!['.', '.'] {
                names_of(v.drop_last())
            } else {
                names_of(v.drop_last()).push(s)
            },
            _ => names_of(v.drop_last()),
        }
    }
}

/// Whether a path is a folder or stands below it.
pub open spec fn within(path: Seq<ComponentView>, folder: Seq<ComponentView>) -> bool {
    folder.len() <= path.len() && path.take(folder.len() as int) == folder
}

impl View for FolderPath {
    type V = Seq<ComponentView>;

    open spec fn view(&self) -> Seq<ComponentView> {
        components_of(self.text@, self.windows)
    }
}

pub open spec fn option_view(p: Option<FolderPath>) -> Option<Seq<ComponentView>> {
    match p {
        Some(p) => Some(p@),
        None => None,
    }
}

pub open spec fn option_ref_view(p: Option<&FolderPath>) -> Option<Seq<ComponentView>> {
    match p {
        Some(p) => Some(p@),
        None => None,
    }
}

fn is_dot(s: &str) -> (r: bool)
    ensures
        r == (s@ == seq!['.']),
{
    let v = text::chars_of(s);
    let r = v.len() == 1 && v[0] == '.';
    proof {
        if r {
            assert(s@ =~= seq!['.']);
        }
    }
    r
}

fn is_dot_dot(s: &str) -> (r: bool)
    ensures
        r == (s@ == seq!['.', '.']),
{
    let v = text::chars_of(s);
    let r = v.len() == 2 && v[0] == '.' && v[1] == '.';
    proof {
        if r {
            assert(s@ =~= seq!['.', '.']);
        }
    }
    r
}

fn with_slashes(path: &str, windows: bool) -> (r: Vec<char>)
    ensures
        r@ == slashed(path@, windows),
{
    let v = text::chars_of(path);
    let mut out: Vec<char> = Vec::new();
    let mut i: usize = 0;
    while i < v.len()
        invariant
            i <= v@.len(),
            v@ == path@,
            out@ == slashed(path@, windows).take(i as int),
        decreases v@.len() - i,
    {
        if windows && v[i] == '\\' {
            out.push('/');
        } else {
            out.push(v[i]);
        }
        i = i + 1;
        assert(out@ =~= slashed(path@, windows).take(i as int));
    }
    assert(out@ =~= slashed(path@, windows));
    out
}

fn find_slash(t: &Vec<char>, from: usize) -> (r: usize)
    requires
        from <= t@.len(),
    ensures
        r == next_slash(t@, from as int),
        from <= r <= t@.len(),
{
    let mut i: usize = from;
    while i < t.len() && t[i] != '/'
        invariant
            from <= i <= t@.len(),
            next_slash(t@, i as int) == next_slash(t@, from as int),
        decreases t@.len() - i,
    {
        i = i + 1;
    }
    i
}

fn push_counted(out: &mut Vec<Component>, t: &Vec<char>, from: usize)
    requires
        from <= t@.len(),
    ensures
        component_views(final(out)@) == component_views(old(out)@) + counted(
            text::pieces(t@.skip(from as int), '/'),
        ),
{
    let rest = text::part(t.as_slice(), from, t.len());
    assert(rest@ =~= t@.skip(from as int));
    let rest = text::string_of(rest.as_slice());
    let parts = text::split(rest.as_str(), '/');
    let ghost all = text::views(parts@);
    let ghost front = component_views(out@);
    let mut i: usize = 0;
    assert(component_views(out@) =~= front + counted(all.take(0)));
    while i < parts.len()
        invariant
            i <= parts@.len(),
            all == text::views(parts@),
            component_views(out@) == front + counted(all.take(i as int)),
        decreases parts@.len() - i,
    {
        let ghost before = component_views(out@);
        assert(all.take(i + 1).drop_last() =~= all.take(i as int));
        if !parts[i].as_str().is_empty() && !is_dot(parts[i].as_str()) {
            let c = Component::Part(parts[i].clone());
            out.push(c);
            assert(component_views(out@) =~= before.push(c@));
            assert(component_views(out@) =~= front + counted(all.take(i + 1)));
        }
        i = i + 1;
    }
    assert(all.take(all.len() as int) =~= all);
}

fn push_plain(out: &mut Vec<Component>, t: &Vec<char>, from: usize)
    requires
        from <= t@.len(),
    ensures
        component_views(final(out)@) == component_views(old(out)@) + plain_components(
            t@.skip(from as int),
        ),
{
    let n: usize = t.len() - from;
    let ghost rest = t@.skip(from as int);
    let ghost front = component_views(out@);
    if n > 0 && t[from] == '/' {
        out.push(Component::Root);
        assert(component_views(out@) =~= front + seq![ComponentView::Root]);
    } else if n > 0 && t[from] == '.' && (n == 1 || t[from + 1] == '/') {
        out.push(Component::Here);
        assert(component_views(out@) =~= front + seq![ComponentView::Here]);
    } else {
        assert(component_views(out@) =~= front + Seq::<ComponentView>::empty());
    }
    push_counted(out, t, from);
    assert(component_views(out@) =~= front + plain_components(rest));
}

fn same_component(a: &Component, b: &Component) -> (r: bool)
    ensures
        r == (a@ == b@),
{
    match a {
        Component::Drive(x) => match b {
            Component::Drive(y) => *x == *y,
            _ => false,
        },
        Component::Share(x, y) => match b {
            Component::Share(v, w) => text::same(x.as_str(), v.as_str()) && text::same(
                y.as_str(),
                w.as_str(),
            ),
            _ => false,
        },
        Component::Root => match b {
            Component::Root => true,
            _ => false,
        },
        Component::Here => match b {
            Component::Here => true,
            _ => false,
        },
        Component::Part(x) => match b {
            Component::Part(y) => text::same(x.as_str(), y.as_str()),
            _ => false,
        },
    }
}

fn starts_with(p: &Vec<Component>, f: &Vec<Component>) -> (r: bool)
    ensures
        r == within(component_views(p@), component_views(f@)),
{
    let ghost pv = component_views(p@);
    let ghost fv = component_views(f@);
    if f.len() > p.len() {
        return false;
    }
    let mut i: usize = 0;
    while i < f.len()
        invariant
            i <= f@.len() <= p@.len(),
            pv == component_views(p@),
            fv == component_views(f@),
            forall|k: int| 0 <= k < i ==> pv[k] == fv[k],
        decreases f@.len() - i,
    {
        if !same_component(&p[i], &f[i]) {
            assert(pv.take(fv.len() as int)[i as int] != fv[i as int]);
            return false;
        }
        i = i + 1;
    }
    assert(pv.take(fv.len() as int) =~= fv);
    true
}

impl FolderPath {
    pub fn copy(&self) -> (r: FolderPath)
        ensures
            r == *self,
    {
        FolderPath { text: self.text.clone(), windows: self.windows }
    }

    /// The components of the path.
    pub fn components(&self) -> (r: Vec<Component>)
        ensures
            component_views(r@) == self@,
    {
        let t = with_slashes(self.text.as_str(), self.windows);
        let mut out: Vec<Component> = Vec::new();
        if self.windows && t.len() >= 2 {
            if t[0] == '/' && t[1] == '/' {
                let a: usize = find_slash(&t, 2);
                if 2 < a && a < t.len() {
                    let b: usize = find_slash(&t, a + 1);
                    if a + 1 < b {
                        let machine = text::part(t.as_slice(), 2, a);
                        let machine = text::string_of(machine.as_slice());
                        let share = text::part(t.as_slice(), a + 1, b);
                        let share = text::string_of(share.as_slice());
                        out.push(Component::Share(machine, share));
                        out.push(Component::Root);
                        assert(component_views(out@) =~= seq![
                            ComponentView::Share(machine@, share@),
                            ComponentView::Root,
                        ]);
                        push_counted(&mut out, &t, b);
                        return out;
                    }
                }
            }
            let letter: u32 = text::ascii_lower_code(t[0]);
            if 97 <= letter && letter <= 122 && t[1] == ':' {
                out.push(Component::Drive(letter));
                assert(component_views(out@) =~= seq![ComponentView::Drive(letter as int)]);
                push_plain(&mut out, &t, 2);
                return out;
            }
        }
        push_plain(&mut out, &t, 0);
        assert(t@.skip(0) =~= t@);
        assert(component_views(out@) =~= plain_components(t@));
        out
    }

    /// The components that name something.
    pub fn names(&self) -> (r: Vec<String>)
        ensures
            text::views(r@) == names_of(self@),
    {
        let parts = self.components();
        let ghost all = component_views(parts@);
        let mut out: Vec<String> = Vec::new();
        let mut i: usize = 0;
        assert(text::views(out@) =~= names_of(all.take(0)));
        while i < parts.len()
            invariant
                i <= parts@.len(),
                all == component_views(parts@),
                text::views(out@) == names_of(all.take(i as int)),
            decreases parts@.len() - i,
        {
            let ghost before = text::views(out@);
            assert(all.take(i + 1).drop_last() =~= all.take(i as int));
            assert(all.take(i + 1).last() == parts@[i as int]@);
            if let Component::Part(s) = &parts[i] {
                if !is_dot_dot(s.as_str()) {
                    out.push(s.clone());
                    assert(text::views(out@) =~= before.push(s@));
                }
            }
            i = i + 1;
        }
        assert(all.take(all.len() as int) =~= all);
        out
    }

    /// Whether two paths have the same components.
    pub fn same(&self, other: &FolderPath) -> (r: bool)
        ensures
            r == (self@ == other@),
    {
        let a = self.components();
        let b = other.components();
        let r = a.len() == b.len() && starts_with(&a, &b);
        proof {
            if a@.len() == b@.len() {
                assert(self@.take(other@.len() as int) =~= self@);
            }
            assert(self@.len() == a@.len() && other@.len() == b@.len());
        }
        r
    }

    /// Whether the path is `folder` or stands below it.
    pub fn is_within(&self, folder: &FolderPath) -> (r: bool)
        ensures
            r == within(self@, folder@),
    {
        let p = self.components();
        let f = folder.components();
        starts_with(&p, &f)
    }
}

impl PartialEq for FolderPath {
    fn eq(&self, other: &FolderPath) -> (r: bool) {
        self.same(other)
    }
}

impl vstd::std_specs::cmp::PartialEqSpecImpl for FolderPath {
    open spec fn obeys_eq_spec() -> bool {
        true
    }

    open spec fn eq_spec(&self, other: &FolderPath) -> bool {
        self@ == other@
    }
}

impl Eq for FolderPath {

}

pub fn copy_option(p: &Option<FolderPath>) -> (r: Option<FolderPath>)
    ensures
        r == *p,
{
    match p {
        Some(p) => Some(p.copy()),
        None => None,
    }
}

// ---- What holds of paths ----

proof fn lemma_counted_drops(pieces: Seq<Seq<char>>, k: nat)
    requires
        k <= pieces.len(),
        forall|i: int| k <= i < pieces.len() ==> (#[trigger] pieces[i]).len() == 0,
    ensures
        counted(pieces) == counted(pieces.take(k as int)),
    decreases pieces.len(),
{
    if k < pieces.len() {
        assert(pieces[pieces.len() - 1].len() == 0);
        lemma_counted_drops(pieces.drop_last(), k);
        assert(pieces.drop_last().take(k as int) =~= pieces.take(k as int));
    } else {
        assert(pieces.take(k as int) =~= pieces);
    }
}

proof fn lemma_pieces_have_no_separator(s: Seq<char>, sep: char)
    ensures
        text::pieces(s, sep).len() > 0,
        forall|k: int|
            0 <= k < text::pieces(s, sep).len() ==> !(#[trigger] text::pieces(s, sep)[k]).contains(
                sep,
            ),
    decreases s.len(),
{
    let p = text::pieces(s, sep);
    if s.len() > 0 {
        lemma_pieces_have_no_separator(s.drop_last(), sep);
        let q = text::pieces(s.drop_last(), sep);
        assert forall|k: int| 0 <= k < p.len() implies !(#[trigger] p[k]).contains(sep) by {
            if k < q.len() - 1 {
                assert(p[k] == q[k]);
            } else if s.last() == sep {
                if k < q.len() {
                    assert(p[k] == q[k]);
                }
            } else {
                assert(!q[q.len() - 1].contains(sep));
                let piece = q.last().push(s.last());
                assert forall|m: int| 0 <= m < piece.len() implies piece[m] != sep by {
                    if m < q.last().len() {
                        assert(q.last()[m] != sep);
                    }
                }
            }
        }
    }
}

spec fn without_slash(v: Seq<ComponentView>) -> bool {
    forall|k: int| 0 <= k < v.len() ==> match #[trigger] v[k] {
        ComponentView::Part(s) => !s.contains('/'),
        _ => true,
    }
}

proof fn lemma_counted_without_slash(pieces: Seq<Seq<char>>)
    requires
        forall|k: int| 0 <= k < pieces.len() ==> !(#[trigger] pieces[k]).contains('/'),
    ensures
        without_slash(counted(pieces)),
    decreases pieces.len(),
{
    if pieces.len() > 0 {
        assert forall|k: int| 0 <= k < pieces.len() - 1 implies !(
        #[trigger] pieces.drop_last()[k]).contains('/') by {
            assert(!pieces[k].contains('/'));
        }
        lemma_counted_without_slash(pieces.drop_last());
        assert(!pieces[pieces.len() - 1].contains('/'));
    }
}

proof fn lemma_names_without_slash(v: Seq<ComponentView>)
    requires
        without_slash(v),
    ensures
        forall|k: int| 0 <= k < names_of(v).len() ==> !(#[trigger] names_of(v)[k]).contains('/'),
    decreases v.len(),
{
    if v.len() > 0 {
        assert(without_slash(v.drop_last())) by {
            assert forall|k: int| 0 <= k < v.len() - 1 implies match #[trigger] v.drop_last()[k] {
                ComponentView::Part(s) => !s.contains('/'),
                _ => true,
            } by {
                assert(v[k] == v.drop_last()[k]);
            }
        }
        lemma_names_without_slash(v.drop_last());
        assert(v[v.len() - 1] == v.last());
        let head = names_of(v.drop_last());
        let all = names_of(v);
        assert forall|k: int| 0 <= k < all.len() implies !(#[trigger] all[k]).contains('/') by {
            if k < head.len() {
                assert(all[k] == head[k]);
            }
        }
    }
}

proof fn lemma_joined_without_slash(a: Seq<ComponentView>, b: Seq<ComponentView>)
    requires
        without_slash(a),
        without_slash(b),
    ensures
        without_slash(a + b),
{
    assert forall|k: int| 0 <= k < (a + b).len() implies match #[trigger] (a + b)[k] {
        ComponentView::Part(s) => !s.contains('/'),
        _ => true,
    } by {
        if k < a.len() {
            assert((a + b)[k] == a[k]);
        } else {
            assert((a + b)[k] == b[k - a.len()]);
        }
    }
}

proof fn lemma_plain_without_slash(t: Seq<char>)
    ensures
        without_slash(plain_components(t)),
        without_slash(counted(text::pieces(t, '/'))),
{
    lemma_pieces_have_no_separator(t, '/');
    lemma_counted_without_slash(text::pieces(t, '/'));
    let front = if is_rooted(t) {
        seq![ComponentView::Root]
    } else if starts_here(t) {
        seq![ComponentView::Here]
    } else {
        Seq::empty()
    };
    lemma_joined_without_slash(front, counted(text::pieces(t, '/')));
}

/// No name of a path holds a separator.
pub proof fn lemma_names_have_no_slash(path: FolderPath)
    ensures
        forall|k: int|
            0 <= k < names_of(path@).len() ==> !(#[trigger] names_of(path@)[k]).contains('/'),
{
    let t = slashed(path.text@, path.windows);
    lemma_plain_without_slash(t);
    if path.windows && has_share(t) {
        let a = next_slash(t, 2);
        let b = next_slash(t, a + 1);
        lemma_plain_without_slash(t.skip(b));
        let front = seq![
            ComponentView::Share(t.subrange(2, a), t.subrange(a + 1, b)),
            ComponentView::Root,
        ];
        lemma_joined_without_slash(front, counted(text::pieces(t.skip(b), '/')));
    } else if path.windows && has_drive(t) {
        lemma_plain_without_slash(t.skip(2));
        let front = seq![ComponentView::Drive(text::ascii_lower(t[0]))];
        lemma_joined_without_slash(front, plain_components(t.skip(2)));
    }
    lemma_names_without_slash(path@);
}

/// A separator at the end changes nothing outside Windows: the
/// paths `p` and `p/` have the same components. An empty path is none of this,
/// as the separator is then the root.
pub proof fn a_trailing_separator_is_nothing(path: Seq<char>)
    requires
        path.len() > 0,
    ensures
        components_of(path.push('/'), false) == components_of(path, false),
{
    let p = path.push('/');
    let t = slashed(path, false);
    let u = slashed(p, false);
    assert(t =~= path);
    assert(u =~= p);
    assert(p.drop_last() =~= path);
    let a = text::pieces(path, '/');
    let b = text::pieces(p, '/');
    assert(b =~= a.push(Seq::<char>::empty()));
    lemma_counted_drops(b, a.len());
    assert(b.take(a.len() as int) =~= a);
}

/// A path is within itself, and being within carries over.
pub proof fn within_is_an_order(
    a: Seq<ComponentView>,
    b: Seq<ComponentView>,
    c: Seq<ComponentView>,
)
    ensures
        within(a, a),
        within(a, b) && within(b, c) ==> within(a, c),
        within(a, b) && within(b, a) ==> a == b,
{
    assert(a.take(a.len() as int) =~= a);
    if within(a, b) && within(b, c) {
        assert(a.take(c.len() as int) =~= b.take(c.len() as int));
    }
    if within(a, b) && within(b, a) {
        assert(b.take(a.len() as int) =~= b);
    }
}

proof fn lemma_counted_concat(a: Seq<Seq<char>>, b: Seq<Seq<char>>)
    ensures
        counted(a + b) == counted(a) + counted(b),
    decreases b.len(),
{
    if b.len() == 0 {
        assert(a + b =~= a);
        assert(counted(a) + counted(b) =~= counted(a));
    } else {
        lemma_counted_concat(a, b.drop_last());
        assert((a + b).drop_last() =~= a + b.drop_last());
        assert((a + b).last() == b.last());
        assert(counted(a + b) =~= counted(a) + counted(b));
    }
}

/// What stands below a folder has the folder's components and then its own, so
/// it is within the folder.
pub proof fn a_path_below_a_folder_is_within_it(folder: Seq<char>, below: Seq<char>)
    requires
        folder.len() > 0,
    ensures
        components_of(folder + seq!['/'] + below, false) == components_of(folder, false) + counted(
            text::pieces(below, '/'),
        ),
        within(components_of(folder + seq!['/'] + below, false), components_of(folder, false)),
{
    let p = folder + seq!['/'] + below;
    assert(slashed(p, false) =~= p);
    assert(slashed(folder, false) =~= folder);
    text::lemma_pieces_around(folder, below, '/');
    lemma_counted_concat(text::pieces(folder, '/'), text::pieces(below, '/'));
    assert(p[0] == folder[0]);
    assert(starts_here(p) == starts_here(folder)) by {
        if folder.len() == 1 {
            assert(p[1] == '/');
        } else {
            assert(p[1] == folder[1]);
        }
    }
    let front = components_of(folder, false);
    let all = components_of(p, false);
    assert(all =~= front + counted(text::pieces(below, '/')));
    assert(all.take(front.len() as int) =~= front);
}

/// A path that starts with a slash starts at the root, and no other does off
/// Windows.
pub proof fn only_a_leading_slash_is_the_root(path: Seq<char>)
    ensures
        path.len() > 0 && path[0] == '/' ==> components_of(path, false).len() > 0 && components_of(
            path,
            false,
        )[0] is Root,
        path.len() > 0 && path[0] != '/' ==> !components_of(path, false).contains(
            ComponentView::Root,
        ),
{
    assert(slashed(path, false) =~= path);
    let c = counted(text::pieces(path, '/'));
    lemma_counted_are_parts(text::pieces(path, '/'));
    if path.len() > 0 && path[0] != '/' {
        let all = components_of(path, false);
        if all.contains(ComponentView::Root) {
            let k = choose|k: int| 0 <= k < all.len() && all[k] == ComponentView::Root;
            let n = all.len() - c.len();
            if k >= n {
                assert(all[k] == c[k - n]);
            }
        }
    }
}

proof fn lemma_counted_are_parts(pieces: Seq<Seq<char>>)
    ensures
        forall|i: int|
            0 <= i < counted(pieces).len() ==> (#[trigger] counted(pieces)[i]) is Part && counted(
                pieces,
            )[i]->Part_0.len() > 0 && counted(pieces)[i]->Part_0 != seq!['.'],
    decreases pieces.len(),
{
    if pieces.len() > 0 {
        let head = counted(pieces.drop_last());
        lemma_counted_are_parts(pieces.drop_last());
        assert forall|i: int| 0 <= i < counted(pieces).len() implies (
        #[trigger] counted(pieces)[i]) is Part && counted(pieces)[i]->Part_0.len() > 0 && counted(
            pieces,
        )[i]->Part_0 != seq!['.'] by {
            if i < head.len() {
                assert(counted(pieces)[i] == head[i]);
            }
        }
    }
}

/// On Windows either separator will do, and the case of a drive's letter does
/// not count; elsewhere a backslash is part of a name.
pub proof fn separators_are_alike_on_windows(path: Seq<char>)
    ensures
        components_of(slashed(path, true), true) == components_of(path, true),
        slashed(path, false) == path,
        forall|i: int|
            0 <= i < path.len() ==> #[trigger] slashed(path, true)[i] == (if path[i] == '\\' {
                '/'
            } else {
                path[i]
            }),
{
    assert(slashed(slashed(path, true), true) =~= slashed(path, true));
    assert(slashed(path, false) =~= path);
}

/// A folder is called by the components that name something: not by a drive,
/// the root, or a step up.
pub proof fn a_step_up_names_nothing(v: Seq<ComponentView>, c: ComponentView)
    ensures
        names_of(Seq::empty()).len() == 0,
        c matches ComponentView::Part(s) && s != seq!['.', '.'] ==> names_of(v.push(c)) == names_of(
            v,
        ).push(c->Part_0),
        c matches ComponentView::Part(s) && s == seq!['.', '.'] ==> names_of(v.push(c)) == names_of(
            v,
        ),
        !(c is Part) ==> names_of(v.push(c)) == names_of(v),
{
    assert(v.push(c).drop_last() =~= v);
}

/// A path is within a folder exactly where the folder's components are the
/// first of its own.
pub proof fn within_is_component_by_component(
    path: Seq<ComponentView>,
    folder: Seq<ComponentView>,
)
    ensures
        within(path, folder) <==> folder.len() <= path.len() && forall|i: int|
            0 <= i < folder.len() ==> #[trigger] path[i] == folder[i],
{
    if folder.len() <= path.len() {
        let head = path.take(folder.len() as int);
        if forall|i: int| 0 <= i < folder.len() ==> #[trigger] path[i] == folder[i] {
            assert(head =~= folder);
        }
        if head == folder {
            assert forall|i: int| 0 <= i < folder.len() implies #[trigger] path[i] == folder[i] by {
                assert(head[i] == folder[i]);
            }
        }
    }
}

/// On Windows a path that starts with a letter and a colon starts at that
/// drive, whatever the letter's case; elsewhere there are no drives.
pub proof fn a_drive_is_its_letter(path: Seq<char>)
    requires
        path.len() >= 2,
        97 <= text::ascii_lower(path[0]) <= 122,
        path[1] == ':',
    ensures
        components_of(path, true).len() > 0,
        components_of(path, true)[0] == ComponentView::Drive(text::ascii_lower(path[0])),
        forall|i: int|
            0 <= i < components_of(path, false).len() ==> !((#[trigger] components_of(
                path,
                false,
            )[i]) is Drive),
{
    let t = slashed(path, true);
    assert(path[0] != '\\' && path[0] != '/');
    assert(t[0] == path[0] && t[1] == ':');
    assert(!has_share(t));
    assert(has_drive(t));
    assert(slashed(path, false) =~= path);
    lemma_counted_are_parts(text::pieces(path, '/'));
    let c = counted(text::pieces(path, '/'));
    let all = components_of(path, false);
    assert forall|i: int| 0 <= i < all.len() implies !((#[trigger] all[i]) is Drive) by {
        let n = all.len() - c.len();
        if i >= n {
            assert(all[i] == c[i - n]);
        }
    }
}

} // verus!
