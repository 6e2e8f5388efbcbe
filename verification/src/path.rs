//! File-system paths: how they are written, and the names they are made of.

use vstd::prelude::*;
use vstd::string::*;

use crate::text::{chars_of, same_text};

verus! {

/// The family of operating systems that a path belongs to.
#[derive(Clone, Copy, Debug, PartialEq, Eq, Structural)]
pub enum Platform {
    Windows,
    Other,
}

/// A path as it is written: where it starts, and what leads on from there.
///
/// The root is `/`, a drive with or without its root (`C:\`, `C:`), a share, or
/// empty for a relative path. A path on Windows is one without the prefix
/// `\\?\`, which would switch off the usual reading of names. Two paths can be
/// written differently and yet be the same: see `same_path`.
#[derive(Debug, Clone)]
pub struct FsPath {
    pub platform: Platform,
    pub root: String,
    pub body: String,
}

/// What a path says: its platform, its root and its body, as they are written.
#[verifier::ext_equal]
pub struct PathView {
    pub platform: Platform,
    pub root: Seq<char>,
    pub body: Seq<char>,
}

/// What a path means: where it starts, and the names that lead on from there.
#[verifier::ext_equal]
pub struct PathMeaning {
    pub platform: Platform,
    pub root: Seq<char>,
    pub names: Seq<Seq<char>>,
}

impl View for FsPath {
    type V = PathView;

    open spec fn view(&self) -> PathView {
        PathView { platform: self.platform, root: self.root@, body: self.body@ }
    }
}

impl DeepView for FsPath {
    type V = PathView;

    open spec fn deep_view(&self) -> PathView {
        self@
    }
}

/// Whether a character separates the names of a written path.
pub open spec fn is_separator(platform: Platform, c: char) -> bool {
    c == '/' || (platform == Platform::Windows && c == '\\')
}

/// The text that is put between two names of a written path.
pub open spec fn separator(platform: Platform) -> Seq<char> {
    match platform {
        Platform::Windows => seq!['\\'],
        Platform::Other => seq!['/'],
    }
}

/// Whether no character of the text means more than itself in a written path.
pub open spec fn plain(platform: Platform, text: Seq<char>) -> bool {
    forall|i: int|
        0 <= i < text.len() ==> !is_separator(platform, #[trigger] text[i]) && (platform
            == Platform::Windows ==> text[i] != ':')
}

/// Whether the text is one name: it is plain, it is not empty, and it does not
/// stand for the directory itself or the one above.
pub open spec fn is_name(platform: Platform, text: Seq<char>) -> bool {
    &&& text.len() > 0
    &&& text != seq!['.']
    &&& text != seq!['.', '.']
    &&& plain(platform, text)
}

/// What stands before, between and after the separators of a text.
pub open spec fn pieces(platform: Platform, text: Seq<char>) -> Seq<Seq<char>>
    decreases text.len(),
{
    if text.len() == 0 {
        seq![Seq::empty()]
    } else {
        let before = pieces(platform, text.drop_last());
        if is_separator(platform, text.last()) {
            before.push(Seq::empty())
        } else {
            before.drop_last().push(before.last().push(text.last()))
        }
    }
}

/// The pieces that lead on: those that are not empty and do not stand for the
/// directory itself.
pub open spec fn leading(pieces: Seq<Seq<char>>) -> Seq<Seq<char>>
    decreases pieces.len(),
{
    if pieces.len() == 0 {
        Seq::empty()
    } else if pieces.last().len() == 0 || pieces.last() == seq!['.'] {
        leading(pieces.drop_last())
    } else {
        leading(pieces.drop_last()).push(pieces.last())
    }
}

/// Whether a root leaves open which directory a path starts from.
pub open spec fn floating(platform: Platform, root: Seq<char>) -> bool {
    root.len() == 0 || (platform == Platform::Windows && root.last() == ':')
}

/// The names in the body of a path. That it starts with the current directory
/// is kept where the root leaves open what that is.
pub open spec fn names_in(platform: Platform, root: Seq<char>, body: Seq<char>) -> Seq<Seq<char>> {
    let all = pieces(platform, body);
    if floating(platform, root) && all.first() == seq!['.'] {
        seq![seq!['.']] + leading(all)
    } else {
        leading(all)
    }
}

/// A character of a root as roots are compared: all separators are the same,
/// and so are the two cases of the letter of a drive.
pub open spec fn root_char(platform: Platform, root: Seq<char>, i: int) -> char {
    if platform == Platform::Other {
        root[i]
    } else if is_separator(platform, root[i]) {
        '\\'
    } else if i == 0 && root.len() > 1 && root[1] == ':' && 'a' <= root[0] && root[0] <= 'z' {
        (root[0] as u32 - 32) as char
    } else {
        root[i]
    }
}

/// Whether a text starts at the root.
pub open spec fn rooted(text: Seq<char>) -> bool {
    text.len() > 0 && text.first() == '/'
}

impl PathView {
    /// The path as it is written.
    pub open spec fn written(self) -> Seq<char> {
        self.root + self.body
    }

    /// The names that lead on from the root.
    pub open spec fn names(self) -> Seq<Seq<char>> {
        names_in(self.platform, self.root, self.body)
    }

    /// What the path means.
    pub open spec fn meaning(self) -> PathMeaning {
        PathMeaning {
            platform: self.platform,
            root: Seq::new(self.root.len(), |i: int| root_char(self.platform, self.root, i)),
            names: self.names(),
        }
    }

    /// Whether both are the same path.
    pub open spec fn same(self, other: PathView) -> bool {
        self.meaning() == other.meaning()
    }

    /// Whether a text follows the written path without a separator: the path
    /// is empty, ends in one, or is a drive without its root.
    pub open spec fn open_ended(self) -> bool {
        let text = self.written();
        ||| text.len() == 0
        ||| is_separator(self.platform, text.last())
        ||| self.body.len() == 0 && self.platform == Platform::Windows && text.last() == ':'
    }

    /// The path continued by a relative text.
    pub open spec fn below(self, text: Seq<char>) -> PathView {
        PathView {
            body: if self.open_ended() {
                self.body + text
            } else {
                self.body + separator(self.platform) + text
            },
            ..self
        }
    }

    /// Whether the path can be continued by the text: on Windows, where a text
    /// may also name a drive, a root or a share, only by one that does not.
    pub open spec fn joinable(self, text: Seq<char>) -> bool {
        self.platform == Platform::Windows ==> {
            &&& forall|i: int| 0 <= i < text.len() ==> #[trigger] text[i] != ':'
            &&& text.len() > 0 ==> !is_separator(self.platform, text.first())
        }
    }

    /// The path continued by a text. A text that starts at the root takes its
    /// place.
    pub open spec fn join(self, text: Seq<char>) -> PathView
        recommends
            self.joinable(text),
    {
        if rooted(text) {
            PathView { platform: self.platform, root: seq!['/'], body: text.drop_first() }
        } else {
            self.below(text)
        }
    }

    /// Whether the path without its last name is written as far as `end`: that
    /// is the first place at which all names but the last have been written.
    pub open spec fn parent_ends(self, end: int) -> bool {
        &&& 0 <= end <= self.body.len()
        &&& self.upto(end).names() == self.names().drop_last()
        &&& forall|i: int| 0 <= i < end ==> #[trigger] self.upto(i).names() != self.names().drop_last()
    }

    /// The path written as far as `end`.
    pub open spec fn upto(self, end: int) -> PathView {
        PathView { body: self.body.take(end), ..self }
    }

    /// The path without its last name; one without names has none.
    pub open spec fn parent(self) -> Option<PathView> {
        if self.names().len() == 0 {
            None
        } else {
            Some(self.upto(choose|end: int| self.parent_ends(end)))
        }
    }

    /// Whether the path lies somewhere below `dir`, or is `dir`.
    pub open spec fn within(self, dir: PathView) -> bool {
        &&& self.meaning().platform == dir.meaning().platform
        &&& self.meaning().root == dir.meaning().root
        &&& dir.names().len() <= self.names().len()
        &&& self.names().take(dir.names().len() as int) == dir.names()
    }
}

/// Whether the path is the same as one of the paths.
pub open spec fn among(paths: Seq<PathView>, path: PathView) -> bool {
    exists|i: int| 0 <= i < paths.len() && (#[trigger] paths[i]).same(path)
}

/// Whether no two of the paths are the same.
pub open spec fn all_differ(paths: Seq<PathView>) -> bool {
    forall|i: int, j: int|
        0 <= i < j < paths.len() ==> !(#[trigger] paths[i]).same(#[trigger] paths[j])
}

/// Whether a character separates the names of a written path.
fn separates(platform: Platform, c: char) -> (r: bool)
    ensures
        r == is_separator(platform, c),
{
    c == '/' || (platform == Platform::Windows && c == '\\')
}

/// What stands before, between and after the separators of a text.
fn split(platform: Platform, text: &str) -> (r: Vec<String>)
    ensures
        r.deep_view() == pieces(platform, text@),
{
    let v: Vec<char> = chars_of(text);
    let mut r: Vec<String> = Vec::new();
    let mut last: String = String::new();
    let mut i: usize = 0;
    assert(r.deep_view().push(last@) == pieces(platform, text@.take(0)));
    while i < v.len()
        invariant
            i <= v.len(),
            v@ == text@,
            r.deep_view().push(last@) == pieces(platform, text@.take(i as int)),
        decreases v.len() - i,
    {
        let ghost now = text@.take(i + 1);
        let ghost before = r.deep_view();
        assert(now.drop_last() == text@.take(i as int));
        assert(now.last() == v[i as int]);
        assert(before.push(last@).drop_last() == before);
        if separates(platform, v[i]) {
            let ghost piece = last@;
            r.push(last);
            last = String::new();
            assert(r.deep_view() == before.push(piece));
        } else {
            last.push(v[i]);
        }
        i += 1;
    }
    assert(text@.take(i as int) == text@);
    let ghost before = r.deep_view();
    let ghost piece = last@;
    r.push(last);
    assert(r.deep_view() == before.push(piece));
    r
}

fn is_here(piece: &str) -> (r: bool)
    ensures
        r == (piece@ == seq!['.']),
{
    proof {
        reveal_strlit(".");
        assert("."@ == seq!['.']);
    }
    same_text(piece, ".")
}

/// The names in the body of a path.
fn body_names(platform: Platform, root: &str, body: &str) -> (r: Vec<String>)
    ensures
        r.deep_view() == names_in(platform, root@, body@),
{
    let all: Vec<String> = split(platform, body);
    let start: Vec<char> = chars_of(root);
    proof {
        lemma_pieces(platform, body@);
    }
    let mut r: Vec<String> = Vec::new();
    let floats: bool = start.len() == 0 || (platform == Platform::Windows && start[start.len() - 1]
        == ':');
    if floats && is_here(all[0].as_str()) {
        r.push(all[0].clone());
    }
    let ghost first = r.deep_view();
    let mut i: usize = 0;
    assert(first == if floating(platform, root@) && pieces(platform, body@).first() == seq!['.'] {
        seq![seq!['.']]
    } else {
        Seq::empty()
    });
    assert(first + leading(all.deep_view().take(0)) == first);
    while i < all.len()
        invariant
            i <= all.len(),
            r.deep_view() == first + leading(all.deep_view().take(i as int)),
        decreases all.len() - i,
    {
        let ghost now = all.deep_view().take(i + 1);
        let ghost before = r.deep_view();
        assert(now.drop_last() == all.deep_view().take(i as int));
        assert(now.last() == all[i as int]@);
        if !all[i].as_str().is_empty() && !is_here(all[i].as_str()) {
            r.push(all[i].clone());
            assert(r.deep_view() == before.push(all[i as int]@));
        }
        i += 1;
    }
    assert(all.deep_view().take(i as int) == all.deep_view());
    r
}

fn same_names(a: &Vec<String>, b: &Vec<String>, n: usize) -> (r: bool)
    requires
        n <= b.len(),
    ensures
        r == (a.deep_view() == b.deep_view().take(n as int)),
{
    if a.len() != n {
        assert(a.deep_view().len() != n);
        return false;
    }
    let mut i: usize = 0;
    while i < n
        invariant
            i <= n <= b.len(),
            a.len() == n,
            forall|k: int| 0 <= k < i ==> a.deep_view()[k] == b.deep_view()[k],
        decreases n - i,
    {
        if !same_text(a[i].as_str(), b[i].as_str()) {
            assert(a.deep_view()[i as int] != b.deep_view().take(n as int)[i as int]);
            return false;
        }
        i += 1;
    }
    assert(a.deep_view() =~= b.deep_view().take(n as int));
    true
}

/// The characters of a root as roots are compared.
fn root_chars(platform: Platform, root: &str) -> (r: Vec<char>)
    ensures
        r@ == Seq::new(root@.len(), |i: int| root_char(platform, root@, i)),
{
    let v: Vec<char> = chars_of(root);
    let mut r: Vec<char> = Vec::new();
    let mut i: usize = 0;
    while i < v.len()
        invariant
            i <= v.len(),
            v@ == root@,
            r.len() == i,
            forall|k: int| 0 <= k < i ==> #[trigger] r[k] == root_char(platform, root@, k),
        decreases v.len() - i,
    {
        let c: char = v[i];
        let shown: char = if platform == Platform::Other {
            c
        } else if separates(platform, c) {
            '\\'
        } else if i == 0 && v.len() > 1 && v[1] == ':' && 'a' <= c && c <= 'z' {
            (c as u8 - 32u8) as char
        } else {
            c
        };
        r.push(shown);
        i += 1;
    }
    assert(r@ =~= Seq::new(root@.len(), |i: int| root_char(platform, root@, i)));
    r
}

fn same_chars(a: &Vec<char>, b: &Vec<char>) -> (r: bool)
    ensures
        r == (a@ == b@),
{
    if a.len() != b.len() {
        return false;
    }
    let mut i: usize = 0;
    while i < a.len()
        invariant
            i <= a.len(),
            a.len() == b.len(),
            forall|k: int| 0 <= k < i ==> a[k] == b[k],
        decreases a.len() - i,
    {
        if a[i] != b[i] {
            return false;
        }
        i += 1;
    }
    assert(a@ =~= b@);
    true
}

pub(crate) proof fn lemma_pieces(platform: Platform, text: Seq<char>)
    ensures
        pieces(platform, text).len() > 0,
    decreases text.len(),
{
    if text.len() > 0 {
        lemma_pieces(platform, text.drop_last());
    }
}

impl FsPath {
    /// The same path again, written as it was.
    pub fn copy(&self) -> (r: FsPath)
        ensures
            r@ == self@,
    {
        FsPath { platform: self.platform, root: self.root.clone(), body: self.body.clone() }
    }

    /// The names that lead on from the root.
    pub fn names(&self) -> (r: Vec<String>)
        ensures
            r.deep_view() == self@.names(),
    {
        body_names(self.platform, self.root.as_str(), self.body.as_str())
    }

    /// The path continued by a relative text.
    pub fn below(&self, text: &str) -> (r: FsPath)
        ensures
            r@ == self@.below(text@),
    {
        proof {
            reveal_strlit("/");
            reveal_strlit("\\");
            assert("/"@ == seq!['/']);
            assert("\\"@ == seq!['\\']);
        }
        let so_far: Vec<char> = chars_of(self.to_text().as_str());
        let open_ended: bool = so_far.len() == 0 || separates(
            self.platform,
            so_far[so_far.len() - 1],
        ) || (self.body.as_str().is_empty() && self.platform == Platform::Windows
            && so_far[so_far.len() - 1] == ':');
        let mut r: FsPath = self.copy();
        if !open_ended {
            match self.platform {
                Platform::Windows => r.body.append("\\"),
                Platform::Other => r.body.append("/"),
            }
        }
        r.body.append(text);
        r
    }

    /// The path continued by a text, which takes its place where it starts at
    /// the root.
    pub fn join(&self, text: &str) -> (r: FsPath)
        requires
            self@.joinable(text@),
        ensures
            r@ == self@.join(text@),
    {
        let v: Vec<char> = chars_of(text);
        if v.len() > 0 && v[0] == '/' {
            let mut root: String = String::new();
            root.push('/');
            let mut body: String = String::new();
            let mut i: usize = 1;
            assert(text@.subrange(1, 1) == Seq::<char>::empty());
            while i < v.len()
                invariant
                    1 <= i <= v.len(),
                    v@ == text@,
                    body@ == text@.subrange(1, i as int),
                decreases v.len() - i,
            {
                body.push(v[i]);
                assert(text@.subrange(1, i + 1) == text@.subrange(1, i as int).push(v[i as int]));
                i += 1;
            }
            let r: FsPath = FsPath { platform: self.platform, root, body };
            assert(r@.body == text@.drop_first());
            assert(r@.root == seq!['/']);
            r
        } else {
            self.below(text)
        }
    }

    /// The path without its last name, if it has one.
    pub fn parent(&self) -> (r: Option<FsPath>)
        ensures
            r.deep_view() == self@.parent(),
    {
        let names: Vec<String> = self.names();
        if names.len() == 0 {
            return None;
        }
        let v: Vec<char> = chars_of(self.body.as_str());
        let mut r: FsPath = FsPath {
            platform: self.platform,
            root: self.root.clone(),
            body: String::new(),
        };
        let mut end: usize = 0;
        proof {
            lemma_parent_ends(self@);
            assert(self@.body.take(0) == Seq::<char>::empty());
        }
        assert(names.deep_view().take(names.len() - 1) == self@.names().drop_last());
        while !same_names(&r.names(), &names, names.len() - 1)
            invariant
                end <= v.len(),
                v@ == self@.body,
                names.len() > 0,
                names.deep_view() == self@.names(),
                names.deep_view().take(names.len() - 1) == self@.names().drop_last(),
                r@ == self@.upto(end as int),
                forall|i: int|
                    0 <= i < end ==> #[trigger] self@.upto(i).names() != self@.names().drop_last(),
                exists|e: int| self@.parent_ends(e),
            decreases v.len() - end,
        {
            proof {
                let e = choose|e: int| self@.parent_ends(e);
                assert(self@.upto(end as int).names() != self@.names().drop_last());
                assert(end < e);
            }
            r.body.push(v[end]);
            assert(self@.body.take(end + 1) == self@.body.take(end as int).push(v[end as int]));
            end += 1;
        }
        proof {
            assert(self@.parent_ends(end as int));
            let e = choose|e: int| self@.parent_ends(e);
            if e < end {
                assert(self@.upto(e).names() != self@.names().drop_last());
            } else if end < e {
                assert(self@.upto(end as int).names() != self@.names().drop_last());
            }
        }
        Some(r)
    }

    /// Whether both are the same path: they start at the same root, and the
    /// names that lead on from there are the same.
    pub fn same_path(&self, other: &FsPath) -> (r: bool)
        ensures
            r == self@.same(other@),
    {
        let names: Vec<String> = other.names();
        assert(names.deep_view().take(names.len() as int) == names.deep_view());
        self.platform == other.platform && same_chars(
            &root_chars(self.platform, self.root.as_str()),
            &root_chars(other.platform, other.root.as_str()),
        ) && same_names(&self.names(), &names, names.len())
    }

    /// The path as it is written.
    pub fn to_text(&self) -> (r: String)
        ensures
            r@ == self@.written(),
    {
        let mut r: String = self.root.clone();
        r.append(self.body.as_str());
        r
    }
}

/// The same path again, where there is one.
pub fn copy_path_option(path: &Option<FsPath>) -> (r: Option<FsPath>)
    ensures
        r.deep_view() == path.deep_view(),
{
    match path {
        Some(p) => Some(p.copy()),
        None => None,
    }
}

/// The path with the given platform, root and body.
pub fn path_of(platform: Platform, root: &str, body: &str) -> (r: FsPath)
    ensures
        r@ == (PathView { platform, root: root@, body: body@ }),
{
    FsPath { platform, root: root.to_string(), body: body.to_string() }
}

pub(crate) proof fn lemma_leading_add(x: Seq<Seq<char>>, y: Seq<Seq<char>>)
    ensures
        leading(x + y) == leading(x) + leading(y),
    decreases y.len(),
{
    if y.len() == 0 {
        assert(x + y == x);
    } else {
        lemma_leading_add(x, y.drop_last());
        assert((x + y).drop_last() == x + y.drop_last());
        assert((x + y).last() == y.last());
        assert(leading(x + y) =~= leading(x) + leading(y));
    }
}

pub(crate) proof fn lemma_pieces_add(platform: Platform, a: Seq<char>, b: Seq<char>)
    ensures
        ({
            let x = pieces(platform, a);
            let y = pieces(platform, b);
            &&& x.len() > 0
            &&& y.len() > 0
            &&& pieces(platform, a + b) == x.drop_last().push(x.last() + y.first())
                + y.drop_first()
        }),
    decreases b.len(),
{
    let x = pieces(platform, a);
    lemma_pieces(platform, a);
    lemma_pieces(platform, b);
    if b.len() == 0 {
        assert(a + b == a);
        assert(b == Seq::<char>::empty());
        assert(x.last() + Seq::<char>::empty() == x.last());
        assert(x =~= x.drop_last().push(x.last()) + pieces(platform, b).drop_first());
    } else {
        let c = b.drop_last();
        lemma_pieces_add(platform, a, c);
        let y = pieces(platform, b);
        let z = pieces(platform, c);
        assert((a + b).drop_last() == a + c);
        assert((a + b).last() == b.last());
        let before = x.drop_last().push(x.last() + z.first()) + z.drop_first();
        let now = x.drop_last().push(x.last() + y.first()) + y.drop_first();
        assert(pieces(platform, a + c) == before);
        if is_separator(platform, b.last()) {
            assert(y.first() == z.first());
            assert(before.push(Seq::empty()) =~= now);
        } else if z.len() == 1 {
            assert(z.last() == z.first());
            assert(y.first() == z.first().push(b.last()));
            assert(before.last() == x.last() + z.first());
            assert(before.last().push(b.last()) =~= x.last() + y.first());
            assert(before.drop_last().push(before.last().push(b.last())) =~= now);
        } else {
            assert(y.first() == z.first());
            assert(before.last() == z.last());
            assert(before.drop_last().push(before.last().push(b.last())) =~= now);
        }
    }
}

proof fn lemma_separator_pieces(platform: Platform, text: Seq<char>)
    requires
        text.len() > 0,
        is_separator(platform, text.last()),
    ensures
        pieces(platform, text).len() > 1,
        pieces(platform, text).last() == Seq::<char>::empty(),
        leading(pieces(platform, text).drop_last()) == leading(pieces(platform, text)),
{
    lemma_pieces(platform, text.drop_last());
}

pub(crate) proof fn lemma_parent_ends(path: PathView)
    requires
        path.names().len() > 0,
    ensures
        exists|end: int| path.parent_ends(end),
{
    let wanted = path.names().drop_last();
    lemma_some_end(path, wanted.len());
    assert(path.names().take(wanted.len() as int) == wanted);
    let end = choose|end: int|
        0 <= end <= path.body.len() && #[trigger] path.upto(end).names() == wanted;
    lemma_first_end(path, wanted, end);
}

proof fn lemma_first_end(path: PathView, wanted: Seq<Seq<char>>, end: int)
    requires
        0 <= end <= path.body.len(),
        path.upto(end).names() == wanted,
        wanted == path.names().drop_last(),
    ensures
        exists|e: int| path.parent_ends(e),
    decreases end,
{
    if exists|i: int| 0 <= i < end && #[trigger] path.upto(i).names() == wanted {
        let i = choose|i: int| 0 <= i < end && #[trigger] path.upto(i).names() == wanted;
        lemma_first_end(path, wanted, i);
    } else {
        assert(path.parent_ends(end));
    }
}

pub(crate) proof fn lemma_one_piece(all: Seq<Seq<char>>)
    requires
        all.len() == 1,
    ensures
        leading(all) == if all.first().len() == 0 || all.first() == seq!['.'] {
            Seq::<Seq<char>>::empty()
        } else {
            seq![all.first()]
        },
{
    assert(all.drop_last() == Seq::<Seq<char>>::empty());
    assert(leading(all.drop_last()) == Seq::<Seq<char>>::empty());
    assert(all.last() == all.first());
}

proof fn lemma_no_names(platform: Platform, root: Seq<char>)
    ensures
        names_in(platform, root, Seq::empty()) == Seq::<Seq<char>>::empty(),
{
    lemma_one_piece(pieces(platform, Seq::empty()));
    assert(pieces(platform, Seq::<char>::empty()).first() == Seq::<char>::empty());
}

proof fn lemma_some_end(path: PathView, n: nat)
    requires
        n <= path.names().len(),
    ensures
        exists|end: int|
            0 <= end <= path.body.len() && #[trigger] path.upto(end).names()
                == path.names().take(n as int),
    decreases path.body.len(),
{
    let p = path.platform;
    let body = path.body;
    let whole = body.len() as int;
    assert(path.upto(whole) == path);
    if n == path.names().len() {
        assert(path.names().take(n as int) == path.names());
        assert(path.upto(whole).names() == path.names().take(n as int));
    } else {
        let none = Seq::<char>::empty();
        if body.len() == 0 {
            assert(body == none);
            lemma_no_names(p, path.root);
        }
        let shorter = path.upto(whole - 1);
        let all = pieces(p, body);
        let before = pieces(p, shorter.body);
        assert(shorter.body == body.drop_last());
        lemma_pieces(p, shorter.body);
        if before.len() == 1 && !is_separator(p, body.last()) {
            lemma_one_piece(all);
            lemma_no_names(p, path.root);
            assert(path.names().len() <= 1);
            assert(path.upto(0).body == none);
            assert(path.upto(0).names() == Seq::<Seq<char>>::empty());
            assert(path.names().take(0) == Seq::<Seq<char>>::empty());
        } else {
            assert(all.first() == before.first());
            if is_separator(p, body.last()) {
                assert(all.drop_last() == before);
                assert(path.names() == shorter.names());
            } else {
                assert(all.drop_last() == before.drop_last());
            }
            assert(n <= shorter.names().len());
            assert(shorter.names().take(n as int) == path.names().take(n as int));
            lemma_some_end(shorter, n);
            let end = choose|end: int|
                0 <= end <= shorter.body.len() && #[trigger] shorter.upto(end).names()
                    == shorter.names().take(n as int);
            assert(path.upto(end) == shorter.upto(end));
            assert(path.upto(end).names() == path.names().take(n as int));
        }
    }
}

/// A path continued by a relative text leads on by the names in the text, and
/// starts where it started. Only where nothing stands before it does it matter
/// that the text starts with the current directory.
pub proof fn texts_lead_on(dir: PathView, text: Seq<char>)
    requires
        dir.body.len() > 0 || pieces(dir.platform, text).first() != seq!['.'],
    ensures
        dir.below(text).names() == dir.names() + leading(pieces(dir.platform, text)),
        dir.below(text).platform == dir.platform,
        dir.below(text).root == dir.root,
{
    let p = dir.platform;
    let body = dir.body;
    let none = Seq::<char>::empty();
    let empty = Seq::<Seq<char>>::empty();
    let x = pieces(p, body);
    let y = pieces(p, text);
    lemma_pieces(p, body);
    lemma_pieces(p, text);
    assert(pieces(p, none).drop_last() == empty);
    assert(leading(pieces(p, none)) == leading(empty));
    if body.len() == 0 {
        assert(body == none);
        assert(dir.names() == empty);
        if dir.open_ended() {
            assert(body + text == text);
            assert(empty + leading(y) == leading(y));
        } else {
            let s = separator(p);
            assert(s.drop_last() == none);
            assert(pieces(p, s) == seq![none, none]);
            lemma_pieces_add(p, s, text);
            assert(body + s + text == s + text);
            let z = pieces(p, s + text);
            assert(none + y.first() == y.first());
            assert(z =~= seq![none] + y);
            lemma_leading_add(seq![none], y);
            assert(leading(seq![none]) == empty) by {
                assert(seq![none].drop_last() == empty);
            }
            assert(!floating(p, dir.root)) by {
                assert(dir.written() == dir.root);
            }
            assert(empty + leading(y) == leading(y));
        }
    } else {
        let start = if dir.open_ended() {
            body
        } else {
            body + separator(p)
        };
        assert(dir.written().last() == body.last());
        let w = pieces(p, start);
        if !dir.open_ended() {
            assert(start.drop_last() == body);
            assert(w == x.push(none));
        }
        assert(is_separator(p, start.last()));
        lemma_separator_pieces(p, start);
        assert(leading(w) == leading(x)) by {
            if !dir.open_ended() {
                assert(w.drop_last() == x);
            }
        }
        assert(w.first() == x.first());
        lemma_pieces_add(p, start, text);
        let z = pieces(p, start + text);
        assert(none + y.first() == y.first());
        assert(z =~= w.drop_last() + y);
        assert(z.first() == x.first());
        lemma_leading_add(w.drop_last(), y);
        assert(dir.below(text).body == start + text);
        assert(dir.below(text).names() =~= dir.names() + leading(y));
    }
}

pub(crate) proof fn lemma_plain_pieces(platform: Platform, text: Seq<char>)
    requires
        forall|i: int| 0 <= i < text.len() ==> !is_separator(platform, #[trigger] text[i]),
    ensures
        pieces(platform, text) == seq![text],
    decreases text.len(),
{
    if text.len() > 0 {
        let before = text.drop_last();
        assert forall|i: int| 0 <= i < before.len() implies !is_separator(
            platform,
            #[trigger] before[i],
        ) by {
            assert(before[i] == text[i]);
        }
        lemma_plain_pieces(platform, before);
        assert(before.push(text.last()) == text);
        assert(!is_separator(platform, text[text.len() - 1]));
        assert(seq![before].drop_last().push(text) == seq![text]);
    } else {
        assert(text == Seq::<char>::empty());
    }
}

/// A path continued by a name leads one name further down.
pub proof fn names_lead_down(dir: PathView, name: Seq<char>)
    requires
        is_name(dir.platform, name),
    ensures
        dir.joinable(name),
        dir.join(name) == dir.below(name),
        dir.below(name).body.len() > 0,
        dir.below(name).names() == dir.names().push(name),
{
    lemma_plain_pieces(dir.platform, name);
    let all = pieces(dir.platform, name);
    assert(all.first() == name);
    assert(all.drop_last() == Seq::<Seq<char>>::empty());
    assert(leading(all.drop_last()) == Seq::<Seq<char>>::empty());
    assert(leading(all) == seq![name]);
    assert(!is_separator(dir.platform, name[0]));
    texts_lead_on(dir, name);
    assert(dir.names() + seq![name] == dir.names().push(name));
}

/// Going one name down and back up ends where it began, however it is written.
pub proof fn parent_undoes_below(dir: PathView, name: Seq<char>)
    requires
        is_name(dir.platform, name),
    ensures
        dir.below(name).parent() is Some,
        dir.below(name).parent()->0.same(dir),
{
    let path = dir.below(name);
    names_lead_down(dir, name);
    lemma_parent_ends(path);
    let end = choose|end: int| path.parent_ends(end);
    assert(path.names().drop_last() == dir.names());
    assert(path.upto(end).meaning() =~= dir.meaning());
}

/// Different names below one directory are different paths.
pub proof fn names_keep_apart(dir: PathView, a: Seq<char>, b: Seq<char>)
    requires
        a != b,
        is_name(dir.platform, a),
        is_name(dir.platform, b),
    ensures
        !dir.below(a).same(dir.below(b)),
{
    names_lead_down(dir, a);
    names_lead_down(dir, b);
    assert(dir.names().push(a).last() == a);
    assert(dir.names().push(b).last() == b);
    if dir.below(a).same(dir.below(b)) {
        assert(dir.below(a).meaning().names == dir.below(b).meaning().names);
    }
}

} // verus!
