//! What holds of all paths: how they are written on, which names they are made
//! of, when they are the same, and what lies above them.

use vstd::prelude::*;

use crate::path::{floating, is_separator, lemma_leading_add, lemma_one_piece, lemma_parent_ends, lemma_pieces, lemma_pieces_add, lemma_plain_pieces, names_in, pieces, FsPath, PathView, Platform};

verus! {

/// A path is its root and its body as they are written, on its platform.
pub proof fn paths_say_what_is_written(p: FsPath)
    ensures
        p.deep_view() == p@,
        p@.platform == p.platform,
        p@.root == p.root@,
        p@.body == p.body@,
        p@.written() == p.root@ + p.body@,
{
}

/// A slash separates names everywhere, a backslash on Windows alone, and nothing
/// else does.
pub proof fn slashes_separate(platform: Platform, c: char)
    ensures
        is_separator(platform, c) <==> (c as u32 == 47 || (c as u32 == 92 && platform
            == Platform::Windows)),
{
}

/// A relative text is written after the path, with one separator between them
/// unless there is nothing before it, a separator already, or a bare drive: a
/// backslash on Windows, and a slash elsewhere. Root and platform stay.
pub proof fn texts_are_written_after(dir: PathView, text: Seq<char>)
    ensures
        ({
            let windows = dir.platform == Platform::Windows;
            let w = dir.root + dir.body;
            let r = dir.below(text);
            let ends_apart = w.last() == '/' || (windows && w.last() == '\\');
            let bare_drive = windows && dir.body.len() == 0 && w.last() == ':';
            &&& r.platform == dir.platform
            &&& r.root == dir.root
            &&& w.len() == 0 ==> r.root + r.body == text
            &&& w.len() > 0 && (ends_apart || bare_drive) ==> r.root + r.body == w + text
            &&& w.len() > 0 && !ends_apart && !bare_drive ==> r.root + r.body == w + seq![
                if windows { '\\' } else { '/' },
            ] + text
        }),
{
    let w = dir.root + dir.body;
    let r = dir.below(text);
    assert(dir.written() == w);
    if w.len() == 0 {
        assert(r.root + r.body =~= text);
    } else if dir.open_ended() {
        assert(r.root + r.body =~= w + text);
    } else {
        assert(r.root + r.body =~= w + seq![
            if dir.platform == Platform::Windows { '\\' } else { '/' },
        ] + text);
    }
}

/// A text that starts with a slash takes the place of the path; any other is
/// written after it.
pub proof fn slashes_start_anew(dir: PathView, text: Seq<char>)
    ensures
        dir.join(text).platform == dir.platform,
        text.len() > 0 && text[0] == '/' ==> dir.join(text).root == seq!['/'] && dir.join(text).root
            + dir.join(text).body == text,
        text.len() == 0 || text[0] != '/' ==> dir.join(text) == dir.below(text),
{
    if text.len() > 0 && text[0] == '/' {
        assert(seq!['/'] + text.drop_first() =~= text);
    }
}

/// A separator ends the names before it and begins those after it, as long as
/// the path starts at a root.
pub proof fn separators_part_names(
    platform: Platform,
    root: Seq<char>,
    a: Seq<char>,
    c: char,
    b: Seq<char>,
)
    requires
        root.len() > 0,
        platform == Platform::Windows ==> root.last() != ':',
        c == '/' || (c == '\\' && platform == Platform::Windows),
    ensures
        names_in(platform, root, a.push(c) + b) == names_in(platform, root, a) + names_in(
            platform,
            root,
            b,
        ),
{
    let none = Seq::<char>::empty();
    let x = pieces(platform, a);
    let y = pieces(platform, b);
    lemma_pieces(platform, a);
    lemma_pieces_add(platform, a.push(c), b);
    assert(a.push(c).drop_last() == a);
    assert(pieces(platform, a.push(c)) == x.push(none));
    assert(none + y.first() == y.first());
    assert(pieces(platform, a.push(c) + b) =~= x + y);
    lemma_leading_add(x, y);
}

/// A text without separators is one name, unless it is empty or stands for the
/// directory itself.
pub proof fn plain_texts_are_names(platform: Platform, root: Seq<char>, text: Seq<char>)
    requires
        root.len() > 0,
        platform == Platform::Windows ==> root.last() != ':',
        forall|i: int|
            0 <= i < text.len() ==> #[trigger] text[i] != '/' && (platform == Platform::Windows
                ==> text[i] != '\\'),
    ensures
        names_in(platform, root, text) == if text.len() == 0 || text == seq!['.'] {
            Seq::<Seq<char>>::empty()
        } else {
            seq![text]
        },
{
    assert forall|i: int| 0 <= i < text.len() implies !is_separator(
        platform,
        #[trigger] text[i],
    ) by {
        assert(text[i] != '/');
    }
    lemma_plain_pieces(platform, text);
    lemma_one_piece(pieces(platform, text));
}

proof fn lemma_first_piece(platform: Platform, text: Seq<char>)
    ensures
        text.len() == 0 || is_separator(platform, text[0]) ==> pieces(platform, text).first()
            == Seq::<char>::empty(),
        text.len() > 0 && !is_separator(platform, text[0]) ==> pieces(platform, text).first()
            == seq![text[0]] + pieces(platform, text.skip(1)).first(),
{
    let none = Seq::<char>::empty();
    if text.len() > 0 {
        let one = seq![text[0]];
        let rest = text.skip(1);
        assert(one + rest == text);
        assert(one.drop_last() == none);
        assert(one.last() == text[0]);
        assert(pieces(platform, none) == seq![none]);
        lemma_pieces_add(platform, one, rest);
        if is_separator(platform, text[0]) {
            assert(pieces(platform, one) =~= seq![none].push(none));
            assert(pieces(platform, one).drop_last().first() == none);
        } else {
            assert(none.push(text[0]) =~= one);
            assert(pieces(platform, one) =~= seq![none].drop_last().push(one));
        }
    } else {
        assert(text == none);
    }
}

/// Where a path starts at no root, the same names lead on, after the current
/// directory where the path starts with that.
pub proof fn relative_paths_keep_their_dot(platform: Platform, root: Seq<char>, body: Seq<char>)
    requires
        root.len() == 0 || (platform == Platform::Windows && root.last() == ':'),
    ensures
        ({
            let dot = body.len() > 0 && body[0] == '.' && (body.len() == 1 || is_separator(
                platform,
                body[1],
            ));
            let rest = names_in(platform, seq!['/'], body);
            names_in(platform, root, body) == if dot {
                seq![seq!['.']] + rest
            } else {
                rest
            }
        }),
{
    lemma_first_piece(platform, body);
    lemma_first_piece(platform, body.skip(1));
    let none = Seq::<char>::empty();
    let first = pieces(platform, body).first();
    if body.len() > 0 && !is_separator(platform, body[0]) {
        let next = pieces(platform, body.skip(1)).first();
        assert(first == seq![body[0]] + next);
        if body.len() == 1 || is_separator(platform, body[1]) {
            assert(next == none);
            assert(first =~= seq![body[0]]);
        } else {
            assert(next.len() > 0);
            assert(first.len() > 1);
        }
        assert(first == seq!['.'] ==> first[0] == '.');
    }
    assert(!floating(platform, seq!['/']));
}

/// Paths are the same exactly when they belong to the same platform, start at
/// the same root and lead on by the same names. Elsewhere than on Windows roots
/// are the same when they are written alike.
pub proof fn same_paths_lead_alike(a: PathView, b: PathView)
    ensures
        a.same(b) ==> a.platform == b.platform && a.root.len() == b.root.len() && a.names()
            == b.names(),
        a.platform == b.platform && a.root == b.root && a.names() == b.names() ==> a.same(b),
        a.platform == Platform::Other ==> (a.same(b) <==> b.platform == Platform::Other && a.root
            == b.root && a.names() == b.names()),
{
    let x = a.meaning();
    let y = b.meaning();
    if a.same(b) {
        assert(x.root.len() == y.root.len());
        assert(x.names == y.names);
        if a.platform == Platform::Other {
            assert forall|i: int| 0 <= i < a.root.len() implies a.root[i] == b.root[i] by {
                assert(x.root[i] == y.root[i]);
            }
            assert(a.root =~= b.root);
        }
    }
    if a.platform == b.platform && a.root == b.root && a.names() == b.names() {
        assert(x =~= y);
    }
}

/// On Windows the two cases of a drive's letter are the same, and so are the two
/// kinds of separator after it; different letters are different drives.
pub proof fn drives_are_told_by_their_letters(x: char, y: char, s: char, t: char, body: Seq<char>)
    requires
        'A' <= x && x <= 'Z',
        'A' <= y && y <= 'Z',
        s == '/' || s == '\\',
        t == '/' || t == '\\',
    ensures
        ({
            let small = (x as u32 + 32) as char;
            let p = PathView { platform: Platform::Windows, root: seq![x, ':', s], body };
            let q = PathView { platform: Platform::Windows, root: seq![small, ':', t], body };
            let r = PathView { platform: Platform::Windows, root: seq![y, ':', t], body };
            &&& p.same(q)
            &&& p.same(r) <==> x == y
        }),
{
    let small = (x as u32 + 32) as char;
    let p = PathView { platform: Platform::Windows, root: seq![x, ':', s], body };
    let q = PathView { platform: Platform::Windows, root: seq![small, ':', t], body };
    let r = PathView { platform: Platform::Windows, root: seq![y, ':', t], body };
    assert(p.meaning().root =~= seq![x, ':', '\\']);
    assert(q.meaning().root =~= seq![x, ':', '\\']);
    assert(r.meaning().root =~= seq![y, ':', '\\']);
    assert(!floating(Platform::Windows, p.root));
    assert(!floating(Platform::Windows, q.root));
    assert(!floating(Platform::Windows, r.root));
    assert(p.meaning() =~= q.meaning());
    if x == y {
        assert(p.meaning() =~= r.meaning());
    } else {
        assert(seq![x, ':', '\\'][0] != seq![y, ':', '\\'][0]);
    }
}

/// The parent of a path has all its names but the last and starts where it
/// starts; it is written as the path is, up to where those names end. A path
/// without names has none.
pub proof fn parents_drop_the_last_name(path: PathView)
    ensures
        path.parent() is Some <==> path.names().len() > 0,
        path.parent() matches Some(up) ==> {
            &&& up.platform == path.platform
            &&& up.root == path.root
            &&& up.names() == path.names().drop_last()
            &&& up.body.len() <= path.body.len()
            &&& up.body == path.body.take(up.body.len() as int)
            &&& forall|n: int|
                0 <= n < up.body.len() ==> names_in(
                    path.platform,
                    path.root,
                    #[trigger] path.body.take(n),
                ) != up.names()
        },
{
    if path.names().len() > 0 {
        lemma_parent_ends(path);
        let end = choose|end: int| path.parent_ends(end);
        let up = path.upto(end);
        assert(path.parent() == Some(up));
        assert(up.body.len() == end);
        assert forall|n: int| 0 <= n < up.body.len() implies names_in(
            path.platform,
            path.root,
            #[trigger] path.body.take(n),
        ) != up.names() by {
            assert(path.upto(n).names() != path.names().drop_last());
        }
    }
}

/// On Windows roots are the same when at each place they have the same character,
/// or a separator each; only at the letter of a drive may they differ otherwise.
pub proof fn roots_are_compared_place_by_place(a: PathView, b: PathView)
    requires
        a.platform == Platform::Windows,
        b.platform == Platform::Windows,
    ensures
        a.same(b) ==> forall|i: int|
            0 <= i < a.root.len() ==> {
                ||| #[trigger] a.root[i] == b.root[i]
                ||| is_separator(Platform::Windows, a.root[i]) && is_separator(
                    Platform::Windows,
                    b.root[i],
                )
                ||| i == 0 && a.root.len() > 1 && a.root[1] == ':' && b.root[1] == ':'
            },
        a.root.len() == b.root.len() && a.names() == b.names() && (forall|i: int|
            0 <= i < a.root.len() ==> #[trigger] a.root[i] == b.root[i] || (is_separator(
                Platform::Windows,
                a.root[i],
            ) && is_separator(Platform::Windows, b.root[i]))) ==> a.same(b),
{
    let x = a.meaning();
    let y = b.meaning();
    if a.same(b) {
        assert(x.root.len() == y.root.len());
        assert forall|i: int| 0 <= i < a.root.len() implies {
            ||| #[trigger] a.root[i] == b.root[i]
            ||| is_separator(Platform::Windows, a.root[i]) && is_separator(
                Platform::Windows,
                b.root[i],
            )
            ||| i == 0 && a.root.len() > 1 && a.root[1] == ':' && b.root[1] == ':'
        } by {
            assert(x.root[i] == y.root[i]);
            if a.root.len() > 1 {
                assert(x.root[1] == y.root[1]);
            }
        }
    }
    if a.root.len() == b.root.len() && a.names() == b.names() && (forall|i: int|
        0 <= i < a.root.len() ==> #[trigger] a.root[i] == b.root[i] || (is_separator(
            Platform::Windows,
            a.root[i],
        ) && is_separator(Platform::Windows, b.root[i]))) {
        assert forall|i: int| 0 <= i < a.root.len() implies x.root[i] == y.root[i] by {
            assert(a.root[i] == b.root[i] || (is_separator(Platform::Windows, a.root[i])
                && is_separator(Platform::Windows, b.root[i])));
            if a.root.len() > 1 {
                assert(a.root[1] == b.root[1] || (is_separator(Platform::Windows, a.root[1])
                    && is_separator(Platform::Windows, b.root[1])));
            }
        }
        assert(x =~= y);
    }
}

/// Every text can be joined to a path, except on Windows one with a colon or with
/// a separator at its start.
pub proof fn texts_can_be_joined(dir: PathView, text: Seq<char>)
    ensures
        dir.platform == Platform::Other ==> dir.joinable(text),
        dir.platform == Platform::Windows && (text.len() == 0 || (text[0] != '/' && text[0]
            != '\\')) && (forall|i: int| 0 <= i < text.len() ==> #[trigger] text[i] != ':')
            ==> dir.joinable(text),
{
}

} // verus!
