//! Text as sequences of characters: comparison, search, numbers.

use vstd::prelude::*;
use vstd::string::*;

verus! {

/// What `str::to_lowercase` returns for a text.
pub uninterp spec fn lowercase(s: Seq<char>) -> Seq<char>;

/// What `char::is_numeric` returns for a character beyond ASCII.
pub uninterp spec fn numeric_beyond_ascii(c: char) -> bool;

/// `str::to_lowercase` of std: the Unicode lowercase of a text, which depends
/// on the text alone. Its value is named, not described.
pub assume_specification[ str::to_lowercase ](s: &str) -> (r: String)
    ensures
        r@ == lowercase(s@),
;

/// `char::is_numeric` of std: whether the character has one of the Unicode
/// general categories for numbers. Among the ASCII characters these are
/// exactly the ten digits; beyond ASCII the answer is named, not described.
pub assume_specification[ char::is_numeric ](c: char) -> (r: bool)
    ensures
        (c as u32) < 128 ==> r == is_digit(c),
        (c as u32) >= 128 ==> r == numeric_beyond_ascii(c),
;

/// `String::push` of std: the character is appended to the end of the text.
pub assume_specification[ String::push ](s: &mut String, c: char)
    ensures
        final(s)@ == old(s)@.push(c),
;

/// The characters of a text, in order.
pub fn chars_of(s: &str) -> (v: Vec<char>)
    ensures
        v@ == s@,
{
    let mut v: Vec<char> = Vec::new();
    for c in it: s.chars()
        invariant
            it.seq() == s@,
            v@ == s@.take(it.index() as int),
    {
        v.push(c);
        assert(v@ == s@.take(it.index() + 1));
    }
    assert(s@.take(s@.len() as int) == s@);
    v
}

/// Whether two texts hold the same characters.
pub fn same_text(a: &str, b: &str) -> (r: bool)
    ensures
        r == (a@ == b@),
{
    let x: Vec<char> = chars_of(a);
    let y: Vec<char> = chars_of(b);
    if x.len() != y.len() {
        return false;
    }
    let mut i: usize = 0;
    while i < x.len()
        invariant
            i <= x.len(),
            x.len() == y.len(),
            x@ == a@,
            y@ == b@,
            a@.take(i as int) == b@.take(i as int),
        decreases x.len() - i,
    {
        if x[i] != y[i] {
            assert(a@[i as int] != b@[i as int]);
            return false;
        }
        assert(a@.take(i + 1) == a@.take(i as int).push(a@[i as int]));
        assert(b@.take(i + 1) == b@.take(i as int).push(b@[i as int]));
        i += 1;
    }
    assert(a@.take(i as int) == a@);
    assert(b@.take(i as int) == b@);
    true
}

/// Whether the character is one of the ten ASCII digits.
pub open spec fn is_digit(c: char) -> bool {
    '0' <= c && c <= '9'
}

/// Whether the character has one of the Unicode general categories for numbers.
pub open spec fn numeric_char(c: char) -> bool {
    if (c as u32) < 128 {
        is_digit(c)
    } else {
        numeric_beyond_ascii(c)
    }
}

/// Whether `needle` stands in `hay` as one unbroken piece.
pub open spec fn has_infix(hay: Seq<char>, needle: Seq<char>) -> bool {
    exists|i: int| infix_at(hay, needle, i)
}

/// Whether `needle` stands in `hay` at position `i`.
pub open spec fn infix_at(hay: Seq<char>, needle: Seq<char>, i: int) -> bool {
    0 <= i && i + needle.len() <= hay.len() && hay.subrange(i, i + needle.len()) == needle
}

/// Whether `hay` contains `needle`; the empty text is contained in every text.
pub fn contains_text(hay: &str, needle: &str) -> (r: bool)
    ensures
        r == has_infix(hay@, needle@),
{
    let h: Vec<char> = chars_of(hay);
    let n: Vec<char> = chars_of(needle);
    if n.len() > h.len() {
        return false;
    }
    let last: usize = h.len() - n.len();
    let mut i: usize = 0;
    while i <= last
        invariant
            h@ == hay@,
            n@ == needle@,
            last == h.len() - n.len(),
            i <= last + 1,
            forall|k: int| 0 <= k < i ==> !infix_at(hay@, needle@, k),
        decreases last + 1 - i,
    {
        let mut j: usize = 0;
        while j < n.len() && h[i + j] == n[j]
            invariant
                h@ == hay@,
                n@ == needle@,
                i + n.len() <= h.len(),
                j <= n.len(),
                forall|k: int| 0 <= k < j ==> h@[i + k] == n@[k],
            decreases n.len() - j,
        {
            j += 1;
        }
        if j == n.len() {
            assert(hay@.subrange(i as int, i + needle@.len()) == needle@);
            assert(infix_at(hay@, needle@, i as int));
            return true;
        }
        assert(!infix_at(hay@, needle@, i as int)) by {
            assert(hay@.subrange(i as int, i + needle@.len())[j as int] != needle@[j as int]);
        }
        if i == last {
            return false;
        }
        i += 1;
    }
    false
}

/// The order of texts by the code points of their characters: at the first
/// difference the smaller character decides, and a text comes after its own
/// beginnings.
pub open spec fn text_le(a: Seq<char>, b: Seq<char>) -> bool
    decreases a.len(),
{
    if a.len() == 0 {
        true
    } else if b.len() == 0 {
        false
    } else if a[0] == b[0] {
        text_le(a.skip(1), b.skip(1))
    } else {
        a[0] < b[0]
    }
}

/// Whether `a` stands before `b`, or is `b`, in the order of texts.
pub fn text_not_after(a: &str, b: &str) -> (r: bool)
    ensures
        r == text_le(a@, b@),
{
    let x: Vec<char> = chars_of(a);
    let y: Vec<char> = chars_of(b);
    let mut i: usize = 0;
    assert(a@.skip(0) == a@);
    assert(b@.skip(0) == b@);
    while i < x.len()
        invariant
            i <= x.len(),
            i <= y.len(),
            x@ == a@,
            y@ == b@,
            text_le(a@, b@) == text_le(a@.skip(i as int), b@.skip(i as int)),
        decreases x.len() - i,
    {
        if i >= y.len() {
            return false;
        }
        if x[i] != y[i] {
            return x[i] < y[i];
        }
        assert(a@.skip(i as int).skip(1) == a@.skip(i + 1));
        assert(b@.skip(i as int).skip(1) == b@.skip(i + 1));
        i += 1;
    }
    true
}

/// The order of texts compares every two texts.
pub proof fn text_order_is_total(a: Seq<char>, b: Seq<char>)
    ensures
        text_le(a, b) || text_le(b, a),
    decreases a.len(),
{
    if a.len() > 0 && b.len() > 0 && a[0] == b[0] {
        text_order_is_total(a.skip(1), b.skip(1));
    }
}

/// Two texts each of which is not after the other are the same text.
pub proof fn text_order_is_antisymmetric(a: Seq<char>, b: Seq<char>)
    requires
        text_le(a, b),
        text_le(b, a),
    ensures
        a == b,
    decreases a.len(),
{
    if a.len() > 0 && b.len() > 0 {
        text_order_is_antisymmetric(a.skip(1), b.skip(1));
        assert(a == seq![a[0]] + a.skip(1));
        assert(b == seq![b[0]] + b.skip(1));
    } else {
        assert(a == b);
    }
}

/// The order of texts is transitive.
pub proof fn text_order_is_transitive(a: Seq<char>, b: Seq<char>, c: Seq<char>)
    requires
        text_le(a, b),
        text_le(b, c),
    ensures
        text_le(a, c),
    decreases a.len(),
{
    if a.len() > 0 && a[0] == b[0] && b[0] == c[0] {
        text_order_is_transitive(a.skip(1), b.skip(1), c.skip(1));
    }
}

/// The digits are the ten characters from code point 48 on. Of the ASCII
/// characters they alone are numeric; beyond ASCII, those that Unicode says.
pub proof fn digits_are_ten(c: char)
    ensures
        is_digit(c) <==> 48 <= c as u32 <= 57,
        (c as u32) < 128 ==> (numeric_char(c) <==> 48 <= c as u32 <= 57),
        (c as u32) >= 128 ==> (numeric_char(c) <==> numeric_beyond_ascii(c)),
{
}

/// A text contains every piece that stands in it, whatever is before and after.
pub proof fn pieces_are_contained(before: Seq<char>, piece: Seq<char>, after: Seq<char>)
    ensures
        has_infix(before + piece + after, piece),
{
    let hay = before + piece + after;
    let i = before.len() as int;
    assert(hay.subrange(i, i + piece.len()) == piece);
    assert(infix_at(hay, piece, i));
}

/// A text that contains a piece is that piece with something before and
/// something after it.
pub proof fn containing_texts_fall_apart(hay: Seq<char>, piece: Seq<char>) -> (r: (
    Seq<char>,
    Seq<char>,
))
    requires
        has_infix(hay, piece),
    ensures
        hay == r.0 + piece + r.1,
{
    let i = choose|i: int| infix_at(hay, piece, i);
    let r = (hay.take(i), hay.skip(i + piece.len()));
    assert(hay.subrange(i, i + piece.len()) == piece);
    assert forall|k: int| 0 <= k < hay.len() implies hay[k] == (r.0 + piece + r.1)[k] by {
        if i <= k < i + piece.len() {
            assert(hay.subrange(i, i + piece.len())[k - i] == hay[k]);
        }
    }
    assert(hay =~= r.0 + piece + r.1);
    r
}

/// A text stands before every continuation of it, and no longer one before it.
pub proof fn beginnings_come_first(a: Seq<char>, more: Seq<char>)
    ensures
        text_le(a, a + more),
        more.len() > 0 ==> !text_le(a + more, a),
    decreases a.len(),
{
    if a.len() > 0 {
        beginnings_come_first(a.skip(1), more);
        assert((a + more).skip(1) == a.skip(1) + more);
        assert((a + more)[0] == a[0]);
    }
}

/// Of two texts that begin alike, the one that goes on with the smaller
/// character stands before the other, whatever follows.
pub proof fn first_difference_decides(
    alike: Seq<char>,
    smaller: char,
    greater: char,
    x: Seq<char>,
    y: Seq<char>,
)
    requires
        (smaller as u32) < (greater as u32),
    ensures
        text_le(alike.push(smaller) + x, alike.push(greater) + y),
        !text_le(alike.push(greater) + y, alike.push(smaller) + x),
    decreases alike.len(),
{
    let a = alike.push(smaller) + x;
    let b = alike.push(greater) + y;
    if alike.len() > 0 {
        let rest = alike.skip(1);
        first_difference_decides(rest, smaller, greater, x, y);
        assert(a.skip(1) == rest.push(smaller) + x);
        assert(b.skip(1) == rest.push(greater) + y);
        assert(a[0] == alike[0] && b[0] == alike[0]);
    } else {
        assert(a[0] == smaller && b[0] == greater);
    }
}

} // verus!
