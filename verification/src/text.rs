//! Small verified string operations used by the parsers and the renderers.

use vstd::prelude::*;
use vstd::string::*;
use vstd::utf8::*;

verus! {

/// Two strings are equal exactly when their UTF-8 bytes are.
pub proof fn lemma_bytes_eq_iff_chars_eq(a: &str, b: &str)
    ensures
        (a.spec_bytes() == b.spec_bytes()) <==> (a@ == b@),
{
    if a.spec_bytes() == b.spec_bytes() {
        encode_utf8_decode_utf8(a@);
        encode_utf8_decode_utf8(b@);
    }
}

/// Whether `a` and `b` hold the same text.
pub fn str_eq(a: &str, b: &str) -> (r: bool)
    ensures
        r == (a@ == b@),
{
    proof { lemma_bytes_eq_iff_chars_eq(a, b); }
    let x = a.as_bytes();
    let y = b.as_bytes();
    if x.len() != y.len() {
        return false;
    }
    let mut i: usize = 0;
    while i < x.len()
        invariant
            i <= x@.len(),
            x@.len() == y@.len(),
            x@ == a.spec_bytes(),
            y@ == b.spec_bytes(),
            (a.spec_bytes() == b.spec_bytes()) <==> (a@ == b@),
            forall|j: int| 0 <= j < i ==> x@[j] == y@[j],
        decreases x@.len() - i,
    {
        if x[i] != y[i] {
            assert(x@ != y@);
            return false;
        }
        i = i + 1;
    }
    assert(x@ =~= y@);
    true
}


/// `n` spaces.
pub open spec fn spaces(n: nat) -> Seq<char> {
    Seq::new(n, |i: int| ' ')
}

/// `s` padded on the right with spaces to `width` characters; longer text is
/// left as it is (as `{:<width}` formats a string).
pub open spec fn padded(s: Seq<char>, width: nat) -> Seq<char> {
    if s.len() >= width {
        s
    } else {
        s + spaces((width - s.len()) as nat)
    }
}

/// Left-aligning keeps the text in front and fills the field with spaces:
/// the result is `max(len, width)` long, starts with `s`, and holds only
/// spaces after it.
pub proof fn lemma_padded(s: Seq<char>, width: nat)
    ensures
        padded(s, width).len() == if s.len() >= width { s.len() } else { width },
        padded(s, width).take(s.len() as int) == s,
        forall|i: int| s.len() <= i < padded(s, width).len() ==> #[trigger] padded(s, width)[i] == ' ',
{
    assert(padded(s, width).take(s.len() as int) =~= s);
}

/// `s` left-aligned in a field of `width` characters.
pub fn pad_right(s: &str, width: usize) -> (r: String)
    ensures
        r@ == padded(s@, width as nat),
{
    let mut r = s.to_owned();
    let mut n = s.unicode_len();
    while n < width
        invariant
            s@.len() <= n,
            n == s@.len() || n <= width,
            n == r@.len(),
            r@ =~= s@ + spaces((n - s@.len()) as nat),
        decreases width - n,
    {
        r.append(" ");
        proof {
            reveal_strlit(" ");
        }
        n = n + 1;
    }
    proof {
        if s@.len() >= width {
            assert(n == s@.len());
            assert(r@ =~= s@);
        }
    }
    r
}

/// `s` padded on the left with spaces to `width` characters; longer text is
/// left as it is (as `{:>width}` formats a string).
pub open spec fn padded_left(s: Seq<char>, width: nat) -> Seq<char> {
    if s.len() >= width {
        s
    } else {
        spaces((width - s.len()) as nat) + s
    }
}

/// Right-aligning puts spaces in front of the text: the result is
/// `max(len, width)` long, ends with `s`, and holds only spaces before it.
pub proof fn lemma_padded_left(s: Seq<char>, width: nat)
    ensures
        padded_left(s, width).len() == if s.len() >= width { s.len() } else { width },
        padded_left(s, width).skip(padded_left(s, width).len() - s.len()) == s,
        forall|i: int| 0 <= i < padded_left(s, width).len() - s.len() ==> #[trigger] padded_left(s, width)[i] == ' ',
{
    assert(padded_left(s, width).skip(padded_left(s, width).len() - s.len()) =~= s);
}

/// `s` right-aligned in a field of `width` characters.
pub fn pad_left(s: &str, width: usize) -> (r: String)
    ensures
        r@ == padded_left(s@, width as nat),
{
    let len = s.unicode_len();
    let mut r = String::new();
    let mut n: usize = 0;
    while len + n < width
        invariant
            len == s@.len(),
            r@ =~= spaces(n as nat),
            len + n <= width || n == 0,
        decreases width - n,
    {
        r.append(" ");
        proof {
            reveal_strlit(" ");
        }
        n = n + 1;
    }
    r.append(s);
    proof {
        if len >= width {
            assert(n == 0);
            assert(r@ =~= s@);
        } else {
            assert(n == width - len);
        }
    }
    r
}

/// The parts joined with `sep` between each two of them.
pub open spec fn joined(parts: Seq<Seq<char>>, sep: Seq<char>) -> Seq<char>
    decreases parts.len(),
{
    if parts.len() == 0 {
        Seq::<char>::empty()
    } else if parts.len() == 1 {
        parts[0]
    } else {
        joined(parts.drop_last(), sep) + sep + parts.last()
    }
}

/// The texts of a list of strings.
pub open spec fn texts(v: Seq<String>) -> Seq<Seq<char>> {
    v.map_values(|s: String| s@)
}

/// Joins the strings with `sep` between each two of them.
pub fn join(parts: &Vec<String>, sep: &str) -> (r: String)
    ensures
        r@ == joined(texts(parts@), sep@),
{
    let mut r = String::new();
    let mut i: usize = 0;
    while i < parts.len()
        invariant
            i <= parts@.len(),
            r@ == joined(texts(parts@.take(i as int)), sep@),
        decreases parts@.len() - i,
    {
        let ghost pre = texts(parts@.take(i as int));
        let ghost next = texts(parts@.take(i + 1));
        assert(next.drop_last() =~= pre);
        assert(next.last() == parts@[i as int]@);
        if i > 0 {
            r.append(sep);
        } else {
            assert(next.len() == 1);
            assert(r@ =~= Seq::<char>::empty());
        }
        r.append(parts[i].as_str());
        i = i + 1;
    }
    assert(parts@.take(parts@.len() as int) =~= parts@);
    r
}

} // verus!
