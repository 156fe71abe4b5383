//! Character-level operations on strings: comparison, prefix and suffix tests, trimming, and
//! truncation to a number of UTF-8 bytes.

use vstd::prelude::*;
use vstd::utf8::*;

verus! {

/// The lower-case form of an ASCII letter; every other character stands for itself.
pub open spec fn ascii_lower_char(c: char) -> char {
    if 'A' <= c <= 'Z' {
        (c as u32 + 32) as char
    } else {
        c
    }
}

/// `s` with every ASCII letter in lower case.
pub open spec fn ascii_lower(s: Seq<char>) -> Seq<char> {
    s.map_values(|c: char| ascii_lower_char(c))
}

/// `needle` can be read in `s` from position `at` on.
pub open spec fn occurs_at(s: Seq<char>, needle: Seq<char>, at: int) -> bool {
    &&& 0 <= at
    &&& at + needle.len() <= s.len()
    &&& s.subrange(at, at + needle.len()) == needle
}

/// `s` without the run of `c` at its end.
pub open spec fn trim_end(s: Seq<char>, c: char) -> Seq<char>
    decreases s.len(),
{
    if s.len() > 0 && s.last() == c {
        trim_end(s.drop_last(), c)
    } else {
        s
    }
}

/// The number of bytes that the UTF-8 encoding of `c` takes.
pub open spec fn utf8_width(c: char) -> nat {
    encode_scalar(c as u32).len()
}

/// The longest prefix of `s` whose UTF-8 encoding takes at most `max` bytes.
pub open spec fn utf8_prefix(s: Seq<char>, max: int) -> Seq<char>
    decreases s.len(),
{
    if s.len() == 0 || utf8_width(s[0]) > max {
        Seq::empty()
    } else {
        seq![s[0]] + utf8_prefix(s.drop_first(), max - utf8_width(s[0]))
    }
}

/// `utf8_prefix` is a prefix, fits, and one character more would not fit.
pub proof fn utf8_prefix_is_longest(s: Seq<char>, max: int)
    requires
        0 <= max,
    ensures
        utf8_prefix(s, max).is_prefix_of(s),
        encode_utf8(utf8_prefix(s, max)).len() <= max,
        forall|n: int|
            utf8_prefix(s, max).len() < n <= s.len() ==> encode_utf8(#[trigger] s.take(n)).len()
                > max,
    decreases s.len(),
{
    if s.len() > 0 {
        let w = utf8_width(s[0]);
        let rest = s.drop_first();
        if w <= max {
            let p = utf8_prefix(rest, max - w);
            utf8_prefix_is_longest(rest, max - w);
            let q = utf8_prefix(s, max);
            assert(q.drop_first() =~= p);
            assert(s =~= seq![s[0]] + rest);
            assert(q =~= s.take(q.len() as int)) by {
                assert(p =~= rest.take(p.len() as int));
            }
            assert forall|n: int| q.len() < n <= s.len() implies encode_utf8(
                #[trigger] s.take(n),
            ).len() > max by {
                assert(s.take(n).drop_first() =~= rest.take(n - 1));
            }
        } else {
            assert forall|n: int| 0 < n <= s.len() implies encode_utf8(#[trigger] s.take(n)).len()
                > max by {
                assert(s.take(n)[0] == s[0]);
            }
        }
    }
}

/// What follows a text that fills `max` bytes by itself does not matter.
pub proof fn utf8_prefix_of_long_text(p: Seq<char>, q: Seq<char>, max: int)
    requires
        encode_utf8(p).len() >= max,
    ensures
        utf8_prefix(p + q, max) == utf8_prefix(p, max),
    decreases p.len(),
{
    let s = p + q;
    if p.len() == 0 {
        assert(utf8_prefix(s, max) =~= Seq::empty());
    } else {
        assert(s.drop_first() =~= p.drop_first() + q);
        utf8_prefix_of_long_text(p.drop_first(), q, max - utf8_width(p[0]));
    }
}

/// A prefix that fits, and that the next character would make too long, is `utf8_prefix`.
proof fn lemma_utf8_prefix_unique(p: Seq<char>, q: Seq<char>, max: int)
    requires
        encode_utf8(p).len() <= max,
        q.len() > 0 ==> encode_utf8(p).len() + utf8_width(q[0]) > max,
    ensures
        utf8_prefix(p + q, max) == p,
    decreases p.len(),
{
    let s = p + q;
    if p.len() == 0 {
        assert(s =~= q);
    } else {
        assert(s.drop_first() =~= p.drop_first() + q);
        lemma_utf8_prefix_unique(p.drop_first(), q, max - utf8_width(p[0]));
        assert(utf8_prefix(s, max) =~= p);
    }
}

/// The encoding of `p + q` is that of `p` followed by that of `q`, with a character boundary in
/// between.
pub proof fn lemma_boundary_after_prefix(p: Seq<char>, q: Seq<char>)
    ensures
        encode_utf8(p + q) == encode_utf8(p) + encode_utf8(q),
        is_char_boundary(encode_utf8(p + q), encode_utf8(p).len() as int),
    decreases p.len(),
{
    let s = p + q;
    encode_utf8_valid_utf8(s);
    if p.len() == 0 {
        assert(s =~= q);
        assert(encode_utf8(p) =~= Seq::<u8>::empty());
        assert(encode_utf8(s) =~= encode_utf8(p) + encode_utf8(q));
    } else {
        let rest = p.drop_first();
        assert(s.drop_first() =~= rest + q);
        lemma_boundary_after_prefix(rest, q);
        encode_utf8_first_scalar(s);
        assert(pop_first_scalar(encode_utf8(s)) =~= encode_utf8(s.drop_first()));
        assert(encode_utf8(s) =~= encode_utf8(p) + encode_utf8(q));
    }
}

/// The bytes up to the last boundary at or below `max` encode `utf8_prefix`.
proof fn lemma_cut_is_utf8_prefix(s: Seq<char>, p: Seq<char>, cut: int, max: int)
    requires
        0 <= cut <= max,
        cut <= encode_utf8(s).len(),
        is_char_boundary(encode_utf8(s), cut),
        forall|b: int|
            cut < b <= max && b <= encode_utf8(s).len() ==> !is_char_boundary(encode_utf8(s), b),
        encode_utf8(p) == encode_utf8(s).subrange(0, cut),
    ensures
        p == utf8_prefix(s, max),
{
    let bytes = encode_utf8(s);
    encode_utf8_valid_utf8(s);
    encode_utf8_decode_utf8(s);
    encode_utf8_decode_utf8(p);
    decode_utf8_split(bytes, cut);
    let q = decode_utf8(bytes.subrange(cut, bytes.len() as int));
    assert(s == p + q);
    if q.len() > 0 {
        let p1 = p.push(q[0]);
        assert(s =~= p1 + q.drop_first());
        lemma_boundary_after_prefix(p1, q.drop_first());
        assert(p1 =~= p + seq![q[0]]);
        lemma_boundary_after_prefix(p, seq![q[0]]);
        let one = seq![q[0]];
        assert(one.drop_first() =~= Seq::<char>::empty());
        assert(encode_utf8(one.drop_first()) =~= Seq::<u8>::empty());
        assert(encode_utf8(one) =~= encode_scalar(one[0] as u32));
        assert(encode_utf8(p1).len() == cut + utf8_width(q[0]));
    }
    lemma_utf8_prefix_unique(p, q, max);
}

/// The characters of `s` in order.
pub(crate) fn chars_of(s: &str) -> (v: Vec<char>)
    ensures
        v@ == s@,
{
    let mut v: Vec<char> = Vec::new();
    for c in it: s.chars()
        invariant
            v@ == it.seq().take(it.index() as int),
            it.seq() == s@,
    {
        v.push(c);
    }
    v
}

/// Whether `needle` can be read in `s` from position `at` on.
pub(crate) fn occurs_in(s: &Vec<char>, needle: &Vec<char>, at: usize) -> (r: bool)
    ensures
        r == occurs_at(s@, needle@, at as int),
{
    if at > s.len() || needle.len() > s.len() - at {
        return false;
    }
    let mut i: usize = 0;
    while i < needle.len()
        invariant
            i <= needle.len(),
            at + needle.len() <= s.len(),
            forall|j: int| 0 <= j < i ==> s[at + j] == needle[j],
        decreases needle.len() - i,
    {
        if s[at + i] != needle[i] {
            assert(s@.subrange(at as int, at + needle.len())[i as int] != needle@[i as int]);
            return false;
        }
        i += 1;
    }
    assert(s@.subrange(at as int, at + needle.len()) =~= needle@);
    true
}

/// Whether `s` and `t` hold the same characters.
pub(crate) fn same_text(s: &str, t: &str) -> (r: bool)
    ensures
        r == (s@ == t@),
{
    let a = chars_of(s);
    let b = chars_of(t);
    assert(a@.len() == b@.len() ==> a@.subrange(0, b@.len() as int) =~= a@);
    a.len() == b.len() && occurs_in(&a, &b, 0)
}

/// Whether `s` ends with `suffix`.
pub(crate) fn ends_with(s: &str, suffix: &str) -> (r: bool)
    ensures
        r == suffix@.is_suffix_of(s@),
{
    let a = chars_of(s);
    let b = chars_of(suffix);
    b.len() <= a.len() && occurs_in(&a, &b, a.len() - b.len())
}

/// Whether `s` in lower case starts with `prefix`.
pub(crate) fn lower_starts_with(s: &str, prefix: &str) -> (r: bool)
    ensures
        r == prefix@.is_prefix_of(ascii_lower(s@)),
{
    let a = chars_of(s);
    let b = chars_of(prefix);
    if b.len() > a.len() {
        return false;
    }
    let mut i: usize = 0;
    while i < b.len()
        invariant
            i <= b.len() <= a.len(),
            a@ == s@,
            b@ == prefix@,
            forall|j: int| 0 <= j < i ==> ascii_lower_char(a[j]) == b[j],
        decreases b.len() - i,
    {
        let c = a[i];
        let lower = if c >= 'A' && c <= 'Z' {
            (c as u8 + 32) as char
        } else {
            c
        };
        if lower != b[i] {
            assert(ascii_lower(s@).subrange(0, prefix@.len() as int)[i as int] != prefix@[i as int]);
            return false;
        }
        i += 1;
    }
    assert(ascii_lower(s@).subrange(0, prefix@.len() as int) =~= prefix@);
    true
}

/// `s` without the run of `c` at its end.
pub(crate) fn trim_end_matches(s: &str, c: char) -> (r: &str)
    ensures
        r@ == trim_end(s@, c),
{
    let a = chars_of(s);
    let mut n: usize = a.len();
    assert(s@.take(n as int) =~= s@);
    while n > 0 && a[n - 1] == c
        invariant
            n <= a.len(),
            a@ == s@,
            trim_end(s@.take(n as int), c) == trim_end(s@, c),
        decreases n,
    {
        n -= 1;
        assert(s@.take(n + 1).drop_last() =~= s@.take(n as int));
    }
    assert(s@.subrange(0, n as int) =~= s@.take(n as int));
    s.substring_char(0, n)
}

/// Cuts `text` to at most `max` UTF-8 bytes without splitting a character.
pub(crate) fn truncate_utf8(text: &str, max: usize) -> (r: String)
    ensures
        r@ == utf8_prefix(text@, max as int),
{
    let len = text.as_bytes().len();
    proof {
        encode_utf8_valid_utf8(text@);
        is_char_boundary_start_end_of_seq(encode_utf8(text@));
    }
    let mut cut: usize = if len < max {
        len
    } else {
        max
    };
    while !text.is_char_boundary(cut)
        invariant
            cut <= max,
            cut <= len,
            len == encode_utf8(text@).len(),
            valid_utf8(encode_utf8(text@)),
            is_char_boundary(encode_utf8(text@), 0),
            forall|b: int| cut < b <= max && b <= len ==> !is_char_boundary(encode_utf8(text@), b),
        decreases cut,
    {
        cut -= 1;
    }
    let (head, _) = text.split_at(cut);
    proof {
        lemma_cut_is_utf8_prefix(text@, head@, cut as int, max as int);
    }
    head.to_owned()
}

} // verus!
