//! Character-level helpers over source texts.
use vstd::prelude::*;

verus! {

pub assume_specification[ std::string::String::push ](s: &mut std::string::String, ch: char)
    ensures
        final(s)@ == old(s)@.push(ch),
;

/// The characters of `text`, in order.
pub fn chars_of(text: &str) -> (r: Vec<char>)
    ensures
        r@ == text@,
{
    let mut v: Vec<char> = Vec::new();
    for c in it: text.chars()
        invariant
            v@ == it.seq().take(it.index() as int),
    {
        v.push(c);
    }
    v
}

} // verus!

verus! {

/// The UTF-8 byte offset of character position `i` of `s`.
pub open spec fn byte_offset(s: Seq<char>, i: int) -> int {
    vstd::utf8::encode_utf8(s.subrange(0, i)).len() as int
}

pub proof fn lemma_encode_concat(a: Seq<char>, b: Seq<char>)
    ensures
        vstd::utf8::encode_utf8(a + b) == vstd::utf8::encode_utf8(a) + vstd::utf8::encode_utf8(b),
    decreases a.len(),
{
    if a.len() == 0 {
        assert(a + b =~= b);
        assert(vstd::utf8::encode_utf8(a) =~= Seq::<u8>::empty());
        assert(Seq::<u8>::empty() + vstd::utf8::encode_utf8(b) =~= vstd::utf8::encode_utf8(b));
    } else {
        lemma_encode_concat(a.drop_first(), b);
        assert((a + b).drop_first() =~= a.drop_first() + b);
        assert((a + b)[0] == a[0]);
        assert(vstd::utf8::encode_utf8(a + b) =~= vstd::utf8::encode_scalar(a[0] as u32)
            + vstd::utf8::encode_utf8(a.drop_first() + b));
    }
}

pub proof fn lemma_byte_offset_step(s: Seq<char>, i: int)
    requires
        0 <= i < s.len(),
    ensures
        byte_offset(s, i + 1) == byte_offset(s, i) + vstd::utf8::encode_scalar(s[i] as u32).len(),
{
    assert(s.subrange(0, i + 1) =~= s.subrange(0, i) + seq![s[i]]);
    lemma_encode_concat(s.subrange(0, i), seq![s[i]]);
    assert(seq![s[i]].drop_first() =~= Seq::<char>::empty());
    assert(vstd::utf8::encode_utf8(Seq::<char>::empty()) =~= Seq::<u8>::empty());
    assert(vstd::utf8::encode_utf8(seq![s[i]]) =~= vstd::utf8::encode_scalar(s[i] as u32));
}

pub proof fn lemma_byte_offset_bound(s: Seq<char>, i: int)
    requires
        0 <= i <= s.len(),
    ensures
        0 <= byte_offset(s, i) <= byte_offset(s, s.len() as int),
        byte_offset(s, s.len() as int) == vstd::utf8::encode_utf8(s).len(),
{
    assert(s.subrange(0, s.len() as int) =~= s);
    assert(s =~= s.subrange(0, i) + s.subrange(i, s.len() as int));
    lemma_encode_concat(s.subrange(0, i), s.subrange(i, s.len() as int));
}

/// The number of bytes of the UTF-8 encoding of `c`.
pub fn char_width(c: char) -> (r: usize)
    ensures
        r == vstd::utf8::encode_scalar(c as u32).len(),
{
    let v = c as u32;
    proof {
        vstd::utf8::char_is_scalar(c);
    }
    if v < 0x80 {
        1
    } else if v < 0x800 {
        2
    } else if v < 0x10000 {
        3
    } else {
        4
    }
}

/// The byte offset of every character position of `s`, and of its end.
pub fn byte_offsets(s: &Vec<char>, total: usize) -> (r: Vec<usize>)
    requires
        vstd::utf8::encode_utf8(s@).len() == total,
    ensures
        r.len() == s.len() + 1,
        forall|i: int| 0 <= i <= s.len() ==> #[trigger] r[i] == byte_offset(s@, i),
{
    let mut r: Vec<usize> = Vec::new();
    let mut acc: usize = 0;
    let mut i: usize = 0;
    assert(s@.subrange(0, 0) =~= Seq::<char>::empty());
    r.push(0);
    while i < s.len()
        invariant
            i <= s.len(),
            vstd::utf8::encode_utf8(s@).len() == total,
            r.len() == i + 1,
            acc == byte_offset(s@, i as int),
            forall|x: int| 0 <= x <= i ==> #[trigger] r[x] == byte_offset(s@, x),
        decreases s.len() - i,
    {
        proof {
            lemma_byte_offset_step(s@, i as int);
            lemma_byte_offset_bound(s@, i as int + 1);
        }
        acc = acc + char_width(s[i]);
        i = i + 1;
        r.push(acc);
    }
    r
}

/// The string made of the characters `s[a..b]`.
pub fn string_of(s: &Vec<char>, a: usize, b: usize) -> (r: String)
    requires
        a <= b <= s.len(),
    ensures
        r@ == s@.subrange(a as int, b as int),
{
    let mut r = String::new();
    let mut i = a;
    while i < b
        invariant
            a <= i <= b <= s.len(),
            r@ == s@.subrange(a as int, i as int),
        decreases b - i,
    {
        r.push(s[i]);
        proof {
            assert(s@.subrange(a as int, i + 1) =~= s@.subrange(a as int, i as int).push(s@[i as int]));
        }
        i = i + 1;
    }
    r
}

} // verus!
