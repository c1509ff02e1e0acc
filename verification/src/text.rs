//! Byte offsets of characters in UTF-8 text, and byte-level views of string slices.
use vstd::prelude::*;
use vstd::string::StringSliceAdditionalSpecFns;
use vstd::utf8::*;

verus! {

/// Number of bytes in the UTF-8 encoding of `c`.
pub open spec fn char_width(c: char) -> nat {
    if (c as u32) < 0x80 {
        1
    } else if (c as u32) < 0x800 {
        2
    } else if (c as u32) < 0x10000 {
        3
    } else {
        4
    }
}

/// Byte offset of the `i`-th character of `s`, that is the length of the UTF-8
/// encoding of its first `i` characters.
pub open spec fn byte_offset(s: Seq<char>, i: int) -> nat
    decreases i,
{
    if i <= 0 || s.len() == 0 {
        0
    } else if i > s.len() {
        byte_offset(s, s.len() as int)
    } else {
        byte_offset(s, i - 1) + char_width(s[i - 1])
    }
}

/// Length in bytes of the UTF-8 encoding of `s`.
pub open spec fn byte_len(s: Seq<char>) -> nat {
    byte_offset(s, s.len() as int)
}

proof fn lemma_byte_offset_cons(c: char, t: Seq<char>, i: int)
    requires
        0 <= i <= t.len(),
    ensures
        byte_offset(seq![c] + t, i + 1) == char_width(c) + byte_offset(t, i),
    decreases i,
{
    let s = seq![c] + t;
    if i == 0 {
        assert(s[0] == c);
        assert(byte_offset(s, 0) == 0);
        assert(byte_offset(t, 0) == 0);
    } else {
        lemma_byte_offset_cons(c, t, i - 1);
        assert(s[i] == t[i - 1]);
        assert(byte_offset(t, i) == byte_offset(t, i - 1) + char_width(t[i - 1]));
    }
}

proof fn lemma_scalar_width(c: char)
    ensures
        encode_scalar(c as u32).len() == char_width(c),
{
    char_is_scalar(c);
}

/// The byte offset of each character is a character boundary of the encoding.
pub proof fn lemma_byte_offset_boundary(s: Seq<char>, i: int)
    requires
        0 <= i <= s.len(),
    ensures
        is_char_boundary(encode_utf8(s), byte_offset(s, i) as int),
    decreases s.len(),
{
    if i > 0 {
        let t = s.drop_first();
        let bytes = encode_utf8(s);
        assert(s =~= seq![s[0]] + t);
        lemma_byte_offset_cons(s[0], t, i - 1);
        lemma_byte_offset_boundary(t, i - 1);
        encode_utf8_first_scalar(s);
        encode_utf8_valid_utf8(s);
        lemma_scalar_width(s[0]);
        assert(pop_first_scalar(bytes) =~= encode_utf8(t));
        lemma_encode_utf8_len(s);
        lemma_byte_offset_mono(s, i, s.len() as int);
        let k = byte_offset(s, i) as int;
        assert(byte_offset(s, i) == byte_offset(seq![s[0]] + t, (i - 1) + 1));
        assert(k == char_width(s[0]) + byte_offset(t, i - 1));
        assert(length_of_first_scalar(bytes) == char_width(s[0]));
        assert(valid_utf8(bytes));
        assert(0 < k <= bytes.len());
        assert(is_char_boundary(bytes, k) == is_char_boundary(
            pop_first_scalar(bytes),
            k - length_of_first_scalar(bytes),
        ));
        assert(is_char_boundary(encode_utf8(t), byte_offset(t, i - 1) as int));
    } else {
        encode_utf8_valid_utf8(s);
        assert(byte_offset(s, i) == 0);
    }
}

/// Over characters below U+0080, byte offsets count characters.
pub proof fn lemma_byte_offset_ascii(s: Seq<char>, i: int)
    requires
        0 <= i <= s.len(),
        forall|m: int| 0 <= m < i ==> (#[trigger] s[m] as u32) < 0x80,
    ensures
        byte_offset(s, i) == i,
    decreases i,
{
    if i > 0 {
        lemma_byte_offset_ascii(s, i - 1);
        assert((s[i - 1] as u32) < 0x80);
    }
}

/// The UTF-8 encoding of `s` is `byte_len(s)` bytes long.
pub proof fn lemma_encode_utf8_len(s: Seq<char>)
    ensures
        encode_utf8(s).len() == byte_len(s),
    decreases s.len(),
{
    if s.len() > 0 {
        let t = s.drop_first();
        lemma_encode_utf8_len(t);
        lemma_scalar_width(s[0]);
        assert(s =~= seq![s[0]] + t);
        lemma_byte_offset_cons(s[0], t, t.len() as int);
    }
}

/// Byte offsets grow with the character index, at least one byte per character.
pub proof fn lemma_byte_offset_mono(s: Seq<char>, i: int, j: int)
    requires
        0 <= i <= j <= s.len(),
    ensures
        byte_offset(s, i) + (j - i) <= byte_offset(s, j),
    decreases j,
{
    if i < j {
        lemma_byte_offset_mono(s, i, j - 1);
    }
}

/// The UTF-8 length of `c`, as `char::len_utf8` gives it.
pub fn len_utf8(c: char) -> (r: u32)
    ensures
        r == char_width(c),
        1 <= r <= 4,
{
    let u = c as u32;
    if u < 0x80 {
        1
    } else if u < 0x800 {
        2
    } else if u < 0x10000 {
        3
    } else {
        4
    }
}

/// The characters of `s`, in order.
pub fn to_chars(s: &str) -> (v: Vec<char>)
    ensures
        v@ == s@,
{
    let mut v: Vec<char> = Vec::new();
    for c in it: s.chars()
        invariant
            v@ == it.seq().take(it.index() as int),
    {
        v.push(c);
    }
    proof {
        vstd::string::axiom_spec_iter(s);
    }
    assert(v@ == s@);
    v
}

/// The bytes `start..end` of `value` are a string on their own when both ends
/// lie on character boundaries.
pub open spec fn is_str_range(value: &str, start: int, end: int) -> bool {
    &&& 0 <= start <= end <= value.spec_bytes().len()
    &&& is_char_boundary(value.spec_bytes(), start)
    &&& is_char_boundary(value.spec_bytes(), end)
}

/// `value.get(start..end)`: the sub-string at bytes `start..end`, or `None`
/// where that range is not a string of its own.
pub fn str_get<'s>(value: &'s str, start: usize, end: usize) -> (r: Option<&'s str>)
    requires
        value.spec_bytes().len() <= usize::MAX,
    ensures
        r is Some <==> is_str_range(value, start as int, end as int),
        r matches Some(x) ==> x.spec_bytes() == value.spec_bytes().subrange(
            start as int,
            end as int,
        ),
{
    if start <= end && end <= value.len() && value.is_char_boundary(start)
        && value.is_char_boundary(end) {
        let (head, _) = value.split_at(end);
        proof {
            let bytes = value.spec_bytes();
            encode_utf8_valid_utf8(value@);
            valid_utf8_split(bytes, end as int);
            let hb = bytes.subrange(0, end as int);
            assert(head.spec_bytes() == hb);
            if start < end {
                is_char_boundary_iff_not_is_continuation_byte(bytes, start as int);
                is_char_boundary_iff_not_is_continuation_byte(hb, start as int);
                assert(hb[start as int] == bytes[start as int]);
            } else {
                is_char_boundary_start_end_of_seq(hb);
            }
        }
        let (_, tail) = head.split_at(start);
        proof {
            assert(tail.spec_bytes() =~= value.spec_bytes().subrange(start as int, end as int));
        }
        Some(tail)
    } else {
        None
    }
}

} // verus!

verus! {

pub open spec fn ascii_lower(b: u8) -> u8 {
    if 65 <= b <= 90 {
        (b + 32) as u8
    } else {
        b
    }
}

/// The two byte strings are equal once ASCII letters are folded to lower case.
pub open spec fn bytes_eq_ignore_ascii_case(a: Seq<u8>, b: Seq<u8>) -> bool {
    &&& a.len() == b.len()
    &&& forall|i: int| 0 <= i < a.len() ==> ascii_lower(#[trigger] a[i]) == ascii_lower(b[i])
}

/// `str::eq_ignore_ascii_case`.
pub fn eq_ignore_ascii_case(a: &str, b: &str) -> (r: bool)
    ensures
        r == bytes_eq_ignore_ascii_case(a.spec_bytes(), b.spec_bytes()),
{
    let x = a.as_bytes();
    let y = b.as_bytes();
    if x.len() != y.len() {
        return false;
    }
    let mut i: usize = 0;
    while i < x.len()
        invariant
            x@ == a.spec_bytes(),
            y@ == b.spec_bytes(),
            x@.len() == y@.len(),
            i <= x@.len(),
            forall|j: int| 0 <= j < i ==> ascii_lower(#[trigger] x@[j]) == ascii_lower(y@[j]),
        decreases x@.len() - i,
    {
        let p = x[i];
        let q = y[i];
        let lp = if 65 <= p && p <= 90 { p + 32 } else { p };
        let lq = if 65 <= q && q <= 90 { q + 32 } else { q };
        if lp != lq {
            return false;
        }
        i = i + 1;
    }
    true
}

/// `a == b` for strings.
pub fn str_eq(a: &str, b: &str) -> (r: bool)
    ensures
        r == (a.spec_bytes() == b.spec_bytes()),
{
    let x = a.as_bytes();
    let y = b.as_bytes();
    if x.len() != y.len() {
        return false;
    }
    let mut i: usize = 0;
    while i < x.len()
        invariant
            x@ == a.spec_bytes(),
            y@ == b.spec_bytes(),
            x@.len() == y@.len(),
            i <= x@.len(),
            forall|j: int| 0 <= j < i ==> #[trigger] x@[j] == y@[j],
        decreases x@.len() - i,
    {
        if x[i] != y[i] {
            return false;
        }
        i = i + 1;
    }
    assert(x@ =~= y@);
    true
}

/// `a.starts_with(b)` for strings.
pub fn str_starts_with(a: &str, b: &str) -> (r: bool)
    ensures
        r == (b.spec_bytes().len() <= a.spec_bytes().len() && a.spec_bytes().subrange(
            0,
            b.spec_bytes().len() as int,
        ) == b.spec_bytes()),
{
    let x = a.as_bytes();
    let y = b.as_bytes();
    if y.len() > x.len() {
        return false;
    }
    let mut i: usize = 0;
    while i < y.len()
        invariant
            x@ == a.spec_bytes(),
            y@ == b.spec_bytes(),
            y@.len() <= x@.len(),
            i <= y@.len(),
            forall|j: int| 0 <= j < i ==> #[trigger] x@[j] == y@[j],
        decreases y@.len() - i,
    {
        if x[i] != y[i] {
            assert(x@.subrange(0, y@.len() as int)[i as int] != y@[i as int]);
            return false;
        }
        i = i + 1;
    }
    assert(x@.subrange(0, y@.len() as int) =~= y@);
    true
}

} // verus!

verus! {

/// `a[off..]` equals `b` once ASCII letters are folded to lower case.
pub fn bytes_eq_ignore_ascii_case_from(a: &[u8], off: usize, b: &[u8]) -> (r: bool)
    requires
        off <= a@.len(),
    ensures
        r == bytes_eq_ignore_ascii_case(a@.subrange(off as int, a@.len() as int), b@),
{
    let ghost sa = a@.subrange(off as int, a@.len() as int);
    if a.len() - off != b.len() {
        return false;
    }
    let mut i: usize = 0;
    while i < b.len()
        invariant
            off <= a@.len(),
            sa == a@.subrange(off as int, a@.len() as int),
            sa.len() == b@.len(),
            a@.len() - off == b@.len(),
            a.len() == a@.len(),
            i <= b@.len(),
            forall|j: int| 0 <= j < i ==> ascii_lower(#[trigger] sa[j]) == ascii_lower(b@[j]),
        decreases b@.len() - i,
    {
        let p = a[off + i];
        let q = b[i];
        let lp = if 65 <= p && p <= 90 { p + 32 } else { p };
        let lq = if 65 <= q && q <= 90 { q + 32 } else { q };
        if lp != lq {
            assert(sa[i as int] == p);
            return false;
        }
        i = i + 1;
    }
    true
}

/// `a` starts with `b`.
pub open spec fn bytes_starts_with(a: Seq<u8>, b: Seq<u8>) -> bool {
    b.len() <= a.len() && a.subrange(0, b.len() as int) == b
}

} // verus!

verus! {

/// `a[off..]` starts with `b`.
pub fn bytes_starts_with_from(a: &[u8], off: usize, b: &[u8]) -> (r: bool)
    requires
        off <= a@.len(),
    ensures
        r == bytes_starts_with(a@.subrange(off as int, a@.len() as int), b@),
{
    let ghost sa = a@.subrange(off as int, a@.len() as int);
    if a.len() - off < b.len() {
        return false;
    }
    let mut i: usize = 0;
    while i < b.len()
        invariant
            off <= a@.len(),
            sa == a@.subrange(off as int, a@.len() as int),
            b@.len() <= sa.len(),
            a@.len() - off >= b@.len(),
            a.len() == a@.len(),
            i <= b@.len(),
            forall|j: int| 0 <= j < i ==> #[trigger] sa[j] == b@[j],
        decreases b@.len() - i,
    {
        if a[off + i] != b[i] {
            assert(sa.subrange(0, b@.len() as int)[i as int] != b@[i as int]);
            return false;
        }
        i = i + 1;
    }
    assert(sa.subrange(0, b@.len() as int) =~= b@);
    true
}

} // verus!

verus! {

/// A white space byte: tab, line feed, form feed, carriage return or space.
pub open spec fn is_white_space_byte(b: u8) -> bool {
    b == 9 || b == 10 || b == 12 || b == 13 || b == 32
}

/// `s` without its trailing white space (`str::trim_end_matches(is_white_space)`).
pub fn trim_end_white_space(s: &str) -> (r: &str)
    ensures
        r.spec_bytes() == s.spec_bytes().subrange(0, r.spec_bytes().len() as int),
        r.spec_bytes().len() <= s.spec_bytes().len(),
        forall|j: int|
            r.spec_bytes().len() <= j < s.spec_bytes().len() ==> is_white_space_byte(
                #[trigger] s.spec_bytes()[j],
            ),
        r.spec_bytes().len() > 0 ==> !is_white_space_byte(
            s.spec_bytes()[r.spec_bytes().len() - 1],
        ),
{
    let b = s.as_bytes();
    let mut k = b.len();
    while k > 0 && (b[k - 1] == 9 || b[k - 1] == 10 || b[k - 1] == 12 || b[k - 1] == 13 || b[k
        - 1] == 32)
        invariant
            b@ == s.spec_bytes(),
            k <= b@.len(),
            b.len() == b@.len(),
            k < b@.len() ==> b@[k as int] < 128,
            forall|j: int| k <= j < b@.len() ==> is_white_space_byte(#[trigger] b@[j]),
        decreases k,
    {
        k = k - 1;
    }
    proof {
        let bytes = s.spec_bytes();
        encode_utf8_valid_utf8(s@);
        if k < bytes.len() {
            is_char_boundary_iff_not_is_continuation_byte(bytes, k as int);
        } else {
            is_char_boundary_start_end_of_seq(bytes);
        }
        is_char_boundary_start_end_of_seq(bytes);
        assert(bytes.len() <= usize::MAX);
    }
    match str_get(s, 0, k) {
        Some(t) => t,
        None => s,
    }
}

} // verus!
