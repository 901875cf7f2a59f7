//! Text primitives: byte widths, conversions, order and trimming.
//!
//! Texts are modelled as sequences of characters. Every byte count is the
//! length of the UTF-8 encoding.
use vstd::prelude::*;
use vstd::utf8::*;

verus! {

// ---------------------------------------------------------------------------
// Byte widths
// ---------------------------------------------------------------------------

/// Number of bytes that UTF-8 uses for one character.
pub open spec fn char_width(c: char) -> nat {
    if c as u32 <= 0x7F {
        1
    } else if c as u32 <= 0x7FF {
        2
    } else if c as u32 <= 0xFFFF {
        3
    } else {
        4
    }
}

/// Number of bytes that UTF-8 uses for a text.
pub open spec fn utf8_len(s: Seq<char>) -> nat
    decreases s.len(),
{
    if s.len() == 0 {
        0
    } else {
        utf8_len(s.drop_last()) + char_width(s.last())
    }
}

/// The byte length of a concatenation is the sum of the byte lengths.
pub proof fn lemma_utf8_len_concat(a: Seq<char>, b: Seq<char>)
    ensures
        utf8_len(a + b) == utf8_len(a) + utf8_len(b),
    decreases b.len(),
{
    if b.len() == 0 {
        assert(a + b =~= a);
    } else {
        lemma_utf8_len_concat(a, b.drop_last());
        assert((a + b).drop_last() =~= a + b.drop_last());
    }
}

/// The byte length of a text is the length of its UTF-8 encoding.
pub proof fn lemma_utf8_len_encoding(s: Seq<char>)
    ensures
        encode_utf8(s).len() == utf8_len(s),
    decreases s.len(),
{
    if s.len() > 0 {
        lemma_utf8_len_encoding(s.drop_first());
        let head = seq![s[0]];
        assert(s =~= head + s.drop_first());
        lemma_utf8_len_concat(head, s.drop_first());
        assert(head.drop_last() =~= Seq::<char>::empty());
        assert(utf8_len(head.drop_last()) == 0);
        assert(head.last() == s[0]);
        assert(utf8_len(head) == char_width(s[0]));
        char_is_scalar(s[0]);
    }
}

/// A prefix takes no more bytes than the whole text.
pub proof fn lemma_utf8_len_take(s: Seq<char>, n: int)
    requires
        0 <= n <= s.len(),
    ensures
        utf8_len(s.take(n)) <= utf8_len(s),
{
    assert(s =~= s.take(n) + s.skip(n));
    lemma_utf8_len_concat(s.take(n), s.skip(n));
}

/// Byte length of a text.
pub fn byte_len(s: &str) -> (n: usize)
    ensures
        n == utf8_len(s@),
{
    proof {
        lemma_utf8_len_encoding(s@);
    }
    s.as_bytes().len()
}

/// Byte width of a character.
pub fn width_of(c: char) -> (n: usize)
    ensures
        n == char_width(c),
{
    let v: u32 = c as u32;
    if v <= 0x7F {
        1
    } else if v <= 0x7FF {
        2
    } else if v <= 0xFFFF {
        3
    } else {
        4
    }
}

// ---------------------------------------------------------------------------
// Conversions
// ---------------------------------------------------------------------------

/// `String::push` appends one character at the end of the string.
pub assume_specification[ String::push ](s: &mut String, c: char)
    ensures
        final(s)@ == old(s)@.push(c),
;

/// The characters of a text.
pub fn to_chars(s: &str) -> (v: Vec<char>)
    ensures
        v@ == s@,
{
    let mut v: Vec<char> = Vec::new();
    for c in it: s.chars()
        invariant
            v@ == it.seq().take(it.index() as int),
            it.seq() == s@,
    {
        v.push(c);
    }
    v
}

/// Append the characters `from..to` of `chars` to `out`.
pub fn push_chars(out: &mut String, chars: &Vec<char>, from: usize, to: usize)
    requires
        from <= to <= chars@.len(),
    ensures
        final(out)@ == old(out)@ + chars@.subrange(from as int, to as int),
{
    let mut i: usize = from;
    assert(out@ =~= out@ + chars@.subrange(from as int, from as int));
    while i < to
        invariant
            from <= i <= to <= chars@.len(),
            out@ == old(out)@ + chars@.subrange(from as int, i as int),
        decreases to - i,
    {
        out.push(chars[i]);
        i += 1;
        assert(out@ =~= old(out)@ + chars@.subrange(from as int, i as int));
    }
}

/// The text made of the characters `from..to`.
pub fn text_of(chars: &Vec<char>, from: usize, to: usize) -> (s: String)
    requires
        from <= to <= chars@.len(),
    ensures
        s@ == chars@.subrange(from as int, to as int),
{
    let mut s = String::new();
    push_chars(&mut s, chars, from, to);
    assert(s@ =~= chars@.subrange(from as int, to as int));
    s
}

/// A copy of an optional text.
pub fn copy_option(s: &Option<String>) -> (r: Option<String>)
    ensures
        r.deep_view() == s.deep_view(),
{
    match s {
        Some(t) => Some(t.clone()),
        None => None,
    }
}

/// A copy of a list of texts.
pub fn copy_texts(v: &Vec<String>) -> (r: Vec<String>)
    ensures
        r.deep_view() == v.deep_view(),
{
    let mut r: Vec<String> = Vec::new();
    let mut i: usize = 0;
    while i < v.len()
        invariant
            i <= v.len(),
            r@.len() == i,
            forall|j: int| 0 <= j < i ==> (#[trigger] r@[j])@ == v@[j]@,
        decreases v.len() - i,
    {
        r.push(v[i].clone());
        i += 1;
    }
    assert(r.deep_view() =~= v.deep_view());
    r
}

// ---------------------------------------------------------------------------
// Equality and order
// ---------------------------------------------------------------------------

/// Whether two texts are the same.
pub fn same(a: &str, b: &str) -> (r: bool)
    ensures
        r == (a@ == b@),
{
    let x: &[u8] = a.as_bytes();
    let y: &[u8] = b.as_bytes();
    proof {
        encode_utf8_decode_utf8(a@);
        encode_utf8_decode_utf8(b@);
    }
    if x.len() != y.len() {
        return false;
    }
    let mut i: usize = 0;
    while i < x.len()
        invariant
            i <= x@.len(),
            x@.len() == y@.len(),
            x@ == encode_utf8(a@),
            y@ == encode_utf8(b@),
            forall|j: int| 0 <= j < i ==> x@[j] == y@[j],
        decreases x@.len() - i,
    {
        if x[i] != y[i] {
            return false;
        }
        i += 1;
    }
    assert(x@ =~= y@);
    true
}

/// Lexicographic order by character code, which is also the order of the UTF-8 bytes.
pub open spec fn text_less(a: Seq<char>, b: Seq<char>) -> bool
    decreases a.len(),
{
    if b.len() == 0 {
        false
    } else if a.len() == 0 {
        true
    } else if a[0] as u32 != b[0] as u32 {
        (a[0] as u32) < (b[0] as u32)
    } else {
        text_less(a.drop_first(), b.drop_first())
    }
}

/// No text comes before itself.
pub proof fn lemma_text_less_irreflexive(a: Seq<char>)
    ensures
        !text_less(a, a),
    decreases a.len(),
{
    if a.len() > 0 {
        lemma_text_less_irreflexive(a.drop_first());
    }
}

/// The order is transitive.
pub proof fn lemma_text_less_transitive(a: Seq<char>, b: Seq<char>, c: Seq<char>)
    requires
        text_less(a, b),
        text_less(b, c),
    ensures
        text_less(a, c),
    decreases a.len(),
{
    if a.len() > 0 && a[0] as u32 == b[0] as u32 && b[0] as u32 == c[0] as u32 {
        lemma_text_less_transitive(a.drop_first(), b.drop_first(), c.drop_first());
    }
}

/// Of two different texts one comes before the other.
pub proof fn lemma_text_less_total(a: Seq<char>, b: Seq<char>)
    ensures
        text_less(a, b) || text_less(b, a) || a == b,
    decreases a.len(),
{
    if a.len() > 0 && b.len() > 0 {
        lemma_text_less_total(a.drop_first(), b.drop_first());
        if a[0] as u32 == b[0] as u32 && a.drop_first() == b.drop_first() {
            char_u32_cast(a[0], b[0] as u32);
            char_u32_cast(b[0], b[0] as u32);
            assert(a =~= seq![a[0]] + a.drop_first());
            assert(b =~= seq![b[0]] + b.drop_first());
        }
    } else if a.len() == 0 && b.len() == 0 {
        assert(a =~= b);
    }
}

/// Whether `a` comes before `b`.
pub fn comes_before(a: &str, b: &str) -> (r: bool)
    ensures
        r == text_less(a@, b@),
{
    let x = to_chars(a);
    let y = to_chars(b);
    let mut i: usize = 0;
    assert(a@.skip(0) =~= a@);
    assert(b@.skip(0) =~= b@);
    while i < x.len() && i < y.len()
        invariant
            i <= x@.len(),
            i <= y@.len(),
            x@ == a@,
            y@ == b@,
            text_less(a@, b@) == text_less(a@.skip(i as int), b@.skip(i as int)),
        decreases x@.len() - i,
    {
        let p: u32 = x[i] as u32;
        let q: u32 = y[i] as u32;
        if p != q {
            return p < q;
        }
        proof {
            assert(a@.skip(i as int).drop_first() =~= a@.skip(i + 1));
            assert(b@.skip(i as int).drop_first() =~= b@.skip(i + 1));
        }
        i += 1;
    }
    i < y.len()
}

// ---------------------------------------------------------------------------
// White space
// ---------------------------------------------------------------------------

/// The characters that Unicode calls white space.
pub open spec fn whitespace(c: char) -> bool {
    let v = c as u32;
    ||| 0x9 <= v <= 0xD
    ||| v == 0x20
    ||| v == 0x85
    ||| v == 0xA0
    ||| v == 0x1680
    ||| 0x2000 <= v <= 0x200A
    ||| v == 0x2028
    ||| v == 0x2029
    ||| v == 0x202F
    ||| v == 0x205F
    ||| v == 0x3000
}

/// Whether a character is white space.
pub fn is_whitespace(c: char) -> (r: bool)
    ensures
        r == whitespace(c),
{
    let v: u32 = c as u32;
    (0x9 <= v && v <= 0xD) || v == 0x20 || v == 0x85 || v == 0xA0 || v == 0x1680 || (0x2000 <= v
        && v <= 0x200A) || v == 0x2028 || v == 0x2029 || v == 0x202F || v == 0x205F || v == 0x3000
}

/// A text without its leading white space.
pub open spec fn trimmed_start(s: Seq<char>) -> Seq<char>
    decreases s.len(),
{
    if s.len() > 0 && whitespace(s[0]) {
        trimmed_start(s.drop_first())
    } else {
        s
    }
}

/// A text without its trailing white space.
pub open spec fn trimmed_end(s: Seq<char>) -> Seq<char>
    decreases s.len(),
{
    if s.len() > 0 && whitespace(s.last()) {
        trimmed_end(s.drop_last())
    } else {
        s
    }
}

/// A text without its leading and trailing white space.
pub open spec fn trimmed(s: Seq<char>) -> Seq<char> {
    trimmed_end(trimmed_start(s))
}

/// The range that remains of `chars[from..to]` once white space is trimmed on both sides.
pub fn trim_range(chars: &Vec<char>, from: usize, to: usize) -> (r: (usize, usize))
    requires
        from <= to <= chars@.len(),
    ensures
        from <= r.0 <= r.1 <= to,
        chars@.subrange(r.0 as int, r.1 as int) == trimmed(
            chars@.subrange(from as int, to as int),
        ),
{
    let mut a: usize = from;
    let ghost whole = chars@.subrange(from as int, to as int);
    while a < to && is_whitespace(chars[a])
        invariant
            from <= a <= to <= chars@.len(),
            whole == chars@.subrange(from as int, to as int),
            trimmed_start(whole) == trimmed_start(chars@.subrange(a as int, to as int)),
        decreases to - a,
    {
        assert(chars@.subrange(a as int, to as int).drop_first() =~= chars@.subrange(
            a + 1,
            to as int,
        ));
        a += 1;
    }
    let ghost mid = chars@.subrange(a as int, to as int);
    let mut b: usize = to;
    while b > a && is_whitespace(chars[b - 1])
        invariant
            from <= a <= b <= to <= chars@.len(),
            mid == chars@.subrange(a as int, to as int),
            trimmed_end(mid) == trimmed_end(chars@.subrange(a as int, b as int)),
        decreases b,
    {
        assert(chars@.subrange(a as int, b as int).drop_last() =~= chars@.subrange(
            a as int,
            b - 1,
        ));
        b -= 1;
    }
    (a, b)
}

/// Trim white space on both sides.
pub fn trim(s: &str) -> (r: String)
    ensures
        r@ == trimmed(s@),
{
    let chars = to_chars(s);
    let (a, b) = trim_range(&chars, 0, chars.len());
    assert(chars@.subrange(0, chars@.len() as int) =~= s@);
    text_of(&chars, a, b)
}

} // verus!
