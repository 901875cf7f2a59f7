//! Searching, splitting, joining, truncating and rendering of texts.
use crate::text;
use vstd::prelude::*;

verus! {

// ---------------------------------------------------------------------------
// Searching
// ---------------------------------------------------------------------------

/// Whether `needle` stands in `hay` at position `i`.
pub open spec fn occurs_at(hay: Seq<char>, needle: Seq<char>, i: int) -> bool {
    &&& 0 <= i
    &&& i + needle.len() <= hay.len()
    &&& hay.subrange(i, i + needle.len()) == needle
}

/// Whether `needle` stands somewhere in `hay`.
pub open spec fn contains_text(hay: Seq<char>, needle: Seq<char>) -> bool {
    exists|i: int| occurs_at(hay, needle, i)
}

/// Whether `needle` stands in `hay` at position `at`.
pub fn stands_at(hay: &Vec<char>, needle: &Vec<char>, at: usize) -> (r: bool)
    ensures
        r == occurs_at(hay@, needle@, at as int),
{
    if at > hay.len() || needle.len() > hay.len() - at {
        return false;
    }
    let total: usize = hay.len();
    let mut j: usize = 0;
    while j < needle.len()
        invariant
            j <= needle@.len(),
            hay@.len() == total,
            at + needle@.len() <= total,
            forall|k: int| 0 <= k < j ==> hay@[at + k] == needle@[k],
        decreases needle@.len() - j,
    {
        if hay[at + j] != needle[j] {
            proof {
                assert(hay@.subrange(at as int, at + needle@.len())[j as int] != needle@[j as int]);
            }
            return false;
        }
        j += 1;
    }
    assert(hay@.subrange(at as int, at + needle@.len()) =~= needle@);
    true
}

/// Whether `needle` stands somewhere in `hay`.
pub fn contains(hay: &str, needle: &str) -> (r: bool)
    ensures
        r == contains_text(hay@, needle@),
{
    let h = text::to_chars(hay);
    let n = text::to_chars(needle);
    let mut i: usize = 0;
    while i < h.len()
        invariant
            i <= h@.len(),
            h@ == hay@,
            n@ == needle@,
            forall|k: int| 0 <= k < i ==> !occurs_at(h@, n@, k),
        decreases h@.len() - i,
    {
        if stands_at(&h, &n, i) {
            return true;
        }
        i += 1;
    }
    stands_at(&h, &n, i)
}

/// Whether a character occurs in a text.
pub fn contains_char(s: &str, c: char) -> (r: bool)
    ensures
        r == s@.contains(c),
{
    let v = text::to_chars(s);
    let mut i: usize = 0;
    while i < v.len()
        invariant
            i <= v@.len(),
            v@ == s@,
            forall|k: int| 0 <= k < i ==> v@[k] != c,
        decreases v@.len() - i,
    {
        if v[i] == c {
            return true;
        }
        i += 1;
    }
    false
}

/// Whether a text occurs in a list of texts.
pub fn list_contains(list: &Vec<String>, s: &str) -> (r: bool)
    ensures
        r == list.deep_view().contains(s@),
{
    let mut i: usize = 0;
    while i < list.len()
        invariant
            i <= list@.len(),
            forall|k: int| 0 <= k < i ==> (#[trigger] list@[k])@ != s@,
        decreases list@.len() - i,
    {
        if text::same(list[i].as_str(), s) {
            assert(list.deep_view()[i as int] == s@);
            return true;
        }
        i += 1;
    }
    assert forall|k: int| 0 <= k < list.deep_view().len() implies list.deep_view()[k] != s@ by {
        assert(list@[k]@ != s@);
    }
    false
}

// ---------------------------------------------------------------------------
// Decimal numbers
// ---------------------------------------------------------------------------

/// The decimal digit of a number below ten.
pub open spec fn digit(d: nat) -> char {
    if d == 0 { '0' }
    else if d == 1 { '1' }
    else if d == 2 { '2' }
    else if d == 3 { '3' }
    else if d == 4 { '4' }
    else if d == 5 { '5' }
    else if d == 6 { '6' }
    else if d == 7 { '7' }
    else if d == 8 { '8' }
    else { '9' }
}

/// The decimal rendering of a number.
pub open spec fn decimal(n: nat) -> Seq<char>
    decreases n,
{
    if n < 10 {
        seq![digit(n)]
    } else {
        decimal(n / 10).push(digit(n % 10))
    }
}

/// Whether a character is an ASCII digit.
pub open spec fn is_digit(c: char) -> bool {
    '0' as u32 <= c as u32 <= '9' as u32
}

/// The number that a run of ASCII digits denotes.
pub open spec fn digits_value(s: Seq<char>) -> nat
    decreases s.len(),
{
    if s.len() == 0 {
        0
    } else {
        10 * digits_value(s.drop_last()) + (s.last() as u32 - '0' as u32) as nat
    }
}

/// Reading the decimal rendering of a number gives the number back.
pub proof fn lemma_decimal_value(n: nat)
    ensures
        digits_value(decimal(n)) == n,
        decimal(n).len() >= 1,
        forall|i: int| 0 <= i < decimal(n).len() ==> is_digit(#[trigger] decimal(n)[i]),
    decreases n,
{
    if n < 10 {
        assert(decimal(n).drop_last() =~= Seq::<char>::empty());
        assert(digits_value(decimal(n).drop_last()) == 0);
        assert(decimal(n).last() == digit(n));
    } else {
        lemma_decimal_value(n / 10);
        assert(decimal(n).drop_last() =~= decimal(n / 10));
    }
}

fn digit_char(d: u64) -> (c: char)
    requires
        d < 10,
    ensures
        c == digit(d as nat),
{
    match d {
        0 => '0',
        1 => '1',
        2 => '2',
        3 => '3',
        4 => '4',
        5 => '5',
        6 => '6',
        7 => '7',
        8 => '8',
        _ => '9',
    }
}

/// Append the decimal rendering of a number.
pub fn push_decimal(out: &mut String, n: u64)
    ensures
        final(out)@ == old(out)@ + decimal(n as nat),
    decreases n,
{
    if n >= 10 {
        push_decimal(out, n / 10);
    }
    out.push(digit_char(n % 10));
    assert(out@ =~= old(out)@ + decimal(n as nat));
}

/// Whether a text consists of ASCII digits.
pub open spec fn all_digits(s: Seq<char>) -> bool {
    forall|i: int| 0 <= i < s.len() ==> is_digit(#[trigger] s[i])
}

/// A text without its leading plus sign.
pub open spec fn without_plus(s: Seq<char>) -> Seq<char> {
    if s.len() > 0 && s[0] == '+' {
        s.skip(1)
    } else {
        s
    }
}

/// What reading an unsigned decimal gives: an optional plus sign and at least one digit, the
/// value within `max`.
pub open spec fn parsed_number(s: Seq<char>, max: nat) -> Option<nat> {
    if without_plus(s).len() > 0 && all_digits(without_plus(s)) && digits_value(without_plus(s))
        <= max {
        Some(digits_value(without_plus(s)))
    } else {
        None
    }
}

proof fn lemma_digits_value_grows(s: Seq<char>, n: int)
    requires
        0 <= n <= s.len(),
        all_digits(s),
    ensures
        digits_value(s.take(n)) <= digits_value(s),
    decreases s.len() - n,
{
    if n < s.len() {
        lemma_digits_value_grows(s, n + 1);
        assert(s.take(n + 1).drop_last() =~= s.take(n));
    } else {
        assert(s.take(n) =~= s);
    }
}

/// Read an unsigned decimal number.
pub fn parse_usize(s: &str) -> (r: Option<usize>)
    ensures
        match r {
            Some(n) => parsed_number(s@, usize::MAX as nat) == Some(n as nat),
            None => parsed_number(s@, usize::MAX as nat) is None,
        },
{
    let v = text::to_chars(s);
    let start: usize = if v.len() > 0 && v[0] == '+' { 1 } else { 0 };
    let ghost d = without_plus(s@);
    assert(d =~= s@.skip(start as int));
    if v.len() == start {
        return None;
    }
    let mut n: usize = 0;
    let mut i: usize = start;
    while i < v.len()
        invariant
            start <= i <= v@.len(),
            v@ == s@,
            d == s@.skip(start as int),
            d == without_plus(s@),
            forall|k: int| 0 <= k < i - start ==> is_digit(#[trigger] d[k]),
            n == digits_value(d.take(i - start)),
        decreases v@.len() - i,
    {
        let c: char = v[i];
        let x: u32 = c as u32;
        assert(d[i - start] == c);
        if x < '0' as u32 || x > '9' as u32 {
            assert(!is_digit(d[i - start]));
            return None;
        }
        let k: usize = (x - '0' as u32) as usize;
        proof {
            assert(d.take(i - start + 1).drop_last() =~= d.take(i - start));
            assert(d.take(i - start + 1).last() == c);
            if all_digits(d) {
                lemma_digits_value_grows(d, i - start + 1);
            }
        }
        if n > (usize::MAX - k) / 10 {
            return None;
        }
        n = n * 10 + k;
        i += 1;
    }
    assert(d.take(d.len() as int) =~= d);
    Some(n)
}

// ---------------------------------------------------------------------------
// Joining and splitting
// ---------------------------------------------------------------------------

/// The parts one after another with `sep` between them.
pub open spec fn joined(parts: Seq<Seq<char>>, sep: Seq<char>) -> Seq<char>
    decreases parts.len(),
{
    if parts.len() == 0 {
        Seq::empty()
    } else if parts.len() == 1 {
        parts[0]
    } else {
        joined(parts.drop_last(), sep) + sep + parts.last()
    }
}

/// Join texts with a separator.
pub fn join(parts: &Vec<String>, sep: &str) -> (r: String)
    ensures
        r@ == joined(parts.deep_view(), sep@),
{
    let mut out = String::new();
    let mut i: usize = 0;
    let ghost all = parts.deep_view();
    assert(all.take(0) =~= Seq::empty());
    while i < parts.len()
        invariant
            i <= parts@.len(),
            all == parts.deep_view(),
            out@ == joined(all.take(i as int), sep@),
        decreases parts@.len() - i,
    {
        proof {
            assert(all.take(i + 1).drop_last() =~= all.take(i as int));
            assert(all.take(i + 1).last() == parts@[i as int]@);
        }
        if i > 0 {
            out.append(sep);
        }
        out.append(parts[i].as_str());
        i += 1;
        assert(out@ =~= joined(all.take(i as int), sep@));
    }
    assert(all.take(all.len() as int) =~= all);
    out
}

/// The pieces between the occurrences of a separator character.
pub open spec fn split_on(s: Seq<char>, sep: char) -> Seq<Seq<char>>
    decreases s.len(),
{
    if s.len() == 0 {
        seq![Seq::empty()]
    } else {
        let before = split_on(s.drop_last(), sep);
        if s.last() == sep {
            before.push(Seq::empty())
        } else {
            before.drop_last().push(before.last().push(s.last()))
        }
    }
}

pub proof fn lemma_split_on_nonempty(s: Seq<char>, sep: char)
    ensures
        split_on(s, sep).len() >= 1,
    decreases s.len(),
{
    if s.len() > 0 {
        lemma_split_on_nonempty(s.drop_last(), sep);
    }
}

/// The pieces of a text between the occurrences of a separator character.
pub fn split(s: &str, sep: char) -> (r: Vec<String>)
    ensures
        r.deep_view() == split_on(s@, sep),
{
    let v = text::to_chars(s);
    let mut out: Vec<String> = Vec::new();
    let mut cur = String::new();
    let mut i: usize = 0;
    assert(out.deep_view().push(cur@) =~= split_on(s@.take(0), sep));
    while i < v.len()
        invariant
            i <= v@.len(),
            v@ == s@,
            out.deep_view().push(cur@) == split_on(s@.take(i as int), sep),
        decreases v@.len() - i,
    {
        let c: char = v[i];
        let ghost done = out.deep_view();
        let ghost piece = cur@;
        proof {
            assert(s@.take(i + 1).drop_last() =~= s@.take(i as int));
            assert(s@.take(i + 1).last() == c);
            assert(done.push(piece).drop_last() =~= done);
            assert(done.push(piece).last() == piece);
        }
        if c == sep {
            out.push(cur);
            cur = String::new();
            assert(out.deep_view() =~= done.push(piece));
            assert(cur@ =~= Seq::empty());
        } else {
            cur.push(c);
            assert(out.deep_view() == done);
        }
        i += 1;
    }
    let ghost done = out.deep_view();
    let ghost piece = cur@;
    out.push(cur);
    assert(out.deep_view() =~= done.push(piece));
    assert(s@.take(s@.len() as int) =~= s@);
    out
}

/// The pieces trimmed of white space, the empty ones left out.
pub open spec fn trimmed_nonempty(parts: Seq<Seq<char>>) -> Seq<Seq<char>>
    decreases parts.len(),
{
    if parts.len() == 0 {
        Seq::empty()
    } else {
        let before = trimmed_nonempty(parts.drop_last());
        if text::trimmed(parts.last()).len() == 0 {
            before
        } else {
            before.push(text::trimmed(parts.last()))
        }
    }
}

/// Trim each piece and leave out the empty ones.
pub fn keep_trimmed(parts: &Vec<String>) -> (r: Vec<String>)
    ensures
        r.deep_view() == trimmed_nonempty(parts.deep_view()),
{
    let mut out: Vec<String> = Vec::new();
    let mut i: usize = 0;
    let ghost all = parts.deep_view();
    assert(out.deep_view() =~= trimmed_nonempty(all.take(0)));
    while i < parts.len()
        invariant
            i <= parts@.len(),
            all == parts.deep_view(),
            out.deep_view() == trimmed_nonempty(all.take(i as int)),
        decreases parts@.len() - i,
    {
        let t = text::trim(parts[i].as_str());
        let ghost done = out.deep_view();
        proof {
            assert(all.take(i + 1).drop_last() =~= all.take(i as int));
            assert(all.take(i + 1).last() == parts@[i as int]@);
        }
        if !t.as_str().is_empty() {
            let ghost piece = t@;
            out.push(t);
            assert(out.deep_view() =~= done.push(piece));
        }
        i += 1;
    }
    assert(all.take(all.len() as int) =~= all);
    out
}

// ---------------------------------------------------------------------------
// Truncation
// ---------------------------------------------------------------------------

/// How many leading characters fit into `max` bytes.
pub open spec fn fitting(s: Seq<char>, max: nat) -> nat
    decreases s.len(),
{
    if text::utf8_len(s) <= max {
        s.len()
    } else {
        fitting(s.drop_last(), max)
    }
}

/// A text cut to `max` bytes with `mark` behind the cut; a text that fits stays whole.
pub open spec fn truncated(s: Seq<char>, max: nat, mark: Seq<char>) -> Seq<char> {
    if text::utf8_len(s) <= max {
        s
    } else {
        s.take(fitting(s, max) as int) + mark
    }
}

/// The cut falls inside the text, what is kept fits, and one character more would not fit.
pub proof fn lemma_fitting(s: Seq<char>, max: nat)
    ensures
        fitting(s, max) <= s.len(),
        text::utf8_len(s.take(fitting(s, max) as int)) <= max,
        forall|n: int| fitting(s, max) < n <= s.len() ==> text::utf8_len(#[trigger] s.take(n)) > max,
    decreases s.len(),
{
    if text::utf8_len(s) <= max {
        assert(s.take(s.len() as int) =~= s);
    } else {
        lemma_fitting(s.drop_last(), max);
        let f = fitting(s, max) as int;
        assert(s.drop_last().take(f) =~= s.take(f));
        assert forall|n: int| f < n <= s.len() implies text::utf8_len(#[trigger] s.take(n)) > max by {
            if n == s.len() {
                assert(s.take(n) =~= s);
            } else {
                assert(s.drop_last().take(n) =~= s.take(n));
            }
        }
    }
}

/// A truncated text is at most `max` bytes longer than its mark, or it is the text itself.
pub proof fn lemma_truncated_bound(s: Seq<char>, max: nat, mark: Seq<char>)
    ensures
        text::utf8_len(truncated(s, max, mark)) <= max + text::utf8_len(mark),
{
    lemma_fitting(s, max);
    text::lemma_utf8_len_concat(s.take(fitting(s, max) as int), mark);
}

/// Cut a text to `max` bytes at a character boundary and append `mark` behind the cut.
pub fn truncate_with(s: &str, max: usize, mark: &str) -> (r: String)
    ensures
        r@ == truncated(s@, max as nat, mark@),
{
    if text::byte_len(s) <= max {
        return s.to_owned();
    }
    let v = text::to_chars(s);
    let mut n: usize = 0;
    let mut used: usize = 0;
    assert(s@.take(0) =~= Seq::empty());
    while n < v.len() && text::width_of(v[n]) <= max - used
        invariant
            n <= v@.len(),
            v@ == s@,
            used <= max,
            used == text::utf8_len(s@.take(n as int)),
        decreases v@.len() - n,
    {
        assert(s@.take(n + 1).drop_last() =~= s@.take(n as int));
        used += text::width_of(v[n]);
        n += 1;
    }
    proof {
        lemma_fitting(s@, max as nat);
        let f = fitting(s@, max as nat) as int;
        assert(s@.take(s@.len() as int) =~= s@);
        if n < s@.len() {
            assert(s@.take(n + 1).drop_last() =~= s@.take(n as int));
            assert(text::utf8_len(s@.take(n + 1)) > max);
            if f > n {
                text::lemma_utf8_len_take(s@.take(f), n + 1);
                assert(s@.take(f).take(n + 1) =~= s@.take(n + 1));
            }
        }
        assert(f == n);
    }
    let mut out = text::text_of(&v, 0, n);
    assert(s@.subrange(0, n as int) =~= s@.take(n as int));
    out.append(mark);
    out
}

} // verus!
