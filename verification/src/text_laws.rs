//! What holds of texts: how they are ordered, trimmed, cut, joined, searched and counted.
use crate::letters;
use crate::lists;
use crate::render;
use crate::text;
use vstd::prelude::*;

verus! {

/// Whether a text holds nothing but whitespace.
pub open spec fn is_blank(s: Seq<char>) -> bool {
    forall|i: int| 0 <= i < s.len() ==> text::whitespace(#[trigger] s[i])
}

/// Texts are ordered by the first character in which they differ, and a text comes before its
/// continuations.
pub proof fn law_texts_are_ordered_by_first_difference(
    p: Seq<char>,
    x: char,
    y: char,
    a: Seq<char>,
    b: Seq<char>,
)
    ensures
        (x as u32) < (y as u32) ==> text::text_less(p + seq![x] + a, p + seq![y] + b)
            && !text::text_less(p + seq![y] + b, p + seq![x] + a),
        text::text_less(p, p + seq![x] + a),
        !text::text_less(p + seq![x] + a, p),
        !text::text_less(p, p),
    decreases p.len(),
{
    if p.len() == 0 {
        let s = p + seq![x] + a;
        let t = p + seq![y] + b;
        assert(s[0] == x && t[0] == y);
    } else {
        let q = p.drop_first();
        law_texts_are_ordered_by_first_difference(q, x, y, a, b);
        assert((p + seq![x] + a).drop_first() =~= q + seq![x] + a);
        assert((p + seq![y] + b).drop_first() =~= q + seq![y] + b);
        assert((p + seq![x] + a)[0] == p[0] && (p + seq![y] + b)[0] == p[0]);
    }
}

/// Among the ASCII characters the space and those from tabulator to carriage return are
/// whitespace.
pub proof fn law_ascii_whitespace(c: char)
    requires
        (c as u32) < 128,
    ensures
        text::whitespace(c) <==> c as u32 == 32 || 9 <= c as u32 <= 13,
{
}

proof fn lemma_trimmed_start(pre: Seq<char>, s: Seq<char>)
    requires
        is_blank(pre),
    ensures
        text::trimmed_start(pre + s) == text::trimmed_start(s),
    decreases pre.len(),
{
    if pre.len() == 0 {
        assert(pre + s =~= s);
    } else {
        assert((pre + s)[0] == pre[0]);
        assert((pre + s).drop_first() =~= pre.drop_first() + s);
        assert forall|i: int| 0 <= i < pre.drop_first().len() implies text::whitespace(
            #[trigger] pre.drop_first()[i],
        ) by {
            assert(text::whitespace(pre[i + 1]));
        }
        lemma_trimmed_start(pre.drop_first(), s);
    }
}

proof fn lemma_trimmed_end(s: Seq<char>, post: Seq<char>)
    requires
        is_blank(post),
    ensures
        text::trimmed_end(s + post) == text::trimmed_end(s),
    decreases post.len(),
{
    if post.len() == 0 {
        assert(s + post =~= s);
    } else {
        assert((s + post).last() == post.last());
        assert((s + post).drop_last() =~= s + post.drop_last());
        assert(text::whitespace(post[post.len() - 1]));
        assert forall|i: int| 0 <= i < post.drop_last().len() implies text::whitespace(
            #[trigger] post.drop_last()[i],
        ) by {
            assert(text::whitespace(post[i]));
        }
        lemma_trimmed_end(s, post.drop_last());
    }
}

/// Trimming takes the whitespace from both ends, and nothing else.
pub proof fn law_trimming_takes_the_blank_ends(pre: Seq<char>, core: Seq<char>, post: Seq<char>)
    requires
        is_blank(pre),
        is_blank(post),
        core.len() > 0 ==> !text::whitespace(core[0]) && !text::whitespace(core.last()),
    ensures
        text::trimmed(pre + core + post) == core,
{
    assert(pre + core + post =~= pre + (core + post));
    lemma_trimmed_start(pre, core + post);
    if core.len() > 0 {
        assert((core + post)[0] == core[0]);
        lemma_trimmed_end(core, post);
    } else {
        assert(core + post =~= post + core);
        lemma_trimmed_start(post, core);
    }
}

/// A text is blank if and only if nothing is left of it once it is trimmed.
pub proof fn law_blank_texts_trim_to_nothing(s: Seq<char>)
    ensures
        text::trimmed(s).len() == 0 <==> is_blank(s),
    decreases s.len(),
{
    if is_blank(s) {
        let e = Seq::<char>::empty();
        law_trimming_takes_the_blank_ends(s, e, e);
        assert(s + e + e =~= s);
    } else {
        let k = choose|k: int| 0 <= k < s.len() && !text::whitespace(#[trigger] s[k]);
        lemma_not_blank_start(s, k);
        let t = text::trimmed_start(s);
        let m = choose|m: int| 0 <= m < t.len() && !text::whitespace(#[trigger] t[m]);
        lemma_not_blank_end(t, m);
    }
}

proof fn lemma_not_blank_start(s: Seq<char>, k: int)
    requires
        0 <= k < s.len(),
        !text::whitespace(s[k]),
    ensures
        exists|m: int|
            0 <= m < text::trimmed_start(s).len() && !text::whitespace(
                #[trigger] text::trimmed_start(s)[m],
            ),
    decreases s.len(),
{
    if text::whitespace(s[0]) {
        assert(s.drop_first()[k - 1] == s[k]);
        lemma_not_blank_start(s.drop_first(), k - 1);
        let t = text::trimmed_start(s.drop_first());
        let m = choose|m: int| 0 <= m < t.len() && !text::whitespace(#[trigger] t[m]);
        assert(!text::whitespace(text::trimmed_start(s)[m]));
    } else {
        assert(!text::whitespace(text::trimmed_start(s)[0]));
    }
}

proof fn lemma_not_blank_end(s: Seq<char>, k: int)
    requires
        0 <= k < s.len(),
        !text::whitespace(s[k]),
    ensures
        text::trimmed_end(s).len() > 0,
    decreases s.len(),
{
    if text::whitespace(s.last()) {
        assert(s.drop_last()[k] == s[k]);
        lemma_not_blank_end(s.drop_last(), k);
    }
}

/// A text that fits is not cut. Of any other the longest beginning that fits is kept, with the mark
/// behind it.
pub proof fn law_cut_keeps_what_fits(s: Seq<char>, max: nat, mark: Seq<char>)
    ensures
        text::utf8_len(s) <= max ==> render::truncated(s, max, mark) == s,
        text::utf8_len(s) > max ==> exists|n: int|
            0 <= n < s.len() && text::utf8_len(s.take(n)) <= max && text::utf8_len(s.take(n + 1))
                > max && render::truncated(s, max, mark) == #[trigger] s.take(n) + mark,
{
    render::lemma_fitting(s, max);
    let n = render::fitting(s, max) as int;
    if text::utf8_len(s) > max {
        assert(s.take(s.len() as int) =~= s);
        assert(n < s.len());
        assert(text::utf8_len(s.take(n + 1)) > max);
        assert(render::truncated(s, max, mark) == s.take(n) + mark);
    }
}

/// Joining puts the separator between the parts, and nothing before the first or behind the last.
pub proof fn law_join_puts_separators_between(
    parts: Seq<Seq<char>>,
    part: Seq<char>,
    sep: Seq<char>,
)
    ensures
        render::joined(Seq::<Seq<char>>::empty(), sep) == Seq::<char>::empty(),
        render::joined(seq![part], sep) == part,
        parts.len() > 0 ==> render::joined(parts.push(part), sep) == render::joined(parts, sep)
            + sep + part,
{
    assert(parts.push(part).drop_last() =~= parts);
}

/// Every part of a joined text stands in it.
pub proof fn law_joined_text_holds_every_part(parts: Seq<Seq<char>>, sep: Seq<char>, i: int)
    requires
        0 <= i < parts.len(),
    ensures
        exists|a: Seq<char>, b: Seq<char>| render::joined(parts, sep) == #[trigger] (a + parts[i] + b),
    decreases parts.len(),
{
    let e = Seq::<char>::empty();
    if parts.len() == 1 {
        assert(render::joined(parts, sep) =~= e + parts[i] + e);
    } else if i == parts.len() - 1 {
        let a = render::joined(parts.drop_last(), sep) + sep;
        assert(render::joined(parts, sep) =~= a + parts[i] + e);
    } else {
        law_joined_text_holds_every_part(parts.drop_last(), sep, i);
        let front = render::joined(parts.drop_last(), sep);
        let (a, b) = choose|a: Seq<char>, b: Seq<char>|
            front == #[trigger] (a + parts.drop_last()[i] + b);
        assert(render::joined(parts, sep) =~= a + parts[i] + (b + sep + parts.last()));
    }
}

/// A number is written with its decimal digits: one more digit is ten times the number and the
/// digit, and reading the digits gives the number back.
pub proof fn law_numbers_are_written_in_decimal(n: nat, d: nat)
    requires
        d < 10,
    ensures
        render::decimal(d).len() == 1,
        render::decimal(d)[0] as u32 == 48 + d,
        n > 0 ==> render::decimal(10 * n + d) == render::decimal(n) + render::decimal(d),
{
    if n > 0 {
        assert((10 * n + d) / 10 == n && (10 * n + d) % 10 == d) by (nonlinear_arith)
            requires
                d < 10,
        ;
        assert(render::decimal(10 * n + d) =~= render::decimal(n) + render::decimal(d));
    }
}

/// A written number reads back as the number, with or without a sign before it, unless it exceeds
/// what is allowed for.
pub proof fn law_written_numbers_read_back(n: nat, max: nat)
    ensures
        render::parsed_number(render::decimal(n), max) == if n <= max {
            Some(n)
        } else {
            None
        },
        render::parsed_number(seq!['+'] + render::decimal(n), max) == if n <= max {
            Some(n)
        } else {
            None
        },
{
    render::lemma_decimal_value(n);
    let s = render::decimal(n);
    assert(render::is_digit(s[0]));
    assert(s[0] != '+');
    assert((seq!['+'] + s).skip(1) =~= s);
}

/// What holds anything but digits behind its sign, or nothing, is no number.
pub proof fn law_only_digits_are_a_number(s: Seq<char>, i: int, max: nat)
    ensures
        s.len() == 0 ==> render::parsed_number(s, max) is None,
        0 < i < s.len() && !('0' as u32 <= s[i] as u32 <= '9' as u32) ==> render::parsed_number(
            s,
            max,
        ) is None,
        s.len() > 0 && s[0] != '+' && !('0' as u32 <= s[0] as u32 <= '9' as u32)
            ==> render::parsed_number(s, max) is None,
{
    if 0 < i < s.len() && !render::is_digit(s[i]) {
        if s[0] == '+' {
            assert(s.skip(1)[i - 1] == s[i]);
        }
    }
}

/// A text is contained in another if and only if the other is made of it and something around it.
pub proof fn law_contained_text_stands_inside(hay: Seq<char>, needle: Seq<char>)
    ensures
        render::contains_text(hay, needle) <==> exists|a: Seq<char>, b: Seq<char>|
            hay == #[trigger] (a + needle + b),
{
    if render::contains_text(hay, needle) {
        let i = choose|i: int| render::occurs_at(hay, needle, i);
        let a = hay.take(i);
        let b = hay.skip(i + needle.len());
        assert(hay =~= a + needle + b);
    }
    if exists|a: Seq<char>, b: Seq<char>| hay == #[trigger] (a + needle + b) {
        let (a, b) = choose|a: Seq<char>, b: Seq<char>| hay == #[trigger] (a + needle + b);
        assert(hay.subrange(a.len() as int, (a.len() + needle.len()) as int) =~= needle);
        assert(render::occurs_at(hay, needle, a.len() as int));
    }
}

/// A text is contained in whatever it stands in.
pub proof fn law_text_is_contained(a: Seq<char>, needle: Seq<char>, b: Seq<char>)
    ensures
        render::contains_text(a + needle + b, needle),
{
    law_contained_text_stands_inside(a + needle + b, needle);
}

/// The pieces of a text between the separators: each separator begins a new piece, and every other
/// character belongs to the last one.
pub proof fn law_separators_begin_new_pieces(s: Seq<char>, c: char, sep: char)
    ensures
        render::split_on(Seq::<char>::empty(), sep) == seq![Seq::<char>::empty()],
        render::split_on(s.push(sep), sep) == render::split_on(s, sep).push(Seq::<char>::empty()),
        c != sep ==> render::split_on(s.push(c), sep) == render::split_on(s, sep).drop_last().push(
            render::split_on(s, sep).last().push(c),
        ),
{
    assert(s.push(sep).drop_last() =~= s);
    assert(s.push(c).drop_last() =~= s);
}

/// Of pieces the blank ones are left out, and the others are kept in order without the whitespace
/// around them.
pub proof fn law_blank_pieces_are_left_out(parts: Seq<Seq<char>>, part: Seq<char>)
    ensures
        render::trimmed_nonempty(Seq::<Seq<char>>::empty()) == Seq::<Seq<char>>::empty(),
        render::trimmed_nonempty(parts.push(part)) == if is_blank(part) {
            render::trimmed_nonempty(parts)
        } else {
            render::trimmed_nonempty(parts).push(text::trimmed(part))
        },
{
    assert(parts.push(part).drop_last() =~= parts);
    law_blank_texts_trim_to_nothing(part);
}

/// A limit keeps the beginning of a list, and all of it if the limit allows.
pub proof fn law_limit_keeps_the_beginning<T>(s: Seq<T>, n: nat)
    ensures
        lists::limited(s, n).len() == if s.len() < n {
            s.len()
        } else {
            n
        },
        forall|i: int| 0 <= i < lists::limited(s, n).len() ==> #[trigger] lists::limited(s, n)[i] == s[i],
{
}

/// In ASCII text changing the case changes the letters alone, each to its counterpart.
pub proof fn law_case_changes_letters_alone(s: Seq<char>, i: int)
    requires
        forall|k: int| 0 <= k < s.len() ==> (#[trigger] s[k] as u32) < 128,
        0 <= i < s.len(),
    ensures
        letters::lowered(s).len() == s.len(),
        letters::uppered(s).len() == s.len(),
        'A' as u32 <= s[i] as u32 <= 'Z' as u32 ==> letters::lowered(s)[i] as u32 == s[i] as u32 + 32
            && letters::uppered(s)[i] == s[i],
        'a' as u32 <= s[i] as u32 <= 'z' as u32 ==> letters::uppered(s)[i] as u32 == s[i] as u32 - 32
            && letters::lowered(s)[i] == s[i],
        !('A' as u32 <= s[i] as u32 <= 'Z' as u32) && !('a' as u32 <= s[i] as u32 <= 'z' as u32)
            ==> letters::lowered(s)[i] == s[i] && letters::uppered(s)[i] == s[i],
{
    assert(letters::all_ascii(s)) by {
        assert forall|k: int| 0 <= k < s.len() implies letters::ascii(#[trigger] s[k]) by {}
    }
}

/// Among the ASCII characters digits and letters are alphanumeric.
pub proof fn law_ascii_alphanumerics(c: char)
    requires
        (c as u32) < 128,
    ensures
        letters::alphanumeric(c) <==> 'a' as u32 <= c as u32 <= 'z' as u32 || 'A' as u32 <= c as u32
            <= 'Z' as u32 || '0' as u32 <= c as u32 <= '9' as u32,
{
}

/// Whether a text holds whitespace nowhere.
pub open spec fn is_word(s: Seq<char>) -> bool {
    s.len() > 0 && forall|i: int| 0 <= i < s.len() ==> !text::whitespace(#[trigger] s[i])
}

/// Words with spaces between them are the words of the text.
pub proof fn law_words_stand_between_spaces(ws: Seq<Seq<char>>)
    requires
        forall|i: int| 0 <= i < ws.len() ==> is_word(#[trigger] ws[i]),
    ensures
        letters::words(render::joined(ws, seq![' '])) == ws,
{
    let keep = |c: char| !text::whitespace(c);
    assert(letters::are_words(ws, keep)) by {
        assert forall|i: int| 0 <= i < ws.len() implies (#[trigger] ws[i]).len() > 0
            && letters::all_kept(ws[i], keep) by {
            assert(is_word(ws[i]));
        }
    }
    letters::lemma_runs_of_joined(ws, ' ', keep);
}

/// A text has no words if and only if it is blank.
pub proof fn law_blank_texts_have_no_words(s: Seq<char>)
    ensures
        letters::words(s).len() == 0 <==> is_blank(s),
{
    lemma_blank_run_state(s);
}

proof fn lemma_blank_run_state(s: Seq<char>)
    ensures
        ({
            let state = letters::run_state(s, |c: char| !text::whitespace(c));
            state.0.len() == 0 && state.1.len() == 0 <==> is_blank(s)
        }),
    decreases s.len(),
{
    if s.len() > 0 {
        let front = s.drop_last();
        lemma_blank_run_state(front);
        if is_blank(s) {
            assert forall|i: int| 0 <= i < front.len() implies text::whitespace(
                #[trigger] front[i],
            ) by {
                assert(text::whitespace(s[i]));
            }
            assert(text::whitespace(s[s.len() - 1]));
        } else if text::whitespace(s.last()) {
            let k = choose|k: int| 0 <= k < s.len() && !text::whitespace(#[trigger] s[k]);
            assert(front[k] == s[k]);
        }
    }
}

/// A tally names each item of a list, with the number of times that it stands there.
pub proof fn law_tally_counts_occurrences(list: Seq<Seq<char>>, x: Seq<char>)
    ensures
        list.contains(x) ==> lists::tallied(list).contains(
            (x, list.filter(|y: Seq<char>| y == x).len()),
        ),
        forall|i: int|
            0 <= i < lists::tallied(list).len() ==> list.contains(
                (#[trigger] lists::tallied(list)[i]).0,
            ),
{
    lists::lemma_distinct(list);
    lemma_occurrences(list, x);
    let t = lists::tallied(list);
    let d = lists::distinct(list);
    if list.contains(x) {
        assert(d.contains(x));
        let k = choose|k: int| 0 <= k < d.len() && d[k] == x;
        assert(t[k] == (x, lists::occurrences(list, x)));
    }
    assert forall|i: int| 0 <= i < t.len() implies list.contains((#[trigger] t[i]).0) by {
        assert(d.contains(d[i]));
    }
}

proof fn lemma_occurrences(list: Seq<Seq<char>>, x: Seq<char>)
    ensures
        lists::occurrences(list, x) == list.filter(|y: Seq<char>| y == x).len(),
    decreases list.len(),
{
    reveal(Seq::filter);
    if list.len() > 0 {
        lemma_occurrences(list.drop_last(), x);
    }
}

/// Outside ASCII whitespace is what Unicode says it is.
pub proof fn law_other_whitespace(c: char)
    requires
        c as u32 >= 128,
    ensures
        text::whitespace(c) <==> c as u32 == 0x85 || c as u32 == 0xA0 || c as u32 == 0x1680
            || 0x2000 <= c as u32 <= 0x200A || c as u32 == 0x2028 || c as u32 == 0x2029 || c as u32
            == 0x202F || c as u32 == 0x205F || c as u32 == 0x3000,
{
}

/// Outside ASCII cases and letters are what the tables of Unicode say.
pub proof fn law_other_letters(s: Seq<char>, i: int, c: char)
    requires
        0 <= i < s.len(),
        s[i] as u32 >= 128,
        c as u32 >= 128,
    ensures
        letters::lowered(s) == letters::unicode_lowercase(s),
        letters::uppered(s) == letters::unicode_uppercase(s),
        letters::alphanumeric(c) == letters::unicode_alphanumeric(c),
{
    assert(!letters::ascii(s[i]));
}

} // verus!
