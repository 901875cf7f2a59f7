//! Texts that go to a provider and come back from it: media markers and code fences.
use crate::patterns;
use crate::render;
use crate::text;
use vstd::prelude::*;

verus! {

// ---------------------------------------------------------------------------
// Media markers
// ---------------------------------------------------------------------------

/// What stands for a media marker.
pub open spec fn attachment() -> Seq<char> {
    "[media attachment]"@
}

/// Strip channel media markers (e.g. `[IMAGE:/local/path]`, `[DOCUMENT:...]`)
/// that contain local filesystem paths.  These must never be forwarded to
/// upstream provider APIs — they would leak local paths and cause API errors.
pub fn strip_media_markers(text: &str) -> (r: String)
    ensures
        r@ == patterns::media_replaced(text@, attachment()),
{
    proof {
        reveal_strlit("[media attachment]");
        let a = attachment();
        assert(!a.contains('$')) by {
            assert forall|i: int| 0 <= i < a.len() implies a[i] != '$' by {}
        }
    }
    patterns::replace_matches(
        r"\[(?:IMAGE|DOCUMENT|FILE|VIDEO|VOICE|AUDIO):[^\]]*\]",
        text,
        "[media attachment]",
    )
}

proof fn lemma_first_bracket(s: Seq<char>)
    requires
        s.contains(']'),
    ensures
        s.index_of_first(']') is Some,
        0 <= s.index_of_first(']')->0 < s.len(),
        s[s.index_of_first(']')->0] == ']',
{
    s.index_of_first_ensures(']');
}

/// A closing bracket after the replacement was there before it.
proof fn lemma_bracket_was_there(s: Seq<char>)
    requires
        patterns::media_replaced(s, attachment()).contains(']'),
    ensures
        s.contains(']'),
    decreases s.len(),
{
    if s.len() > 0 && !patterns::is_marker(s) {
        let rest = patterns::media_replaced(s.skip(1), attachment());
        let out = seq![s[0]] + rest;
        let i = choose|i: int| 0 <= i < out.len() && out[i] == ']';
        if i == 0 {
            assert(s[0] == ']');
        } else {
            assert(rest[i - 1] == ']');
            lemma_bracket_was_there(s.skip(1));
            let j = choose|j: int| 0 <= j < s.skip(1).len() && s.skip(1)[j] == ']';
            assert(s[j + 1] == ']');
        }
    }
}

/// A beginning without an opening bracket is no part of a replacement.
proof fn lemma_beginning_was_there(s: Seq<char>, w: Seq<char>)
    requires
        !w.contains('['),
        w.len() <= patterns::media_replaced(s, attachment()).len(),
        patterns::media_replaced(s, attachment()).take(w.len() as int) == w,
    ensures
        w.len() <= s.len(),
        s.take(w.len() as int) == w,
    decreases w.len(),
{
    reveal_strlit("[media attachment]");
    if w.len() > 0 {
        let out = patterns::media_replaced(s, attachment());
        assert(out.take(w.len() as int)[0] == w[0]);
        assert(w.contains(w[0]));
        if s.len() > 0 {
            if patterns::is_marker(s) {
                assert(out[0] == '[');
            } else {
                let rest = patterns::media_replaced(s.skip(1), attachment());
                assert(out == seq![s[0]] + rest);
                let v = w.skip(1);
                assert forall|c: char| v.contains(c) implies w.contains(c) by {
                    let i = choose|i: int| 0 <= i < v.len() && v[i] == c;
                    assert(w[i + 1] == c);
                }
                assert(rest.take(v.len() as int) =~= v) by {
                    assert forall|i: int| 0 <= i < v.len() implies rest[i] == v[i] by {
                        assert(out.take(w.len() as int)[i + 1] == w[i + 1]);
                    }
                }
                lemma_beginning_was_there(s.skip(1), v);
                assert(s.take(w.len() as int) =~= w) by {
                    assert forall|i: int| 0 <= i < w.len() implies s[i] == w[i] by {
                        if i > 0 {
                            assert(s.skip(1).take(v.len() as int)[i - 1] == v[i - 1]);
                        }
                    }
                }
            }
        }
    } else {
        assert(s.take(0) =~= w);
    }
}

proof fn lemma_kind_was_there(s: Seq<char>, kind: Seq<char>)
    requires
        s.len() > 0,
        !patterns::is_marker(s),
        !kind.contains('['),
        patterns::begins_with_kind(patterns::media_replaced(s, attachment()), kind),
    ensures
        patterns::begins_with_kind(s, kind),
{
    let out = patterns::media_replaced(s, attachment());
    let rest = patterns::media_replaced(s.skip(1), attachment());
    let w = kind + seq![':'];
    let head = seq!['['] + kind + seq![':'];
    assert(out == seq![s[0]] + rest);
    assert(out.take((kind.len() + 2) as int)[0] == head[0]);
    assert(rest.take(w.len() as int) =~= w) by {
        assert forall|i: int| 0 <= i < w.len() implies rest[i] == w[i] by {
            assert(out.take((kind.len() + 2) as int)[i + 1] == head[i + 1]);
        }
    }
    assert(!w.contains('[')) by {
        assert forall|i: int| 0 <= i < w.len() implies w[i] != '[' by {
            if i < kind.len() {
                assert(kind.contains(kind[i]));
            }
        }
    }
    lemma_beginning_was_there(s.skip(1), w);
    assert(s.take((kind.len() + 2) as int) =~= head) by {
        assert forall|i: int| 0 <= i < head.len() implies s[i] == head[i] by {
            if i > 0 {
                assert(s.skip(1).take(w.len() as int)[i - 1] == w[i - 1]);
            }
        }
    }
}

proof fn lemma_no_bracket_in_kinds()
    ensures
        !"IMAGE"@.contains('['),
        !"DOCUMENT"@.contains('['),
        !"FILE"@.contains('['),
        !"VIDEO"@.contains('['),
        !"VOICE"@.contains('['),
        !"AUDIO"@.contains('['),
{
    reveal_strlit("IMAGE");
    reveal_strlit("DOCUMENT");
    reveal_strlit("FILE");
    reveal_strlit("VIDEO");
    reveal_strlit("VOICE");
    reveal_strlit("AUDIO");
}

proof fn lemma_marker_was_there(s: Seq<char>)
    requires
        s.len() > 0,
        !patterns::is_marker(s),
    ensures
        !patterns::is_marker(patterns::media_replaced(s, attachment())),
{
    let out = patterns::media_replaced(s, attachment());
    lemma_no_bracket_in_kinds();
    if patterns::is_marker(out) {
        lemma_bracket_was_there(s);
        if patterns::begins_with_kind(out, "IMAGE"@) {
            lemma_kind_was_there(s, "IMAGE"@);
        } else if patterns::begins_with_kind(out, "DOCUMENT"@) {
            lemma_kind_was_there(s, "DOCUMENT"@);
        } else if patterns::begins_with_kind(out, "FILE"@) {
            lemma_kind_was_there(s, "FILE"@);
        } else if patterns::begins_with_kind(out, "VIDEO"@) {
            lemma_kind_was_there(s, "VIDEO"@);
        } else if patterns::begins_with_kind(out, "VOICE"@) {
            lemma_kind_was_there(s, "VOICE"@);
        } else {
            lemma_kind_was_there(s, "AUDIO"@);
        }
    }
}

/// The second character of a beginning marker.
pub proof fn lemma_marker_kind_letter(s: Seq<char>)
    requires
        patterns::begins_as_marker(s),
    ensures
        s.len() > 1,
        s[0] == '[',
        s[1] != 'm',
{
    reveal_strlit("IMAGE");
    reveal_strlit("DOCUMENT");
    reveal_strlit("FILE");
    reveal_strlit("VIDEO");
    reveal_strlit("VOICE");
    reveal_strlit("AUDIO");
    let kind = if patterns::begins_with_kind(s, "IMAGE"@) {
        "IMAGE"@
    } else if patterns::begins_with_kind(s, "DOCUMENT"@) {
        "DOCUMENT"@
    } else if patterns::begins_with_kind(s, "FILE"@) {
        "FILE"@
    } else if patterns::begins_with_kind(s, "VIDEO"@) {
        "VIDEO"@
    } else if patterns::begins_with_kind(s, "VOICE"@) {
        "VOICE"@
    } else {
        "AUDIO"@
    };
    let head = seq!['['] + kind + seq![':'];
    assert(s.take((kind.len() + 2) as int)[0] == head[0]);
    assert(s.take((kind.len() + 2) as int)[1] == head[1]);
}

/// No media marker is left in a stripped text, at any position: no local path goes upstream.
pub proof fn law_no_marker_is_left(s: Seq<char>, i: int)
    requires
        0 <= i <= patterns::media_replaced(s, attachment()).len(),
    ensures
        !patterns::is_marker(patterns::media_replaced(s, attachment()).skip(i)),
    decreases s.len(),
{
    reveal_strlit("[media attachment]");
    let out = patterns::media_replaced(s, attachment());
    let a = attachment();
    if s.len() == 0 {
        if patterns::is_marker(out.skip(i)) {
            lemma_marker_kind_letter(out.skip(i));
        }
    } else if patterns::is_marker(s) {
        lemma_first_bracket(s);
        let tail = s.skip(s.index_of_first(']')->0 + 1);
        let rest = patterns::media_replaced(tail, a);
        assert(out == a + rest);
        if i >= a.len() {
            law_no_marker_is_left(tail, i - a.len());
            assert(out.skip(i) =~= rest.skip(i - a.len()));
        } else {
            if patterns::is_marker(out.skip(i)) {
                lemma_marker_kind_letter(out.skip(i));
                assert(out.skip(i)[0] == a[i]);
                if i == 0 {
                    assert(out.skip(i)[1] == a[1]);
                }
            }
        }
    } else {
        let rest = patterns::media_replaced(s.skip(1), a);
        assert(out == seq![s[0]] + rest);
        if i >= 1 {
            law_no_marker_is_left(s.skip(1), i - 1);
            assert(out.skip(i) =~= rest.skip(i - 1));
        } else {
            lemma_marker_was_there(s);
            assert(out.skip(0) =~= out);
        }
    }
}

/// Whether a text begins as a marker of a kind does is settled before the next opening bracket.
proof fn lemma_kind_before_bracket(head: Seq<char>, rest: Seq<char>, kind: Seq<char>)
    requires
        head.len() > 0,
        rest.len() > 0,
        rest[0] == '[',
        !kind.contains('['),
    ensures
        patterns::begins_with_kind(head + rest, kind) == patterns::begins_with_kind(head, kind),
{
    let s = head + rest;
    let n = kind.len() + 2;
    let opening = seq!['['] + kind + seq![':'];
    if head.len() >= n {
        assert(s.take(n as int) =~= head.take(n as int));
    } else if patterns::begins_with_kind(s, kind) {
        let k = head.len() as int;
        assert(s.take(n as int)[k] == '[');
        assert(opening[k] == '[');
        if k <= kind.len() {
            assert(kind[k - 1] == '[');
            assert(kind.contains('['));
        }
    }
}

/// Whether a text begins as a marker does is settled before the next opening bracket.
proof fn lemma_beginning_before_bracket(head: Seq<char>, rest: Seq<char>)
    requires
        head.len() > 0,
        rest.len() > 0,
        rest[0] == '[',
    ensures
        patterns::begins_as_marker(head + rest) == patterns::begins_as_marker(head),
{
    lemma_no_bracket_in_kinds();
    lemma_kind_before_bracket(head, rest, "IMAGE"@);
    lemma_kind_before_bracket(head, rest, "DOCUMENT"@);
    lemma_kind_before_bracket(head, rest, "FILE"@);
    lemma_kind_before_bracket(head, rest, "VIDEO"@);
    lemma_kind_before_bracket(head, rest, "VOICE"@);
    lemma_kind_before_bracket(head, rest, "AUDIO"@);
}

/// Where the first closing bracket stands.
proof fn lemma_first_bracket_at(s: Seq<char>, k: int)
    requires
        0 <= k < s.len(),
        s[k] == ']',
        forall|i: int| 0 <= i < k ==> s[i] != ']',
    ensures
        s.contains(']'),
        s.index_of_first(']') == Some(k),
{
    s.index_of_first_ensures(']');
}

proof fn lemma_no_closing_bracket_in_kind(kind: Seq<char>)
    requires
        patterns::is_kind(kind),
    ensures
        !kind.contains(']'),
{
    reveal_strlit("IMAGE");
    reveal_strlit("DOCUMENT");
    reveal_strlit("FILE");
    reveal_strlit("VIDEO");
    reveal_strlit("VOICE");
    reveal_strlit("AUDIO");
}

/// What stands for a text with a media marker between two parts of it.
spec fn with_marker(head: Seq<char>, tail: Seq<char>) -> Seq<char>
    decreases head.len(),
{
    if head.len() == 0 {
        attachment() + patterns::media_replaced(tail, attachment())
    } else if !patterns::begins_as_marker(head) {
        seq![head[0]] + with_marker(head.skip(1), tail)
    } else if head.contains(']') {
        proof {
            head.index_of_first_ensures(']');
        }
        attachment() + with_marker(head.skip(head.index_of_first(']')->0 + 1), tail)
    } else {
        attachment() + patterns::media_replaced(tail, attachment())
    }
}

/// A text with a media marker in it is stripped to a text that depends only on the parts around the
/// marker.
proof fn lemma_marker_is_replaced(
    head: Seq<char>,
    kind: Seq<char>,
    path: Seq<char>,
    tail: Seq<char>,
)
    requires
        patterns::is_kind(kind),
        !path.contains(']'),
    ensures
        patterns::media_replaced(head + patterns::marker(kind, path) + tail, attachment())
            == with_marker(head, tail),
    decreases head.len(),
{
    let m = patterns::marker(kind, path);
    let s = head + m + tail;
    let a = attachment();
    lemma_no_closing_bracket_in_kind(kind);
    assert forall|i: int| 0 <= i < m.len() - 1 implies m[i] != ']' by {
        if 1 <= i <= kind.len() {
            assert(kind.contains(kind[i - 1]));
        } else if i > kind.len() + 1 {
            assert(path.contains(path[i - kind.len() - 2]));
        }
    }
    if head.len() == 0 {
        lemma_first_bracket_at(s, m.len() - 1);
        assert(s.take((kind.len() + 2) as int) =~= seq!['['] + kind + seq![':']);
        assert(patterns::begins_with_kind(s, kind));
        assert(s.skip(m.len() as int) =~= tail);
    } else {
        assert(s =~= head + (m + tail));
        lemma_beginning_before_bracket(head, m + tail);
        assert(s[head.len() + m.len() - 1] == ']');
        assert(s.contains(']'));
        if patterns::begins_as_marker(head) {
            if head.contains(']') {
                lemma_first_bracket(head);
                head.index_of_first_ensures(']');
                let k = head.index_of_first(']')->0;
                lemma_first_bracket_at(s, k);
                assert(s.skip(k + 1) =~= head.skip(k + 1) + m + tail);
                lemma_marker_is_replaced(head.skip(k + 1), kind, path, tail);
            } else {
                assert forall|i: int| 0 <= i < head.len() + m.len() - 1 implies s[i] != ']' by {
                    if i < head.len() {
                        assert(head.contains(head[i]));
                    } else {
                        assert(s[i] == m[i - head.len()]);
                    }
                }
                lemma_first_bracket_at(s, head.len() + m.len() - 1);
                assert(s.skip((head.len() + m.len()) as int) =~= tail);
            }
        } else {
            assert(s.skip(1) =~= head.skip(1) + m + tail);
            lemma_marker_is_replaced(head.skip(1), kind, path, tail);
        }
    }
}

/// A media marker at the beginning of a text is replaced.
pub proof fn lemma_marker_first(kind: Seq<char>, path: Seq<char>, tail: Seq<char>)
    requires
        patterns::is_kind(kind),
        !path.contains(']'),
    ensures
        patterns::media_replaced(
            seq!['['] + kind + seq![':'] + path + seq![']'] + tail,
            attachment(),
        ) == attachment() + patterns::media_replaced(tail, attachment()),
{
    let e = Seq::<char>::empty();
    lemma_marker_is_replaced(e, kind, path, tail);
    assert(e + patterns::marker(kind, path) + tail =~= patterns::marker(kind, path) + tail);
}

/// Nothing of a path is told: a stripped text does not depend on what a marker in it holds.
pub proof fn law_paths_are_not_told(
    head: Seq<char>,
    kind: Seq<char>,
    path: Seq<char>,
    other: Seq<char>,
    tail: Seq<char>,
)
    requires
        patterns::is_kind(kind),
        !path.contains(']'),
        !other.contains(']'),
    ensures
        patterns::media_replaced(head + patterns::marker(kind, path) + tail, attachment())
            == patterns::media_replaced(head + patterns::marker(kind, other) + tail, attachment()),
{
    lemma_marker_is_replaced(head, kind, path, tail);
    lemma_marker_is_replaced(head, kind, other, tail);
}

// ---------------------------------------------------------------------------
// Code fences
// ---------------------------------------------------------------------------

/// A text without the occurrences of `p` at its beginning.
pub open spec fn without_front(s: Seq<char>, p: Seq<char>) -> Seq<char>
    decreases s.len(),
{
    if 0 < p.len() <= s.len() && s.take(p.len() as int) == p {
        without_front(s.skip(p.len() as int), p)
    } else {
        s
    }
}

/// A text without the occurrences of `p` at its end.
pub open spec fn without_back(s: Seq<char>, p: Seq<char>) -> Seq<char>
    decreases s.len(),
{
    if 0 < p.len() <= s.len() && s.skip(s.len() - p.len()) == p {
        without_back(s.take(s.len() - p.len()), p)
    } else {
        s
    }
}

/// A response without the code fences around it.
pub open spec fn unfenced(raw: Seq<char>) -> Seq<char> {
    text::trimmed(
        without_back(
            without_front(without_front(text::trimmed(raw), "```json"@), "```"@),
            "```"@,
        ),
    )
}

/// Where a text begins once the occurrences of `p` at its beginning are left out.
fn skip_front(v: &Vec<char>, from: usize, to: usize, p: &Vec<char>) -> (r: usize)
    requires
        from <= to <= v@.len(),
        p@.len() > 0,
    ensures
        from <= r <= to,
        v@.subrange(r as int, to as int) == without_front(
            v@.subrange(from as int, to as int),
            p@,
        ),
{
    let n: usize = p.len();
    let mut a: usize = from;
    while n <= to - a && render::stands_at(v, p, a)
        invariant
            from <= a <= to <= v@.len(),
            n == p@.len() > 0,
            without_front(v@.subrange(a as int, to as int), p@) == without_front(
                v@.subrange(from as int, to as int),
                p@,
            ),
        decreases to - a,
    {
        proof {
            let s = v@.subrange(a as int, to as int);
            assert(s.take(n as int) =~= v@.subrange(a as int, a + n));
            assert(s.skip(n as int) =~= v@.subrange(a + n, to as int));
        }
        a += n;
    }
    proof {
        let s = v@.subrange(a as int, to as int);
        if n <= s.len() {
            assert(s.take(n as int) =~= v@.subrange(a as int, a + n));
        }
    }
    a
}

/// Where a text ends once the occurrences of `p` at its end are left out.
fn skip_back(v: &Vec<char>, from: usize, to: usize, p: &Vec<char>) -> (r: usize)
    requires
        from <= to <= v@.len(),
        p@.len() > 0,
    ensures
        from <= r <= to,
        v@.subrange(from as int, r as int) == without_back(
            v@.subrange(from as int, to as int),
            p@,
        ),
{
    let n: usize = p.len();
    let mut b: usize = to;
    while n <= b - from && render::stands_at(v, p, b - n)
        invariant
            from <= b <= to <= v@.len(),
            n == p@.len() > 0,
            without_back(v@.subrange(from as int, b as int), p@) == without_back(
                v@.subrange(from as int, to as int),
                p@,
            ),
        decreases b,
    {
        proof {
            let s = v@.subrange(from as int, b as int);
            assert(s.skip(s.len() - n) =~= v@.subrange(b - n, b as int));
            assert(s.take(s.len() - n) =~= v@.subrange(from as int, b - n));
        }
        b -= n;
    }
    proof {
        let s = v@.subrange(from as int, b as int);
        if n <= s.len() {
            assert(s.skip(s.len() - n) =~= v@.subrange(b - n, b as int));
        }
    }
    b
}

/// A response without the code fences that a model may put around it.
pub fn strip_fences(raw: &str) -> (r: String)
    ensures
        r@ == unfenced(raw@),
{
    let v = text::to_chars(raw);
    let long = text::to_chars("```json");
    let short = text::to_chars("```");
    proof {
        reveal_strlit("```json");
        reveal_strlit("```");
    }
    let (a, b) = text::trim_range(&v, 0, v.len());
    assert(v@.subrange(0, v@.len() as int) =~= raw@);
    let a2: usize = skip_front(&v, a, b, &long);
    let a3: usize = skip_front(&v, a2, b, &short);
    let b2: usize = skip_back(&v, a3, b, &short);
    let (c, d) = text::trim_range(&v, a3, b2);
    text::text_of(&v, c, d)
}

} // verus!
