//! Normalized names: node types, relations and slugs.
use crate::letters;
use crate::render;
use vstd::prelude::*;

verus! {

/// A normalized name: the runs of letters and numbers of the lower-case text, with single
/// underscores between them.
pub open spec fn slug(s: Seq<char>) -> Seq<char> {
    render::joined(letters::letter_runs(letters::lowered(s)), seq!['_'])
}

/// Normalize a slug for entity identity: lowercase, collapse non-alphanumeric
/// runs to single underscores, strip leading/trailing underscores.
pub fn normalize_slug(s: &str) -> (r: String)
    ensures
        r@ == slug(s@),
{
    let lower = letters::to_lower(s);
    let parts = letters::split_letters(lower.as_str());
    proof {
        reveal_strlit("_");
        assert("_"@ =~= seq!['_']);
    }
    render::join(&parts, "_")
}

/// Normalize a node type or relation string: same rules as for a slug.
pub fn normalize_type(s: &str) -> (r: String)
    ensures
        r@ == slug(s@),
{
    normalize_slug(s)
}

/// Whether a text has the shape of a normalized name: letters, numbers and underscores, no
/// underscore at either end and no two in a row.
pub open spec fn is_slug_shaped(s: Seq<char>) -> bool {
    &&& forall|i: int| 0 <= i < s.len() ==> letters::alphanumeric(#[trigger] s[i]) || s[i] == '_'
    &&& s.len() > 0 ==> s[0] != '_' && s.last() != '_'
    &&& forall|i: int| 0 < i < s.len() ==> !(#[trigger] s[i] == '_' && s[i - 1] == '_')
}

proof fn lemma_joined_is_slug_shaped(ws: Seq<Seq<char>>)
    requires
        letters::are_words(ws, |c: char| letters::alphanumeric(c)),
    ensures
        is_slug_shaped(render::joined(ws, seq!['_'])),
        ws.len() > 0 ==> render::joined(ws, seq!['_']).len() > 0,
    decreases ws.len(),
{
    let keep = |c: char| letters::alphanumeric(c);
    assert(!letters::alphanumeric('_'));
    if ws.len() > 0 {
        let w = ws.last();
        assert(ws[ws.len() - 1].len() > 0 && letters::all_kept(ws[ws.len() - 1], keep));
        assert forall|i: int| 0 <= i < w.len() implies letters::alphanumeric(#[trigger] w[i]) by {
            assert(keep(w[i]));
        }
        if ws.len() == 1 {
            assert(render::joined(ws, seq!['_']) == w);
        } else {
            let front = ws.drop_last();
            assert forall|i: int| 0 <= i < front.len() implies (#[trigger] front[i]).len() > 0
                && letters::all_kept(front[i], keep) by {
                assert(front[i] == ws[i]);
            }
            lemma_joined_is_slug_shaped(front);
            let j = render::joined(front, seq!['_']);
            let out = render::joined(ws, seq!['_']);
            assert(out == j + seq!['_'] + w);
            assert forall|i: int| 0 <= i < out.len() implies letters::alphanumeric(#[trigger] out[i])
                || out[i] == '_' by {
                if i < j.len() {
                    assert(out[i] == j[i]);
                } else if i > j.len() {
                    assert(out[i] == w[i - j.len() - 1]);
                }
            }
            assert forall|i: int| 0 < i < out.len() implies !(#[trigger] out[i] == '_' && out[i - 1]
                == '_') by {
                if i < j.len() {
                    assert(out[i] == j[i] && out[i - 1] == j[i - 1]);
                } else if i == j.len() {
                    assert(out[i - 1] == j.last());
                } else {
                    assert(out[i] == w[i - j.len() - 1]);
                }
            }
            assert(out[0] == j[0]);
            assert(out.last() == w.last());
        }
    }
}

/// Every normalized name has the shape of one.
pub proof fn law_slug_shape(s: Seq<char>)
    ensures
        is_slug_shaped(slug(s)),
{
    let keep = |c: char| letters::alphanumeric(c);
    letters::lemma_runs_kept(letters::lowered(s), keep);
    lemma_joined_is_slug_shaped(letters::letter_runs(letters::lowered(s)));
}

/// Whether a text is ASCII without capitals.
pub open spec fn is_plain(s: Seq<char>) -> bool {
    &&& letters::all_ascii(s)
    &&& forall|i: int| 0 <= i < s.len() ==> letters::ascii_lower(#[trigger] s[i]) == s[i]
}

proof fn lemma_runs_are_plain(s: Seq<char>, keep: spec_fn(char) -> bool)
    requires
        is_plain(s),
    ensures
        forall|i: int|
            0 <= i < letters::run_state(s, keep).0.len() ==> is_plain(
                #[trigger] letters::run_state(s, keep).0[i],
            ),
        is_plain(letters::run_state(s, keep).1),
    decreases s.len(),
{
    if s.len() > 0 {
        let front = s.drop_last();
        assert forall|i: int| 0 <= i < front.len() implies letters::ascii(#[trigger] front[i])
            && letters::ascii_lower(front[i]) == front[i] by {
            assert(front[i] == s[i]);
        }
        lemma_runs_are_plain(front, keep);
        let before = letters::run_state(front, keep);
        assert(s.last() == s[s.len() - 1]);
        let grown = before.1.push(s.last());
        assert forall|i: int| 0 <= i < grown.len() implies letters::ascii(#[trigger] grown[i])
            && letters::ascii_lower(grown[i]) == grown[i] by {
            if i < before.1.len() {
                assert(grown[i] == before.1[i]);
            }
        }
    }
}

proof fn lemma_joined_is_plain(ws: Seq<Seq<char>>)
    requires
        forall|i: int| 0 <= i < ws.len() ==> is_plain(#[trigger] ws[i]),
    ensures
        is_plain(render::joined(ws, seq!['_'])),
    decreases ws.len(),
{
    if ws.len() > 1 {
        lemma_joined_is_plain(ws.drop_last());
        let j = render::joined(ws.drop_last(), seq!['_']);
        let w = ws.last();
        assert(is_plain(ws[ws.len() - 1]));
        let out = render::joined(ws, seq!['_']);
        assert(out == j + seq!['_'] + w);
        assert forall|i: int| 0 <= i < out.len() implies letters::ascii(#[trigger] out[i])
            && letters::ascii_lower(out[i]) == out[i] by {
            if i < j.len() {
                assert(out[i] == j[i]);
            } else if i > j.len() {
                assert(out[i] == w[i - j.len() - 1]);
            }
        }
    }
}

/// Lower-casing an ASCII text gives an ASCII text without capitals, and leaves such a text as it
/// is.
proof fn lemma_lowered_is_plain(s: Seq<char>)
    requires
        letters::all_ascii(s),
    ensures
        is_plain(letters::lowered(s)),
        is_plain(s) ==> letters::lowered(s) == s,
{
    let low = letters::lowered(s);
    assert forall|i: int| 0 <= i < low.len() implies letters::ascii(#[trigger] low[i])
        && letters::ascii_lower(low[i]) == low[i] by {
        assert(letters::ascii(s[i]));
        assert(low[i] == letters::ascii_lower(s[i]));
    }
    if is_plain(s) {
        assert(low =~= s);
    }
}

/// Normalizing a normalized name changes nothing, for every name that lower-casing leaves as it is
/// once it is normalized.
pub proof fn law_slug_is_idempotent(s: Seq<char>)
    requires
        letters::lowered(slug(s)) == slug(s),
    ensures
        slug(slug(s)) == slug(s),
{
    let keep = |c: char| letters::alphanumeric(c);
    let low = letters::lowered(s);
    letters::lemma_runs_kept(low, keep);
    assert(!keep('_'));
    letters::lemma_runs_of_joined(letters::letter_runs(low), '_', keep);
}

/// A text and its lower-case form have the same normalized name, for every text whose lower-case
/// form lower-casing leaves as it is.
pub proof fn law_slug_of_lower_case(s: Seq<char>)
    requires
        letters::lowered(letters::lowered(s)) == letters::lowered(s),
    ensures
        slug(letters::lowered(s)) == slug(s),
{
}

/// Normalizing a normalized name, or the lower-case form of a name, changes nothing for names in
/// ASCII; the normalized name is in ASCII too.
pub proof fn law_ascii_slug_is_idempotent(s: Seq<char>)
    requires
        letters::all_ascii(s),
    ensures
        slug(slug(s)) == slug(s),
        slug(letters::lowered(s)) == slug(s),
        letters::all_ascii(slug(s)),
{
    let keep = |c: char| letters::alphanumeric(c);
    let low = letters::lowered(s);
    let ws = letters::letter_runs(low);
    lemma_lowered_is_plain(s);
    lemma_lowered_is_plain(low);
    lemma_runs_are_plain(low, keep);
    assert forall|i: int| 0 <= i < ws.len() implies is_plain(#[trigger] ws[i]) by {}
    lemma_joined_is_plain(ws);
    lemma_lowered_is_plain(slug(s));
    law_slug_is_idempotent(s);
}

/// Names in ASCII that differ in letter case only are the same name.
pub proof fn law_slug_ignores_case(a: Seq<char>, b: Seq<char>)
    requires
        letters::all_ascii(a),
        letters::all_ascii(b),
        a.len() == b.len(),
        forall|i: int|
            0 <= i < a.len() ==> letters::ascii_lower(#[trigger] a[i]) == letters::ascii_lower(b[i]),
    ensures
        slug(a) == slug(b),
{
    assert(letters::lowered(a) =~= letters::lowered(b));
}

} // verus!
