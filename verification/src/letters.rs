//! Letter case, character classes, and the words and slugs made of them.
use crate::render;
use crate::text;
use vstd::prelude::*;

verus! {

// ---------------------------------------------------------------------------
// Case
// ---------------------------------------------------------------------------

/// Whether a character is an ASCII character.
pub open spec fn ascii(c: char) -> bool {
    (c as u32) < 128
}

/// Whether a text consists of ASCII characters.
pub open spec fn all_ascii(s: Seq<char>) -> bool {
    forall|i: int| 0 <= i < s.len() ==> ascii(#[trigger] s[i])
}

/// The lower-case form of an ASCII character.
pub open spec fn ascii_lower(c: char) -> char {
    if 'A' as u32 <= c as u32 <= 'Z' as u32 {
        ((c as u32 + 32) as u8) as char
    } else {
        c
    }
}

/// The upper-case form of an ASCII character.
pub open spec fn ascii_upper(c: char) -> char {
    if 'a' as u32 <= c as u32 <= 'z' as u32 {
        ((c as u32 - 32) as u8) as char
    } else {
        c
    }
}

/// The lower-case form of a text with characters outside ASCII, as Unicode defines it.
pub uninterp spec fn unicode_lowercase(s: Seq<char>) -> Seq<char>;

/// The upper-case form of a text with characters outside ASCII, as Unicode defines it.
pub uninterp spec fn unicode_uppercase(s: Seq<char>) -> Seq<char>;

/// Whether Unicode counts a character outside ASCII among the letters or numbers.
pub uninterp spec fn unicode_alphanumeric(c: char) -> bool;

/// Calls `str::to_lowercase` of std, whose result depends on the text alone. The result is named
/// and nothing more is claimed of it.
#[verifier::external_body]
fn std_lowercase(s: &str) -> (r: String)
    ensures
        r@ == unicode_lowercase(s@),
{
    s.to_lowercase()
}

/// Calls `str::to_uppercase` of std, whose result depends on the text alone. The result is named
/// and nothing more is claimed of it.
#[verifier::external_body]
fn std_uppercase(s: &str) -> (r: String)
    ensures
        r@ == unicode_uppercase(s@),
{
    s.to_uppercase()
}

/// Calls `char::is_alphanumeric` of std, whose result depends on the character alone. The result
/// is named and nothing more is claimed of it.
#[verifier::external_body]
fn std_alphanumeric(c: char) -> (r: bool)
    ensures
        r == unicode_alphanumeric(c),
{
    c.is_alphanumeric()
}

/// The lower-case form of a text.
pub open spec fn lowered(s: Seq<char>) -> Seq<char> {
    if all_ascii(s) {
        s.map_values(|c: char| ascii_lower(c))
    } else {
        unicode_lowercase(s)
    }
}

/// The upper-case form of a text.
pub open spec fn uppered(s: Seq<char>) -> Seq<char> {
    if all_ascii(s) {
        s.map_values(|c: char| ascii_upper(c))
    } else {
        unicode_uppercase(s)
    }
}

/// Whether a character is a letter or a number.
pub open spec fn alphanumeric(c: char) -> bool {
    if ascii(c) {
        ||| '0' as u32 <= c as u32 <= '9' as u32
        ||| 'a' as u32 <= c as u32 <= 'z' as u32
        ||| 'A' as u32 <= c as u32 <= 'Z' as u32
    } else {
        unicode_alphanumeric(c)
    }
}

fn is_ascii_text(v: &Vec<char>) -> (r: bool)
    ensures
        r == all_ascii(v@),
{
    let mut i: usize = 0;
    while i < v.len()
        invariant
            i <= v@.len(),
            forall|k: int| 0 <= k < i ==> ascii(#[trigger] v@[k]),
        decreases v@.len() - i,
    {
        let x: u32 = v[i] as u32;
        if x >= 128 {
            assert(!ascii(v@[i as int]));
            return false;
        }
        i += 1;
    }
    true
}

/// Lower-case a text.
pub fn to_lower(s: &str) -> (r: String)
    ensures
        r@ == lowered(s@),
{
    let v = text::to_chars(s);
    if !is_ascii_text(&v) {
        return std_lowercase(s);
    }
    let mut out = String::new();
    let mut i: usize = 0;
    while i < v.len()
        invariant
            i <= v@.len(),
            v@ == s@,
            all_ascii(v@),
            out@ == s@.take(i as int).map_values(|c: char| ascii_lower(c)),
        decreases v@.len() - i,
    {
        let x: u32 = v[i] as u32;
        assert(ascii(v@[i as int]));
        let c: char = if 'A' as u32 <= x && x <= 'Z' as u32 { (x as u8 + 32) as char } else { v[i] };
        out.push(c);
        i += 1;
        assert(out@ =~= s@.take(i as int).map_values(|c: char| ascii_lower(c)));
    }
    assert(s@.take(s@.len() as int) =~= s@);
    out
}

/// Upper-case a text.
pub fn to_upper(s: &str) -> (r: String)
    ensures
        r@ == uppered(s@),
{
    let v = text::to_chars(s);
    if !is_ascii_text(&v) {
        return std_uppercase(s);
    }
    let mut out = String::new();
    let mut i: usize = 0;
    while i < v.len()
        invariant
            i <= v@.len(),
            v@ == s@,
            all_ascii(v@),
            out@ == s@.take(i as int).map_values(|c: char| ascii_upper(c)),
        decreases v@.len() - i,
    {
        let x: u32 = v[i] as u32;
        assert(ascii(v@[i as int]));
        let c: char = if 'a' as u32 <= x && x <= 'z' as u32 { (x as u8 - 32) as char } else { v[i] };
        out.push(c);
        i += 1;
        assert(out@ =~= s@.take(i as int).map_values(|c: char| ascii_upper(c)));
    }
    assert(s@.take(s@.len() as int) =~= s@);
    out
}

/// Whether a character is a letter or a number.
pub fn is_alphanumeric(c: char) -> (r: bool)
    ensures
        r == alphanumeric(c),
{
    let x: u32 = c as u32;
    if x < 128 {
        ('0' as u32 <= x && x <= '9' as u32) || ('a' as u32 <= x && x <= 'z' as u32) || (
        'A' as u32 <= x && x <= 'Z' as u32)
    } else {
        std_alphanumeric(c)
    }
}

// ---------------------------------------------------------------------------
// Runs of characters
// ---------------------------------------------------------------------------

/// The closed runs of kept characters in a text, and the run that its end leaves open.
pub open spec fn run_state(s: Seq<char>, keep: spec_fn(char) -> bool) -> (
    Seq<Seq<char>>,
    Seq<char>,
)
    decreases s.len(),
{
    if s.len() == 0 {
        (Seq::empty(), Seq::empty())
    } else {
        let before = run_state(s.drop_last(), keep);
        if keep(s.last()) {
            (before.0, before.1.push(s.last()))
        } else if before.1.len() == 0 {
            before
        } else {
            (before.0.push(before.1), Seq::empty())
        }
    }
}

/// The maximal runs of kept characters in a text.
pub open spec fn runs(s: Seq<char>, keep: spec_fn(char) -> bool) -> Seq<Seq<char>> {
    let end = run_state(s, keep);
    if end.1.len() == 0 {
        end.0
    } else {
        end.0.push(end.1)
    }
}

/// The words of a text: its maximal runs without white space.
pub open spec fn words(s: Seq<char>) -> Seq<Seq<char>> {
    runs(s, |c: char| !text::whitespace(c))
}

/// The maximal runs of letters and numbers of a text.
pub open spec fn letter_runs(s: Seq<char>) -> Seq<Seq<char>> {
    runs(s, |c: char| alphanumeric(c))
}

/// The words of a text.
pub fn split_words(s: &str) -> (r: Vec<String>)
    ensures
        r.deep_view() == words(s@),
{
    let v = text::to_chars(s);
    let ghost keep = |c: char| !text::whitespace(c);
    let mut out: Vec<String> = Vec::new();
    let mut cur = String::new();
    let mut len: usize = 0;
    let mut i: usize = 0;
    assert(out.deep_view() =~= Seq::empty());
    while i < v.len()
        invariant
            i <= v@.len(),
            v@ == s@,
            len <= i,
            len == cur@.len(),
            keep == |c: char| !text::whitespace(c),
            (out.deep_view(), cur@) == run_state(s@.take(i as int), keep),
        decreases v@.len() - i,
    {
        let c: char = v[i];
        let ghost done = out.deep_view();
        let ghost open = cur@;
        proof {
            assert(s@.take(i + 1).drop_last() =~= s@.take(i as int));
            assert(s@.take(i + 1).last() == c);
        }
        if !text::is_whitespace(c) {
            cur.push(c);
            len += 1;
        } else if len > 0 {
            out.push(cur);
            assert(out.deep_view() =~= done.push(open));
            cur = String::new();
            len = 0;
        }
        i += 1;
    }
    assert(s@.take(s@.len() as int) =~= s@);
    if len > 0 {
        let ghost done = out.deep_view();
        let ghost open = cur@;
        out.push(cur);
        assert(out.deep_view() =~= done.push(open));
    }
    out
}

/// The maximal runs of letters and numbers of a text.
pub fn split_letters(s: &str) -> (r: Vec<String>)
    ensures
        r.deep_view() == letter_runs(s@),
{
    let v = text::to_chars(s);
    let ghost keep = |c: char| alphanumeric(c);
    let mut out: Vec<String> = Vec::new();
    let mut cur = String::new();
    let mut len: usize = 0;
    let mut i: usize = 0;
    assert(out.deep_view() =~= Seq::empty());
    while i < v.len()
        invariant
            i <= v@.len(),
            v@ == s@,
            len <= i,
            len == cur@.len(),
            keep == |c: char| alphanumeric(c),
            (out.deep_view(), cur@) == run_state(s@.take(i as int), keep),
        decreases v@.len() - i,
    {
        let c: char = v[i];
        let ghost done = out.deep_view();
        let ghost open = cur@;
        proof {
            assert(s@.take(i + 1).drop_last() =~= s@.take(i as int));
            assert(s@.take(i + 1).last() == c);
        }
        if is_alphanumeric(c) {
            cur.push(c);
            len += 1;
        } else if len > 0 {
            out.push(cur);
            assert(out.deep_view() =~= done.push(open));
            cur = String::new();
            len = 0;
        }
        i += 1;
    }
    assert(s@.take(s@.len() as int) =~= s@);
    if len > 0 {
        let ghost done = out.deep_view();
        let ghost open = cur@;
        out.push(cur);
        assert(out.deep_view() =~= done.push(open));
    }
    out
}

/// Whether a text is made of kept characters.
pub open spec fn all_kept(w: Seq<char>, keep: spec_fn(char) -> bool) -> bool {
    forall|j: int| 0 <= j < w.len() ==> keep(#[trigger] w[j])
}

/// Whether every word is non-empty and made of kept characters.
pub open spec fn are_words(ws: Seq<Seq<char>>, keep: spec_fn(char) -> bool) -> bool {
    forall|i: int| 0 <= i < ws.len() ==> (#[trigger] ws[i]).len() > 0 && all_kept(ws[i], keep)
}

/// Every run is non-empty and made of kept characters.
pub proof fn lemma_runs_kept(s: Seq<char>, keep: spec_fn(char) -> bool)
    ensures
        are_words(runs(s, keep), keep),
{
    lemma_run_state_kept(s, keep);
}

proof fn lemma_run_state_kept(s: Seq<char>, keep: spec_fn(char) -> bool)
    ensures
        are_words(run_state(s, keep).0, keep),
        all_kept(run_state(s, keep).1, keep),
    decreases s.len(),
{
    if s.len() > 0 {
        lemma_run_state_kept(s.drop_last(), keep);
    }
}

proof fn lemma_run_state_extend(s: Seq<char>, w: Seq<char>, keep: spec_fn(char) -> bool)
    requires
        all_kept(w, keep),
    ensures
        run_state(s + w, keep) == (run_state(s, keep).0, run_state(s, keep).1 + w),
    decreases w.len(),
{
    if w.len() == 0 {
        assert(s + w =~= s);
        assert(run_state(s, keep).1 + w =~= run_state(s, keep).1);
    } else {
        lemma_run_state_extend(s, w.drop_last(), keep);
        assert((s + w).drop_last() =~= s + w.drop_last());
        assert(keep(w.last()));
        assert(run_state(s, keep).1 + w =~= (run_state(s, keep).1 + w.drop_last()).push(w.last()));
    }
}

/// Joining non-empty words of kept characters with a character that is not kept, and splitting
/// the result into runs, gives the words back.
pub proof fn lemma_runs_of_joined(ws: Seq<Seq<char>>, sep: char, keep: spec_fn(char) -> bool)
    requires
        !keep(sep),
        are_words(ws, keep),
    ensures
        runs(render::joined(ws, seq![sep]), keep) == ws,
{
    lemma_run_state_of_joined(ws, sep, keep);
    let end = run_state(render::joined(ws, seq![sep]), keep);
    if ws.len() > 0 {
        assert(ws.drop_last().push(ws.last()) =~= ws);
    } else {
        assert(end.0 =~= ws);
    }
}

proof fn lemma_run_state_of_joined(ws: Seq<Seq<char>>, sep: char, keep: spec_fn(char) -> bool)
    requires
        !keep(sep),
        are_words(ws, keep),
    ensures
        ws.len() == 0 ==> run_state(render::joined(ws, seq![sep]), keep) == (
            Seq::<Seq<char>>::empty(),
            Seq::<char>::empty(),
        ),
        ws.len() > 0 ==> run_state(render::joined(ws, seq![sep]), keep) == (
            ws.drop_last(),
            ws.last(),
        ),
    decreases ws.len(),
{
    if ws.len() == 1 {
        let e = Seq::<char>::empty();
        lemma_run_state_extend(e, ws[0], keep);
        assert(e + ws[0] =~= ws[0]);
        assert(ws.drop_last() =~= Seq::empty());
        assert(run_state(e, keep).1 + ws[0] =~= ws[0]);
    } else if ws.len() > 1 {
        let front = ws.drop_last();
        lemma_run_state_of_joined(front, sep, keep);
        let j = render::joined(front, seq![sep]);
        let js = j.push(sep);
        assert(js.drop_last() =~= j);
        assert(j + seq![sep] =~= js);
        assert(front.last() == ws[ws.len() - 2]);
        assert(front.drop_last().push(front.last()) =~= front);
        assert(run_state(js, keep) == (front, Seq::<char>::empty()));
        assert(all_kept(ws[ws.len() - 1], keep));
        lemma_run_state_extend(js, ws.last(), keep);
        assert(Seq::<char>::empty() + ws.last() =~= ws.last());
    }
}

} // verus!
