//! Regular expressions.
use vstd::prelude::*;

verus! {

/// What the first group captures in the first match of a pattern, if the pattern is valid, it
/// matches and the group takes part in the match.
pub uninterp spec fn first_group(pattern: Seq<char>, hay: Seq<char>) -> Option<Seq<char>>;

/// Calls `Regex::new` and `Regex::captures` of regex and takes group 1 of the match. The result
/// depends on the pattern and the text alone; it is named and nothing more is claimed of it.
#[verifier::external_body]
pub(crate) fn capture_first(pattern: &str, hay: &str) -> (r: Option<String>)
    ensures
        r.deep_view() == first_group(pattern@, hay@),
{
    let re = regex::Regex::new(pattern).ok()?;
    let found = re.captures(hay)?;
    found.get(1).map(|m| m.as_str().to_owned())
}

// ---------------------------------------------------------------------------
// Media markers
// ---------------------------------------------------------------------------

/// The pattern of a media marker: a known kind and a path in brackets.
pub open spec fn media_pattern() -> Seq<char> {
    r"\[(?:IMAGE|DOCUMENT|FILE|VIDEO|VOICE|AUDIO):[^\]]*\]"@
}

/// Whether a text begins as a media marker of a kind does.
pub open spec fn begins_with_kind(s: Seq<char>, kind: Seq<char>) -> bool {
    s.len() >= kind.len() + 2 && s.take((kind.len() + 2) as int) == seq!['['] + kind + seq![':']
}

/// Whether a text begins as a media marker does.
pub open spec fn begins_as_marker(s: Seq<char>) -> bool {
    ||| begins_with_kind(s, "IMAGE"@)
    ||| begins_with_kind(s, "DOCUMENT"@)
    ||| begins_with_kind(s, "FILE"@)
    ||| begins_with_kind(s, "VIDEO"@)
    ||| begins_with_kind(s, "VOICE"@)
    ||| begins_with_kind(s, "AUDIO"@)
}

/// Whether a word is a kind of media.
pub open spec fn is_kind(kind: Seq<char>) -> bool {
    ||| kind == "IMAGE"@
    ||| kind == "DOCUMENT"@
    ||| kind == "FILE"@
    ||| kind == "VIDEO"@
    ||| kind == "VOICE"@
    ||| kind == "AUDIO"@
}

/// The media marker of a kind that holds a path.
pub open spec fn marker(kind: Seq<char>, path: Seq<char>) -> Seq<char> {
    seq!['['] + kind + seq![':'] + path + seq![']']
}

/// Whether a media marker stands at the beginning of a text: it begins as one, and a closing
/// bracket follows.
pub open spec fn is_marker(s: Seq<char>) -> bool {
    begins_as_marker(s) && s.contains(']')
}

/// A text with each media marker, from the left, replaced. A marker ends at the first closing
/// bracket.
pub open spec fn media_replaced(s: Seq<char>, replacement: Seq<char>) -> Seq<char>
    decreases s.len(),
{
    if s.len() == 0 {
        s
    } else if is_marker(s) {
        proof {
            s.index_of_first_ensures(']');
        }
        replacement + media_replaced(s.skip(s.index_of_first(']')->0 + 1), replacement)
    } else {
        seq![s[0]] + media_replaced(s.skip(1), replacement)
    }
}

/// Calls `Regex::new` and `Regex::replace_all` of regex, with the pattern of media markers and a
/// replacement without the sign that refers to groups. The pattern is valid. Matches are found
/// from the left, do not overlap, and each ends at the first closing bracket.
#[verifier::external_body]
pub(crate) fn replace_matches(pattern: &str, hay: &str, replacement: &str) -> (r: String)
    requires
        pattern@ == media_pattern(),
        !replacement@.contains('$'),
    ensures
        r@ == media_replaced(hay@, replacement@),
{
    let re = regex::Regex::new(pattern).unwrap();
    re.replace_all(hay, replacement).into_owned()
}

} // verus!
