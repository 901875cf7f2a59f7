//! Identifiers and time stamps: what the library takes from the random source and the clock.
use crate::render;
use crate::text;
use vstd::prelude::*;

verus! {

/// Whether a text is a hyphenated identifier: 32 lower-case hexadecimal digits in groups of
/// 8, 4, 4, 4 and 12.
pub open spec fn is_identifier(s: Seq<char>) -> bool {
    &&& s.len() == 36
    &&& forall|i: int|
        0 <= i < 36 ==> if i == 8 || i == 13 || i == 18 || i == 23 {
            #[trigger] s[i] == '-'
        } else {
            render::is_digit(s[i]) || 'a' as u32 <= s[i] as u32 <= 'f' as u32
        }
}

/// Whether a time stamp begins with a year of four digits.
pub open spec fn plain_year(s: Seq<char>) -> bool {
    s.len() > 4 && s[4] == '-'
}

/// The canonical UTC form of an RFC 3339 time stamp, if the text is one.
pub uninterp spec fn rfc3339_in_utc(s: Seq<char>) -> Option<Seq<char>>;

/// Whether a text holds digits only.
pub open spec fn all_digits(s: Seq<char>) -> bool {
    forall|i: int| 0 <= i < s.len() ==> render::is_digit(#[trigger] s[i])
}

/// Whether a text is a year: four digits, or a sign and four digits at least.
pub open spec fn is_year(s: Seq<char>) -> bool {
    ||| s.len() == 4 && all_digits(s)
    ||| s.len() > 4 && (s[0] == '+' || s[0] == '-') && all_digits(s.skip(1))
}

/// Whether a text is a date: a year, two digits for the month and two for the day, with hyphens
/// between them.
pub open spec fn is_date(s: Seq<char>) -> bool {
    let n = s.len() - 6;
    &&& n >= 4
    &&& is_year(s.take(n))
    &&& s[n] == '-'
    &&& all_digits(s.subrange(n + 1, n + 3))
    &&& s[n + 3] == '-'
    &&& all_digits(s.skip(n + 4))
}

/// Whether a text is a time of the day: two digits each for hours, minutes and seconds, with colons
/// between them, and then a point and three, six or nine digits, or nothing.
pub open spec fn is_day_time(s: Seq<char>) -> bool {
    &&& s.len() == 8 || (s.len() == 12 || s.len() == 15 || s.len() == 18) && s[8] == '.'
        && all_digits(s.skip(9))
    &&& all_digits(s.take(2))
    &&& s[2] == ':'
    &&& all_digits(s.subrange(3, 5))
    &&& s[5] == ':'
    &&& all_digits(s.subrange(6, 8))
}

/// Whether a text is a date up to a position, then the letter `T`, a time of the day and the offset
/// of UTC.
pub open spec fn is_dated(s: Seq<char>, at: int) -> bool {
    &&& 0 <= at < s.len() - 6
    &&& is_date(s.take(at))
    &&& s[at] == 'T'
    &&& is_day_time(s.subrange(at + 1, s.len() - 6))
    &&& s.skip(s.len() - 6) == "+00:00"@
}

/// Whether a text is a time stamp as the clock gives it: date, time of the day and the offset of
/// UTC. One with a plain year is in the canonical form that reading it back gives.
pub open spec fn is_stamp(s: Seq<char>) -> bool {
    &&& exists|at: int| is_dated(s, at)
    &&& plain_year(s) ==> rfc3339_in_utc(s) == Some(s)
}

/// Calls `Uuid::new_v4` of uuid and renders the identifier. The digits are random; only the
/// shape of the text is claimed.
#[verifier::external_body]
pub(crate) fn new_id() -> (r: String)
    ensures
        is_identifier(r@),
{
    uuid::Uuid::new_v4().to_string()
}

/// Calls `Utc::now` of chrono and renders the instant with `to_rfc3339`. Which instant it is
/// depends on the clock. What is claimed is the shape of the text, and that a stamp with a plain
/// year is already in the canonical form that reading it back gives.
#[verifier::external_body]
pub(crate) fn now_rfc3339() -> (r: String)
    ensures
        is_stamp(r@),
{
    chrono::Utc::now().to_rfc3339()
}

/// Calls `DateTime::parse_from_rfc3339` of chrono, moves the instant to UTC and renders it with
/// `to_rfc3339`. The result depends on the text alone; it is named and nothing more is claimed.
#[verifier::external_body]
pub(crate) fn canonical_rfc3339(s: &str) -> (r: Option<String>)
    ensures
        r.deep_view() == rfc3339_in_utc(s@),
{
    chrono::DateTime::parse_from_rfc3339(s).map(
        |t| t.with_timezone(&chrono::Utc).to_rfc3339(),
    ).ok()
}

/// Calls `Local::now` of chrono and renders the date with `format`. Which day it is depends on the
/// clock and the time zone of the machine; only the shape of the text is claimed.
#[verifier::external_body]
pub(crate) fn today() -> (r: String)
    ensures
        is_date(r@),
{
    chrono::Local::now().format("%Y-%m-%d").to_string()
}

/// How a canonical UTC stamp is shown to a reader: date, time and the name of the zone with spaces
/// between them. Any other text is shown as it is.
pub open spec fn shown(s: Seq<char>) -> Seq<char> {
    if s.len() >= 6 && s.skip(s.len() - 6) == "+00:00"@ {
        s.take(s.len() - 6).map_values(|c: char| if c == 'T' { ' ' } else { c }) + " UTC"@
    } else {
        s
    }
}

/// How a canonical UTC stamp is shown to a reader.
pub fn show(s: &str) -> (r: String)
    ensures
        r@ == shown(s@),
{
    let v = text::to_chars(s);
    let zone = text::to_chars("+00:00");
    proof {
        reveal_strlit("+00:00");
    }
    if v.len() < 6 || !render::stands_at(&v, &zone, v.len() - 6) {
        proof {
            if s@.len() >= 6 {
                assert(s@.skip(s@.len() - 6) =~= s@.subrange(s@.len() - 6, s@.len() as int));
            }
        }
        return s.to_owned();
    }
    let n: usize = v.len() - 6;
    let ghost head = s@.take(n as int);
    assert(s@.skip(n as int) =~= s@.subrange(n as int, s@.len() as int));
    let mut out = String::new();
    let mut i: usize = 0;
    while i < n
        invariant
            i <= n <= v@.len(),
            v@ == s@,
            head == s@.take(n as int),
            out@ == head.take(i as int).map_values(|c: char| if c == 'T' { ' ' } else { c }),
        decreases n - i,
    {
        let c: char = if v[i] == 'T' { ' ' } else { v[i] };
        out.push(c);
        i += 1;
        assert(out@ =~= head.take(i as int).map_values(|c: char| if c == 'T' { ' ' } else { c }));
    }
    assert(head.take(head.len() as int) =~= head);
    out.append(" UTC");
    out
}

} // verus!
