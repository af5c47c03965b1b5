//! The shapes of volatile text: UUIDs and ISO-8601 timestamps, recognised with
//! the `regex` crate.
use crate::text;
use vstd::prelude::*;

verus! {

/// `regex::Regex`, a compiled pattern.
#[verifier::external_type_specification]
#[verifier::external_body]
pub struct ExRegex(regex::Regex);

/// The pattern that a `Regex` was compiled from.
pub uninterp spec fn regex_source(re: regex::Regex) -> Seq<char>;

/// Whether the `regex` crate finds a match of a pattern in a text.
pub uninterp spec fn regex_finds(pattern: Seq<char>, s: Seq<char>) -> bool;

/// The pattern of UUIDs.
pub open spec fn uuid_pattern() -> Seq<char> {
    "(?i)^[0-9a-f]{8}-[0-9a-f]{4}-[0-9a-f]{4}-[0-9a-f]{4}-[0-9a-f]{12}$"@
}

/// The pattern of timestamps: a date, `T` and a time, followed by anything.
pub open spec fn timestamp_pattern() -> Seq<char> {
    "^\\d{4}-\\d{2}-\\d{2}T\\d{2}:\\d{2}:\\d{2}"@
}

/// A hexadecimal digit of either case.
pub open spec fn hex_digit(c: char) -> bool {
    text::ascii_digit(c) || ('a' <= c && c <= 'f') || ('A' <= c && c <= 'F')
}

/// Eight, four, four, four and twelve hexadecimal digits with hyphens between.
pub open spec fn uuid_shaped(s: Seq<char>) -> bool {
    &&& s.len() == 36
    &&& forall|i: int|
        0 <= i < 36 ==> if i == 8 || i == 13 || i == 18 || i == 23 {
            #[trigger] s[i] == '-'
        } else {
            hex_digit(s[i])
        }
}

/// A date, `T` and a time in ASCII digits, followed by anything.
pub open spec fn timestamp_shaped(s: Seq<char>) -> bool {
    &&& s.len() >= 19
    &&& forall|i: int|
        0 <= i < 19 ==> if i == 4 || i == 7 {
            #[trigger] s[i] == '-'
        } else if i == 10 {
            s[i] == 'T'
        } else if i == 13 || i == 16 {
            s[i] == ':'
        } else {
            text::ascii_digit(s[i])
        }
}

/// The part of a text that a timestamp would fill is ASCII.
pub open spec fn ascii_head(s: Seq<char>) -> bool {
    forall|i: int| 0 <= i < s.len() && i < 19 ==> (#[trigger] s[i] as u32) < 128
}

/// Whether a text looks like a timestamp. Digits of other scripts count for
/// the pattern too: there its own verdict stands.
pub open spec fn timestamp_like(s: Seq<char>) -> bool {
    if ascii_head(s) {
        timestamp_shaped(s)
    } else {
        regex_finds(timestamp_pattern(), s)
    }
}

/// `Regex::new`. The two patterns of this module are valid.
#[verifier::external_body]
fn compile(pattern: &str) -> (r: Option<regex::Regex>)
    ensures
        r is Some ==> regex_source(r->0) == pattern@,
        pattern@ == uuid_pattern() ==> r is Some,
        pattern@ == timestamp_pattern() ==> r is Some,
{
    regex::Regex::new(pattern).ok()
}

/// `Regex::is_match`: whether the pattern matches somewhere in the text. What
/// that means is said for the two patterns of this module; `\d` is any decimal
/// digit of Unicode, so the second is spelled out for ASCII only.
pub assume_specification[ regex::Regex::is_match ](re: &regex::Regex, haystack: &str) -> (r: bool)
    ensures
        r == regex_finds(regex_source(*re), haystack@),
        regex_source(*re) == uuid_pattern() ==> r == uuid_shaped(haystack@),
        regex_source(*re) == timestamp_pattern() && ascii_head(haystack@) ==> r
            == timestamp_shaped(haystack@),
;

/// The compiled patterns.
#[derive(Debug)]
pub struct Patterns {
    uuid: regex::Regex,
    timestamp: regex::Regex,
}

impl Patterns {
    /// The pattern that UUIDs are recognised with.
    pub closed spec fn uuid_source(self) -> Seq<char> {
        regex_source(self.uuid)
    }

    /// The pattern that timestamps are recognised with.
    pub closed spec fn timestamp_source(self) -> Seq<char> {
        regex_source(self.timestamp)
    }

    /// Each pattern is the one it is named after.
    #[verifier::type_invariant]
    closed spec fn compiled(self) -> bool {
        &&& self.uuid_source() == uuid_pattern()
        &&& self.timestamp_source() == timestamp_pattern()
    }

    /// Compiles the patterns.
    pub fn new() -> (r: Patterns)
        ensures
            r.uuid_source() == uuid_pattern(),
            r.timestamp_source() == timestamp_pattern(),
    {
        let uuid = compile("(?i)^[0-9a-f]{8}-[0-9a-f]{4}-[0-9a-f]{4}-[0-9a-f]{4}-[0-9a-f]{12}$");
        let timestamp = compile("^\\d{4}-\\d{2}-\\d{2}T\\d{2}:\\d{2}:\\d{2}");
        Patterns { uuid: uuid.unwrap(), timestamp: timestamp.unwrap() }
    }

    /// Whether a text is a UUID.
    pub fn is_uuid(&self, s: &str) -> (r: bool)
        ensures
            r == uuid_shaped(s@),
    {
        proof {
            use_type_invariant(self);
        }
        self.uuid.is_match(s)
    }

    /// Whether a text looks like a timestamp.
    pub fn is_timestamp(&self, s: &str) -> (r: bool)
        ensures
            r == timestamp_like(s@),
    {
        proof {
            use_type_invariant(self);
        }
        self.timestamp.is_match(s)
    }
}

// ---------------------------------------------------------------------------
// Laws
// ---------------------------------------------------------------------------

/// A text of hexadecimal digits and nothing else.
pub open spec fn all_hex(s: Seq<char>) -> bool {
    forall|i: int|
        0 <= i < s.len() ==> ('0' <= #[trigger] s[i] && s[i] <= '9') || ('a' <= s[i] && s[i] <= 'f')
            || ('A' <= s[i] && s[i] <= 'F')
}

/// Five groups of eight, four, four, four and twelve hexadecimal digits of
/// either case, with hyphens between them, are a UUID.
pub proof fn lemma_groups_of_a_uuid(
    a: Seq<char>,
    b: Seq<char>,
    c: Seq<char>,
    d: Seq<char>,
    e: Seq<char>,
)
    requires
        a.len() == 8 && b.len() == 4 && c.len() == 4 && d.len() == 4 && e.len() == 12,
        all_hex(a) && all_hex(b) && all_hex(c) && all_hex(d) && all_hex(e),
    ensures
        uuid_shaped(a + seq!['-'] + b + seq!['-'] + c + seq!['-'] + d + seq!['-'] + e),
{
    let s = a + seq!['-'] + b + seq!['-'] + c + seq!['-'] + d + seq!['-'] + e;
    assert forall|i: int| 0 <= i < 36 implies if i == 8 || i == 13 || i == 18 || i == 23 {
        #[trigger] s[i] == '-'
    } else {
        hex_digit(s[i])
    } by {
        if i < 8 {
            assert(s[i] == a[i]);
        } else if 8 < i < 13 {
            assert(s[i] == b[i - 9]);
        } else if 13 < i < 18 {
            assert(s[i] == c[i - 14]);
        } else if 18 < i < 23 {
            assert(s[i] == d[i - 19]);
        } else if 23 < i {
            assert(s[i] == e[i - 24]);
        }
    }
}

/// A text of another length is no UUID, nor is one with another character than
/// a hyphen between its groups, or with one inside a group that is no
/// hexadecimal digit.
pub proof fn lemma_no_uuid(s: Seq<char>, i: int)
    ensures
        s.len() != 36 ==> !uuid_shaped(s),
        (i == 8 || i == 13 || i == 18 || i == 23) && i < s.len() && s[i] != '-' ==> !uuid_shaped(s),
        0 <= i < s.len() && i != 8 && i != 13 && i != 18 && i != 23 && !('0' <= s[i] && s[i] <= '9')
            && !('a' <= s[i] && s[i] <= 'f') && !('A' <= s[i] && s[i] <= 'F') ==> !uuid_shaped(s),
{
}

/// A text is a timestamp if its first nineteen characters are digits with the
/// marks of a date and a time between them, whatever follows.
pub proof fn lemma_head_of_a_timestamp(s: Seq<char>)
    requires
        s.len() >= 19,
        forall|i: int|
            0 <= i < 19 && i != 4 && i != 7 && i != 10 && i != 13 && i != 16 ==> '0' <= #[trigger] s[i]
                && s[i] <= '9',
        s[4] == '-' && s[7] == '-' && s[10] == 'T' && s[13] == ':' && s[16] == ':',
    ensures
        timestamp_like(s),
{
    assert forall|i: int| 0 <= i < s.len() && i < 19 implies (#[trigger] s[i] as u32) < 128 by {
        if i != 4 && i != 7 && i != 10 && i != 13 && i != 16 {
            assert('0' <= s[i] && s[i] <= '9');
        }
    }
    assert(timestamp_shaped(s));
}

/// A text of ASCII characters is no timestamp if it is shorter than nineteen,
/// or lacks a digit or a mark where one must stand.
pub proof fn lemma_no_timestamp(s: Seq<char>, i: int)
    requires
        ascii_head(s),
        s.len() < 19 || (0 <= i < 19 && i != 4 && i != 7 && i != 10 && i != 13 && i != 16 && !('0'
            <= s[i] && s[i] <= '9')) || s[4] != '-' || s[7] != '-' || s[10] != 'T' || s[13] != ':'
            || s[16] != ':',
    ensures
        !timestamp_like(s),
{
}

} // verus!
