//! Identifiers and times.
use vstd::prelude::*;

verus! {

/// A UUID, as the integer of its 128 bits.
pub type RecordId = u128;

/// A point in time: seconds since the Unix epoch and nanoseconds.
#[derive(Debug, Clone, Copy, PartialEq, Eq, Structural)]
pub struct Timestamp {
    pub secs: i64,
    pub nanos: u32,
}

/// The lower-case hexadecimal digit with value `d`.
pub open spec fn hex_char(d: int) -> char {
    if d < 10 {
        (48 + d) as char
    } else {
        (87 + d) as char
    }
}

/// The hexadecimal digit of an identifier at position `k` from the left.
pub open spec fn hex_digit_at(id: RecordId, k: int) -> char {
    hex_char((id as int / vstd::arithmetic::power::pow(16, (31 - k) as nat)) % 16)
}

/// The hyphenated notation of an identifier.
pub open spec fn hyphenated(id: RecordId) -> Seq<char> {
    Seq::new(
        36,
        |i: int|
            if i == 8 || i == 13 || i == 18 || i == 23 {
                '-'
            } else if i < 8 {
                hex_digit_at(id, i)
            } else if i < 13 {
                hex_digit_at(id, i - 1)
            } else if i < 18 {
                hex_digit_at(id, i - 2)
            } else if i < 23 {
                hex_digit_at(id, i - 3)
            } else {
                hex_digit_at(id, i - 4)
            },
    )
}

/// The identifier that `Uuid::parse_str` reads from a text.
pub uninterp spec fn parsed_id(s: Seq<char>) -> Option<RecordId>;

/// The bits that mark a random UUID: version 4, variant 1.
pub open spec fn random_id(id: RecordId) -> bool {
    (id >> 76) & 0xf == 4 && (id >> 62) & 0x3 == 2
}

/// `Uuid::new_v4`: random but for the version and the variant.
#[verifier::external_body]
pub(crate) fn fresh_id() -> (r: RecordId)
    ensures
        random_id(r),
{
    uuid::Uuid::new_v4().as_u128()
}

/// `Uuid::to_string`: the hyphenated notation in lower case.
#[verifier::external_body]
pub(crate) fn id_to_text(id: RecordId) -> (r: String)
    ensures
        r@ == hyphenated(id),
{
    uuid::Uuid::from_u128(id).to_string()
}

/// `Uuid::parse_str`. It reads several notations; that it reads the
/// hyphenated one back is said here.
#[verifier::external_body]
pub(crate) fn id_from_text(s: &str) -> (r: Option<RecordId>)
    ensures
        r == parsed_id(s@),
        forall|id: RecordId| s@ == #[trigger] hyphenated(id) ==> r == Some(id),
{
    uuid::Uuid::parse_str(s).ok().map(|u| u.as_u128())
}

/// `Utc::now`. Nothing is said of the time; the nanoseconds stay below two
/// seconds (a leap second counts on).
#[verifier::external_body]
pub(crate) fn now() -> (r: Timestamp)
    ensures
        r.nanos < 2_000_000_000,
{
    let t = chrono::Utc::now();
    Timestamp { secs: t.timestamp(), nanos: t.timestamp_subsec_nanos() }
}

} // verus!
