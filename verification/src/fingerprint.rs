//! Fingerprints: the stable part of a call.
//!
//! Two calls of the same kind share a fingerprint even if they carry different
//! identifiers or parameters.
use crate::text;
use crate::text::{chars_of, concat3, is_ascii_digit, join, split};
use vstd::prelude::*;
use vstd::string::*;

verus! {

/// A segment that is an identifier: of six bytes or more, made of letters,
/// digits, `-` and `_`, and with an ASCII digit in it.
pub open spec fn id_like(seg: Seq<char>) -> bool {
    &&& vstd::utf8::encode_utf8(seg).len() >= 6
    &&& forall|i: int|
        0 <= i < seg.len() ==> text::alphanumeric(#[trigger] seg[i]) || seg[i] == '-' || seg[i]
            == '_'
    &&& exists|i: int| 0 <= i < seg.len() && text::ascii_digit(#[trigger] seg[i])
}

/// A segment with an identifier replaced by `{id}`.
pub open spec fn stripped_segment(seg: Seq<char>) -> Seq<char> {
    if id_like(seg) {
        "{id}"@
    } else {
        seg
    }
}

/// The segments with the identifiers among them replaced.
pub open spec fn stripped_segments(segs: Seq<Seq<char>>) -> Seq<Seq<char>> {
    Seq::new(segs.len(), |i: int| stripped_segment(segs[i]))
}

/// A text of segments with the identifiers among them replaced.
pub open spec fn stripped(s: Seq<char>, sep: char) -> Seq<char> {
    text::join_with(stripped_segments(text::split_on(s, sep)), seq![sep])
}

/// `$` and a number that does not begin with zero stand at the start of a
/// text.
pub open spec fn placeholder(s: Seq<char>) -> bool {
    s.len() >= 2 && s[0] == '$' && '1' <= s[1] && s[1] <= '9'
}

/// The number of ASCII digits at the start of a text.
pub open spec fn digit_run(s: Seq<char>) -> int
    decreases s.len(),
{
    if s.len() > 0 && text::ascii_digit(s[0]) {
        1 + digit_run(s.skip(1))
    } else {
        0
    }
}

/// The length of the placeholder at the start of a text: the `$` and all
/// digits that follow it.
pub open spec fn placeholder_len(s: Seq<char>) -> int {
    1 + digit_run(s.skip(1))
}

/// The digits at the start of a text are part of it.
pub proof fn lemma_digit_run(s: Seq<char>)
    ensures
        0 <= digit_run(s) <= s.len(),
    decreases s.len(),
{
    if s.len() > 0 && text::ascii_digit(s[0]) {
        lemma_digit_run(s.skip(1));
    }
}

/// A query with each placeholder replaced by `?`.
pub open spec fn sql_template(s: Seq<char>) -> Seq<char>
    decreases s.len(),
{
    if s.len() == 0 {
        Seq::empty()
    } else if placeholder(s) {
        proof {
            lemma_digit_run(s.skip(1));
        }
        seq!['?'] + sql_template(s.skip(placeholder_len(s)))
    } else {
        seq![s[0]] + sql_template(s.skip(1))
    }
}

/// The fingerprint of an HTTP request.
pub open spec fn http_fingerprint(method: Seq<char>, path: Seq<char>) -> Seq<char> {
    method + " "@ + stripped(path, '/')
}

/// The fingerprint of a Redis key.
pub open spec fn redis_fingerprint(key: Seq<char>) -> Seq<char> {
    stripped(key, ':')
}

/// Builds fingerprints.
pub struct FingerprintBuilder;

impl FingerprintBuilder {
    /// `GET` and `/api/v1/payments/pay_abc123` give
    /// `GET /api/v1/payments/{id}`.
    pub fn http(method: &str, path: &str) -> (r: String)
        ensures
            r@ == http_fingerprint(method@, path@),
    {
        concat3(method, " ", replace_ids(path).as_str())
    }

    /// A path such as `/package.Service/Method` is stable as it is.
    pub fn grpc(path: &str) -> (r: String)
        ensures
            r@ == path@,
    {
        path.to_owned()
    }

    /// `SELECT * FROM t WHERE id = $1` gives `SELECT * FROM t WHERE id = ?`.
    pub fn sql(query: &str) -> (r: String)
        ensures
            r@ == sql_template(query@),
    {
        replace_sql_params(query)
    }

    /// `payment:session:sess_xyz789` gives `payment:session:{id}`.
    pub fn redis_key(key: &str) -> (r: String)
        ensures
            r@ == redis_fingerprint(key@),
    {
        let r = join(&strip(split(key, ':')), ":");
        proof {
            reveal_strlit(":");
            assert(":"@ =~= seq![':']);
        }
        r
    }

    /// A function path is stable as it is.
    pub fn function(path: &str) -> (r: String)
        ensures
            r@ == path@,
    {
        path.to_owned()
    }
}

/// A path with the identifiers among its segments replaced.
pub fn replace_ids(s: &str) -> (r: String)
    ensures
        r@ == stripped(s@, '/'),
{
    let r = join(&strip(split(s, '/')), "/");
    proof {
        reveal_strlit("/");
        assert("/"@ =~= seq!['/']);
    }
    r
}

/// The segments with the identifiers among them replaced.
fn strip(segs: Vec<String>) -> (r: Vec<String>)
    ensures
        text::texts(r@) == stripped_segments(text::texts(segs@)),
{
    let mut out: Vec<String> = Vec::new();
    let mut i: usize = 0;
    while i < segs.len()
        invariant
            i <= segs@.len(),
            out@.len() == i,
            forall|j: int| 0 <= j < i ==> (#[trigger] out@[j])@ == stripped_segment(segs@[j]@),
        decreases segs.len() - i,
    {
        if looks_like_id(segs[i].as_str()) {
            out.push("{id}".to_owned());
        } else {
            out.push(segs[i].clone());
        }
        i = i + 1;
    }
    proof {
        assert(text::texts(out@) =~= stripped_segments(text::texts(segs@)));
    }
    out
}

/// Whether a segment is an identifier.
pub fn looks_like_id(s: &str) -> (r: bool)
    ensures
        r == id_like(s@),
{
    if s.as_bytes().len() < 6 {
        return false;
    }
    let chars = chars_of(s);
    let mut has_digit = false;
    let mut i: usize = 0;
    while i < chars.len()
        invariant
            chars@ == s@,
            i <= chars@.len(),
            forall|j: int|
                0 <= j < i ==> text::alphanumeric(#[trigger] s@[j]) || s@[j] == '-' || s@[j]
                    == '_',
            has_digit <==> exists|j: int| 0 <= j < i && text::ascii_digit(#[trigger] s@[j]),
        decreases chars.len() - i,
    {
        let c: char = chars[i];
        if !(c.is_alphanumeric() || c == '-' || c == '_') {
            proof {
                assert(!(text::alphanumeric(s@[i as int]) || s@[i as int] == '-' || s@[i as int]
                    == '_'));
            }
            return false;
        }
        if is_ascii_digit(c) {
            has_digit = true;
            proof {
                assert(text::ascii_digit(s@[i as int]));
            }
        }
        i = i + 1;
    }
    has_digit
}

/// A query with each placeholder `$1`, `$2` and so on replaced by `?`.
pub fn replace_sql_params(s: &str) -> (r: String)
    ensures
        r@ == sql_template(s@),
{
    let chars = chars_of(s);
    let mut out = String::new();
    let mut i: usize = 0;
    proof {
        assert(s@.skip(0) =~= s@);
        assert(Seq::<char>::empty() + sql_template(s@) =~= sql_template(s@));
    }
    while i < chars.len()
        invariant
            chars@ == s@,
            i <= chars@.len(),
            out@ + sql_template(s@.skip(i as int)) == sql_template(s@),
        decreases chars.len() - i,
    {
        let ghost rest = s@.skip(i as int);
        let ghost done = out@;
        if chars[i] == '$' && chars.len() - i >= 2 && '1' <= chars[i + 1] && chars[i + 1] <= '9' {
            let mut end: usize = i + 1;
            proof {
                assert(rest.skip(1) =~= s@.skip(i + 1));
            }
            while end < chars.len() && is_ascii_digit(chars[end])
                invariant
                    chars@ == s@,
                    i < end <= chars@.len(),
                    rest == s@.skip(i as int),
                    placeholder_len(rest) == end - i + digit_run(s@.skip(end as int)),
                decreases chars.len() - end,
            {
                proof {
                    assert(s@.skip(end as int).skip(1) =~= s@.skip(end + 1));
                }
                end = end + 1;
            }
            out.push('?');
            i = end;
            proof {
                assert(rest.skip(placeholder_len(rest)) =~= s@.skip(i as int));
                assert(done + (seq!['?'] + sql_template(s@.skip(i as int))) =~= out@
                    + sql_template(s@.skip(i as int)));
            }
        } else {
            out.push(chars[i]);
            i = i + 1;
            proof {
                assert(rest.skip(1) =~= s@.skip(i as int));
                assert(done + (seq![rest[0]] + sql_template(s@.skip(i as int))) =~= out@
                    + sql_template(s@.skip(i as int)));
            }
        }
    }
    proof {
        assert(out@ + Seq::<char>::empty() =~= out@);
    }
    out
}

// ---------------------------------------------------------------------------
// Laws
// ---------------------------------------------------------------------------

/// Stripping changes no segment that is no identifier, and keeps the number of
/// segments: the segments of a stripped text are the stripped segments.
pub proof fn lemma_stripped_segments(s: Seq<char>, sep: char)
    requires
        sep == '/' || sep == ':',
    ensures
        text::split_on(stripped(s, sep), sep) == stripped_segments(text::split_on(s, sep)),
{
    let segs = text::split_on(s, sep);
    let out = stripped_segments(segs);
    text::lemma_split_pieces_free(s, sep);
    assert forall|i: int, k: int| 0 <= i < out.len() && 0 <= k < out[i].len() implies
        #[trigger] out[i][k] != sep by {
        reveal_strlit("{id}");
        if !id_like(segs[i]) {
            assert(segs[i][k] != sep);
        }
    }
    text::lemma_split_join(out, sep);
}

/// The mark of an identifier is no identifier itself.
pub proof fn lemma_mark_is_no_id()
    ensures
        !id_like("{id}"@),
{
    reveal_strlit("{id}");
    assert(!text::alphanumeric("{id}"@[0]));
}

/// Stripping twice is stripping once.
pub proof fn lemma_stripped_idempotent(s: Seq<char>, sep: char)
    requires
        sep == '/' || sep == ':',
    ensures
        stripped(stripped(s, sep), sep) == stripped(s, sep),
{
    lemma_stripped_segments(s, sep);
    lemma_mark_is_no_id();
    let once = stripped_segments(text::split_on(s, sep));
    assert(stripped_segments(once) =~= once);
}

/// Texts that differ only in their identifiers have the same fingerprint.
pub proof fn lemma_ids_do_not_matter(a: Seq<char>, b: Seq<char>, sep: char)
    requires
        text::split_on(a, sep).len() == text::split_on(b, sep).len(),
        forall|i: int|
            0 <= i < text::split_on(a, sep).len() ==> #[trigger] text::split_on(a, sep)[i]
                == text::split_on(b, sep)[i] || (id_like(text::split_on(a, sep)[i]) && id_like(
                text::split_on(b, sep)[i],
            )),
    ensures
        stripped(a, sep) == stripped(b, sep),
{
    assert(stripped_segments(text::split_on(a, sep)) =~= stripped_segments(
        text::split_on(b, sep),
    ));
}

/// A text without identifiers is its own fingerprint.
pub proof fn lemma_static_text_is_kept(s: Seq<char>, sep: char)
    requires
        forall|i: int|
            0 <= i < text::split_on(s, sep).len() ==> !id_like(#[trigger] text::split_on(s, sep)[i]),
    ensures
        stripped(s, sep) == s,
{
    assert(stripped_segments(text::split_on(s, sep)) =~= text::split_on(s, sep));
    text::lemma_join_split(s, sep);
}

/// No placeholder is left in a query template.
pub proof fn lemma_no_placeholder_left(s: Seq<char>)
    ensures
        forall|i: int|
            0 <= i < sql_template(s).len() ==> !placeholder(#[trigger] sql_template(s).skip(i)),
        sql_template(s).len() > 0 && s.len() > 0 ==> sql_template(s)[0] == s[0] || sql_template(
            s,
        )[0] == '?',
    decreases s.len(),
{
    let out = sql_template(s);
    if s.len() > 0 {
        lemma_digit_run(s.skip(1));
        let (head, rest) = if placeholder(s) {
            ('?', s.skip(placeholder_len(s)))
        } else {
            (s[0], s.skip(1))
        };
        lemma_no_placeholder_left(rest);
        let tail = sql_template(rest);
        assert(out =~= seq![head] + tail);
        assert forall|i: int| 0 <= i < out.len() implies !placeholder(#[trigger] out.skip(i)) by {
            if i > 0 {
                assert(out.skip(i) =~= tail.skip(i - 1));
            } else {
                assert(out.skip(0) =~= out);
                if placeholder(out) {
                    assert(tail.len() > 0 && out[1] == tail[0]);
                    if rest.len() == 0 {
                        assert(tail.len() == 0);
                    }
                    assert(rest[0] == s[1]);
                }
            }
        }
    }
}

proof fn lemma_template_kept(s: Seq<char>)
    requires
        forall|i: int| 0 <= i < s.len() ==> !placeholder(#[trigger] s.skip(i)),
    ensures
        sql_template(s) == s,
    decreases s.len(),
{
    if s.len() > 0 {
        assert(s.skip(0) =~= s);
        let rest = s.skip(1);
        assert forall|i: int| 0 <= i < rest.len() implies !placeholder(#[trigger] rest.skip(i)) by {
            assert(rest.skip(i) =~= s.skip(i + 1));
        }
        lemma_template_kept(rest);
        assert(seq![s[0]] + rest =~= s);
    } else {
        assert(sql_template(s) =~= s);
    }
}

/// Making a template of a template changes nothing.
pub proof fn lemma_sql_template_idempotent(s: Seq<char>)
    ensures
        sql_template(sql_template(s)) == sql_template(s),
{
    lemma_no_placeholder_left(s);
    lemma_template_kept(sql_template(s));
}

proof fn lemma_ascii_range(c: char)
    ensures
        '\0' <= c,
        c <= '\x7f' <==> (c as u32) < 128,
{
}

proof fn lemma_no_shorter_in_bytes(s: Seq<char>)
    ensures
        vstd::utf8::encode_utf8(s).len() >= s.len(),
    decreases s.len(),
{
    if s.len() > 0 {
        lemma_no_shorter_in_bytes(s.drop_first());
    }
}

/// A segment of six characters or more, all of them ASCII letters, ASCII
/// digits, `-` or `_`, and one of them a digit, is replaced. This holds of
/// numbers, of prefixed identifiers and of UUIDs alike.
pub proof fn lemma_identifier_is_replaced(seg: Seq<char>, d: int)
    requires
        seg.len() >= 6,
        forall|i: int|
            0 <= i < seg.len() ==> ('0' <= #[trigger] seg[i] && seg[i] <= '9') || ('a' <= seg[i]
                && seg[i] <= 'z') || ('A' <= seg[i] && seg[i] <= 'Z') || seg[i] == '-' || seg[i]
                == '_',
        0 <= d < seg.len(),
        '0' <= seg[d] && seg[d] <= '9',
    ensures
        stripped_segment(seg) == "{id}"@,
{
    lemma_no_shorter_in_bytes(seg);
    assert(text::ascii_digit(seg[d]));
}

/// A segment of six digits or more is replaced.
pub proof fn lemma_number_is_replaced(seg: Seq<char>)
    requires
        seg.len() >= 6,
        forall|i: int| 0 <= i < seg.len() ==> '0' <= #[trigger] seg[i] && seg[i] <= '9',
    ensures
        stripped_segment(seg) == "{id}"@,
{
    assert('0' <= seg[0] && seg[0] <= '9');
    lemma_identifier_is_replaced(seg, 0);
}

/// A segment without an ASCII digit is kept, and so is one with an ASCII
/// character other than a letter, a digit, `-` and `_`.
pub proof fn lemma_word_is_kept(seg: Seq<char>)
    requires
        (forall|i: int| 0 <= i < seg.len() ==> !('0' <= #[trigger] seg[i] && seg[i] <= '9')) || (
        exists|i: int|
            0 <= i < seg.len() && #[trigger] seg[i] <= '\x7f' && !('0' <= seg[i] && seg[i]
                <= '9') && !('a' <= seg[i] && seg[i] <= 'z') && !('A' <= seg[i] && seg[i] <= 'Z')
                && seg[i] != '-' && seg[i] != '_'),
    ensures
        stripped_segment(seg) == seg,
{
    if id_like(seg) {
        let d = choose|i: int| 0 <= i < seg.len() && text::ascii_digit(#[trigger] seg[i]);
        assert('0' <= seg[d] && seg[d] <= '9');
        let i = choose|i: int|
            0 <= i < seg.len() && #[trigger] seg[i] <= '\x7f' && !('0' <= seg[i] && seg[i]
                <= '9') && !('a' <= seg[i] && seg[i] <= 'z') && !('A' <= seg[i] && seg[i] <= 'Z')
                && seg[i] != '-' && seg[i] != '_';
        lemma_ascii_range(seg[i]);
        assert(text::alphanumeric(seg[i]) || seg[i] == '-' || seg[i] == '_');
    }
}

/// A segment of at most five ASCII characters is kept.
pub proof fn lemma_short_segment_is_kept(seg: Seq<char>)
    requires
        seg.len() <= 5,
        forall|i: int| 0 <= i < seg.len() ==> #[trigger] seg[i] <= '\x7f',
    ensures
        stripped_segment(seg) == seg,
{
    assert forall|i: int| 0 <= i < seg.len() implies '\0' <= #[trigger] seg[i] <= '\u{7f}' by {
        lemma_ascii_range(seg[i]);
    }
    vstd::utf8::is_ascii_chars_encode_utf8(seg);
}

/// Segments are stripped one by one: what stands before a separator and what
/// stands behind it do not depend on each other.
pub proof fn lemma_stripped_piecewise(a: Seq<char>, sep: char, b: Seq<char>)
    ensures
        stripped(a + seq![sep] + b, sep) == stripped(a, sep) + seq![sep] + stripped(b, sep),
{
    let x = text::split_on(a, sep);
    let y = text::split_on(b, sep);
    text::lemma_split_at(a, sep, b);
    text::lemma_split_nonempty(a, sep);
    text::lemma_split_nonempty(b, sep);
    assert(stripped_segments(x + y) =~= stripped_segments(x) + stripped_segments(y));
    text::lemma_join_at(stripped_segments(x), stripped_segments(y), seq![sep]);
}

/// A text without separators is stripped as the one segment it is.
pub proof fn lemma_stripped_single(seg: Seq<char>, sep: char)
    requires
        forall|i: int| 0 <= i < seg.len() ==> #[trigger] seg[i] != sep,
    ensures
        stripped(seg, sep) == stripped_segment(seg),
{
    text::lemma_split_single(seg, sep);
    let out = stripped_segments(seq![seg]);
    assert(out.len() == 1 && out[0] == stripped_segment(seg));
}

/// Requests that differ only in an identifier at the end of the path share a
/// fingerprint, in which `{id}` stands for it; so do keys.
pub proof fn lemma_fingerprint_of_an_identifier(
    method: Seq<char>,
    a: Seq<char>,
    seg: Seq<char>,
    d: int,
)
    requires
        seg.len() >= 6,
        forall|i: int|
            0 <= i < seg.len() ==> ('0' <= #[trigger] seg[i] && seg[i] <= '9') || ('a' <= seg[i]
                && seg[i] <= 'z') || ('A' <= seg[i] && seg[i] <= 'Z') || seg[i] == '-' || seg[i]
                == '_',
        0 <= d < seg.len(),
        '0' <= seg[d] && seg[d] <= '9',
    ensures
        http_fingerprint(method, a + seq!['/'] + seg) == http_fingerprint(method, a) + seq!['/']
            + "{id}"@,
        redis_fingerprint(a + seq![':'] + seg) == redis_fingerprint(a) + seq![':'] + "{id}"@,
{
    lemma_identifier_is_replaced(seg, d);
    lemma_stripped_piecewise(a, '/', seg);
    lemma_stripped_piecewise(a, ':', seg);
    lemma_stripped_single(seg, '/');
    lemma_stripped_single(seg, ':');
    assert(http_fingerprint(method, a + seq!['/'] + seg) =~= http_fingerprint(method, a) + seq!['/']
        + "{id}"@);
}

/// A path and a key without digits are kept whole, with the method in front of
/// the path; and requests with different methods have different fingerprints.
pub proof fn lemma_fingerprint_of_words(method: Seq<char>, other: Seq<char>, s: Seq<char>)
    requires
        forall|i: int| 0 <= i < s.len() ==> !('0' <= #[trigger] s[i] && s[i] <= '9'),
    ensures
        http_fingerprint(method, s) == method + " "@ + s,
        redis_fingerprint(s) == s,
        method != other ==> http_fingerprint(method, s) != http_fingerprint(other, s),
{
    lemma_words_are_kept(s, '/');
    lemma_words_are_kept(s, ':');
    if http_fingerprint(method, s) == http_fingerprint(other, s) {
        let x = method + " "@ + s;
        let y = other + " "@ + s;
        assert(x.len() == y.len());
        assert(method =~= x.take(method.len() as int));
        assert(other =~= y.take(other.len() as int));
    }
}

proof fn lemma_words_are_kept(s: Seq<char>, sep: char)
    requires
        forall|i: int| 0 <= i < s.len() ==> !('0' <= #[trigger] s[i] && s[i] <= '9'),
    ensures
        stripped(s, sep) == s,
    decreases s.len(),
{
    if forall|i: int| 0 <= i < s.len() ==> #[trigger] s[i] != sep {
        lemma_stripped_single(s, sep);
        lemma_word_is_kept(s);
    } else {
        let k = choose|i: int| 0 <= i < s.len() && #[trigger] s[i] == sep;
        let a = s.take(k);
        let b = s.skip(k + 1);
        assert(s =~= a + seq![sep] + b);
        assert forall|i: int| 0 <= i < a.len() implies !('0' <= #[trigger] a[i] && a[i] <= '9') by {
            assert(a[i] == s[i]);
        }
        assert forall|i: int| 0 <= i < b.len() implies !('0' <= #[trigger] b[i] && b[i] <= '9') by {
            assert(b[i] == s[i + k + 1]);
        }
        lemma_words_are_kept(a, sep);
        lemma_words_are_kept(b, sep);
        lemma_stripped_piecewise(a, sep, b);
    }
}

/// A placeholder becomes `?` whatever its number, which ends where the digits
/// end; every other character is kept, a `$` that no number from one on
/// follows among them.
pub proof fn lemma_template_by_characters(number: Seq<char>, rest: Seq<char>, c: char)
    requires
        number.len() > 0,
        number[0] != '0',
        forall|i: int| 0 <= i < number.len() ==> '0' <= #[trigger] number[i] && number[i] <= '9',
        rest.len() > 0 ==> !('0' <= rest[0] && rest[0] <= '9'),
    ensures
        sql_template(seq!['$'] + number + rest) == seq!['?'] + sql_template(rest),
        c != '$' ==> sql_template(seq![c] + rest) == seq![c] + sql_template(rest),
        sql_template(seq!['$'] + rest) == seq!['$'] + sql_template(rest),
        sql_template(seq!['$', '0'] + rest) == seq!['$', '0'] + sql_template(rest),
{
    let s = seq!['$'] + number + rest;
    assert(s[1] == number[0]);
    assert('0' <= number[0] && number[0] <= '9');
    assert(placeholder(s));
    assert(s.skip(1) =~= number + rest);
    lemma_digits_then(number, rest);
    assert(s.skip(placeholder_len(s)) =~= rest);
    let t = seq![c] + rest;
    assert(t.skip(1) =~= rest);
    let u = seq!['$'] + rest;
    assert(u.skip(1) =~= rest);
    if rest.len() > 0 {
        assert(u[1] == rest[0]);
    }
    let v = seq!['$', '0'] + rest;
    let w = seq!['0'] + rest;
    assert(v.skip(1) =~= w);
    assert(w.skip(1) =~= rest);
    assert(v[1] == '0' && !placeholder(v) && !placeholder(w));
    assert(sql_template(w) == seq!['0'] + sql_template(rest));
    assert(sql_template(v) == seq!['$'] + sql_template(w));
    assert(seq!['$'] + (seq!['0'] + sql_template(rest)) =~= seq!['$', '0'] + sql_template(rest));
}

proof fn lemma_digits_then(number: Seq<char>, rest: Seq<char>)
    requires
        forall|i: int| 0 <= i < number.len() ==> '0' <= #[trigger] number[i] && number[i] <= '9',
        rest.len() > 0 ==> !('0' <= rest[0] && rest[0] <= '9'),
    ensures
        digit_run(number + rest) == number.len(),
    decreases number.len(),
{
    let s = number + rest;
    if number.len() > 0 {
        assert(s[0] == number[0]);
        assert('0' <= number[0] && number[0] <= '9');
        let front = number.skip(1);
        assert(s.skip(1) =~= front + rest);
        assert forall|i: int| 0 <= i < front.len() implies '0' <= #[trigger] front[i] && front[i]
            <= '9' by {
            assert(front[i] == number[i + 1]);
        }
        lemma_digits_then(front, rest);
    } else {
        assert(s =~= rest);
    }
}

} // verus!
