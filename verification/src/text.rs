//! Text as sequences of characters: the vocabulary in which fingerprints,
//! diff paths and reports are specified, and the routines that compute it.
use vstd::prelude::*;
use vstd::string::*;

verus! {

// ---------------------------------------------------------------------------
// Characters
// ---------------------------------------------------------------------------

/// Whether `char::is_alphanumeric` holds of `c`.
pub uninterp spec fn char_alphanumeric(c: char) -> bool;

/// Whether `char::is_whitespace` holds of `c`.
pub uninterp spec fn char_whitespace(c: char) -> bool;

/// An ASCII decimal digit.
pub open spec fn ascii_digit(c: char) -> bool {
    '0' <= c && c <= '9'
}

/// An ASCII letter.
pub open spec fn ascii_letter(c: char) -> bool {
    ('a' <= c && c <= 'z') || ('A' <= c && c <= 'Z')
}

/// The whitespace characters of the ASCII range: tab, line feed, vertical
/// tab, form feed, carriage return and space.
pub open spec fn ascii_space(c: char) -> bool {
    c == ' ' || ('\x09' <= c && c <= '\x0d')
}

/// A letter or a digit: of the ASCII range, or by the Unicode properties.
pub open spec fn alphanumeric(c: char) -> bool {
    if (c as u32) < 128 {
        ascii_digit(c) || ascii_letter(c)
    } else {
        char_alphanumeric(c)
    }
}

/// A whitespace character: of the ASCII range, or by the Unicode property.
pub open spec fn whitespace(c: char) -> bool {
    if (c as u32) < 128 {
        ascii_space(c)
    } else {
        char_whitespace(c)
    }
}

/// `char::is_alphanumeric`: the Unicode properties Alphabetic and Numeric. On
/// the ASCII range these are the letters and the digits.
pub assume_specification[ char::is_alphanumeric ](c: char) -> (r: bool)
    ensures
        r == char_alphanumeric(c),
        (c as u32) < 128 ==> r == (ascii_digit(c) || ascii_letter(c)),
;

/// `char::is_whitespace`: the Unicode property White_Space. On the ASCII
/// range these are the six characters of `ascii_space`.
pub assume_specification[ char::is_whitespace ](c: char) -> (r: bool)
    ensures
        r == char_whitespace(c),
        (c as u32) < 128 ==> r == ascii_space(c),
;

/// `String::push` appends one character.
pub assume_specification[ String::push ](s: &mut String, c: char)
    ensures
        final(s)@ == old(s)@.push(c),
;

/// Whether `c` is an ASCII decimal digit.
pub fn is_ascii_digit(c: char) -> (r: bool)
    ensures
        r == ascii_digit(c),
{
    '0' <= c && c <= '9'
}

// ---------------------------------------------------------------------------
// Conversions
// ---------------------------------------------------------------------------

/// The characters of `s`.
pub fn chars_of(s: &str) -> (r: Vec<char>)
    ensures
        r@ == s@,
{
    let mut out: Vec<char> = Vec::new();
    for c in it: s.chars()
        invariant
            out@ == it.seq().take(it.index()),
            it.seq() == s@,
    {
        out.push(c);
        proof {
            assert(it.seq().take(it.index() + 1) =~= it.seq().take(it.index()).push(
                it.seq()[it.index()],
            ));
        }
    }
    proof {
        assert(s@.take(s@.len() as int) =~= s@);
    }
    out
}

/// The string made of `chars[from..to]`.
pub fn text_between(chars: &Vec<char>, from: usize, to: usize) -> (r: String)
    requires
        from <= to <= chars@.len(),
    ensures
        r@ == chars@.subrange(from as int, to as int),
{
    let mut out = String::new();
    let mut i: usize = from;
    while i < to
        invariant
            from <= i <= to <= chars@.len(),
            out@ == chars@.subrange(from as int, i as int),
        decreases to - i,
    {
        out.push(chars[i]);
        i = i + 1;
        proof {
            assert(chars@.subrange(from as int, i as int) =~= chars@.subrange(
                from as int,
                i - 1,
            ).push(chars@[i - 1]));
        }
    }
    out
}

/// Whether two strings hold the same characters.
pub fn same_text(a: &str, b: &str) -> (r: bool)
    ensures
        r == (a@ == b@),
{
    a.to_owned() == b.to_owned()
}

/// `a` followed by `b`.
pub fn concat(a: &str, b: &str) -> (r: String)
    ensures
        r@ == a@ + b@,
{
    let mut out = a.to_owned();
    out.append(b);
    out
}

/// `a`, `b` and `c` one after the other.
pub fn concat3(a: &str, b: &str, c: &str) -> (r: String)
    ensures
        r@ == a@ + b@ + c@,
{
    let mut out = a.to_owned();
    out.append(b);
    out.append(c);
    out
}

// ---------------------------------------------------------------------------
// Lists of strings
// ---------------------------------------------------------------------------

/// The texts of a list of strings.
pub open spec fn texts(v: Seq<String>) -> Seq<Seq<char>> {
    Seq::new(v.len(), |i: int| v[i]@)
}

/// The pieces of `s` between occurrences of `sep`; always at least one piece.
pub open spec fn split_on(s: Seq<char>, sep: char) -> Seq<Seq<char>>
    decreases s.len(),
{
    if s.len() == 0 {
        seq![Seq::<char>::empty()]
    } else {
        let before = split_on(s.drop_last(), sep);
        if s.last() == sep {
            before.push(Seq::<char>::empty())
        } else {
            before.drop_last().push(before.last().push(s.last()))
        }
    }
}

/// The texts in `parts` with `sep` between neighbours.
pub open spec fn join_with(parts: Seq<Seq<char>>, sep: Seq<char>) -> Seq<char>
    decreases parts.len(),
{
    if parts.len() == 0 {
        Seq::empty()
    } else if parts.len() == 1 {
        parts[0]
    } else {
        join_with(parts.drop_last(), sep) + sep + parts.last()
    }
}

/// Splits `s` at every occurrence of `sep`.
pub fn split(s: &str, sep: char) -> (r: Vec<String>)
    ensures
        texts(r@) == split_on(s@, sep),
{
    let chars = chars_of(s);
    let mut out: Vec<String> = Vec::new();
    let mut piece = String::new();
    let mut i: usize = 0;
    proof {
        assert(s@.take(0) =~= Seq::<char>::empty());
        assert(texts(out@).push(piece@) =~= seq![Seq::<char>::empty()]);
    }
    while i < chars.len()
        invariant
            chars@ == s@,
            i <= chars@.len(),
            texts(out@).push(piece@) == split_on(s@.take(i as int), sep),
        decreases chars.len() - i,
    {
        let c: char = chars[i];
        let ghost before = texts(out@).push(piece@);
        let ghost out0 = out@;
        proof {
            assert(s@.take(i + 1).drop_last() =~= s@.take(i as int));
            assert(before.drop_last() =~= texts(out@));
        }
        if c == sep {
            out.push(piece);
            piece = String::new();
            proof {
                assert(texts(out@) =~= before);
            }
        } else {
            piece.push(c);
        }
        i = i + 1;
    }
    let ghost before = texts(out@).push(piece@);
    out.push(piece);
    proof {
        assert(s@.take(i as int) =~= s@);
        assert(texts(out@) =~= before);
    }
    out
}

/// Joins `parts` with `sep` between neighbours.
pub fn join(parts: &Vec<String>, sep: &str) -> (r: String)
    ensures
        r@ == join_with(texts(parts@), sep@),
{
    let mut out = String::new();
    let mut i: usize = 0;
    proof {
        assert(texts(parts@).take(0) =~= Seq::<Seq<char>>::empty());
    }
    while i < parts.len()
        invariant
            i <= parts@.len(),
            out@ == join_with(texts(parts@).take(i as int), sep@),
        decreases parts.len() - i,
    {
        proof {
            assert(texts(parts@).take(i + 1).drop_last() =~= texts(parts@).take(i as int));
            assert(Seq::<char>::empty() + parts@[i as int]@ =~= parts@[i as int]@);
        }
        if i > 0 {
            out.append(sep);
        }
        out.append(parts[i].as_str());
        i = i + 1;
    }
    proof {
        assert(texts(parts@).take(i as int) =~= texts(parts@));
    }
    out
}

/// Splitting never yields an empty list.
pub proof fn lemma_split_nonempty(s: Seq<char>, sep: char)
    ensures
        split_on(s, sep).len() >= 1,
    decreases s.len(),
{
    if s.len() > 0 {
        lemma_split_nonempty(s.drop_last(), sep);
    }
}

/// No piece holds the separator.
pub proof fn lemma_split_pieces_free(s: Seq<char>, sep: char)
    ensures
        split_on(s, sep).len() >= 1,
        forall|i: int, k: int|
            0 <= i < split_on(s, sep).len() && 0 <= k < split_on(s, sep)[i].len()
                ==> #[trigger] split_on(s, sep)[i][k] != sep,
    decreases s.len(),
{
    if s.len() > 0 {
        lemma_split_pieces_free(s.drop_last(), sep);
        let before = split_on(s.drop_last(), sep);
        let all = split_on(s, sep);
        assert forall|i: int, k: int|
            0 <= i < all.len() && 0 <= k < all[i].len() implies #[trigger] all[i][k] != sep by {
            if i < before.len() - 1 {
                assert(all[i] == before[i]);
                assert(before[i][k] != sep);
            } else if i == before.len() - 1 {
                if s.last() == sep {
                    assert(all[i] == before[i]);
                    assert(before[i][k] != sep);
                } else if k < before[i].len() {
                    assert(all[i][k] == before[i][k]);
                    assert(before[i][k] != sep);
                }
            }
        }
    }
}

/// Appending text without separators extends the last piece.
proof fn lemma_split_extend(s: Seq<char>, t: Seq<char>, sep: char)
    requires
        forall|k: int| 0 <= k < t.len() ==> t[k] != sep,
    ensures
        split_on(s, sep).len() >= 1,
        split_on(s + t, sep) == split_on(s, sep).drop_last().push(split_on(s, sep).last() + t),
    decreases t.len(),
{
    lemma_split_nonempty(s, sep);
    let p = split_on(s, sep);
    if t.len() == 0 {
        assert(s + t =~= s);
        assert(p.last() + t =~= p.last());
        assert(p.drop_last().push(p.last()) =~= p);
    } else {
        lemma_split_extend(s, t.drop_last(), sep);
        assert((s + t).drop_last() =~= s + t.drop_last());
        assert((s + t).last() == t.last());
        let q = split_on(s + t.drop_last(), sep);
        assert(q.drop_last() =~= p.drop_last());
        assert(q.last().push(t.last()) =~= p.last() + t);
    }
}

/// Splitting what was joined gives the pieces back, as long as no piece holds
/// the separator and there is at least one.
pub proof fn lemma_split_join(parts: Seq<Seq<char>>, sep: char)
    requires
        parts.len() >= 1,
        forall|i: int, k: int|
            0 <= i < parts.len() && 0 <= k < parts[i].len() ==> #[trigger] parts[i][k] != sep,
    ensures
        split_on(join_with(parts, seq![sep]), sep) == parts,
    decreases parts.len(),
{
    let empty = Seq::<char>::empty();
    if parts.len() == 1 {
        lemma_split_extend(empty, parts[0], sep);
        assert(empty + parts[0] =~= parts[0]);
        assert(split_on(empty, sep) =~= seq![empty]);
        assert(split_on(parts[0], sep) =~= parts);
    } else {
        let init = parts.drop_last();
        assert forall|i: int, k: int| 0 <= i < init.len() && 0 <= k < init[i].len() implies
            #[trigger] init[i][k] != sep by {
            assert(init[i][k] == parts[i][k]);
        }
        lemma_split_join(init, sep);
        let head = join_with(init, seq![sep]) + seq![sep];
        assert(head.drop_last() =~= join_with(init, seq![sep]));
        assert(split_on(head, sep) =~= init.push(empty));
        let last = parts.last();
        assert forall|k: int| 0 <= k < last.len() implies last[k] != sep by {
            assert(parts[parts.len() - 1][k] != sep);
        }
        lemma_split_extend(head, last, sep);
        assert(empty + last =~= last);
        assert(init.push(empty).drop_last().push(last) =~= parts);
    }
}

/// Joining what was split gives the text back.
pub proof fn lemma_join_split(s: Seq<char>, sep: char)
    ensures
        join_with(split_on(s, sep), seq![sep]) == s,
    decreases s.len(),
{
    if s.len() > 0 {
        let init = s.drop_last();
        lemma_join_split(init, sep);
        lemma_split_nonempty(init, sep);
        let before = split_on(init, sep);
        let all = split_on(s, sep);
        if s.last() == sep {
            assert(all.drop_last() =~= before);
            assert(init + seq![sep] + Seq::<char>::empty() =~= s);
        } else {
            assert(all.drop_last() =~= before.drop_last());
            if before.len() == 1 {
                assert(before[0].push(s.last()) =~= s);
            } else {
                assert(join_with(before.drop_last(), seq![sep]) + seq![sep] + before.last().push(
                    s.last(),
                ) =~= (join_with(before.drop_last(), seq![sep]) + seq![sep] + before.last()).push(
                    s.last(),
                ));
            }
            assert(init.push(s.last()) =~= s);
        }
    }
}

// ---------------------------------------------------------------------------
// Searching
// ---------------------------------------------------------------------------

/// `p` stands in `s` at position `i`.
pub open spec fn occurs_at(s: Seq<char>, p: Seq<char>, i: int) -> bool {
    &&& 0 <= i
    &&& i + p.len() <= s.len()
    &&& s.subrange(i, i + p.len()) == p
}

/// `p` stands somewhere in `s`.
pub open spec fn has_text(s: Seq<char>, p: Seq<char>) -> bool {
    exists|i: int| occurs_at(s, p, i)
}

/// `s` begins with `p`.
pub open spec fn has_prefix(s: Seq<char>, p: Seq<char>) -> bool {
    occurs_at(s, p, 0)
}

/// `s` ends with `p`.
pub open spec fn has_suffix(s: Seq<char>, p: Seq<char>) -> bool {
    occurs_at(s, p, s.len() - p.len())
}

/// `s` with every occurrence of `p`, taken from the left, replaced by `with`.
pub open spec fn replaced(s: Seq<char>, p: Seq<char>, with: Seq<char>) -> Seq<char>
    decreases s.len(),
{
    if p.len() == 0 || s.len() < p.len() {
        s
    } else if has_prefix(s, p) {
        with + replaced(s.skip(p.len() as int), p, with)
    } else {
        seq![s[0]] + replaced(s.skip(1), p, with)
    }
}

/// A text stands in whatever is written around it.
pub proof fn lemma_has_text_between(before: Seq<char>, p: Seq<char>, after: Seq<char>)
    ensures
        has_text(before + p + after, p),
{
    let s = before + p + after;
    assert(s.subrange(before.len() as int, (before.len() + p.len()) as int) =~= p);
    assert(occurs_at(s, p, before.len() as int));
}

/// How texts are grouped when they are put together does not matter.
pub proof fn lemma_grouped(a: Seq<char>, b: Seq<char>, c: Seq<char>)
    ensures
        a + b + c == a + (b + c),
{
    assert(a + b + c =~= a + (b + c));
}

/// What stands in a part of a text stands in the text.
pub proof fn lemma_has_text_around(before: Seq<char>, s: Seq<char>, after: Seq<char>, p: Seq<char>)
    requires
        has_text(s, p),
    ensures
        has_text(before + s + after, p),
{
    let i = choose|i: int| occurs_at(s, p, i);
    let all = before + s + after;
    assert(all.subrange(before.len() + i, before.len() + i + p.len()) =~= s.subrange(
        i,
        i + p.len(),
    ));
    assert(occurs_at(all, p, before.len() + i));
}

/// Whether `p` stands in `s` at position `i`.
fn occurs(s: &Vec<char>, p: &Vec<char>, i: usize) -> (r: bool)
    ensures
        r == occurs_at(s@, p@, i as int),
{
    if i > s.len() || p.len() > s.len() - i {
        return false;
    }
    let mut k: usize = 0;
    while k < p.len()
        invariant
            k <= p@.len(),
            i + p@.len() <= s@.len() <= usize::MAX,
            forall|j: int| 0 <= j < k ==> s@[i + j] == p@[j],
        decreases p.len() - k,
    {
        if s[i + k] != p[k] {
            proof {
                assert(s@.subrange(i as int, i + p@.len())[k as int] != p@[k as int]);
            }
            return false;
        }
        k = k + 1;
    }
    proof {
        assert(s@.subrange(i as int, i + p@.len()) =~= p@);
    }
    true
}

/// Whether `p` stands somewhere in `s`.
pub fn contains(s: &str, p: &str) -> (r: bool)
    ensures
        r == has_text(s@, p@),
{
    let chars = chars_of(s);
    let pat = chars_of(p);
    let mut i: usize = 0;
    while i < chars.len()
        invariant
            chars@ == s@,
            pat@ == p@,
            i <= chars@.len(),
            forall|j: int| 0 <= j < i ==> !occurs_at(s@, p@, j),
        decreases chars.len() - i,
    {
        if occurs(&chars, &pat, i) {
            return true;
        }
        i = i + 1;
    }
    occurs(&chars, &pat, i)
}

/// Whether `s` begins with `p`.
pub fn starts_with(s: &str, p: &str) -> (r: bool)
    ensures
        r == has_prefix(s@, p@),
{
    occurs(&chars_of(s), &chars_of(p), 0)
}

/// Whether `s` ends with `p`.
pub fn ends_with(s: &str, p: &str) -> (r: bool)
    ensures
        r == has_suffix(s@, p@),
{
    let chars = chars_of(s);
    let pat = chars_of(p);
    if pat.len() > chars.len() {
        return false;
    }
    occurs(&chars, &pat, chars.len() - pat.len())
}

/// `s` with every occurrence of `p` replaced by `with`; `s` itself when `p` is
/// empty.
pub fn replace(s: &str, p: &str, with: &str) -> (r: String)
    ensures
        r@ == replaced(s@, p@, with@),
{
    let chars = chars_of(s);
    let pat = chars_of(p);
    if pat.len() == 0 {
        return s.to_owned();
    }
    let mut out = String::new();
    let mut i: usize = 0;
    proof {
        assert(s@.skip(0) =~= s@);
        assert(Seq::<char>::empty() + replaced(s@, p@, with@) =~= replaced(s@, p@, with@));
    }
    while i < chars.len() && pat.len() <= chars.len() - i
        invariant
            chars@ == s@,
            pat@ == p@,
            pat@.len() > 0,
            i <= chars@.len(),
            out@ + replaced(s@.skip(i as int), p@, with@) == replaced(s@, p@, with@),
        decreases chars.len() - i,
    {
        let ghost rest = s@.skip(i as int);
        let ghost out0 = out@;
        proof {
            assert(rest.subrange(0, p@.len() as int) =~= s@.subrange(i as int, i + p@.len()));
        }
        if occurs(&chars, &pat, i) {
            out.append(with);
            i = i + pat.len();
            proof {
                assert(rest.skip(p@.len() as int) =~= s@.skip(i as int));
                assert(out0 + (with@ + replaced(s@.skip(i as int), p@, with@)) =~= out@ + replaced(
                    s@.skip(i as int),
                    p@,
                    with@,
                ));
            }
        } else {
            out.push(chars[i]);
            i = i + 1;
            proof {
                assert(rest.skip(1) =~= s@.skip(i as int));
                assert(out0 + (seq![rest[0]] + replaced(s@.skip(i as int), p@, with@)) =~= out@
                    + replaced(s@.skip(i as int), p@, with@));
            }
        }
    }
    let tail = text_between(&chars, i, chars.len());
    out.append(tail.as_str());
    proof {
        assert(tail@ =~= s@.skip(i as int));
    }
    out
}

// ---------------------------------------------------------------------------
// Trimming and lines
// ---------------------------------------------------------------------------

/// `s` without leading whitespace.
pub open spec fn trimmed_start(s: Seq<char>) -> Seq<char>
    decreases s.len(),
{
    if s.len() > 0 && whitespace(s[0]) {
        trimmed_start(s.skip(1))
    } else {
        s
    }
}

/// `s` without trailing whitespace.
pub open spec fn trimmed_end(s: Seq<char>) -> Seq<char>
    decreases s.len(),
{
    if s.len() > 0 && whitespace(s.last()) {
        trimmed_end(s.drop_last())
    } else {
        s
    }
}

/// `s` without the characters equal to `c` at its end.
pub open spec fn without_trailing(s: Seq<char>, c: char) -> Seq<char>
    decreases s.len(),
{
    if s.len() > 0 && s.last() == c {
        without_trailing(s.drop_last(), c)
    } else {
        s
    }
}

/// `s` without leading whitespace.
pub fn trim_start(s: &str) -> (r: String)
    ensures
        r@ == trimmed_start(s@),
{
    let chars = chars_of(s);
    let mut i: usize = 0;
    proof {
        assert(s@.skip(0) =~= s@);
    }
    while i < chars.len() && chars[i].is_whitespace()
        invariant
            chars@ == s@,
            i <= chars@.len(),
            trimmed_start(s@.skip(i as int)) == trimmed_start(s@),
        ensures
            i <= chars@.len(),
            i < chars@.len() ==> !whitespace(chars@[i as int]),
            trimmed_start(s@.skip(i as int)) == trimmed_start(s@),
        decreases chars.len() - i,
    {
        proof {
            assert(s@.skip(i as int).skip(1) =~= s@.skip(i + 1));
        }
        i = i + 1;
    }
    let out = text_between(&chars, i, chars.len());
    proof {
        assert(out@ =~= s@.skip(i as int));
    }
    out
}

/// `s` without trailing whitespace.
pub fn trim_end(s: &str) -> (r: String)
    ensures
        r@ == trimmed_end(s@),
{
    let chars = chars_of(s);
    let mut n: usize = chars.len();
    proof {
        assert(s@.take(n as int) =~= s@);
    }
    while n > 0 && chars[n - 1].is_whitespace()
        invariant
            chars@ == s@,
            n <= chars@.len(),
            trimmed_end(s@.take(n as int)) == trimmed_end(s@),
        ensures
            n <= chars@.len(),
            n > 0 ==> !whitespace(chars@[n - 1]),
            trimmed_end(s@.take(n as int)) == trimmed_end(s@),
        decreases n,
    {
        proof {
            assert(s@.take(n as int).drop_last() =~= s@.take(n - 1));
        }
        n = n - 1;
    }
    let out = text_between(&chars, 0, n);
    proof {
        assert(out@ =~= s@.take(n as int));
    }
    out
}

/// `s` without leading and trailing whitespace.
pub fn trim(s: &str) -> (r: String)
    ensures
        r@ == trimmed_end(trimmed_start(s@)),
{
    trim_end(trim_start(s).as_str())
}

/// `s` without the characters equal to `c` at its end.
pub fn trim_end_char(s: &str, c: char) -> (r: String)
    ensures
        r@ == without_trailing(s@, c),
{
    let chars = chars_of(s);
    let mut n: usize = chars.len();
    proof {
        assert(s@.take(n as int) =~= s@);
    }
    while n > 0 && chars[n - 1] == c
        invariant
            chars@ == s@,
            n <= chars@.len(),
            without_trailing(s@.take(n as int), c) == without_trailing(s@, c),
        decreases n,
    {
        proof {
            assert(s@.take(n as int).drop_last() =~= s@.take(n - 1));
        }
        n = n - 1;
    }
    let out = text_between(&chars, 0, n);
    proof {
        assert(out@ =~= s@.take(n as int));
    }
    out
}

// ---------------------------------------------------------------------------
// Numbers
// ---------------------------------------------------------------------------

/// The decimal digit with value `d`.
pub open spec fn digit_char(d: int) -> char {
    (48 + d) as char
}

/// The decimal notation of `n`, without leading zeros.
pub open spec fn decimal(n: nat) -> Seq<char>
    decreases n,
{
    if n < 10 {
        seq![digit_char(n as int)]
    } else {
        decimal(n / 10).push(digit_char((n % 10) as int))
    }
}

/// The digit of `d`.
fn digit(d: u64) -> (r: char)
    requires
        d < 10,
    ensures
        r == digit_char(d as int),
{
    match d {
        0 => '0',
        1 => '1',
        2 => '2',
        3 => '3',
        4 => '4',
        5 => '5',
        6 => '6',
        7 => '7',
        8 => '8',
        _ => '9',
    }
}

/// The decimal notation of `n`.
pub fn decimal_text(n: u64) -> (r: String)
    ensures
        r@ == decimal(n as nat),
    decreases n,
{
    if n < 10 {
        let mut out = String::new();
        out.push(digit(n));
        proof {
            assert(out@ =~= decimal(n as nat));
        }
        out
    } else {
        let mut out = decimal_text(n / 10);
        out.push(digit(n % 10));
        out
    }
}

/// The value of a text of decimal digits.
pub open spec fn digits_value(s: Seq<char>) -> nat
    decreases s.len(),
{
    if s.len() == 0 {
        0
    } else {
        digits_value(s.drop_last()) * 10 + (s.last() as u32 - 48) as nat
    }
}

/// One or more decimal digits, and nothing else.
pub open spec fn all_digits(s: Seq<char>) -> bool {
    s.len() > 0 && forall|i: int| 0 <= i < s.len() ==> ascii_digit(#[trigger] s[i])
}

/// A text without the plus sign in front of it.
pub open spec fn unsigned_part(s: Seq<char>) -> Seq<char> {
    if s.len() > 0 && s[0] == '+' {
        s.skip(1)
    } else {
        s
    }
}

/// The number that a text of decimal digits stands for, with or without a plus
/// sign, if it fits.
pub open spec fn parsed_usize(s: Seq<char>) -> Option<usize> {
    let digits = unsigned_part(s);
    if all_digits(digits) && digits_value(digits) <= usize::MAX {
        Some(digits_value(digits) as usize)
    } else {
        None
    }
}

proof fn lemma_digits_grow(s: Seq<char>, n: int)
    requires
        0 <= n <= s.len(),
        all_digits(s),
    ensures
        digits_value(s.take(n)) <= digits_value(s),
    decreases s.len() - n,
{
    if n < s.len() {
        lemma_digits_grow(s, n + 1);
        assert(s.take(n + 1).drop_last() =~= s.take(n));
    } else {
        assert(s.take(n) =~= s);
    }
}

/// The number that a text stands for.
pub fn parse_usize(s: &str) -> (r: Option<usize>)
    ensures
        r == parsed_usize(s@),
{
    let chars = chars_of(s);
    let start: usize = if chars.len() > 0 && chars[0] == '+' {
        1
    } else {
        0
    };
    let ghost digits = unsigned_part(s@);
    proof {
        assert(digits =~= s@.skip(start as int));
        assert(digits.take(0) =~= Seq::<char>::empty());
    }
    if start == chars.len() {
        return None;
    }
    let mut value: usize = 0;
    let mut i: usize = start;
    while i < chars.len()
        invariant
            chars@ == s@,
            digits == unsigned_part(s@),
            digits == s@.skip(start as int),
            start <= i <= chars@.len(),
            start < chars@.len(),
            forall|j: int| 0 <= j < i - start ==> ascii_digit(#[trigger] digits[j]),
            value == digits_value(digits.take(i - start)),
        decreases chars.len() - i,
    {
        let c: char = chars[i];
        proof {
            assert(digits[i - start] == c);
            assert(digits.take(i - start + 1).drop_last() =~= digits.take(i - start));
        }
        if !is_ascii_digit(c) {
            return None;
        }
        let d: usize = (c as u32 - 48) as usize;
        let scaled = match value.checked_mul(10) {
            Some(v) => v.checked_add(d),
            None => None,
        };
        match scaled {
            Some(v) => {
                value = v;
            },
            None => {
                proof {
                    if all_digits(digits) {
                        lemma_digits_grow(digits, i - start + 1);
                    }
                }
                return None;
            },
        }
        i = i + 1;
    }
    proof {
        assert(digits.take(i - start) =~= digits);
    }
    Some(value)
}

// ---------------------------------------------------------------------------
// Cutting
// ---------------------------------------------------------------------------

/// The position of the first `c`, or the length of the text.
pub open spec fn first_index(s: Seq<char>, c: char) -> int
    decreases s.len(),
{
    if s.len() == 0 {
        0
    } else if s[0] == c {
        0
    } else {
        1 + first_index(s.skip(1), c)
    }
}

/// The text before the first `c` and the text after it, if there is one.
pub open spec fn cut_at(s: Seq<char>, c: char) -> Option<(Seq<char>, Seq<char>)> {
    let k = first_index(s, c);
    if k < s.len() {
        Some((s.take(k), s.skip(k + 1)))
    } else {
        None
    }
}

/// The text before the first `c` and the text after it, if there is one.
pub fn cut(s: &str, c: char) -> (r: Option<(String, String)>)
    ensures
        match cut_at(s@, c) {
            Some((a, b)) => r matches Some((x, y)) && x@ == a && y@ == b,
            None => r is None,
        },
{
    let chars = chars_of(s);
    let mut i: usize = 0;
    proof {
        assert(s@.skip(0) =~= s@);
    }
    while i < chars.len() && chars[i] != c
        invariant
            chars@ == s@,
            i <= chars@.len(),
            i + first_index(s@.skip(i as int), c) == first_index(s@, c),
        decreases chars.len() - i,
    {
        proof {
            assert(s@.skip(i as int).skip(1) =~= s@.skip(i + 1));
        }
        i = i + 1;
    }
    if i < chars.len() {
        let a = text_between(&chars, 0, i);
        let b = text_between(&chars, i + 1, chars.len());
        proof {
            assert(a@ =~= s@.take(i as int));
            assert(b@ =~= s@.skip(i + 1));
        }
        Some((a, b))
    } else {
        None
    }
}

/// `s` without `p` at its start, as often as it stands there.
pub open spec fn without_prefixes(s: Seq<char>, p: Seq<char>) -> Seq<char>
    decreases s.len(),
{
    if p.len() > 0 && has_prefix(s, p) {
        without_prefixes(s.skip(p.len() as int), p)
    } else {
        s
    }
}

/// `s` without `p` at its start, as often as it stands there.
pub fn trim_prefixes(s: &str, p: &str) -> (r: String)
    ensures
        r@ == without_prefixes(s@, p@),
{
    let chars = chars_of(s);
    let pat = chars_of(p);
    let mut i: usize = 0;
    proof {
        assert(s@.skip(0) =~= s@);
    }
    while pat.len() > 0 && occurs(&chars, &pat, i)
        invariant
            chars@ == s@,
            pat@ == p@,
            i <= chars@.len(),
            without_prefixes(s@.skip(i as int), p@) == without_prefixes(s@, p@),
        ensures
            i <= chars@.len(),
            p@.len() == 0 || !occurs_at(s@, p@, i as int),
            without_prefixes(s@.skip(i as int), p@) == without_prefixes(s@, p@),
        decreases chars.len() - i,
    {
        proof {
            let rest = s@.skip(i as int);
            assert(rest.subrange(0, p@.len() as int) =~= s@.subrange(i as int, i + p@.len()));
            assert(rest.skip(p@.len() as int) =~= s@.skip(i + p@.len()));
        }
        i = i + pat.len();
    }
    let out = text_between(&chars, i, chars.len());
    proof {
        let rest = s@.skip(i as int);
        assert(out@ =~= rest);
        if has_prefix(rest, p@) {
            assert(rest.subrange(0, p@.len() as int) =~= s@.subrange(i as int, i + p@.len()));
        }
    }
    out
}

/// The lines of a text: what stands between line feeds, without the carriage
/// return before one; nothing after the last line feed is no line.
pub open spec fn lines_of(s: Seq<char>) -> Seq<Seq<char>> {
    let pieces = split_on(s, '\n');
    let ended = Seq::new(
        (pieces.len() - 1) as nat,
        |i: int|
            if pieces[i].len() > 0 && pieces[i].last() == '\r' {
                pieces[i].drop_last()
            } else {
                pieces[i]
            },
    );
    if pieces.last().len() == 0 {
        ended
    } else {
        ended.push(pieces.last())
    }
}

/// The lines of a text.
pub fn lines(s: &str) -> (r: Vec<String>)
    ensures
        texts(r@) == lines_of(s@),
{
    let pieces = split(s, '\n');
    let ghost all = split_on(s@, '\n');
    let mut out: Vec<String> = Vec::new();
    let mut i: usize = 0;
    proof {
        lemma_split_nonempty(s@, '\n');
    }
    while i < pieces.len()
        invariant
            texts(pieces@) == all,
            all == split_on(s@, '\n'),
            all.len() >= 1,
            pieces@.len() == all.len(),
            i <= pieces@.len(),
            i < all.len() ==> texts(out@) =~= lines_of(s@).take(i as int),
            i == all.len() ==> texts(out@) == lines_of(s@),
        decreases pieces.len() - i,
    {
        let ghost done = out@;
        let chars = chars_of(pieces[i].as_str());
        let n: usize = chars.len();
        proof {
            assert(pieces@[i as int]@ == all[i as int]);
        }
        if i + 1 < pieces.len() {
            if n > 0 && chars[n - 1] == '\r' {
                let line = text_between(&chars, 0, n - 1);
                proof {
                    assert(line@ =~= all[i as int].drop_last());
                }
                out.push(line);
            } else {
                out.push(pieces[i].clone());
            }
            proof {
                assert(texts(out@) =~= texts(done).push(out@.last()@));
                assert(lines_of(s@)[i as int] == out@.last()@);
                assert(lines_of(s@).take(i + 1) =~= lines_of(s@).take(i as int).push(
                    lines_of(s@)[i as int],
                ));
                if i + 1 == all.len() - 1 && all.last().len() == 0 {
                    assert(lines_of(s@).take(i + 1) =~= lines_of(s@));
                }
            }
        } else if n > 0 {
            out.push(pieces[i].clone());
            proof {
                assert(texts(out@) =~= texts(done).push(out@.last()@));
                assert(texts(out@) =~= lines_of(s@));
            }
        } else {
            proof {
                assert(texts(out@) =~= lines_of(s@));
            }
        }
        i = i + 1;
    }
    out
}

// ---------------------------------------------------------------------------
// Laws
// ---------------------------------------------------------------------------

/// What is left without trailing characters is the beginning of the text, up
/// to its last character that is another one.
pub proof fn lemma_without_trailing(s: Seq<char>, c: char)
    ensures
        without_trailing(s, c).len() <= s.len(),
        without_trailing(s, c) == s.take(without_trailing(s, c).len() as int),
        forall|i: int| without_trailing(s, c).len() <= i < s.len() ==> #[trigger] s[i] == c,
        without_trailing(s, c).len() > 0 ==> without_trailing(s, c).last() != c,
    decreases s.len(),
{
    let w = without_trailing(s, c);
    if s.len() > 0 && s.last() == c {
        let front = s.drop_last();
        lemma_without_trailing(front, c);
        assert(front.take(w.len() as int) =~= s.take(w.len() as int));
        assert forall|i: int| w.len() <= i < s.len() implies #[trigger] s[i] == c by {
            if i < front.len() {
                assert(front[i] == s[i]);
            }
        }
    } else {
        assert(s.take(s.len() as int) =~= s);
    }
}

/// What is left without leading whitespace is the end of the text, from its
/// first character that is none.
pub proof fn lemma_trimmed_start(s: Seq<char>)
    ensures
        trimmed_start(s).len() <= s.len(),
        trimmed_start(s) == s.skip(s.len() - trimmed_start(s).len()),
        forall|i: int| 0 <= i < s.len() - trimmed_start(s).len() ==> whitespace(#[trigger] s[i]),
        trimmed_start(s).len() > 0 ==> !whitespace(trimmed_start(s)[0]),
    decreases s.len(),
{
    let t = trimmed_start(s);
    if s.len() > 0 && whitespace(s[0]) {
        let rest = s.skip(1);
        lemma_trimmed_start(rest);
        assert(rest.skip(rest.len() - t.len()) =~= s.skip(s.len() - t.len()));
        assert forall|i: int| 0 <= i < s.len() - t.len() implies whitespace(#[trigger] s[i]) by {
            if i > 0 {
                assert(rest[i - 1] == s[i]);
            }
        }
    } else {
        assert(s.skip(0) =~= s);
    }
}

/// What is left without trailing whitespace is the beginning of the text, up
/// to its last character that is none.
pub proof fn lemma_trimmed_end(s: Seq<char>)
    ensures
        trimmed_end(s).len() <= s.len(),
        trimmed_end(s) == s.take(trimmed_end(s).len() as int),
        forall|i: int| trimmed_end(s).len() <= i < s.len() ==> whitespace(#[trigger] s[i]),
        trimmed_end(s).len() > 0 ==> !whitespace(trimmed_end(s).last()),
    decreases s.len(),
{
    let t = trimmed_end(s);
    if s.len() > 0 && whitespace(s.last()) {
        let front = s.drop_last();
        lemma_trimmed_end(front);
        assert(front.take(t.len() as int) =~= s.take(t.len() as int));
        assert forall|i: int| t.len() <= i < s.len() implies whitespace(#[trigger] s[i]) by {
            if i < front.len() {
                assert(front[i] == s[i]);
            }
        }
    } else {
        assert(s.take(s.len() as int) =~= s);
    }
}

/// The first character that is no whitespace begins the trimmed text.
pub proof fn lemma_trimmed_begins(s: Seq<char>, k: int)
    requires
        0 <= k < s.len(),
        forall|i: int| 0 <= i < k ==> whitespace(#[trigger] s[i]),
        !whitespace(s[k]),
    ensures
        trimmed_start(s) == s.skip(k),
        trimmed_end(trimmed_start(s)).len() > 0,
        trimmed_end(trimmed_start(s))[0] == s[k],
{
    lemma_trimmed_start(s);
    let t = trimmed_start(s);
    let j = s.len() - t.len();
    if j > k {
        assert(whitespace(s[k]));
    }
    if j < k {
        assert(t[0] == s[j]);
    }
    lemma_trimmed_end(t);
    if trimmed_end(t).len() == 0 {
        assert(whitespace(t[0]));
    }
}

/// A text that neither begins nor ends in whitespace is not trimmed.
pub proof fn lemma_trimmed_already(s: Seq<char>)
    requires
        s.len() > 0 ==> !whitespace(s[0]) && !whitespace(s.last()),
    ensures
        trimmed_end(trimmed_start(s)) == s,
{
}

/// A text is cut at its first separator: the part before holds none.
pub proof fn lemma_cut_at(a: Seq<char>, c: char, b: Seq<char>)
    requires
        forall|i: int| 0 <= i < a.len() ==> #[trigger] a[i] != c,
    ensures
        cut_at(a + seq![c] + b, c) == Some((a, b)),
        cut_at(a, c) is None,
{
    let s = a + seq![c] + b;
    lemma_first_index(s, c, a.len() as int);
    assert(s.take(a.len() as int) =~= a);
    assert(s.skip((a.len() + 1) as int) =~= b);
    lemma_first_index(a, c, a.len() as int);
}

proof fn lemma_first_index(s: Seq<char>, c: char, k: int)
    requires
        0 <= k <= s.len(),
        forall|i: int| 0 <= i < k ==> #[trigger] s[i] != c,
        k < s.len() ==> s[k] == c,
    ensures
        first_index(s, c) == k,
    decreases s.len(),
{
    if s.len() > 0 && k > 0 {
        assert(s[0] != c);
        let rest = s.skip(1);
        assert forall|i: int| 0 <= i < k - 1 implies #[trigger] rest[i] != c by {
            assert(rest[i] == s[i + 1]);
        }
        lemma_first_index(rest, c, k - 1);
    }
}

/// Decimal notation is read back as the number, holds digits only, and has no
/// leading zero.
pub proof fn lemma_decimal_reads_back(n: nat)
    ensures
        all_digits(decimal(n)),
        digits_value(decimal(n)) == n,
        n > 0 ==> decimal(n)[0] != '0',
    decreases n,
{
    let d = decimal(n);
    if n < 10 {
        assert(d.drop_last() =~= Seq::<char>::empty());
        assert(digits_value(d.drop_last()) == 0);
    } else {
        lemma_decimal_reads_back(n / 10);
        assert(d.drop_last() =~= decimal(n / 10));
    }
}

/// Of a text without leading prefixes nothing is taken away; one prefix in
/// front of it is.
pub proof fn lemma_without_prefixes(p: Seq<char>, s: Seq<char>)
    requires
        p.len() > 0,
        !has_prefix(s, p),
    ensures
        without_prefixes(s, p) == s,
        without_prefixes(p + s, p) == s,
{
    let all = p + s;
    assert(all.subrange(0, p.len() as int) =~= p);
    assert(all.skip(p.len() as int) =~= s);
}

/// A text in which the pattern does not stand is left as it is.
pub proof fn lemma_replaced_absent(s: Seq<char>, p: Seq<char>, with: Seq<char>)
    requires
        !has_text(s, p),
    ensures
        replaced(s, p, with) == s,
    decreases s.len(),
{
    if p.len() > 0 && s.len() >= p.len() {
        assert(!occurs_at(s, p, 0));
        let rest = s.skip(1);
        if has_text(rest, p) {
            let i = choose|i: int| occurs_at(rest, p, i);
            assert(rest.subrange(i, i + p.len()) =~= s.subrange(i + 1, i + 1 + p.len()));
            assert(occurs_at(s, p, i + 1));
        }
        lemma_replaced_absent(rest, p, with);
        assert(seq![s[0]] + rest =~= s);
    }
}

/// The first occurrence of the pattern is replaced, what stands before it is
/// kept, and the replacement goes on behind it.
pub proof fn lemma_replaced_first(a: Seq<char>, p: Seq<char>, b: Seq<char>, with: Seq<char>)
    requires
        p.len() > 0,
        forall|i: int| 0 <= i < a.len() ==> !#[trigger] occurs_at(a + p + b, p, i),
    ensures
        replaced(a + p + b, p, with) == a + with + replaced(b, p, with),
    decreases a.len(),
{
    let s = a + p + b;
    if a.len() == 0 {
        assert(s.subrange(0, p.len() as int) =~= p);
        assert(s.skip(p.len() as int) =~= b);
        assert(a + with =~= with);
    } else {
        assert(!occurs_at(s, p, 0));
        let a1 = a.skip(1);
        let s1 = a1 + p + b;
        assert(s.skip(1) =~= s1);
        assert forall|i: int| 0 <= i < a1.len() implies !#[trigger] occurs_at(s1, p, i) by {
            assert(!occurs_at(s, p, i + 1));
            if occurs_at(s1, p, i) {
                assert(s1.subrange(i, i + p.len()) =~= s.subrange(i + 1, i + 1 + p.len()));
            }
        }
        lemma_replaced_first(a1, p, b, with);
        assert(seq![s[0]] + (a1 + with + replaced(b, p, with)) =~= a + with + replaced(b, p, with));
    }
}

/// A line feed separates two lines, and what stands before it is the first of
/// them; a carriage return in front of it belongs to neither.
pub proof fn lemma_first_line(line: Seq<char>, rest: Seq<char>)
    requires
        forall|i: int| 0 <= i < line.len() ==> #[trigger] line[i] != '\n',
    ensures
        split_on(line + seq!['\n'] + rest, '\n') == seq![line] + split_on(rest, '\n'),
        line.len() == 0 || line.last() != '\r' ==> lines_of(line + seq!['\n'] + rest) == seq![line]
            + lines_of(rest),
        lines_of(line + seq!['\r', '\n'] + rest) == seq![line] + lines_of(rest),
{
    lemma_split_after(line, '\n', rest);
    lemma_split_nonempty(rest, '\n');
    let pieces = split_on(line + seq!['\n'] + rest, '\n');
    let others = split_on(rest, '\n');
    assert(pieces.len() == others.len() + 1);
    assert(forall|i: int| 0 <= i < others.len() ==> #[trigger] others[i] == pieces[i + 1]);
    assert(pieces.last() == others.last());
    if line.len() == 0 || line.last() != '\r' {
        assert(lines_of(line + seq!['\n'] + rest) =~= seq![line] + lines_of(rest));
    }
    let cr = line.push('\r');
    assert(line + seq!['\r', '\n'] + rest =~= cr + seq!['\n'] + rest);
    lemma_split_after(cr, '\n', rest);
    let with_cr = split_on(cr + seq!['\n'] + rest, '\n');
    assert(with_cr.len() == others.len() + 1);
    assert(forall|i: int| 0 <= i < others.len() ==> #[trigger] others[i] == with_cr[i + 1]);
    assert(with_cr.last() == others.last());
    assert(with_cr[0].drop_last() =~= line);
    assert(lines_of(cr + seq!['\n'] + rest) =~= seq![line] + lines_of(rest));
}

/// What stands before the first separator is the first piece; the others are
/// those of what stands behind it.
pub proof fn lemma_split_after(a: Seq<char>, sep: char, b: Seq<char>)
    requires
        forall|i: int| 0 <= i < a.len() ==> #[trigger] a[i] != sep,
    ensures
        split_on(a + seq![sep] + b, sep) == seq![a] + split_on(b, sep),
    decreases b.len(),
{
    let s = a + seq![sep] + b;
    let empty = Seq::<char>::empty();
    if b.len() == 0 {
        lemma_split_extend(empty, a, sep);
        assert(empty + a =~= a);
        assert(split_on(empty, sep) =~= seq![empty]);
        assert(split_on(a, sep) =~= seq![a]);
        assert(s.drop_last() =~= a);
        assert(split_on(s, sep) =~= seq![a].push(empty));
        assert(seq![a] + split_on(b, sep) =~= seq![a].push(empty));
    } else {
        let front = b.drop_last();
        lemma_split_after(a, sep, front);
        lemma_split_nonempty(front, sep);
        assert(s.drop_last() =~= a + seq![sep] + front);
        assert(s.last() == b.last());
        let before = split_on(front, sep);
        let all = seq![a] + before;
        assert(all.drop_last() =~= seq![a] + before.drop_last());
        assert(all.last() == before.last());
        assert(split_on(s, sep) =~= seq![a] + split_on(b, sep));
    }
}

/// The pieces on the two sides of a separator are independent of each other.
pub proof fn lemma_split_at(a: Seq<char>, sep: char, b: Seq<char>)
    ensures
        split_on(a + seq![sep] + b, sep) == split_on(a, sep) + split_on(b, sep),
    decreases b.len(),
{
    let s = a + seq![sep] + b;
    let empty = Seq::<char>::empty();
    if b.len() == 0 {
        assert(s.drop_last() =~= a);
        assert(split_on(b, sep) =~= seq![empty]);
        assert(split_on(s, sep) =~= split_on(a, sep) + split_on(b, sep));
    } else {
        let front = b.drop_last();
        lemma_split_at(a, sep, front);
        lemma_split_nonempty(front, sep);
        assert(s.drop_last() =~= a + seq![sep] + front);
        assert(s.last() == b.last());
        let before = split_on(front, sep);
        let all = split_on(a, sep) + before;
        assert(all.drop_last() =~= split_on(a, sep) + before.drop_last());
        assert(all.last() == before.last());
        assert(split_on(s, sep) =~= split_on(a, sep) + split_on(b, sep));
    }
}

/// A text without separators is its only piece.
pub proof fn lemma_split_single(a: Seq<char>, sep: char)
    requires
        forall|i: int| 0 <= i < a.len() ==> #[trigger] a[i] != sep,
    ensures
        split_on(a, sep) == seq![a],
{
    let empty = Seq::<char>::empty();
    lemma_split_extend(empty, a, sep);
    assert(empty + a =~= a);
    assert(split_on(empty, sep) =~= seq![empty]);
    assert(split_on(a, sep) =~= seq![a]);
}

/// Joining two lists puts the separator between what they give.
pub proof fn lemma_join_at(a: Seq<Seq<char>>, b: Seq<Seq<char>>, sep: Seq<char>)
    requires
        a.len() > 0,
        b.len() > 0,
    ensures
        join_with(a + b, sep) == join_with(a, sep) + sep + join_with(b, sep),
    decreases b.len(),
{
    let all = a + b;
    let front = b.drop_last();
    assert(all.drop_last() =~= a + front);
    assert(all.last() == b.last());
    if b.len() == 1 {
        assert(a + front =~= a);
    } else {
        lemma_join_at(a, front, sep);
        assert(join_with(a, sep) + sep + join_with(front, sep) + sep + b.last() =~= join_with(a, sep)
            + sep + join_with(b, sep));
    }
}

/// A text without line feeds is one line, and an empty text is none.
pub proof fn lemma_last_line(line: Seq<char>)
    requires
        forall|i: int| 0 <= i < line.len() ==> #[trigger] line[i] != '\n',
    ensures
        line.len() > 0 ==> lines_of(line) == seq![line],
        line.len() == 0 ==> lines_of(line) == Seq::<Seq<char>>::empty(),
{
    lemma_split_single(line, '\n');
    if line.len() > 0 {
        assert(lines_of(line) =~= seq![line]);
    } else {
        assert(lines_of(line) =~= Seq::<Seq<char>>::empty());
    }
}

/// Prefixes are taken away as often as they stand there, and what is left does
/// not begin with one.
pub proof fn lemma_all_prefixes_go(p: Seq<char>, s: Seq<char>)
    requires
        p.len() > 0,
    ensures
        without_prefixes(p + s, p) == without_prefixes(s, p),
        !has_prefix(without_prefixes(s, p), p),
        has_suffix(s, without_prefixes(s, p)),
    decreases s.len(),
{
    let all = p + s;
    assert(all.subrange(0, p.len() as int) =~= p);
    assert(all.skip(p.len() as int) =~= s);
    let w = without_prefixes(s, p);
    if has_prefix(s, p) {
        let rest = s.skip(p.len() as int);
        lemma_all_prefixes_go(p, rest);
        assert(rest.subrange(rest.len() - w.len(), rest.len() as int) =~= s.subrange(
            s.len() - w.len(),
            s.len() as int,
        ));
    } else {
        assert(s.subrange(0, s.len() as int) =~= s);
    }
}

} // verus!
