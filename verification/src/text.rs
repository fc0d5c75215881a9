//! Byte-string utilities shared by the XML extractor, the discovery engine
//! and the registry codec: substring search, byte search, whitespace tests,
//! splitting and joining on a separator byte.

use vstd::prelude::*;
use vstd::string::StringSliceAdditionalSpecFns;

verus! {

/// `needle` occurs in `hay` starting exactly at position `i`.
pub open spec fn is_match_at(hay: Seq<u8>, needle: Seq<u8>, i: int) -> bool {
    0 <= i && i + needle.len() <= hay.len() && hay.subrange(i, i + needle.len()) == needle
}

/// `needle` occurs somewhere in `hay`.
pub open spec fn spec_contains(hay: Seq<u8>, needle: Seq<u8>) -> bool {
    exists|i: int| is_match_at(hay, needle, i)
}

/// Whether `needle` occurs in `hay` starting exactly at position `i`.
pub fn match_at(hay: &[u8], needle: &[u8], i: usize) -> (r: bool)
    requires
        i + needle@.len() <= hay@.len(),
    ensures
        r == is_match_at(hay@, needle@, i as int),
{
    let n = needle.len();
    let h = hay.len();
    let mut j: usize = 0;
    while j < n
        invariant
            j <= n,
            n == needle@.len(),
            h == hay@.len(),
            i + n <= h,
            forall|k: int| 0 <= k < j ==> hay@[i + k] == needle@[k],
        decreases n - j,
    {
        if hay[i + j] != needle[j] {
            assert(hay@.subrange(i as int, i + n) != needle@) by {
                assert(hay@.subrange(i as int, i + n)[j as int] != needle@[j as int]);
            }
            return false;
        }
        j += 1;
    }
    assert(hay@.subrange(i as int, i + n) =~= needle@);
    true
}

/// A match pins down each byte under it.
pub proof fn lemma_match_at_byte(s: Seq<u8>, pat: Seq<u8>, pos: int, i: int)
    requires
        is_match_at(s, pat, pos),
        0 <= i < pat.len(),
    ensures
        s[pos + i] == pat[i],
{
    assert(s.subrange(pos, pos + pat.len())[i] == s[pos + i]);
}

/// A match of a concatenation is a match of each part in turn.
pub proof fn lemma_match_split(s: Seq<u8>, a: Seq<u8>, b: Seq<u8>, pos: int)
    requires
        is_match_at(s, a + b, pos),
    ensures
        is_match_at(s, a, pos),
        is_match_at(s, b, pos + a.len()),
{
    assert forall|i: int| #![trigger a[i]] 0 <= i < a.len() implies s[pos + i] == a[i] by {
        lemma_match_at_byte(s, a + b, pos, i);
        assert((a + b)[i] == a[i]);
    }
    assert(s.subrange(pos, pos + a.len()) =~= a);
    assert forall|i: int| #![trigger b[i]] 0 <= i < b.len() implies s[pos + a.len() + i]
        == b[i] by {
        lemma_match_at_byte(s, a + b, pos, a.len() + i);
        assert((a + b)[a.len() + i] == b[i]);
    }
    assert(s.subrange(pos + a.len(), pos + a.len() + b.len()) =~= b);
}

/// Two adjacent matches make a match of the concatenation.
pub proof fn lemma_match_join(s: Seq<u8>, a: Seq<u8>, b: Seq<u8>, pos: int)
    requires
        is_match_at(s, a, pos),
        is_match_at(s, b, pos + a.len()),
    ensures
        is_match_at(s, a + b, pos),
{
    assert forall|i: int| #![trigger (a + b)[i]] 0 <= i < (a + b).len() implies s[pos + i] == (a
        + b)[i] by {
        if i < a.len() {
            lemma_match_at_byte(s, a, pos, i);
        } else {
            lemma_match_at_byte(s, b, pos + a.len(), i - a.len());
        }
    }
    assert(s.subrange(pos, pos + (a + b).len()) =~= a + b);
}

/// Substring search, the workhorse behind every keyword classification.
pub fn contains_sub(hay: &[u8], needle: &[u8]) -> (r: bool)
    ensures
        r == spec_contains(hay@, needle@),
{
    let n = needle.len();
    let h = hay.len();
    if n > h {
        assert(!spec_contains(hay@, needle@)) by {
            assert(forall|i: int| !is_match_at(hay@, needle@, i));
        }
        return false;
    }
    if n == 0 {
        assert(is_match_at(hay@, needle@, 0)) by {
            assert(hay@.subrange(0, 0) =~= needle@);
        }
        return true;
    }
    let mut i: usize = 0;
    while i <= h - n
        invariant
            1 <= n <= h,
            n == needle@.len(),
            h == hay@.len(),
            i <= h - n + 1,
            forall|k: int| 0 <= k < i ==> !is_match_at(hay@, needle@, k),
        decreases h - n + 1 - i,
    {
        if match_at(hay, needle, i) {
            return true;
        }
        i += 1;
    }
    assert(forall|k: int| is_match_at(hay@, needle@, k) ==> 0 <= k <= h - n);
    false
}

/// Equality of two byte strings.
pub fn bytes_eq(a: &[u8], b: &[u8]) -> (r: bool)
    ensures
        r == (a@ == b@),
{
    if a.len() != b.len() {
        return false;
    }
    let n = a.len();
    let mut j: usize = 0;
    while j < n
        invariant
            j <= n,
            n == a@.len(),
            n == b@.len(),
            forall|k: int| 0 <= k < j ==> a@[k] == b@[k],
        decreases n - j,
    {
        if a[j] != b[j] {
            return false;
        }
        j += 1;
    }
    assert(a@ =~= b@);
    true
}

/// First position `>= from` holding byte `b`, or the length if there is none.
pub open spec fn spec_find(s: Seq<u8>, from: int, b: u8) -> int
    decreases s.len() - from,
    when 0 <= from <= s.len()
{
    if from >= s.len() {
        s.len() as int
    } else if s[from] == b {
        from
    } else {
        spec_find(s, from + 1, b)
    }
}

pub proof fn lemma_find_props(s: Seq<u8>, from: int, b: u8)
    requires
        0 <= from <= s.len(),
    ensures
        from <= spec_find(s, from, b) <= s.len(),
        spec_find(s, from, b) < s.len() ==> s[spec_find(s, from, b)] == b,
        forall|j: int| from <= j < spec_find(s, from, b) ==> s[j] != b,
    decreases s.len() - from,
{
    if from < s.len() && s[from] != b {
        lemma_find_props(s, from + 1, b);
    }
}

/// The first occurrence at or past `at` determines the find result.
pub proof fn lemma_find_is_first(s: Seq<u8>, from: int, b: u8, at: int)
    requires
        0 <= from <= at <= s.len(),
        forall|j: int| from <= j < at ==> s[j] != b,
        at < s.len() ==> s[at] == b,
    ensures
        spec_find(s, from, b) == if at < s.len() { at } else { s.len() as int },
    decreases s.len() - from,
{
    if from < s.len() && s[from] != b {
        lemma_find_is_first(s, from + 1, b, at);
    }
}

/// Searching a suffix is searching the whole string from an offset.
pub proof fn lemma_find_in_subrange(s: Seq<u8>, from: int, b: u8)
    requires
        0 <= from <= s.len(),
    ensures
        spec_find(s.subrange(from, s.len() as int), 0, b) == spec_find(s, from, b) - from,
{
    let tail = s.subrange(from, s.len() as int);
    lemma_find_props(s, from, b);
    let i = spec_find(s, from, b);
    assert(forall|j: int| 0 <= j < i - from ==> tail[j] != b);
    lemma_find_is_first(tail, 0, b, i - from);
}

/// Executable byte search matching `spec_find`.
pub fn find_byte(s: &[u8], from: usize, b: u8) -> (r: usize)
    requires
        from <= s@.len(),
    ensures
        r == spec_find(s@, from as int, b),
        from <= r <= s@.len(),
{
    let n = s.len();
    let mut i: usize = from;
    while i < n
        invariant
            from <= i <= n,
            n == s@.len(),
            forall|j: int| from <= j < i ==> s@[j] != b,
        decreases n - i,
    {
        if s[i] == b {
            proof {
                lemma_find_is_first(s@, from as int, b, i as int);
            }
            return i;
        }
        i += 1;
    }
    proof {
        lemma_find_is_first(s@, from as int, b, n as int);
    }
    n
}

/// XML whitespace.
pub open spec fn is_ws(b: u8) -> bool {
    b == 32 || b == 9 || b == 10 || b == 13
}

/// `s` holds at least one non-whitespace byte.
pub open spec fn has_non_ws(s: Seq<u8>) -> bool {
    exists|i: int| 0 <= i < s.len() && #[trigger] is_ws(s[i]) == false
}

/// Whether a byte is XML whitespace.
pub fn byte_is_ws(b: u8) -> (r: bool)
    ensures
        r == is_ws(b),
{
    b == 32 || b == 9 || b == 10 || b == 13
}

/// Whether `s` holds at least one non-whitespace byte.
pub fn non_ws(s: &[u8]) -> (r: bool)
    ensures
        r == has_non_ws(s@),
{
    let n = s.len();
    let mut i: usize = 0;
    while i < n
        invariant
            i <= n,
            n == s@.len(),
            forall|j: int| 0 <= j < i ==> #[trigger] is_ws(s@[j]) == true,
        decreases n - i,
    {
        if !byte_is_ws(s[i]) {
            return true;
        }
        i += 1;
    }
    false
}

/// An ASCII decimal digit.
pub open spec fn is_digit(b: u8) -> bool {
    48 <= b <= 57
}

/// A non-empty run of decimal digits.
pub open spec fn all_digits(s: Seq<u8>) -> bool {
    s.len() > 0 && forall|i: int| 0 <= i < s.len() ==> is_digit(#[trigger] s[i])
}

/// The number a digit run denotes.
pub open spec fn spec_digits_value(s: Seq<u8>) -> int
    decreases s.len(),
{
    if s.len() == 0 {
        0
    } else {
        spec_digits_value(s.drop_last()) * 10 + (s.last() - 48)
    }
}

/// A digit run denotes a number, never a negative value.
pub proof fn lemma_digits_value_nonneg(s: Seq<u8>)
    requires
        forall|j: int| 0 <= j < s.len() ==> is_digit(#[trigger] s[j]),
    ensures
        spec_digits_value(s) >= 0,
    decreases s.len(),
{
    if s.len() > 0 {
        assert(forall|j: int| 0 <= j < s.drop_last().len() ==> is_digit(#[trigger] s.drop_last()[j]));
        lemma_digits_value_nonneg(s.drop_last());
    }
}

/// A digit run denotes at least what any of its prefixes denotes.
pub proof fn lemma_digits_value_prefix(s: Seq<u8>, i: int)
    requires
        0 <= i <= s.len(),
        forall|j: int| 0 <= j < s.len() ==> is_digit(#[trigger] s[j]),
    ensures
        spec_digits_value(s.subrange(0, i)) <= spec_digits_value(s),
    decreases s.len() - i,
{
    if i < s.len() {
        assert(s.subrange(0, i + 1).drop_last() =~= s.subrange(0, i));
        assert(spec_digits_value(s.subrange(0, i + 1)) == spec_digits_value(s.subrange(0, i)) * 10
            + (s[i] - 48)) by {
            assert(s.subrange(0, i + 1).last() == s[i]);
        }
        assert(forall|j: int|
            0 <= j < s.subrange(0, i).len() ==> is_digit(#[trigger] s.subrange(0, i)[j]));
        lemma_digits_value_nonneg(s.subrange(0, i));
        assert(spec_digits_value(s.subrange(0, i)) <= spec_digits_value(s.subrange(0, i + 1)));
        lemma_digits_value_prefix(s, i + 1);
    } else {
        assert(s.subrange(0, i) =~= s);
    }
}

/// Parse a decimal number, rejecting empty or non-digit input and values
/// that do not fit in a `u32`.
pub fn parse_u32(s: &[u8]) -> (r: Option<u32>)
    ensures
        match r {
            Option::Some(v) => all_digits(s@) && v == spec_digits_value(s@),
            Option::None => !all_digits(s@) || spec_digits_value(s@) > u32::MAX,
        },
{
    let n = s.len();
    if n == 0 {
        return None;
    }
    let mut acc: u64 = 0;
    let mut i: usize = 0;
    while i < n
        invariant
            i <= n,
            n == s@.len(),
            n > 0,
            forall|j: int| 0 <= j < i ==> is_digit(#[trigger] s@[j]),
            acc == spec_digits_value(s@.subrange(0, i as int)),
            acc <= u32::MAX,
        decreases n - i,
    {
        let b = s[i];
        if !(48 <= b && b <= 57) {
            return None;
        }
        let d: u64 = (b - 48) as u64;
        let next: u64 = acc * 10 + d;
        proof {
            assert(s@.subrange(0, i + 1).drop_last() =~= s@.subrange(0, i as int));
            assert(s@.subrange(0, i + 1).last() == s@[i as int]);
        }
        if next > 0xffff_ffffu64 {
            proof {
                if all_digits(s@) {
                    lemma_digits_value_prefix(s@, i + 1);
                    assert(spec_digits_value(s@) > u32::MAX);
                }
            }
            return None;
        }
        acc = next;
        i += 1;
    }
    proof {
        assert(s@.subrange(0, n as int) =~= s@);
    }
    Some(acc as u32)
}

/// Parse a small decimal number that must fit in a `u8`.
pub fn parse_u8_num(s: &[u8]) -> (r: Option<u8>)
    ensures
        match r {
            Option::Some(v) => all_digits(s@) && v == spec_digits_value(s@),
            Option::None => !all_digits(s@) || spec_digits_value(s@) > u8::MAX,
        },
{
    match parse_u32(s) {
        Option::Some(v) => {
            if v <= 255 {
                Some(v as u8)
            } else {
                None
            }
        },
        Option::None => None,
    }
}

/// What a boolean field parses to: exactly `true` or `false`.
pub open spec fn spec_parse_bool(s: Seq<u8>) -> Option<bool> {
    if s == "true".spec_bytes() {
        Some(true)
    } else if s == "false".spec_bytes() {
        Some(false)
    } else {
        None
    }
}

/// Parse a boolean field, matching `spec_parse_bool`.
pub fn parse_bool(s: &[u8]) -> (r: Option<bool>)
    ensures
        r == spec_parse_bool(s@),
{
    if bytes_eq(s, "true".as_bytes()) {
        Some(true)
    } else if bytes_eq(s, "false".as_bytes()) {
        Some(false)
    } else {
        None
    }
}

/// Append `src` to `dst`.
pub fn append_bytes(dst: &mut Vec<u8>, src: &[u8])
    ensures
        final(dst)@ == old(dst)@ + src@,
{
    let n = src.len();
    let mut i: usize = 0;
    while i < n
        invariant
            i <= n,
            n == src@.len(),
            dst@ == old(dst)@ + src@.subrange(0, i as int),
        decreases n - i,
    {
        dst.push(src[i]);
        assert(old(dst)@ + src@.subrange(0, i as int) + seq![src@[i as int]] =~= old(
            dst,
        )@ + src@.subrange(0, i + 1));
        i += 1;
    }
    assert(src@.subrange(0, n as int) =~= src@);
}

/// No occurrence of byte `b` anywhere in `s`.
pub open spec fn no_byte(s: Seq<u8>, b: u8) -> bool {
    forall|j: int| 0 <= j < s.len() ==> s[j] != b
}

/// Split `s` at every occurrence of `b`.  Always returns at least one part;
/// the separators themselves are dropped.
pub open spec fn spec_split(s: Seq<u8>, b: u8) -> Seq<Seq<u8>>
    decreases s.len(),
    via spec_split_decreases
{
    let i = spec_find(s, 0, b);
    if i == s.len() {
        seq![s]
    } else {
        seq![s.subrange(0, i)] + spec_split(s.subrange(i + 1, s.len() as int), b)
    }
}

#[via_fn]
proof fn spec_split_decreases(s: Seq<u8>, b: u8) {
    lemma_find_props(s, 0, b);
}

/// Concatenate `parts` with `b` between consecutive parts.
pub open spec fn spec_join(parts: Seq<Seq<u8>>, b: u8) -> Seq<u8>
    decreases parts.len(),
{
    if parts.len() == 0 {
        Seq::empty()
    } else if parts.len() == 1 {
        parts[0]
    } else {
        parts[0] + seq![b] + spec_join(parts.subrange(1, parts.len() as int), b)
    }
}

/// Splitting undoes joining, as long as no part holds the separator.
pub proof fn lemma_split_join(parts: Seq<Seq<u8>>, b: u8)
    requires
        parts.len() >= 1,
        forall|i: int| 0 <= i < parts.len() ==> no_byte(#[trigger] parts[i], b),
    ensures
        spec_split(spec_join(parts, b), b) == parts,
    decreases parts.len(),
{
    let s = spec_join(parts, b);
    let head = parts[0];
    if parts.len() == 1 {
        lemma_find_is_first(s, 0, b, s.len() as int);
        assert(seq![s] =~~= parts);
    } else {
        let rest = parts.subrange(1, parts.len() as int);
        let tail = spec_join(rest, b);
        assert(s == head + seq![b] + tail);
        assert(forall|j: int| 0 <= j < head.len() ==> s[j] != b);
        assert(s[head.len() as int] == b);
        lemma_find_is_first(s, 0, b, head.len() as int);
        assert(s.subrange(0, head.len() as int) =~= head);
        assert(s.subrange(head.len() as int + 1, s.len() as int) =~= tail);
        lemma_split_join(rest, b);
        assert(seq![head] + spec_split(tail, b) =~~= parts);
    }
}

/// Executable splitting matching `spec_split`.
pub fn split_bytes(s: &[u8], b: u8) -> (r: Vec<Vec<u8>>)
    ensures
        r.deep_view() == spec_split(s@, b),
{
    let n = s.len();
    let mut r: Vec<Vec<u8>> = Vec::new();
    let mut start: usize = 0;
    proof {
        assert(s@.subrange(0, n as int) =~= s@);
        assert(r.deep_view() + spec_split(s@, b) =~~= spec_split(s@, b));
    }
    loop
        invariant_except_break
            start <= n,
            n == s@.len(),
            spec_split(s@, b) == r.deep_view() + spec_split(
                s@.subrange(start as int, n as int),
                b,
            ),
        ensures
            r.deep_view() == spec_split(s@, b),
        decreases n - start,
    {
        let next = find_byte(s, start, b);
        let part = sub_to_vec(s, start, next);
        let ghost old_r = r.deep_view();
        let ghost suffix = s@.subrange(start as int, n as int);
        r.push(part);
        proof {
            lemma_find_in_subrange(s@, start as int, b);
            assert(r.deep_view() =~~= old_r + seq![part@]);
            if next < n {
                assert(suffix.subrange(0, next - start) =~= part@);
                assert(suffix.subrange(next - start + 1, suffix.len() as int) =~= s@.subrange(
                    next + 1,
                    n as int,
                ));
                assert(spec_split(suffix, b) == seq![part@] + spec_split(
                    s@.subrange(next + 1, n as int),
                    b,
                ));
                assert(spec_split(s@, b) =~~= r.deep_view() + spec_split(
                    s@.subrange(next + 1, n as int),
                    b,
                ));
            } else {
                assert(suffix =~= part@);
                assert(spec_split(suffix, b) == seq![part@]);
                assert(spec_split(s@, b) =~~= r.deep_view());
            }
        }
        if next == n {
            break;
        }
        start = next + 1;
    }
    r
}

/// Copy a range of `s` into a fresh vector.
pub fn sub_to_vec(s: &[u8], from: usize, to: usize) -> (r: Vec<u8>)
    requires
        from <= to <= s@.len(),
    ensures
        r@ == s@.subrange(from as int, to as int),
{
    let mut r: Vec<u8> = Vec::new();
    let mut i: usize = from;
    while i < to
        invariant
            from <= i <= to <= s@.len(),
            r@ == s@.subrange(from as int, i as int),
        decreases to - i,
    {
        r.push(s[i]);
        assert(s@.subrange(from as int, i as int) + seq![s@[i as int]] =~= s@.subrange(
            from as int,
            i + 1,
        ));
        i += 1;
    }
    r
}

} // verus!
