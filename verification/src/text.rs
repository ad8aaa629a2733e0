//! Byte-level text primitives.
//!
//! All recognisers in this crate are stated over the UTF-8 bytes of their
//! input (`Seq<u8>`). This module defines the vocabulary those statements are
//! written in (whitespace, trimming, searching, decimal numbers) together with
//! executable counterparts on `&str` and `&[u8]` that are proved to compute
//! exactly the same thing.

use vstd::prelude::*;
use vstd::string::*;
use vstd::utf8::*;

verus! {

/// The UTF-8 bytes of a string slice.
pub open spec fn bytes(s: &str) -> Seq<u8> {
    s.spec_bytes()
}

/// The UTF-8 bytes of an optional string slice.
pub open spec fn opt_bytes(o: Option<&str>) -> Option<Seq<u8>> {
    match o {
        Some(s) => Some(bytes(s)),
        None => None,
    }
}

/// ASCII whitespace: space, tab, line feed, vertical tab, form feed, carriage return.
pub open spec fn is_space(c: u8) -> bool {
    c == 0x20 || (0x09 <= c && c <= 0x0d)
}

/// ASCII decimal digit.
pub open spec fn is_digit(c: u8) -> bool {
    0x30 <= c && c <= 0x39
}

/// Index of the first byte at or after `i` that is not whitespace (the length if there is none).
pub open spec fn lead(s: Seq<u8>, i: int) -> int
    decreases s.len() - i,
{
    if 0 <= i < s.len() && is_space(s[i]) {
        lead(s, i + 1)
    } else {
        i
    }
}

/// End of `s.take(j)` once its trailing whitespace is dropped.
pub open spec fn trail(s: Seq<u8>, j: int) -> int
    decreases j,
{
    if 0 < j <= s.len() && is_space(s[j - 1]) {
        trail(s, j - 1)
    } else {
        j
    }
}

/// `s` without its leading whitespace.
pub open spec fn trimmed_start(s: Seq<u8>) -> Seq<u8> {
    s.skip(lead(s, 0))
}

/// `s` without its trailing whitespace.
pub open spec fn trimmed_end(s: Seq<u8>) -> Seq<u8> {
    s.take(trail(s, s.len() as int))
}

/// `s` without leading and trailing whitespace.
pub open spec fn trimmed(s: Seq<u8>) -> Seq<u8> {
    trimmed_end(trimmed_start(s))
}

/// True when `s` holds nothing but whitespace.
pub open spec fn blank(s: Seq<u8>) -> bool {
    forall|i: int| 0 <= i < s.len() ==> is_space(#[trigger] s[i])
}

/// Index of the first whitespace byte at or after `i` (the length if there is none).
pub open spec fn word_end(s: Seq<u8>, i: int) -> int
    decreases s.len() - i,
{
    if 0 <= i < s.len() && !is_space(s[i]) {
        word_end(s, i + 1)
    } else {
        i
    }
}

/// Index of the first byte equal to `c` at or after `i` (the length if there is none).
pub open spec fn seek(s: Seq<u8>, c: u8, i: int) -> int
    decreases s.len() - i,
{
    if 0 <= i < s.len() && s[i] != c {
        seek(s, c, i + 1)
    } else {
        i
    }
}

/// One past the index of the last byte equal to `c` before `j` (zero if there is none).
pub open spec fn seek_back(s: Seq<u8>, c: u8, j: int) -> int
    decreases j,
{
    if 0 < j <= s.len() && s[j - 1] != c {
        seek_back(s, c, j - 1)
    } else {
        j
    }
}

/// Index of the first occurrence of the byte `c` in `s`.
pub open spec fn first_of(s: Seq<u8>, c: u8) -> Option<int> {
    let k = seek(s, c, 0);
    if k < s.len() {
        Some(k)
    } else {
        None
    }
}

/// Index of the last occurrence of the byte `c` in `s`.
pub open spec fn last_of(s: Seq<u8>, c: u8) -> Option<int> {
    let k = seek_back(s, c, s.len() as int);
    if k > 0 {
        Some(k - 1)
    } else {
        None
    }
}

/// True when `s` begins with `p`.
pub open spec fn prefixed(s: Seq<u8>, p: Seq<u8>) -> bool {
    p.len() <= s.len() && s.subrange(0, p.len() as int) == p
}

/// True when `p` occurs in `s` starting at index `i`.
pub open spec fn occurs_at(s: Seq<u8>, p: Seq<u8>, i: int) -> bool {
    0 <= i && i + p.len() <= s.len() && s.subrange(i, i + p.len()) == p
}

/// True when `p` occurs in `s` somewhere between the offsets `from` and `to`.
pub open spec fn stands_in(p: Seq<u8>, s: Seq<u8>, from: int, to: int) -> bool {
    exists|k: int| from <= k && k + p.len() <= to && #[trigger] occurs_at(s, p, k)
}

/// Index of the first occurrence of `p` at or after `i`; a value past
/// `s.len() - p.len()` when there is none.
pub open spec fn search(s: Seq<u8>, p: Seq<u8>, i: int) -> int
    decreases s.len() - i,
{
    if 0 <= i < s.len() && i <= s.len() - p.len() && !occurs_at(s, p, i) {
        search(s, p, i + 1)
    } else {
        i
    }
}

/// Index of the first occurrence of `p` in `s`.
pub open spec fn first_match(s: Seq<u8>, p: Seq<u8>) -> Option<int> {
    let k = search(s, p, 0);
    if k + p.len() <= s.len() {
        Some(k)
    } else {
        None
    }
}

/// True when `p` occurs somewhere in `s`.
pub open spec fn contains(s: Seq<u8>, p: Seq<u8>) -> bool {
    exists|i: int| occurs_at(s, p, i)
}

/// `s` split around the first occurrence of the byte `c`, which is dropped.
pub open spec fn split_first(s: Seq<u8>, c: u8) -> Option<(Seq<u8>, Seq<u8>)> {
    match first_of(s, c) {
        Some(k) => Some((s.take(k), s.skip(k + 1))),
        None => None,
    }
}

/// `s` split around the last occurrence of the byte `c`, which is dropped.
pub open spec fn split_last(s: Seq<u8>, c: u8) -> Option<(Seq<u8>, Seq<u8>)> {
    match last_of(s, c) {
        Some(k) => Some((s.take(k), s.skip(k + 1))),
        None => None,
    }
}

/// The UTF-8 bytes of an optional pair of string slices.
pub open spec fn pair_bytes(o: Option<(&str, &str)>) -> Option<(Seq<u8>, Seq<u8>)> {
    match o {
        Some((a, b)) => Some((bytes(a), bytes(b))),
        None => None,
    }
}

/// True when every byte of `s` is a decimal digit.
pub open spec fn all_digits(s: Seq<u8>) -> bool {
    forall|i: int| 0 <= i < s.len() ==> is_digit(#[trigger] s[i])
}

/// True when `s` is written like a number: digits, and at least one.
pub open spec fn is_numeric(s: Seq<u8>) -> bool {
    s.len() > 0 && all_digits(s)
}

/// The number that the digit string `s` writes in base ten.
pub open spec fn digits_value(s: Seq<u8>) -> nat
    decreases s.len(),
{
    if s.len() == 0 {
        0
    } else {
        digits_value(s.drop_last()) * 10 + (s.last() - 0x30) as nat
    }
}

/// The positive number written by `s`, when `s` is a non-empty digit string
/// whose value is at least one and fits a `usize`.
pub open spec fn decimal(s: Seq<u8>) -> Option<nat> {
    if is_numeric(s) && 1 <= digits_value(s) <= usize::MAX {
        Some(digits_value(s))
    } else {
        None
    }
}

/// `lead` passes over whitespace only and stops at the first byte that is none.
pub proof fn lemma_lead(s: Seq<u8>, i: int)
    requires
        0 <= i <= s.len(),
    ensures
        i <= lead(s, i) <= s.len(),
        forall|j: int| i <= j < lead(s, i) ==> is_space(#[trigger] s[j]),
        lead(s, i) < s.len() ==> !is_space(s[lead(s, i)]),
    decreases s.len() - i,
{
    if i < s.len() && is_space(s[i]) {
        lemma_lead(s, i + 1);
    }
}

/// `trail` passes over whitespace only and stops after the last byte that is none.
pub proof fn lemma_trail(s: Seq<u8>, j: int)
    requires
        0 <= j <= s.len(),
    ensures
        0 <= trail(s, j) <= j,
        forall|i: int| trail(s, j) <= i < j ==> is_space(#[trigger] s[i]),
        trail(s, j) > 0 ==> !is_space(s[trail(s, j) - 1]),
    decreases j,
{
    if j > 0 && is_space(s[j - 1]) {
        lemma_trail(s, j - 1);
    }
}

/// What trimming leaves is a part of the text that neither starts nor ends
/// with whitespace, and what it drops is whitespace.
pub proof fn lemma_trimmed(s: Seq<u8>)
    ensures
        trimmed(s).len() > 0 ==> !is_space(trimmed(s).first()) && !is_space(trimmed(s).last()),
        exists|a: int, b: int|
            0 <= a <= b <= s.len() && trimmed(s) == #[trigger] s.subrange(a, b) && blank(
                s.take(a),
            ) && blank(s.skip(b)),
{
    let a = lead(s, 0);
    lemma_lead(s, 0);
    let t = trimmed_start(s);
    let n = trail(t, t.len() as int);
    lemma_trail(t, t.len() as int);
    assert(trimmed(s) =~= s.subrange(a, a + n));
    assert(blank(s.skip(a + n))) by {
        assert forall|i: int| 0 <= i < s.skip(a + n).len() implies is_space(
            #[trigger] s.skip(a + n)[i],
        ) by {
            assert(s.skip(a + n)[i] == t[n + i]);
        }
    }
    if trimmed(s).len() > 0 {
        assert(trimmed(s).first() == s[a]);
        assert(trimmed(s).last() == t[n - 1]);
    }
}

/// `word_end` passes over bytes that are no whitespace and stops at the
/// first whitespace.
pub proof fn lemma_word_end(s: Seq<u8>, i: int)
    requires
        0 <= i <= s.len(),
    ensures
        i <= word_end(s, i) <= s.len(),
        forall|j: int| i <= j < word_end(s, i) ==> !is_space(#[trigger] s[j]),
        word_end(s, i) < s.len() ==> is_space(s[word_end(s, i)]),
    decreases s.len() - i,
{
    if i < s.len() && !is_space(s[i]) {
        lemma_word_end(s, i + 1);
    }
}

/// `first_of` finds a byte `c`, and there is none before it; it finds
/// nothing only if `s` holds no `c`.
pub proof fn lemma_first_of(s: Seq<u8>, c: u8)
    ensures
        match first_of(s, c) {
            Some(k) => 0 <= k < s.len() && s[k] == c && forall|j: int|
                0 <= j < k ==> #[trigger] s[j] != c,
            None => forall|j: int| 0 <= j < s.len() ==> #[trigger] s[j] != c,
        },
{
    lemma_seek(s, c, 0);
}

/// `seek` passes over bytes other than `c` and stops at the first `c`.
pub proof fn lemma_seek(s: Seq<u8>, c: u8, i: int)
    requires
        0 <= i <= s.len(),
    ensures
        i <= seek(s, c, i) <= s.len(),
        forall|j: int| i <= j < seek(s, c, i) ==> #[trigger] s[j] != c,
        seek(s, c, i) < s.len() ==> s[seek(s, c, i)] == c,
    decreases s.len() - i,
{
    if i < s.len() && s[i] != c {
        lemma_seek(s, c, i + 1);
    }
}

/// `last_of` finds a byte `c`, and there is none after it; it finds nothing
/// only if `s` holds no `c`.
pub proof fn lemma_last_of(s: Seq<u8>, c: u8)
    ensures
        match last_of(s, c) {
            Some(k) => 0 <= k < s.len() && s[k] == c && forall|j: int|
                k < j < s.len() ==> #[trigger] s[j] != c,
            None => forall|j: int| 0 <= j < s.len() ==> #[trigger] s[j] != c,
        },
{
    lemma_seek_back(s, c, s.len() as int);
}

/// `seek_back` passes over bytes other than `c` and stops after the last `c`.
pub proof fn lemma_seek_back(s: Seq<u8>, c: u8, j: int)
    requires
        0 <= j <= s.len(),
    ensures
        0 <= seek_back(s, c, j) <= j,
        forall|i: int| seek_back(s, c, j) <= i < j ==> #[trigger] s[i] != c,
        seek_back(s, c, j) > 0 ==> s[seek_back(s, c, j) - 1] == c,
    decreases j,
{
    if j > 0 && s[j - 1] != c {
        lemma_seek_back(s, c, j - 1);
    }
}

/// `search` passes over offsets at which `p` does not occur and stops at
/// the first one at which it does.
pub proof fn lemma_search(s: Seq<u8>, p: Seq<u8>, i: int)
    requires
        0 <= i,
    ensures
        i <= search(s, p, i),
        forall|j: int| i <= j < search(s, p, i) ==> !occurs_at(s, p, j),
        search(s, p, i) + p.len() <= s.len() ==> occurs_at(s, p, search(s, p, i)),
    decreases s.len() - i,
{
    if i < s.len() && i <= s.len() - p.len() && !occurs_at(s, p, i) {
        lemma_search(s, p, i + 1);
    } else if i + p.len() <= s.len() && !occurs_at(s, p, i) {
        assert(s.subrange(i, i + p.len()) =~= p);
    }
}

/// `first_match` finds an occurrence of `p`, and there is none before it;
/// it finds nothing only if `p` does not occur in `s`.
pub proof fn lemma_first_match(s: Seq<u8>, p: Seq<u8>)
    ensures
        match first_match(s, p) {
            Some(k) => occurs_at(s, p, k) && forall|j: int| 0 <= j < k ==> !occurs_at(s, p, j),
            None => !contains(s, p),
        },
        first_match(s, p) is Some <==> contains(s, p),
{
    lemma_search(s, p, 0);
}

/// A position at which a string may be split without tearing a character:
/// either end of the string, or next to an ASCII byte.
pub open spec fn clean_cut(b: Seq<u8>, i: int) -> bool {
    0 <= i <= b.len() && (i == 0 || i == b.len() || b[i - 1] < 0x80 || b[i] < 0x80)
}

/// A clean cut of well-formed UTF-8 lies on a character boundary.
pub proof fn lemma_clean_cut_is_boundary(b: Seq<u8>, i: int)
    requires
        valid_utf8(b),
        clean_cut(b, i),
    ensures
        is_char_boundary(b, i),
{
    if i == 0 || i == b.len() {
        is_char_boundary_start_end_of_seq(b);
    } else if b[i] < 0x80 {
        is_char_boundary_iff_not_is_continuation_byte(b, i);
    } else {
        // The byte before `i` is a character of its own, so that what
        // starts at `i` is well-formed UTF-8 and starts with a leading byte.
        is_char_boundary_iff_not_is_continuation_byte(b, i - 1);
        valid_utf8_split(b, i - 1);
        let tail = b.subrange(i - 1, b.len() as int);
        assert(tail[0] == b[i - 1]);
        assert(valid_first_scalar(tail));
        let rest = pop_first_scalar(tail);
        assert(valid_utf8(rest));
        assert(rest =~= b.subrange(i, b.len() as int));
        assert(rest[0] == b[i]);
        assert(valid_first_scalar(rest));
        is_char_boundary_iff_not_is_continuation_byte(b, i);
    }
}

/// Exec counterpart of [`is_space`].
pub fn space(c: u8) -> (r: bool)
    ensures
        r == is_space(c),
{
    c == 0x20 || (0x09 <= c && c <= 0x0d)
}

/// Exec counterpart of [`is_digit`].
pub fn digit(c: u8) -> (r: bool)
    ensures
        r == is_digit(c),
{
    0x30 <= c && c <= 0x39
}

/// The part of `s` between the byte offsets `from` and `to`.
pub(crate) fn slice<'a>(s: &'a str, from: usize, to: usize) -> (r: &'a str)
    requires
        from <= to <= bytes(s).len(),
        clean_cut(bytes(s), from as int),
        clean_cut(bytes(s), to as int),
    ensures
        bytes(r) == bytes(s).subrange(from as int, to as int),
{
    proof {
        encode_utf8_valid_utf8(s@);
        lemma_clean_cut_is_boundary(bytes(s), from as int);
        lemma_clean_cut_is_boundary(bytes(s), to as int);
    }
    let (head, _) = s.split_at(to);
    proof {
        encode_utf8_valid_utf8(head@);
        assert(bytes(head) == bytes(s).subrange(0, to as int));
        if 0 < from < to {
            assert(bytes(head)[from - 1] == bytes(s)[from - 1]);
            assert(bytes(head)[from as int] == bytes(s)[from as int]);
        }
        assert(clean_cut(bytes(head), from as int));
        lemma_clean_cut_is_boundary(bytes(head), from as int);
    }
    let (_, tail) = head.split_at(from);
    assert(bytes(tail) =~= bytes(s).subrange(from as int, to as int));
    tail
}

/// `s` without its leading whitespace.
pub fn trim_start<'a>(s: &'a str) -> (r: &'a str)
    ensures
        bytes(r) == trimmed_start(bytes(s)),
{
    let b = s.as_bytes();
    let n = b.len();
    let mut i: usize = 0;
    while i < n && space(b[i])
        invariant
            i <= n,
            n == b@.len(),
            lead(b@, 0) == lead(b@, i as int),
            i == 0 || is_space(b@[i - 1]),
        decreases n - i,
    {
        i += 1;
    }
    slice(s, i, n)
}

/// `s` without its trailing whitespace.
pub fn trim_end<'a>(s: &'a str) -> (r: &'a str)
    ensures
        bytes(r) == trimmed_end(bytes(s)),
{
    let b = s.as_bytes();
    let n = b.len();
    let mut j: usize = n;
    while j > 0 && space(b[j - 1])
        invariant
            j <= n,
            n == b@.len(),
            trail(b@, n as int) == trail(b@, j as int),
            j == n || is_space(b@[j as int]),
        decreases j,
    {
        j -= 1;
    }
    slice(s, 0, j)
}

/// `s` without leading and trailing whitespace.
pub fn trim<'a>(s: &'a str) -> (r: &'a str)
    ensures
        bytes(r) == trimmed(bytes(s)),
{
    trim_end(trim_start(s))
}

/// True when `s` holds nothing but whitespace.
pub fn is_blank(s: &[u8]) -> (r: bool)
    ensures
        r == blank(s@),
{
    let n = s.len();
    let mut i: usize = 0;
    while i < n && space(s[i])
        invariant
            i <= n,
            n == s@.len(),
            forall|j: int| 0 <= j < i ==> is_space(#[trigger] s@[j]),
        decreases n - i,
    {
        i += 1;
    }
    i == n
}

/// Offset of the first whitespace byte of `s` at or after `from`.
pub(crate) fn find_space(s: &[u8], from: usize) -> (r: usize)
    requires
        from <= s@.len(),
    ensures
        r == word_end(s@, from as int),
        from <= r <= s@.len(),
        r < s@.len() ==> is_space(s@[r as int]),
{
    let n = s.len();
    let mut i: usize = from;
    while i < n && !space(s[i])
        invariant
            from <= i <= n,
            n == s@.len(),
            word_end(s@, from as int) == word_end(s@, i as int),
        decreases n - i,
    {
        i += 1;
    }
    i
}

/// Offset of the first byte `c` in `s`.
pub fn find_byte(s: &[u8], c: u8) -> (r: Option<usize>)
    ensures
        r matches Some(k) ==> first_of(s@, c) == Some(k as int) && k < s@.len() && s@[k as int]
            == c,
        r is None ==> first_of(s@, c) is None,
{
    let n = s.len();
    let mut i: usize = 0;
    while i < n && s[i] != c
        invariant
            i <= n,
            n == s@.len(),
            seek(s@, c, 0) == seek(s@, c, i as int),
        decreases n - i,
    {
        i += 1;
    }
    if i < n {
        Some(i)
    } else {
        None
    }
}

/// Offset of the last byte `c` in `s`.
pub fn rfind_byte(s: &[u8], c: u8) -> (r: Option<usize>)
    ensures
        r matches Some(k) ==> last_of(s@, c) == Some(k as int) && k < s@.len() && s@[k as int]
            == c,
        r is None ==> last_of(s@, c) is None,
{
    let n = s.len();
    let mut j: usize = n;
    while j > 0 && s[j - 1] != c
        invariant
            j <= n,
            n == s@.len(),
            seek_back(s@, c, n as int) == seek_back(s@, c, j as int),
        decreases j,
    {
        j -= 1;
    }
    if j > 0 {
        Some(j - 1)
    } else {
        None
    }
}

/// True when `p` occurs in `s` at offset `i`.
pub fn matches_at(s: &[u8], p: &[u8], i: usize) -> (r: bool)
    ensures
        r == occurs_at(s@, p@, i as int),
{
    let n = s.len();
    let m = p.len();
    if i > n || m > n - i {
        return false;
    }
    let mut k: usize = 0;
    while k < m
        invariant
            k <= m,
            m == p@.len(),
            n == s@.len(),
            i + m <= n,
            s@.subrange(i as int, i + k) == p@.subrange(0, k as int),
        decreases m - k,
    {
        if s[i + k] != p[k] {
            assert(s@.subrange(i as int, i + m)[k as int] != p@[k as int]);
            return false;
        }
        assert(s@.subrange(i as int, i + k + 1) =~= s@.subrange(i as int, i + k).push(
            s@[i + k],
        ));
        assert(p@.subrange(0, k + 1) =~= p@.subrange(0, k as int).push(p@[k as int]));
        k += 1;
    }
    assert(p@.subrange(0, m as int) =~= p@);
    true
}

/// True when `s` begins with `p`.
pub fn starts_with(s: &[u8], p: &[u8]) -> (r: bool)
    ensures
        r == prefixed(s@, p@),
{
    matches_at(s, p, 0)
}

/// Offset of the first occurrence of `p` in `s`.
pub fn find_str(s: &[u8], p: &[u8]) -> (r: Option<usize>)
    ensures
        r matches Some(k) ==> first_match(s@, p@) == Some(k as int) && occurs_at(
            s@,
            p@,
            k as int,
        ),
        r is None ==> first_match(s@, p@) is None,
{
    let n = s.len();
    let m = p.len();
    if m > n {
        return None;
    }
    let last = n - m;
    let mut i: usize = 0;
    loop
        invariant
            m == p@.len(),
            n == s@.len(),
            last == n - m,
            i <= last,
            search(s@, p@, 0) == search(s@, p@, i as int),
        decreases last - i,
    {
        if matches_at(s, p, i) {
            return Some(i);
        }
        if i == last {
            assert(m > 0) by {
                if m == 0 {
                    assert(s@.subrange(i as int, i as int) =~= p@);
                }
            }
            assert(search(s@, p@, i + 1) == i + 1);
            return None;
        }
        i += 1;
    }
}

/// True when `p` occurs somewhere in `s`.
pub fn includes(s: &[u8], p: &[u8]) -> (r: bool)
    ensures
        r == contains(s@, p@),
{
    proof {
        lemma_first_match(s@, p@);
    }
    find_str(s, p).is_some()
}

/// Splits `s` around the first occurrence of the ASCII byte `c`.
pub(crate) fn split_once<'a>(s: &'a str, c: u8) -> (r: Option<(&'a str, &'a str)>)
    requires
        c < 0x80,
    ensures
        pair_bytes(r) == split_first(bytes(s), c),
{
    match find_byte(s.as_bytes(), c) {
        Some(k) => {
            let n = s.as_bytes().len();
            Some((slice(s, 0, k), slice(s, k + 1, n)))
        },
        None => None,
    }
}

/// Splits `s` around the last occurrence of the ASCII byte `c`.
pub(crate) fn rsplit_once<'a>(s: &'a str, c: u8) -> (r: Option<(&'a str, &'a str)>)
    requires
        c < 0x80,
    ensures
        pair_bytes(r) == split_last(bytes(s), c),
{
    match rfind_byte(s.as_bytes(), c) {
        Some(k) => {
            let n = s.as_bytes().len();
            Some((slice(s, 0, k), slice(s, k + 1, n)))
        },
        None => None,
    }
}

/// The part of `s` after an occurrence of the ASCII text `p` at offset `k`.
pub(crate) fn skip_past<'a>(s: &'a str, p: &str, k: usize) -> (r: &'a str)
    requires
        occurs_at(bytes(s), bytes(p), k as int),
        bytes(p).len() > 0,
        is_ascii(p),
    ensures
        bytes(r) == bytes(s).skip(k + bytes(p).len()),
{
    let n = s.as_bytes().len();
    let m = p.as_bytes().len();
    proof {
        is_ascii_spec_bytes(p);
        assert(bytes(s).subrange(k as int, k + m)[m - 1] == bytes(p)[m - 1]);
        assert(bytes(p)[m - 1] < 0x80);
    }
    slice(s, k + m, n)
}

/// Appending a digit multiplies the value by ten and adds the digit.
pub proof fn lemma_digits_push(s: Seq<u8>, d: u8)
    ensures
        digits_value(s.push(d)) == digits_value(s) * 10 + (d - 0x30) as nat,
{
    assert(s.push(d).drop_last() =~= s);
}

/// A digit string is worth at least as much as any of its prefixes.
pub proof fn lemma_digits_prefix(s: Seq<u8>, k: int)
    requires
        0 <= k <= s.len(),
        all_digits(s),
    ensures
        digits_value(s.take(k)) <= digits_value(s),
    decreases s.len() - k,
{
    if k < s.len() {
        lemma_digits_prefix(s, k + 1);
        assert(s.take(k + 1) =~= s.take(k).push(s[k]));
        lemma_digits_push(s.take(k), s[k]);
    } else {
        assert(s.take(k) =~= s);
    }
}

/// Tells whether `s` is written like a number.
pub fn numeric(s: &[u8]) -> (r: bool)
    ensures
        r == is_numeric(s@),
{
    let n = s.len();
    let mut i: usize = 0;
    while i < n
        invariant
            i <= n,
            n == s@.len(),
            all_digits(s@.take(i as int)),
        decreases n - i,
    {
        if !digit(s[i]) {
            return false;
        }
        assert(s@.take(i + 1) =~= s@.take(i as int).push(s@[i as int]));
        i += 1;
    }
    assert(s@.take(n as int) =~= s@);
    n > 0
}

/// Reads a positive decimal number.
pub fn parse_number(s: &[u8]) -> (r: Option<usize>)
    ensures
        r matches Some(n) ==> decimal(s@) == Some(n as nat),
        r is None ==> decimal(s@) is None,
{
    let n = s.len();
    if n == 0 {
        return None;
    }
    let mut value: usize = 0;
    let mut i: usize = 0;
    while i < n
        invariant
            i <= n,
            n == s@.len(),
            all_digits(s@.take(i as int)),
            value == digits_value(s@.take(i as int)),
        decreases n - i,
    {
        let c = s[i];
        if !digit(c) {
            return None;
        }
        proof {
            assert(s@.take(i + 1) =~= s@.take(i as int).push(c));
            lemma_digits_push(s@.take(i as int), c);
        }
        let d: usize = (c - 0x30) as usize;
        let grown = match value.checked_mul(10) {
            Some(t) => t.checked_add(d),
            None => None,
        };
        match grown {
            Some(v) => {
                value = v;
            },
            None => {
                proof {
                    if all_digits(s@) {
                        lemma_digits_prefix(s@, i + 1);
                    }
                }
                return None;
            },
        }
        i += 1;
    }
    proof {
        assert(s@.take(n as int) =~= s@);
    }
    if value >= 1 {
        Some(value)
    } else {
        None
    }
}

} // verus!
