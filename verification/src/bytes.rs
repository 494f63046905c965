//! Verified byte-string utilities: trimming, searching, splitting and
//! comparing the ASCII-oriented byte sequences that hop scripts and HTTP/1.1
//! messages are made of.

use vstd::prelude::*;

verus! {

/// ASCII whitespace, as `u8::is_ascii_whitespace` defines it.
pub open spec fn is_ws(b: u8) -> bool {
    b == (' ' as u8) || b == ('\t' as u8) || b == ('\n' as u8) || b == ('\r' as u8) || b == 0x0c
}

/// Runtime test for [`is_ws`].
pub fn is_ws_byte(b: u8) -> (r: bool)
    ensures
        r == is_ws(b),
{
    b == (' ' as u8) || b == ('\t' as u8) || b == ('\n' as u8) || b == ('\r' as u8) || b == 0x0c
}

/// The sequence with leading ASCII whitespace removed.
pub open spec fn trim_start_spec(s: Seq<u8>) -> Seq<u8>
    decreases s.len(),
{
    if s.len() > 0 && is_ws(s[0]) {
        trim_start_spec(s.drop_first())
    } else {
        s
    }
}

/// The sequence with trailing ASCII whitespace removed.
pub open spec fn trim_end_spec(s: Seq<u8>) -> Seq<u8>
    decreases s.len(),
{
    if s.len() > 0 && is_ws(s.last()) {
        trim_end_spec(s.drop_last())
    } else {
        s
    }
}

/// The sequence with both leading and trailing ASCII whitespace removed.
pub open spec fn trim_spec(s: Seq<u8>) -> Seq<u8> {
    trim_end_spec(trim_start_spec(s))
}

proof fn lemma_trim_start_at(s: Seq<u8>, i: int)
    requires
        0 <= i <= s.len(),
        forall|k: int| 0 <= k < i ==> is_ws(s[k]),
        i < s.len() ==> !is_ws(s[i]),
    ensures
        trim_start_spec(s) == s.subrange(i, s.len() as int),
    decreases i,
{
    if i == 0 {
        assert(s.subrange(0, s.len() as int) =~= s);
    } else {
        lemma_trim_start_at(s.drop_first(), i - 1);
        assert(s.drop_first().subrange(i - 1, s.drop_first().len() as int) =~= s.subrange(
            i,
            s.len() as int,
        ));
    }
}

proof fn lemma_trim_end_at(s: Seq<u8>, j: int)
    requires
        0 <= j <= s.len(),
        forall|k: int| j <= k < s.len() ==> is_ws(s[k]),
        j > 0 ==> !is_ws(s[j - 1]),
    ensures
        trim_end_spec(s) == s.subrange(0, j),
    decreases s.len(),
{
    if j < s.len() {
        lemma_trim_end_at(s.drop_last(), j);
        assert(s.drop_last().subrange(0, j) =~= s.subrange(0, j));
    } else {
        assert(s.subrange(0, s.len() as int) =~= s);
    }
}

/// Where the leading whitespace ends, [`trim_start_spec`] keeps the rest.
pub proof fn lemma_trim_start_at_pub(s: Seq<u8>, i: int)
    requires
        0 <= i <= s.len(),
        forall|k: int| 0 <= k < i ==> is_ws(s[k]),
        i < s.len() ==> !is_ws(s[i]),
    ensures
        trim_start_spec(s) == s.subrange(i, s.len() as int),
{
    lemma_trim_start_at(s, i);
}

/// A copy of `s` with leading and trailing ASCII whitespace removed.
pub fn trim(s: &[u8]) -> (r: &[u8])
    ensures
        r@ == trim_spec(s@),
{
    let mut i: usize = 0;
    while i < s.len() && is_ws_byte(s[i])
        invariant
            0 <= i <= s.len(),
            forall|k: int| 0 <= k < i ==> is_ws(s@[k]),
        decreases s.len() - i,
    {
        i = i + 1;
    }
    let mut j: usize = s.len();
    while j > i && is_ws_byte(s[j - 1])
        invariant
            i <= j <= s.len(),
            forall|k: int| j <= k < s.len() ==> is_ws(s@[k]),
        decreases j,
    {
        j = j - 1;
    }
    proof {
        lemma_trim_start_at(s@, i as int);
        lemma_trim_end_at(s@.subrange(i as int, s@.len() as int), j - i);
        assert(s@.subrange(i as int, s@.len() as int).subrange(0, j - i) =~= s@.subrange(
            i as int,
            j as int,
        ));
    }
    &s[i..j]
}

/// Index of the first occurrence of `b` in `s`, or `s.len()` if absent.
pub open spec fn find_spec(s: Seq<u8>, b: u8) -> int
    decreases s.len(),
{
    if s.len() == 0 {
        0
    } else if s[0] == b {
        0
    } else {
        1 + find_spec(s.drop_first(), b)
    }
}

/// [`find_spec`] points at the first occurrence: everything before it differs
/// from `b`, and it lands on `b` unless `b` is absent altogether.
pub proof fn lemma_find_spec(s: Seq<u8>, b: u8)
    ensures
        0 <= find_spec(s, b) <= s.len(),
        find_spec(s, b) < s.len() ==> s[find_spec(s, b)] == b,
        forall|k: int| 0 <= k < find_spec(s, b) ==> s[k] != b,
    decreases s.len(),
{
    if s.len() > 0 && s[0] != b {
        lemma_find_spec(s.drop_first(), b);
        assert forall|k: int| 0 <= k < find_spec(s, b) implies s[k] != b by {
            if k > 0 {
                assert(s.drop_first()[k - 1] == s[k]);
            }
        }
    }
}

pub proof fn lemma_find_spec_at(s: Seq<u8>, b: u8, i: int)
    requires
        0 <= i <= s.len(),
        forall|k: int| 0 <= k < i ==> s[k] != b,
        i < s.len() ==> s[i] == b,
    ensures
        find_spec(s, b) == i,
    decreases s.len(),
{
    if s.len() > 0 && s[0] != b {
        lemma_find_spec_at(s.drop_first(), b, i - 1);
    }
}

/// Index of the first occurrence of `b` in `s`, or `s.len()` if absent.
pub fn find_byte(s: &[u8], b: u8) -> (r: usize)
    ensures
        r == find_spec(s@, b),
{
    let mut i: usize = 0;
    while i < s.len()
        invariant
            0 <= i <= s.len(),
            forall|k: int| 0 <= k < i ==> s@[k] != b,
        decreases s.len() - i,
    {
        if s[i] == b {
            proof {
                lemma_find_spec_at(s@, b, i as int);
            }
            return i;
        }
        i = i + 1;
    }
    proof {
        lemma_find_spec_at(s@, b, s@.len() as int);
    }
    i
}

/// Byte-for-byte equality of two slices.
pub fn bytes_eq(a: &[u8], b: &[u8]) -> (r: bool)
    ensures
        r == (a@ == b@),
{
    if a.len() != b.len() {
        return false;
    }
    let mut i: usize = 0;
    while i < a.len()
        invariant
            a@.len() == b@.len(),
            0 <= i <= a.len(),
            forall|k: int| 0 <= k < i ==> a@[k] == b@[k],
        decreases a.len() - i,
    {
        if a[i] != b[i] {
            return false;
        }
        i = i + 1;
    }
    proof {
        assert(a@ =~= b@);
    }
    true
}

/// The bytes of an ASCII string slice: byte `i` is character `i` cast down.
pub fn ascii_bytes(s: &str) -> (r: &[u8])
    requires
        s.is_ascii(),
    ensures
        r@.len() == s@.len(),
        forall|i: int| 0 <= i < s@.len() ==> r@[i] == s@[i] as u8,
{
    proof {
        vstd::string::is_ascii_spec_bytes(s);
    }
    s.as_bytes()
}

/// `p` is a prefix of `s`.
pub open spec fn starts_with_spec(s: Seq<u8>, p: Seq<u8>) -> bool {
    p.len() <= s.len() && s.subrange(0, p.len() as int) == p
}

/// Whether `s` begins with the bytes of `p`.
pub fn starts_with(s: &[u8], p: &[u8]) -> (r: bool)
    ensures
        r == starts_with_spec(s@, p@),
{
    if p.len() > s.len() {
        return false;
    }
    bytes_eq(&s[0..p.len()], p)
}

} // verus!

use vstd::prelude::*;

verus! {

/// One trailing carriage return removed, as `str::lines` does at a `\n` end.
pub open spec fn strip_cr_spec(s: Seq<u8>) -> Seq<u8> {
    if s.len() > 0 && s.last() == ('\r' as u8) {
        s.drop_last()
    } else {
        s
    }
}

/// The lines of `s`, split at `\n` with one trailing `\r` stripped from each
/// split line; a final fragment without a newline is kept as it stands.
pub open spec fn lines_spec(s: Seq<u8>) -> Seq<Seq<u8>>
    decreases s.len(),
{
    if s.len() == 0 {
        Seq::empty()
    } else {
        let i = find_spec(s, '\n' as u8);
        if 0 <= i < s.len() {
            seq![strip_cr_spec(s.subrange(0, i))] + lines_spec(s.subrange(i + 1, s.len() as int))
        } else {
            seq![s]
        }
    }
}

fn strip_cr<'a>(s: &'a [u8]) -> (r: &'a [u8])
    ensures
        r@ == strip_cr_spec(s@),
{
    if s.len() > 0 && s[s.len() - 1] == ('\r' as u8) {
        let r = &s[0..s.len() - 1];
        proof {
            assert(r@ =~= s@.drop_last());
        }
        r
    } else {
        s
    }
}

/// The lines of `s`, as `str::lines` yields them.
pub fn lines(s: &[u8]) -> (r: Vec<Vec<u8>>)
    ensures
        r.deep_view() == lines_spec(s@),
{
    let mut r: Vec<Vec<u8>> = Vec::new();
    let mut pos: usize = 0;
    proof {
        assert(s@.subrange(0, s@.len() as int) =~= s@);
        assert(r.deep_view() + lines_spec(s@) =~~= lines_spec(s@));
    }
    while pos < s.len()
        invariant
            0 <= pos <= s@.len(),
            lines_spec(s@) == r.deep_view() + lines_spec(s@.subrange(pos as int, s@.len() as int)),
        decreases s.len() - pos,
    {
        let ghost rest = s@.subrange(pos as int, s@.len() as int);
        let rel = find_byte(&s[pos..s.len()], '\n' as u8);
        proof {
            lemma_find_spec(rest, '\n' as u8);
        }
        if pos + rel < s.len() {
            let line = strip_cr(&s[pos..pos + rel]);
            let ghost old_r = r.deep_view();
            r.push(vstd::slice::slice_to_vec(line));
            proof {
                assert(rest.subrange(0, rel as int) =~= s@.subrange(pos as int, (pos + rel) as int));
                assert(rest.subrange(rel + 1, rest.len() as int) =~= s@.subrange(
                    (pos + rel + 1) as int,
                    s@.len() as int,
                ));
                assert(r.deep_view() =~~= old_r.push(line@));
                assert(r.deep_view() + lines_spec(
                    s@.subrange((pos + rel + 1) as int, s@.len() as int),
                ) =~~= old_r + lines_spec(rest));
            }
            pos = pos + rel + 1;
        } else {
            let line = &s[pos..s.len()];
            let ghost old_r = r.deep_view();
            r.push(vstd::slice::slice_to_vec(line));
            proof {
                assert(line@ =~= rest);
                assert(find_spec(rest, '\n' as u8) == rest.len());
                assert(lines_spec(rest) =~~= seq![rest]);
                assert(r.deep_view() =~~= old_r.push(rest));
                assert(old_r + seq![rest] =~~= r.deep_view());
                assert(r.deep_view() + lines_spec(s@.subrange(s@.len() as int, s@.len() as int))
                    =~~= r.deep_view());
            }
            pos = s.len();
        }
    }
    proof {
        assert(s@.subrange(pos as int, s@.len() as int).len() == 0);
        assert(r.deep_view() + lines_spec(s@.subrange(pos as int, s@.len() as int)) =~~= r.deep_view());
    }
    r
}

/// Split at the first occurrence of `b`: the part before it and the part
/// after it, or nothing when `b` does not occur.
pub open spec fn split_once_spec(s: Seq<u8>, b: u8) -> Option<(Seq<u8>, Seq<u8>)> {
    let i = find_spec(s, b);
    if i < s.len() {
        Some((s.subrange(0, i), s.subrange(i + 1, s.len() as int)))
    } else {
        None
    }
}

/// Split `s` at the first occurrence of `b`.
pub fn split_once<'a>(s: &'a [u8], b: u8) -> (r: Option<(&'a [u8], &'a [u8])>)
    ensures
        match r {
            Some(p) => split_once_spec(s@, b) == Some((p.0@, p.1@)),
            None => split_once_spec(s@, b) is None,
        },
{
    let i = find_byte(s, b);
    proof {
        lemma_find_spec(s@, b);
    }
    if i < s.len() {
        Some((&s[0..i], &s[i + 1..s.len()]))
    } else {
        None
    }
}

/// An ASCII lower-case letter raised to upper case; any other byte unchanged.
pub open spec fn upper_byte(b: u8) -> u8 {
    if ('a' as u8) <= b <= ('z' as u8) {
        (b - 32) as u8
    } else {
        b
    }
}

/// An ASCII upper-case letter lowered; any other byte unchanged.
pub open spec fn lower_byte(b: u8) -> u8 {
    if ('A' as u8) <= b <= ('Z' as u8) {
        (b + 32) as u8
    } else {
        b
    }
}

/// `s` mapped byte by byte through [`upper_byte`].
pub open spec fn to_upper_spec(s: Seq<u8>) -> Seq<u8> {
    s.map_values(|b: u8| upper_byte(b))
}

/// `s` mapped byte by byte through [`lower_byte`].
pub open spec fn to_lower_spec(s: Seq<u8>) -> Seq<u8> {
    s.map_values(|b: u8| lower_byte(b))
}

/// ASCII upper-casing of a byte string.
pub fn to_upper(s: &[u8]) -> (r: Vec<u8>)
    ensures
        r@ == to_upper_spec(s@),
{
    let mut r: Vec<u8> = Vec::new();
    let mut i: usize = 0;
    while i < s.len()
        invariant
            0 <= i <= s@.len(),
            r@.len() == i,
            forall|k: int| 0 <= k < i ==> r@[k] == upper_byte(s@[k]),
        decreases s.len() - i,
    {
        let b = s[i];
        if ('a' as u8) <= b && b <= ('z' as u8) {
            r.push(b - 32);
        } else {
            r.push(b);
        }
        i = i + 1;
    }
    proof {
        assert(r@ =~= to_upper_spec(s@));
    }
    r
}

/// ASCII lower-casing of a byte string.
pub fn to_lower(s: &[u8]) -> (r: Vec<u8>)
    ensures
        r@ == to_lower_spec(s@),
{
    let mut r: Vec<u8> = Vec::new();
    let mut i: usize = 0;
    while i < s.len()
        invariant
            0 <= i <= s@.len(),
            r@.len() == i,
            forall|k: int| 0 <= k < i ==> r@[k] == lower_byte(s@[k]),
        decreases s.len() - i,
    {
        let b = s[i];
        if ('A' as u8) <= b && b <= ('Z' as u8) {
            r.push(b + 32);
        } else {
            r.push(b);
        }
        i = i + 1;
    }
    proof {
        assert(r@ =~= to_lower_spec(s@));
    }
    r
}

/// `p` occurs somewhere in `s` as a contiguous run.
pub open spec fn contains_spec(s: Seq<u8>, p: Seq<u8>) -> bool {
    exists|i: int| 0 <= i && i + p.len() <= s.len() && #[trigger] s.subrange(i, i + p.len() as int) == p
}

/// Substring test: whether the bytes of `p` occur contiguously in `s`.
pub fn contains(s: &[u8], p: &[u8]) -> (r: bool)
    ensures
        r == contains_spec(s@, p@),
{
    if p.len() > s.len() {
        return false;
    }
    if p.len() == 0 {
        proof {
            assert(s@.subrange(0, 0 + p@.len() as int) =~= p@);
            assert(contains_spec(s@, p@));
        }
        return true;
    }
    let mut i: usize = 0;
    while i <= s.len() - p.len()
        invariant
            0 < p@.len() <= s@.len(),
            0 <= i <= s@.len() - p@.len() + 1,
            forall|k: int| 0 <= k < i ==> #[trigger] s@.subrange(k, k + p@.len() as int) != p@,
        decreases s.len() - i,
    {
        if bytes_eq(&s[i..i + p.len()], p) {
            proof {
                assert(s@.subrange(i as int, i + p@.len() as int) == p@);
            }
            return true;
        }
        i = i + 1;
    }
    false
}

/// The number of non-overlapping occurrences of `p` in `s`, counted left to
/// right, as `str::matches` counts them.
pub open spec fn count_spec(s: Seq<u8>, p: Seq<u8>) -> nat
    decreases s.len(),
{
    if p.len() == 0 || s.len() < p.len() {
        0
    } else if s.subrange(0, p.len() as int) == p {
        1 + count_spec(s.subrange(p.len() as int, s.len() as int), p)
    } else {
        count_spec(s.drop_first(), p)
    }
}

/// Count the non-overlapping occurrences of `p` in `s`.
pub fn count_matches(s: &[u8], p: &[u8]) -> (r: usize)
    requires
        p@.len() > 0,
    ensures
        r == count_spec(s@, p@),
{
    if p.len() > s.len() {
        return 0;
    }
    let mut c: usize = 0;
    let mut i: usize = 0;
    proof {
        assert(s@.subrange(0, s@.len() as int) =~= s@);
    }
    while i <= s.len() - p.len()
        invariant
            0 < p@.len() <= s@.len(),
            0 <= i <= s@.len(),
            c <= i,
            count_spec(s@, p@) == c + count_spec(s@.subrange(i as int, s@.len() as int), p@),
        decreases s.len() - i,
    {
        let ghost rest = s@.subrange(i as int, s@.len() as int);
        if bytes_eq(&s[i..i + p.len()], p) {
            proof {
                assert(rest.subrange(0, p@.len() as int) =~= s@.subrange(
                    i as int,
                    i + p@.len() as int,
                ));
                assert(rest.subrange(p@.len() as int, rest.len() as int) =~= s@.subrange(
                    i + p@.len(),
                    s@.len() as int,
                ));
            }
            c = c + 1;
            i = i + p.len();
        } else {
            proof {
                assert(rest.subrange(0, p@.len() as int) =~= s@.subrange(
                    i as int,
                    i + p@.len() as int,
                ));
                assert(rest.drop_first() =~= s@.subrange(i + 1, s@.len() as int));
            }
            i = i + 1;
        }
    }
    proof {
        assert(count_spec(s@.subrange(i as int, s@.len() as int), p@) == 0);
    }
    c
}

} // verus!

verus! {

/// An ASCII decimal digit.
pub open spec fn is_digit(b: u8) -> bool {
    ('0' as u8) <= b <= ('9' as u8)
}

/// Every byte is a decimal digit and there is at least one.
pub open spec fn all_digits(s: Seq<u8>) -> bool {
    s.len() > 0 && forall|i: int| 0 <= i < s.len() ==> is_digit(#[trigger] s[i])
}

/// The number written by a string of decimal digits.
pub open spec fn digits_val(s: Seq<u8>) -> nat
    decreases s.len(),
{
    if s.len() == 0 {
        0
    } else {
        digits_val(s.drop_last()) * 10 + (s.last() - ('0' as u8)) as nat
    }
}

/// One leading `+` stripped, as Rust's unsigned integer parsing allows.
pub open spec fn strip_plus(s: Seq<u8>) -> Seq<u8> {
    if s.len() > 0 && s[0] == ('+' as u8) {
        s.drop_first()
    } else {
        s
    }
}

/// The value of an unsigned decimal numeral with an optional leading `+`;
/// nothing when a byte is not a digit, no digit is present, or the value
/// exceeds `u64::MAX`.
pub open spec fn parse_u64_spec(s: Seq<u8>) -> Option<u64> {
    let d = strip_plus(s);
    if all_digits(d) && digits_val(d) <= u64::MAX {
        Some(digits_val(d) as u64)
    } else {
        None
    }
}

/// Parse an unsigned decimal numeral.
pub fn parse_u64_dec(s: &[u8]) -> (r: Option<u64>)
    ensures
        r == parse_u64_spec(s@),
{
    let start: usize = if s.len() > 0 && s[0] == ('+' as u8) {
        1
    } else {
        0
    };
    let ghost d = strip_plus(s@);
    proof {
        assert(d =~= s@.subrange(start as int, s@.len() as int));
    }
    if s.len() == start {
        return None;
    }
    let mut acc: u64 = 0;
    let mut big = false;
    let mut i: usize = start;
    while i < s.len()
        invariant
            start <= i <= s@.len(),
            start <= 1,
            d == strip_plus(s@),
            d == s@.subrange(start as int, s@.len() as int),
            forall|k: int| start <= k < i ==> is_digit(#[trigger] s@[k]),
            !big ==> acc == digits_val(s@.subrange(start as int, i as int)),
            big ==> digits_val(s@.subrange(start as int, i as int)) > u64::MAX,
        decreases s.len() - i,
    {
        let b = s[i];
        if b < ('0' as u8) || b > ('9' as u8) {
            proof {
                assert(d[i - start] == s@[i as int]);
                assert(!is_digit(d[i - start]));
            }
            return None;
        }
        let ghost pre = s@.subrange(start as int, i as int);
        let ghost pre2 = s@.subrange(start as int, i + 1);
        proof {
            assert(pre2.drop_last() =~= pre);
            assert(digits_val(pre2) == digits_val(pre) * 10 + (b - ('0' as u8)) as nat);
        }
        if !big {
            let digit = b - ('0' as u8);
            let wide: u128 = acc as u128 * 10 + digit as u128;
            if wide > u64::MAX as u128 {
                big = true;
            } else {
                acc = wide as u64;
            }
        }
        i = i + 1;
    }
    proof {
        assert(s@.subrange(start as int, s@.len() as int) =~= d);
        assert forall|k: int| 0 <= k < d.len() implies is_digit(#[trigger] d[k]) by {
            assert(d[k] == s@[k + start as int]);
        }
        assert(all_digits(d));
    }
    if big {
        None
    } else {
        Some(acc)
    }
}

/// An ASCII hexadecimal digit, either case.
pub open spec fn is_hex_digit(b: u8) -> bool {
    is_digit(b) || ('a' as u8) <= b <= ('f' as u8) || ('A' as u8) <= b <= ('F' as u8)
}

/// Every byte is a hexadecimal digit and there is at least one.
pub open spec fn all_hex_digits(s: Seq<u8>) -> bool {
    s.len() > 0 && forall|i: int| 0 <= i < s.len() ==> is_hex_digit(#[trigger] s[i])
}

/// The value of one hexadecimal digit.
pub open spec fn hex_val(b: u8) -> nat {
    if is_digit(b) {
        (b - ('0' as u8)) as nat
    } else if ('a' as u8) <= b <= ('f' as u8) {
        (b - ('a' as u8) + 10) as nat
    } else if ('A' as u8) <= b <= ('F' as u8) {
        (b - ('A' as u8) + 10) as nat
    } else {
        0
    }
}

/// The number written by a string of hexadecimal digits.
pub open spec fn hex_digits_val(s: Seq<u8>) -> nat
    decreases s.len(),
{
    if s.len() == 0 {
        0
    } else {
        hex_digits_val(s.drop_last()) * 16 + hex_val(s.last())
    }
}

/// The value of an unsigned hexadecimal numeral with an optional leading `+`;
/// nothing when a byte is not a hexadecimal digit, no digit is present, or the
/// value exceeds `u64::MAX`.
pub open spec fn parse_hex_u64_spec(s: Seq<u8>) -> Option<u64> {
    let d = strip_plus(s);
    if all_hex_digits(d) && hex_digits_val(d) <= u64::MAX {
        Some(hex_digits_val(d) as u64)
    } else {
        None
    }
}

fn hex_digit_val(b: u8) -> (r: Option<u8>)
    ensures
        r is Some <==> is_hex_digit(b),
        r is Some ==> r->0 == hex_val(b),
{
    if b >= ('0' as u8) && b <= ('9' as u8) {
        Some(b - ('0' as u8))
    } else if b >= ('a' as u8) && b <= ('f' as u8) {
        Some(b - ('a' as u8) + 10)
    } else if b >= ('A' as u8) && b <= ('F' as u8) {
        Some(b - ('A' as u8) + 10)
    } else {
        None
    }
}

/// Parse an unsigned hexadecimal numeral, as chunk-size lines carry one.
pub fn parse_u64_hex(s: &[u8]) -> (r: Option<u64>)
    ensures
        r == parse_hex_u64_spec(s@),
{
    let start: usize = if s.len() > 0 && s[0] == ('+' as u8) {
        1
    } else {
        0
    };
    let ghost d = strip_plus(s@);
    proof {
        assert(d =~= s@.subrange(start as int, s@.len() as int));
    }
    if s.len() == start {
        return None;
    }
    let mut acc: u64 = 0;
    let mut big = false;
    let mut i: usize = start;
    while i < s.len()
        invariant
            start <= i <= s@.len(),
            start <= 1,
            d == strip_plus(s@),
            d == s@.subrange(start as int, s@.len() as int),
            forall|k: int| start <= k < i ==> is_hex_digit(#[trigger] s@[k]),
            !big ==> acc == hex_digits_val(s@.subrange(start as int, i as int)),
            big ==> hex_digits_val(s@.subrange(start as int, i as int)) > u64::MAX,
        decreases s.len() - i,
    {
        let b = s[i];
        let dv = match hex_digit_val(b) {
            Some(v) => v,
            None => {
                proof {
                    assert(d[i - start] == s@[i as int]);
                    assert(!is_hex_digit(d[i - start]));
                }
                return None;
            },
        };
        let ghost pre = s@.subrange(start as int, i as int);
        let ghost pre2 = s@.subrange(start as int, i + 1);
        proof {
            assert(pre2.drop_last() =~= pre);
            assert(hex_digits_val(pre2) == hex_digits_val(pre) * 16 + hex_val(b));
        }
        if !big {
            let wide: u128 = acc as u128 * 16 + dv as u128;
            if wide > u64::MAX as u128 {
                big = true;
            } else {
                acc = wide as u64;
            }
        }
        i = i + 1;
    }
    proof {
        assert(s@.subrange(start as int, s@.len() as int) =~= d);
        assert forall|k: int| 0 <= k < d.len() implies is_hex_digit(#[trigger] d[k]) by {
            assert(d[k] == s@[k + start as int]);
        }
        assert(all_hex_digits(d));
    }
    if big {
        None
    } else {
        Some(acc)
    }
}

} // verus!

verus! {

/// Index of the first occurrence of `p` in `s` as a contiguous run, or
/// `s.len()` when `p` is absent.
pub open spec fn find_sub_spec(s: Seq<u8>, p: Seq<u8>) -> int
    decreases s.len(),
{
    if p.len() == 0 {
        0
    } else if s.len() < p.len() {
        s.len() as int
    } else if s.subrange(0, p.len() as int) == p {
        0
    } else {
        1 + find_sub_spec(s.drop_first(), p)
    }
}

/// [`find_sub_spec`] points at the first occurrence: it stays within bounds,
/// lands on a match unless it equals `s.len()`, and no earlier position
/// matches.
pub proof fn lemma_find_sub_spec(s: Seq<u8>, p: Seq<u8>)
    requires
        p.len() > 0,
    ensures
        0 <= find_sub_spec(s, p) <= s.len(),
        find_sub_spec(s, p) < s.len() ==> find_sub_spec(s, p) + p.len() <= s.len() && s.subrange(
            find_sub_spec(s, p),
            find_sub_spec(s, p) + p.len(),
        ) == p,
        forall|k: int|
            0 <= k < find_sub_spec(s, p) && k + p.len() <= s.len() ==> #[trigger] s.subrange(
                k,
                k + p.len(),
            ) != p,
    decreases s.len(),
{
    if s.len() < p.len() {
    } else if s.subrange(0, p.len() as int) == p {
    } else {
        lemma_find_sub_spec(s.drop_first(), p);
        let r = find_sub_spec(s, p);
        if r < s.len() {
            assert(s.drop_first().subrange(r - 1, r - 1 + p.len()) =~= s.subrange(r, r + p.len()));
        }
        assert forall|k: int| 0 <= k < r && k + p.len() <= s.len() implies #[trigger] s.subrange(
            k,
            k + p.len(),
        ) != p by {
            if k > 0 {
                assert(s.drop_first().subrange(k - 1, k - 1 + p.len()) =~= s.subrange(
                    k,
                    k + p.len(),
                ));
            }
        }
    }
}

proof fn lemma_find_sub_at(s: Seq<u8>, p: Seq<u8>, i: int)
    requires
        p.len() > 0,
        0 <= i <= s.len(),
        forall|k: int|
            0 <= k < i && k + p.len() <= s.len() ==> #[trigger] s.subrange(k, k + p.len()) != p,
        i < s.len() ==> i + p.len() <= s.len() && s.subrange(i, i + p.len()) == p,
    ensures
        find_sub_spec(s, p) == i,
    decreases s.len(),
{
    if s.len() < p.len() {
    } else if s.subrange(0, p.len() as int) == p {
        assert(0 + p.len() <= s.len());
    } else {
        assert forall|k: int|
            0 <= k < i - 1 && k + p.len() <= s.drop_first().len() implies #[trigger] s.drop_first()
            .subrange(k, k + p.len()) != p by {
            assert(s.drop_first().subrange(k, k + p.len()) =~= s.subrange(k + 1, k + 1 + p.len()));
        }
        if i < s.len() {
            assert(s.drop_first().subrange(i - 1, i - 1 + p.len()) =~= s.subrange(i, i + p.len()));
        }
        lemma_find_sub_at(s.drop_first(), p, i - 1);
    }
}

/// Index of the first occurrence of `p` in `s`, or `s.len()` when absent.
pub fn find_sub(s: &[u8], p: &[u8]) -> (r: usize)
    requires
        p@.len() > 0,
    ensures
        r == find_sub_spec(s@, p@),
{
    if p.len() > s.len() {
        proof {
            lemma_find_sub_at(s@, p@, s@.len() as int);
        }
        return s.len();
    }
    let mut i: usize = 0;
    while i <= s.len() - p.len()
        invariant
            0 < p@.len() <= s@.len(),
            0 <= i <= s@.len(),
            forall|k: int|
                0 <= k < i && k + p@.len() <= s@.len() ==> #[trigger] s@.subrange(k, k + p@.len())
                    != p@,
        decreases s.len() - i,
    {
        if bytes_eq(&s[i..i + p.len()], p) {
            proof {
                assert(s@.subrange(i as int, i + p@.len()) == p@);
                lemma_find_sub_at(s@, p@, i as int);
            }
            return i;
        }
        i = i + 1;
    }
    proof {
        lemma_find_sub_at(s@, p@, s@.len() as int);
    }
    s.len()
}

} // verus!

verus! {

/// Index of the first ASCII whitespace byte, or `s.len()` if none.
pub open spec fn find_ws_spec(s: Seq<u8>) -> int
    decreases s.len(),
{
    if s.len() == 0 {
        0
    } else if is_ws(s[0]) {
        0
    } else {
        1 + find_ws_spec(s.drop_first())
    }
}

/// [`find_ws_spec`] points at the first whitespace byte.
pub proof fn lemma_find_ws_spec(s: Seq<u8>)
    ensures
        0 <= find_ws_spec(s) <= s.len(),
        find_ws_spec(s) < s.len() ==> is_ws(s[find_ws_spec(s)]),
        forall|k: int| 0 <= k < find_ws_spec(s) ==> !is_ws(s[k]),
    decreases s.len(),
{
    if s.len() > 0 && !is_ws(s[0]) {
        lemma_find_ws_spec(s.drop_first());
        assert forall|k: int| 0 <= k < find_ws_spec(s) implies !is_ws(s[k]) by {
            if k > 0 {
                assert(s.drop_first()[k - 1] == s[k]);
            }
        }
    }
}

pub proof fn lemma_find_ws_at(s: Seq<u8>, i: int)
    requires
        0 <= i <= s.len(),
        forall|k: int| 0 <= k < i ==> !is_ws(s[k]),
        i < s.len() ==> is_ws(s[i]),
    ensures
        find_ws_spec(s) == i,
    decreases s.len(),
{
    if s.len() > 0 && !is_ws(s[0]) {
        lemma_find_ws_at(s.drop_first(), i - 1);
    }
}

/// Index of the first ASCII whitespace byte at or after `from`.
fn scan_to_ws(s: &[u8], from: usize) -> (r: usize)
    requires
        from <= s@.len(),
    ensures
        from <= r <= s@.len(),
        r - from == find_ws_spec(s@.subrange(from as int, s@.len() as int)),
    decreases s@.len() - from,
{
    let mut i: usize = from;
    while i < s.len() && !is_ws_byte(s[i])
        invariant
            from <= i <= s@.len(),
            forall|k: int| from <= k < i ==> !is_ws(s@[k]),
        decreases s.len() - i,
    {
        i = i + 1;
    }
    proof {
        let rest = s@.subrange(from as int, s@.len() as int);
        lemma_find_ws_at(rest, i - from);
    }
    i
}

/// Index of the first non-whitespace byte at or after `from`.
fn scan_past_ws(s: &[u8], from: usize) -> (r: usize)
    requires
        from <= s@.len(),
    ensures
        from <= r <= s@.len(),
        trim_start_spec(s@.subrange(from as int, s@.len() as int)) == s@.subrange(
            r as int,
            s@.len() as int,
        ),
    decreases s@.len() - from,
{
    let mut i: usize = from;
    while i < s.len() && is_ws_byte(s[i])
        invariant
            from <= i <= s@.len(),
            forall|k: int| from <= k < i ==> is_ws(s@[k]),
        decreases s.len() - i,
    {
        i = i + 1;
    }
    proof {
        let rest = s@.subrange(from as int, s@.len() as int);
        lemma_trim_start_at(rest, i - from);
        assert(rest.subrange(i - from, rest.len() as int) =~= s@.subrange(
            i as int,
            s@.len() as int,
        ));
    }
    i
}

/// The first whitespace-separated token of `s`: what stands between the
/// leading whitespace and the next whitespace byte.
pub open spec fn first_token_spec(s: Seq<u8>) -> Seq<u8> {
    let t1 = trim_start_spec(s);
    t1.subrange(0, find_ws_spec(t1))
}

/// The second whitespace-separated token of `s`, if there are at least two.
pub open spec fn second_token_spec(s: Seq<u8>) -> Option<Seq<u8>> {
    let t1 = trim_start_spec(s);
    let a = find_ws_spec(t1);
    let rest = t1.subrange(a, t1.len() as int);
    let t2 = trim_start_spec(rest);
    let b = find_ws_spec(t2);
    if b > 0 {
        Some(t2.subrange(0, b))
    } else {
        None
    }
}

/// The second whitespace-separated token of `s`, as
/// `split_whitespace().nth(1)` finds it.
pub fn second_token<'a>(s: &'a [u8]) -> (r: Option<&'a [u8]>)
    ensures
        match r {
            Some(t) => second_token_spec(s@) == Some(t@),
            None => second_token_spec(s@) is None,
        },
{
    let i = scan_past_ws(s, 0);
    proof {
        assert(s@.subrange(0, s@.len() as int) =~= s@);
    }
    let j = scan_to_ws(s, i);
    let ghost t1 = trim_start_spec(s@);
    proof {
        lemma_find_ws_spec(t1);
        assert(t1.subrange(find_ws_spec(t1), t1.len() as int) =~= s@.subrange(
            j as int,
            s@.len() as int,
        ));
    }
    let k = scan_past_ws(s, j);
    let l = scan_to_ws(s, k);
    let ghost t2 = trim_start_spec(s@.subrange(j as int, s@.len() as int));
    proof {
        lemma_find_ws_spec(t2);
        assert(t2 =~= s@.subrange(k as int, s@.len() as int));
    }
    if l > k {
        let t = &s[k..l];
        proof {
            assert(t@ =~= t2.subrange(0, l - k));
        }
        Some(t)
    } else {
        None
    }
}

/// The lines joined back together, each followed by one CRLF.
pub open spec fn join_crlf_spec(ls: Seq<Seq<u8>>) -> Seq<u8>
    decreases ls.len(),
{
    if ls.len() == 0 {
        Seq::empty()
    } else {
        ls[0] + m_crlf_seq() + join_crlf_spec(ls.drop_first())
    }
}

/// The bytes of one CRLF, stated here so joining does not depend on the
/// marker module.
pub open spec fn m_crlf_seq() -> Seq<u8> {
    seq![('\r' as u8), ('\n' as u8)]
}

/// The decimal numeral of `n`, most significant digit first.
pub open spec fn dec_str_spec(n: nat) -> Seq<u8>
    decreases n,
{
    if n < 10 {
        seq![(('0' as u8) + n) as u8]
    } else {
        dec_str_spec(n / 10).push((('0' as u8) + n % 10) as u8)
    }
}

/// Render `n` in decimal.
pub fn u64_to_dec(n: u64) -> (r: Vec<u8>)
    ensures
        r@ == dec_str_spec(n as nat),
    decreases n,
{
    if n < 10 {
        let mut v: Vec<u8> = Vec::new();
        v.push(('0' as u8) + (n as u8));
        proof {
            assert(v@ =~= dec_str_spec(n as nat));
        }
        v
    } else {
        let mut v = u64_to_dec(n / 10);
        v.push(('0' as u8) + ((n % 10) as u8));
        proof {
            assert(v@ =~= dec_str_spec(n as nat));
        }
        v
    }
}

} // verus!
