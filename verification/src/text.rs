//! Verified character-sequence utilities shared by the diagnostic parser,
//! the classpath indexer and the symbol resolver.

use vstd::prelude::*;

verus! {

/// The whitespace characters this library recognises: the ASCII blanks
/// that compiler output and source text can contain.
pub open spec fn is_blank(c: char) -> bool {
    c == ' ' || c == '\t' || c == '\r' || c == '\n' || c == '\u{0b}' || c == '\u{0c}'
}

/// Executable mirror of [`is_blank`].
pub fn blank_char(c: char) -> (r: bool)
    ensures
        r == is_blank(c),
{
    c == ' ' || c == '\t' || c == '\r' || c == '\n' || c == '\u{0b}' || c == '\u{0c}'
}

/// Collects the characters of a string slice into a vector.
pub fn str_to_chars(s: &str) -> (r: Vec<char>)
    ensures
        r@ == s@,
{
    let n = s.unicode_len();
    let mut r: Vec<char> = Vec::new();
    let mut i: usize = 0;
    while i < n
        invariant
            n == s@.len(),
            i <= n,
            r@ == s@.subrange(0, i as int),
        decreases n - i,
    {
        r.push(s.get_char(i));
        i += 1;
        assert(r@ =~= s@.subrange(0, i as int));
    }
    assert(r@ =~= s@);
    r
}

/// Relies on `String::push`: appends the given character to the end of
/// the string.
#[verifier::external_body]
fn push_char(s: &mut String, c: char)
    ensures
        final(s)@ == old(s)@.push(c),
{
    s.push(c)
}

/// Builds a string from a vector of characters.
pub fn chars_to_string(v: &Vec<char>) -> (r: String)
    ensures
        r@ == v@,
{
    let mut r = String::new();
    let mut i: usize = 0;
    while i < v.len()
        invariant
            i <= v@.len(),
            r@ == v@.subrange(0, i as int),
        decreases v@.len() - i,
    {
        push_char(&mut r, v[i]);
        i += 1;
        assert(r@ =~= v@.subrange(0, i as int));
    }
    assert(r@ =~= v@);
    r
}

/// The pieces of `s` between occurrences of the separator `sep`,
/// in order; a separator at either end contributes an empty piece.
pub open spec fn split_on(s: Seq<char>, sep: char) -> Seq<Seq<char>>
    decreases s.len(),
{
    if s.len() == 0 {
        seq![Seq::<char>::empty()]
    } else if s.last() == sep {
        split_on(s.drop_last(), sep).push(Seq::<char>::empty())
    } else {
        let prev = split_on(s.drop_last(), sep);
        prev.update(prev.len() - 1, prev.last().push(s.last()))
    }
}

/// `split_on` always yields at least one piece.
pub proof fn lemma_split_on_len(s: Seq<char>, sep: char)
    ensures
        split_on(s, sep).len() >= 1,
    decreases s.len(),
{
    if s.len() > 0 {
        lemma_split_on_len(s.drop_last(), sep);
    }
}

/// Splits a character vector on a separator character.
pub fn split_chars(s: &Vec<char>, sep: char) -> (r: Vec<Vec<char>>)
    ensures
        r.deep_view() == split_on(s@, sep),
{
    let n = s.len();
    let mut r: Vec<Vec<char>> = Vec::new();
    let mut cur: Vec<char> = Vec::new();
    let mut i: usize = 0;
    while i < n
        invariant
            n == s@.len(),
            i <= n,
            r.deep_view().push(cur@) =~~= split_on(s@.subrange(0, i as int), sep),
        decreases n - i,
    {
        let ghost pre = s@.subrange(0, i as int);
        let ghost post = s@.subrange(0, i + 1 as int);
        assert(post.drop_last() =~= pre);
        assert(post.last() == s@[i as int]);
        let ghost r_old = r.deep_view();
        let ghost cur_old = cur@;
        if s[i] == sep {
            r.push(cur);
            cur = Vec::new();
            proof {
                assert(r.deep_view() =~~= r_old.push(cur_old));
                assert(r.deep_view().push(cur@) =~~= split_on(post, sep));
            }
        } else {
            cur.push(s[i]);
            proof {
                lemma_split_on_len(pre, sep);
                let prev = split_on(pre, sep);
                assert(r_old.push(cur_old) =~~= prev);
                assert(prev.last() =~= cur_old);
                assert(cur_old.push(s@[i as int]) =~= cur@);
                assert(r.deep_view().push(cur@) =~~= prev.update(
                    prev.len() - 1,
                    prev.last().push(s@[i as int]),
                ));
            }
        }
        i += 1;
    }
    assert(s@.subrange(0, n as int) =~= s@);
    r.push(cur);
    assert(r.deep_view() =~~= split_on(s@, sep));
    r
}

/// Tests whether two character vectors hold the same characters.
pub fn chars_equal(a: &Vec<char>, b: &Vec<char>) -> (r: bool)
    ensures
        r == (a@ == b@),
{
    let n = a.len();
    if n != b.len() {
        return false;
    }
    let mut i: usize = 0;
    while i < n
        invariant
            n == a@.len(),
            n == b@.len(),
            i <= n,
            forall|j: int| 0 <= j < i ==> a@[j] == #[trigger] b@[j],
        decreases n - i,
    {
        if a[i] != b[i] {
            return false;
        }
        i += 1;
    }
    assert(a@ =~= b@);
    true
}

/// Tests whether two string slices hold the same characters.
pub fn str_equal(a: &str, b: &str) -> (r: bool)
    ensures
        r == (a@ == b@),
{
    chars_equal(&str_to_chars(a), &str_to_chars(b))
}

/// Whether every character of `s` is an ASCII decimal digit.
pub open spec fn all_digits(s: Seq<char>) -> bool {
    forall|i: int| 0 <= i < s.len() ==> '0' <= #[trigger] s[i] <= '9'
}

/// The numeric value of a digit sequence, most significant first.
pub open spec fn digits_value(s: Seq<char>) -> int
    decreases s.len(),
{
    if s.len() == 0 {
        0
    } else {
        digits_value(s.drop_last()) * 10 + (s.last() as int - '0' as int)
    }
}

/// The number a line field denotes: the value of its digits when the
/// field is a non-empty all-digit sequence whose value fits in a `u32`,
/// and 0 otherwise.
pub open spec fn field_number(s: Seq<char>) -> u32 {
    if s.len() > 0 && all_digits(s) && digits_value(s) <= u32::MAX {
        digits_value(s) as u32
    } else {
        0
    }
}

/// Parses an unsigned decimal number from a field, yielding 0 whenever
/// the field is not a plain digit string or its value overflows.
pub fn parse_field_number(s: &Vec<char>) -> (r: u32)
    ensures
        r == field_number(s@),
{
    if s.len() == 0 {
        return 0;
    }
    let mut value: u64 = 0;
    let mut i: usize = 0;
    while i < s.len()
        invariant
            i <= s@.len(),
            all_digits(s@.subrange(0, i as int)),
            value == digits_value(s@.subrange(0, i as int)),
            value <= u32::MAX,
        decreases s@.len() - i,
    {
        let c = s[i];
        if c < '0' || c > '9' {
            assert(!all_digits(s@)) by {
                assert(s@[i as int] == c);
            }
            return 0;
        }
        let d: u32 = c as u32 - 48;
        assert(d <= 9) by {
            assert('0' <= c <= '9');
        }
        let next: u64 = value * 10 + d as u64;
        assert(s@.subrange(0, i + 1 as int).drop_last() =~= s@.subrange(0, i as int));
        if next > u32::MAX as u64 {
            assert(digits_value(s@.subrange(0, i + 1 as int)) > u32::MAX);
            assert(digits_value_monotonic_holds(s@, i + 1)) by {
                lemma_digits_value_monotonic(s@, i + 1);
            }
            return 0;
        }
        value = next;
        i += 1;
    }
    assert(s@.subrange(0, i as int) =~= s@);
    value as u32
}

/// Helper assertion target: a prefix with a too-large value forces the
/// whole digit string, if it is all digits, past `u32::MAX` too.
pub open spec fn digits_value_monotonic_holds(s: Seq<char>, k: int) -> bool {
    all_digits(s) && 0 <= k <= s.len() && digits_value(s.subrange(0, k)) > u32::MAX
        ==> digits_value(s) > u32::MAX
}

proof fn lemma_digits_value_prefix_le(s: Seq<char>, k: int)
    requires
        all_digits(s),
        0 <= k <= s.len(),
        digits_value(s.subrange(0, k)) >= 0,
    ensures
        digits_value(s) >= digits_value(s.subrange(0, k)),
    decreases s.len() - k,
{
    if k < s.len() {
        let p = s.subrange(0, k);
        let q = s.subrange(0, k + 1);
        assert(q.drop_last() =~= p);
        assert('0' <= s[k] <= '9');
        assert(digits_value(q) == digits_value(p) * 10 + (s[k] as int - '0' as int));
        assert(digits_value(q) >= digits_value(p)) by (nonlinear_arith)
            requires
                digits_value(q) == digits_value(p) * 10 + (s[k] as int - '0' as int),
                digits_value(p) >= 0,
                s[k] as int - '0' as int >= 0,
        ;
        lemma_digits_value_prefix_le(s, k + 1);
    } else {
        assert(s.subrange(0, k) =~= s);
    }
}

proof fn lemma_digits_value_nonneg(s: Seq<char>)
    requires
        all_digits(s),
    ensures
        digits_value(s) >= 0,
    decreases s.len(),
{
    if s.len() > 0 {
        assert(all_digits(s.drop_last())) by {
            assert(forall|i: int|
                0 <= i < s.len() - 1 ==> s.drop_last()[i] == #[trigger] s[i]);
        }
        lemma_digits_value_nonneg(s.drop_last());
        assert('0' <= s.last() <= '9');
        assert(digits_value(s) >= 0) by (nonlinear_arith)
            requires
                digits_value(s) == digits_value(s.drop_last()) * 10 + (s.last() as int
                    - '0' as int),
                digits_value(s.drop_last()) >= 0,
                s.last() as int - '0' as int >= 0,
        ;
    }
}

proof fn lemma_digits_value_monotonic(s: Seq<char>, k: int)
    ensures
        digits_value_monotonic_holds(s, k),
{
    if all_digits(s) && 0 <= k <= s.len() && digits_value(s.subrange(0, k)) > u32::MAX {
        assert(all_digits(s.subrange(0, k))) by {
            assert(forall|i: int|
                0 <= i < k ==> s.subrange(0, k)[i] == #[trigger] s[i]);
        }
        lemma_digits_value_nonneg(s.subrange(0, k));
        lemma_digits_value_prefix_le(s, k);
    }
}

/// Whether `s` ends with `suffix`.
pub open spec fn ends_with(s: Seq<char>, suffix: Seq<char>) -> bool {
    s.len() >= suffix.len() && s.subrange(s.len() - suffix.len(), s.len() as int) == suffix
}

/// Whether `needle` occurs as a contiguous run inside `s`.
pub open spec fn contains_seq(s: Seq<char>, needle: Seq<char>) -> bool {
    exists|i: int|
        0 <= i <= s.len() - needle.len() && #[trigger] s.subrange(i, i + needle.len()) == needle
}

/// Tests whether one character vector ends with another.
pub fn chars_end_with(s: &Vec<char>, suffix: &Vec<char>) -> (r: bool)
    ensures
        r == ends_with(s@, suffix@),
{
    let n = s.len();
    let m = suffix.len();
    if n < m {
        return false;
    }
    let off: usize = n - m;
    let mut i: usize = 0;
    while i < m
        invariant
            n == s@.len(),
            m == suffix@.len(),
            n >= m,
            off == n - m,
            i <= m,
            forall|j: int| 0 <= j < i ==> s@[off + j] == #[trigger] suffix@[j],
        decreases m - i,
    {
        if s[off + i] != suffix[i] {
            assert(s@.subrange(s@.len() - suffix@.len(), s@.len() as int)[i as int]
                != suffix@[i as int]);
            return false;
        }
        i += 1;
    }
    assert(s@.subrange(s@.len() - suffix@.len(), s@.len() as int) =~= suffix@);
    true
}

/// Tests whether `needle` occurs inside `s`.
pub fn chars_contain(s: &Vec<char>, needle: &Vec<char>) -> (r: bool)
    ensures
        r == contains_seq(s@, needle@),
{
    let n = s.len();
    let m = needle.len();
    if m == 0 {
        assert(contains_seq(s@, needle@)) by {
            assert(s@.subrange(0, 0 + needle@.len() as int) =~= needle@);
        }
        return true;
    }
    if m > n {
        assert(!contains_seq(s@, needle@));
        return false;
    }
    let last: usize = n - m;
    let mut i: usize = 0;
    while i <= last
        invariant
            n == s@.len(),
            m == needle@.len(),
            1 <= m <= n,
            last == n - m,
            i <= last + 1,
            forall|p: int|
                0 <= p < i ==> #[trigger] s@.subrange(p, p + needle@.len()) != needle@,
        decreases last + 1 - i,
    {
        let mut j: usize = 0;
        let mut hit = true;
        while j < m
            invariant
                n == s@.len(),
                m == needle@.len(),
                i + m <= n,
                j <= m,
                hit ==> forall|q: int| 0 <= q < j ==> s@[i + q] == #[trigger] needle@[q],
                !hit ==> s@.subrange(i as int, i + needle@.len()) != needle@,
            decreases m - j,
        {
            if s[i + j] != needle[j] {
                assert(s@.subrange(i as int, i + needle@.len())[j as int] != needle@[j as int]);
                hit = false;
                j = m;
            } else {
                j += 1;
            }
        }
        if hit {
            assert(s@.subrange(i as int, i + needle@.len()) =~= needle@);
            return true;
        }
        i += 1;
    }
    assert(forall|p: int|
        0 <= p <= s@.len() - needle@.len() ==> #[trigger] s@.subrange(p, p + needle@.len())
            != needle@);
    false
}

/// The index of the first occurrence of `c` at or after `from` in `s`.
pub open spec fn find_from(s: Seq<char>, from: int, c: char) -> Option<int>
    decreases s.len() - from,
{
    if from < 0 || from >= s.len() {
        None
    } else if s[from] == c {
        Some(from)
    } else {
        find_from(s, from + 1, c)
    }
}

/// After a scan that saw no `c` strictly before `j`, the first
/// occurrence of `c` at or after `from` is at `j` exactly when `j`
/// holds one, and absent when the scan reached the end.
pub proof fn lemma_find_from_scan(s: Seq<char>, from: int, j: int, c: char)
    requires
        0 <= from <= j <= s.len(),
        forall|k: int| from <= k < j ==> s[k] != c,
    ensures
        j < s.len() && s[j] == c ==> find_from(s, from, c) == Some(j),
        j == s.len() && (forall|k: int| from <= k < s.len() ==> s[k] != c) ==> find_from(
            s,
            from,
            c,
        ) is None,
    decreases s.len() - from,
{
    if from < j || (from < s.len() && s[from] != c) {
        lemma_find_from_scan(s, from + 1, if from < j { j } else { from + 1 }, c);
    }
}

/// The number of consecutive blank characters at the start of `s`.
pub open spec fn leading_blanks(s: Seq<char>) -> int
    decreases s.len(),
{
    if s.len() == 0 || !is_blank(s[0]) {
        0
    } else {
        1 + leading_blanks(s.subrange(1, s.len() as int))
    }
}

/// A scan that stopped at the first non-blank character counted the
/// leading blanks exactly.
pub proof fn lemma_leading_blanks_scan(s: Seq<char>, j: int)
    requires
        0 <= j <= s.len(),
        forall|q: int| 0 <= q < j ==> is_blank(#[trigger] s[q]),
        j == s.len() || !is_blank(s[j]),
    ensures
        leading_blanks(s) == j,
    decreases j,
{
    if j > 0 {
        let rest = s.subrange(1, s.len() as int);
        assert(forall|q: int| 0 <= q < j - 1 ==> is_blank(#[trigger] rest[q])) by {
            assert(forall|q: int| 0 <= q < j - 1 ==> rest[q] == #[trigger] s[q + 1]);
        }
        assert(j - 1 == rest.len() || !is_blank(rest[j - 1]));
        lemma_leading_blanks_scan(rest, j - 1);
    }
}

/// `s` with its leading blanks removed.
pub open spec fn trim_leading(s: Seq<char>) -> Seq<char> {
    s.subrange(leading_blanks(s), s.len() as int)
}

/// Removes the leading blanks from a character vector.
pub fn trim_leading_chars(s: &Vec<char>) -> (r: Vec<char>)
    ensures
        r@ == trim_leading(s@),
{
    let n = s.len();
    let mut j: usize = 0;
    while j < n && blank_char(s[j])
        invariant
            n == s@.len(),
            j <= n,
            forall|q: int| 0 <= q < j ==> is_blank(#[trigger] s@[q]),
        decreases n - j,
    {
        j += 1;
    }
    proof {
        lemma_leading_blanks_scan(s@, j as int);
    }
    let mut r: Vec<char> = Vec::new();
    let mut i: usize = j;
    while i < n
        invariant
            n == s@.len(),
            j <= i <= n,
            r@ == s@.subrange(j as int, i as int),
        decreases n - i,
    {
        r.push(s[i]);
        assert(r@ =~= s@.subrange(j as int, i + 1 as int));
        i += 1;
    }
    assert(r@ =~= s@.subrange(j as int, n as int));
    r
}

} // verus!
