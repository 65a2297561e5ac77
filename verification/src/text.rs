//! Character-level helpers shared by the string-processing modules.
//!
//! All verified string work in this crate happens on `Vec<char>`; the two
//! trusted items below move between `str`/`String` and character vectors.
use vstd::prelude::*;

verus! {

/// Relies on `str::chars`: the iterator yields exactly the characters of
/// the string, in order.
#[verifier::external_body]
pub(crate) fn str_chars(s: &str) -> (r: Vec<char>)
    ensures
        r@ == s@,
{
    s.chars().collect()
}

/// Relies on `String::from_iter` over `char`: the resulting string holds
/// exactly the given characters, in order.
#[verifier::external_body]
pub(crate) fn string_from_chars(v: &Vec<char>) -> (r: String)
    ensures
        r@ == v@,
{
    v.iter().collect()
}

/// True for the ASCII decimal digits.
pub open spec fn spec_is_digit(c: char) -> bool {
    '0' <= c <= '9'
}

/// The digit character for a value below ten.
pub open spec fn digit_char(d: int) -> char {
    ((48 + d) as u8) as char
}

/// The numeric value of an ASCII decimal digit.
pub open spec fn digit_val(c: char) -> int {
    c as int - 48
}

/// The ASCII whitespace characters that trimming removes.
pub open spec fn spec_is_space(c: char) -> bool {
    c == ' ' || c == '\t' || c == '\n' || c == '\r' || c == '\u{b}' || c == '\u{c}'
}

pub fn is_space(c: char) -> (r: bool)
    ensures
        r == spec_is_space(c),
{
    c == ' ' || c == '\t' || c == '\n' || c == '\r' || c == '\u{b}' || c == '\u{c}'
}

/// Drop leading and trailing ASCII whitespace.
pub open spec fn spec_trim(s: Seq<char>) -> Seq<char>
    decreases s.len(),
{
    if s.len() > 0 && spec_is_space(s.first()) {
        spec_trim(s.drop_first())
    } else if s.len() > 0 && spec_is_space(s.last()) {
        spec_trim(s.drop_last())
    } else {
        s
    }
}

/// Drop trailing ASCII whitespace only.
pub open spec fn spec_trim_end(s: Seq<char>) -> Seq<char>
    decreases s.len(),
{
    if s.len() > 0 && spec_is_space(s.last()) {
        spec_trim_end(s.drop_last())
    } else {
        s
    }
}

proof fn lemma_trim_subrange(s: Seq<char>, i: int, j: int)
    requires
        0 <= i <= j <= s.len(),
        forall|k: int| 0 <= k < i ==> spec_is_space(s[k]),
        forall|k: int| j <= k < s.len() ==> spec_is_space(s[k]),
        i < j ==> !spec_is_space(s[i]) && !spec_is_space(s[j - 1]),
    ensures
        spec_trim(s) == s.subrange(i, j),
    decreases s.len(),
{
    if s.len() == 0 {
        assert(s.subrange(i, j) =~= s);
    } else if spec_is_space(s.first()) {
        if i == j {
            lemma_trim_subrange(s.drop_first(), 0, 0);
            assert(s.drop_first().subrange(0, 0) =~= s.subrange(i, j));
        } else {
            lemma_trim_subrange(s.drop_first(), i - 1, j - 1);
            assert(s.drop_first().subrange(i - 1, j - 1) =~= s.subrange(i, j));
        }
    } else if spec_is_space(s.last()) {
        lemma_trim_subrange(s.drop_last(), i, j);
        assert(s.drop_last().subrange(i, j) =~= s.subrange(i, j));
    } else {
        assert(s.subrange(0, s.len() as int) =~= s);
    }
}

proof fn lemma_trim_end_subrange(s: Seq<char>, j: int)
    requires
        0 <= j <= s.len(),
        forall|k: int| j <= k < s.len() ==> spec_is_space(s[k]),
        j > 0 ==> !spec_is_space(s[j - 1]),
    ensures
        spec_trim_end(s) == s.subrange(0, j),
    decreases s.len(),
{
    if j < s.len() {
        lemma_trim_end_subrange(s.drop_last(), j);
        assert(s.drop_last().subrange(0, j) =~= s.subrange(0, j));
    } else {
        assert(s.subrange(0, s.len() as int) =~= s);
    }
}

/// Remove leading and trailing ASCII whitespace.
pub fn trim_chars(s: &Vec<char>) -> (r: Vec<char>)
    ensures
        r@ == spec_trim(s@),
{
    let mut i: usize = 0;
    while i < s.len() && is_space(s[i])
        invariant
            i <= s@.len(),
            forall|k: int| 0 <= k < i ==> spec_is_space(s@[k]),
        decreases s@.len() - i,
    {
        i += 1;
    }
    let mut j: usize = s.len();
    while j > i && is_space(s[j - 1])
        invariant
            i <= j <= s@.len(),
            forall|k: int| j <= k < s@.len() ==> spec_is_space(s@[k]),
        decreases j,
    {
        j -= 1;
    }
    let mut out: Vec<char> = Vec::new();
    let mut k: usize = i;
    while k < j
        invariant
            i <= k <= j <= s@.len(),
            out@ == s@.subrange(i as int, k as int),
        decreases j - k,
    {
        out.push(s[k]);
        proof {
            assert(s@.subrange(i as int, k + 1) == s@.subrange(i as int, k as int).push(
                s@[k as int],
            ));
        }
        k += 1;
    }
    proof {
        lemma_trim_subrange(s@, i as int, j as int);
    }
    out
}

/// Remove trailing ASCII whitespace.
pub fn trim_end_chars(s: &Vec<char>) -> (r: Vec<char>)
    ensures
        r@ == spec_trim_end(s@),
{
    let mut j: usize = s.len();
    while j > 0 && is_space(s[j - 1])
        invariant
            j <= s@.len(),
            forall|k: int| j <= k < s@.len() ==> spec_is_space(s@[k]),
        decreases j,
    {
        j -= 1;
    }
    let mut out: Vec<char> = Vec::new();
    let mut k: usize = 0;
    while k < j
        invariant
            k <= j <= s@.len(),
            out@ == s@.subrange(0, k as int),
        decreases j - k,
    {
        out.push(s[k]);
        proof {
            assert(s@.subrange(0, k + 1) == s@.subrange(0, k as int).push(s@[k as int]));
        }
        k += 1;
    }
    proof {
        lemma_trim_end_subrange(s@, j as int);
    }
    out
}

/// `pat` occurs in `s` starting at position `k`.
pub open spec fn match_at(s: Seq<char>, pat: Seq<char>, k: int) -> bool {
    0 <= k && k + pat.len() <= s.len() && s.subrange(k, k + pat.len() as int) == pat
}

/// `s` begins with `pat`.
pub open spec fn spec_starts_with(s: Seq<char>, pat: Seq<char>) -> bool {
    match_at(s, pat, 0)
}

/// `pat` occurs somewhere in `s`.
pub open spec fn spec_contains(s: Seq<char>, pat: Seq<char>) -> bool {
    exists|k: int| match_at(s, pat, k)
}

/// Whether `pat` occurs in `s` at position `k`.
pub fn check_match_at(s: &Vec<char>, pat: &Vec<char>, k: usize) -> (r: bool)
    ensures
        r == match_at(s@, pat@, k as int),
{
    if k > s.len() || pat.len() > s.len() - k {
        return false;
    }
    let n: usize = s.len();
    let mut i: usize = 0;
    while i < pat.len()
        invariant
            i <= pat@.len(),
            n == s@.len(),
            k + pat@.len() <= s@.len(),
            forall|j: int| 0 <= j < i ==> s@[k + j] == pat@[j],
        decreases pat@.len() - i,
    {
        assert(k + i < n);
        if s[k + i] != pat[i] {
            proof {
                assert(s@.subrange(k as int, k + pat@.len()) != pat@) by {
                    assert(s@.subrange(k as int, k + pat@.len())[i as int] != pat@[i as int]);
                }
            }
            return false;
        }
        i += 1;
    }
    proof {
        assert(s@.subrange(k as int, k + pat@.len()) =~= pat@);
    }
    true
}

/// Whether `s` begins with `pat`.
pub fn starts_with_chars(s: &Vec<char>, pat: &Vec<char>) -> (r: bool)
    ensures
        r == spec_starts_with(s@, pat@),
{
    check_match_at(s, pat, 0)
}

/// The first occurrence of `pat` in `s`, if any.
pub fn find_chars(s: &Vec<char>, pat: &Vec<char>) -> (r: Option<usize>)
    ensures
        match r {
            Some(k) => match_at(s@, pat@, k as int) && forall|j: int|
                0 <= j < k ==> !match_at(s@, pat@, j),
            None => forall|j: int| !match_at(s@, pat@, j),
        },
{
    if pat.len() > s.len() {
        return None;
    }
    if pat.len() == 0 {
        proof {
            assert(s@.subrange(0, 0) =~= pat@);
        }
        return Some(0);
    }
    let n: usize = s.len();
    let last: usize = n - pat.len();
    let mut k: usize = 0;
    while k <= last
        invariant
            1 <= pat@.len() <= s@.len(),
            n == s@.len(),
            last == s@.len() - pat@.len(),
            k <= last + 1,
            forall|j: int| 0 <= j < k ==> !match_at(s@, pat@, j),
        decreases last + 1 - k,
    {
        if check_match_at(s, pat, k) {
            return Some(k);
        }
        assert(k < n);
        k += 1;
    }
    None
}

/// The first occurrence of `pat` in `s` at or after `from`, if any.
pub fn find_chars_from(s: &Vec<char>, pat: &Vec<char>, from: usize) -> (r: Option<usize>)
    ensures
        match r {
            Some(k) => from <= k && match_at(s@, pat@, k as int) && forall|j: int|
                from <= j < k ==> !match_at(s@, pat@, j),
            None => forall|j: int| from <= j ==> !match_at(s@, pat@, j),
        },
{
    if pat.len() > s.len() || from > s.len() - pat.len() {
        return None;
    }
    if pat.len() == 0 {
        proof {
            assert(s@.subrange(from as int, from as int) =~= pat@);
        }
        return Some(from);
    }
    let n: usize = s.len();
    let last: usize = n - pat.len();
    let mut k: usize = from;
    while k <= last
        invariant
            1 <= pat@.len() <= s@.len(),
            n == s@.len(),
            last == s@.len() - pat@.len(),
            from <= k <= last + 1,
            forall|j: int| from <= j < k ==> !match_at(s@, pat@, j),
        decreases last + 1 - k,
    {
        if check_match_at(s, pat, k) {
            return Some(k);
        }
        assert(k < n);
        k += 1;
    }
    None
}

/// The index of the first occurrence of `c` in `s`, or the length of `s` if
/// there is none.
pub open spec fn first_at(s: Seq<char>, c: char) -> int
    decreases s.len(),
{
    if s.len() == 0 {
        0
    } else if s.first() == c {
        0
    } else {
        1 + first_at(s.drop_first(), c)
    }
}

/// `first_at` is the least position of `c`.
pub proof fn lemma_first_at(s: Seq<char>, c: char, j: int)
    requires
        0 <= j <= s.len(),
        forall|k: int| 0 <= k < j ==> s[k] != c,
        j < s.len() ==> s[j] == c,
    ensures
        first_at(s, c) == j,
    decreases s.len(),
{
    if s.len() > 0 && j > 0 {
        lemma_first_at(s.drop_first(), c, j - 1);
    }
}

/// The index of the first occurrence of `pat` in `s`, or the length of `s`
/// if there is none.
pub open spec fn spec_find(s: Seq<char>, pat: Seq<char>) -> int
    decreases s.len(),
{
    if match_at(s, pat, 0) {
        0
    } else if s.len() == 0 {
        0
    } else {
        1 + spec_find(s.drop_first(), pat)
    }
}

/// Matches shift by one position when the first character is dropped.
proof fn lemma_match_shift(s: Seq<char>, pat: Seq<char>, k: int)
    requires
        s.len() > 0,
        0 <= k,
    ensures
        match_at(s.drop_first(), pat, k) == match_at(s, pat, k + 1),
{
    if k + 1 + pat.len() <= s.len() {
        assert(s.drop_first().subrange(k, k + pat.len() as int) =~= s.subrange(
            k + 1,
            k + 1 + pat.len() as int,
        ));
    }
}

/// `spec_find` is the least match position, or the length when nothing
/// matches.
pub proof fn lemma_spec_find(s: Seq<char>, pat: Seq<char>, j: int)
    requires
        0 <= j <= s.len(),
        forall|k: int| 0 <= k < j ==> !match_at(s, pat, k),
        j < s.len() ==> match_at(s, pat, j) || (forall|k: int| !match_at(s, pat, k)),
        j == s.len() ==> forall|k: int| !match_at(s, pat, k),
    ensures
        (j < s.len() && match_at(s, pat, j)) ==> spec_find(s, pat) == j,
        (forall|k: int| !match_at(s, pat, k)) ==> spec_find(s, pat) >= s.len(),
    decreases s.len(),
{
    if s.len() == 0 {
    } else if match_at(s, pat, 0) {
    } else {
        assert forall|k: int| 0 <= k < j - 1 implies !match_at(s.drop_first(), pat, k) by {
            lemma_match_shift(s, pat, k);
        }
        if j < s.len() && match_at(s, pat, j) {
            lemma_match_shift(s, pat, j - 1);
            lemma_spec_find(s.drop_first(), pat, j - 1);
        } else {
            assert forall|k: int| true implies !match_at(s.drop_first(), pat, k) by {
                if k >= 0 {
                    lemma_match_shift(s, pat, k);
                }
            }
            lemma_spec_find(s.drop_first(), pat, s.len() - 1);
        }
    }
}

/// A line with one trailing carriage return removed, as the line splitter
/// hands lines out.
pub open spec fn chomp_cr(s: Seq<char>) -> Seq<char> {
    if s.len() > 0 && s.last() == '\r' {
        s.drop_last()
    } else {
        s
    }
}

/// Whether `pat` occurs anywhere in `s`.
pub fn contains_chars(s: &Vec<char>, pat: &Vec<char>) -> (r: bool)
    ensures
        r == spec_contains(s@, pat@),
{
    match find_chars(s, pat) {
        Some(_) => true,
        None => false,
    }
}

/// The decimal digits of a natural number, most significant first.
pub open spec fn dec_nat(n: nat) -> Seq<char>
    decreases n,
{
    if n < 10 {
        seq![digit_char(n as int)]
    } else {
        dec_nat(n / 10).push(digit_char(n as int % 10))
    }
}

/// The decimal form of an integer: a minus sign for negative values.
pub open spec fn dec_int(n: int) -> Seq<char> {
    if n < 0 {
        seq!['-'] + dec_nat((-n) as nat)
    } else {
        dec_nat(n as nat)
    }
}

/// Append the decimal digits of `n`.
pub fn push_u64(out: &mut Vec<char>, n: u64)
    ensures
        final(out)@ == old(out)@ + dec_nat(n as nat),
{
    let mut tmp: Vec<char> = Vec::new();
    let mut m: u64 = n;
    while m >= 10
        invariant
            dec_nat(n as nat) == dec_nat(m as nat) + tmp@.reverse(),
        decreases m,
    {
        let d: u64 = m % 10;
        tmp.push((48 + (d as u8)) as char);
        proof {
            assert(tmp@ == tmp@.drop_last().push(digit_char(m as int % 10)));
            assert(tmp@.reverse() =~= seq![digit_char(m as int % 10)] + tmp@.drop_last().reverse());
            assert(dec_nat(m as nat) == dec_nat((m as nat) / 10).push(digit_char(m as int % 10)));
            assert(dec_nat(m as nat) + tmp@.drop_last().reverse() =~= dec_nat((m as nat) / 10)
                + tmp@.reverse());
        }
        m = m / 10;
    }
    tmp.push((48 + (m as u8)) as char);
    proof {
        assert(tmp@ == tmp@.drop_last().push(digit_char(m as int)));
        assert(tmp@.reverse() =~= seq![digit_char(m as int)] + tmp@.drop_last().reverse());
        assert(dec_nat(m as nat) == seq![digit_char(m as int)]);
        assert(dec_nat(n as nat) == tmp@.reverse());
    }
    let mut j: usize = tmp.len();
    while j > 0
        invariant
            j <= tmp@.len(),
            out@ == old(out)@ + tmp@.subrange(j as int, tmp@.len() as int).reverse(),
        decreases j,
    {
        j -= 1;
        out.push(tmp[j]);
        proof {
            assert(tmp@.subrange(j as int, tmp@.len() as int).reverse() =~= tmp@.subrange(
                j + 1,
                tmp@.len() as int,
            ).reverse().push(tmp@[j as int]));
        }
    }
    proof {
        assert(tmp@.subrange(0, tmp@.len() as int) =~= tmp@);
    }
}

/// Append the decimal form of `n`, sign included.
pub fn push_i64(out: &mut Vec<char>, n: i64)
    ensures
        final(out)@ == old(out)@ + dec_int(n as int),
{
    if n >= 0 {
        push_u64(out, n as u64);
    } else {
        out.push('-');
        let mag: u64 = (-(n as i128)) as u64;
        push_u64(out, mag);
        proof {
            assert(out@ =~= old(out)@ + dec_int(n as int));
        }
    }
}

/// The index of the first newline in `s`, or its length if there is none.
pub open spec fn first_nl(s: Seq<char>) -> int
    decreases s.len(),
{
    if s.len() == 0 {
        0
    } else if s.first() == '\n' {
        0
    } else {
        1 + first_nl(s.drop_first())
    }
}

/// `first_nl` is the least newline position.
pub proof fn lemma_first_nl(s: Seq<char>, j: int)
    requires
        0 <= j <= s.len(),
        forall|k: int| 0 <= k < j ==> s[k] != '\n',
        j < s.len() ==> s[j] == '\n',
    ensures
        first_nl(s) == j,
    decreases s.len(),
{
    if s.len() > 0 && j > 0 {
        lemma_first_nl(s.drop_first(), j - 1);
    }
}

/// Character-for-character string equality.
pub fn str_eq(a: &str, b: &str) -> (r: bool)
    ensures
        r == (a@ == b@),
{
    let va = str_chars(a);
    let vb = str_chars(b);
    if va.len() != vb.len() {
        proof {
            assert(a@ != b@);
        }
        return false;
    }
    let mut i: usize = 0;
    while i < va.len()
        invariant
            i <= va@.len(),
            va@ == a@,
            vb@ == b@,
            va@.len() == vb@.len(),
            forall|j: int| 0 <= j < i ==> va@[j] == vb@[j],
        decreases va@.len() - i,
    {
        if va[i] != vb[i] {
            return false;
        }
        i += 1;
    }
    proof {
        assert(a@ =~= b@);
    }
    true
}

/// Append every character of `src` to `out`.
pub fn push_all(out: &mut Vec<char>, src: &Vec<char>)
    ensures
        final(out)@ == old(out)@ + src@,
{
    let mut i: usize = 0;
    while i < src.len()
        invariant
            i <= src@.len(),
            out@ == old(out)@ + src@.take(i as int),
        decreases src@.len() - i,
    {
        out.push(src[i]);
        proof {
            assert(src@.take(i + 1) == src@.take(i as int).push(src@[i as int]));
        }
        i += 1;
    }
    proof {
        assert(src@.take(src@.len() as int) == src@);
    }
}

} // verus!
