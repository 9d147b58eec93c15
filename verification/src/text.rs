//! Character-level text model shared by the launcher's parsers and formatters.
//!
//! Strings are reasoned about through their `Seq<char>` views; the executable helpers here
//! work on `Vec<char>` and convert at the edges.
use vstd::prelude::*;

verus! {

// ---------------------------------------------------------------------------------------------
// Specifications
// ---------------------------------------------------------------------------------------------

/// Unicode `White_Space`, the set that `char::is_whitespace` tests for.
pub open spec fn is_ws(c: char) -> bool {
    let n = c as u32;
    ||| 0x09 <= n <= 0x0d
    ||| n == 0x20
    ||| n == 0x85
    ||| n == 0xa0
    ||| n == 0x1680
    ||| 0x2000 <= n <= 0x200a
    ||| n == 0x2028
    ||| n == 0x2029
    ||| n == 0x202f
    ||| n == 0x205f
    ||| n == 0x3000
}

/// Number of leading whitespace characters.
pub open spec fn lead_ws(s: Seq<char>) -> nat
    decreases s.len(),
{
    if s.len() > 0 && is_ws(s[0]) {
        1 + lead_ws(s.skip(1))
    } else {
        0
    }
}

/// Number of trailing whitespace characters.
pub open spec fn trail_ws(s: Seq<char>) -> nat
    decreases s.len(),
{
    if s.len() > 0 && is_ws(s.last()) {
        1 + trail_ws(s.drop_last())
    } else {
        0
    }
}

/// `str::trim_start`.
pub open spec fn trim_start(s: Seq<char>) -> Seq<char> {
    s.skip(lead_ws(s) as int)
}

/// `str::trim_end`.
pub open spec fn trim_end(s: Seq<char>) -> Seq<char> {
    s.take(s.len() - trail_ws(s))
}

/// `str::trim`.
pub open spec fn trim(s: Seq<char>) -> Seq<char> {
    trim_end(trim_start(s))
}

pub open spec fn starts_with(s: Seq<char>, p: Seq<char>) -> bool {
    p.len() <= s.len() && s.take(p.len() as int) == p
}

pub open spec fn ends_with(s: Seq<char>, p: Seq<char>) -> bool {
    p.len() <= s.len() && s.skip(s.len() - p.len()) == p
}

pub open spec fn matches_at(s: Seq<char>, p: Seq<char>, i: int) -> bool {
    0 <= i && i + p.len() <= s.len() && s.subrange(i, i + p.len()) == p
}

/// The first index at or after `k` where `p` occurs in `s` (`str::find` on `s[k..]`, shifted).
pub open spec fn find_from(s: Seq<char>, p: Seq<char>, k: int) -> Option<int>
    decreases s.len() + 1 - k,
{
    if k > s.len() {
        None
    } else if matches_at(s, p, k) {
        Some(k)
    } else {
        find_from(s, p, k + 1)
    }
}

pub open spec fn find(s: Seq<char>, p: Seq<char>) -> Option<int> {
    find_from(s, p, 0)
}

pub open spec fn contains(s: Seq<char>, p: Seq<char>) -> bool {
    exists|i: int| #[trigger] matches_at(s, p, i)
}

/// Index of the first occurrence of the character `c`.
pub open spec fn char_pos(s: Seq<char>, c: char) -> Option<int> {
    find(s, seq![c])
}

/// `str::split(c)`: the pieces between occurrences of `c`, always at least one.
pub open spec fn split_char(s: Seq<char>, c: char) -> Seq<Seq<char>>
    decreases s.len(),
{
    if s.len() == 0 {
        seq![Seq::<char>::empty()]
    } else {
        let r = split_char(s.drop_last(), c);
        if s.last() == c {
            r.push(Seq::<char>::empty())
        } else {
            r.update(r.len() - 1, r.last().push(s.last()))
        }
    }
}

/// The text after the last occurrence of `c` (`s.rsplit(c).next()`).
pub open spec fn after_last(s: Seq<char>, c: char) -> Seq<char> {
    split_char(s, c).last()
}

/// A line without the `\r` of a `\r\n` ending.
pub open spec fn strip_cr(l: Seq<char>) -> Seq<char> {
    if l.len() > 0 && l.last() == '\r' {
        l.drop_last()
    } else {
        l
    }
}

/// `str::lines`: the text split at `\n` (a `\r` before it belongs to the line ending), with no
/// empty last line after a final line ending.
pub open spec fn lines_of(s: Seq<char>) -> Seq<Seq<char>> {
    let pieces = split_char(s, '\n');
    let done = pieces.take(pieces.len() - 1).map_values(|l: Seq<char>| strip_cr(l));
    if pieces.last().len() > 0 {
        done.push(pieces.last())
    } else {
        done
    }
}

/// Concatenation of `parts` with `sep` between neighbours (`[..].join(sep)`).
pub open spec fn join(parts: Seq<Seq<char>>, sep: Seq<char>) -> Seq<char>
    decreases parts.len(),
{
    if parts.len() == 0 {
        Seq::<char>::empty()
    } else if parts.len() == 1 {
        parts[0]
    } else {
        join(parts.drop_last(), sep) + sep + parts.last()
    }
}

/// `str::split_whitespace`: the maximal runs of non-whitespace characters, in order.
pub open spec fn words(s: Seq<char>) -> Seq<Seq<char>>
    decreases s.len(),
{
    if s.len() == 0 {
        Seq::<Seq<char>>::empty()
    } else {
        let r = words(s.drop_last());
        let c = s.last();
        if is_ws(c) {
            r
        } else if s.len() >= 2 && !is_ws(s[s.len() - 2]) {
            r.update(r.len() - 1, r.last().push(c))
        } else {
            r.push(seq![c])
        }
    }
}

pub open spec fn is_ascii_digit(c: char) -> bool {
    '0' <= c <= '9'
}

pub open spec fn digit_value(c: char) -> int {
    (c as int) - ('0' as int)
}

/// Value of a run of decimal digits.
pub open spec fn digits_value(s: Seq<char>) -> int
    decreases s.len(),
{
    if s.len() == 0 {
        0
    } else {
        digits_value(s.drop_last()) * 10 + digit_value(s.last())
    }
}

pub open spec fn all_digits(s: Seq<char>) -> bool {
    forall|i: int| 0 <= i < s.len() ==> is_ascii_digit(#[trigger] s[i])
}

/// The decimal text of a natural number, without leading zeros (`"0"` for zero).
pub open spec fn decimal(n: nat) -> Seq<char>
    decreases n,
{
    if n < 10 {
        seq![(('0' as u32) + n) as char]
    } else {
        decimal(n / 10).push((('0' as u32) + (n % 10)) as char)
    }
}

/// The decimal text of an integer, with a leading `-` when negative (`Display` for integers).
pub open spec fn int_text(n: int) -> Seq<char> {
    if n < 0 {
        seq!['-'] + decimal((-n) as nat)
    } else {
        decimal(n as nat)
    }
}

/// The integer that `str::parse::<iN>` (or `uN`) yields for `s`, within `[lo, hi]`:
/// an optional sign (`-` only when `lo < 0`) and at least one digit, nothing else.
pub open spec fn parse_int(s: Seq<char>, lo: int, hi: int) -> Option<int> {
    if s.len() > 0 && (s[0] == '+' || (s[0] == '-' && lo < 0)) {
        let d = s.skip(1);
        let v = if s[0] == '-' {
            -digits_value(d)
        } else {
            digits_value(d)
        };
        if d.len() > 0 && all_digits(d) && lo <= v <= hi {
            Some(v)
        } else {
            None
        }
    } else {
        let v = digits_value(s);
        if s.len() > 0 && all_digits(s) && lo <= v <= hi {
            Some(v)
        } else {
            None
        }
    }
}

pub open spec fn is_ascii_alnum(c: char) -> bool {
    is_ascii_digit(c) || ('a' <= c <= 'z') || ('A' <= c <= 'Z')
}

pub open spec fn ascii_lower(c: char) -> char {
    if 'A' <= c <= 'Z' {
        ((c as u32) + 32) as char
    } else {
        c
    }
}

/// Lower-case hexadecimal digit for `0..16`.
pub open spec fn hex_lower(n: int) -> char {
    if n < 10 {
        ((('0' as int) + n) as u32) as char
    } else {
        ((('a' as int) + n - 10) as u32) as char
    }
}

/// Upper-case hexadecimal digit for `0..16`.
pub open spec fn hex_upper(n: int) -> char {
    if n < 10 {
        ((('0' as int) + n) as u32) as char
    } else {
        ((('A' as int) + n - 10) as u32) as char
    }
}

// ---------------------------------------------------------------------------------------------
// Lemmas
// ---------------------------------------------------------------------------------------------

pub proof fn lemma_lead_ws_bound(s: Seq<char>)
    ensures
        lead_ws(s) <= s.len(),
        forall|i: int| 0 <= i < lead_ws(s) ==> is_ws(#[trigger] s[i]),
        lead_ws(s) < s.len() ==> !is_ws(s[lead_ws(s) as int]),
    decreases s.len(),
{
    if s.len() > 0 && is_ws(s[0]) {
        lemma_lead_ws_bound(s.skip(1));
        assert forall|i: int| 0 <= i < lead_ws(s) implies is_ws(#[trigger] s[i]) by {
            if i > 0 {
                assert(s.skip(1)[i - 1] == s[i]);
            }
        }
    }
}

/// `lead_ws` is characterised by: all of the first `k` are whitespace and the next is not.
pub proof fn lemma_lead_ws_unique(s: Seq<char>, k: int)
    requires
        0 <= k <= s.len(),
        forall|i: int| 0 <= i < k ==> is_ws(#[trigger] s[i]),
        k < s.len() ==> !is_ws(s[k]),
    ensures
        lead_ws(s) == k,
    decreases s.len(),
{
    if k > 0 {
        assert(is_ws(s[0]));
        assert forall|i: int| 0 <= i < k - 1 implies is_ws(#[trigger] s.skip(1)[i]) by {
            assert(s.skip(1)[i] == s[i + 1]);
        }
        if k - 1 < s.skip(1).len() {
            assert(s.skip(1)[k - 1] == s[k]);
        }
        lemma_lead_ws_unique(s.skip(1), k - 1);
    } else if s.len() > 0 {
        assert(!is_ws(s[0]));
    }
}

pub proof fn lemma_trail_ws_bound(s: Seq<char>)
    ensures
        trail_ws(s) <= s.len(),
        forall|i: int| s.len() - trail_ws(s) <= i < s.len() ==> is_ws(#[trigger] s[i]),
        trail_ws(s) < s.len() ==> !is_ws(s[s.len() - trail_ws(s) - 1]),
    decreases s.len(),
{
    if s.len() > 0 && is_ws(s.last()) {
        lemma_trail_ws_bound(s.drop_last());
        assert forall|i: int| s.len() - trail_ws(s) <= i < s.len() implies is_ws(#[trigger] s[i]) by {
            if i < s.len() - 1 {
                assert(s.drop_last()[i] == s[i]);
            }
        }
        if trail_ws(s) < s.len() {
            assert(s.drop_last()[s.len() - trail_ws(s) - 1] == s[s.len() - trail_ws(s) - 1]);
        }
    }
}

pub proof fn lemma_trail_ws_unique(s: Seq<char>, k: int)
    requires
        0 <= k <= s.len(),
        forall|i: int| s.len() - k <= i < s.len() ==> is_ws(#[trigger] s[i]),
        k < s.len() ==> !is_ws(s[s.len() - k - 1]),
    ensures
        trail_ws(s) == k,
    decreases s.len(),
{
    if k > 0 {
        assert(is_ws(s[s.len() - 1]));
        let t = s.drop_last();
        assert forall|i: int| t.len() - (k - 1) <= i < t.len() implies is_ws(#[trigger] t[i]) by {
            assert(t[i] == s[i]);
        }
        if k - 1 < t.len() {
            assert(t[t.len() - (k - 1) - 1] == s[s.len() - k - 1]);
        }
        lemma_trail_ws_unique(t, k - 1);
    } else if s.len() > 0 {
        assert(!is_ws(s.last()));
    }
}

/// `find_from` gives the first occurrence at or after `k`, and `None` only when there is none.
pub proof fn lemma_find_from(s: Seq<char>, p: Seq<char>, k: int)
    ensures
        match find_from(s, p, k) {
            Some(i) => k <= i && i + p.len() <= s.len() && matches_at(s, p, i) && forall|j: int|
                k <= j < i ==> !#[trigger] matches_at(s, p, j),
            None => forall|j: int| k <= j ==> !#[trigger] matches_at(s, p, j),
        },
    decreases s.len() + 1 - k,
{
    if k > s.len() {
        assert forall|j: int| k <= j implies !#[trigger] matches_at(s, p, j) by {}
    } else if !matches_at(s, p, k) {
        lemma_find_from(s, p, k + 1);
    }
}

/// A found occurrence lies inside the text.
pub proof fn lemma_find_in_bounds(s: Seq<char>, p: Seq<char>)
    ensures
        find(s, p) matches Some(i) ==> 0 <= i && i + p.len() <= s.len() && matches_at(s, p, i),
{
    lemma_find_from(s, p, 0);
}

pub proof fn lemma_split_char_len(s: Seq<char>, c: char)
    ensures
        split_char(s, c).len() >= 1,
    decreases s.len(),
{
    if s.len() > 0 {
        lemma_split_char_len(s.drop_last(), c);
    }
}

pub proof fn lemma_decimal_digits(n: nat)
    ensures
        decimal(n).len() >= 1,
        all_digits(decimal(n)),
    decreases n,
{
    if n >= 10 {
        lemma_decimal_digits(n / 10);
    }
}

// ---------------------------------------------------------------------------------------------
// Executable helpers
// ---------------------------------------------------------------------------------------------

/// `String::push`. Claimed: the string afterwards is the one before with `c` appended.
#[verifier::external_body]
pub(crate) fn push_char(s: &mut String, c: char)
    ensures
        final(s)@ == old(s)@.push(c),
{
    s.push(c);
}

/// The characters of `s`, in order.
pub fn chars_of(s: &str) -> (v: Vec<char>)
    ensures
        v@ == s@,
{
    let mut v: Vec<char> = Vec::new();
    for c in it: s.chars()
        invariant
            v@ == it.seq().take(it.index() as int),
    {
        v.push(c);
    }
    v
}

/// A `String` holding exactly the characters `v`.
pub fn string_of(v: &[char]) -> (s: String)
    ensures
        s@ == v@,
{
    let mut s = String::new();
    let mut i: usize = 0;
    while i < v.len()
        invariant
            i <= v.len(),
            s@ == v@.take(i as int),
        decreases v.len() - i,
    {
        push_char(&mut s, v[i]);
        i = i + 1;
        assert(v@.take(i as int) == v@.take((i - 1) as int).push(v@[i - 1]));
    }
    assert(v@.take(v.len() as int) == v@);
    s
}

/// `a` followed by `b`.
pub fn concat(a: &str, b: &str) -> (s: String)
    ensures
        s@ == a@ + b@,
{
    let s = a.to_owned();
    s.concat(b)
}

/// Appends the characters `v` to `out`.
pub fn extend_chars(out: &mut Vec<char>, v: &[char])
    ensures
        final(out)@ == old(out)@ + v@,
{
    let mut i: usize = 0;
    while i < v.len()
        invariant
            i <= v.len(),
            out@ == old(out)@ + v@.take(i as int),
        decreases v.len() - i,
    {
        out.push(v[i]);
        i = i + 1;
        assert(v@.take(i as int) == v@.take((i - 1) as int).push(v@[i - 1]));
    }
    assert(v@.take(v.len() as int) == v@);
}

/// Appends the characters of `s` to `out`.
pub fn extend_str(out: &mut Vec<char>, s: &str)
    ensures
        final(out)@ == old(out)@ + s@,
{
    let v = chars_of(s);
    extend_chars(out, v.as_slice());
}

/// Whether `p` occurs in `s` at index `i`.
pub fn chars_match_at(s: &[char], p: &[char], i: usize) -> (b: bool)
    ensures
        b == matches_at(s@, p@, i as int),
{
    if i > s.len() || p.len() > s.len() - i {
        return false;
    }
    let mut j: usize = 0;
    while j < p.len()
        invariant
            i + p.len() <= s.len(),
            j <= p.len(),
            forall|k: int| 0 <= k < j ==> s@[i + k] == p@[k],
        decreases p.len() - j,
    {
        if s[i + j] != p[j] {
            assert(s@.subrange(i as int, i + p.len())[j as int] != p@[j as int]);
            return false;
        }
        j = j + 1;
    }
    assert(s@.subrange(i as int, i + p.len()) =~= p@);
    true
}

/// First index at or after `from` where `p` occurs in `s`.
pub fn find_chars_from(s: &[char], p: &[char], from: usize) -> (r: Option<usize>)
    ensures
        match r {
            Some(i) => find_from(s@, p@, from as int) == Some(i as int),
            None => find_from(s@, p@, from as int) is None,
        },
{
    if from > s.len() {
        return None;
    }
    let mut i = from;
    while i < s.len()
        invariant
            from <= i <= s.len(),
            find_from(s@, p@, from as int) == find_from(s@, p@, i as int),
        decreases s.len() - i,
    {
        if chars_match_at(s, p, i) {
            return Some(i);
        }
        i = i + 1;
    }
    if chars_match_at(s, p, i) {
        return Some(i);
    }
    assert(find_from(s@, p@, i + 1) is None);
    None
}

/// First index where `p` occurs in `s`.
pub fn find_chars(s: &[char], p: &[char]) -> (r: Option<usize>)
    ensures
        match r {
            Some(i) => find(s@, p@) == Some(i as int),
            None => find(s@, p@) is None,
        },
{
    find_chars_from(s, p, 0)
}

/// Whether `p` occurs anywhere in `s`.
pub fn str_contains(s: &str, p: &str) -> (b: bool)
    ensures
        b == contains(s@, p@),
{
    let sv = chars_of(s);
    let pv = chars_of(p);
    let r = find_chars(sv.as_slice(), pv.as_slice());
    proof {
        lemma_find_from(sv@, pv@, 0);
    }
    r.is_some()
}

pub fn chars_starts_with(s: &[char], p: &[char]) -> (b: bool)
    ensures
        b == starts_with(s@, p@),
{
    let r = chars_match_at(s, p, 0);
    proof {
        if p@.len() <= s@.len() {
            assert(s@.subrange(0, p@.len() as int) == s@.take(p@.len() as int));
        }
    }
    r
}

pub fn chars_ends_with(s: &[char], p: &[char]) -> (b: bool)
    ensures
        b == ends_with(s@, p@),
{
    if p.len() > s.len() {
        return false;
    }
    let r = chars_match_at(s, p, s.len() - p.len());
    proof {
        assert(s@.subrange(s@.len() - p@.len(), s@.len() as int) == s@.skip(s@.len() - p@.len()));
    }
    r
}

pub fn str_starts_with(s: &str, p: &str) -> (b: bool)
    ensures
        b == starts_with(s@, p@),
{
    let sv = chars_of(s);
    let pv = chars_of(p);
    chars_starts_with(sv.as_slice(), pv.as_slice())
}

pub fn str_ends_with(s: &str, p: &str) -> (b: bool)
    ensures
        b == ends_with(s@, p@),
{
    let sv = chars_of(s);
    let pv = chars_of(p);
    chars_ends_with(sv.as_slice(), pv.as_slice())
}

pub fn char_is_ws(c: char) -> (b: bool)
    ensures
        b == is_ws(c),
{
    let n = c as u32;
    (0x09 <= n && n <= 0x0d) || n == 0x20 || n == 0x85 || n == 0xa0 || n == 0x1680 || (0x2000 <= n
        && n <= 0x200a) || n == 0x2028 || n == 0x2029 || n == 0x202f || n == 0x205f || n == 0x3000
}

/// Number of leading whitespace characters of `s`.
pub fn count_lead_ws(s: &[char]) -> (k: usize)
    ensures
        k == lead_ws(s@),
{
    let mut k: usize = 0;
    while k < s.len() && char_is_ws(s[k])
        invariant
            k <= s.len(),
            forall|i: int| 0 <= i < k ==> is_ws(#[trigger] s@[i]),
        decreases s.len() - k,
    {
        k = k + 1;
    }
    proof {
        lemma_lead_ws_unique(s@, k as int);
    }
    k
}

/// Number of trailing whitespace characters of `s`.
pub fn count_trail_ws(s: &[char]) -> (k: usize)
    ensures
        k == trail_ws(s@),
{
    let mut k: usize = 0;
    while k < s.len() && char_is_ws(s[s.len() - 1 - k])
        invariant
            k <= s.len(),
            forall|i: int| s.len() - k <= i < s.len() ==> is_ws(#[trigger] s@[i]),
        decreases s.len() - k,
    {
        k = k + 1;
    }
    proof {
        lemma_trail_ws_unique(s@, k as int);
    }
    k
}

/// The characters `s[from..to]`.
pub fn slice_chars(s: &[char], from: usize, to: usize) -> (v: Vec<char>)
    requires
        from <= to <= s.len(),
    ensures
        v@ == s@.subrange(from as int, to as int),
{
    let mut v: Vec<char> = Vec::new();
    let mut i = from;
    while i < to
        invariant
            from <= i <= to,
            to <= s.len(),
            v@ == s@.subrange(from as int, i as int),
        decreases to - i,
    {
        v.push(s[i]);
        i = i + 1;
        assert(s@.subrange(from as int, i as int) == s@.subrange(from as int, (i - 1) as int).push(
            s@[i - 1],
        ));
    }
    v
}

pub fn trim_start_chars(s: &[char]) -> (v: Vec<char>)
    ensures
        v@ == trim_start(s@),
{
    let k = count_lead_ws(s);
    proof {
        lemma_lead_ws_bound(s@);
    }
    let v = slice_chars(s, k, s.len());
    assert(s@.subrange(k as int, s@.len() as int) == s@.skip(k as int));
    v
}

pub fn trim_end_chars(s: &[char]) -> (v: Vec<char>)
    ensures
        v@ == trim_end(s@),
{
    let k = count_trail_ws(s);
    proof {
        lemma_trail_ws_bound(s@);
    }
    let v = slice_chars(s, 0, s.len() - k);
    assert(s@.subrange(0, s@.len() - k) == s@.take(s@.len() - k));
    v
}

pub fn trim_chars(s: &[char]) -> (v: Vec<char>)
    ensures
        v@ == trim(s@),
{
    let a = trim_start_chars(s);
    trim_end_chars(a.as_slice())
}

/// The decimal text of `n`.
pub fn u64_text(n: u64) -> (v: Vec<char>)
    ensures
        v@ == decimal(n as nat),
    decreases n,
{
    if n < 10 {
        let c = char_from_digit(n as u32);
        let mut v: Vec<char> = Vec::new();
        v.push(c);
        v
    } else {
        let mut v = u64_text(n / 10);
        let c = char_from_digit((n % 10) as u32);
        v.push(c);
        v
    }
}

/// The decimal text of `n`, with `-` for negatives.
pub fn i64_text(n: i64) -> (v: Vec<char>)
    ensures
        v@ == int_text(n as int),
{
    if n < 0 {
        let m: u64 = if n == i64::MIN {
            9223372036854775808u64
        } else {
            (-n) as u64
        };
        let mut v: Vec<char> = Vec::new();
        v.push('-');
        let d = u64_text(m);
        extend_chars(&mut v, d.as_slice());
        v
    } else {
        u64_text(n as u64)
    }
}

fn char_from_digit(d: u32) -> (c: char)
    requires
        d < 10,
    ensures
        c == ((('0' as u32) + d) as char),
{
    if d == 0 {
        '0'
    } else if d == 1 {
        '1'
    } else if d == 2 {
        '2'
    } else if d == 3 {
        '3'
    } else if d == 4 {
        '4'
    } else if d == 5 {
        '5'
    } else if d == 6 {
        '6'
    } else if d == 7 {
        '7'
    } else if d == 8 {
        '8'
    } else {
        '9'
    }
}

/// Whether `a` and `b` hold the same characters.
pub fn chars_eq(a: &[char], b: &[char]) -> (r: bool)
    ensures
        r == (a@ == b@),
{
    if a.len() != b.len() {
        return false;
    }
    let mut i: usize = 0;
    while i < a.len()
        invariant
            a.len() == b.len(),
            i <= a.len(),
            forall|k: int| 0 <= k < i ==> a@[k] == b@[k],
        decreases a.len() - i,
    {
        if a[i] != b[i] {
            return false;
        }
        i = i + 1;
    }
    assert(a@ =~= b@);
    true
}

/// Whether `a` and `b` are the same text.
pub fn str_eq(a: &str, b: &str) -> (r: bool)
    ensures
        r == (a@ == b@),
{
    let av = chars_of(a);
    let bv = chars_of(b);
    chars_eq(av.as_slice(), bv.as_slice())
}

pub proof fn lemma_digits_value_nonneg(s: Seq<char>)
    requires
        all_digits(s),
    ensures
        digits_value(s) >= 0,
    decreases s.len(),
{
    if s.len() > 0 {
        assert(all_digits(s.drop_last())) by {
            assert forall|i: int| 0 <= i < s.drop_last().len() implies is_ascii_digit(
                #[trigger] s.drop_last()[i],
            ) by {
                assert(s.drop_last()[i] == s[i]);
            }
        }
        lemma_digits_value_nonneg(s.drop_last());
        assert(is_ascii_digit(s[s.len() - 1]));
    }
}

/// A prefix of a digit run denotes no more than the whole run.
pub proof fn lemma_digits_value_prefix(s: Seq<char>, k: int)
    requires
        all_digits(s),
        0 <= k <= s.len(),
    ensures
        0 <= digits_value(s.take(k)) <= digits_value(s),
    decreases s.len(),
{
    if k == s.len() {
        assert(s.take(k) == s);
        lemma_digits_value_nonneg(s);
    } else {
        let t = s.drop_last();
        assert(all_digits(t)) by {
            assert forall|i: int| 0 <= i < t.len() implies is_ascii_digit(#[trigger] t[i]) by {
                assert(t[i] == s[i]);
            }
        }
        lemma_digits_value_prefix(t, k);
        assert(t.take(k) == s.take(k));
        lemma_digits_value_nonneg(t);
        assert(is_ascii_digit(s[s.len() - 1]));
    }
}

/// The value of a digit run, or `None` when it exceeds `u64::MAX`.
pub fn digits_to_u64(d: &[char]) -> (r: Option<u64>)
    requires
        all_digits(d@),
    ensures
        match r {
            Some(v) => v as int == digits_value(d@),
            None => digits_value(d@) > u64::MAX,
        },
{
    let mut v: u64 = 0;
    let mut i: usize = 0;
    while i < d.len()
        invariant
            i <= d.len(),
            all_digits(d@),
            v as int == digits_value(d@.take(i as int)),
        decreases d.len() - i,
    {
        assert(is_ascii_digit(d@[i as int]));
        let dig = (d[i] as u32 - '0' as u32) as u64;
        assert(d@.take((i + 1) as int).drop_last() == d@.take(i as int));
        assert(d@.take((i + 1) as int).last() == d@[i as int]);
        if v > 1844674407370955161u64 || (v == 1844674407370955161u64 && dig > 5) {
            proof {
                lemma_digits_value_prefix(d@, (i + 1) as int);
            }
            return None;
        }
        v = v * 10 + dig;
        i = i + 1;
    }
    assert(d@.take(d.len() as int) == d@);
    Some(v)
}

fn all_digit_chars(s: &[char]) -> (b: bool)
    ensures
        b == all_digits(s@),
{
    let mut i: usize = 0;
    while i < s.len()
        invariant
            i <= s.len(),
            forall|k: int| 0 <= k < i ==> is_ascii_digit(#[trigger] s@[k]),
        decreases s.len() - i,
    {
        if !(s[i] >= '0' && s[i] <= '9') {
            return false;
        }
        i = i + 1;
    }
    true
}

/// `str::parse::<i64>` on the characters `s`.
pub fn parse_i64_chars(s: &[char]) -> (r: Option<i64>)
    ensures
        match r {
            Some(v) => parse_int(s@, i64::MIN as int, i64::MAX as int) == Some(v as int),
            None => parse_int(s@, i64::MIN as int, i64::MAX as int) is None,
        },
{
    let signed = s.len() > 0 && (s[0] == '+' || s[0] == '-');
    let start: usize = if signed { 1 } else { 0 };
    let d = slice_chars(s, start, s.len());
    assert(d@ == s@.skip(start as int));
    if !signed {
        assert(d@ == s@);
    }
    if d.len() == 0 || !all_digit_chars(d.as_slice()) {
        return None;
    }
    proof {
        lemma_digits_value_nonneg(d@);
    }
    match digits_to_u64(d.as_slice()) {
        None => {
            proof {
                lemma_digits_value_nonneg(d@);
            }
            None
        },
        Some(v) => {
            if signed && s[0] == '-' {
                if v > 9223372036854775808u64 {
                    None
                } else if v == 9223372036854775808u64 {
                    Some(i64::MIN)
                } else {
                    Some(-(v as i64))
                }
            } else {
                if v > 9223372036854775807u64 {
                    None
                } else {
                    Some(v as i64)
                }
            }
        },
    }
}

/// `str::parse::<u32>` on the characters `s`.
pub fn parse_u32_chars(s: &[char]) -> (r: Option<u32>)
    ensures
        match r {
            Some(v) => parse_int(s@, 0, u32::MAX as int) == Some(v as int),
            None => parse_int(s@, 0, u32::MAX as int) is None,
        },
{
    let signed = s.len() > 0 && s[0] == '+';
    let start: usize = if signed { 1 } else { 0 };
    let d = slice_chars(s, start, s.len());
    assert(d@ == s@.skip(start as int));
    if !signed {
        assert(d@ == s@);
    }
    if d.len() == 0 || !all_digit_chars(d.as_slice()) {
        return None;
    }
    proof {
        lemma_digits_value_nonneg(d@);
    }
    match digits_to_u64(d.as_slice()) {
        None => None,
        Some(v) => {
            if v > 4294967295u64 {
                None
            } else {
                Some(v as u32)
            }
        },
    }
}

/// The pieces of `s` between occurrences of `c` (`str::split(c)`).
pub fn split_chars(s: &[char], c: char) -> (parts: Vec<Vec<char>>)
    ensures
        parts.len() == split_char(s@, c).len(),
        forall|i: int| 0 <= i < parts.len() ==> (#[trigger] parts[i])@ == split_char(s@, c)[i],
{
    let mut done: Vec<Vec<char>> = Vec::new();
    let mut cur: Vec<char> = Vec::new();
    let mut i: usize = 0;
    while i < s.len()
        invariant
            i <= s.len(),
            split_char(s@.take(i as int), c).len() == done.len() + 1,
            forall|j: int| 0 <= j < done.len() ==> (#[trigger] done[j])@ == split_char(
                s@.take(i as int),
                c,
            )[j],
            cur@ == split_char(s@.take(i as int), c).last(),
        decreases s.len() - i,
    {
        let ghost prev = split_char(s@.take(i as int), c);
        assert(s@.take((i + 1) as int).drop_last() == s@.take(i as int));
        assert(s@.take((i + 1) as int).last() == s@[i as int]);
        if s[i] == c {
            let finished = cur;
            done.push(finished);
            cur = Vec::new();
        } else {
            cur.push(s[i]);
        }
        i = i + 1;
    }
    assert(s@.take(s.len() as int) == s@);
    done.push(cur);
    done
}

/// The text after the last `c` in `s` (`s.rsplit(c).next()`).
pub fn after_last_char(s: &[char], c: char) -> (r: Vec<char>)
    ensures
        r@ == after_last(s@, c),
{
    let parts = split_chars(s, c);
    proof {
        lemma_split_char_len(s@, c);
    }
    let k = parts.len() - 1;
    let r = clone_chars(&parts[k]);
    r
}

pub fn clone_chars(v: &Vec<char>) -> (r: Vec<char>)
    ensures
        r@ == v@,
{
    slice_chars(v.as_slice(), 0, v.len())
}

/// `parts` joined with `sep` between neighbours.
pub fn join_strings(parts: &Vec<String>, sep: &str) -> (r: String)
    ensures
        r@ == join(parts@.map_values(|p: String| p@), sep@),
{
    let ghost views = parts@.map_values(|p: String| p@);
    let mut out: Vec<char> = Vec::new();
    let mut i: usize = 0;
    while i < parts.len()
        invariant
            i <= parts.len(),
            views == parts@.map_values(|p: String| p@),
            out@ == join(views.take(i as int), sep@),
        decreases parts.len() - i,
    {
        let ghost prev = out@;
        assert(views.take((i + 1) as int).drop_last() == views.take(i as int));
        assert(views.take((i + 1) as int).last() == parts@[i as int]@);
        if i > 0 {
            extend_str(&mut out, sep);
        }
        extend_str(&mut out, parts[i].as_str());
        proof {
            if i == 0 {
                assert(views.take(1).len() == 1);
                assert(views.take(0).len() == 0);
            }
        }
        i = i + 1;
    }
    assert(views.take(parts.len() as int) == views);
    string_of(out.as_slice())
}


/// The whitespace-separated words of `s` (`str::split_whitespace`).
pub fn split_ws(s: &str) -> (r: Vec<String>)
    ensures
        r@.map_values(|w: String| w@) == words(s@),
{
    let cs = chars_of(s);
    let mut done: Vec<String> = Vec::new();
    let mut cur: Vec<char> = Vec::new();
    let mut in_word = false;
    let mut i: usize = 0;
    while i < cs.len()
        invariant
            i <= cs.len(),
            cs@ == s@,
            in_word == (i > 0 && !is_ws(cs@[i - 1])),
            in_word ==> words(cs@.take(i as int)) == done@.map_values(|w: String| w@).push(cur@),
            !in_word ==> words(cs@.take(i as int)) == done@.map_values(|w: String| w@),
        decreases cs.len() - i,
    {
        let c = cs[i];
        let ghost prefix = cs@.take((i + 1) as int);
        assert(prefix.drop_last() == cs@.take(i as int));
        assert(prefix.last() == c);
        if char_is_ws(c) {
            if in_word {
                let w = string_of(cur.as_slice());
                let ghost before = done@;
                done.push(w);
                assert(done@.map_values(|w: String| w@) =~= before.map_values(|w: String| w@).push(cur@));
                cur = Vec::new();
            }
            in_word = false;
        } else {
            if in_word {
                assert(prefix.len() >= 2 && prefix[prefix.len() - 2] == cs@[i - 1]);
                let ghost words_before = words(cs@.take(i as int));
                cur.push(c);
                assert(words(prefix) == words_before.update(words_before.len() - 1, words_before.last().push(c)));
                assert(words(prefix) =~= done@.map_values(|w: String| w@).push(cur@));
            } else {
                if i > 0 {
                    assert(prefix[prefix.len() - 2] == cs@[i - 1]);
                }
                cur = Vec::new();
                cur.push(c);
                assert(words(prefix) =~= done@.map_values(|w: String| w@).push(cur@));
            }
            in_word = true;
        }
        i = i + 1;
    }
    assert(cs@.take(cs.len() as int) == cs@);
    if in_word {
        let w = string_of(cur.as_slice());
        let ghost before = done@;
        done.push(w);
        assert(done@.map_values(|w: String| w@) =~= before.map_values(|w: String| w@).push(cur@));
    }
    done
}

/// The lines of `s` (`str::lines`).
pub fn lines_chars(s: &[char]) -> (r: Vec<Vec<char>>)
    ensures
        r@.map_values(|l: Vec<char>| l@) == lines_of(s@),
{
    let pieces = split_chars(s, '\n');
    proof {
        lemma_split_char_len(s@, '\n');
    }
    let ghost ps = split_char(s@, '\n');
    let n = pieces.len();
    let mut out: Vec<Vec<char>> = Vec::new();
    let mut i: usize = 0;
    while i + 1 < n
        invariant
            n == pieces.len(),
            n == ps.len(),
            n >= 1,
            i + 1 <= n,
            ps == split_char(s@, '\n'),
            forall|k: int| 0 <= k < n ==> (#[trigger] pieces[k])@ == ps[k],
            out@.map_values(|l: Vec<char>| l@) == ps.take(i as int).map_values(
                |l: Seq<char>| strip_cr(l),
            ),
        decreases n - i,
    {
        let l = &pieces[i];
        let stripped = if l.len() > 0 && l[l.len() - 1] == '\r' {
            slice_chars(l.as_slice(), 0, l.len() - 1)
        } else {
            clone_chars(l)
        };
        proof {
            assert(l@ == ps[i as int]);
            if l@.len() > 0 && l@.last() == '\r' {
                assert(l@.subrange(0, l@.len() - 1) == l@.drop_last());
            }
        }
        let ghost before = out@;
        out.push(stripped);
        assert(ps.take((i + 1) as int) == ps.take(i as int).push(ps[i as int]));
        assert(out@.map_values(|l: Vec<char>| l@) =~= before.map_values(|l: Vec<char>| l@).push(
            strip_cr(ps[i as int]),
        ));
        assert(ps.take((i + 1) as int).map_values(|l: Seq<char>| strip_cr(l)) =~= ps.take(
            i as int,
        ).map_values(|l: Seq<char>| strip_cr(l)).push(strip_cr(ps[i as int])));
        i = i + 1;
    }
    let last = &pieces[n - 1];
    assert(last@ == ps.last());
    if last.len() > 0 {
        let ghost before = out@;
        out.push(clone_chars(last));
        assert(out@.map_values(|l: Vec<char>| l@) =~= before.map_values(|l: Vec<char>| l@).push(
            ps.last(),
        ));
    }
    out
}

} // verus!
