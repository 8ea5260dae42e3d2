//! Verified text utilities: the character-level scanning, splitting and
//! number-formatting helpers that the parsers in this crate are built on.
//!
//! Every executable function is specified against a spec-level function on
//! `Seq<char>`, so the parsers above them can state exact contracts.

use vstd::prelude::*;

verus! {

// ---------------------------------------------------------------------------
// Character classes
// ---------------------------------------------------------------------------

/// ASCII whitespace, as the platform tools emit it.
pub open spec fn is_ws_char(c: char) -> bool {
    c == ' ' || c == '\t' || c == '\r' || c == '\n'
}

pub open spec fn is_digit_char(c: char) -> bool {
    48 <= (c as u32) && (c as u32) <= 57
}

pub open spec fn digit_val(c: char) -> nat {
    ((c as u32) - 48) as nat
}

pub open spec fn all_digits(s: Seq<char>) -> bool {
    forall|i: int| 0 <= i < s.len() ==> is_digit_char(#[trigger] s[i])
}

/// Executable whitespace test.
pub fn ws_char(c: char) -> (r: bool)
    ensures
        r == is_ws_char(c),
{
    c == ' ' || c == '\t' || c == '\r' || c == '\n'
}

/// Executable digit test.
pub fn digit_char_test(c: char) -> (r: bool)
    ensures
        r == is_digit_char(c),
{
    let u = c as u32;
    48 <= u && u <= 57
}

// ---------------------------------------------------------------------------
// Reading single characters
// ---------------------------------------------------------------------------

/// One character of `s`, by index.
pub fn char_at(s: &str, i: usize) -> (c: char)
    requires
        i < s@.len(),
    ensures
        c == s@[i as int],
{
    s.get_char(i)
}

/// The character count of `s`.
pub fn str_len(s: &str) -> (n: usize)
    ensures
        n == s@.len(),
{
    s.unicode_len()
}

// ---------------------------------------------------------------------------
// Building strings
// ---------------------------------------------------------------------------

/// Relies on `String::push`: appends exactly the given character.
#[verifier::external_body]
pub fn push_char(s: &mut String, c: char)
    ensures
        final(s)@ == old(s)@ + seq![c],
{
    s.push(c);
}

/// A fresh copy of the character range `[from, to)` of `s`.
pub fn substring_copy(s: &str, from: usize, to: usize) -> (r: String)
    requires
        from <= to <= s@.len(),
    ensures
        r@ == s@.subrange(from as int, to as int),
{
    let mut r = String::new();
    let mut i = from;
    while i < to
        invariant
            from <= i <= to <= s@.len(),
            r@ == s@.subrange(from as int, i as int),
        decreases to - i,
    {
        let c = s.get_char(i);
        push_char(&mut r, c);
        proof {
            assert(r@ =~= s@.subrange(from as int, i as int + 1));
        }
        i = i + 1;
    }
    r
}

// ---------------------------------------------------------------------------
// Searching
// ---------------------------------------------------------------------------

/// Does `pat` occur in `s` starting at position `at`?
pub open spec fn match_at_spec(s: Seq<char>, pat: Seq<char>, at: int) -> bool {
    0 <= at && at + pat.len() <= s.len() && s.subrange(at, at + pat.len()) == pat
}

/// Does `pat` occur anywhere in `s`?
pub open spec fn contains_sub_spec(s: Seq<char>, pat: Seq<char>) -> bool {
    exists|i: int| match_at_spec(s, pat, i)
}

/// Whether `pat` occurs in `s` at position `at`.
pub fn match_at(s: &str, pat: &str, at: usize) -> (r: bool)
    requires
        at <= s@.len(),
    ensures
        r == match_at_spec(s@, pat@, at as int),
{
    let n = s.unicode_len();
    let m = pat.unicode_len();
    if m > n - at {
        proof {
            assert(at + pat@.len() > s@.len());
        }
        return false;
    }
    let mut j: usize = 0;
    while j < m
        invariant
            0 <= j <= m == pat@.len(),
            at + m <= n == s@.len(),
            forall|k: int| 0 <= k < j ==> s@[at + k] == pat@[k],
        decreases m - j,
    {
        if s.get_char(at + j) != pat.get_char(j) {
            proof {
                assert(s@.subrange(at as int, at + pat@.len())[j as int] != pat@[j as int]);
            }
            return false;
        }
        j = j + 1;
    }
    proof {
        assert(s@.subrange(at as int, at + pat@.len()) =~= pat@);
    }
    true
}

/// Character-for-character equality of two string slices.
pub fn str_eq(a: &str, b: &str) -> (r: bool)
    ensures
        r == (a@ == b@),
{
    let n = a.unicode_len();
    let m = b.unicode_len();
    if n != m {
        return false;
    }
    let r = match_at(a, b, 0);
    proof {
        if r {
            assert(a@.subrange(0, b@.len() as int) =~= a@);
        } else {
            if a@ == b@ {
                assert(a@.subrange(0, b@.len() as int) =~= b@);
            }
        }
    }
    r
}

/// Whether `s` begins with `pat`.
pub open spec fn starts_with_spec(s: Seq<char>, pat: Seq<char>) -> bool {
    match_at_spec(s, pat, 0)
}

pub fn starts_with(s: &str, pat: &str) -> (r: bool)
    ensures
        r == starts_with_spec(s@, pat@),
{
    match_at(s, pat, 0)
}

/// The first index at or after `i` where `pat` occurs, `-1` if none.
pub open spec fn first_sub_idx(s: Seq<char>, pat: Seq<char>, i: int) -> int
    decreases s.len() - i + 1
        when 0 <= i
{
    if i > s.len() || i + pat.len() > s.len() {
        -1
    } else if match_at_spec(s, pat, i) {
        i
    } else {
        first_sub_idx(s, pat, i + 1)
    }
}

proof fn lemma_first_sub_from(s: Seq<char>, pat: Seq<char>, i: int, k: int)
    requires
        0 <= i <= k,
        forall|j: int| i <= j < k ==> !match_at_spec(s, pat, j),
        match_at_spec(s, pat, k),
    ensures
        first_sub_idx(s, pat, i) == k,
    decreases k - i,
{
    if i < k {
        lemma_first_sub_from(s, pat, i + 1, k);
    }
}

proof fn lemma_first_sub_none(s: Seq<char>, pat: Seq<char>, i: int)
    requires
        0 <= i,
        forall|j: int| !match_at_spec(s, pat, j),
    ensures
        first_sub_idx(s, pat, i) == -1,
    decreases s.len() - i + 1,
{
    if i + pat.len() <= s.len() {
        lemma_first_sub_none(s, pat, i + 1);
    }
}

/// The first position where `pat` occurs in `s`, scanning left to right.
pub fn find_sub(s: &str, pat: &str) -> (r: Option<usize>)
    ensures
        match r {
            Some(i) => match_at_spec(s@, pat@, i as int) && forall|j: int|
                0 <= j < i ==> !match_at_spec(s@, pat@, j),
            None => forall|j: int| !match_at_spec(s@, pat@, j),
        },
        match r {
            Some(i) => first_sub_idx(s@, pat@, 0) == i,
            None => first_sub_idx(s@, pat@, 0) == -1,
        },
{
    let r = find_sub_inner(s, pat);
    proof {
        match r {
            Some(i) => lemma_first_sub_from(s@, pat@, 0, i as int),
            None => lemma_first_sub_none(s@, pat@, 0),
        }
    }
    r
}

fn find_sub_inner(s: &str, pat: &str) -> (r: Option<usize>)
    ensures
        match r {
            Some(i) => match_at_spec(s@, pat@, i as int) && forall|j: int|
                0 <= j < i ==> !match_at_spec(s@, pat@, j),
            None => forall|j: int| !match_at_spec(s@, pat@, j),
        },
{
    let n = s.unicode_len();
    let mut i: usize = 0;
    while i < n
        invariant
            0 <= i <= n == s@.len(),
            forall|j: int| 0 <= j < i ==> !match_at_spec(s@, pat@, j),
        decreases n - i,
    {
        if match_at(s, pat, i) {
            return Some(i);
        }
        i = i + 1;
    }
    if match_at(s, pat, n) {
        return Some(n);
    }
    proof {
        assert(forall|j: int| match_at_spec(s@, pat@, j) ==> 0 <= j <= s@.len());
    }
    None
}

/// Whether `pat` occurs anywhere in `s`.
pub fn contains_sub(s: &str, pat: &str) -> (r: bool)
    ensures
        r == contains_sub_spec(s@, pat@),
{
    match find_sub(s, pat) {
        Some(_) => true,
        None => false,
    }
}

/// The index of the first `c` in `s`, `-1` if there is none.
pub open spec fn first_char_idx(s: Seq<char>, c: char) -> int {
    if non_char_prefix_len(s, c) == s.len() {
        -1
    } else {
        non_char_prefix_len(s, c) as int
    }
}

/// The index of the last `c` in `s`, `-1` if there is none.
pub open spec fn last_char_idx(s: Seq<char>, c: char) -> int {
    s.len() - 1 - non_char_prefix_len(s.reverse(), c)
}

/// The first position of character `c` in `s`.
pub fn find_char(s: &str, c: char) -> (r: Option<usize>)
    ensures
        match r {
            Some(i) => i < s@.len() && s@[i as int] == c && forall|j: int|
                0 <= j < i ==> s@[j] != c,
            None => forall|j: int| 0 <= j < s@.len() ==> s@[j] != c,
        },
        match r {
            Some(i) => first_char_idx(s@, c) == i,
            None => first_char_idx(s@, c) == -1,
        },
{
    let n = s.unicode_len();
    let mut i: usize = 0;
    while i < n
        invariant
            0 <= i <= n == s@.len(),
            forall|j: int| 0 <= j < i ==> s@[j] != c,
        decreases n - i,
    {
        if s.get_char(i) == c {
            proof {
                lemma_non_char_prefix(s@, c, i as int);
            }
            return Some(i);
        }
        i = i + 1;
    }
    proof {
        lemma_non_char_prefix(s@, c, n as int);
    }
    None
}

/// The last position of character `c` in `s`.
pub fn rfind_char(s: &str, c: char) -> (r: Option<usize>)
    ensures
        match r {
            Some(i) => i < s@.len() && s@[i as int] == c && forall|j: int|
                i < j < s@.len() ==> s@[j] != c,
            None => forall|j: int| 0 <= j < s@.len() ==> s@[j] != c,
        },
        match r {
            Some(i) => last_char_idx(s@, c) == i,
            None => last_char_idx(s@, c) == -1,
        },
{
    let n = s.unicode_len();
    let mut i: usize = n;
    while i > 0
        invariant
            0 <= i <= n == s@.len(),
            forall|j: int| i <= j < s@.len() ==> s@[j] != c,
        decreases i,
    {
        i = i - 1;
        if s.get_char(i) == c {
            proof {
                let rev = s@.reverse();
                assert forall|j: int| 0 <= j < n - 1 - i implies rev[j] != c by {
                    assert(rev[j] == s@[n - 1 - j]);
                }
                assert(rev[n - 1 - i] == s@[i as int]);
                lemma_non_char_prefix(rev, c, n - 1 - i);
            }
            return Some(i);
        }
    }
    proof {
        let rev = s@.reverse();
        assert forall|j: int| 0 <= j < n implies rev[j] != c by {
            assert(rev[j] == s@[n - 1 - j]);
        }
        lemma_non_char_prefix(rev, c, n as int);
    }
    None
}

/// Whether `s` contains the character `c`.
pub fn contains_char(s: &str, c: char) -> (r: bool)
    ensures
        r == s@.contains(c),
{
    let r = find_char(s, c);
    proof {
        if s@.contains(c) {
            let w = choose|w: int| 0 <= w < s@.len() && s@[w] == c;
            assert(r is Some);
        }
    }
    match r {
        Some(_) => true,
        None => false,
    }
}

// ---------------------------------------------------------------------------
// Decimal numbers: reading
// ---------------------------------------------------------------------------

/// The value of a digit string, most significant digit first.
pub open spec fn dec_val(s: Seq<char>) -> nat
    decreases s.len(),
{
    if s.len() == 0 {
        0
    } else {
        dec_val(s.drop_last()) * 10 + digit_val(s.last())
    }
}

/// Extending a digit string on the right never decreases its value.
proof fn lemma_dec_val_prefix_le(s: Seq<char>, i: int)
    requires
        0 <= i <= s.len(),
    ensures
        dec_val(s.take(i)) <= dec_val(s),
    decreases s.len() - i,
{
    if i < s.len() {
        lemma_dec_val_prefix_le(s, i + 1);
        assert(s.take(i + 1).drop_last() =~= s.take(i));
        assert(dec_val(s.take(i)) <= dec_val(s.take(i + 1)));
    } else {
        assert(s.take(i) =~= s);
    }
}

/// Decimal parse of an unsigned number: all digits, no sign, no spaces.
/// `Some` exactly on non-empty digit strings whose value fits in `u32`.
pub fn parse_u32(s: &str) -> (r: Option<u32>)
    ensures
        (r is Some) <==> (s@.len() > 0 && all_digits(s@) && dec_val(s@) <= u32::MAX),
        r matches Some(v) ==> v == dec_val(s@),
{
    let n = s.unicode_len();
    if n == 0 {
        return None;
    }
    let mut acc: u64 = 0;
    let mut i: usize = 0;
    while i < n
        invariant
            0 <= i <= n == s@.len(),
            n > 0,
            all_digits(s@.take(i as int)),
            acc == dec_val(s@.take(i as int)),
            acc <= u32::MAX,
        decreases n - i,
    {
        let c = s.get_char(i);
        if !digit_char_test(c) {
            return None;
        }
        let d: u64 = (c as u32 - 48) as u64;
        acc = acc * 10 + d;
        proof {
            assert(s@.take(i as int + 1).drop_last() =~= s@.take(i as int));
            assert(s@.take(i as int + 1).last() == c);
        }
        i = i + 1;
        if acc > u32::MAX as u64 {
            proof {
                lemma_dec_val_prefix_le(s@, i as int);
            }
            return None;
        }
    }
    proof {
        assert(s@.take(n as int) =~= s@);
    }
    Some(acc as u32)
}

/// As `parse_u32`, for port numbers.
pub fn parse_u16(s: &str) -> (r: Option<u16>)
    ensures
        (r is Some) <==> (s@.len() > 0 && all_digits(s@) && dec_val(s@) <= u16::MAX),
        r matches Some(v) ==> v == dec_val(s@),
{
    match parse_u32(s) {
        Some(v) => {
            if v <= 65535 {
                Some(v as u16)
            } else {
                None
            }
        },
        None => None,
    }
}

// ---------------------------------------------------------------------------
// Decimal numbers: writing
// ---------------------------------------------------------------------------

/// The digit character for a value below ten.
pub open spec fn digit_char_spec(d: nat) -> char {
    if d == 0 { '0' }
    else if d == 1 { '1' }
    else if d == 2 { '2' }
    else if d == 3 { '3' }
    else if d == 4 { '4' }
    else if d == 5 { '5' }
    else if d == 6 { '6' }
    else if d == 7 { '7' }
    else if d == 8 { '8' }
    else { '9' }
}

fn digit_char(d: u32) -> (c: char)
    requires
        d < 10,
    ensures
        c == digit_char_spec(d as nat),
{
    if d == 0 { '0' }
    else if d == 1 { '1' }
    else if d == 2 { '2' }
    else if d == 3 { '3' }
    else if d == 4 { '4' }
    else if d == 5 { '5' }
    else if d == 6 { '6' }
    else if d == 7 { '7' }
    else if d == 8 { '8' }
    else { '9' }
}

/// The decimal rendering of `n`, without leading zeros (`0` for zero).
pub open spec fn dec_digits(n: nat) -> Seq<char>
    decreases n,
{
    if n < 10 {
        seq![digit_char_spec(n)]
    } else {
        dec_digits(n / 10) + seq![digit_char_spec(n % 10)]
    }
}

/// Appends the decimal rendering of `n` to `s`.
pub fn push_dec(s: &mut String, n: u32)
    ensures
        final(s)@ == old(s)@ + dec_digits(n as nat),
    decreases n,
{
    if n < 10 {
        push_char(s, digit_char(n));
    } else {
        push_dec(s, n / 10);
        push_char(s, digit_char(n % 10));
        proof {
            assert(old(s)@ + dec_digits((n / 10) as nat) + seq![digit_char_spec((n % 10) as nat)]
                =~= old(s)@ + dec_digits(n as nat));
        }
    }
}

/// The decimal rendering of `n` as a `String`.
pub fn u32_to_string(n: u32) -> (r: String)
    ensures
        r@ == dec_digits(n as nat),
{
    let mut r = String::new();
    push_dec(&mut r, n);
    proof {
        assert(r@ =~= dec_digits(n as nat));
    }
    r
}

/// The number of digits in the decimal rendering of `n`.
pub open spec fn dec_len(n: nat) -> nat
    decreases n,
{
    if n < 10 {
        1
    } else {
        1 + dec_len(n / 10)
    }
}

pub proof fn lemma_dec_digits_len(n: nat)
    ensures
        dec_digits(n).len() == dec_len(n),
    decreases n,
{
    if n >= 10 {
        lemma_dec_digits_len(n / 10);
    }
}

fn dec_len_exec(n: u32) -> (r: usize)
    ensures
        r == dec_len(n as nat),
        1 <= r <= 10,
{
    proof {
        reveal_with_fuel(dec_len, 11);
    }
    if n < 10 { 1 }
    else if n < 100 { 2 }
    else if n < 1000 { 3 }
    else if n < 10000 { 4 }
    else if n < 100000 { 5 }
    else if n < 1000000 { 6 }
    else if n < 10000000 { 7 }
    else if n < 100000000 { 8 }
    else if n < 1000000000 { 9 }
    else { 10 }
}

/// The decimal rendering of `n`, left-padded with zeros to at least `w` digits.
pub open spec fn pad_digits(n: nat, w: nat) -> Seq<char> {
    if dec_len(n) >= w {
        dec_digits(n)
    } else {
        Seq::new((w - dec_len(n)) as nat, |i: int| '0') + dec_digits(n)
    }
}

/// Appends the zero-padded decimal rendering of `n` to `s`.
pub fn push_dec_pad(s: &mut String, n: u32, w: usize)
    requires
        w <= 14,
    ensures
        final(s)@ == old(s)@ + pad_digits(n as nat, w as nat),
{
    let len = dec_len_exec(n);
    let mut k: usize = len;
    while k < w
        invariant
            len == dec_len(n as nat),
            len <= k <= w || (k == len && len >= w),
            s@ == old(s)@ + Seq::new((k - len) as int as nat, |i: int| '0'),
        decreases w - k,
    {
        push_char(s, '0');
        proof {
            assert(s@ =~= old(s)@ + Seq::new((k + 1 - len) as nat, |i: int| '0'));
        }
        k = k + 1;
    }
    push_dec(s, n);
    proof {
        lemma_dec_digits_len(n as nat);
        if dec_len(n as nat) >= w as nat {
            assert(s@ =~= old(s)@ + pad_digits(n as nat, w as nat));
        } else {
            assert(s@ =~= old(s)@ + pad_digits(n as nat, w as nat));
        }
    }
}

// ---------------------------------------------------------------------------
// ASCII case folding
// ---------------------------------------------------------------------------

/// ASCII lower-casing of one character; other characters are unchanged.
pub open spec fn lower_char_spec(c: char) -> char {
    if c == 'A' { 'a' } else if c == 'B' { 'b' } else if c == 'C' { 'c' }
    else if c == 'D' { 'd' } else if c == 'E' { 'e' } else if c == 'F' { 'f' }
    else if c == 'G' { 'g' } else if c == 'H' { 'h' } else if c == 'I' { 'i' }
    else if c == 'J' { 'j' } else if c == 'K' { 'k' } else if c == 'L' { 'l' }
    else if c == 'M' { 'm' } else if c == 'N' { 'n' } else if c == 'O' { 'o' }
    else if c == 'P' { 'p' } else if c == 'Q' { 'q' } else if c == 'R' { 'r' }
    else if c == 'S' { 's' } else if c == 'T' { 't' } else if c == 'U' { 'u' }
    else if c == 'V' { 'v' } else if c == 'W' { 'w' } else if c == 'X' { 'x' }
    else if c == 'Y' { 'y' } else if c == 'Z' { 'z' }
    else { c }
}

/// ASCII lower-casing of a string, character by character.
pub open spec fn lower_spec(s: Seq<char>) -> Seq<char> {
    s.map_values(|c: char| lower_char_spec(c))
}

fn lower_char(c: char) -> (r: char)
    ensures
        r == lower_char_spec(c),
{
    if c == 'A' { 'a' } else if c == 'B' { 'b' } else if c == 'C' { 'c' }
    else if c == 'D' { 'd' } else if c == 'E' { 'e' } else if c == 'F' { 'f' }
    else if c == 'G' { 'g' } else if c == 'H' { 'h' } else if c == 'I' { 'i' }
    else if c == 'J' { 'j' } else if c == 'K' { 'k' } else if c == 'L' { 'l' }
    else if c == 'M' { 'm' } else if c == 'N' { 'n' } else if c == 'O' { 'o' }
    else if c == 'P' { 'p' } else if c == 'Q' { 'q' } else if c == 'R' { 'r' }
    else if c == 'S' { 's' } else if c == 'T' { 't' } else if c == 'U' { 'u' }
    else if c == 'V' { 'v' } else if c == 'W' { 'w' } else if c == 'X' { 'x' }
    else if c == 'Y' { 'y' } else if c == 'Z' { 'z' }
    else { c }
}

/// A lower-cased copy of `s` (ASCII letters only; the inputs scanned here
/// are tool output whose markers are ASCII).
pub fn to_lower(s: &str) -> (r: String)
    ensures
        r@ == lower_spec(s@),
{
    let n = s.unicode_len();
    let mut r = String::new();
    let mut i: usize = 0;
    while i < n
        invariant
            0 <= i <= n == s@.len(),
            r@ == lower_spec(s@.take(i as int)),
        decreases n - i,
    {
        let c = lower_char(s.get_char(i));
        push_char(&mut r, c);
        proof {
            assert(r@ =~= lower_spec(s@.take(i as int + 1)));
        }
        i = i + 1;
    }
    proof {
        assert(s@.take(n as int) =~= s@);
    }
    r
}

// ---------------------------------------------------------------------------
// Trimming
// ---------------------------------------------------------------------------

/// The number of leading whitespace characters of `s`.
pub open spec fn ws_prefix_len(s: Seq<char>) -> int
    decreases s.len(),
{
    if s.len() == 0 || !is_ws_char(s[0]) {
        0
    } else {
        1 + ws_prefix_len(s.drop_first())
    }
}

proof fn lemma_ws_prefix_le(s: Seq<char>)
    ensures
        0 <= ws_prefix_len(s) <= s.len(),
        forall|j: int| 0 <= j < ws_prefix_len(s) ==> is_ws_char(s[j]),
        ws_prefix_len(s) < s.len() ==> !is_ws_char(s[ws_prefix_len(s)]),
    decreases s.len(),
{
    if s.len() > 0 && is_ws_char(s[0]) {
        lemma_ws_prefix_le(s.drop_first());
        assert forall|j: int| 0 <= j < ws_prefix_len(s) implies is_ws_char(s[j]) by {
            if j > 0 {
                assert(s[j] == s.drop_first()[j - 1]);
            }
        }
        if ws_prefix_len(s) < s.len() {
            assert(s[ws_prefix_len(s)] == s.drop_first()[ws_prefix_len(s) - 1]);
        }
    }
}

proof fn lemma_ws_prefix_char(s: Seq<char>, k: int)
    requires
        0 <= k <= s.len(),
        forall|j: int| 0 <= j < k ==> is_ws_char(s[j]),
        k < s.len() ==> !is_ws_char(s[k]),
    ensures
        ws_prefix_len(s) == k,
    decreases k,
{
    if k > 0 {
        lemma_ws_prefix_char(s.drop_first(), k - 1);
    }
}

/// `s` with leading and trailing whitespace removed.
pub open spec fn trim_spec(s: Seq<char>) -> Seq<char> {
    let a = ws_prefix_len(s);
    let r = s.skip(a);
    let b = ws_prefix_len(r.reverse());
    r.take(r.len() - b)
}

/// A trimmed copy of `s`.
pub fn trim(s: &str) -> (r: String)
    ensures
        r@ == trim_spec(s@),
{
    let n = s.unicode_len();
    let mut a: usize = 0;
    while a < n && ws_char(s.get_char(a))
        invariant
            0 <= a <= n == s@.len(),
            forall|j: int| 0 <= j < a ==> is_ws_char(s@[j]),
        decreases n - a,
    {
        a = a + 1;
    }
    let mut b: usize = n;
    while b > a && ws_char(s.get_char(b - 1))
        invariant
            a <= b <= n == s@.len(),
            forall|j: int| 0 <= j < a ==> is_ws_char(s@[j]),
            a < n ==> !is_ws_char(s@[a as int]),
            forall|j: int| b <= j < s@.len() ==> is_ws_char(s@[j]),
        decreases b,
    {
        b = b - 1;
    }
    let r = substring_copy(s, a, b);
    proof {
        let rest = s@.skip(a as int);
        lemma_ws_prefix_char(s@, a as int);
        lemma_ws_prefix_char(rest.reverse(), s@.len() - b);
        assert(r@ =~= trim_spec(s@));
    }
    r
}

// ---------------------------------------------------------------------------
// Splitting on whitespace
// ---------------------------------------------------------------------------

/// The length of the leading run of non-whitespace characters.
pub open spec fn token_len(s: Seq<char>) -> nat
    decreases s.len(),
{
    if s.len() == 0 || is_ws_char(s[0]) {
        0
    } else {
        1 + token_len(s.drop_first())
    }
}

proof fn lemma_token_len_le(s: Seq<char>)
    ensures
        token_len(s) <= s.len(),
    decreases s.len(),
{
    if s.len() > 0 && !is_ws_char(s[0]) {
        lemma_token_len_le(s.drop_first());
    }
}

proof fn lemma_token_len_char(s: Seq<char>, k: int)
    requires
        0 <= k <= s.len(),
        forall|j: int| 0 <= j < k ==> !is_ws_char(s[j]),
        k < s.len() ==> is_ws_char(s[k]),
    ensures
        token_len(s) == k,
    decreases k,
{
    if k > 0 {
        lemma_token_len_char(s.drop_first(), k - 1);
    }
}

/// The whitespace-separated tokens of `s`, in order, with empty tokens
/// dropped — the behaviour of splitting on whitespace runs.
pub open spec fn split_ws_spec(s: Seq<char>) -> Seq<Seq<char>>
    decreases s.len(),
{
    if s.len() == 0 {
        seq![]
    } else if is_ws_char(s[0]) {
        split_ws_spec(s.drop_first())
    } else {
        let t = token_len(s);
        if 0 < t <= s.len() {
            seq![s.take(t as int)] + split_ws_spec(s.skip(t as int))
        } else {
            seq![]
        }
    }
}

/// The whitespace-separated tokens of `s`.
pub fn split_ws(s: &str) -> (r: Vec<String>)
    ensures
        r.deep_view() == split_ws_spec(s@),
{
    let n = s.unicode_len();
    let mut out: Vec<String> = Vec::new();
    proof {
        assert(s@.skip(0) =~= s@);
        assert(out.deep_view() =~= Seq::<Seq<char>>::empty());
    }
    let mut i: usize = 0;
    while i < n
        invariant
            0 <= i <= n == s@.len(),
            split_ws_spec(s@) == out.deep_view() + split_ws_spec(s@.skip(i as int)),
        decreases n - i,
    {
        let c = s.get_char(i);
        if ws_char(c) {
            proof {
                assert(s@.skip(i as int).drop_first() =~= s@.skip(i as int + 1));
            }
            i = i + 1;
        } else {
            let ghost start = i as int;
            let mut tok = String::new();
            let mut j = i;
            while j < n && !ws_char(s.get_char(j))
                invariant
                    start <= j <= n == s@.len(),
                    0 <= start < n,
                    forall|k: int| start <= k < j ==> !is_ws_char(s@[k]),
                    tok@ == s@.subrange(start, j as int),
                decreases n - j,
            {
                let cj = s.get_char(j);
                push_char(&mut tok, cj);
                proof {
                    assert(tok@ =~= s@.subrange(start, j as int + 1));
                }
                j = j + 1;
            }
            proof {
                let rest = s@.skip(start);
                assert forall|k: int| 0 <= k < j - start implies !is_ws_char(rest[k]) by {
                    assert(rest[k] == s@[start + k]);
                }
                if j < n {
                    assert(rest[j - start] == s@[j as int]);
                }
                lemma_token_len_char(rest, j - start);
                assert(rest.take(j - start) =~= s@.subrange(start, j as int));
                assert(rest.skip(j - start) =~= s@.skip(j as int));
                assert(split_ws_spec(rest) == seq![tok@] + split_ws_spec(s@.skip(j as int)));
            }
            let ghost old_out = out.deep_view();
            out.push(tok);
            proof {
                assert(out.deep_view() =~= old_out + seq![s@.subrange(start, j as int)]);
                assert(out.deep_view() + split_ws_spec(s@.skip(j as int)) =~= split_ws_spec(s@));
            }
            i = j;
        }
    }
    proof {
        assert(s@.skip(n as int) =~= Seq::<char>::empty());
        assert(out.deep_view() =~= split_ws_spec(s@));
    }
    out
}

// ---------------------------------------------------------------------------
// Splitting on a separator character
// ---------------------------------------------------------------------------

/// `ss` with `p` prefixed onto its first element.
pub open spec fn prepend_first(p: Seq<char>, ss: Seq<Seq<char>>) -> Seq<Seq<char>> {
    seq![p + ss[0]] + ss.drop_first()
}

/// The fields of `s` separated by `sep`, empty fields kept — the behaviour
/// of splitting on a single character.
pub open spec fn split_char_spec(s: Seq<char>, sep: char) -> Seq<Seq<char>>
    decreases s.len(),
{
    if s.len() == 0 {
        seq![Seq::<char>::empty()]
    } else if s[0] == sep {
        seq![Seq::<char>::empty()] + split_char_spec(s.drop_first(), sep)
    } else {
        prepend_first(seq![s[0]], split_char_spec(s.drop_first(), sep))
    }
}

pub proof fn lemma_split_char_nonempty(s: Seq<char>, sep: char)
    ensures
        split_char_spec(s, sep).len() >= 1,
    decreases s.len(),
{
    if s.len() > 0 && s[0] != sep {
        lemma_split_char_nonempty(s.drop_first(), sep)
    }
}

proof fn lemma_prepend_assoc(p: Seq<char>, q: Seq<char>, ss: Seq<Seq<char>>)
    requires
        ss.len() >= 1,
    ensures
        prepend_first(p, prepend_first(q, ss)) =~= prepend_first(p + q, ss),
{
    assert((p + (q + ss[0])) =~= ((p + q) + ss[0]));
}

/// The fields of `s`, split on `sep`.
pub fn split_char(s: &str, sep: char) -> (r: Vec<String>)
    ensures
        r.deep_view() == split_char_spec(s@, sep),
        r.len() >= 1,
{
    let n = s.unicode_len();
    let mut out: Vec<String> = Vec::new();
    let mut cur = String::new();
    proof {
        assert(s@.skip(0) =~= s@);
        assert(out.deep_view() =~= Seq::<Seq<char>>::empty());
    }
    let mut i: usize = 0;
    while i < n
        invariant
            0 <= i <= n == s@.len(),
            split_char_spec(s@, sep) == out.deep_view() + prepend_first(
                cur@,
                split_char_spec(s@.skip(i as int), sep),
            ),
        decreases n - i,
    {
        let ghost rest = s@.skip(i as int);
        let ghost rest1 = s@.skip(i as int + 1);
        proof {
            assert(rest.drop_first() =~= rest1);
            assert(rest[0] == s@[i as int]);
            lemma_split_char_nonempty(rest1, sep);
        }
        let c = s.get_char(i);
        if c == sep {
            let ghost old_out = out.deep_view();
            let done = cur;
            proof {
                assert(prepend_first(done@, split_char_spec(rest, sep)) =~~= seq![done@]
                    + split_char_spec(rest1, sep));
            }
            out.push(done);
            cur = String::new();
            proof {
                assert(out.deep_view() =~= old_out + seq![done@]);
                assert(prepend_first(cur@, split_char_spec(rest1, sep)) =~~= split_char_spec(
                    rest1,
                    sep,
                ));
                assert(out.deep_view() + prepend_first(cur@, split_char_spec(rest1, sep))
                    =~~= split_char_spec(s@, sep));
            }
        } else {
            let ghost prev = cur@;
            push_char(&mut cur, c);
            proof {
                lemma_prepend_assoc(prev, seq![c], split_char_spec(rest1, sep));
                assert(prev + seq![c] =~= cur@);
                assert(split_char_spec(rest, sep) =~~= prepend_first(
                    seq![c],
                    split_char_spec(rest1, sep),
                ));
                assert(prepend_first(cur@, split_char_spec(rest1, sep)) == prepend_first(
                    prev + seq![c],
                    split_char_spec(rest1, sep),
                ));
                assert(out.deep_view() + prepend_first(cur@, split_char_spec(rest1, sep))
                    =~~= split_char_spec(s@, sep));
            }
        }
        i = i + 1;
    }
    let ghost old_out = out.deep_view();
    let ghost last = cur@;
    out.push(cur);
    proof {
        assert(s@.skip(n as int) =~= Seq::<char>::empty());
        assert(prepend_first(last, split_char_spec(Seq::<char>::empty(), sep)) =~~= seq![last]);
        assert(out.deep_view() =~= old_out + seq![last]);
        assert(out.deep_view() =~~= split_char_spec(s@, sep));
    }
    out
}

// ---------------------------------------------------------------------------
// Fixed-point decimals (thousandths)
// ---------------------------------------------------------------------------

/// The length of the leading run of characters other than `c`.
pub open spec fn non_char_prefix_len(s: Seq<char>, c: char) -> nat
    decreases s.len(),
{
    if s.len() == 0 || s[0] == c {
        0
    } else {
        1 + non_char_prefix_len(s.drop_first(), c)
    }
}

/// The integer part of a decimal string: everything before the first dot.
pub open spec fn int_part(s: Seq<char>) -> Seq<char> {
    s.take(non_char_prefix_len(s, '.') as int)
}

/// The fractional part: everything after the first dot, empty if no dot.
pub open spec fn frac_part(s: Seq<char>) -> Seq<char> {
    if non_char_prefix_len(s, '.') == s.len() {
        Seq::empty()
    } else {
        s.skip(non_char_prefix_len(s, '.') as int + 1)
    }
}

/// A well-formed unsigned decimal: digits, at most one dot, and at least
/// one digit somewhere.
pub open spec fn milli_wf(s: Seq<char>) -> bool {
    &&& all_digits(int_part(s))
    &&& all_digits(frac_part(s))
    &&& !frac_part(s).contains('.')
    &&& int_part(s).len() + frac_part(s).len() > 0
}

/// The value of the fractional digits in thousandths, truncated after
/// three digits.
pub open spec fn frac_milli(f: Seq<char>) -> nat {
    if f.len() == 0 {
        0
    } else if f.len() == 1 {
        dec_val(f) * 100
    } else if f.len() == 2 {
        dec_val(f) * 10
    } else {
        dec_val(f.take(3))
    }
}

/// The value of a well-formed decimal string, in thousandths.
pub open spec fn milli_val(s: Seq<char>) -> nat {
    dec_val(int_part(s)) * 1000 + frac_milli(frac_part(s))
}

/// A digit string of at most three digits stays below one thousand.
proof fn lemma_dec_val_small(s: Seq<char>)
    requires
        all_digits(s),
        s.len() <= 3,
    ensures
        s.len() == 1 ==> dec_val(s) <= 9,
        s.len() == 2 ==> dec_val(s) <= 99,
        s.len() == 3 ==> dec_val(s) <= 999,
    decreases s.len(),
{
    if s.len() > 0 {
        assert forall|i: int| 0 <= i < s.drop_last().len() implies is_digit_char(
            #[trigger] s.drop_last()[i],
        ) by {
            assert(s.drop_last()[i] == s[i]);
        }
        lemma_dec_val_small(s.drop_last());
        assert(s.last() == s[s.len() - 1]);
        assert(is_digit_char(s.last()));
        assert(digit_val(s.last()) <= 9);
        assert(dec_val(s) == dec_val(s.drop_last()) * 10 + digit_val(s.last()));
    }
}

/// Decimal parse into thousandths: `"1.234"` gives `1234`, `"7"` gives
/// `7000`. Fractional digits beyond the third are truncated. `Some`
/// exactly on well-formed decimals whose integer part fits in `u32`.
pub fn parse_milli(s: &str) -> (r: Option<u64>)
    ensures
        (r is Some) <==> (milli_wf(s@) && dec_val(int_part(s@)) <= u32::MAX),
        r matches Some(v) ==> v == milli_val(s@),
{
    let n = s.unicode_len();
    let dot = find_char(s, '.');
    let ghost ip = int_part(s@);
    let ghost fp = frac_part(s@);
    let (dpos, has_dot): (usize, bool) = match dot {
        Some(p) => (p, true),
        None => (n, false),
    };
    proof {
        lemma_non_char_prefix(s@, '.', dpos as int);
        assert(ip =~= s@.take(dpos as int));
        if has_dot {
            assert(fp =~= s@.skip(dpos as int + 1));
        }
    }
    let ipart = substring_copy(s, 0, dpos);
    let iv: u64 = if dpos > 0 {
        match parse_u32(ipart.as_str()) {
            Some(v) => v as u64,
            None => {
                return None;
            },
        }
    } else {
        0
    };
    proof {
        if dpos == 0 {
            assert(ip =~= Seq::<char>::empty());
        }
        assert(all_digits(ip));
        assert(iv == dec_val(ip));
    }
    if !has_dot {
        if dpos == 0 {
            return None;
        }
        proof {
            assert(fp =~= Seq::<char>::empty());
        }
        return Some(iv * 1000);
    }
    // scan the fractional digits, truncating after three
    let mut fv: u64 = 0;
    let mut cnt: usize = 0;
    let mut j: usize = dpos + 1;
    while j < n
        invariant
            dpos < j <= n == s@.len(),
            ip == int_part(s@),
            fp == frac_part(s@),
            fp =~= s@.skip(dpos as int + 1),
            all_digits(fp.take(j - dpos - 1)),
            !fp.take(j - dpos - 1).contains('.'),
            cnt == if j - dpos - 1 <= 3 { j - dpos - 1 } else { 3int },
            fv == dec_val(fp.take(cnt as int)),
            fv <= 999,
        decreases n - j,
    {
        let c = s.get_char(j);
        if !digit_char_test(c) {
            proof {
                assert(fp[j - dpos - 1] == s@[j as int]);
                if c == '.' {
                    assert(fp.contains('.'));
                } else {
                    assert(!all_digits(fp));
                }
            }
            return None;
        }
        proof {
            assert(fp[j - dpos - 1] == s@[j as int]);
            assert(fp.take(j - dpos) =~= fp.take(j - dpos - 1) + seq![s@[j as int]]);
            assert(forall|k: int| 0 <= k < j - dpos ==> fp.take(j - dpos)[k] == fp[k]);
        }
        if cnt < 3 {
            proof {
                lemma_dec_val_small(fp.take(cnt as int));
            }
            fv = fv * 10 + ((c as u32 - 48) as u64);
            cnt = cnt + 1;
            proof {
                assert(fp.take(cnt as int).drop_last() =~= fp.take(cnt - 1));
                assert(fp.take(cnt as int).last() == fp[cnt - 1]);
                lemma_dec_val_small(fp.take(cnt as int));
            }
        }
        j = j + 1;
    }
    proof {
        assert(fp.take(n - dpos - 1) =~= fp);
    }
    if dpos == 0 && n == dpos + 1 {
        // a lone dot: no digits at all
        proof {
            assert(int_part(s@).len() + frac_part(s@).len() == 0);
        }
        return None;
    }
    proof {
        assert(milli_wf(s@));
        if fp.len() == 0 {
            assert(frac_milli(fp) == 0);
        } else if fp.len() == 1 {
            assert(frac_milli(fp) == dec_val(fp) * 100);
            assert(fv == dec_val(fp.take(1)));
            assert(fp.take(1) =~= fp);
        } else if fp.len() == 2 {
            assert(fp.take(2) =~= fp);
        }
    }
    let f3: u64 = if cnt == 0 {
        0
    } else if cnt == 1 {
        fv * 100
    } else if cnt == 2 {
        fv * 10
    } else {
        fv
    };
    proof {
        assert(f3 == frac_milli(fp));
    }
    Some(iv * 1000 + f3)
}

// ---------------------------------------------------------------------------
// Lines, suffix trims, first-match scans
// ---------------------------------------------------------------------------

/// A line with a trailing carriage return stripped.
pub open spec fn strip_cr(l: Seq<char>) -> Seq<char> {
    if l.len() > 0 && l.last() == '\r' {
        l.drop_last()
    } else {
        l
    }
}

/// The lines of `s`: split on newlines, carriage returns stripped.
pub open spec fn lines_spec(s: Seq<char>) -> Seq<Seq<char>> {
    split_char_spec(s, '\n').map_values(|l: Seq<char>| strip_cr(l))
}

/// The lines of `s`.
pub fn split_lines(s: &str) -> (r: Vec<String>)
    ensures
        r.deep_view() == lines_spec(s@),
{
    let raw = split_char(s, '\n');
    let mut out: Vec<String> = Vec::new();
    let n = raw.len();
    let mut i: usize = 0;
    while i < n
        invariant
            0 <= i <= n == raw.len(),
            out.len() == i,
            forall|k: int| 0 <= k < i ==> out.deep_view()[k] == strip_cr(
                #[trigger] raw.deep_view()[k],
            ),
        decreases n - i,
    {
        let line = &raw[i];
        let ls = line.as_str();
        let m = ls.unicode_len();
        let stripped: String = if m > 0 && ls.get_char(m - 1) == '\r' {
            let t = substring_copy(ls, 0, m - 1);
            proof {
                assert(t@ =~= strip_cr(line@));
            }
            t
        } else {
            let t = substring_copy(ls, 0, m);
            proof {
                assert(t@ =~= line@);
            }
            t
        };
        proof {
            assert(raw.deep_view()[i as int] == raw@[i as int]@);
            assert(stripped@ == strip_cr(raw.deep_view()[i as int]));
        }
        out.push(stripped);
        i = i + 1;
    }
    proof {
        assert(out.deep_view() =~= lines_spec(s@));
    }
    out
}

/// The length of the leading run of exactly `c`.
pub open spec fn char_prefix_len(s: Seq<char>, c: char) -> nat
    decreases s.len(),
{
    if s.len() == 0 || s[0] != c {
        0
    } else {
        1 + char_prefix_len(s.drop_first(), c)
    }
}

proof fn lemma_char_prefix(s: Seq<char>, c: char, k: int)
    requires
        0 <= k <= s.len(),
        forall|j: int| 0 <= j < k ==> s[j] == c,
        k < s.len() ==> s[k] != c,
    ensures
        char_prefix_len(s, c) == k,
    decreases k,
{
    if k > 0 {
        lemma_char_prefix(s.drop_first(), c, k - 1);
    }
}

/// `s` with any trailing run of `c` removed.
pub open spec fn trim_trailing_spec(s: Seq<char>, c: char) -> Seq<char> {
    s.take(s.len() - char_prefix_len(s.reverse(), c))
}

/// A copy of `s` with trailing `c` characters removed.
pub fn trim_trailing(s: &str, c: char) -> (r: String)
    ensures
        r@ == trim_trailing_spec(s@, c),
{
    let n = s.unicode_len();
    let mut b: usize = n;
    while b > 0 && s.get_char(b - 1) == c
        invariant
            0 <= b <= n == s@.len(),
            forall|j: int| b <= j < s@.len() ==> s@[j] == c,
        decreases b,
    {
        b = b - 1;
    }
    let r = substring_copy(s, 0, b);
    proof {
        let rev = s@.reverse();
        assert forall|j: int| 0 <= j < s@.len() - b implies rev[j] == c by {
            assert(rev[j] == s@[s@.len() - 1 - j]);
        }
        if b > 0 {
            assert(rev[s@.len() - b] == s@[b - 1]);
        }
        lemma_char_prefix(rev, c, s@.len() - b);
        assert(r@ =~= trim_trailing_spec(s@, c));
    }
    r
}

pub proof fn lemma_non_char_prefix(s: Seq<char>, c: char, k: int)
    requires
        0 <= k <= s.len(),
        forall|j: int| 0 <= j < k ==> s[j] != c,
        k < s.len() ==> s[k] == c,
    ensures
        non_char_prefix_len(s, c) == k,
    decreases k,
{
    if k > 0 {
        lemma_non_char_prefix(s.drop_first(), c, k - 1);
    }
}

/// A decimal whose integer part fits `u32` is below `2^32` thousandths
/// of a thousand.
pub proof fn lemma_milli_fits(s: Seq<char>)
    requires
        milli_wf(s),
        dec_val(int_part(s)) <= u32::MAX,
    ensures
        milli_val(s) <= u32::MAX as nat * 1000 + 999,
{
    let f = frac_part(s);
    if f.len() == 0 {
    } else if f.len() == 1 {
        lemma_dec_val_small(f);
    } else if f.len() == 2 {
        lemma_dec_val_small(f);
    } else {
        assert forall|i: int| 0 <= i < f.take(3).len() implies is_digit_char(
            #[trigger] f.take(3)[i],
        ) by {
            assert(f.take(3)[i] == f[i]);
        }
        lemma_dec_val_small(f.take(3));
    }
}

} // verus!
