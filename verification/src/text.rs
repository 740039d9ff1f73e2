//! Character-sequence scanning primitives.
//!
//! All extraction rules in this crate are stated over `Seq<char>`, so the
//! executable code works on `Vec<char>` / `&[char]` and converts to and from
//! `String` only at the crate boundary.  Pattern matching comes in a
//! case-sensitive and an ASCII-case-insensitive flavour, selected by a flag,
//! mirroring the way the wiki markup treats template and header names.

use vstd::prelude::*;

verus! {

/// ASCII-case-insensitive character equality: equal, or equal after folding
/// an ASCII capital onto the corresponding small letter.
pub open spec fn ci_eq(a: char, b: char) -> bool {
    ||| a == b
    ||| (65 <= a as u32 && a as u32 <= 90 && a as u32 + 32 == b as u32)
    ||| (65 <= b as u32 && b as u32 <= 90 && b as u32 + 32 == a as u32)
}

/// Character equality under a sensitivity flag: `ci` selects
/// ASCII-case-insensitive comparison.
pub open spec fn chr_eq(ci: bool, a: char, b: char) -> bool {
    if ci {
        ci_eq(a, b)
    } else {
        a == b
    }
}

pub fn chr_eq_exec(ci: bool, a: char, b: char) -> (r: bool)
    ensures
        r == chr_eq(ci, a, b),
{
    let x = a as u32;
    let y = b as u32;
    if ci {
        x == y || (65 <= x && x <= 90 && x + 32 == y) || (65 <= y && y <= 90 && y + 32 == x)
    } else {
        x == y
    }
}

/// The pattern `p` occurs in `t` at position `i`.
pub open spec fn match_at(ci: bool, t: Seq<char>, p: Seq<char>, i: int) -> bool {
    &&& 0 <= i
    &&& i + p.len() <= t.len()
    &&& forall|k: int| 0 <= k < p.len() ==> chr_eq(ci, t[i + k], p[k])
}

/// The least position at or after `from` where `p` occurs in `t`.
pub open spec fn find_from(ci: bool, t: Seq<char>, p: Seq<char>, from: int) -> Option<int>
    decreases t.len() - from,
{
    if from < 0 || from + p.len() > t.len() {
        None
    } else if match_at(ci, t, p, from) {
        Some(from)
    } else {
        find_from(ci, t, p, from + 1)
    }
}

/// `t` contains `p` at or after `from`.
pub open spec fn contains_from(ci: bool, t: Seq<char>, p: Seq<char>, from: int) -> bool {
    find_from(ci, t, p, from) is Some
}

/// Relates an executable index option to a specification-level one.
pub open spec fn opt_idx(a: Option<usize>, b: Option<int>) -> bool {
    match a {
        Some(x) => b == Some(x as int),
        None => b is None,
    }
}

pub fn match_at_exec(ci: bool, t: &[char], p: &[char], i: usize) -> (r: bool)
    ensures
        r == match_at(ci, t@, p@, i as int),
{
    if i > t.len() || p.len() > t.len() - i {
        return false;
    }
    let mut k: usize = 0;
    while k < p.len()
        invariant
            0 <= k <= p.len(),
            i + p.len() <= t.len(),
            forall|j: int| 0 <= j < k ==> chr_eq(ci, t@[i + j], p@[j]),
        decreases p.len() - k,
    {
        if !chr_eq_exec(ci, t[i + k], p[k]) {
            return false;
        }
        k = k + 1;
    }
    true
}

pub fn find_from_exec(ci: bool, t: &[char], p: &[char], from: usize) -> (r: Option<usize>)
    ensures
        opt_idx(r, find_from(ci, t@, p@, from as int)),
        r is Some ==> from <= r->0 && r->0 + p.len() <= t.len(),
{
    if p.len() > t.len() {
        return None;
    }
    let mut i: usize = from;
    while i <= t.len() - p.len()
        invariant
            from <= i,
            p.len() <= t.len(),
            find_from(ci, t@, p@, from as int) == find_from(ci, t@, p@, i as int),
        decreases t.len() - i,
    {
        if match_at_exec(ci, t, p, i) {
            return Some(i);
        }
        assert(find_from(ci, t@, p@, i as int) == find_from(ci, t@, p@, i + 1));
        i = i + 1;
    }
    None
}

pub fn contains_lit(ci: bool, t: &[char], p: &str) -> (r: bool)
    ensures
        r == contains_from(ci, t@, p@, 0),
{
    let pc = chars_of(p);
    find_from_exec(ci, t, pc.as_slice(), 0).is_some()
}

/// Position of the first character at or after `i` that occurs in `stops`,
/// or the length of `t` if there is none.
pub open spec fn scan_until(t: Seq<char>, i: int, stops: Seq<char>) -> int
    decreases t.len() - i,
{
    if i < 0 || i >= t.len() {
        t.len() as int
    } else if stops.contains(t[i]) {
        i
    } else {
        scan_until(t, i + 1, stops)
    }
}

pub proof fn lemma_scan_until(t: Seq<char>, i: int, stops: Seq<char>)
    requires
        0 <= i <= t.len(),
    ensures
        i <= scan_until(t, i, stops) <= t.len(),
        forall|k: int| i <= k < scan_until(t, i, stops) ==> !stops.contains(t[k]),
        scan_until(t, i, stops) < t.len() ==> stops.contains(t[scan_until(t, i, stops)]),
    decreases t.len() - i,
{
    if i < t.len() && !stops.contains(t[i]) {
        lemma_scan_until(t, i + 1, stops);
    }
}

pub fn scan_until_exec(t: &[char], i: usize, stops: &[char]) -> (r: usize)
    requires
        i <= t.len(),
    ensures
        r == scan_until(t@, i as int, stops@),
        i <= r <= t.len(),
    decreases t.len() - i,
{
    let mut j: usize = i;
    while j < t.len()
        invariant
            i <= j <= t.len(),
            scan_until(t@, i as int, stops@) == scan_until(t@, j as int, stops@),
        decreases t.len() - j,
    {
        let mut k: usize = 0;
        let mut hit = false;
        while k < stops.len()
            invariant
                0 <= k <= stops.len(),
                j < t.len(),
                hit == exists|m: int| 0 <= m < k && stops@[m] == t@[j as int],
            decreases stops.len() - k,
        {
            if stops[k] == t[j] {
                hit = true;
            }
            k = k + 1;
        }
        if hit {
            assert(stops@.contains(t@[j as int]));
            return j;
        }
        assert(!stops@.contains(t@[j as int]));
        j = j + 1;
    }
    j
}

pub open spec fn is_digit(c: char) -> bool {
    48 <= c as u32 && c as u32 <= 57
}

pub fn is_digit_exec(c: char) -> (r: bool)
    ensures
        r == is_digit(c),
{
    let x = c as u32;
    48 <= x && x <= 57
}

/// First position at or after `i` whose character fails `is_digit`.
pub open spec fn scan_digits(t: Seq<char>, i: int) -> int
    decreases t.len() - i,
{
    if i < 0 || i >= t.len() {
        t.len() as int
    } else if is_digit(t[i]) {
        scan_digits(t, i + 1)
    } else {
        i
    }
}

pub fn scan_digits_exec(t: &[char], i: usize) -> (r: usize)
    requires
        i <= t.len(),
    ensures
        r == scan_digits(t@, i as int),
        i <= r <= t.len(),
{
    let mut j: usize = i;
    while j < t.len()
        invariant
            i <= j <= t.len(),
            scan_digits(t@, i as int) == scan_digits(t@, j as int),
        decreases t.len() - j,
    {
        if !is_digit_exec(t[j]) {
            return j;
        }
        j = j + 1;
    }
    j
}

/// First position at or after `i` whose character differs from `c`.
pub open spec fn scan_run(t: Seq<char>, i: int, c: char) -> int
    decreases t.len() - i,
{
    if i < 0 || i >= t.len() {
        t.len() as int
    } else if t[i] == c {
        scan_run(t, i + 1, c)
    } else {
        i
    }
}

pub fn scan_run_exec(t: &[char], i: usize, c: char) -> (r: usize)
    requires
        i <= t.len(),
    ensures
        r == scan_run(t@, i as int, c),
        i <= r <= t.len(),
{
    let mut j: usize = i;
    while j < t.len()
        invariant
            i <= j <= t.len(),
            scan_run(t@, i as int, c) == scan_run(t@, j as int, c),
        decreases t.len() - j,
    {
        if t[j] != c {
            return j;
        }
        j = j + 1;
    }
    j
}


/// Start of the run of `c` ending just before `i`, scanning backwards.
pub open spec fn scan_run_back(t: Seq<char>, i: int, c: char) -> int
    decreases i,
{
    if i <= 0 || i > t.len() {
        0
    } else if t[i - 1] == c {
        scan_run_back(t, i - 1, c)
    } else {
        i
    }
}

pub fn scan_run_back_exec(t: &[char], i: usize, c: char) -> (r: usize)
    requires
        i <= t.len(),
    ensures
        r == scan_run_back(t@, i as int, c),
        r <= i,
{
    let mut j: usize = i;
    while j > 0
        invariant
            j <= i <= t.len(),
            scan_run_back(t@, i as int, c) == scan_run_back(t@, j as int, c),
        decreases j,
    {
        if t[j - 1] != c {
            return j;
        }
        j = j - 1;
    }
    j
}

/// True for exactly the characters the markup patterns treat as blank:
/// space, tab, line feed, carriage return, vertical tab and form feed.
pub open spec fn is_blank(c: char) -> bool {
    c == ' ' || c == '\t' || c == '\n' || c == '\r' || c == '\u{000b}' || c == '\u{000c}'
}

pub fn is_blank_exec(c: char) -> (r: bool)
    ensures
        r == is_blank(c),
{
    c == ' ' || c == '\t' || c == '\n' || c == '\r' || c == '\u{000b}' || c == '\u{000c}'
}

/// First position at or after `i` whose character is not blank.
pub open spec fn scan_blanks(t: Seq<char>, i: int) -> int
    decreases t.len() - i,
{
    if i < 0 || i >= t.len() {
        t.len() as int
    } else if is_blank(t[i]) {
        scan_blanks(t, i + 1)
    } else {
        i
    }
}

pub fn scan_blanks_exec(t: &[char], i: usize) -> (r: usize)
    requires
        i <= t.len(),
    ensures
        r == scan_blanks(t@, i as int),
        i <= r <= t.len(),
{
    let mut j: usize = i;
    while j < t.len()
        invariant
            i <= j <= t.len(),
            scan_blanks(t@, i as int) == scan_blanks(t@, j as int),
        decreases t.len() - j,
    {
        if !is_blank_exec(t[j]) {
            return j;
        }
        j = j + 1;
    }
    j
}

/// Last position of the blank run ending just before `i`, scanning backwards.
pub open spec fn scan_blanks_back(t: Seq<char>, i: int) -> int
    decreases i,
{
    if i <= 0 || i > t.len() {
        0
    } else if is_blank(t[i - 1]) {
        scan_blanks_back(t, i - 1)
    } else {
        i
    }
}

pub fn scan_blanks_back_exec(t: &[char], i: usize) -> (r: usize)
    requires
        i <= t.len(),
    ensures
        r == scan_blanks_back(t@, i as int),
        r <= i,
{
    let mut j: usize = i;
    while j > 0
        invariant
            j <= i <= t.len(),
            scan_blanks_back(t@, i as int) == scan_blanks_back(t@, j as int),
        decreases j,
    {
        if !is_blank_exec(t[j - 1]) {
            return j;
        }
        j = j - 1;
    }
    j
}

/// The numeric value of a digit sequence, most significant first.
pub open spec fn dec_val(s: Seq<char>) -> nat
    decreases s.len(),
{
    if s.len() == 0 {
        0
    } else {
        (dec_val(s.drop_last()) * 10 + (s.last() as u32 - 48)) as nat
    }
}

proof fn lemma_dec_val_snoc_ge(s: Seq<char>, c: char)
    requires
        is_digit(c),
    ensures
        dec_val(s.push(c)) >= dec_val(s) * 10,
        dec_val(s.push(c)) == dec_val(s) * 10 + (c as u32 - 48),
{
    assert(s.push(c).drop_last() =~= s);
    assert(s.push(c).last() == c);
}

/// Parse the decimal digits `t[lo..hi]` as a `usize`; `None` when the value
/// does not fit.
pub open spec fn parse_usize_spec(digits: Seq<char>) -> Option<usize> {
    if dec_val(digits) <= usize::MAX {
        Some(dec_val(digits) as usize)
    } else {
        None
    }
}

pub fn parse_usize(t: &[char], lo: usize, hi: usize) -> (r: Option<usize>)
    requires
        lo <= hi <= t.len(),
        forall|k: int| lo <= k < hi ==> is_digit(t@[k]),
    ensures
        r == parse_usize_spec(t@.subrange(lo as int, hi as int)),
{
    let ghost digits = t@.subrange(lo as int, hi as int);
    let mut acc: usize = 0;
    let mut i: usize = lo;
    while i < hi
        invariant
            lo <= i <= hi <= t.len(),
            forall|k: int| lo <= k < hi ==> is_digit(t@[k]),
            digits == t@.subrange(lo as int, hi as int),
            acc as nat == dec_val(t@.subrange(lo as int, i as int)),
        decreases hi - i,
    {
        proof {
            assert(is_digit(t@[i as int]));
            assert(t@.subrange(lo as int, i + 1).drop_last() =~= t@.subrange(
                lo as int,
                i as int,
            ));
            assert(t@.subrange(lo as int, i + 1).last() == t@[i as int]);
        }
        let d = (t[i] as u32 - 48) as usize;
        let wide: u128 = acc as u128 * 10 + d as u128;
        if wide > usize::MAX as u128 {
            // The prefix already overflows; appending digits only grows the value.
            proof {
                lemma_prefix_overflow(t@, lo as int, i + 1, hi as int);
            }
            return None;
        }
        acc = wide as usize;
        i = i + 1;
    }
    assert(t@.subrange(lo as int, i as int) =~= digits);
    Some(acc)
}

/// A digit sequence is monotone under extension: if a prefix exceeds
/// `usize::MAX`, so does the whole.
proof fn lemma_prefix_overflow(t: Seq<char>, lo: int, mid: int, hi: int)
    requires
        0 <= lo <= mid <= hi <= t.len(),
        forall|k: int| lo <= k < hi ==> is_digit(t[k]),
    ensures
        dec_val(t.subrange(lo, hi)) >= dec_val(t.subrange(lo, mid)),
    decreases hi - mid,
{
    if mid < hi {
        lemma_prefix_overflow(t, lo, mid + 1, hi);
        assert(t.subrange(lo, mid + 1).drop_last() =~= t.subrange(lo, mid));
        assert(t.subrange(lo, mid + 1).last() == t[mid]);
        assert(dec_val(t.subrange(lo, mid + 1)) >= dec_val(t.subrange(lo, mid)))
            by (nonlinear_arith)
            requires
                dec_val(t.subrange(lo, mid + 1)) == dec_val(t.subrange(lo, mid)) * 10 + (t[mid]
                    as u32 - 48),
                48 <= t[mid] as u32 <= 57,
        ;
    }
}

/// Copy `t[lo..hi]` into a fresh vector.
pub fn slice_to_vec(t: &[char], lo: usize, hi: usize) -> (r: Vec<char>)
    requires
        lo <= hi <= t.len(),
    ensures
        r@ == t@.subrange(lo as int, hi as int),
{
    let mut r: Vec<char> = Vec::new();
    let mut i: usize = lo;
    while i < hi
        invariant
            lo <= i <= hi <= t.len(),
            r@ == t@.subrange(lo as int, i as int),
        decreases hi - i,
    {
        r.push(t[i]);
        assert(r@ =~= t@.subrange(lo as int, i + 1));
        i = i + 1;
    }
    r
}

/// The characters of a `&str`, in order.
pub fn chars_of(s: &str) -> (r: Vec<char>)
    ensures
        r@ == s@,
{
    let n = s.unicode_len();
    let mut r: Vec<char> = Vec::new();
    let mut i: usize = 0;
    while i < n
        invariant
            n == s@.len(),
            i <= n,
            r@ == s@.subrange(0, i as int),
        decreases n - i,
    {
        r.push(s.get_char(i));
        assert(r@ =~= s@.subrange(0, i + 1));
        i = i + 1;
    }
    assert(r@ =~= s@);
    r
}

/// Builds the `String` holding exactly the given characters.  Relies on
/// `String`'s `FromIterator<char>` implementation, which collects the
/// characters in order.
#[verifier::external_body]
pub fn string_from_chars(v: &[char]) -> (r: String)
    ensures
        r@ == v@,
{
    v.iter().collect()
}

/// Compare a character slice against a string.
pub fn eq_lit(t: &[char], p: &str) -> (r: bool)
    ensures
        r == (t@ == p@),
{
    let pc = chars_of(p);
    if t.len() != pc.len() {
        assert(t@.len() != p@.len());
        return false;
    }
    let mut i: usize = 0;
    while i < t.len()
        invariant
            t.len() == pc.len(),
            pc@ == p@,
            0 <= i <= t.len(),
            forall|k: int| 0 <= k < i ==> t@[k] == pc@[k],
        decreases t.len() - i,
    {
        if t[i] != pc[i] {
            assert(t@ != p@);
            return false;
        }
        i = i + 1;
    }
    assert(t@ =~= p@);
    true
}

} // verus!
