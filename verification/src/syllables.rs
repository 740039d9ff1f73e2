//! Syllable-count estimation from four independent signals, consulted in
//! priority order: an explicit rhyme-annotation count, a phonetic
//! transcription, an explicit category count, and a hyphenation template.

use vstd::prelude::*;

use crate::patterns::{find_tmpl_a, find_tmpl_a_exec};
use crate::text::{
    chars_of, is_digit, match_at, match_at_exec, parse_usize, parse_usize_spec, scan_blanks,
    scan_blanks_exec, scan_digits, scan_digits_exec, scan_until, scan_until_exec, slice_to_vec,
    string_from_chars,
};
use crate::unicode::{trim_chars, trim_spec};

verus! {

// ── rhyme annotation ─────────────────────────────────────────────

/// The last `|s=` marker followed by a digit, searching `j` down from
/// `hi - 1` to `lo`.
pub open spec fn last_s_mark(t: Seq<char>, lo: int, hi: int) -> Option<int>
    decreases hi - lo,
{
    if hi <= lo {
        None
    } else if match_at(true, t, seq!['|', 's', '='], hi - 1) && hi + 2 < t.len() && is_digit(
        t[hi + 2],
    ) {
        Some(hi - 1)
    } else {
        last_s_mark(t, lo, hi - 1)
    }
}

fn last_s_mark_exec(t: &[char], lo: usize, hi: usize) -> (r: Option<usize>)
    requires
        lo <= hi <= t.len(),
    ensures
        match r {
            Some(j) => last_s_mark(t@, lo as int, hi as int) == Some(j as int) && lo <= j && j + 3
                < t.len() && is_digit(t@[j + 3]),
            None => last_s_mark(t@, lo as int, hi as int) is None,
        },
{
    let pat = chars_of("|s=");
    proof {
        reveal_strlit("|s=");
        assert("|s="@ =~= seq!['|', 's', '=']);
    }
    let mut j: usize = hi;
    while j > lo
        invariant
            lo <= j <= hi <= t.len(),
            pat@ == seq!['|', 's', '='],
            last_s_mark(t@, lo as int, hi as int) == last_s_mark(t@, lo as int, j as int),
        decreases j,
    {
        if match_at_exec(true, t, pat.as_slice(), j - 1) && j + 2 < t.len()
            && crate::text::is_digit_exec(t[j + 2]) {
            return Some(j - 1);
        }
        j = j - 1;
    }
    None
}

/// The digit range of the rhyme-annotation count: inside the first
/// `{{rhymes|en|` template that carries an `|s=` marker, the digits after
/// the last such marker before the closing brace.
pub open spec fn rhymes_digits(t: Seq<char>, from: int) -> Option<(int, int)>
    decreases t.len() - from,
{
    if from < 0 || from > t.len() {
        None
    } else {
        if match_at(true, t, "{{rhymes|en|"@, from) {
            let cs = from + "{{rhymes|en|"@.len();
            let re = scan_until(t, cs, seq!['}']);
            let hi = if cs <= re - 2 {
                re - 2
            } else {
                cs
            };
            match last_s_mark(t, cs, hi) {
                Some(j) => Some((j + 3, scan_digits(t, j + 3))),
                None => {
                    if from == t.len() {
                        None
                    } else {
                        rhymes_digits(t, from + 1)
                    }
                },
            }
        } else {
            if from == t.len() {
                None
            } else {
                rhymes_digits(t, from + 1)
            }
        }
    }
}

/// What the rhyme annotation yields: the digits parsed as a count, when
/// they fit.
pub open spec fn rhymes_spec(t: Seq<char>) -> Option<usize> {
    match rhymes_digits(t, 0) {
        Some((ds, de)) => parse_usize_spec(t.subrange(ds, de)),
        None => None,
    }
}

/// Extract the explicit rhyme-annotation syllable count.
pub fn extract_syllable_count_from_rhymes(text: &str) -> (r: Option<usize>)
    ensures
        r == rhymes_spec(text@),
{
    let tv = chars_of(text);
    let t = tv.as_slice();
    let pre = chars_of("{{rhymes|en|");
    proof {
        reveal_strlit("{{rhymes|en|");
    }
    let brace = {
        let mut v: Vec<char> = Vec::new();
        v.push('}');
        assert(v@ =~= seq!['}']);
        v
    };
    let mut pos: usize = 0;
    loop
        invariant
            0 <= pos <= t.len(),
            t@ == text@,
            pre@ == "{{rhymes|en|"@,
            "{{rhymes|en|"@.len() == 12,
            brace@ == seq!['}'],
            rhymes_digits(t@, 0) == rhymes_digits(t@, pos as int),
        decreases t.len() - pos,
    {
        if match_at_exec(true, t, pre.as_slice(), pos) {
            let cs = pos + 12;
            let re = scan_until_exec(t, cs, brace.as_slice());
            let hi = if re >= 2 && cs <= re - 2 {
                re - 2
            } else {
                cs
            };
            match last_s_mark_exec(t, cs, hi) {
                Some(j) => {
                    let de = scan_digits_exec(t, j + 3);
                    proof {
                        lemma_scan_digits_range(t@, j + 3);
                    }
                    let r = parse_usize(t, j + 3, de);
                    proof {
                        assert(rhymes_digits(t@, pos as int) == Some((j + 3, de as int)));
                    }
                    return r;
                },
                None => {},
            }
        }
        if pos == t.len() {
            return None;
        }
        pos = pos + 1;
    }
}

// ── explicit category count ──────────────────────────────────────

/// A syllable-count category at `i`; yields the digit range.
pub open spec fn sylcat_at(t: Seq<char>, i: int) -> Option<(int, int)> {
    if match_at(true, t, "[[category:english"@, i) {
        let p0 = i + "[[category:english"@.len();
        let b = scan_blanks(t, p0);
        if b == p0 {
            None
        } else {
            let d = scan_digits(t, b);
            if d == b {
                None
            } else if match_at(true, t, "-syllable"@, d) {
                let p1 = d + "-syllable"@.len();
                let b2 = scan_blanks(t, p1);
                if b2 == p1 {
                    None
                } else if match_at(true, t, "word"@, b2) {
                    let p2 = b2 + "word"@.len();
                    let e = if match_at(true, t, seq!['s'], p2) {
                        p2 + 1
                    } else {
                        p2
                    };
                    if match_at(false, t, seq![']', ']'], e) {
                        Some((b, d))
                    } else {
                        None
                    }
                } else {
                    None
                }
            } else {
                None
            }
        }
    } else {
        None
    }
}

pub open spec fn find_sylcat(t: Seq<char>, from: int) -> Option<(int, int)>
    decreases t.len() - from,
{
    if from < 0 || from > t.len() {
        None
    } else {
        match sylcat_at(t, from) {
            Some(dd) => Some(dd),
            None => {
                if from == t.len() {
                    None
                } else {
                    find_sylcat(t, from + 1)
                }
            },
        }
    }
}

/// What the category scan yields.
pub open spec fn sylcat_spec(t: Seq<char>) -> Option<usize> {
    match find_sylcat(t, 0) {
        Some((ds, de)) => parse_usize_spec(t.subrange(ds, de)),
        None => None,
    }
}

fn sylcat_at_exec(t: &[char], i: usize) -> (r: Option<(usize, usize)>)
    requires
        i <= t.len(),
    ensures
        match r {
            Some((ds, de)) => sylcat_at(t@, i as int) == Some((ds as int, de as int)) && ds <= de
                <= t.len() && (forall|k: int| ds <= k < de ==> is_digit(t@[k])),
            None => sylcat_at(t@, i as int) is None,
        },
{
    let pre = chars_of("[[category:english");
    proof {
        reveal_strlit("[[category:english");
    }
    if !match_at_exec(true, t, pre.as_slice(), i) {
        return None;
    }
    assert(i + 18 <= t.len()) by {
        assert("[[category:english"@.len() == 18);
    }
    let b = scan_blanks_exec(t, i + 18);
    if b == i + 18 {
        return None;
    }
    let d = scan_digits_exec(t, b);
    if d == b {
        return None;
    }
    let syl = chars_of("-syllable");
    proof {
        reveal_strlit("-syllable");
    }
    if !match_at_exec(true, t, syl.as_slice(), d) {
        return None;
    }
    assert(d + 9 <= t.len()) by {
        assert("-syllable"@.len() == 9);
    }
    let b2 = scan_blanks_exec(t, d + 9);
    if b2 == d + 9 {
        return None;
    }
    let wrd = chars_of("word");
    proof {
        reveal_strlit("word");
    }
    if !match_at_exec(true, t, wrd.as_slice(), b2) {
        return None;
    }
    assert(b2 + 4 <= t.len()) by {
        assert("word"@.len() == 4);
    }
    let sch = {
        let mut v: Vec<char> = Vec::new();
        v.push('s');
        assert(v@ =~= seq!['s']);
        v
    };
    let e = if match_at_exec(true, t, sch.as_slice(), b2 + 4) {
        b2 + 4 + 1
    } else {
        b2 + 4
    };
    if crate::wikitext::is2(t, e, ']', ']') {
        proof {
            crate::text::lemma_scan_until(t@, b as int, seq!['0']);
        }
        let ghost dsp = scan_digits(t@, b as int);
        proof {
            lemma_scan_digits_range(t@, b as int);
        }
        Some((b, d))
    } else {
        None
    }
}

proof fn lemma_scan_digits_range(t: Seq<char>, i: int)
    requires
        0 <= i <= t.len(),
    ensures
        forall|k: int| i <= k < scan_digits(t, i) ==> is_digit(t[k]),
        i <= scan_digits(t, i) <= t.len(),
    decreases t.len() - i,
{
    if i < t.len() && is_digit(t[i]) {
        lemma_scan_digits_range(t, i + 1);
    }
}

/// Extract the explicit category syllable count.
pub fn extract_syllable_count_from_categories(text: &str) -> (r: Option<usize>)
    ensures
        r == sylcat_spec(text@),
{
    let tv = chars_of(text);
    let t = tv.as_slice();
    let mut pos: usize = 0;
    loop
        invariant
            0 <= pos <= t.len(),
            t@ == text@,
            find_sylcat(t@, 0) == find_sylcat(t@, pos as int),
        decreases t.len() - pos,
    {
        match sylcat_at_exec(t, pos) {
            Some((ds, de)) => {
                let r = parse_usize(t, ds, de);
                return r;
            },
            None => {},
        }
        if pos == t.len() {
            return None;
        }
        pos = pos + 1;
    }
}

// ── hyphenation template ─────────────────────────────────────────

/// Byte length of a character in its transfer encoding.
pub open spec fn utf8_len(c: char) -> int {
    if c as u32 <= 0x7f {
        1
    } else if c as u32 <= 0x7ff {
        2
    } else if c as u32 <= 0xffff {
        3
    } else {
        4
    }
}

pub open spec fn byte_len(s: Seq<char>) -> int
    decreases s.len(),
{
    if s.len() == 0 {
        0
    } else {
        byte_len(s.drop_last()) + utf8_len(s.last())
    }
}

fn byte_len_gt3(s: &[char]) -> (r: bool)
    ensures
        r == (byte_len(s@) > 3),
{
    proof {
        lemma_byte_len_bounds(s@);
    }
    if s.len() > 3 {
        proof {
            lemma_byte_len_prefix(s@, 4);
        }
        return true;
    }
    let mut total: usize = 0;
    let mut i: usize = 0;
    while i < s.len()
        invariant
            0 <= i <= s.len() <= 3,
            total == byte_len(s@.take(i as int)),
            total <= 4 * i,
        decreases s.len() - i,
    {
        let c = s[i] as u32;
        let l: usize = if c <= 0x7f {
            1
        } else if c <= 0x7ff {
            2
        } else if c <= 0xffff {
            3
        } else {
            4
        };
        proof {
            assert(s@.take(i + 1).drop_last() =~= s@.take(i as int));
            assert(s@.take(i + 1).last() == s@[i as int]);
        }
        total = total + l;
        i = i + 1;
    }
    proof {
        assert(s@.take(s@.len() as int) =~= s@);
    }
    total > 3
}

proof fn lemma_byte_len_bounds(s: Seq<char>)
    ensures
        s.len() <= byte_len(s) <= 4 * s.len(),
    decreases s.len(),
{
    if s.len() > 0 {
        lemma_byte_len_bounds(s.drop_last());
    }
}

proof fn lemma_byte_len_prefix(s: Seq<char>, n: int)
    requires
        0 <= n <= s.len(),
    ensures
        byte_len(s) >= n,
    decreases s.len(),
{
    lemma_byte_len_bounds(s);
}

/// The cleaned hyphenation segments: each part of the first alternative,
/// trimmed, with empty and parameter-bearing parts dropped.
pub open spec fn hyph_segments(parts: Seq<Seq<char>>) -> Seq<Seq<char>>
    decreases parts.len(),
{
    if parts.len() == 0 {
        Seq::empty()
    } else {
        let tr = trim_spec(parts.last());
        hyph_segments(parts.drop_last()) + (if tr.len() == 0 || scan_until(tr, 0, seq!['='])
            < tr.len() {
            Seq::empty()
        } else {
            seq![tr]
        })
    }
}

/// What the hyphenation template yields: the number of cleaned segments of
/// the first alternative, unless there are none, or there is a single
/// unusually long one (malformed markup).
pub open spec fn hyphenation_spec(t: Seq<char>) -> Option<usize> {
    match find_tmpl_a(t, hyph_pres(), 0) {
        None => None,
        Some(m) => {
            let content = t.subrange(m.1, m.2);
            let alt_end = match crate::text::find_from(false, content, seq!['|', '|'], 0) {
                Some(p) => p,
                None => content.len() as int,
            };
            let first_alt = content.subrange(0, alt_end);
            let segs = hyph_segments(crate::labels::split_pipe(first_alt, 0));
            if segs.len() == 0 {
                None
            } else if segs.len() == 1 && byte_len(segs[0]) > 3 {
                None
            } else if segs.len() <= usize::MAX {
                Some(segs.len() as usize)
            } else {
                None
            }
        },
    }
}

pub open spec fn hyph_pres() -> Seq<Seq<char>> {
    seq!["{{hyphenation|en|"@, "{{hyph|en|"@]
}

/// Extract a syllable count from the hyphenation template's segments.
pub fn extract_syllable_count_from_hyphenation(text: &str) -> (r: Option<usize>)
    ensures
        r == hyphenation_spec(text@),
{
    let tv = chars_of(text);
    let t = tv.as_slice();
    let pres = {
        let mut v: Vec<Vec<char>> = Vec::new();
        v.push(chars_of("{{hyphenation|en|"));
        v.push(chars_of("{{hyph|en|"));
        assert(v.deep_view() =~~= hyph_pres());
        v
    };
    let m = match find_tmpl_a_exec(t, &pres, 0) {
        Some(m) => m,
        None => {
            return None;
        },
    };
    let (_s, cs, ce) = m;
    let content = slice_to_vec(t, cs, ce);
    let alt_end = {
        let pat = chars_of("||");
        proof {
            reveal_strlit("||");
            assert("||"@ =~= seq!['|', '|']);
        }
        match crate::text::find_from_exec(false, content.as_slice(), pat.as_slice(), 0) {
            Some(p) => p,
            None => content.len(),
        }
    };
    let first_alt = slice_to_vec(content.as_slice(), 0, alt_end);
    let parts = crate::labels::split_pipe_exec(first_alt.as_slice());
    let ghost pv = crate::labels::split_pipe(first_alt@, 0);
    proof {
        let sg = hyph_segments(pv);
        assert(hyphenation_spec(text@) == (if sg.len() == 0 {
            None
        } else if sg.len() == 1 && byte_len(sg[0]) > 3 {
            None::<usize>
        } else if sg.len() <= usize::MAX {
            Some(sg.len() as usize)
        } else {
            None
        }));
    }
    let mut segs: Vec<Vec<char>> = Vec::new();
    let mut k: usize = 0;
    let eq = {
        let mut v: Vec<char> = Vec::new();
        v.push('=');
        assert(v@ =~= seq!['=']);
        v
    };
    while k < parts.len()
        invariant
            0 <= k <= parts.len(),
            eq@ == seq!['='],
            parts.deep_view() =~~= pv,
            segs.deep_view() =~~= hyph_segments(pv.take(k as int)),
            ({
                let sg = hyph_segments(pv);
                hyphenation_spec(text@) == (if sg.len() == 0 {
                    None
                } else if sg.len() == 1 && byte_len(sg[0]) > 3 {
                    None::<usize>
                } else if sg.len() <= usize::MAX {
                    Some(sg.len() as usize)
                } else {
                    None
                })
            }),
        decreases parts.len() - k,
    {
        proof {
            assert(pv.take(k + 1).drop_last() =~= pv.take(k as int));
            assert(pv.take(k + 1).last() == pv[k as int]);
            assert(parts.deep_view()[k as int] == parts@[k as int]@);
        }
        let tr = trim_chars(parts[k].as_slice());
        let ghost prev = segs.deep_view();
        let has_eq = scan_until_exec(tr.as_slice(), 0, eq.as_slice()) < tr.len();
        if tr.len() > 0 && !has_eq {
            segs.push(tr);
            proof {
                assert(segs.deep_view() =~~= prev.push(trim_spec(pv[k as int])));
                assert(hyph_segments(pv.take(k + 1)) =~~= prev.push(trim_spec(pv[k as int])));
            }
        } else {
            proof {
                assert(hyph_segments(pv.take(k + 1)) =~~= prev);
            }
        }
        k = k + 1;
    }
    proof {
        assert(pv.take(parts@.len() as int) =~= pv);
        assert(segs.deep_view() =~~= hyph_segments(pv));
    }
    if segs.len() == 0 {
        return None;
    }
    proof {
        assert(segs.deep_view()[0] == segs@[0]@);
        assert(hyph_segments(pv)[0] == segs@[0]@);
    }
    if segs.len() == 1 && byte_len_gt3(segs[0].as_slice()) {
        return None;
    }
    Some(segs.len())
}


// ── phonetic transcription ───────────────────────────────────────

/// Vowel nuclei recognized in transcriptions.
pub open spec fn is_vowel(c: char) -> bool {
    c == 'i' || c == '\u{026a}' || c == 'e' || c == '\u{025b}' || c == '\u{00e6}' || c == 'a'
        || c == '\u{0251}' || c == '\u{0252}' || c == '\u{0254}' || c == 'o' || c == '\u{028a}'
        || c == 'u' || c == '\u{028c}' || c == '\u{0259}' || c == '\u{025c}' || c == '\u{025d}'
        || c == '\u{0250}' || c == '\u{1d7b}' || c == '\u{1d7f}' || c == '\u{025a}'
}

/// Off-glide vowels: the second element of a diphthong.
pub open spec fn is_offglide(c: char) -> bool {
    c == '\u{026a}' || c == '\u{028a}' || c == '\u{0259}' || c == '\u{0250}'
}

/// Length and articulation marks skipped after a vowel.
pub open spec fn is_len_mark(c: char) -> bool {
    c == '\u{02d0}' || c == '\u{02d1}' || c == '\u{0303}' || c == '\u{032f}' || c == '\u{0361}'
}

fn is_vowel_exec(c: char) -> (r: bool)
    ensures
        r == is_vowel(c),
{
    c == 'i' || c == '\u{026a}' || c == 'e' || c == '\u{025b}' || c == '\u{00e6}' || c == 'a'
        || c == '\u{0251}' || c == '\u{0252}' || c == '\u{0254}' || c == 'o' || c == '\u{028a}'
        || c == 'u' || c == '\u{028c}' || c == '\u{0259}' || c == '\u{025c}' || c == '\u{025d}'
        || c == '\u{0250}' || c == '\u{1d7b}' || c == '\u{1d7f}' || c == '\u{025a}'
}

/// End of the off-glide run after a vowel: length marks pass freely, and at
/// most one off-glide vowel is absorbed.
pub open spec fn glide_end(s: Seq<char>, i: int, skipped: bool) -> int
    decreases s.len() - i,
{
    if i < 0 || i >= s.len() {
        i
    } else if is_len_mark(s[i]) {
        glide_end(s, i + 1, skipped)
    } else if !skipped && is_offglide(s[i]) {
        glide_end(s, i + 1, true)
    } else {
        i
    }
}

/// The number of syllable nuclei in a transcription: vowels (with their
/// off-glides absorbed) and syllabic consonants.
pub open spec fn ipa_count(s: Seq<char>, i: int) -> nat
    decreases s.len() - i,
{
    if i < 0 || i >= s.len() {
        0
    } else if i + 1 < s.len() && s[i + 1] == '\u{0329}' {
        1 + ipa_count(s, i + 2)
    } else if is_vowel(s[i]) {
        let ge = glide_end(s, i + 1, false);
        let nxt = if i + 1 <= ge <= s.len() {
            ge
        } else {
            i + 1
        };
        1 + ipa_count(s, nxt)
    } else {
        ipa_count(s, i + 1)
    }
}

proof fn lemma_glide_end_bounds(s: Seq<char>, i: int, skipped: bool)
    requires
        0 <= i <= s.len(),
    ensures
        i <= glide_end(s, i, skipped) <= s.len(),
    decreases s.len() - i,
{
    if i < s.len() {
        if is_len_mark(s[i]) {
            lemma_glide_end_bounds(s, i + 1, skipped);
        } else if !skipped && is_offglide(s[i]) {
            lemma_glide_end_bounds(s, i + 1, true);
        }
    }
}

proof fn lemma_ipa_count_bound(s: Seq<char>, i: int)
    requires
        0 <= i <= s.len(),
    ensures
        ipa_count(s, i) <= s.len() - i,
    decreases s.len() - i,
{
    if i < s.len() {
        if i + 1 < s.len() && s[i + 1] == '\u{0329}' {
            lemma_ipa_count_bound(s, i + 2);
        } else if is_vowel(s[i]) {
            lemma_glide_end_bounds(s, i + 1, false);
            let ge = glide_end(s, i + 1, false);
            lemma_ipa_count_bound(s, ge);
        } else {
            lemma_ipa_count_bound(s, i + 1);
        }
    }
}

/// Count syllables in a phonetic transcription.
pub fn count_syllables_from_ipa(ipa: &str) -> (r: usize)
    ensures
        r as nat == ipa_count(ipa@, 0),
{
    let sv = chars_of(ipa);
    let s = sv.as_slice();
    let mut count: usize = 0;
    let mut i: usize = 0;
    proof {
        lemma_ipa_count_bound(s@, 0);
    }
    loop
        invariant
            0 <= i <= s.len(),
            s@ == ipa@,
            count + ipa_count(s@, i as int) == ipa_count(s@, 0),
            count + ipa_count(s@, i as int) <= s@.len(),
        decreases s.len() - i,
    {
        if i >= s.len() {
            return count;
        }
        proof {
            lemma_ipa_count_bound(s@, i as int);
        }
        if i + 1 < s.len() && s[i + 1] == '\u{0329}' {
            count = count + 1;
            i = i + 2;
        } else if is_vowel_exec(s[i]) {
            count = count + 1;
            let mut skipped = false;
            let mut done = false;
            let mut j = i + 1;
            proof {
                lemma_glide_end_bounds(s@, i + 1, false);
            }
            while j < s.len() && !done
                invariant
                    i + 1 <= j <= s.len(),
                    glide_end(s@, i + 1, false) == glide_end(s@, j as int, skipped),
                    done ==> glide_end(s@, j as int, skipped) == j as int,
                decreases s.len() - j, (if done { 0int } else { 1int }),
            {
                let c = s[j];
                let lm = c == '\u{02d0}' || c == '\u{02d1}' || c == '\u{0303}' || c
                    == '\u{032f}' || c == '\u{0361}';
                if lm {
                    j = j + 1;
                } else if !skipped && (c == '\u{026a}' || c == '\u{028a}' || c == '\u{0259}'
                    || c == '\u{0250}') {
                    skipped = true;
                    j = j + 1;
                } else {
                    proof {
                        assert(glide_end(s@, j as int, skipped) == j as int);
                    }
                    done = true;
                }
            }
            proof {
                assert(glide_end(s@, j as int, skipped) == j as int);
            }
            i = j;
        } else {
            i = i + 1;
        }
    }
}

/// What the transcription signal yields: the count of the first
/// transcription inside the first phonetic template, unless implausible
/// (zero, or more than fifteen).
pub open spec fn ipa_spec(t: Seq<char>) -> Option<usize> {
    match find_tmpl_a(t, ipa_pres(), 0) {
        None => None,
        Some(m) => {
            let content = t.subrange(m.1, m.2);
            match find_transcription(content, 0) {
                None => None,
                Some((ts, te)) => {
                    let n = ipa_count(content.subrange(ts, te), 0);
                    if n == 0 || n > 15 {
                        None
                    } else {
                        Some(n as usize)
                    }
                },
            }
        },
    }
}

pub open spec fn ipa_pres() -> Seq<Seq<char>> {
    seq!["{{ipa|en|"@]
}

/// A transcription at `i`: an opening `/` or `[`, one or more characters
/// free of `/`, `[` and `]`, closed by `/` or `]`.
pub open spec fn transcription_at(t: Seq<char>, i: int) -> Option<(int, int)> {
    if 0 <= i < t.len() && (t[i] == '/' || t[i] == '[') {
        let ce = scan_until(t, i + 1, seq!['/', '[', ']']);
        if ce > i + 1 && ce < t.len() && (t[ce] == '/' || t[ce] == ']') {
            Some((i + 1, ce))
        } else {
            None
        }
    } else {
        None
    }
}

pub open spec fn find_transcription(t: Seq<char>, from: int) -> Option<(int, int)>
    decreases t.len() - from,
{
    if from < 0 || from > t.len() {
        None
    } else {
        match transcription_at(t, from) {
            Some(r) => Some(r),
            None => {
                if from == t.len() {
                    None
                } else {
                    find_transcription(t, from + 1)
                }
            },
        }
    }
}

fn find_transcription_exec(t: &[char]) -> (r: Option<(usize, usize)>)
    ensures
        match r {
            Some((ts, te)) => find_transcription(t@, 0) == Some((ts as int, te as int)) && ts
                <= te <= t.len(),
            None => find_transcription(t@, 0) is None,
        },
{
    let stops = {
        let mut v: Vec<char> = Vec::new();
        v.push('/');
        v.push('[');
        v.push(']');
        assert(v@ =~= seq!['/', '[', ']']);
        v
    };
    let mut pos: usize = 0;
    loop
        invariant
            0 <= pos <= t.len(),
            stops@ == seq!['/', '[', ']'],
            find_transcription(t@, 0) == find_transcription(t@, pos as int),
        decreases t.len() - pos,
    {
        if pos < t.len() && (t[pos] == '/' || t[pos] == '[') {
            let ce = scan_until_exec(t, pos + 1, stops.as_slice());
            if ce > pos + 1 && ce < t.len() && (t[ce] == '/' || t[ce] == ']') {
                return Some((pos + 1, ce));
            }
        }
        if pos == t.len() {
            return None;
        }
        pos = pos + 1;
    }
}

/// Extract a syllable count from the first phonetic transcription.
pub fn extract_syllable_count_from_ipa(text: &str) -> (r: Option<usize>)
    ensures
        r == ipa_spec(text@),
{
    let tv = chars_of(text);
    let t = tv.as_slice();
    let pres = {
        let mut v: Vec<Vec<char>> = Vec::new();
        v.push(chars_of("{{ipa|en|"));
        assert(v.deep_view() =~~= ipa_pres());
        v
    };
    let m = match find_tmpl_a_exec(t, &pres, 0) {
        Some(m) => m,
        None => {
            return None;
        },
    };
    let (_s, cs, ce) = m;
    let content = slice_to_vec(t, cs, ce);
    let (ts, te) = match find_transcription_exec(content.as_slice()) {
        Some(p) => p,
        None => {
            return None;
        },
    };
    let tr = slice_to_vec(content.as_slice(), ts, te);
    let n = count_syllables_from_ipa(string_from_chars(tr.as_slice()).as_str());
    if n == 0 || n > 15 {
        None
    } else {
        Some(n)
    }
}

// ── cross-validation ─────────────────────────────────────────────

/// All four syllable signals of one page, for cross-validation: each source
/// value, the priority-chosen final value, and whether sources disagree.
pub struct SyllableValidation {
    pub word: String,
    pub rhymes: Option<usize>,
    pub ipa: Option<usize>,
    pub category: Option<usize>,
    pub hyphenation: Option<usize>,
    pub final_value: Option<usize>,
    pub has_disagreement: bool,
}

/// The priority order of the syllable sources.
pub open spec fn syllables_priority(
    rhymes: Option<usize>,
    ipa: Option<usize>,
    category: Option<usize>,
    hyphenation: Option<usize>,
) -> Option<usize> {
    if rhymes is Some {
        rhymes
    } else if ipa is Some {
        ipa
    } else if category is Some {
        category
    } else {
        hyphenation
    }
}

/// The values of the sources that are present, in priority order.
pub open spec fn present_values(vs: Seq<Option<usize>>) -> Seq<usize>
    decreases vs.len(),
{
    if vs.len() == 0 {
        Seq::empty()
    } else {
        present_values(vs.drop_last()) + (match vs.last() {
            Some(v) => seq![v],
            None => Seq::empty(),
        })
    }
}

/// Two or more sources disagree.
pub open spec fn disagreement_spec(vs: Seq<Option<usize>>) -> bool {
    let pv = present_values(vs);
    if pv.len() <= 1 {
        false
    } else {
        exists|k: int| 0 <= k < pv.len() && #[trigger] pv[k] != pv[0]
    }
}

/// Collect all syllable sources of a page for cross-validation; `None` when
/// no source is present at all.
pub fn extract_syllable_validation(title: &str, text: &str) -> (r: Option<SyllableValidation>)
    ensures
        match crate::sections::english_section_spec(text@) {
            None => r is None,
            Some(et) => {
                let rh = rhymes_spec(et);
                let ip = ipa_spec(et);
                let ca = sylcat_spec(et);
                let hy = hyphenation_spec(et);
                if rh is None && ip is None && ca is None && hy is None {
                    r is None
                } else {
                    match r {
                        Some(v) => v.word@ == title@ && v.rhymes == rh && v.ipa == ip
                            && v.category == ca && v.hyphenation == hy && v.final_value
                            == syllables_priority(rh, ip, ca, hy) && v.has_disagreement
                            == disagreement_spec(seq![rh, ip, ca, hy]),
                        None => false,
                    }
                }
            },
        },
{
    let english_text = match crate::sections::extract_english_section(text) {
        Some(s) => s,
        None => {
            return None;
        },
    };
    let et = english_text.as_str();
    let rhymes = extract_syllable_count_from_rhymes(et);
    let ipa = extract_syllable_count_from_ipa(et);
    let category = extract_syllable_count_from_categories(et);
    let hyphenation = extract_syllable_count_from_hyphenation(et);
    if rhymes.is_none() && ipa.is_none() && category.is_none() && hyphenation.is_none() {
        return None;
    }
    let final_value = if rhymes.is_some() {
        rhymes
    } else if ipa.is_some() {
        ipa
    } else if category.is_some() {
        category
    } else {
        hyphenation
    };
    let mut values: Vec<usize> = Vec::new();
    match rhymes {
        Some(v) => values.push(v),
        None => (),
    }
    match ipa {
        Some(v) => values.push(v),
        None => (),
    }
    match category {
        Some(v) => values.push(v),
        None => (),
    }
    match hyphenation {
        Some(v) => values.push(v),
        None => (),
    }
    let ghost all = seq![
        rhymes_spec(english_text@),
        ipa_spec(english_text@),
        sylcat_spec(english_text@),
        hyphenation_spec(english_text@),
    ];
    proof {
        assert(all.drop_last() =~= seq![
            rhymes_spec(english_text@),
            ipa_spec(english_text@),
            sylcat_spec(english_text@),
        ]);
        assert(all.drop_last().drop_last() =~= seq![
            rhymes_spec(english_text@),
            ipa_spec(english_text@),
        ]);
        assert(all.drop_last().drop_last().drop_last() =~= seq![rhymes_spec(english_text@)]);
        assert(all.drop_last().drop_last().drop_last().drop_last() =~= Seq::<
            Option<usize>,
        >::empty());
        let pa: Seq<usize> = match rhymes_spec(english_text@) {
            Some(v) => seq![v],
            None => Seq::empty(),
        };
        let pb: Seq<usize> = match ipa_spec(english_text@) {
            Some(v) => seq![v],
            None => Seq::empty(),
        };
        let pc: Seq<usize> = match sylcat_spec(english_text@) {
            Some(v) => seq![v],
            None => Seq::empty(),
        };
        let pd: Seq<usize> = match hyphenation_spec(english_text@) {
            Some(v) => seq![v],
            None => Seq::empty(),
        };
        let rh = rhymes_spec(english_text@);
        let ip = ipa_spec(english_text@);
        let ca = sylcat_spec(english_text@);
        let e0: Seq<Option<usize>> = Seq::empty();
        let s1 = seq![rh];
        let s2 = seq![rh, ip];
        let s3 = seq![rh, ip, ca];
        assert(present_values(e0) =~= Seq::<usize>::empty());
        assert(s1.last() == rh);
        assert(present_values(s1) =~= pa);
        assert(s2.last() == ip);
        assert(present_values(s2) =~= pa + pb);
        assert(s3.last() == ca);
        assert(present_values(s3) =~= (pa + pb) + pc);
        assert(all.last() == hyphenation_spec(english_text@));
        assert(present_values(all) =~= ((pa + pb) + pc) + pd);
        assert(present_values(all) =~= pa + pb + pc + pd);
        assert(values@ =~= pa + pb + pc + pd);
        assert(values@ == present_values(all));
    }
    let mut has_disagreement = false;
    if values.len() > 1 {
        let first = values[0];
        let mut k: usize = 1;
        while k < values.len()
            invariant
                1 <= k <= values.len(),
                values@ == present_values(all),
                first == values@[0],
                has_disagreement == exists|m: int| 0 <= m < k && #[trigger] values@[m] != values@[0],
            decreases values.len() - k,
        {
            if values[k] != first {
                has_disagreement = true;
            }
            k = k + 1;
        }
    }
    Some(
        SyllableValidation {
            word: string_from_chars(chars_of(title).as_slice()),
            rhymes,
            ipa,
            category,
            hyphenation,
            final_value,
            has_disagreement,
        },
    )
}

} // verus!
