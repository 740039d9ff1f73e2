//! The target-script predicate for titles, and case-pattern classification.

use vstd::prelude::*;

use crate::text::chars_of;
use crate::unicode::{
    char_alphabetic, char_lower, char_upper, char_whitespace, is_alphabetic_char,
    is_lowercase_char, is_uppercase_char, is_whitespace_char, nfc_normalize, nfc_of, trim_chars,
    trim_spec,
};

verus! {

/// Characters that disqualify a title outright.
pub open spec fn forbidden_char(c: char) -> bool {
    c == '&' || c == ';' || c == '<' || c == '>'
}

/// Punctuation allowed to pass through without counting as a letter.
pub open spec fn allowed_punct(c: char) -> bool {
    c == '\u{2019}' || c == '\'' || c == '\u{2018}' || c == '-' || c == '\u{2013}' || c == '.'
        || c == '/'
}

/// The character walk of the script predicate.  `saw` records whether a
/// Latin letter has been seen.  Spaces pass; forbidden characters reject;
/// ASCII letters count; non-ASCII letters count only within the
/// Latin-extended range and reject otherwise; listed punctuation passes;
/// combining diacritics and characters beyond the basic plane reject;
/// anything else passes without counting.
pub open spec fn script_walk(n: Seq<char>, i: int, saw: bool) -> bool
    decreases n.len() - i,
{
    if i < 0 || i >= n.len() {
        saw
    } else {
        let ch = n[i];
        let cp = ch as u32;
        if ch == ' ' {
            script_walk(n, i + 1, saw)
        } else if forbidden_char(ch) {
            false
        } else if cp <= 127 {
            script_walk(n, i + 1, saw || char_alphabetic(ch))
        } else if char_alphabetic(ch) {
            if 0xc0 <= cp && cp <= 0x24f {
                script_walk(n, i + 1, true)
            } else {
                false
            }
        } else if allowed_punct(ch) {
            script_walk(n, i + 1, saw)
        } else if 0x300 <= cp && cp <= 0x36f {
            false
        } else if cp > 0xffff || (0x1f000 <= cp && cp <= 0x1ffff) {
            false
        } else {
            script_walk(n, i + 1, saw)
        }
    }
}

/// The script predicate over an already-normalized character sequence:
/// no whitespace except the ordinary space, not blank, and the walk above
/// accepts having seen at least one letter.
pub open spec fn scriptlike_normalized(n: Seq<char>) -> bool {
    &&& !(exists|i: int| 0 <= i < n.len() && n[i] != ' ' && #[trigger] char_whitespace(n[i]))
    &&& trim_spec(n).len() > 0
    &&& script_walk(n, 0, false)
}

/// The script predicate on a raw token: its canonical composition must pass
/// `scriptlike_normalized`.
pub open spec fn is_englishlike_spec(token: Seq<char>) -> bool {
    scriptlike_normalized(nfc_of(token))
}

/// The script predicate on an already-normalized character sequence.
pub fn is_englishlike_normalized(n: &[char]) -> (r: bool)
    ensures
        r == scriptlike_normalized(n@),
{
    let mut i: usize = 0;
    while i < n.len()
        invariant
            0 <= i <= n.len(),
            forall|j: int| 0 <= j < i ==> !(n@[j] != ' ' && #[trigger] char_whitespace(n@[j])),
        decreases n.len() - i,
    {
        if n[i] != ' ' && is_whitespace_char(n[i]) {
            return false;
        }
        i = i + 1;
    }
    let trimmed = trim_chars(n);
    if trimmed.len() == 0 {
        return false;
    }
    let mut saw = false;
    let mut k: usize = 0;
    while k < n.len()
        invariant
            0 <= k <= n.len(),
            script_walk(n@, 0, false) == script_walk(n@, k as int, saw),
        decreases n.len() - k,
    {
        let ch = n[k];
        let cp = ch as u32;
        if ch == ' ' {
        } else if ch == '&' || ch == ';' || ch == '<' || ch == '>' {
            return false;
        } else if cp <= 127 {
            saw = saw || is_alphabetic_char(ch);
        } else if is_alphabetic_char(ch) {
            if 0xc0 <= cp && cp <= 0x24f {
                saw = true;
            } else {
                return false;
            }
        } else if ch == '\u{2019}' || ch == '\'' || ch == '\u{2018}' || ch == '-'
            || ch == '\u{2013}' || ch == '.' || ch == '/' {
        } else if 0x300 <= cp && cp <= 0x36f {
            return false;
        } else if cp > 0xffff || (0x1f000 <= cp && cp <= 0x1ffff) {
            return false;
        } else {
        }
        k = k + 1;
    }
    saw
}

/// Whether a token looks like a word of the target language: normalized to
/// composed form, free of foreign scripts and markup characters, with at
/// least one Latin letter.
pub fn is_englishlike(token: &str) -> (r: bool)
    ensures
        r == is_englishlike_spec(token@),
{
    let normalized = nfc_normalize(token);
    let n = chars_of(normalized.as_str());
    is_englishlike_normalized(n.as_slice())
}

/// A token holding any forbidden character is rejected.
pub proof fn lemma_walk_rejects_forbidden(n: Seq<char>, i: int, saw: bool, k: int)
    requires
        0 <= i <= k < n.len(),
        forbidden_char(n[k]),
    ensures
        !script_walk(n, i, saw),
    decreases k - i,
{
    if i < k {
        let ch = n[i];
        let cp = ch as u32;
        if ch == ' ' {
            lemma_walk_rejects_forbidden(n, i + 1, saw, k);
        } else if forbidden_char(ch) {
        } else if cp <= 127 {
            lemma_walk_rejects_forbidden(n, i + 1, saw || char_alphabetic(ch), k);
        } else if char_alphabetic(ch) {
            if 0xc0 <= cp && cp <= 0x24f {
                lemma_walk_rejects_forbidden(n, i + 1, true, k);
            }
        } else if allowed_punct(ch) {
            lemma_walk_rejects_forbidden(n, i + 1, saw, k);
        } else if 0x300 <= cp && cp <= 0x36f {
        } else if cp > 0xffff || (0x1f000 <= cp && cp <= 0x1ffff) {
        } else {
            lemma_walk_rejects_forbidden(n, i + 1, saw, k);
        }
    } else {
        assert(forbidden_char(n[i]));
    }
}

/// Script-predicate law: a normalized token containing a forbidden
/// character (`&`, `;`, `<` or `>`) is rejected.
pub proof fn lemma_englishlike_rejects_forbidden(token: Seq<char>, k: int)
    requires
        0 <= k < nfc_of(token).len(),
        forbidden_char(nfc_of(token)[k]),
    ensures
        !is_englishlike_spec(token),
{
    lemma_walk_rejects_forbidden(nfc_of(token), 0, false, k);
}

proof fn lemma_walk_needs_letter(n: Seq<char>, i: int)
    requires
        0 <= i <= n.len(),
        forall|j: int| 0 <= j < n.len() ==> !char_alphabetic(n[j]),
    ensures
        !script_walk(n, i, false),
    decreases n.len() - i,
{
    if i < n.len() {
        let ch = n[i];
        let cp = ch as u32;
        if ch == ' ' {
            lemma_walk_needs_letter(n, i + 1);
        } else if forbidden_char(ch) {
        } else if cp <= 127 {
            assert(!char_alphabetic(ch));
            lemma_walk_needs_letter(n, i + 1);
        } else if char_alphabetic(ch) {
        } else if allowed_punct(ch) {
            lemma_walk_needs_letter(n, i + 1);
        } else if 0x300 <= cp && cp <= 0x36f {
        } else if cp > 0xffff || (0x1f000 <= cp && cp <= 0x1ffff) {
        } else {
            lemma_walk_needs_letter(n, i + 1);
        }
    }
}

/// Script-predicate law: a token whose normalized form has no alphabetic
/// character at all is rejected, however clean it otherwise is.
pub proof fn lemma_englishlike_needs_letter(token: Seq<char>)
    requires
        forall|j: int| 0 <= j < nfc_of(token).len() ==> !char_alphabetic(nfc_of(token)[j]),
    ensures
        !is_englishlike_spec(token),
{
    lemma_walk_needs_letter(nfc_of(token), 0);
}

/// The case pattern of a word's alphabetic characters.
#[derive(Debug, Clone, Copy, PartialEq, Eq)]
pub enum CaseForm {
    Lower,
    Title,
    Upper,
    Mixed,
}

/// The alphabetic characters of `s`, in order.
pub open spec fn alphas(s: Seq<char>) -> Seq<char>
    decreases s.len(),
{
    if s.len() == 0 {
        Seq::empty()
    } else {
        alphas(s.drop_last()) + (if char_alphabetic(s.last()) {
            seq![s.last()]
        } else {
            Seq::empty()
        })
    }
}

/// Case classification: everything lowercase is `Lower` (as is a word with
/// no letters), everything uppercase `Upper`, a single leading capital
/// `Title`, anything else `Mixed`.
pub open spec fn classify_case_spec(s: Seq<char>) -> CaseForm {
    let a = alphas(s);
    if a.len() == 0 {
        CaseForm::Lower
    } else if forall|i: int| 0 <= i < a.len() ==> #[trigger] char_lower(a[i]) {
        CaseForm::Lower
    } else if forall|i: int| 0 <= i < a.len() ==> #[trigger] char_upper(a[i]) {
        CaseForm::Upper
    } else if char_upper(a[0]) && (forall|i: int| 1 <= i < a.len() ==> #[trigger] char_lower(
        a[i],
    )) {
        CaseForm::Title
    } else {
        CaseForm::Mixed
    }
}

/// Classify the case pattern of a word.
pub fn classify_case(s: &str) -> (r: CaseForm)
    ensures
        r == classify_case_spec(s@),
{
    let sv = chars_of(s);
    let ghost full = sv@;
    let mut a: Vec<char> = Vec::new();
    let mut i: usize = 0;
    while i < sv.len()
        invariant
            0 <= i <= sv.len(),
            full == sv@,
            a@ == alphas(full.take(i as int)),
        decreases sv.len() - i,
    {
        proof {
            assert(full.take(i + 1).drop_last() =~= full.take(i as int));
            assert(full.take(i + 1).last() == full[i as int]);
        }
        let ghost prev = a@;
        if is_alphabetic_char(sv[i]) {
            a.push(sv[i]);
            proof {
                assert(a@ =~= alphas(full.take(i + 1)));
            }
        } else {
            proof {
                assert(a@ =~= alphas(full.take(i + 1)));
            }
        }
        i = i + 1;
    }
    proof {
        assert(full.take(full.len() as int) =~= full);
    }
    if a.len() == 0 {
        return CaseForm::Lower;
    }
    let mut all_lower = true;
    let mut all_upper = true;
    let mut rest_lower = true;
    let mut k: usize = 0;
    while k < a.len()
        invariant
            0 <= k <= a.len(),
            all_lower == (forall|j: int| 0 <= j < k ==> #[trigger] char_lower(a@[j])),
            all_upper == (forall|j: int| 0 <= j < k ==> #[trigger] char_upper(a@[j])),
            rest_lower == (forall|j: int| 1 <= j < k ==> #[trigger] char_lower(a@[j])),
        decreases a.len() - k,
    {
        let lo = is_lowercase_char(a[k]);
        let up = is_uppercase_char(a[k]);
        all_lower = all_lower && lo;
        all_upper = all_upper && up;
        if k >= 1 {
            rest_lower = rest_lower && lo;
        }
        k = k + 1;
    }
    let first_upper = is_uppercase_char(a[0]);
    if all_lower {
        CaseForm::Lower
    } else if all_upper {
        CaseForm::Upper
    } else if first_upper && rest_lower {
        CaseForm::Title
    } else {
        CaseForm::Mixed
    }
}

} // verus!
