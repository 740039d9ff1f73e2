//! Word-formation analysis from etymology templates.
//!
//! Within a page's etymology text, a fixed priority order of template shapes
//! is tried: suffix, prefix, circumfix, then the variable-arity compound,
//! affix and surface-form templates.  The extracted components are
//! classified purely by their joiner marks: a component ending (but not
//! starting) with `-` is a prefix, starting (but not ending) with `-` a
//! suffix, both an interfix, neither a base.

use vstd::prelude::*;

use crate::markup::{replace_spec, replace_lit, strip_wikilinks, strip_wikilinks_spec};
use crate::patterns::{find_tmpl_a, find_tmpl_a_exec, find_tmpl_fix, find_tmpl_fix_exec};
use crate::text::{
    chars_of, contains_from, contains_lit, find_from, find_from_exec, match_at,
    match_at_exec, scan_blanks, scan_blanks_exec, scan_digits, scan_digits_exec, scan_run,
    scan_run_exec, scan_until, scan_until_exec, slice_to_vec, string_from_chars,
};
use crate::unicode::{lower_of, lowercase, trim_chars, trim_spec};
use crate::wikitext::{params_spec, parse_params_at};

verus! {

pub open spec fn starts_dash(c: Seq<char>) -> bool {
    c.len() > 0 && c[0] == '-'
}

pub open spec fn ends_dash(c: Seq<char>) -> bool {
    c.len() > 0 && c[c.len() - 1] == '-'
}

/// The components whose joiner-mark pattern is exactly (`sd`, `ed`):
/// starting with a dash iff `sd`, ending with one iff `ed`; order kept.
pub open spec fn sel(cs: Seq<Seq<char>>, sd: bool, ed: bool) -> Seq<Seq<char>>
    decreases cs.len(),
{
    if cs.len() == 0 {
        Seq::empty()
    } else {
        sel(cs.drop_last(), sd, ed) + (if starts_dash(cs.last()) == sd && ends_dash(cs.last())
            == ed {
            seq![cs.last()]
        } else {
            Seq::empty()
        })
    }
}

/// Specification-level morphology record.
#[verifier::ext_equal]
pub struct MorphV {
    pub morph_type: Seq<char>,
    pub base: Option<Seq<char>>,
    pub components: Seq<Seq<char>>,
    pub prefixes: Seq<Seq<char>>,
    pub suffixes: Seq<Seq<char>>,
    pub interfixes: Seq<Seq<char>>,
    pub is_compound: bool,
    pub etymology_template: Seq<char>,
}

/// Classify a component list.  Prefix and suffix present means `affixed`;
/// prefix only `prefixed`; suffix only `suffixed`; neither, with at least
/// two bases, `compound`; otherwise `simple`.  Non-compounds take the first
/// base as the base word; compounds have no single base.
pub open spec fn classify_spec(components: Seq<Seq<char>>, tmpl: Seq<char>) -> MorphV {
    let prefixes = sel(components, false, true);
    let suffixes = sel(components, true, false);
    let interfixes = sel(components, true, true);
    let bases = sel(components, false, false);
    let has_p = prefixes.len() > 0;
    let has_s = suffixes.len() > 0;
    let is_c = !has_p && !has_s && bases.len() >= 2;
    let mt = if has_p && has_s {
        "affixed"@
    } else if has_p {
        "prefixed"@
    } else if has_s {
        "suffixed"@
    } else if bases.len() >= 2 {
        "compound"@
    } else {
        "simple"@
    };
    MorphV {
        morph_type: mt,
        base: if !is_c && bases.len() > 0 {
            Some(bases[0])
        } else {
            None
        },
        components,
        prefixes,
        suffixes,
        interfixes,
        is_compound: is_c,
        etymology_template: tmpl,
    }
}

/// Morphological structure of a word: formation kind, components and the
/// affixes among them, and the source template text.
#[derive(Debug, PartialEq)]
pub struct Morphology {
    pub morph_type: String,
    pub base: Option<String>,
    pub components: Vec<String>,
    pub prefixes: Vec<String>,
    pub suffixes: Vec<String>,
    pub interfixes: Vec<String>,
    pub is_compound: bool,
    pub etymology_template: String,
}

impl Morphology {
    pub open spec fn v(&self) -> MorphV {
        MorphV {
            morph_type: self.morph_type@,
            base: match self.base {
                Some(b) => Some(b@),
                None => None,
            },
            components: self.components.deep_view(),
            prefixes: self.prefixes.deep_view(),
            suffixes: self.suffixes.deep_view(),
            interfixes: self.interfixes.deep_view(),
            is_compound: self.is_compound,
            etymology_template: self.etymology_template@,
        }
    }
}

/// Classify morphology components by their joiner-mark patterns alone.
pub fn classify_morphology(components: Vec<String>, etymology_template: String) -> (r: Morphology)
    ensures
        r.v() == classify_spec(components.deep_view(), etymology_template@),
{
    let ghost cv = components.deep_view();
    let mut prefixes: Vec<String> = Vec::new();
    let mut suffixes: Vec<String> = Vec::new();
    let mut interfixes: Vec<String> = Vec::new();
    let mut bases: Vec<String> = Vec::new();
    let mut i: usize = 0;
    while i < components.len()
        invariant
            0 <= i <= components.len(),
            cv == components.deep_view(),
            prefixes.deep_view() == sel(cv.take(i as int), false, true),
            suffixes.deep_view() == sel(cv.take(i as int), true, false),
            interfixes.deep_view() == sel(cv.take(i as int), true, true),
            bases.deep_view() == sel(cv.take(i as int), false, false),
        decreases components.len() - i,
    {
        let c = chars_of(components[i].as_str());
        let sd = c.len() > 0 && c[0] == '-';
        let ed = c.len() > 0 && c[c.len() - 1] == '-';
        proof {
            assert(cv[i as int] == components@[i as int]@);
            assert(sd == starts_dash(cv[i as int]));
            assert(ed == ends_dash(cv[i as int]));
            assert(cv.take(i + 1).drop_last() =~= cv.take(i as int));
            assert(cv.take(i + 1).last() == cv[i as int]);
        }
        let ghost pp = prefixes.deep_view();
        let ghost ss = suffixes.deep_view();
        let ghost ii = interfixes.deep_view();
        let ghost bb = bases.deep_view();
        if !sd && ed {
            prefixes.push(components[i].clone());
            proof {
                assert(prefixes.deep_view() =~= pp.push(cv[i as int]));
                assert(sel(cv.take(i + 1), false, true) =~= pp.push(cv[i as int]));
                assert(sel(cv.take(i + 1), true, false) =~= ss);
                assert(sel(cv.take(i + 1), true, true) =~= ii);
                assert(sel(cv.take(i + 1), false, false) =~= bb);
            }
        } else if sd && !ed {
            suffixes.push(components[i].clone());
            proof {
                assert(suffixes.deep_view() =~= ss.push(cv[i as int]));
                assert(sel(cv.take(i + 1), true, false) =~= ss.push(cv[i as int]));
                assert(sel(cv.take(i + 1), false, true) =~= pp);
                assert(sel(cv.take(i + 1), true, true) =~= ii);
                assert(sel(cv.take(i + 1), false, false) =~= bb);
            }
        } else if sd && ed {
            interfixes.push(components[i].clone());
            proof {
                assert(interfixes.deep_view() =~= ii.push(cv[i as int]));
                assert(sel(cv.take(i + 1), true, true) =~= ii.push(cv[i as int]));
                assert(sel(cv.take(i + 1), false, true) =~= pp);
                assert(sel(cv.take(i + 1), true, false) =~= ss);
                assert(sel(cv.take(i + 1), false, false) =~= bb);
            }
        } else {
            bases.push(components[i].clone());
            proof {
                assert(bases.deep_view() =~= bb.push(cv[i as int]));
                assert(sel(cv.take(i + 1), false, false) =~= bb.push(cv[i as int]));
                assert(sel(cv.take(i + 1), false, true) =~= pp);
                assert(sel(cv.take(i + 1), true, false) =~= ss);
                assert(sel(cv.take(i + 1), true, true) =~= ii);
            }
        }
        i = i + 1;
    }
    proof {
        assert(cv.take(components@.len() as int) =~= cv);
    }
    let has_p = prefixes.len() > 0;
    let has_s = suffixes.len() > 0;
    let is_compound = !has_p && !has_s && bases.len() >= 2;
    let morph_type = if has_p && has_s {
        String::from_str("affixed")
    } else if has_p {
        String::from_str("prefixed")
    } else if has_s {
        String::from_str("suffixed")
    } else if bases.len() >= 2 {
        String::from_str("compound")
    } else {
        String::from_str("simple")
    };
    let base = if !is_compound && bases.len() > 0 {
        Some(bases[0].clone())
    } else {
        None
    };
    let r = Morphology {
        morph_type,
        base,
        components,
        prefixes,
        suffixes,
        interfixes,
        is_compound,
        etymology_template,
    };
    proof {
        assert(r.v() =~~= classify_spec(cv, r.etymology_template@));
    }
    r
}

proof fn lemma_sel_contains(cs: Seq<Seq<char>>, sd: bool, ed: bool, x: Seq<char>)
    ensures
        sel(cs, sd, ed).contains(x) <==> (cs.contains(x) && starts_dash(x) == sd && ends_dash(x)
            == ed),
    decreases cs.len(),
{
    if cs.len() > 0 {
        lemma_sel_contains(cs.drop_last(), sd, ed, x);
        let rest = sel(cs.drop_last(), sd, ed);
        let tail: Seq<Seq<char>> = if starts_dash(cs.last()) == sd && ends_dash(cs.last()) == ed {
            seq![cs.last()]
        } else {
            Seq::empty()
        };
        assert(sel(cs, sd, ed) == rest + tail);
        if sel(cs, sd, ed).contains(x) {
            let k = choose|k: int| 0 <= k < sel(cs, sd, ed).len() && sel(cs, sd, ed)[k] == x;
            if k < rest.len() {
                assert(rest[k] == x);
                assert(rest.contains(x));
                assert(cs.drop_last().contains(x));
                let j = choose|j: int|
                    0 <= j < cs.drop_last().len() && cs.drop_last()[j] == x;
                assert(cs[j] == x);
                assert(cs.contains(x));
            } else {
                assert(tail[k - rest.len()] == x);
                assert(x == cs.last());
                assert(cs.contains(x)) by {
                    assert(cs[cs.len() - 1] == x);
                }
            }
        }
        if cs.contains(x) && starts_dash(x) == sd && ends_dash(x) == ed {
            let j = choose|j: int| 0 <= j < cs.len() && cs[j] == x;
            if j < cs.len() - 1 {
                assert(cs.drop_last()[j] == x);
                assert(cs.drop_last().contains(x));
                assert(rest.contains(x));
                let k = choose|k: int| 0 <= k < rest.len() && rest[k] == x;
                assert(sel(cs, sd, ed)[k] == x);
            } else {
                assert(cs.last() == x);
                assert(tail == seq![x]);
                assert(sel(cs, sd, ed)[rest.len() as int] == x);
            }
        }
    }
}

/// Morphology invariant: among a classification's components, exactly those
/// ending with (but not starting with) the joiner mark are prefixes, exactly
/// those starting with (but not ending with) it are suffixes, exactly those
/// with both are interfixes; and the result is a compound precisely when its
/// kind says so.
pub proof fn lemma_morphology_invariant(components: Seq<Seq<char>>, tmpl: Seq<char>, c: Seq<char>)
    ensures
        ({
            let m = classify_spec(components, tmpl);
            &&& (m.prefixes.contains(c) <==> (m.components.contains(c) && ends_dash(c)
                && !starts_dash(c)))
            &&& (m.suffixes.contains(c) <==> (m.components.contains(c) && starts_dash(c)
                && !ends_dash(c)))
            &&& (m.interfixes.contains(c) <==> (m.components.contains(c) && starts_dash(c)
                && ends_dash(c)))
            &&& (m.is_compound <==> m.morph_type == "compound"@)
        }),
{
    lemma_sel_contains(components, false, true, c);
    lemma_sel_contains(components, true, false, c);
    lemma_sel_contains(components, true, true, c);
    reveal_strlit("affixed");
    reveal_strlit("prefixed");
    reveal_strlit("suffixed");
    reveal_strlit("compound");
    reveal_strlit("simple");
    assert("affixed"@.len() == 7);
    assert("compound"@.len() == 8);
    assert("prefixed"@.len() == 8);
    assert("suffixed"@.len() == 8);
    assert("simple"@.len() == 6);
    assert("prefixed"@[0] == 'p' && "compound"@[0] == 'c' && "suffixed"@[0] == 's');
    assert("prefixed"@ != "compound"@);
    assert("suffixed"@ != "compound"@);
    assert("affixed"@ != "compound"@);
    assert("simple"@ != "compound"@);
}


/// An ASCII letter.
pub open spec fn is_ascii_letter(c: char) -> bool {
    (65 <= c as u32 && c as u32 <= 90) || (97 <= c as u32 && c as u32 <= 122)
}

pub open spec fn lcp_at(s: Seq<char>, k: int) -> bool {
    k < s.len() && s[k] == ':' && forall|j: int| 0 <= j < k ==> #[trigger] is_ascii_letter(s[j])
}

/// A language-code prefix: two to four ASCII letters followed by `:` at the
/// start, marking a foreign etymological root.
pub open spec fn lang_code_prefix(s: Seq<char>) -> bool {
    lcp_at(s, 2) || lcp_at(s, 3) || lcp_at(s, 4)
}

fn lcp_at_exec(t: &[char], k: usize) -> (r: bool)
    requires
        2 <= k <= 4,
    ensures
        r == lcp_at(t@, k as int),
{
    if k >= t.len() {
        return false;
    }
    if t[k] != ':' {
        return false;
    }
    let mut j: usize = 0;
    while j < k
        invariant
            0 <= j <= k < t.len(),
            t@[k as int] == ':',
            forall|m: int| 0 <= m < j ==> #[trigger] is_ascii_letter(t@[m]),
        decreases k - j,
    {
        let u = t[j] as u32;
        if !((65 <= u && u <= 90) || (97 <= u && u <= 122)) {
            proof {
                assert(!is_ascii_letter(t@[j as int]));
            }
            return false;
        }
        j = j + 1;
    }
    true
}

fn lang_code_prefix_exec(t: &[char]) -> (r: bool)
    ensures
        r == lang_code_prefix(t@),
{
    lcp_at_exec(t, 2) || lcp_at_exec(t, 3) || lcp_at_exec(t, 4)
}

/// A markup tag at `i`: `<`, one or more characters other than `>`, then
/// `>`.  Yields the position just past the tag.
pub open spec fn tag_at(t: Seq<char>, i: int) -> Option<int> {
    if 0 <= i < t.len() && t[i] == '<' {
        let ce = scan_until(t, i + 1, seq!['>']);
        if ce > i + 1 && ce < t.len() {
            Some(ce + 1)
        } else {
            None
        }
    } else {
        None
    }
}

/// Remove every markup tag, scanning left to right.
pub open spec fn strip_tags_spec(t: Seq<char>, i: int) -> Seq<char>
    decreases t.len() - i,
{
    if i < 0 || i >= t.len() {
        Seq::empty()
    } else {
        match tag_at(t, i) {
            Some(e) => {
                let e2 = if i < e <= t.len() {
                    e
                } else {
                    i + 1
                };
                strip_tags_spec(t, e2)
            },
            None => seq![t[i]] + strip_tags_spec(t, i + 1),
        }
    }
}

fn strip_tags(t: &[char]) -> (r: Vec<char>)
    ensures
        r@ == strip_tags_spec(t@, 0),
{
    let mut out: Vec<char> = Vec::new();
    let mut i: usize = 0;
    let gt = {
        let mut v: Vec<char> = Vec::new();
        v.push('>');
        assert(v@ =~= seq!['>']);
        v
    };
    while i < t.len()
        invariant
            0 <= i <= t.len(),
            gt@ == seq!['>'],
            strip_tags_spec(t@, 0) == out@ + strip_tags_spec(t@, i as int),
        decreases t.len() - i,
    {
        let mut advanced = false;
        if t[i] == '<' {
            let ce = scan_until_exec(t, i + 1, gt.as_slice());
            if ce > i + 1 && ce < t.len() {
                proof {
                    assert(tag_at(t@, i as int) == Some(ce + 1));
                    assert(strip_tags_spec(t@, i as int) == strip_tags_spec(t@, ce + 1));
                }
                i = ce + 1;
                advanced = true;
            }
        }
        if !advanced {
            let ghost prev = out@;
            proof {
                assert(tag_at(t@, i as int) is None);
            }
            out.push(t[i]);
            proof {
                assert(strip_tags_spec(t@, i as int) == seq![t@[i as int]] + strip_tags_spec(
                    t@,
                    i + 1,
                ));
                assert(prev + strip_tags_spec(t@, i as int) =~= out@ + strip_tags_spec(
                    t@,
                    i + 1,
                ));
            }
            i = i + 1;
        }
    }
    assert(strip_tags_spec(t@, t.len() as int) =~= Seq::<char>::empty());
    assert(out@ =~= strip_tags_spec(t@, 0));
    out
}

/// Clean one parsed component: trim it; drop it when empty, when it carries
/// a named parameter (`=`), or when it names a foreign root; decode the
/// basic entities; strip markup tags; drop it when nothing remains.
pub open spec fn clean_component(part: Seq<char>) -> Option<Seq<char>> {
    let tr = trim_spec(part);
    if tr.len() == 0 || scan_until(tr, 0, seq!['=']) < tr.len() || lang_code_prefix(tr) {
        None
    } else {
        let d1 = replace_spec(tr, "&lt;"@, seq!['<'], 0);
        let d2 = replace_spec(d1, "&gt;"@, seq!['>'], 0);
        let d3 = replace_spec(d2, "&amp;"@, seq!['&'], 0);
        let d4 = strip_tags_spec(d3, 0);
        if d4.len() == 0 {
            None
        } else {
            Some(d4)
        }
    }
}

pub open spec fn clean_components_spec(parts: Seq<Seq<char>>) -> Seq<Seq<char>>
    decreases parts.len(),
{
    if parts.len() == 0 {
        Seq::empty()
    } else {
        clean_components_spec(parts.drop_last()) + (match clean_component(parts.last()) {
            Some(c) => seq![c],
            None => Seq::empty(),
        })
    }
}

fn clean_component_exec(part: &str) -> (r: Option<Vec<char>>)
    ensures
        match r {
            Some(v) => clean_component(part@) == Some(v@),
            None => clean_component(part@) is None,
        },
{
    let pc = chars_of(part);
    let tr = trim_chars(pc.as_slice());
    let eq = {
        let mut v: Vec<char> = Vec::new();
        v.push('=');
        assert(v@ =~= seq!['=']);
        v
    };
    let has_eq = scan_until_exec(tr.as_slice(), 0, eq.as_slice()) < tr.len();
    if tr.len() == 0 || has_eq || lang_code_prefix_exec(tr.as_slice()) {
        return None;
    }
    proof {
        reveal_strlit("&lt;");
        reveal_strlit("&gt;");
        reveal_strlit("&amp;");
        reveal_strlit("<");
        reveal_strlit(">");
        reveal_strlit("&");
        assert("<"@ =~= seq!['<']);
        assert(">"@ =~= seq!['>']);
        assert("&"@ =~= seq!['&']);
    }
    let d1 = replace_lit(tr.as_slice(), "&lt;", "<");
    let d2 = replace_lit(d1.as_slice(), "&gt;", ">");
    let d3 = replace_lit(d2.as_slice(), "&amp;", "&");
    let d4 = strip_tags(d3.as_slice());
    if d4.len() == 0 {
        None
    } else {
        Some(d4)
    }
}

/// Clean a parsed component list: parameters, foreign roots and markup
/// leftovers are dropped, entities decoded.
pub fn clean_template_components(parts: &Vec<String>) -> (r: Vec<String>)
    ensures
        r.deep_view() == clean_components_spec(parts.deep_view()),
{
    let ghost pv = parts.deep_view();
    let mut out: Vec<String> = Vec::new();
    let mut i: usize = 0;
    while i < parts.len()
        invariant
            0 <= i <= parts.len(),
            pv == parts.deep_view(),
            out.deep_view() == clean_components_spec(pv.take(i as int)),
        decreases parts.len() - i,
    {
        proof {
            assert(pv[i as int] == parts@[i as int]@);
            assert(pv.take(i + 1).drop_last() =~= pv.take(i as int));
            assert(pv.take(i + 1).last() == pv[i as int]);
        }
        let ghost prev = out.deep_view();
        match clean_component_exec(parts[i].as_str()) {
            Some(v) => {
                out.push(string_from_chars(v.as_slice()));
                proof {
                    assert(out.deep_view() =~= prev.push(v@));
                    assert(clean_components_spec(pv.take(i + 1)) =~= prev.push(v@));
                }
            },
            None => {
                proof {
                    assert(clean_components_spec(pv.take(i + 1)) =~= prev);
                }
            },
        }
        i = i + 1;
    }
    proof {
        assert(pv.take(parts@.len() as int) =~= pv);
    }
    out
}

/// A suffix component carries a leading joiner mark.
pub open spec fn norm_suffix(s: Seq<char>) -> Seq<char> {
    if starts_dash(s) {
        s
    } else {
        seq!['-'] + s
    }
}

/// A prefix component carries a trailing joiner mark.
pub open spec fn norm_prefix(s: Seq<char>) -> Seq<char> {
    if ends_dash(s) {
        s
    } else {
        s + seq!['-']
    }
}

/// A template argument, trimmed and with wikilink markup stripped.
pub open spec fn arg_clean(t: Seq<char>, a: (int, int)) -> Seq<char> {
    strip_wikilinks_spec(trim_spec(t.subrange(a.0, a.1)))
}

fn arg_clean_exec(t: &[char], lo: usize, hi: usize) -> (r: Vec<char>)
    requires
        lo <= hi <= t.len(),
    ensures
        r@ == arg_clean(t@, (lo as int, hi as int)),
{
    let sub = slice_to_vec(t, lo, hi);
    let tr = trim_chars(sub.as_slice());
    let st = strip_wikilinks(string_from_chars(tr.as_slice()).as_str());
    chars_of(st.as_str())
}

fn norm_suffix_exec(s: Vec<char>) -> (r: Vec<char>)
    ensures
        r@ == norm_suffix(s@),
{
    if s.len() > 0 && s[0] == '-' {
        s
    } else {
        let ghost s0 = s@;
        let mut r: Vec<char> = Vec::new();
        r.push('-');
        let mut s = s;
        r.append(&mut s);
        assert(r@ =~= norm_suffix(s0));
        r
    }
}

fn norm_prefix_exec(s: Vec<char>) -> (r: Vec<char>)
    ensures
        r@ == norm_prefix(s@),
{
    if s.len() > 0 && s[s.len() - 1] == '-' {
        s
    } else {
        let mut r = s;
        r.push('-');
        r
    }
}

/// The normalized component list and source text of the first etymology
/// template found, trying suffix, prefix, circumfix, then compound, affix
/// and surface-form shapes in that order.
pub open spec fn morph_components_spec(t: Seq<char>) -> Option<(Seq<Seq<char>>, Seq<char>)> {
    match find_tmpl_fix(t, "{{suffix|en|"@, 0, 2, 3) {
        Some(m) => {
            let base = arg_clean(t, m.1[0]);
            let suf = norm_suffix(arg_clean(t, m.1[1]));
            Some((seq![base, suf], t.subrange(m.0, m.2)))
        },
        None => match find_tmpl_fix(t, "{{prefix|en|"@, 0, 2, 3) {
            Some(m) => {
                let pre = norm_prefix(arg_clean(t, m.1[0]));
                let base = arg_clean(t, m.1[1]);
                Some((seq![pre, base], t.subrange(m.0, m.2)))
            },
            None => match find_tmpl_fix(t, "{{confix|en|"@, 0, 3, 4) {
                Some(m) => {
                    let pre = norm_prefix(arg_clean(t, m.1[0]));
                    let base = arg_clean(t, m.1[1]);
                    let suf = norm_suffix(arg_clean(t, m.1[2]));
                    Some((seq![pre, base, suf], t.subrange(m.0, m.2)))
                },
                None => match var_tmpl_spec(t, seq!["{{compound|en|"@]) {
                    Some(r) => Some(r),
                    None => match var_tmpl_spec(t, seq!["{{af|en|"@, "{{affix|en|"@]) {
                        Some(r) => Some(r),
                        None => var_tmpl_spec(t, seq!["{{surf|en|"@]),
                    },
                },
            },
        },
    }
}

/// A variable-arity template occurrence whose cleaned component list has at
/// least two entries.
pub open spec fn var_tmpl_spec(t: Seq<char>, pres: Seq<Seq<char>>) -> Option<
    (Seq<Seq<char>>, Seq<char>),
> {
    match find_tmpl_a(t, pres, 0) {
        Some(m) => {
            let comps = clean_components_spec(params_spec(t.subrange(m.1, m.2), 0).0);
            if comps.len() >= 2 {
                Some((comps, t.subrange(m.0, m.2 + 2)))
            } else {
                None
            }
        },
        None => None,
    }
}

fn var_tmpl_exec(t: &[char], pres: &Vec<Vec<char>>) -> (r: Option<(Vec<String>, String)>)
    ensures
        match r {
            Some((comps, tmpl)) => var_tmpl_spec(t@, pres.deep_view()) == Some(
                (comps.deep_view(), tmpl@),
            ),
            None => var_tmpl_spec(t@, pres.deep_view()) is None,
        },
{
    match find_tmpl_a_exec(t, pres, 0) {
        Some((s, cs, ce)) => {
            let content = slice_to_vec(t, cs, ce);
            let (parts, _e) = parse_params_at(content.as_slice(), 0);
            let comps = clean_template_components(&parts);
            if comps.len() >= 2 {
                let tmpl = string_from_chars(slice_to_vec(t, s, ce + 2).as_slice());
                Some((comps, tmpl))
            } else {
                None
            }
        },
        None => None,
    }
}

/// Extract normalized morphology components and the source template text
/// from etymology text.
pub fn extract_morphology_components(etymology_text: &str) -> (r: Option<(Vec<String>, String)>)
    ensures
        match r {
            Some((comps, tmpl)) => morph_components_spec(etymology_text@) == Some(
                (comps.deep_view(), tmpl@),
            ),
            None => morph_components_spec(etymology_text@) is None,
        },
{
    let tv = chars_of(etymology_text);
    let t = tv.as_slice();
    if let Some((s, args, e)) = find_tmpl_fix_exec(t, chars_of("{{suffix|en|").as_slice(), 0, 2, 3) {
        let base = arg_clean_exec(t, args[0].0, args[0].1);
        let suf = norm_suffix_exec(arg_clean_exec(t, args[1].0, args[1].1));
        let mut comps: Vec<String> = Vec::new();
        comps.push(string_from_chars(base.as_slice()));
        comps.push(string_from_chars(suf.as_slice()));
        let tmpl = string_from_chars(slice_to_vec(t, s, e).as_slice());
        proof {
            let m = find_tmpl_fix(t@, "{{suffix|en|"@, 0, 2, 3)->0;
            assert(comps.deep_view() =~= seq![arg_clean(t@, m.1[0]), norm_suffix(arg_clean(t@, m.1[1]))]);
        }
        return Some((comps, tmpl));
    }
    if let Some((s, args, e)) = find_tmpl_fix_exec(t, chars_of("{{prefix|en|").as_slice(), 0, 2, 3) {
        let pre = norm_prefix_exec(arg_clean_exec(t, args[0].0, args[0].1));
        let base = arg_clean_exec(t, args[1].0, args[1].1);
        let mut comps: Vec<String> = Vec::new();
        comps.push(string_from_chars(pre.as_slice()));
        comps.push(string_from_chars(base.as_slice()));
        let tmpl = string_from_chars(slice_to_vec(t, s, e).as_slice());
        proof {
            let m = find_tmpl_fix(t@, "{{prefix|en|"@, 0, 2, 3)->0;
            assert(comps.deep_view() =~= seq![norm_prefix(arg_clean(t@, m.1[0])), arg_clean(t@, m.1[1])]);
        }
        return Some((comps, tmpl));
    }
    if let Some((s, args, e)) = find_tmpl_fix_exec(t, chars_of("{{confix|en|").as_slice(), 0, 3, 4) {
        let pre = norm_prefix_exec(arg_clean_exec(t, args[0].0, args[0].1));
        let base = arg_clean_exec(t, args[1].0, args[1].1);
        let suf = norm_suffix_exec(arg_clean_exec(t, args[2].0, args[2].1));
        let mut comps: Vec<String> = Vec::new();
        comps.push(string_from_chars(pre.as_slice()));
        comps.push(string_from_chars(base.as_slice()));
        comps.push(string_from_chars(suf.as_slice()));
        let tmpl = string_from_chars(slice_to_vec(t, s, e).as_slice());
        proof {
            let m = find_tmpl_fix(t@, "{{confix|en|"@, 0, 3, 4)->0;
            assert(comps.deep_view() =~= seq![
                norm_prefix(arg_clean(t@, m.1[0])),
                arg_clean(t@, m.1[1]),
                norm_suffix(arg_clean(t@, m.1[2])),
            ]);
        }
        return Some((comps, tmpl));
    }
    let compound_pres = {
        let mut v: Vec<Vec<char>> = Vec::new();
        v.push(chars_of("{{compound|en|"));
        assert(v.deep_view() =~~= seq!["{{compound|en|"@]);
        v
    };
    if let Some(r) = var_tmpl_exec(t, &compound_pres) {
        return Some(r);
    }
    let affix_pres = {
        let mut v: Vec<Vec<char>> = Vec::new();
        v.push(chars_of("{{af|en|"));
        v.push(chars_of("{{affix|en|"));
        assert(v.deep_view() =~~= seq!["{{af|en|"@, "{{affix|en|"@]);
        v
    };
    if let Some(r) = var_tmpl_exec(t, &affix_pres) {
        return Some(r);
    }
    let surf_pres = {
        let mut v: Vec<Vec<char>> = Vec::new();
        v.push(chars_of("{{surf|en|"));
        assert(v.deep_view() =~~= seq!["{{surf|en|"@]);
        v
    };
    var_tmpl_exec(t, &surf_pres)
}


/// The last line feed in `t[lo..hi)` that still has a character after it.
pub open spec fn last_nl(t: Seq<char>, lo: int, hi: int) -> Option<int>
    decreases hi - lo,
{
    if hi <= lo {
        None
    } else if t[hi - 1] == '\n' && hi < t.len() {
        Some(hi - 1)
    } else {
        last_nl(t, lo, hi - 1)
    }
}

fn last_nl_exec(t: &[char], lo: usize, hi: usize) -> (r: Option<usize>)
    requires
        lo <= hi <= t.len(),
    ensures
        match r {
            Some(k) => last_nl(t@, lo as int, hi as int) == Some(k as int) && lo <= k && k + 1
                < t.len(),
            None => last_nl(t@, lo as int, hi as int) is None,
        },
{
    let mut j: usize = hi;
    while j > lo
        invariant
            lo <= j <= hi <= t.len(),
            last_nl(t@, lo as int, hi as int) == last_nl(t@, lo as int, j as int),
        decreases j,
    {
        if t[j - 1] == '\n' && j < t.len() {
            return Some(j - 1);
        }
        j = j - 1;
    }
    None
}

/// An etymology header at `i`: three or more `=`, the word `etymology`
/// (any case) with an optional number, three or more `=` again, and a line
/// break with content after it.  Yields where the section content starts.
pub open spec fn etym_at(t: Seq<char>, i: int) -> Option<int> {
    let e1 = scan_run(t, i, '=');
    if e1 - i < 3 {
        None
    } else {
        let b1 = scan_blanks(t, e1);
        if match_at(true, t, "etymology"@, b1) {
            let b2 = scan_blanks(t, b1 + "etymology"@.len());
            let d = scan_digits(t, b2);
            let b3 = scan_blanks(t, d);
            let e2 = scan_run(t, b3, '=');
            if e2 - b3 < 3 {
                None
            } else {
                let b4 = scan_blanks(t, e2);
                match last_nl(t, e2, b4) {
                    Some(k) => Some(k + 1),
                    None => None,
                }
            }
        } else {
            None
        }
    }
}

fn etym_at_exec(t: &[char], i: usize) -> (r: Option<usize>)
    requires
        i <= t.len(),
    ensures
        match r {
            Some(cs) => etym_at(t@, i as int) == Some(cs as int) && cs <= t.len(),
            None => etym_at(t@, i as int) is None,
        },
{
    let e1 = scan_run_exec(t, i, '=');
    if e1 - i < 3 {
        return None;
    }
    let b1 = scan_blanks_exec(t, e1);
    let ety = chars_of("etymology");
    proof {
        reveal_strlit("etymology");
    }
    if !match_at_exec(true, t, ety.as_slice(), b1) {
        return None;
    }
    assert(b1 + 9 <= t.len()) by {
        assert("etymology"@.len() == 9);
    }
    let b2 = scan_blanks_exec(t, b1 + 9);
    let d = scan_digits_exec(t, b2);
    let b3 = scan_blanks_exec(t, d);
    let e2 = scan_run_exec(t, b3, '=');
    if e2 - b3 < 3 {
        return None;
    }
    let b4 = scan_blanks_exec(t, e2);
    match last_nl_exec(t, e2, b4) {
        Some(k) => Some(k + 1),
        None => None,
    }
}

/// The leftmost etymology header at or after `from`.
pub open spec fn find_etym(t: Seq<char>, from: int) -> Option<int>
    decreases t.len() - from,
{
    if from < 0 || from > t.len() {
        None
    } else {
        match etym_at(t, from) {
            Some(cs) => Some(cs),
            None => {
                if from == t.len() {
                    None
                } else {
                    find_etym(t, from + 1)
                }
            },
        }
    }
}

fn find_etym_exec(t: &[char]) -> (r: Option<usize>)
    ensures
        match r {
            Some(cs) => find_etym(t@, 0) == Some(cs as int) && cs <= t.len(),
            None => find_etym(t@, 0) is None,
        },
{
    let mut pos: usize = 0;
    loop
        invariant
            0 <= pos <= t.len(),
            find_etym(t@, 0) == find_etym(t@, pos as int),
        decreases t.len() - pos,
    {
        match etym_at_exec(t, pos) {
            Some(cs) => {
                return Some(cs);
            },
            None => {
                if pos == t.len() {
                    return None;
                }
                pos = pos + 1;
            },
        }
    }
}

/// The etymology section's text: from just after its header up to the next
/// section header, or to the end of the text.
pub open spec fn etym_text_spec(t: Seq<char>) -> Option<Seq<char>> {
    match find_etym(t, 0) {
        None => None,
        Some(cs) => {
            let content = t.subrange(cs, t.len() as int);
            match find_from(false, content, "\n==="@, 0) {
                Some(p) => Some(content.subrange(0, p)),
                None => Some(content),
            }
        },
    }
}

/// A circumfix template is always classified `circumfixed`, its first
/// component as the prefix, second as the base, third as the suffix.
pub open spec fn circumfix_spec(comps: Seq<Seq<char>>, tmpl: Seq<char>) -> MorphV {
    MorphV {
        morph_type: "circumfixed"@,
        base: if comps.len() > 1 {
            Some(comps[1])
        } else {
            None
        },
        components: comps,
        prefixes: seq![if comps.len() > 0 {
            comps[0]
        } else {
            Seq::empty()
        }],
        suffixes: if comps.len() > 2 {
            seq![comps[2]]
        } else {
            Seq::empty()
        },
        interfixes: Seq::empty(),
        is_compound: false,
        etymology_template: tmpl,
    }
}

/// What morphology extraction yields for a page text: the first matching
/// template in the etymology section, normalized and classified.
pub open spec fn extract_morphology_spec(text: Seq<char>) -> Option<MorphV> {
    match etym_text_spec(text) {
        None => None,
        Some(et) => match morph_components_spec(et) {
            None => None,
            Some(ct) => {
                if contains_from(false, lower_of(ct.1), "confix"@, 0) {
                    Some(circumfix_spec(ct.0, ct.1))
                } else {
                    Some(classify_spec(ct.0, ct.1))
                }
            },
        },
    }
}

/// Extract morphological structure from a page's etymology section.
pub fn extract_morphology(text: &str) -> (r: Option<Morphology>)
    ensures
        match r {
            Some(m) => extract_morphology_spec(text@) == Some(m.v()),
            None => extract_morphology_spec(text@) is None,
        },
{
    let tv = chars_of(text);
    let t = tv.as_slice();
    let cs = match find_etym_exec(t) {
        Some(cs) => cs,
        None => {
            return None;
        },
    };
    let content = slice_to_vec(t, cs, t.len());
    let cut = find_lit_nl3(content.as_slice());
    let etext = match cut {
        Some(p) => slice_to_vec(content.as_slice(), 0, p),
        None => {
            let c = slice_to_vec(content.as_slice(), 0, content.len());
            assert(c@ =~= content@);
            c
        },
    };
    let (comps, tmpl) = match extract_morphology_components(
        string_from_chars(etext.as_slice()).as_str(),
    ) {
        Some(ct) => ct,
        None => {
            return None;
        },
    };
    let low = lowercase(tmpl.as_str());
    let lowc = chars_of(low.as_str());
    if contains_lit(false, lowc.as_slice(), "confix") {
        let prefix = if comps.len() > 0 {
            comps[0].clone()
        } else {
            String::new()
        };
        let base = if comps.len() > 1 {
            Some(comps[1].clone())
        } else {
            None
        };
        let mut suffixes: Vec<String> = Vec::new();
        if comps.len() > 2 {
            suffixes.push(comps[2].clone());
        }
        let mut prefixes: Vec<String> = Vec::new();
        prefixes.push(prefix);
        let m = Morphology {
            morph_type: String::from_str("circumfixed"),
            base,
            components: comps,
            prefixes,
            suffixes,
            interfixes: Vec::new(),
            is_compound: false,
            etymology_template: tmpl,
        };
        proof {
            assert(m.v() =~~= circumfix_spec(m.components.deep_view(), m.etymology_template@));
        }
        Some(m)
    } else {
        Some(classify_morphology(comps, tmpl))
    }
}

fn find_lit_nl3(t: &[char]) -> (r: Option<usize>)
    ensures
        crate::text::opt_idx(r, find_from(false, t@, "\n==="@, 0)),
        r is Some ==> r->0 <= t.len(),
{
    let pat = chars_of("\n===");
    let r = find_from_exec(false, t, pat.as_slice(), 0);
    r
}

} // verus!
