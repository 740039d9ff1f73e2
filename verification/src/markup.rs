//! Cleanup of residual wiki markup in extracted text: wikilink stripping,
//! lemma cleaning, HTML-entity decoding and tag removal.

use vstd::prelude::*;

use crate::text::{
    chars_of, find_from, find_from_exec, match_at, scan_run, scan_run_exec,
    scan_until, scan_until_exec, slice_to_vec, string_from_chars,
};
use crate::unicode::{trim_chars, trim_spec};

verus! {

/// First-occurrence facts for `find_from`.
pub proof fn lemma_find_from(ci: bool, t: Seq<char>, p: Seq<char>, from: int)
    ensures
        match find_from(ci, t, p, from) {
            Some(i) => from <= i && i + p.len() <= t.len() && match_at(ci, t, p, i),
            None => true,
        },
    decreases t.len() - from,
{
    if !(from < 0 || from + p.len() > t.len()) && !match_at(ci, t, p, from) {
        lemma_find_from(ci, t, p, from + 1);
    }
}

/// A wikilink-markup occurrence at `i`: `[[` target `]]`, or
/// `[[` target `|` display `]]`, the target nonempty and free of `]` and
/// `|`, the display nonempty and free of `]`.  Yields the target range and
/// the end of the whole occurrence.
pub open spec fn wl_pat_at(t: Seq<char>, i: int) -> Option<(int, int, int)> {
    if match_at(false, t, seq!['[', '['], i) {
        let ce = scan_until(t, i + 2, seq![']', '|']);
        if ce == i + 2 {
            None
        } else if ce < t.len() && t[ce] == '|' {
            let de = scan_until(t, ce + 1, seq![']']);
            if de > ce + 1 && match_at(false, t, seq![']', ']'], de) {
                Some((i + 2, ce, de + 2))
            } else {
                None
            }
        } else if match_at(false, t, seq![']', ']'], ce) {
            Some((i + 2, ce, ce + 2))
        } else {
            None
        }
    } else {
        None
    }
}

/// Replace every wikilink occurrence by its target, scanning left to right.
pub open spec fn strip_wl_spec(t: Seq<char>, i: int) -> Seq<char>
    decreases t.len() - i,
{
    if i < 0 || i >= t.len() {
        Seq::empty()
    } else {
        match wl_pat_at(t, i) {
            Some((cs, ce, e)) => {
                let e2 = if i < e <= t.len() {
                    e
                } else {
                    i + 1
                };
                t.subrange(cs, ce) + strip_wl_spec(t, e2)
            },
            None => seq![t[i]] + strip_wl_spec(t, i + 1),
        }
    }
}

fn wl_pat_at_exec(t: &[char], i: usize) -> (r: Option<(usize, usize, usize)>)
    requires
        i <= t.len(),
    ensures
        match r {
            Some((cs, ce, e)) => wl_pat_at(t@, i as int) == Some(
                (cs as int, ce as int, e as int),
            ) && i < e <= t.len() && cs <= ce <= t.len(),
            None => wl_pat_at(t@, i as int) is None,
        },
{
    if !crate::wikitext::is2(t, i, '[', '[') {
        return None;
    }
    let stops = {
        let mut v: Vec<char> = Vec::new();
        v.push(']');
        v.push('|');
        assert(v@ =~= seq![']', '|']);
        v
    };
    let ce = scan_until_exec(t, i + 2, stops.as_slice());
    if ce == i + 2 {
        return None;
    }
    if ce < t.len() && t[ce] == '|' {
        let dstops = {
            let mut v: Vec<char> = Vec::new();
            v.push(']');
            assert(v@ =~= seq![']']);
            v
        };
        let de = scan_until_exec(t, ce + 1, dstops.as_slice());
        if de > ce + 1 && crate::wikitext::is2(t, de, ']', ']') {
            Some((i + 2, ce, de + 2))
        } else {
            None
        }
    } else if crate::wikitext::is2(t, ce, ']', ']') {
        Some((i + 2, ce, ce + 2))
    } else {
        None
    }
}

fn strip_wl_chars(t: &[char]) -> (r: Vec<char>)
    ensures
        r@ == strip_wl_spec(t@, 0),
{
    let mut out: Vec<char> = Vec::new();
    let mut i: usize = 0;
    while i < t.len()
        invariant
            0 <= i <= t.len(),
            strip_wl_spec(t@, 0) == out@ + strip_wl_spec(t@, i as int),
        decreases t.len() - i,
    {
        match wl_pat_at_exec(t, i) {
            Some((cs, ce, e)) => {
                let ghost prev = out@;
                let mut seg = slice_to_vec(t, cs, ce);
                out.append(&mut seg);
                proof {
                    assert(strip_wl_spec(t@, i as int) == t@.subrange(cs as int, ce as int)
                        + strip_wl_spec(t@, e as int));
                    assert(prev + strip_wl_spec(t@, i as int) =~= out@ + strip_wl_spec(
                        t@,
                        e as int,
                    ));
                }
                i = e;
            },
            None => {
                let ghost prev = out@;
                out.push(t[i]);
                proof {
                    assert(strip_wl_spec(t@, i as int) == seq![t@[i as int]] + strip_wl_spec(
                        t@,
                        i + 1,
                    ));
                    assert(prev + strip_wl_spec(t@, i as int) =~= out@ + strip_wl_spec(
                        t@,
                        i + 1,
                    ));
                }
                i = i + 1;
            },
        }
    }
    assert(strip_wl_spec(t@, t.len() as int) =~= Seq::<char>::empty());
    assert(out@ =~= strip_wl_spec(t@, 0));
    out
}

/// Strip wikilink markup: `[[word]]` becomes `word`, `[[word|display]]`
/// becomes `word`; any remaining `]]` pairs are dropped.
pub open spec fn strip_wikilinks_spec(s: Seq<char>) -> Seq<char> {
    replace_spec(strip_wl_spec(s, 0), seq![']', ']'], Seq::empty(), 0)
}

pub fn strip_wikilinks(s: &str) -> (r: String)
    ensures
        r@ == strip_wikilinks_spec(s@),
{
    let t = chars_of(s);
    let st = strip_wl_chars(t.as_slice());
    proof {
        reveal_strlit("]]");
        reveal_strlit("");
        assert("]]"@ =~= seq![']', ']']);
        assert(""@ =~= Seq::<char>::empty());
    }
    let cleaned = replace_lit(st.as_slice(), "]]", "");
    string_from_chars(cleaned.as_slice())
}

/// Replace every occurrence of a nonempty pattern, scanning left to right.
pub open spec fn replace_spec(t: Seq<char>, pat: Seq<char>, repl: Seq<char>, i: int) -> Seq<char>
    decreases t.len() - i,
{
    if i < 0 || i >= t.len() {
        Seq::empty()
    } else if pat.len() > 0 && match_at(false, t, pat, i) {
        repl + replace_spec(t, pat, repl, i + pat.len())
    } else {
        seq![t[i]] + replace_spec(t, pat, repl, i + 1)
    }
}

pub fn replace_lit(t: &[char], pat: &str, repl: &str) -> (r: Vec<char>)
    requires
        pat@.len() > 0,
    ensures
        r@ == replace_spec(t@, pat@, repl@, 0),
{
    let pc = chars_of(pat);
    let rc = chars_of(repl);
    let mut out: Vec<char> = Vec::new();
    let mut i: usize = 0;
    while i < t.len()
        invariant
            0 <= i <= t.len(),
            pc@ == pat@,
            rc@ == repl@,
            pat@.len() > 0,
            replace_spec(t@, pat@, repl@, 0) == out@ + replace_spec(t@, pat@, repl@, i as int),
        decreases t.len() - i,
    {
        if crate::text::match_at_exec(false, t, pc.as_slice(), i) {
            let ghost prev = out@;
            let mut seg = slice_to_vec(rc.as_slice(), 0, rc.len());
            out.append(&mut seg);
            proof {
                assert(rc@.subrange(0, rc@.len() as int) =~= repl@);
                assert(prev + replace_spec(t@, pat@, repl@, i as int) =~= out@ + replace_spec(
                    t@,
                    pat@,
                    repl@,
                    i + pat@.len(),
                ));
            }
            i = i + pc.len();
        } else {
            let ghost prev = out@;
            out.push(t[i]);
            proof {
                assert(prev + replace_spec(t@, pat@, repl@, i as int) =~= out@ + replace_spec(
                    t@,
                    pat@,
                    repl@,
                    i + 1,
                ));
            }
            i = i + 1;
        }
    }
    assert(replace_spec(t@, pat@, repl@, t.len() as int) =~= Seq::<char>::empty());
    assert(out@ =~= replace_spec(t@, pat@, repl@, 0));
    out
}

/// Index of the last occurrence of `c`, or -1.
pub open spec fn last_idx(s: Seq<char>, c: char) -> int
    decreases s.len(),
{
    if s.len() == 0 {
        -1
    } else if s.last() == c {
        s.len() - 1
    } else {
        last_idx(s.drop_last(), c)
    }
}

proof fn lemma_last_idx(s: Seq<char>, c: char)
    ensures
        -1 <= last_idx(s, c) < s.len(),
        last_idx(s, c) >= 0 ==> s[last_idx(s, c)] == c,
        forall|k: int| last_idx(s, c) < k < s.len() ==> s[k] != c,
    decreases s.len(),
{
    if s.len() > 0 && s.last() != c {
        lemma_last_idx(s.drop_last(), c);
        assert forall|k: int| last_idx(s, c) < k < s.len() implies s[k] != c by {
            if k < s.len() - 1 {
                assert(s.drop_last()[k] == s[k]);
            }
        }
    }
}

fn last_idx_exec(t: &[char]) -> (r: Option<usize>)
    ensures
        match r {
            Some(k) => last_idx(t@, ':') == k as int && k < t.len(),
            None => last_idx(t@, ':') == -1,
        },
{
    let mut j: usize = t.len();
    assert(t@.subrange(0, t.len() as int) =~= t@);
    while j > 0
        invariant
            j <= t.len(),
            last_idx(t@, ':') == last_idx(t@.subrange(0, j as int), ':'),
        decreases j,
    {
        proof {
            assert(t@.subrange(0, j as int).last() == t@[j - 1]);
            assert(t@.subrange(0, j as int).drop_last() =~= t@.subrange(0, j - 1));
        }
        if t[j - 1] == ':' {
            return Some(j - 1);
        }
        j = j - 1;
    }
    assert(t@.subrange(0, 0) =~= Seq::<char>::empty());
    None
}

/// The cleaned inner text of the link occupying `s[st..e+2]`: the part of
/// the content before any `|`, leading `:` markers dropped, and only the
/// text after the last remaining `:` kept.
pub open spec fn link_body(s: Seq<char>, st: int, e: int) -> Seq<char> {
    let content = s.subrange(st + 2, e);
    let p = scan_until(content, 0, seq!['|']);
    let c1 = if p < content.len() {
        content.subrange(0, p)
    } else {
        content
    };
    let c2 = c1.skip(scan_run(c1, 0, ':'));
    let li = last_idx(c2, ':');
    if li >= 0 {
        c2.subrange(li + 1, c2.len() as int)
    } else {
        c2
    }
}

/// One pass of the lemma cleaner's link removal: the first `[[` is either
/// resolved against its closing `]]` (keeping the cleaned link body) or, if
/// unclosed, everything from it on is dropped.
pub open spec fn clean_links_spec(s: Seq<char>) -> Seq<char>
    decreases s.len(),
        via clean_links_dec
{
    match find_from(false, s, seq!['[', '['], 0) {
        None => s,
        Some(st) => match find_from(false, s, seq![']', ']'], st) {
            None => s.subrange(0, st),
            Some(e) => clean_links_spec(
                s.subrange(0, st) + link_body(s, st, e) + s.subrange(e + 2, s.len() as int),
            ),
        },
    }
}

proof fn lemma_link_body_len(s: Seq<char>, st: int, e: int)
    requires
        0 <= st,
        st + 2 <= e,
        e + 2 <= s.len(),
    ensures
        link_body(s, st, e).len() <= e - st - 2,
{
    let content = s.subrange(st + 2, e);
    crate::text::lemma_scan_until(content, 0, seq!['|']);
    let p = scan_until(content, 0, seq!['|']);
    let c1 = if p < content.len() {
        content.subrange(0, p)
    } else {
        content
    };
    lemma_scan_run_bounds(c1, 0, ':');
    let c2 = c1.skip(scan_run(c1, 0, ':'));
    lemma_last_idx(c2, ':');
}

proof fn lemma_scan_run_bounds(t: Seq<char>, i: int, c: char)
    requires
        0 <= i <= t.len(),
    ensures
        i <= scan_run(t, i, c) <= t.len(),
    decreases t.len() - i,
{
    if i < t.len() && t[i] == c {
        lemma_scan_run_bounds(t, i + 1, c);
    }
}

#[via_fn]
proof fn clean_links_dec(s: Seq<char>) {
    match find_from(false, s, seq!['[', '['], 0) {
        None => {},
        Some(st) => {
            lemma_find_from(false, s, seq!['[', '['], 0);
            match find_from(false, s, seq![']', ']'], st) {
                None => {},
                Some(e) => {
                    lemma_find_from(false, s, seq![']', ']'], st);
                    assert(s[st] == '[' && s[st + 1] == '[');
                    assert(s[e] == ']' && s[e + 1] == ']');
                    assert(e != st && e != st + 1);
                    lemma_link_body_len(s, st, e);
                },
            }
        },
    }
}

/// Remove every `{{ ... }}` region: the first `{{` is deleted together with
/// everything up to its closing `}}`; an unclosed `{{` drops the rest.
pub open spec fn clean_braces_spec(s: Seq<char>) -> Seq<char>
    decreases s.len(),
        via clean_braces_dec
{
    match find_from(false, s, seq!['{', '{'], 0) {
        None => s,
        Some(st) => match find_from(false, s, seq!['}', '}'], st) {
            None => s.subrange(0, st),
            Some(e) => clean_braces_spec(s.subrange(0, st) + s.subrange(e + 2, s.len() as int)),
        },
    }
}

#[via_fn]
proof fn clean_braces_dec(s: Seq<char>) {
    match find_from(false, s, seq!['{', '{'], 0) {
        None => {},
        Some(st) => {
            lemma_find_from(false, s, seq!['{', '{'], 0);
            match find_from(false, s, seq!['}', '}'], st) {
                None => {},
                Some(e) => {
                    lemma_find_from(false, s, seq!['}', '}'], st);
                    assert(s[st] == '{' && s[st + 1] == '{');
                    assert(s[e] == '}' && s[e + 1] == '}');
                    assert(e != st && e != st + 1);
                },
            }
        },
    }
}

/// What `clean_lemma` computes: cut at the first `#`, resolve wikilinks,
/// drop stray `]]`, remove template regions, drop stray `}}` and `//`, and
/// trim.
pub open spec fn clean_lemma_spec(raw: Seq<char>) -> Seq<char> {
    let h = scan_until(raw, 0, seq!['#']);
    let s1 = if h < raw.len() {
        raw.subrange(0, h)
    } else {
        raw
    };
    let s2 = clean_links_spec(s1);
    let s3 = replace_spec(s2, seq![']', ']'], Seq::empty(), 0);
    let s4 = clean_braces_spec(s3);
    let s5 = replace_spec(s4, seq!['}', '}'], Seq::empty(), 0);
    let s6 = replace_spec(s5, seq!['/', '/'], Seq::empty(), 0);
    trim_spec(s6)
}

/// Clean wiki markup from an extracted lemma: section anchors, wikilinks
/// and templates are removed and the remainder trimmed.
pub fn clean_lemma(raw: &str) -> (r: String)
    ensures
        r@ == clean_lemma_spec(raw@),
{
    let t = chars_of(raw);
    let h = {
        let stops = {
            let mut v: Vec<char> = Vec::new();
            v.push('#');
            assert(v@ =~= seq!['#']);
            v
        };
        scan_until_exec(t.as_slice(), 0, stops.as_slice())
    };
    let s1 = if h < t.len() {
        slice_to_vec(t.as_slice(), 0, h)
    } else {
        let c = slice_to_vec(t.as_slice(), 0, t.len());
        assert(c@ =~= t@);
        c
    };
    proof {
        reveal_strlit("]]");
        reveal_strlit("}}");
        reveal_strlit("//");
        reveal_strlit("");
        assert(""@ =~= Seq::<char>::empty());
        assert("]]"@ =~= seq![']', ']']);
        assert("}}"@ =~= seq!['}', '}']);
        assert("//"@ =~= seq!['/', '/']);
    }
    let s2 = clean_links_exec(s1);
    let s3 = replace_lit(s2.as_slice(), "]]", "");
    let s4 = clean_braces_exec(s3);
    let s5 = replace_lit(s4.as_slice(), "}}", "");
    let s6 = replace_lit(s5.as_slice(), "//", "");
    let s7 = trim_chars(s6.as_slice());
    string_from_chars(s7.as_slice())
}

fn clean_links_exec(s: Vec<char>) -> (r: Vec<char>)
    ensures
        r@ == clean_links_spec(s@),
{
    let mut v = s;
    loop
        invariant
            clean_links_spec(v@) == clean_links_spec(s@),
        decreases v@.len(),
    {
        let ob = find_from_exec(false, v.as_slice(), chars_of("[[").as_slice(), 0);
        proof {
            reveal_strlit("[[");
            assert("[["@ =~= seq!['[', '[']);
        }
        match ob {
            None => {
                return v;
            },
            Some(st) => {
                let cl = find_from_exec(false, v.as_slice(), chars_of("]]").as_slice(), st);
                proof {
                    reveal_strlit("]]");
                    assert("]]"@ =~= seq![']', ']']);
                }
                match cl {
                    None => {
                        let r = slice_to_vec(v.as_slice(), 0, st);
                        return r;
                    },
                    Some(e) => {
                        proof {
                            lemma_find_from(false, v@, seq!['[', '['], 0);
                            lemma_find_from(false, v@, seq![']', ']'], st as int);
                            assert(v@[st as int] == '[' && v@[st as int + 1] == '[');
                            assert(v@[e as int] == ']' && v@[e as int + 1] == ']');
                        }
                        let body = link_body_exec(v.as_slice(), st, e);
                        let mut nv = slice_to_vec(v.as_slice(), 0, st);
                        let mut b = body;
                        nv.append(&mut b);
                        let mut rest = slice_to_vec(v.as_slice(), e + 2, v.len());
                        nv.append(&mut rest);
                        proof {
                            assert(nv@ =~= v@.subrange(0, st as int) + link_body(
                                v@,
                                st as int,
                                e as int,
                            ) + v@.subrange(e as int + 2, v@.len() as int));
                            lemma_link_body_len(v@, st as int, e as int);
                        }
                        v = nv;
                    },
                }
            },
        }
    }
}

fn link_body_exec(t: &[char], st: usize, e: usize) -> (r: Vec<char>)
    requires
        st + 2 <= e,
        e + 2 <= t.len(),
    ensures
        r@ == link_body(t@, st as int, e as int),
{
    let content = slice_to_vec(t, st + 2, e);
    let p = {
        let stops = {
            let mut v: Vec<char> = Vec::new();
            v.push('|');
            assert(v@ =~= seq!['|']);
            v
        };
        scan_until_exec(content.as_slice(), 0, stops.as_slice())
    };
    let c1 = if p < content.len() {
        slice_to_vec(content.as_slice(), 0, p)
    } else {
        let c = slice_to_vec(content.as_slice(), 0, content.len());
        assert(c@ =~= content@);
        c
    };
    let k = scan_run_exec(c1.as_slice(), 0, ':');
    let c2 = slice_to_vec(c1.as_slice(), k, c1.len());
    proof {
        assert(c2@ =~= c1@.skip(scan_run(c1@, 0, ':')));
    }
    match last_idx_exec(c2.as_slice()) {
        Some(li) => {
            let r = slice_to_vec(c2.as_slice(), li + 1, c2.len());
            r
        },
        None => {
            let r = slice_to_vec(c2.as_slice(), 0, c2.len());
            assert(r@ =~= c2@);
            r
        },
    }
}

fn clean_braces_exec(s: Vec<char>) -> (r: Vec<char>)
    ensures
        r@ == clean_braces_spec(s@),
{
    let mut v = s;
    loop
        invariant
            clean_braces_spec(v@) == clean_braces_spec(s@),
        decreases v@.len(),
    {
        let ob = find_from_exec(false, v.as_slice(), chars_of("{{").as_slice(), 0);
        proof {
            reveal_strlit("{{");
            assert("{{"@ =~= seq!['{', '{']);
        }
        match ob {
            None => {
                return v;
            },
            Some(st) => {
                let cl = find_from_exec(false, v.as_slice(), chars_of("}}").as_slice(), st);
                proof {
                    reveal_strlit("}}");
                    assert("}}"@ =~= seq!['}', '}']);
                }
                match cl {
                    None => {
                        let r = slice_to_vec(v.as_slice(), 0, st);
                        return r;
                    },
                    Some(e) => {
                        proof {
                            lemma_find_from(false, v@, seq!['{', '{'], 0);
                            lemma_find_from(false, v@, seq!['}', '}'], st as int);
                            assert(v@[st as int] == '{' && v@[st as int + 1] == '{');
                            assert(v@[e as int] == '}' && v@[e as int + 1] == '}');
                        }
                        let mut nv = slice_to_vec(v.as_slice(), 0, st);
                        let mut rest = slice_to_vec(v.as_slice(), e + 2, v.len());
                        nv.append(&mut rest);
                        proof {
                            assert(nv@ =~= v@.subrange(0, st as int) + v@.subrange(
                                e as int + 2,
                                v@.len() as int,
                            ));
                        }
                        v = nv;
                    },
                }
            },
        }
    }
}

} // verus!
