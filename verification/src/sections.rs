//! Locating the target-language section of a page, its part-of-speech
//! sections with their definition lines, and the phrase-type signals.

use vstd::prelude::*;

use crate::config::{map_get, ExtractConfig};
use crate::text::{
    chars_of, eq_lit, match_at, match_at_exec, scan_blanks, scan_blanks_back,
    scan_blanks_back_exec, scan_blanks_exec, scan_run, scan_run_back, scan_run_back_exec,
    scan_run_exec, scan_until, scan_until_exec, slice_to_vec, string_from_chars,
};
use crate::unicode::{lower_chars, lower_of, squeeze_ws, squeeze_ws_spec, trim_chars, trim_spec};

verus! {

/// End of the line starting at `i`: the next line feed, or the end.
pub open spec fn line_end(t: Seq<char>, i: int) -> int {
    scan_until(t, i, seq!['\n'])
}

pub fn line_end_exec(t: &[char], i: usize) -> (r: usize)
    requires
        i <= t.len(),
    ensures
        r == line_end(t@, i as int),
        i <= r <= t.len(),
{
    let nl = {
        let mut v: Vec<char> = Vec::new();
        v.push('\n');
        assert(v@ =~= seq!['\n']);
        v
    };
    scan_until_exec(t, i, nl.as_slice())
}

/// ASCII-case-insensitive equality of two character sequences.
pub open spec fn ci_equal(a: Seq<char>, b: Seq<char>) -> bool {
    a.len() == b.len() && match_at(true, a, b, 0)
}

pub fn ci_equal_exec(a: &[char], b: &str) -> (r: bool)
    ensures
        r == ci_equal(a@, b@),
{
    let bc = chars_of(b);
    if a.len() != bc.len() {
        assert(a@.len() != b@.len());
        return false;
    }
    match_at_exec(true, a, bc.as_slice(), 0)
}

/// A target-language section header at `i`: `==`, optional blanks, the
/// language name (any case), optional blanks, `==`.  Yields the position
/// just past the closing marks.
pub open spec fn eng_hdr_at(t: Seq<char>, i: int) -> Option<int> {
    if match_at(false, t, seq!['=', '='], i) {
        let b1 = scan_blanks(t, i + 2);
        if match_at(true, t, "english"@, b1) {
            let b2 = scan_blanks(t, b1 + "english"@.len());
            if match_at(false, t, seq!['=', '='], b2) {
                Some(b2 + 2)
            } else {
                None
            }
        } else {
            None
        }
    } else {
        None
    }
}

fn eng_hdr_at_exec(t: &[char], i: usize) -> (r: Option<usize>)
    requires
        i <= t.len(),
    ensures
        match r {
            Some(e) => eng_hdr_at(t@, i as int) == Some(e as int) && i <= e <= t.len(),
            None => eng_hdr_at(t@, i as int) is None,
        },
{
    if !crate::wikitext::is2(t, i, '=', '=') {
        return None;
    }
    let b1 = scan_blanks_exec(t, i + 2);
    let eng = chars_of("english");
    proof {
        reveal_strlit("english");
    }
    if !match_at_exec(true, t, eng.as_slice(), b1) {
        return None;
    }
    assert(b1 + 7 <= t.len()) by {
        assert("english"@.len() == 7);
    }
    let b2 = scan_blanks_exec(t, b1 + 7);
    if crate::wikitext::is2(t, b2, '=', '=') {
        Some(b2 + 2)
    } else {
        None
    }
}

/// The leftmost target-language header at or after `from`.
pub open spec fn find_eng(t: Seq<char>, from: int) -> Option<int>
    decreases t.len() - from,
{
    if from < 0 || from > t.len() {
        None
    } else {
        match eng_hdr_at(t, from) {
            Some(e) => Some(e),
            None => {
                if from == t.len() {
                    None
                } else {
                    find_eng(t, from + 1)
                }
            },
        }
    }
}

fn find_eng_exec(t: &[char]) -> (r: Option<usize>)
    ensures
        match r {
            Some(e) => find_eng(t@, 0) == Some(e as int) && e <= t.len(),
            None => find_eng(t@, 0) is None,
        },
{
    let mut pos: usize = 0;
    loop
        invariant
            0 <= pos <= t.len(),
            find_eng(t@, 0) == find_eng(t@, pos as int),
        decreases t.len() - pos,
    {
        match eng_hdr_at_exec(t, pos) {
            Some(e) => {
                return Some(e);
            },
            None => {
                if pos == t.len() {
                    return None;
                }
                pos = pos + 1;
            },
        }
    }
}

/// A top-level language-section line: `==`, a nonempty name free of `=`,
/// `==`, and nothing else on the line.
pub open spec fn is_lang_line(t: Seq<char>, ls: int) -> bool {
    let le = line_end(t, ls);
    &&& le - ls >= 5
    &&& match_at(false, t, seq!['=', '='], ls)
    &&& match_at(false, t, seq!['=', '='], le - 2)
    &&& scan_until(t, ls + 2, seq!['=']) == le - 2
}

/// The name on a language-section line, trimmed.
pub open spec fn lang_of(t: Seq<char>, ls: int) -> Seq<char> {
    trim_spec(t.subrange(ls + 2, line_end(t, ls) - 2))
}

fn lang_line_exec(t: &[char], ls: usize) -> (r: Option<Vec<char>>)
    requires
        ls <= t.len(),
    ensures
        match r {
            Some(v) => is_lang_line(t@, ls as int) && v@ == lang_of(t@, ls as int),
            None => !is_lang_line(t@, ls as int),
        },
{
    let le = line_end_exec(t, ls);
    if le - ls < 5 {
        return None;
    }
    if !crate::wikitext::is2(t, ls, '=', '=') {
        return None;
    }
    if !crate::wikitext::is2(t, le - 2, '=', '=') {
        return None;
    }
    let eqs = {
        let mut v: Vec<char> = Vec::new();
        v.push('=');
        assert(v@ =~= seq!['=']);
        v
    };
    let fe = scan_until_exec(t, ls + 2, eqs.as_slice());
    if fe != le - 2 {
        return None;
    }
    let mid = slice_to_vec(t, ls + 2, le - 2);
    Some(trim_chars(mid.as_slice()))
}

/// The first line at or after `ls` that opens a section of another
/// language.
pub open spec fn sec_end(t: Seq<char>, ls: int) -> Option<int>
    decreases t.len() - ls,
{
    if ls < 0 || ls >= t.len() {
        None
    } else if is_lang_line(t, ls) && !ci_equal(lang_of(t, ls), "english"@) {
        Some(ls)
    } else {
        let le = line_end(t, ls);
        let nxt = if ls < le + 1 && le + 1 <= t.len() {
            le + 1
        } else {
            ls + 1
        };
        if nxt >= t.len() {
            None
        } else {
            sec_end(t, nxt)
        }
    }
}

fn sec_end_exec(t: &[char], ls: usize) -> (r: Option<usize>)
    requires
        ls <= t.len(),
    ensures
        match r {
            Some(e) => sec_end(t@, ls as int) == Some(e as int) && ls <= e <= t.len(),
            None => sec_end(t@, ls as int) is None,
        },
{
    let mut pos: usize = ls;
    loop
        invariant
            ls <= pos <= t.len(),
            sec_end(t@, ls as int) == sec_end(t@, pos as int),
        decreases t.len() - pos,
    {
        if pos >= t.len() {
            return None;
        }
        match lang_line_exec(t, pos) {
            Some(lang) => {
                proof {
                    reveal_strlit("english");
                }
                if !ci_equal_exec(lang.as_slice(), "english") {
                    return Some(pos);
                }
            },
            None => {},
        }
        let le = line_end_exec(t, pos);
        let nxt = if le < t.len() {
            le + 1
        } else {
            pos + 1
        };
        if nxt >= t.len() {
            proof {
                assert(sec_end(t@, pos as int) is None);
            }
            return None;
        }
        pos = nxt;
    }
}

/// The target-language section of a page's text: from just after the first
/// language header to the next other-language header, or to the end.
pub open spec fn english_section_spec(t: Seq<char>) -> Option<Seq<char>> {
    match find_eng(t, 0) {
        None => None,
        Some(es) => match sec_end(t, es) {
            Some(be) => Some(t.subrange(es, be)),
            None => Some(t.subrange(es, t.len() as int)),
        },
    }
}

/// Isolate the target-language section of a page's text.
pub fn extract_english_section(text: &str) -> (r: Option<String>)
    ensures
        match r {
            Some(s) => english_section_spec(text@) == Some(s@),
            None => english_section_spec(text@) is None,
        },
{
    let tv = chars_of(text);
    let t = tv.as_slice();
    match find_eng_exec(t) {
        None => None,
        Some(es) => {
            let be = match sec_end_exec(t, es) {
                Some(be) => be,
                None => t.len(),
            };
            proof {
                if sec_end(t@, es as int) is None {
                    assert(t@.subrange(es as int, t@.len() as int) == t@.subrange(
                        es as int,
                        t.len() as int,
                    ));
                }
            }
            Some(string_from_chars(slice_to_vec(t, es, be).as_slice()))
        },
    }
}

/// The normalized lookup key of a part-of-speech header line: three or more
/// `=`, the header text, three or more `=` again; the text lowercased with
/// its whitespace collapsed.
pub open spec fn pos_hdr_key(t: Seq<char>, ls: int) -> Option<Seq<char>> {
    let le = line_end(t, ls);
    let a = scan_run(t, ls, '=');
    if a - ls < 3 {
        None
    } else {
        let rb = scan_blanks_back(t, le);
        let lb = scan_run_back(t, rb, '=');
        if rb - lb < 3 || lb < a {
            None
        } else {
            let cs = scan_blanks(t, a);
            let ce = scan_blanks_back(t, lb);
            let cap = if cs <= ce {
                t.subrange(cs, ce)
            } else {
                Seq::empty()
            };
            Some(squeeze_ws_spec(lower_of(cap)))
        }
    }
}

fn pos_hdr_key_exec(t: &[char], ls: usize) -> (r: Option<Vec<char>>)
    requires
        ls <= t.len(),
    ensures
        match r {
            Some(v) => pos_hdr_key(t@, ls as int) == Some(v@),
            None => pos_hdr_key(t@, ls as int) is None,
        },
{
    let le = line_end_exec(t, ls);
    let a = scan_run_exec(t, ls, '=');
    if a - ls < 3 {
        return None;
    }
    let rb = scan_blanks_back_exec(t, le);
    let lb = scan_run_back_exec(t, rb, '=');
    if rb - lb < 3 || lb < a {
        return None;
    }
    let cs = scan_blanks_exec(t, a);
    let ce = scan_blanks_back_exec(t, lb);
    let cap = if cs <= ce {
        slice_to_vec(t, cs, ce)
    } else {
        Vec::new()
    };
    proof {
        if cs > ce {
            assert(cap@ =~= Seq::<char>::empty());
        }
    }
    let low = lower_chars(cap.as_slice());
    Some(squeeze_ws(low.as_slice()))
}

/// All part-of-speech headers in the text: line start and mapped code, in
/// order, for every header line whose key the configured map knows.
pub open spec fn pos_headers(t: Seq<char>, pm: Seq<(Seq<char>, Seq<char>)>, ls: int) -> Seq<
    (int, Seq<char>),
>
    decreases t.len() - ls,
{
    if ls < 0 || ls >= t.len() {
        Seq::empty()
    } else {
        let le = line_end(t, ls);
        let cur: Seq<(int, Seq<char>)> = match pos_hdr_key(t, ls) {
            Some(key) => match map_get(pm, key) {
                Some(code) => seq![(ls, code)],
                None => Seq::empty(),
            },
            None => Seq::empty(),
        };
        let nxt = if ls < le + 1 && le + 1 <= t.len() {
            le + 1
        } else {
            ls + 1
        };
        cur + (if nxt >= t.len() {
            Seq::empty()
        } else {
            pos_headers(t, pm, nxt)
        })
    }
}

/// View of executable header positions at specification level.
pub open spec fn headers_view(v: Seq<(usize, String)>) -> Seq<(int, Seq<char>)> {
    Seq::new(v.len(), |i: int| (v[i].0 as int, v[i].1@))
}

fn pos_headers_exec(t: &[char], cfg: &ExtractConfig) -> (r: Vec<(usize, String)>)
    ensures
        headers_view(r@) == pos_headers(t@, cfg.pos_v(), 0),
        forall|k: int| 0 <= k < r@.len() ==> (#[trigger] r@[k]).0 <= t.len(),
{
    let mut out: Vec<(usize, String)> = Vec::new();
    let ghost full = pos_headers(t@, cfg.pos_v(), 0);
    if t.len() == 0 {
        assert(headers_view(out@) =~= full);
        return out;
    }
    let mut ls: usize = 0;
    loop
        invariant
            0 <= ls < t.len(),
            full == pos_headers(t@, cfg.pos_v(), 0),
            full =~= headers_view(out@) + pos_headers(t@, cfg.pos_v(), ls as int),
            forall|k: int| 0 <= k < out@.len() ==> (#[trigger] out@[k]).0 <= ls,
        decreases t.len() - ls,
    {
        let ghost prev = out@;
        let ghost cur_spec = pos_headers(t@, cfg.pos_v(), ls as int);
        match pos_hdr_key_exec(t, ls) {
            Some(key) => {
                let ks = string_from_chars(key.as_slice());
                match crate::config::map_lookup(&cfg.pos_map, &ks) {
                    Some(code) => {
                        out.push((ls, code));
                        proof {
                            assert(headers_view(out@) =~= headers_view(prev).push(
                                (ls as int, code@),
                            ));
                        }
                    },
                    None => {},
                }
            },
            None => {},
        }
        let le = line_end_exec(t, ls);
        let nxt = if le < t.len() {
            le + 1
        } else {
            ls + 1
        };
        proof {
            let rest: Seq<(int, Seq<char>)> = if nxt >= t.len() {
                Seq::empty()
            } else {
                pos_headers(t@, cfg.pos_v(), nxt as int)
            };
            assert(full =~= headers_view(out@) + rest);
        }
        if nxt >= t.len() {
            proof {
                assert(full =~= headers_view(out@));
            }
            return out;
        }
        ls = nxt;
    }
}

/// A definition line at `ls` within a section ending at `send`: a `#`, at
/// least one blank, and nonempty content to the end of its line.
pub open spec fn def_at(t: Seq<char>, ls: int, send: int) -> Option<Seq<char>> {
    if 0 <= ls < send && send <= t.len() && t[ls] == '#' {
        let k = scan_blanks(t, ls + 1);
        if k > ls + 1 && k < send {
            let ce0 = line_end(t, k);
            let ce = if ce0 < send {
                ce0
            } else {
                send
            };
            if ce > k {
                Some(t.subrange(k, ce))
            } else {
                None
            }
        } else {
            None
        }
    } else {
        None
    }
}

fn def_at_exec(t: &[char], ls: usize, send: usize) -> (r: Option<Vec<char>>)
    requires
        ls < send <= t.len(),
    ensures
        match r {
            Some(v) => def_at(t@, ls as int, send as int) == Some(v@),
            None => def_at(t@, ls as int, send as int) is None,
        },
{
    if t[ls] != '#' {
        return None;
    }
    let k = scan_blanks_exec(t, ls + 1);
    if !(k > ls + 1 && k < send) {
        return None;
    }
    let ce0 = line_end_exec(t, k);
    let ce = if ce0 < send {
        ce0
    } else {
        send
    };
    if ce > k {
        Some(slice_to_vec(t, k, ce))
    } else {
        None
    }
}

/// The definition lines of the section `[ls, send)`, in order.
pub open spec fn defs_in(t: Seq<char>, ls: int, send: int) -> Seq<Seq<char>>
    decreases send - ls,
{
    if ls < 0 || ls >= send || send > t.len() {
        Seq::empty()
    } else {
        let cur: Seq<Seq<char>> = match def_at(t, ls, send) {
            Some(d) => seq![d],
            None => Seq::empty(),
        };
        let le = line_end(t, ls);
        let nxt = if ls < le + 1 && le + 1 <= send {
            le + 1
        } else {
            ls + 1
        };
        cur + (if nxt >= send {
            Seq::empty()
        } else {
            defs_in(t, nxt, send)
        })
    }
}

fn defs_in_exec(t: &[char], ls: usize, send: usize) -> (r: Vec<String>)
    requires
        ls <= send <= t.len(),
    ensures
        r.deep_view() == defs_in(t@, ls as int, send as int),
{
    let mut out: Vec<String> = Vec::new();
    if ls >= send {
        assert(out.deep_view() =~= defs_in(t@, ls as int, send as int));
        return out;
    }
    let ghost full = defs_in(t@, ls as int, send as int);
    let mut pos: usize = ls;
    loop
        invariant
            ls <= pos < send <= t.len(),
            full == defs_in(t@, ls as int, send as int),
            full =~= out.deep_view() + defs_in(t@, pos as int, send as int),
        decreases send - pos,
    {
        let ghost prev = out.deep_view();
        match def_at_exec(t, pos, send) {
            Some(d) => {
                out.push(string_from_chars(d.as_slice()));
                proof {
                    assert(out.deep_view() =~= prev.push(d@));
                }
            },
            None => {},
        }
        let le = line_end_exec(t, pos);
        let nxt = if le < send {
            le + 1
        } else {
            pos + 1
        };
        proof {
            let rest: Seq<Seq<char>> = if nxt >= send {
                Seq::empty()
            } else {
                defs_in(t@, nxt as int, send as int)
            };
            assert(full =~= out.deep_view() + rest);
        }
        if nxt >= send {
            proof {
                assert(full =~= out.deep_view());
            }
            return out;
        }
        pos = nxt;
    }
}

/// A part-of-speech section: the mapped code and its raw definition lines.
pub struct PosSection {
    pub pos: String,
    pub definitions: Vec<String>,
}

impl PosSection {
    pub open spec fn v(&self) -> (Seq<char>, Seq<Seq<char>>) {
        (self.pos@, self.definitions.deep_view())
    }
}

/// The sections built from the header list: each header owns the text up to
/// the next header (or the end); sections without definition lines are
/// dropped.
pub open spec fn build_sections(t: Seq<char>, hs: Seq<(int, Seq<char>)>, i: int) -> Seq<
    (Seq<char>, Seq<Seq<char>>),
>
    decreases hs.len() - i,
{
    if i < 0 || i >= hs.len() {
        Seq::empty()
    } else {
        let send = if i + 1 < hs.len() {
            hs[i + 1].0
        } else {
            t.len() as int
        };
        let ds = defs_in(t, hs[i].0, send);
        (if ds.len() > 0 {
            seq![(hs[i].1, ds)]
        } else {
            Seq::empty()
        }) + build_sections(t, hs, i + 1)
    }
}

/// What section parsing yields on the target-language text.
pub open spec fn pos_sections_spec(t: Seq<char>, pm: Seq<(Seq<char>, Seq<char>)>) -> Seq<
    (Seq<char>, Seq<Seq<char>>),
> {
    build_sections(t, pos_headers(t, pm, 0), 0)
}

/// View of executable sections at specification level.
pub open spec fn sections_view(v: Seq<PosSection>) -> Seq<(Seq<char>, Seq<Seq<char>>)> {
    Seq::new(v.len(), |i: int| v[i].v())
}

/// Parse the part-of-speech sections and their definition lines from the
/// target-language text.
pub fn parse_pos_sections(english_text: &str, cfg: &ExtractConfig) -> (r: Vec<PosSection>)
    ensures
        sections_view(r@) == pos_sections_spec(english_text@, cfg.pos_v()),
{
    let tv = chars_of(english_text);
    let t = tv.as_slice();
    let hs = pos_headers_exec(t, cfg);
    let ghost hv = pos_headers(t@, cfg.pos_v(), 0);
    let mut out: Vec<PosSection> = Vec::new();
    let mut i: usize = 0;
    while i < hs.len()
        invariant
            0 <= i <= hs.len(),
            headers_view(hs@) == hv,
            hv == pos_headers(t@, cfg.pos_v(), 0),
            forall|k: int| 0 <= k < hs@.len() ==> (#[trigger] hs@[k]).0 <= t.len(),
            build_sections(t@, hv, 0) =~= sections_view(out@) + build_sections(
                t@,
                hv,
                i as int,
            ),
        decreases hs.len() - i,
    {
        let send = if i + 1 < hs.len() {
            hs[i + 1].0
        } else {
            t.len()
        };
        proof {
            assert(headers_view(hs@)[i as int] == (hs@[i as int].0 as int, hs@[i as int].1@));
            if i + 1 < hs@.len() {
                assert(headers_view(hs@)[i + 1] == (hs@[i + 1].0 as int, hs@[i + 1].1@));
            }
        }
        let start = hs[i].0;
        let send2 = if send < start {
            start
        } else {
            send
        };
        proof {
            if (send as int) < (start as int) {
                assert(defs_in(t@, start as int, send as int) =~= Seq::<Seq<char>>::empty());
                assert(defs_in(t@, start as int, send2 as int) =~= Seq::<Seq<char>>::empty());
            }
        }
        let ds = defs_in_exec(t, start, send2);
        let ghost prev = out@;
        if ds.len() > 0 {
            out.push(PosSection { pos: hs[i].1.clone(), definitions: ds });
            proof {
                assert(sections_view(out@) =~= sections_view(prev).push(
                    (hs@[i as int].1@, defs_in(t@, start as int, send as int)),
                ));
            }
        }
        proof {
            assert(build_sections(t@, hv, 0) =~= sections_view(out@) + build_sections(
                t@,
                hv,
                i + 1,
            ));
        }
        i = i + 1;
    }
    proof {
        assert(build_sections(t@, hv, hs@.len() as int) =~= Seq::<
            (Seq<char>, Seq<Seq<char>>),
        >::empty());
        assert(sections_view(out@) =~= build_sections(t@, hv, 0));
    }
    out
}


/// The phrase types recognized from section headers.
pub open spec fn phrase_of_header(key: Seq<char>) -> Option<Seq<char>> {
    if key == "idiom"@ || key == "proverb"@ || key == "prepositional phrase"@ || key
        == "adverbial phrase"@ || key == "verb phrase"@ || key == "verb phrase form"@ || key
        == "noun phrase"@ {
        Some(key)
    } else if key == "saying"@ || key == "adage"@ {
        Some("proverb"@)
    } else {
        None
    }
}

/// The phrase types recognized from head templates.
pub open spec fn phrase_of_head(key: Seq<char>) -> Option<Seq<char>> {
    if key == "idiom"@ || key == "proverb"@ || key == "prepositional phrase"@ || key
        == "adverbial phrase"@ || key == "verb phrase"@ || key == "noun phrase"@ {
        Some(key)
    } else if key == "saying"@ || key == "adage"@ {
        Some("proverb"@)
    } else {
        None
    }
}

fn phrase_of_header_exec(key: &[char]) -> (r: Option<String>)
    ensures
        match r {
            Some(s) => phrase_of_header(key@) == Some(s@),
            None => phrase_of_header(key@) is None,
        },
{
    if eq_lit(key, "idiom") || eq_lit(key, "proverb") || eq_lit(key, "prepositional phrase")
        || eq_lit(key, "adverbial phrase") || eq_lit(key, "verb phrase") || eq_lit(
        key,
        "verb phrase form",
    ) || eq_lit(key, "noun phrase") {
        Some(string_from_chars(key))
    } else if eq_lit(key, "saying") || eq_lit(key, "adage") {
        Some(String::from_str("proverb"))
    } else {
        None
    }
}

fn phrase_of_head_exec(key: &[char]) -> (r: Option<String>)
    ensures
        match r {
            Some(s) => phrase_of_head(key@) == Some(s@),
            None => phrase_of_head(key@) is None,
        },
{
    if eq_lit(key, "idiom") || eq_lit(key, "proverb") || eq_lit(key, "prepositional phrase")
        || eq_lit(key, "adverbial phrase") || eq_lit(key, "verb phrase") || eq_lit(
        key,
        "noun phrase",
    ) {
        Some(string_from_chars(key))
    } else if eq_lit(key, "saying") || eq_lit(key, "adage") {
        Some(String::from_str("proverb"))
    } else {
        None
    }
}

/// The first header line announcing a phrase type.
pub open spec fn phrase_hdr_from(t: Seq<char>, ls: int) -> Option<Seq<char>>
    decreases t.len() - ls,
{
    if ls < 0 || ls >= t.len() {
        None
    } else {
        let cur: Option<Seq<char>> = match pos_hdr_key(t, ls) {
            Some(k) => phrase_of_header(k),
            None => None,
        };
        if cur is Some {
            cur
        } else {
            let le = line_end(t, ls);
            let nxt = if ls < le + 1 && le + 1 <= t.len() {
                le + 1
            } else {
                ls + 1
            };
            if nxt >= t.len() {
                None
            } else {
                phrase_hdr_from(t, nxt)
            }
        }
    }
}

fn phrase_hdr_from_exec(t: &[char]) -> (r: Option<String>)
    ensures
        match r {
            Some(s) => phrase_hdr_from(t@, 0) == Some(s@),
            None => phrase_hdr_from(t@, 0) is None,
        },
{
    if t.len() == 0 {
        return None;
    }
    let mut ls: usize = 0;
    loop
        invariant
            0 <= ls < t.len(),
            phrase_hdr_from(t@, 0) == phrase_hdr_from(t@, ls as int),
        decreases t.len() - ls,
    {
        match pos_hdr_key_exec(t, ls) {
            Some(key) => {
                match phrase_of_header_exec(key.as_slice()) {
                    Some(p) => {
                        return Some(p);
                    },
                    None => {},
                }
            },
            None => {},
        }
        let le = line_end_exec(t, ls);
        let nxt = if le < t.len() {
            le + 1
        } else {
            ls + 1
        };
        if nxt >= t.len() {
            return None;
        }
        ls = nxt;
    }
}

/// A head template at `i`: one of the openings, then a nonempty argument
/// free of `|` and `}`.
pub open spec fn head_at(t: Seq<char>, pre: Seq<char>, i: int) -> Option<(int, int)> {
    if match_at(true, t, pre, i) {
        let cs = i + pre.len();
        let ce = scan_until(t, cs, seq!['|', '}']);
        if ce > cs {
            Some((cs, ce))
        } else {
            None
        }
    } else {
        None
    }
}

pub open spec fn head_list_at(t: Seq<char>, pres: Seq<Seq<char>>, i: int) -> Option<(int, int)>
    decreases pres.len(),
{
    if pres.len() == 0 {
        None
    } else if head_at(t, pres[0], i) is Some {
        head_at(t, pres[0], i)
    } else {
        head_list_at(t, pres.drop_first(), i)
    }
}

pub open spec fn find_head(t: Seq<char>, pres: Seq<Seq<char>>, from: int) -> Option<(int, int)>
    decreases t.len() - from,
{
    if from < 0 || from > t.len() {
        None
    } else {
        match head_list_at(t, pres, from) {
            Some(cc) => Some(cc),
            None => {
                if from == t.len() {
                    None
                } else {
                    find_head(t, pres, from + 1)
                }
            },
        }
    }
}

proof fn lemma_head_list_skip(t: Seq<char>, pres: Seq<Seq<char>>, i: int, k: int)
    requires
        0 <= k <= pres.len(),
        forall|j: int| 0 <= j < k ==> head_at(t, pres[j], i) is None,
    ensures
        head_list_at(t, pres, i) == head_list_at(t, pres.skip(k), i),
    decreases k,
{
    if k == 0 {
        assert(pres.skip(0) =~= pres);
    } else {
        lemma_head_list_skip(t, pres, i, k - 1);
        let s = pres.skip(k - 1);
        assert(s[0] == pres[k - 1]);
        assert(s.drop_first() =~= pres.skip(k));
    }
}

fn head_at_exec(t: &[char], pre: &[char], i: usize) -> (r: Option<(usize, usize)>)
    requires
        i <= t.len(),
    ensures
        match r {
            Some((cs, ce)) => head_at(t@, pre@, i as int) == Some((cs as int, ce as int)) && i
                <= cs < ce <= t.len(),
            None => head_at(t@, pre@, i as int) is None,
        },
{
    if !match_at_exec(true, t, pre, i) {
        return None;
    }
    let cs = i + pre.len();
    let stops = {
        let mut v: Vec<char> = Vec::new();
        v.push('|');
        v.push('}');
        assert(v@ =~= seq!['|', '}']);
        v
    };
    let ce = scan_until_exec(t, cs, stops.as_slice());
    if ce > cs {
        Some((cs, ce))
    } else {
        None
    }
}

pub fn find_head_exec(t: &[char], pres: &Vec<Vec<char>>, from: usize) -> (r: Option<(usize, usize)>)
    requires
        from <= t.len(),
    ensures
        match r {
            Some((cs, ce)) => find_head(t@, pres.deep_view(), from as int) == Some(
                (cs as int, ce as int),
            ) && from <= cs < ce <= t.len(),
            None => find_head(t@, pres.deep_view(), from as int) is None,
        },
{
    let mut pos: usize = from;
    loop
        invariant
            from <= pos <= t.len(),
            find_head(t@, pres.deep_view(), from as int) == find_head(
                t@,
                pres.deep_view(),
                pos as int,
            ),
        decreases t.len() - pos,
    {
        let mut k: usize = 0;
        let mut hit: Option<(usize, usize)> = None;
        while k < pres.len() && hit.is_none()
            invariant
                0 <= k <= pres.len(),
                pos <= t.len(),
                match hit {
                    Some((cs, ce)) => head_list_at(t@, pres.deep_view(), pos as int) == Some(
                        (cs as int, ce as int),
                    ) && pos <= cs < ce <= t.len(),
                    None => forall|j: int|
                        0 <= j < k ==> head_at(t@, pres.deep_view()[j], pos as int) is None,
                },
            decreases pres.len() - k,
        {
            proof {
                assert(pres.deep_view()[k as int] == pres@[k as int]@);
            }
            match head_at_exec(t, pres[k].as_slice(), pos) {
                Some(cc) => {
                    proof {
                        lemma_head_list_skip(t@, pres.deep_view(), pos as int, k as int);
                        let s = pres.deep_view().skip(k as int);
                        assert(s[0] == pres.deep_view()[k as int]);
                    }
                    hit = Some(cc);
                },
                None => {},
            }
            k = k + 1;
        }
        match hit {
            Some(cc) => {
                return Some(cc);
            },
            None => {
                proof {
                    lemma_head_list_skip(t@, pres.deep_view(), pos as int, pres@.len() as int);
                    assert(pres.deep_view().skip(pres@.len() as int).len() == 0);
                }
                if pos == t.len() {
                    return None;
                }
                pos = pos + 1;
            },
        }
    }
}

pub open spec fn head_pres() -> Seq<Seq<char>> {
    seq!["{{head|en|"@, "{{en-head|en|"@, "{{head-lite|en|"@]
}

/// The first head template announcing a phrase type.
pub open spec fn phrase_head_from(t: Seq<char>, from: int) -> Option<Seq<char>>
    decreases t.len() - from,
{
    if from < 0 || from > t.len() {
        None
    } else {
        match find_head(t, head_pres(), from) {
            None => None,
            Some((cs, ce)) => {
                let key = trim_spec(lower_of(t.subrange(cs, ce)));
                match phrase_of_head(key) {
                    Some(p) => Some(p),
                    None => {
                        let nxt = if from < ce && ce <= t.len() {
                            ce
                        } else {
                            from + 1
                        };
                        if nxt > t.len() {
                            None
                        } else {
                            phrase_head_from(t, nxt)
                        }
                    },
                }
            },
        }
    }
}

fn phrase_head_from_exec(t: &[char], pres: &Vec<Vec<char>>) -> (r: Option<String>)
    requires
        pres.deep_view() =~= head_pres(),
    ensures
        match r {
            Some(s) => phrase_head_from(t@, 0) == Some(s@),
            None => phrase_head_from(t@, 0) is None,
        },
{
    let mut pos: usize = 0;
    loop
        invariant
            0 <= pos <= t.len(),
            pres.deep_view() =~= head_pres(),
            phrase_head_from(t@, 0) == phrase_head_from(t@, pos as int),
        decreases t.len() - pos,
    {
        match find_head_exec(t, pres, pos) {
            None => {
                return None;
            },
            Some((cs, ce)) => {
                let cap = slice_to_vec(t, cs, ce);
                let low = lower_chars(cap.as_slice());
                let key = trim_chars(low.as_slice());
                match phrase_of_head_exec(key.as_slice()) {
                    Some(p) => {
                        return Some(p);
                    },
                    None => {
                        pos = ce;
                    },
                }
            },
        }
    }
}

/// A word character for boundary purposes.
pub open spec fn word_char(c: char) -> bool {
    (65 <= c as u32 && c as u32 <= 90) || (97 <= c as u32 && c as u32 <= 122) || (48 <= c as u32
        && c as u32 <= 57) || c == '_'
}

/// A prepositional-phrase template occurrence ending at a word boundary.
pub open spec fn prep_at(t: Seq<char>, i: int) -> bool {
    match_at(true, t, "{{en-prepphr"@, i) && (i + "{{en-prepphr"@.len() == t.len() || !word_char(
        t[i + "{{en-prepphr"@.len()],
    ))
}

pub open spec fn has_prep(t: Seq<char>, from: int) -> bool
    decreases t.len() - from,
{
    if from < 0 || from > t.len() {
        false
    } else if prep_at(t, from) {
        true
    } else if from == t.len() {
        false
    } else {
        has_prep(t, from + 1)
    }
}

fn has_prep_exec(t: &[char]) -> (r: bool)
    ensures
        r == has_prep(t@, 0),
{
    let pat = chars_of("{{en-prepphr");
    proof {
        reveal_strlit("{{en-prepphr");
    }
    let mut pos: usize = 0;
    loop
        invariant
            0 <= pos <= t.len(),
            pat@ == "{{en-prepphr"@,
            "{{en-prepphr"@.len() == 12,
            has_prep(t@, 0) == has_prep(t@, pos as int),
        decreases t.len() - pos,
    {
        if match_at_exec(true, t, pat.as_slice(), pos) {
            if pos + 12 == t.len() {
                return true;
            }
            let c = t[pos + 12] as u32;
            if !((65 <= c && c <= 90) || (97 <= c && c <= 122) || (48 <= c && c <= 57)
                || t[pos + 12] == '_') {
                proof {
                    assert(!word_char(t@[pos + 12]));
                }
                return true;
            }
            proof {
                assert(word_char(t@[pos + 12]));
            }
        }
        if pos == t.len() {
            return false;
        }
        pos = pos + 1;
    }
}

/// The phrase type indicated by category links, tried in a fixed order.
pub open spec fn cat_phrase(t: Seq<char>) -> Option<Seq<char>> {
    if crate::text::contains_from(false, t, "Category:English idioms"@, 0) {
        Some("idiom"@)
    } else if crate::text::contains_from(false, t, "Category:English proverbs"@, 0) {
        Some("proverb"@)
    } else if crate::text::contains_from(false, t, "Category:English prepositional phrases"@, 0) {
        Some("prepositional phrase"@)
    } else if crate::text::contains_from(false, t, "Category:English adverbial phrases"@, 0) {
        Some("adverbial phrase"@)
    } else if crate::text::contains_from(false, t, "Category:English verb phrases"@, 0) {
        Some("verb phrase"@)
    } else if crate::text::contains_from(false, t, "Category:English noun phrases"@, 0) {
        Some("noun phrase"@)
    } else if crate::text::contains_from(false, t, "Category:English sayings"@, 0) {
        Some("proverb"@)
    } else {
        None
    }
}

fn cat_phrase_exec(t: &[char]) -> (r: Option<String>)
    ensures
        match r {
            Some(s) => cat_phrase(t@) == Some(s@),
            None => cat_phrase(t@) is None,
        },
{
    if crate::text::contains_lit(false, t, "Category:English idioms") {
        Some(String::from_str("idiom"))
    } else if crate::text::contains_lit(false, t, "Category:English proverbs") {
        Some(String::from_str("proverb"))
    } else if crate::text::contains_lit(false, t, "Category:English prepositional phrases") {
        Some(String::from_str("prepositional phrase"))
    } else if crate::text::contains_lit(false, t, "Category:English adverbial phrases") {
        Some(String::from_str("adverbial phrase"))
    } else if crate::text::contains_lit(false, t, "Category:English verb phrases") {
        Some(String::from_str("verb phrase"))
    } else if crate::text::contains_lit(false, t, "Category:English noun phrases") {
        Some(String::from_str("noun phrase"))
    } else if crate::text::contains_lit(false, t, "Category:English sayings") {
        Some(String::from_str("proverb"))
    } else {
        None
    }
}

/// The phrase type of a page: section headers first, then head templates,
/// then the prepositional-phrase template, then category links.
pub open spec fn extract_phrase_type_spec(t: Seq<char>) -> Option<Seq<char>> {
    match phrase_hdr_from(t, 0) {
        Some(p) => Some(p),
        None => match phrase_head_from(t, 0) {
            Some(p) => Some(p),
            None => {
                if has_prep(t, 0) {
                    Some("prepositional phrase"@)
                } else {
                    cat_phrase(t)
                }
            },
        },
    }
}

/// Detect the phrase type of a multi-word entry from headers, head
/// templates and categories, in fixed priority order.
pub fn extract_phrase_type(text: &str) -> (r: Option<String>)
    ensures
        match r {
            Some(s) => extract_phrase_type_spec(text@) == Some(s@),
            None => extract_phrase_type_spec(text@) is None,
        },
{
    let tv = chars_of(text);
    let t = tv.as_slice();
    match phrase_hdr_from_exec(t) {
        Some(p) => {
            return Some(p);
        },
        None => {},
    }
    let pres = {
        let mut v: Vec<Vec<char>> = Vec::new();
        v.push(chars_of("{{head|en|"));
        v.push(chars_of("{{en-head|en|"));
        v.push(chars_of("{{head-lite|en|"));
        assert(v.deep_view() =~~= head_pres());
        v
    };
    match phrase_head_from_exec(t, &pres) {
        Some(p) => {
            return Some(p);
        },
        None => {},
    }
    if has_prep_exec(t) {
        return Some(String::from_str("prepositional phrase"));
    }
    cat_phrase_exec(t)
}

} // verus!
