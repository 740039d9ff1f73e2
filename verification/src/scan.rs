//! Splitting a raw character stream into page fragments, and reading the
//! fragment fields: title, namespace marker, body text and redirect marker.

use vstd::prelude::*;

use crate::config::{has_special_prefix_spec, ExtractConfig};
use crate::text::{
    chars_of, contains_from, find_from, find_from_exec, match_at, match_at_exec,
    scan_blanks, scan_blanks_exec, scan_digits, scan_digits_exec, scan_until, scan_until_exec,
    slice_to_vec, string_from_chars,
};

verus! {

// ── field extraction ─────────────────────────────────────────────

/// A complete title element at `i`; yields the nonempty text between the
/// markers, which holds no `<`.
pub open spec fn title_at(t: Seq<char>, i: int) -> Option<(int, int)> {
    if match_at(false, t, "<title>"@, i) {
        let cs = i + "<title>"@.len();
        let ce = scan_until(t, cs, seq!['<']);
        if ce > cs && match_at(false, t, "</title>"@, ce) {
            Some((cs, ce))
        } else {
            None
        }
    } else {
        None
    }
}

pub open spec fn find_title(t: Seq<char>, from: int) -> Option<(int, int)>
    decreases t.len() - from,
{
    if from < 0 || from > t.len() {
        None
    } else {
        match title_at(t, from) {
            Some(r) => Some(r),
            None => {
                if from == t.len() {
                    None
                } else {
                    find_title(t, from + 1)
                }
            },
        }
    }
}

/// The page's title text, when a complete title element exists.
pub open spec fn title_spec(t: Seq<char>) -> Option<Seq<char>> {
    match find_title(t, 0) {
        Some((cs, ce)) => Some(t.subrange(cs, ce)),
        None => None,
    }
}

/// Extract the page title.
pub fn extract_title(page_xml: &str) -> (r: Option<String>)
    ensures
        match r {
            Some(s) => title_spec(page_xml@) == Some(s@),
            None => title_spec(page_xml@) is None,
        },
{
    let tv = chars_of(page_xml);
    let t = tv.as_slice();
    let open = chars_of("<title>");
    let close = chars_of("</title>");
    let lt = {
        let mut v: Vec<char> = Vec::new();
        v.push('<');
        assert(v@ =~= seq!['<']);
        v
    };
    proof {
        reveal_strlit("<title>");
        reveal_strlit("</title>");
    }
    let mut pos: usize = 0;
    loop
        invariant
            0 <= pos <= t.len(),
            t@ == page_xml@,
            open@ == "<title>"@,
            close@ == "</title>"@,
            "<title>"@.len() == 7,
            lt@ == seq!['<'],
            find_title(t@, 0) == find_title(t@, pos as int),
        decreases t.len() - pos,
    {
        if match_at_exec(false, t, open.as_slice(), pos) {
            let cs = pos + 7;
            let ce = scan_until_exec(t, cs, lt.as_slice());
            if ce > cs && match_at_exec(false, t, close.as_slice(), ce) {
                return Some(string_from_chars(slice_to_vec(t, cs, ce).as_slice()));
            }
        }
        if pos == t.len() {
            return None;
        }
        pos = pos + 1;
    }
}

/// A namespace element at `i`; yields the digits.
pub open spec fn ns_at(t: Seq<char>, i: int) -> Option<(int, int)> {
    if match_at(false, t, "<ns>"@, i) {
        let cs = i + "<ns>"@.len();
        let ce = scan_digits(t, cs);
        if ce > cs && match_at(false, t, "</ns>"@, ce) {
            Some((cs, ce))
        } else {
            None
        }
    } else {
        None
    }
}

pub open spec fn find_ns(t: Seq<char>, from: int) -> Option<(int, int)>
    decreases t.len() - from,
{
    if from < 0 || from > t.len() {
        None
    } else {
        match ns_at(t, from) {
            Some(r) => Some(r),
            None => {
                if from == t.len() {
                    None
                } else {
                    find_ns(t, from + 1)
                }
            },
        }
    }
}

/// The namespace digits, when a namespace element exists.
pub open spec fn ns_spec(t: Seq<char>) -> Option<Seq<char>> {
    match find_ns(t, 0) {
        Some((cs, ce)) => Some(t.subrange(cs, ce)),
        None => None,
    }
}

/// Extract the namespace marker's digits.
pub fn extract_ns(page_xml: &str) -> (r: Option<String>)
    ensures
        match r {
            Some(s) => ns_spec(page_xml@) == Some(s@),
            None => ns_spec(page_xml@) is None,
        },
{
    let tv = chars_of(page_xml);
    let t = tv.as_slice();
    let open = chars_of("<ns>");
    let close = chars_of("</ns>");
    proof {
        reveal_strlit("<ns>");
        reveal_strlit("</ns>");
    }
    let mut pos: usize = 0;
    loop
        invariant
            0 <= pos <= t.len(),
            t@ == page_xml@,
            open@ == "<ns>"@,
            close@ == "</ns>"@,
            "<ns>"@.len() == 4,
            find_ns(t@, 0) == find_ns(t@, pos as int),
        decreases t.len() - pos,
    {
        if match_at_exec(false, t, open.as_slice(), pos) {
            let cs = pos + 4;
            let ce = scan_digits_exec(t, cs);
            if ce > cs && match_at_exec(false, t, close.as_slice(), ce) {
                return Some(string_from_chars(slice_to_vec(t, cs, ce).as_slice()));
            }
        }
        if pos == t.len() {
            return None;
        }
        pos = pos + 1;
    }
}

/// A text element at `i`: `<text`, any attributes up to `>`, then the
/// shortest nonempty body closed by `</text>`.
pub open spec fn text_at(t: Seq<char>, i: int) -> Option<(int, int)> {
    if match_at(false, t, "<text"@, i) {
        let gt = scan_until(t, i + "<text"@.len(), seq!['>']);
        if gt < t.len() {
            match find_from(false, t, "</text>"@, gt + 2) {
                Some(ce) => Some((gt + 1, ce)),
                None => None,
            }
        } else {
            None
        }
    } else {
        None
    }
}

pub open spec fn find_text(t: Seq<char>, from: int) -> Option<(int, int)>
    decreases t.len() - from,
{
    if from < 0 || from > t.len() {
        None
    } else {
        match text_at(t, from) {
            Some(r) => Some(r),
            None => {
                if from == t.len() {
                    None
                } else {
                    find_text(t, from + 1)
                }
            },
        }
    }
}

/// The page's body text, when a text element exists.
pub open spec fn text_spec(t: Seq<char>) -> Option<Seq<char>> {
    match find_text(t, 0) {
        Some((cs, ce)) => Some(t.subrange(cs, ce)),
        None => None,
    }
}

/// Extract the page body text.
pub fn extract_text(page_xml: &str) -> (r: Option<String>)
    ensures
        match r {
            Some(s) => text_spec(page_xml@) == Some(s@),
            None => text_spec(page_xml@) is None,
        },
{
    let tv = chars_of(page_xml);
    let t = tv.as_slice();
    let open = chars_of("<text");
    let close = chars_of("</text>");
    let gtc = {
        let mut v: Vec<char> = Vec::new();
        v.push('>');
        assert(v@ =~= seq!['>']);
        v
    };
    proof {
        reveal_strlit("<text");
        reveal_strlit("</text>");
    }
    let mut pos: usize = 0;
    loop
        invariant
            0 <= pos <= t.len(),
            t@ == page_xml@,
            open@ == "<text"@,
            close@ == "</text>"@,
            "<text"@.len() == 5,
            "</text>"@.len() == 7,
            gtc@ == seq!['>'],
            find_text(t@, 0) == find_text(t@, pos as int),
        decreases t.len() - pos,
    {
        if match_at_exec(false, t, open.as_slice(), pos) {
            let gt = scan_until_exec(t, pos + 5, gtc.as_slice());
            if gt < t.len() {
                let frm = if t.len() - gt >= 2 {
                    gt + 2
                } else {
                    t.len()
                };
                proof {
                    if frm != gt + 2 {
                        assert(find_from(false, t@, "</text>"@, frm as int) is None);
                        assert(find_from(false, t@, "</text>"@, gt + 2) is None);
                    }
                }
                match find_from_exec(false, t, close.as_slice(), frm) {
                    Some(ce) => {
                        proof {
                            assert(frm == gt + 2);
                        }
                        return Some(
                            string_from_chars(slice_to_vec(t, gt + 1, ce).as_slice()),
                        );
                    },
                    None => {},
                }
            }
        }
        if pos == t.len() {
            return None;
        }
        pos = pos + 1;
    }
}

/// A redirect marker at `i`: `<redirect`, whitespace, `title="`, and a
/// nonempty quoted value.
pub open spec fn redirect_at(t: Seq<char>, i: int) -> bool {
    if match_at(false, t, "<redirect"@, i) {
        let b = scan_blanks(t, i + "<redirect"@.len());
        if b > i + "<redirect"@.len() && match_at(false, t, "title=\""@, b) {
            let q = scan_until(t, b + "title=\""@.len(), seq!['"']);
            q > b + "title=\""@.len() && q < t.len()
        } else {
            false
        }
    } else {
        false
    }
}

pub open spec fn has_redirect(t: Seq<char>, from: int) -> bool
    decreases t.len() - from,
{
    if from < 0 || from > t.len() {
        false
    } else if redirect_at(t, from) {
        true
    } else if from == t.len() {
        false
    } else {
        has_redirect(t, from + 1)
    }
}

/// The page carries a redirect marker.
pub fn is_redirect(page_xml: &str) -> (r: bool)
    ensures
        r == has_redirect(page_xml@, 0),
{
    let tv = chars_of(page_xml);
    let t = tv.as_slice();
    let open = chars_of("<redirect");
    let tq = chars_of("title=\"");
    let quote = {
        let mut v: Vec<char> = Vec::new();
        v.push('"');
        assert(v@ =~= seq!['"']);
        v
    };
    proof {
        reveal_strlit("<redirect");
        reveal_strlit("title=\"");
    }
    let mut pos: usize = 0;
    loop
        invariant
            0 <= pos <= t.len(),
            t@ == page_xml@,
            open@ == "<redirect"@,
            tq@ == "title=\""@,
            "<redirect"@.len() == 9,
            "title=\""@.len() == 7,
            quote@ == seq!['"'],
            has_redirect(t@, 0) == has_redirect(t@, pos as int),
        decreases t.len() - pos,
    {
        if match_at_exec(false, t, open.as_slice(), pos) {
            let b = scan_blanks_exec(t, pos + 9);
            if b > pos + 9 && match_at_exec(false, t, tq.as_slice(), b) {
                let q = scan_until_exec(t, b + 7, quote.as_slice());
                if q > b + 7 && q < t.len() {
                    return true;
                }
            }
        }
        if pos == t.len() {
            return false;
        }
        pos = pos + 1;
    }
}

// ── page splitting ───────────────────────────────────────────────

/// The complete page fragments in a buffer, and what remains to be carried
/// into the next read: text after an unmatched `<page>` is kept whole;
/// otherwise, when the leftover is longer than ten characters and holds no
/// `<page>`, only its last ten characters are kept.
pub open spec fn split_pages_spec(s: Seq<char>) -> (Seq<Seq<char>>, Seq<char>)
    decreases s.len(),
{
    match find_from(false, s, "<page>"@, 0) {
        None => (Seq::empty(), s),
        Some(st) => match find_from(false, s, "</page>"@, st) {
            None => (Seq::empty(), s.subrange(st, s.len() as int)),
            Some(e) => {
                let fin = e + "</page>"@.len();
                if st < fin <= s.len() {
                    let rest = split_pages_spec(s.subrange(fin, s.len() as int));
                    (seq![s.subrange(st, fin)] + rest.0, rest.1)
                } else {
                    (Seq::empty(), s)
                }
            },
        },
    }
}

/// The carried-over remainder after trimming.
pub open spec fn split_rest_spec(s: Seq<char>) -> Seq<char> {
    let r = split_pages_spec(s).1;
    if r.len() > 10 && !contains_from(false, r, "<page>"@, 0) {
        r.subrange(r.len() - 10, r.len() as int)
    } else {
        r
    }
}

/// Split a buffer into complete page fragments and the remainder to carry
/// into the next read.
pub fn split_pages(buffer: &str) -> (r: (Vec<String>, String))
    ensures
        r.0.deep_view() == split_pages_spec(buffer@).0,
        r.1@ == split_rest_spec(buffer@),
{
    let bv = chars_of(buffer);
    let mut cur: Vec<char> = bv;
    let mut pages: Vec<String> = Vec::new();
    let popen = chars_of("<page>");
    let pclose = chars_of("</page>");
    proof {
        reveal_strlit("<page>");
        reveal_strlit("</page>");
        assert(pages.deep_view() + split_pages_spec(cur@).0 =~= split_pages_spec(buffer@).0);
    }
    loop
        invariant
            popen@ == "<page>"@,
            pclose@ == "</page>"@,
            "<page>"@.len() == 6,
            "</page>"@.len() == 7,
            pages.deep_view() + split_pages_spec(cur@).0 =~= split_pages_spec(buffer@).0,
            split_pages_spec(cur@).1 == split_pages_spec(buffer@).1,
        decreases cur@.len(),
    {
        let st = match find_from_exec(false, cur.as_slice(), popen.as_slice(), 0) {
            Some(st) => st,
            None => {
                proof {
                    assert(split_pages_spec(cur@).0 =~= Seq::<Seq<char>>::empty());
                    assert(split_pages_spec(cur@).1 == cur@);
                    assert(pages.deep_view() =~= split_pages_spec(buffer@).0);
                }
                let keep = if cur.len() > 10 && !crate::text::contains_lit(
                    false,
                    cur.as_slice(),
                    "<page>",
                ) {
                    slice_to_vec(cur.as_slice(), cur.len() - 10, cur.len())
                } else {
                    let c = slice_to_vec(cur.as_slice(), 0, cur.len());
                    assert(c@ =~= cur@);
                    c
                };
                return (pages, string_from_chars(keep.as_slice()));
            },
        };
        let e = match find_from_exec(false, cur.as_slice(), pclose.as_slice(), st) {
            Some(e) => e,
            None => {
                let tail = slice_to_vec(cur.as_slice(), st, cur.len());
                proof {
                    crate::markup::lemma_find_from(false, cur@, "<page>"@, 0);
                    assert(match_at(false, cur@, "<page>"@, st as int));
                    assert(match_at(false, tail@, "<page>"@, 0)) by {
                        assert(forall|k: int|
                            0 <= k < "<page>"@.len() ==> tail@[k] == cur@[st + k]);
                    }
                    assert(find_from(false, tail@, "<page>"@, 0) is Some);
                    assert(contains_from(false, tail@, "<page>"@, 0));
                    assert(pages.deep_view() =~= split_pages_spec(buffer@).0);
                    assert(split_pages_spec(cur@).1 == tail@);
                    assert(split_rest_spec(buffer@) == tail@);
                }
                let rest = string_from_chars(tail.as_slice());
                return (pages, rest);
            },
        };
        let fin = e + 7;
        let page = slice_to_vec(cur.as_slice(), st, fin);
        let ghost prev = pages.deep_view();
        pages.push(string_from_chars(page.as_slice()));
        let nxt = slice_to_vec(cur.as_slice(), fin, cur.len());
        proof {
            assert(pages.deep_view() =~= prev.push(cur@.subrange(st as int, fin as int)));
            assert(split_pages_spec(cur@).0 =~= seq![cur@.subrange(st as int, fin as int)]
                + split_pages_spec(nxt@).0);
            assert(pages.deep_view() + split_pages_spec(nxt@).0 =~= split_pages_spec(
                buffer@,
            ).0);
            assert(split_pages_spec(cur@).1 == split_pages_spec(nxt@).1);
        }
        cur = nxt;
    }
}

// ── raw pages ────────────────────────────────────────────────────

/// A page fragment ready for processing: title, body text and the
/// fragment's position in the input sequence.
pub struct RawPage {
    pub title: String,
    pub text: String,
    pub page_id: usize,
}

/// The title and body of a fragment that passes the cheap filters: a
/// parseable title without a reserved prefix, a main-namespace marker (when
/// marked at all), and a parseable body.
pub open spec fn raw_page_spec(prefixes: Seq<Seq<char>>, xml: Seq<char>) -> Option<
    (Seq<char>, Seq<char>),
> {
    match title_spec(xml) {
        None => None,
        Some(title) => {
            let ns_bad = match ns_spec(xml) {
                Some(d) => d != seq!['0'],
                None => false,
            };
            if ns_bad {
                None
            } else if has_special_prefix_spec(prefixes, title) {
                None
            } else {
                match text_spec(xml) {
                    None => None,
                    Some(text) => Some((title, text)),
                }
            }
        },
    }
}

/// Turn a page fragment into a raw page: the title must parse, the
/// namespace (when marked) must be the main one, the title must not carry a
/// reserved prefix, and the body must parse.
pub fn extract_pages_from_xml(cfg: &ExtractConfig, page_xml: &str, page_id: usize) -> (r: Option<
    RawPage,
>)
    ensures
        match r {
            Some(p) => raw_page_spec(cfg.prefixes_v(), page_xml@) == Some((p.title@, p.text@))
                && p.page_id == page_id,
            None => raw_page_spec(cfg.prefixes_v(), page_xml@) is None,
        },
{
    let title = match extract_title(page_xml) {
        Some(t) => t,
        None => {
            return None;
        },
    };
    match extract_ns(page_xml) {
        Some(d) => {
            let zero = chars_of(d.as_str());
            let ok = zero.len() == 1 && zero[0] == '0';
            proof {
                if ok {
                    assert(d@ =~= seq!['0']);
                } else {
                    assert(d@ != seq!['0']);
                }
            }
            if !ok {
                return None;
            }
        },
        None => {},
    }
    if crate::config::has_special_prefix(&cfg.special_prefixes, title.as_str()) {
        return None;
    }
    let text = match extract_text(page_xml) {
        Some(t) => t,
        None => {
            return None;
        },
    };
    Some(RawPage { title, text, page_id })
}

} // verus!
