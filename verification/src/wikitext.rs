//! Recursive-descent parser for template-parameter text.
//!
//! A parameter string such as `en|[[isle|Isle]]|of|[[Man#Etymology 2|Man]]`
//! cannot be split naively on `|`, because pipes also occur inside `[[link]]`
//! and `{{template}}` constructs.  The grammar:
//!
//! ```text
//! params    := param ("|" param)*
//! param     := element*                      (stops at "|" or end)
//! element   := wikilink | template | char
//! wikilink  := "[[" target ("#" anchor)? ("|" display)? "]]"
//! template  := "{{" params "}}"              (yields no text)
//! ```
//!
//! A wikilink contributes its display text when present, otherwise its
//! target; a nested template contributes nothing.  Malformed input degrades
//! gracefully: an unterminated link keeps its partial target, an unterminated
//! template consumes the rest of the input.  Every function here is specified
//! by a mirror specification over `Seq<char>`, so the parse result is a pure
//! function of the input characters.

use vstd::prelude::*;

use crate::text::{
    chars_of, match_at, scan_until, scan_until_exec, slice_to_vec, string_from_chars,
};
use crate::unicode::{trim_chars, trim_spec};

verus! {

/// Specification-level wikilink: `[[target#anchor|display]]`.
pub struct LinkV {
    pub target: Seq<char>,
    pub anchor: Option<Seq<char>>,
    pub display: Option<Seq<char>>,
}

/// The text a wikilink contributes: display if present, otherwise target.
pub open spec fn link_text(w: LinkV) -> Seq<char> {
    match w.display {
        Some(d) => d,
        None => w.target,
    }
}

pub proof fn lemma_match2(t: Seq<char>, a: char, b: char, i: int)
    ensures
        match_at(false, t, seq![a, b], i) == (0 <= i && i + 2 <= t.len() && t[i] == a && t[i + 1]
            == b),
{
    let p = seq![a, b];
    assert(p.len() == 2);
    assert(p[0] == a);
    assert(p[1] == b);
    if 0 <= i && i + 2 <= t.len() && t[i] == a && t[i + 1] == b {
        assert forall|k: int| 0 <= k < p.len() implies crate::text::chr_eq(
            false,
            t[i + k],
            p[k],
        ) by {
            if k == 0 {
            } else {
                assert(k == 1);
            }
        }
        assert(match_at(false, t, p, i));
    }
    if match_at(false, t, p, i) {
        assert(crate::text::chr_eq(false, t[i + 0], p[0]));
        assert(crate::text::chr_eq(false, t[i + 1], p[1]));
    }
}

/// Two given characters occur at position `i`.
pub fn is2(t: &[char], i: usize, a: char, b: char) -> (r: bool)
    requires
        i <= t.len(),
    ensures
        r == match_at(false, t@, seq![a, b], i as int),
{
    proof {
        lemma_match2(t@, a, b, i as int);
    }
    t.len() - i >= 2 && t[i] == a && t[i + 1] == b
}

pub open spec fn target_stops() -> Seq<char> {
    seq!['#', '|', ']']
}

pub open spec fn anchor_stops() -> Seq<char> {
    seq!['|', ']']
}

pub open spec fn display_stops() -> Seq<char> {
    seq![']']
}

fn target_stops_vec() -> (r: Vec<char>)
    ensures
        r@ == target_stops(),
{
    let mut v: Vec<char> = Vec::new();
    v.push('#');
    v.push('|');
    v.push(']');
    assert(v@ =~= target_stops());
    v
}

fn anchor_stops_vec() -> (r: Vec<char>)
    ensures
        r@ == anchor_stops(),
{
    let mut v: Vec<char> = Vec::new();
    v.push('|');
    v.push(']');
    assert(v@ =~= anchor_stops());
    v
}

fn display_stops_vec() -> (r: Vec<char>)
    ensures
        r@ == display_stops(),
{
    let mut v: Vec<char> = Vec::new();
    v.push(']');
    assert(v@ =~= display_stops());
    v
}

/// Mirror of wikilink parsing at position `i`: consume `[[`, scan the
/// target up to `#`, `|` or `]`, an optional anchor after `#`, an optional
/// display after `|`, and a closing `]]` when present.
pub open spec fn link_spec(t: Seq<char>, i: int) -> (LinkV, int) {
    let j0 = if i + 2 <= t.len() {
        i + 2
    } else {
        t.len() as int
    };
    let te = scan_until(t, j0, target_stops());
    let target = t.subrange(j0, te);
    let a_step: (Option<Seq<char>>, int) = if te < t.len() && t[te] == '#' {
        let ae = scan_until(t, te + 1, anchor_stops());
        (Some(t.subrange(te + 1, ae)), ae)
    } else {
        (None, te)
    };
    let d_step: (Option<Seq<char>>, int) = if a_step.1 < t.len() && t[a_step.1] == '|' {
        let de = scan_until(t, a_step.1 + 1, display_stops());
        (Some(t.subrange(a_step.1 + 1, de)), de)
    } else {
        (None, a_step.1)
    };
    let e = if match_at(false, t, seq![']', ']'], d_step.1) {
        d_step.1 + 2
    } else {
        d_step.1
    };
    (LinkV { target, anchor: a_step.0, display: d_step.0 }, e)
}

/// Parsed wikilink: `[[target#anchor|display]]`.
pub struct Wikilink {
    pub target: String,
    pub anchor: Option<String>,
    pub display: Option<String>,
}

impl Wikilink {
    pub open spec fn v(&self) -> LinkV {
        LinkV {
            target: self.target@,
            anchor: match self.anchor {
                Some(s) => Some(s@),
                None => None,
            },
            display: match self.display {
                Some(s) => Some(s@),
                None => None,
            },
        }
    }

    /// Display text if present, otherwise the link target.
    pub fn text(&self) -> (r: String)
        ensures
            r@ == link_text(self.v()),
    {
        match &self.display {
            Some(d) => {
                let r = string_from_chars(chars_of(d.as_str()).as_slice());
                r
            },
            None => string_from_chars(chars_of(self.target.as_str()).as_slice()),
        }
    }
}

/// Parse a wikilink whose opening `[[` sits at `i`.
pub fn parse_wikilink_at(t: &[char], i: usize) -> (r: (Wikilink, usize))
    requires
        i <= t.len(),
    ensures
        r.0.v() == link_spec(t@, i as int).0,
        r.1 as int == link_spec(t@, i as int).1,
        i <= r.1 <= t.len(),
        i + 2 <= t.len() ==> r.1 >= i + 2,
{
    let j0 = if t.len() - i >= 2 {
        i + 2
    } else {
        t.len()
    };
    let tstops = target_stops_vec();
    let te = scan_until_exec(t, j0, tstops.as_slice());
    let target = string_from_chars(slice_to_vec(t, j0, te).as_slice());
    let mut anchor: Option<String> = None;
    let mut j1 = te;
    if te < t.len() && t[te] == '#' {
        let astops = anchor_stops_vec();
        let ae = scan_until_exec(t, te + 1, astops.as_slice());
        anchor = Some(string_from_chars(slice_to_vec(t, te + 1, ae).as_slice()));
        j1 = ae;
    }
    let mut display: Option<String> = None;
    let mut j2 = j1;
    if j1 < t.len() && t[j1] == '|' {
        let dstops = display_stops_vec();
        let de = scan_until_exec(t, j1 + 1, dstops.as_slice());
        display = Some(string_from_chars(slice_to_vec(t, j1 + 1, de).as_slice()));
        j2 = de;
    }
    let e = if is2(t, j2, ']', ']') {
        j2 + 2
    } else {
        j2
    };
    (Wikilink { target, anchor, display }, e)
}

/// Raw (untrimmed) text of one template parameter starting at `i`, and the
/// position of the `|` or end that stops it.  Wikilinks contribute their
/// text; nested templates are consumed and contribute nothing.
pub open spec fn param_raw_spec(t: Seq<char>, i: int) -> (Seq<char>, int)
    decreases t.len() - i, 2int,
{
    if i < 0 || i >= t.len() || t[i] == '|' {
        (Seq::empty(), i)
    } else if match_at(false, t, seq!['[', '['], i) {
        let step = link_spec(t, i);
        let j2 = if i < step.1 <= t.len() {
            step.1
        } else {
            i + 1
        };
        let rest = param_raw_spec(t, j2);
        (link_text(step.0) + rest.0, rest.1)
    } else if match_at(false, t, seq!['{', '{'], i) {
        let j = template_spec(t, i).1;
        let j2 = if i < j <= t.len() {
            j
        } else {
            i + 1
        };
        param_raw_spec(t, j2)
    } else {
        let rest = param_raw_spec(t, i + 1);
        (seq![t[i]] + rest.0, rest.1)
    }
}

/// One top-level parameter: the raw text, trimmed.
pub open spec fn param_spec(t: Seq<char>, i: int) -> (Seq<char>, int)
    decreases t.len() - i, 3int,
{
    let raw = param_raw_spec(t, i);
    (trim_spec(raw.0), raw.1)
}

/// The `|`-separated parameter list starting at `i`, and its end position.
pub open spec fn params_spec(t: Seq<char>, i: int) -> (Seq<Seq<char>>, int)
    decreases t.len() - i, 4int,
{
    if i < 0 || i >= t.len() {
        (Seq::empty(), i)
    } else {
        let step = param_spec(t, i);
        let j2 = if i <= step.1 <= t.len() {
            step.1
        } else {
            i
        };
        if j2 < t.len() && t[j2] == '|' {
            let rest = params_spec(t, j2 + 1);
            (seq![step.0] + rest.0, rest.1)
        } else {
            (seq![step.0], j2)
        }
    }
}

/// Raw text of one parameter inside a template: stops additionally at `}}`.
pub open spec fn tparam_raw_spec(t: Seq<char>, i: int) -> (Seq<char>, int)
    decreases t.len() - i, 2int,
{
    if i < 0 || i >= t.len() || t[i] == '|' || match_at(false, t, seq!['}', '}'], i) {
        (Seq::empty(), i)
    } else if match_at(false, t, seq!['[', '['], i) {
        let step = link_spec(t, i);
        let j2 = if i < step.1 <= t.len() {
            step.1
        } else {
            i + 1
        };
        let rest = tparam_raw_spec(t, j2);
        (link_text(step.0) + rest.0, rest.1)
    } else if match_at(false, t, seq!['{', '{'], i) {
        let j = template_spec(t, i).1;
        let j2 = if i < j <= t.len() {
            j
        } else {
            i + 1
        };
        tparam_raw_spec(t, j2)
    } else {
        let rest = tparam_raw_spec(t, i + 1);
        (seq![t[i]] + rest.0, rest.1)
    }
}

pub open spec fn tparam_spec(t: Seq<char>, i: int) -> (Seq<char>, int)
    decreases t.len() - i, 3int,
{
    let raw = tparam_raw_spec(t, i);
    (trim_spec(raw.0), raw.1)
}

/// The parameter list inside a template body: stops at `}}` or end.
pub open spec fn tparams_spec(t: Seq<char>, i: int) -> (Seq<Seq<char>>, int)
    decreases t.len() - i, 4int,
{
    if i < 0 || i >= t.len() || match_at(false, t, seq!['}', '}'], i) {
        (Seq::empty(), i)
    } else {
        let step = tparam_spec(t, i);
        let j2 = if i <= step.1 <= t.len() {
            step.1
        } else {
            i
        };
        if j2 < t.len() && t[j2] == '|' {
            let rest = tparams_spec(t, j2 + 1);
            (seq![step.0] + rest.0, rest.1)
        } else {
            (seq![step.0], j2)
        }
    }
}

/// Mirror of template parsing at `i`: consume `{{`, the inner parameter
/// list, and a closing `}}` when present.  Yields the raw parameter list
/// (name first) and the end position.
pub open spec fn template_spec(t: Seq<char>, i: int) -> (Seq<Seq<char>>, int)
    decreases t.len() - i, 1int,
{
    if i < 0 || i >= t.len() {
        (Seq::empty(), i)
    } else {
        let j0 = if i + 2 <= t.len() {
            i + 2
        } else {
            t.len() as int
        };
        let step = tparams_spec(t, j0);
        let e = if match_at(false, t, seq!['}', '}'], step.1) {
            step.1 + 2
        } else {
            step.1
        };
        (step.0, e)
    }
}

pub open spec fn template_name(ps: Seq<Seq<char>>) -> Seq<char> {
    if ps.len() > 0 {
        ps[0]
    } else {
        Seq::empty()
    }
}

pub open spec fn template_args(ps: Seq<Seq<char>>) -> Seq<Seq<char>> {
    if ps.len() > 0 {
        ps.drop_first()
    } else {
        ps
    }
}

/// Parsed template: `{{name|param1|param2|...}}`.  Nested templates inside
/// the parameters have already been consumed and discarded.
pub struct ParsedTemplate {
    pub name: String,
    pub params: Vec<String>,
}

/// Parse a template whose opening `{{` sits at `i`.
pub fn parse_template_at(t: &[char], i: usize) -> (r: (ParsedTemplate, usize))
    requires
        i <= t.len(),
    ensures
        r.0.name@ == template_name(template_spec(t@, i as int).0),
        r.0.params.deep_view() == template_args(template_spec(t@, i as int).0),
        r.1 as int == template_spec(t@, i as int).1,
        i <= r.1 <= t.len(),
        i + 2 <= t.len() ==> r.1 >= i + 2,
    decreases t.len() - i, 1int,
{
    if i >= t.len() {
        let r = (ParsedTemplate { name: String::new(), params: Vec::new() }, i);
        assert(r.0.params.deep_view() =~= template_args(template_spec(t@, i as int).0));
        return r;
    }
    let j0 = if t.len() - i >= 2 {
        i + 2
    } else {
        t.len()
    };
    let (mut ps, j) = parse_template_params_at(t, j0);
    let e = if is2(t, j, '}', '}') {
        j + 2
    } else {
        j
    };
    if ps.len() > 0 {
        let name = ps.remove(0);
        proof {
            let ghost full = template_spec(t@, i as int).0;
            assert(ps.deep_view() =~= template_args(full));
        }
        (ParsedTemplate { name, params: ps }, e)
    } else {
        let r = (ParsedTemplate { name: String::new(), params: Vec::new() }, e);
        assert(r.0.params.deep_view() =~= template_args(template_spec(t@, i as int).0));
        (r.0, r.1)
    }
}

/// Parse the parameter list inside a template body, starting at `i`.
pub fn parse_template_params_at(t: &[char], i: usize) -> (r: (Vec<String>, usize))
    requires
        i <= t.len(),
    ensures
        r.0.deep_view() == tparams_spec(t@, i as int).0,
        r.1 as int == tparams_spec(t@, i as int).1,
        i <= r.1 <= t.len(),
    decreases t.len() - i, 4int,
{
    let mut acc: Vec<String> = Vec::new();
    let mut cur: usize = i;
    loop
        invariant
            i <= cur <= t.len(),
            tparams_spec(t@, i as int).0 == acc.deep_view() + tparams_spec(t@, cur as int).0,
            tparams_spec(t@, i as int).1 == tparams_spec(t@, cur as int).1,
        decreases t.len() - cur,
    {
        let stop = if cur >= t.len() {
            true
        } else {
            is2(t, cur, '}', '}')
        };
        if stop {
            assert(acc.deep_view() + tparams_spec(t@, cur as int).0 =~= acc.deep_view());
            return (acc, cur);
        }
        let (p, j) = parse_template_param_at(t, cur);
        let ghost prev = acc.deep_view();
        acc.push(p);
        proof {
            assert(acc.deep_view() =~= prev.push(p@));
        }
        if j < t.len() && t[j] == '|' {
            proof {
                let st = tparam_spec(t@, cur as int);
                assert(tparams_spec(t@, cur as int).0 == seq![st.0] + tparams_spec(
                    t@,
                    j + 1,
                ).0);
                assert(prev + tparams_spec(t@, cur as int).0 =~= acc.deep_view() + tparams_spec(
                    t@,
                    j + 1,
                ).0);
            }
            cur = j + 1;
        } else {
            proof {
                let st = tparam_spec(t@, cur as int);
                assert(tparams_spec(t@, cur as int).0 == seq![st.0]);
                assert(prev + tparams_spec(t@, cur as int).0 =~= acc.deep_view());
            }
            return (acc, j);
        }
    }
}

/// Parse one parameter inside a template body, starting at `i`; the result
/// is trimmed.
pub fn parse_template_param_at(t: &[char], i: usize) -> (r: (String, usize))
    requires
        i <= t.len(),
    ensures
        r.0@ == tparam_spec(t@, i as int).0,
        r.1 as int == tparam_spec(t@, i as int).1,
        i <= r.1 <= t.len(),
    decreases t.len() - i, 3int,
{
    let (raw, j) = parse_tparam_raw(t, i);
    let trimmed = trim_chars(raw.as_slice());
    (string_from_chars(trimmed.as_slice()), j)
}

fn parse_tparam_raw(t: &[char], i: usize) -> (r: (Vec<char>, usize))
    requires
        i <= t.len(),
    ensures
        r.0@ == tparam_raw_spec(t@, i as int).0,
        r.1 as int == tparam_raw_spec(t@, i as int).1,
        i <= r.1 <= t.len(),
    decreases t.len() - i, 2int,
{
    let mut acc: Vec<char> = Vec::new();
    let mut cur: usize = i;
    loop
        invariant
            i <= cur <= t.len(),
            tparam_raw_spec(t@, i as int).0 == acc@ + tparam_raw_spec(t@, cur as int).0,
            tparam_raw_spec(t@, i as int).1 == tparam_raw_spec(t@, cur as int).1,
        decreases t.len() - cur,
    {
        if cur >= t.len() || t[cur] == '|' || is2(t, cur, '}', '}') {
            assert(acc@ + tparam_raw_spec(t@, cur as int).0 =~= acc@);
            return (acc, cur);
        }
        if is2(t, cur, '[', '[') {
            let (w, j) = parse_wikilink_at(t, cur);
            let txt = match &w.display {
                Some(d) => chars_of(d.as_str()),
                None => chars_of(w.target.as_str()),
            };
            assert(txt@ == link_text(w.v()));
            let ghost prev = acc@;
            let mut txt = txt;
            acc.append(&mut txt);
            proof {
                let step = link_spec(t@, cur as int);
                assert(tparam_raw_spec(t@, cur as int).0 == link_text(step.0) + tparam_raw_spec(
                    t@,
                    j as int,
                ).0);
                assert(prev + tparam_raw_spec(t@, cur as int).0 =~= acc@ + tparam_raw_spec(
                    t@,
                    j as int,
                ).0);
            }
            cur = j;
        } else if is2(t, cur, '{', '{') {
            let (_tmpl, j) = parse_template_at(t, cur);
            proof {
                assert(tparam_raw_spec(t@, cur as int).0 == tparam_raw_spec(t@, j as int).0);
            }
            cur = j;
        } else {
            let ghost prev = acc@;
            acc.push(t[cur]);
            proof {
                assert(tparam_raw_spec(t@, cur as int).0 == seq![t@[cur as int]]
                    + tparam_raw_spec(t@, cur + 1).0);
                assert(prev + tparam_raw_spec(t@, cur as int).0 =~= acc@ + tparam_raw_spec(
                    t@,
                    cur + 1,
                ).0);
            }
            cur = cur + 1;
        }
    }
}

/// Parse one top-level parameter starting at `i`; the result is trimmed.
pub fn parse_param_at(t: &[char], i: usize) -> (r: (String, usize))
    requires
        i <= t.len(),
    ensures
        r.0@ == param_spec(t@, i as int).0,
        r.1 as int == param_spec(t@, i as int).1,
        i <= r.1 <= t.len(),
    decreases t.len() - i, 3int,
{
    let (raw, j) = parse_param_raw(t, i);
    let trimmed = trim_chars(raw.as_slice());
    (string_from_chars(trimmed.as_slice()), j)
}

fn parse_param_raw(t: &[char], i: usize) -> (r: (Vec<char>, usize))
    requires
        i <= t.len(),
    ensures
        r.0@ == param_raw_spec(t@, i as int).0,
        r.1 as int == param_raw_spec(t@, i as int).1,
        i <= r.1 <= t.len(),
    decreases t.len() - i, 2int,
{
    let mut acc: Vec<char> = Vec::new();
    let mut cur: usize = i;
    loop
        invariant
            i <= cur <= t.len(),
            param_raw_spec(t@, i as int).0 == acc@ + param_raw_spec(t@, cur as int).0,
            param_raw_spec(t@, i as int).1 == param_raw_spec(t@, cur as int).1,
        decreases t.len() - cur,
    {
        if cur >= t.len() || t[cur] == '|' {
            assert(acc@ + param_raw_spec(t@, cur as int).0 =~= acc@);
            return (acc, cur);
        }
        if is2(t, cur, '[', '[') {
            let (w, j) = parse_wikilink_at(t, cur);
            let txt = match &w.display {
                Some(d) => chars_of(d.as_str()),
                None => chars_of(w.target.as_str()),
            };
            assert(txt@ == link_text(w.v()));
            let ghost prev = acc@;
            let mut txt = txt;
            acc.append(&mut txt);
            proof {
                let step = link_spec(t@, cur as int);
                assert(param_raw_spec(t@, cur as int).0 == link_text(step.0) + param_raw_spec(
                    t@,
                    j as int,
                ).0);
                assert(prev + param_raw_spec(t@, cur as int).0 =~= acc@ + param_raw_spec(
                    t@,
                    j as int,
                ).0);
            }
            cur = j;
        } else if is2(t, cur, '{', '{') {
            let (_tmpl, j) = parse_template_at(t, cur);
            proof {
                assert(param_raw_spec(t@, cur as int).0 == param_raw_spec(t@, j as int).0);
            }
            cur = j;
        } else {
            let ghost prev = acc@;
            acc.push(t[cur]);
            proof {
                assert(param_raw_spec(t@, cur as int).0 == seq![t@[cur as int]] + param_raw_spec(
                    t@,
                    cur + 1,
                ).0);
                assert(prev + param_raw_spec(t@, cur as int).0 =~= acc@ + param_raw_spec(
                    t@,
                    cur + 1,
                ).0);
            }
            cur = cur + 1;
        }
    }
}

/// Parse the `|`-separated parameter list starting at `i`.
pub fn parse_params_at(t: &[char], i: usize) -> (r: (Vec<String>, usize))
    requires
        i <= t.len(),
    ensures
        r.0.deep_view() == params_spec(t@, i as int).0,
        r.1 as int == params_spec(t@, i as int).1,
        i <= r.1 <= t.len(),
    decreases t.len() - i, 4int,
{
    let mut acc: Vec<String> = Vec::new();
    let mut cur: usize = i;
    loop
        invariant
            i <= cur <= t.len(),
            params_spec(t@, i as int).0 == acc.deep_view() + params_spec(t@, cur as int).0,
            params_spec(t@, i as int).1 == params_spec(t@, cur as int).1,
        decreases t.len() - cur,
    {
        if cur >= t.len() {
            assert(acc.deep_view() + params_spec(t@, cur as int).0 =~= acc.deep_view());
            return (acc, cur);
        }
        let (p, j) = parse_param_at(t, cur);
        let ghost prev = acc.deep_view();
        acc.push(p);
        proof {
            assert(acc.deep_view() =~= prev.push(p@));
        }
        if j < t.len() && t[j] == '|' {
            proof {
                let st = param_spec(t@, cur as int);
                assert(params_spec(t@, cur as int).0 == seq![st.0] + params_spec(t@, j + 1).0);
                assert(prev + params_spec(t@, cur as int).0 =~= acc.deep_view() + params_spec(
                    t@,
                    j + 1,
                ).0);
            }
            cur = j + 1;
        } else {
            proof {
                let st = param_spec(t@, cur as int);
                assert(params_spec(t@, cur as int).0 == seq![st.0]);
                assert(prev + params_spec(t@, cur as int).0 =~= acc.deep_view());
            }
            return (acc, j);
        }
    }
}

/// Split a template-parameter string into clean text parameters, with
/// wikilinks reduced to their text and nested templates discarded.
pub fn parse_template_params(content: &str) -> (r: Vec<String>)
    ensures
        r.deep_view() == params_spec(content@, 0).0,
{
    let t = chars_of(content);
    let (ps, _end) = parse_params_at(t.as_slice(), 0);
    ps
}

/// Character cursor over a parameter string; positions count characters,
/// not bytes, so multi-byte text is handled correctly.
pub struct WikitextParser {
    text: Vec<char>,
    pos: usize,
}

impl WikitextParser {
    pub closed spec fn text_v(&self) -> Seq<char> {
        self.text@
    }

    pub closed spec fn pos_v(&self) -> int {
        self.pos as int
    }

    pub open spec fn wf(&self) -> bool {
        self.pos_v() <= self.text_v().len()
    }

    pub fn new(text: &str) -> (s: Self)
        ensures
            s.text_v() == text@,
            s.pos_v() == 0,
            s.wf(),
    {
        WikitextParser { text: chars_of(text), pos: 0 }
    }

    /// The next `n` characters (or as many as remain), without consuming.
    pub fn peek(&self, n: usize) -> (r: String)
        requires
            self.wf(),
        ensures
            r@ == self.text_v().subrange(
                self.pos_v(),
                if self.pos_v() + n <= self.text_v().len() {
                    self.pos_v() + n
                } else {
                    self.text_v().len() as int
                },
            ),
    {
        let end = if n > self.text.len() - self.pos {
            self.text.len()
        } else {
            self.pos + n
        };
        string_from_chars(slice_to_vec(self.text.as_slice(), self.pos, end).as_slice())
    }

    pub fn peek_char(&self) -> (r: Option<char>)
        requires
            self.wf(),
        ensures
            r == (if self.pos_v() < self.text_v().len() {
                Some(self.text_v()[self.pos_v()])
            } else {
                None::<char>
            }),
    {
        if self.pos < self.text.len() {
            Some(self.text[self.pos])
        } else {
            None
        }
    }

    /// Consume and return the next `n` characters (or as many as remain).
    pub fn consume(&mut self, n: usize) -> (r: String)
        requires
            old(self).wf(),
        ensures
            final(self).wf(),
            final(self).text_v() == old(self).text_v(),
            final(self).pos_v() == (if old(self).pos_v() + n <= old(self).text_v().len() {
                old(self).pos_v() + n
            } else {
                old(self).text_v().len() as int
            }),
            r@ == old(self).text_v().subrange(old(self).pos_v(), final(self).pos_v()),
    {
        let end = if n > self.text.len() - self.pos {
            self.text.len()
        } else {
            self.pos + n
        };
        let r = string_from_chars(slice_to_vec(self.text.as_slice(), self.pos, end).as_slice());
        self.pos = end;
        r
    }

    pub fn consume_char(&mut self) -> (r: Option<char>)
        requires
            old(self).wf(),
        ensures
            final(self).wf(),
            final(self).text_v() == old(self).text_v(),
            old(self).pos_v() < old(self).text_v().len() ==> r == Some(
                old(self).text_v()[old(self).pos_v()],
            ) && final(self).pos_v() == old(self).pos_v() + 1,
            old(self).pos_v() >= old(self).text_v().len() ==> r is None && final(self).pos_v()
                == old(self).pos_v(),
    {
        if self.pos < self.text.len() {
            let c = self.text[self.pos];
            self.pos = self.pos + 1;
            Some(c)
        } else {
            None
        }
    }

    pub fn at_end(&self) -> (r: bool)
        ensures
            r == (self.pos_v() >= self.text_v().len()),
    {
        self.pos >= self.text.len()
    }

    /// Parse the whole `|`-separated parameter list from the current
    /// position.
    pub fn parse_params(&mut self) -> (r: Vec<String>)
        requires
            old(self).wf(),
        ensures
            final(self).wf(),
            final(self).text_v() == old(self).text_v(),
            r.deep_view() == params_spec(old(self).text_v(), old(self).pos_v()).0,
            final(self).pos_v() == params_spec(old(self).text_v(), old(self).pos_v()).1,
    {
        let (ps, j) = parse_params_at(self.text.as_slice(), self.pos);
        self.pos = j;
        ps
    }

    /// Parse one parameter from the current position.
    pub fn parse_param(&mut self) -> (r: String)
        requires
            old(self).wf(),
        ensures
            final(self).wf(),
            final(self).text_v() == old(self).text_v(),
            r@ == param_spec(old(self).text_v(), old(self).pos_v()).0,
            final(self).pos_v() == param_spec(old(self).text_v(), old(self).pos_v()).1,
    {
        let (p, j) = parse_param_at(self.text.as_slice(), self.pos);
        self.pos = j;
        p
    }

    /// Parse a wikilink from the current position.
    pub fn parse_wikilink(&mut self) -> (r: Wikilink)
        requires
            old(self).wf(),
        ensures
            final(self).wf(),
            final(self).text_v() == old(self).text_v(),
            r.v() == link_spec(old(self).text_v(), old(self).pos_v()).0,
            final(self).pos_v() == link_spec(old(self).text_v(), old(self).pos_v()).1,
    {
        let (w, j) = parse_wikilink_at(self.text.as_slice(), self.pos);
        self.pos = j;
        w
    }

    /// Parse a template from the current position.
    pub fn parse_template(&mut self) -> (r: ParsedTemplate)
        requires
            old(self).wf(),
        ensures
            final(self).wf(),
            final(self).text_v() == old(self).text_v(),
            r.name@ == template_name(template_spec(old(self).text_v(), old(self).pos_v()).0),
            r.params.deep_view() == template_args(
                template_spec(old(self).text_v(), old(self).pos_v()).0,
            ),
            final(self).pos_v() == template_spec(old(self).text_v(), old(self).pos_v()).1,
    {
        let (tm, j) = parse_template_at(self.text.as_slice(), self.pos);
        self.pos = j;
        tm
    }
}

} // verus!
