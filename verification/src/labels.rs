//! Classification of inline annotation labels into register, temporal,
//! domain and region tag sets, and the spelling-variant scan.
//!
//! Each annotation template's arguments are split on `|`, trimmed and
//! lowercased, then classified against the configured vocabularies in a
//! fixed order (register before temporal before domain before region).  The
//! resulting tag sets are deduplicated and sorted lexicographically so that
//! output is reproducible.

use vstd::prelude::*;

use crate::config::{map_get, ExtractConfig};
use crate::patterns::{find_tmpl_a, find_tmpl_a_exec};
use crate::text::{chars_of, scan_until, scan_until_exec, slice_to_vec, string_from_chars};
use crate::unicode::{lower_chars, lower_of, trim_chars, trim_spec};

verus! {

/// The `|`-separated segments of `s`, uncleaned.
pub open spec fn split_pipe(s: Seq<char>, i: int) -> Seq<Seq<char>>
    decreases s.len() - i,
{
    if i < 0 || i > s.len() {
        Seq::empty()
    } else {
        let e = scan_until(s, i, seq!['|']);
        let nxt = if i < e + 1 && e + 1 <= s.len() {
            e + 1
        } else {
            i + 1
        };
        seq![s.subrange(i, e)] + (if e < s.len() {
            split_pipe(s, nxt)
        } else {
            Seq::empty()
        })
    }
}

pub fn split_pipe_exec(s: &[char]) -> (r: Vec<Vec<char>>)
    ensures
        r.deep_view() =~~= split_pipe(s@, 0),
{
    let pipe = {
        let mut v: Vec<char> = Vec::new();
        v.push('|');
        assert(v@ =~= seq!['|']);
        v
    };
    let mut out: Vec<Vec<char>> = Vec::new();
    let mut i: usize = 0;
    loop
        invariant
            0 <= i <= s.len(),
            pipe@ == seq!['|'],
            split_pipe(s@, 0) =~~= out.deep_view() + split_pipe(s@, i as int),
        decreases s.len() - i,
    {
        let e = scan_until_exec(s, i, pipe.as_slice());
        let ghost prev = out.deep_view();
        out.push(slice_to_vec(s, i, e));
        proof {
            assert(out.deep_view() =~~= prev.push(s@.subrange(i as int, e as int)));
        }
        if e < s.len() {
            proof {
                assert(split_pipe(s@, i as int) =~~= seq![s@.subrange(i as int, e as int)]
                    + split_pipe(s@, e + 1));
                assert(prev + split_pipe(s@, i as int) =~~= out.deep_view() + split_pipe(
                    s@,
                    e + 1,
                ));
            }
            i = e + 1;
        } else {
            proof {
                assert(split_pipe(s@, i as int) =~~= seq![s@.subrange(i as int, e as int)]);
                assert(prev + split_pipe(s@, i as int) =~~= out.deep_view());
            }
            return out;
        }
    }
}

/// Each segment trimmed and lowercased.
pub open spec fn norm_labels(parts: Seq<Seq<char>>) -> Seq<Seq<char>> {
    Seq::new(parts.len(), |i: int| lower_of(trim_spec(parts[i])))
}

/// The openings of the inline annotation templates.
pub open spec fn label_pres() -> Seq<Seq<char>> {
    seq!["{{lb|en|"@, "{{label|en|"@, "{{context|en|"@]
}

/// All annotation labels in the text, normalized, in template order.
pub open spec fn labels_from(t: Seq<char>, from: int) -> Seq<Seq<char>>
    decreases t.len() - from,
{
    if from < 0 || from > t.len() {
        Seq::empty()
    } else {
        match find_tmpl_a(t, label_pres(), from) {
            None => Seq::empty(),
            Some(m) => {
                let nxt = if from < m.2 + 2 && m.2 + 2 <= t.len() {
                    m.2 + 2
                } else {
                    from + 1
                };
                norm_labels(split_pipe(t.subrange(m.1, m.2), 0)) + (if nxt > t.len() {
                    Seq::empty()
                } else {
                    labels_from(t, nxt)
                })
            },
        }
    }
}

fn collect_labels(t: &[char], pres: &Vec<Vec<char>>) -> (r: Vec<String>)
    requires
        pres.deep_view() =~= label_pres(),
    ensures
        r.deep_view() == labels_from(t@, 0),
{
    let mut out: Vec<String> = Vec::new();
    let mut pos: usize = 0;
    loop
        invariant
            0 <= pos <= t.len(),
            pres.deep_view() =~= label_pres(),
            labels_from(t@, 0) =~= out.deep_view() + labels_from(t@, pos as int),
        decreases t.len() - pos,
    {
        match find_tmpl_a_exec(t, pres, pos) {
            None => {
                proof {
                    assert(labels_from(t@, 0) =~= out.deep_view());
                }
                return out;
            },
            Some((s, cs, ce)) => {
                let content = slice_to_vec(t, cs, ce);
                let parts = split_pipe_exec(content.as_slice());
                let ghost before = out.deep_view();
                let ghost nl = norm_labels(split_pipe(t@.subrange(cs as int, ce as int), 0));
                let mut k: usize = 0;
                while k < parts.len()
                    invariant
                        0 <= k <= parts.len(),
                        parts.deep_view() =~~= split_pipe(
                            t@.subrange(cs as int, ce as int),
                            0,
                        ),
                        nl == norm_labels(split_pipe(t@.subrange(cs as int, ce as int), 0)),
                        out.deep_view() =~= before + nl.take(k as int),
                    decreases parts.len() - k,
                {
                    let tr = trim_chars(parts[k].as_slice());
                    let low = lower_chars(tr.as_slice());
                    let ghost prev = out.deep_view();
                    out.push(string_from_chars(low.as_slice()));
                    proof {
                        assert(parts.deep_view()[k as int] == parts@[k as int]@);
                        assert(nl[k as int] == lower_of(trim_spec(parts@[k as int]@)));
                        assert(out.deep_view() =~= prev.push(nl[k as int]));
                        assert(nl.take(k + 1) =~= nl.take(k as int).push(nl[k as int]));
                    }
                    k = k + 1;
                }
                proof {
                    assert(nl.take(parts@.len() as int) =~= nl);
                    assert(out.deep_view() =~= before + nl);
                    assert(labels_from(t@, pos as int) =~= nl + labels_from(t@, ce + 2));
                    assert(labels_from(t@, 0) =~= out.deep_view() + labels_from(t@, ce + 2));
                }
                pos = ce + 2;
            },
        }
    }
}

/// The labels that belong to the register vocabulary.
pub open spec fn reg_stream(ls: Seq<Seq<char>>, reg: Seq<Seq<char>>) -> Seq<Seq<char>>
    decreases ls.len(),
{
    if ls.len() == 0 {
        Seq::empty()
    } else {
        reg_stream(ls.drop_last(), reg) + (if reg.contains(ls.last()) {
            seq![ls.last()]
        } else {
            Seq::empty()
        })
    }
}

/// The labels that fall through to the temporal vocabulary.
pub open spec fn temp_stream(
    ls: Seq<Seq<char>>,
    reg: Seq<Seq<char>>,
    temp: Seq<Seq<char>>,
) -> Seq<Seq<char>>
    decreases ls.len(),
{
    if ls.len() == 0 {
        Seq::empty()
    } else {
        temp_stream(ls.drop_last(), reg, temp) + (if !reg.contains(ls.last()) && temp.contains(
            ls.last(),
        ) {
            seq![ls.last()]
        } else {
            Seq::empty()
        })
    }
}

/// The labels that fall through to the domain vocabulary.
pub open spec fn dom_stream(
    ls: Seq<Seq<char>>,
    reg: Seq<Seq<char>>,
    temp: Seq<Seq<char>>,
    dom: Seq<Seq<char>>,
) -> Seq<Seq<char>>
    decreases ls.len(),
{
    if ls.len() == 0 {
        Seq::empty()
    } else {
        dom_stream(ls.drop_last(), reg, temp, dom) + (if !reg.contains(ls.last())
            && !temp.contains(ls.last()) && dom.contains(ls.last()) {
            seq![ls.last()]
        } else {
            Seq::empty()
        })
    }
}

/// The region codes of labels that fall through to the region map.
pub open spec fn region_stream(
    ls: Seq<Seq<char>>,
    reg: Seq<Seq<char>>,
    temp: Seq<Seq<char>>,
    dom: Seq<Seq<char>>,
    rmap: Seq<(Seq<char>, Seq<char>)>,
) -> Seq<Seq<char>>
    decreases ls.len(),
{
    if ls.len() == 0 {
        Seq::empty()
    } else {
        region_stream(ls.drop_last(), reg, temp, dom, rmap) + (if !reg.contains(ls.last())
            && !temp.contains(ls.last()) && !dom.contains(ls.last()) {
            match map_get(rmap, ls.last()) {
                Some(code) => seq![code],
                None => Seq::empty(),
            }
        } else {
            Seq::empty()
        })
    }
}

/// Lexicographic order on character sequences by code point.
pub open spec fn lex_lt(a: Seq<char>, b: Seq<char>) -> bool
    decreases a.len(),
{
    if b.len() == 0 {
        false
    } else if a.len() == 0 {
        true
    } else if (a[0] as u32) < (b[0] as u32) {
        true
    } else if a[0] != b[0] {
        false
    } else {
        lex_lt(a.drop_first(), b.drop_first())
    }
}

fn lex_lt_exec(a: &[char], b: &[char]) -> (r: bool)
    ensures
        r == lex_lt(a@, b@),
{
    let mut i: usize = 0;
    proof {
        assert(a@.skip(0) =~= a@);
        assert(b@.skip(0) =~= b@);
    }
    loop
        invariant
            0 <= i <= a.len(),
            i <= b.len(),
            lex_lt(a@, b@) == lex_lt(a@.skip(i as int), b@.skip(i as int)),
        decreases a.len() - i,
    {
        proof {
            if i < b.len() {
                assert(b@.skip(i as int)[0] == b@[i as int]);
                assert(b@.skip(i as int).drop_first() =~= b@.skip(i + 1));
            }
            if i < a.len() {
                assert(a@.skip(i as int)[0] == a@[i as int]);
                assert(a@.skip(i as int).drop_first() =~= a@.skip(i + 1));
            }
        }
        if i >= b.len() {
            proof {
                assert(b@.skip(i as int).len() == 0);
            }
            return false;
        }
        if i >= a.len() {
            proof {
                assert(a@.skip(i as int).len() == 0);
            }
            return true;
        }
        if (a[i] as u32) < (b[i] as u32) {
            return true;
        }
        if a[i] != b[i] {
            return false;
        }
        proof {
            assert(a@[i as int] == b@[i as int]);
            assert(lex_lt(a@.skip(i as int), b@.skip(i as int)) == lex_lt(
                a@.skip(i + 1),
                b@.skip(i + 1),
            ));
        }
        i = i + 1;
    }
}

/// Insert into a sorted, duplicate-free list, keeping it so.
pub open spec fn sorted_insert(s: Seq<Seq<char>>, x: Seq<char>) -> Seq<Seq<char>>
    decreases s.len(),
{
    if s.len() == 0 {
        seq![x]
    } else if s[0] == x {
        s
    } else if lex_lt(x, s[0]) {
        seq![x] + s
    } else {
        seq![s[0]] + sorted_insert(s.drop_first(), x)
    }
}

/// The items inserted one by one: a sorted, duplicate-free list with the
/// same members.
pub open spec fn sortset_upto(items: Seq<Seq<char>>, i: int) -> Seq<Seq<char>>
    decreases i,
{
    if i <= 0 {
        Seq::empty()
    } else {
        sorted_insert(sortset_upto(items, i - 1), items[i - 1])
    }
}

pub open spec fn sortset(items: Seq<Seq<char>>) -> Seq<Seq<char>> {
    sortset_upto(items, items.len() as int)
}

pub(crate) fn copy_strings(items: &Vec<String>) -> (r: Vec<String>)
    ensures
        r.deep_view() == items.deep_view(),
{
    let mut out: Vec<String> = Vec::new();
    let mut m: usize = 0;
    while m < items.len()
        invariant
            0 <= m <= items.len(),
            out.deep_view() == items.deep_view().take(m as int),
        decreases items.len() - m,
    {
        let ghost prev = out.deep_view();
        out.push(items[m].clone());
        proof {
            assert(items.deep_view()[m as int] == items@[m as int]@);
            assert(out.deep_view() =~= prev.push(items.deep_view()[m as int]));
            assert(items.deep_view().take(m + 1) =~= prev.push(items.deep_view()[m as int]));
        }
        m = m + 1;
    }
    proof {
        assert(items.deep_view().take(items@.len() as int) =~= items.deep_view());
    }
    out
}

fn sorted_insert_exec(items: &Vec<String>, x: &String) -> (r: Vec<String>)
    ensures
        r.deep_view() == sorted_insert(items.deep_view(), x@),
{
    let ghost dv = items.deep_view();
    let mut v = copy_strings(items);
    let mut j: usize = 0;
    proof {
        assert(dv.take(0) =~= Seq::<Seq<char>>::empty());
        assert(dv.skip(0) =~= dv);
        assert(dv.take(0) + sorted_insert(dv.skip(0), x@) =~= sorted_insert(dv, x@));
    }
    loop
        invariant
            0 <= j <= v.len(),
            dv == items.deep_view(),
            dv == v.deep_view(),
            sorted_insert(dv, x@) =~= dv.take(j as int) + sorted_insert(dv.skip(j as int), x@),
        decreases v.len() - j,
    {
        if j >= v.len() {
            proof {
                assert(dv.skip(j as int).len() == 0);
                assert(sorted_insert(dv.skip(j as int), x@) =~= seq![x@]);
                assert(dv.take(j as int) =~= dv);
            }
            let ghost prev = v.deep_view();
            v.push(x.clone());
            proof {
                assert(v.deep_view() =~= prev.push(x@));
                assert(v.deep_view() =~= sorted_insert(dv, x@));
            }
            return v;
        }
        proof {
            assert(dv.skip(j as int)[0] == dv[j as int]);
            assert(dv.skip(j as int).drop_first() =~= dv.skip(j + 1));
            assert(dv[j as int] == v@[j as int]@);
        }
        let cx = chars_of(x.as_str());
        let cv = chars_of(v[j].as_str());
        if v[j].eq(x) {
            proof {
                assert(dv.skip(j as int)[0] == x@);
                assert(sorted_insert(dv.skip(j as int), x@) =~= dv.skip(j as int));
                assert(dv.take(j as int) + dv.skip(j as int) =~= dv);
                assert(v.deep_view() == sorted_insert(dv, x@));
            }
            return v;
        }
        if lex_lt_exec(cx.as_slice(), cv.as_slice()) {
            proof {
                assert(sorted_insert(dv.skip(j as int), x@) =~= seq![x@] + dv.skip(j as int));
            }
            v.insert(j, x.clone());
            proof {
                assert(v@.len() == dv.len() + 1);
                assert forall|m: int| 0 <= m < v@.len() implies v.deep_view()[m] == (dv.take(
                    j as int,
                ) + (seq![x@] + dv.skip(j as int)))[m] by {
                    if m < j {
                        assert(v@[m] == v@.subrange(0, j as int)[m]);
                    }
                }
                assert(v.deep_view() =~= dv.take(j as int) + (seq![x@] + dv.skip(j as int)));
                assert(v.deep_view() == sorted_insert(dv, x@));
            }
            return v;
        }
        proof {
            assert(sorted_insert(dv.skip(j as int), x@) =~= seq![dv[j as int]] + sorted_insert(
                dv.skip(j + 1),
                x@,
            ));
            assert(dv.take(j as int) + sorted_insert(dv.skip(j as int), x@) =~= dv.take(j + 1)
                + sorted_insert(dv.skip(j + 1), x@));
        }
        j = j + 1;
    }
}

/// Sort a list of tags and drop duplicates.
fn sortset_exec(items: &Vec<String>) -> (r: Vec<String>)
    ensures
        r.deep_view() == sortset(items.deep_view()),
{
    let ghost iv = items.deep_view();
    let mut out: Vec<String> = Vec::new();
    let mut i: usize = 0;
    while i < items.len()
        invariant
            0 <= i <= items.len(),
            iv == items.deep_view(),
            out.deep_view() == sortset_upto(iv, i as int),
        decreases items.len() - i,
    {
        proof {
            assert(iv[i as int] == items@[i as int]@);
        }
        let nxt = sorted_insert_exec(&out, &items[i]);
        out = nxt;
        i = i + 1;
    }
    out
}

/// Extract the per-sense tag sets from one definition line: register,
/// region, domain and temporal tags, each deduplicated and sorted.
pub fn extract_labels_from_line(line: &str, cfg: &ExtractConfig) -> (r: (
    Vec<String>,
    Vec<String>,
    Vec<String>,
    Vec<String>,
))
    ensures
        ({
            let ls = labels_from(line@, 0);
            &&& r.0.deep_view() == sortset(reg_stream(ls, cfg.register_v()))
            &&& r.1.deep_view() == sortset(
                region_stream(
                    ls,
                    cfg.register_v(),
                    cfg.temporal_v(),
                    cfg.domain_v(),
                    cfg.region_v(),
                ),
            )
            &&& r.2.deep_view() == sortset(
                dom_stream(ls, cfg.register_v(), cfg.temporal_v(), cfg.domain_v()),
            )
            &&& r.3.deep_view() == sortset(
                temp_stream(ls, cfg.register_v(), cfg.temporal_v()),
            )
        }),
{
    let tv = chars_of(line);
    let pres = {
        let mut v: Vec<Vec<char>> = Vec::new();
        v.push(chars_of("{{lb|en|"));
        v.push(chars_of("{{label|en|"));
        v.push(chars_of("{{context|en|"));
        assert(v.deep_view() =~~= label_pres());
        v
    };
    let labels = collect_labels(tv.as_slice(), &pres);
    let ghost lv = labels.deep_view();
    let mut regs: Vec<String> = Vec::new();
    let mut temps: Vec<String> = Vec::new();
    let mut doms: Vec<String> = Vec::new();
    let mut regions: Vec<String> = Vec::new();
    let mut i: usize = 0;
    while i < labels.len()
        invariant
            0 <= i <= labels.len(),
            lv == labels.deep_view(),
            lv == labels_from(line@, 0),
            regs.deep_view() == reg_stream(lv.take(i as int), cfg.register_v()),
            temps.deep_view() == temp_stream(
                lv.take(i as int),
                cfg.register_v(),
                cfg.temporal_v(),
            ),
            doms.deep_view() == dom_stream(
                lv.take(i as int),
                cfg.register_v(),
                cfg.temporal_v(),
                cfg.domain_v(),
            ),
            regions.deep_view() == region_stream(
                lv.take(i as int),
                cfg.register_v(),
                cfg.temporal_v(),
                cfg.domain_v(),
                cfg.region_v(),
            ),
        decreases labels.len() - i,
    {
        proof {
            assert(lv[i as int] == labels@[i as int]@);
            assert(lv.take(i + 1).drop_last() =~= lv.take(i as int));
            assert(lv.take(i + 1).last() == lv[i as int]);
        }
        let ghost rr = regs.deep_view();
        let ghost tt = temps.deep_view();
        let ghost dd = doms.deep_view();
        let ghost gg = regions.deep_view();
        let lab = &labels[i];
        if crate::config::set_contains(&cfg.register_labels, lab) {
            regs.push(lab.clone());
            proof {
                assert(regs.deep_view() =~= rr.push(lv[i as int]));
                assert(reg_stream(lv.take(i + 1), cfg.register_v()) =~= rr.push(lv[i as int]));
            }
        } else if crate::config::set_contains(&cfg.temporal_labels, lab) {
            temps.push(lab.clone());
            proof {
                assert(temps.deep_view() =~= tt.push(lv[i as int]));
                assert(temp_stream(lv.take(i + 1), cfg.register_v(), cfg.temporal_v())
                    =~= tt.push(lv[i as int]));
            }
        } else if crate::config::set_contains(&cfg.domain_labels, lab) {
            doms.push(lab.clone());
            proof {
                assert(doms.deep_view() =~= dd.push(lv[i as int]));
                assert(dom_stream(
                    lv.take(i + 1),
                    cfg.register_v(),
                    cfg.temporal_v(),
                    cfg.domain_v(),
                ) =~= dd.push(lv[i as int]));
            }
        } else {
            match crate::config::map_lookup(&cfg.region_labels, lab) {
                Some(code) => {
                    regions.push(code);
                    proof {
                        assert(region_stream(
                            lv.take(i + 1),
                            cfg.register_v(),
                            cfg.temporal_v(),
                            cfg.domain_v(),
                            cfg.region_v(),
                        ) =~= gg.push(regions.deep_view().last()));
                        assert(regions.deep_view() =~= gg.push(regions.deep_view().last()));
                    }
                },
                None => {},
            }
        }
        proof {
            assert(regs.deep_view() =~= reg_stream(lv.take(i + 1), cfg.register_v()));
            assert(temps.deep_view() =~= temp_stream(
                lv.take(i + 1),
                cfg.register_v(),
                cfg.temporal_v(),
            ));
            assert(doms.deep_view() =~= dom_stream(
                lv.take(i + 1),
                cfg.register_v(),
                cfg.temporal_v(),
                cfg.domain_v(),
            ));
            assert(regions.deep_view() =~= region_stream(
                lv.take(i + 1),
                cfg.register_v(),
                cfg.temporal_v(),
                cfg.domain_v(),
                cfg.region_v(),
            ));
        }
        i = i + 1;
    }
    proof {
        assert(lv.take(labels@.len() as int) =~= lv);
    }
    (sortset_exec(&regs), sortset_exec(&regions), sortset_exec(&doms), sortset_exec(&temps))
}

/// The openings of the head-line annotation templates.
pub open spec fn tlb_pres() -> Seq<Seq<char>> {
    seq!["{{tlb|en|"@, "{{lb|en|"@]
}

/// The first label in the parts that the spelling map knows, mapped.
pub open spec fn first_spelling(
    parts: Seq<Seq<char>>,
    smap: Seq<(Seq<char>, Seq<char>)>,
) -> Option<Seq<char>>
    decreases parts.len(),
{
    if parts.len() == 0 {
        None
    } else {
        match map_get(smap, lower_of(trim_spec(parts[0]))) {
            Some(c) => Some(c),
            None => first_spelling(parts.drop_first(), smap),
        }
    }
}

/// The spelling-region code of the first head-line label that maps.
pub open spec fn spelling_from(
    t: Seq<char>,
    from: int,
    smap: Seq<(Seq<char>, Seq<char>)>,
) -> Option<Seq<char>>
    decreases t.len() - from,
{
    if from < 0 || from > t.len() {
        None
    } else {
        match find_tmpl_a(t, tlb_pres(), from) {
            None => None,
            Some(m) => {
                let nxt = if from < m.2 + 2 && m.2 + 2 <= t.len() {
                    m.2 + 2
                } else {
                    from + 1
                };
                match first_spelling(split_pipe(t.subrange(m.1, m.2), 0), smap) {
                    Some(c) => Some(c),
                    None => {
                        if nxt > t.len() {
                            None
                        } else {
                            spelling_from(t, nxt, smap)
                        }
                    },
                }
            },
        }
    }
}

/// Extract the regional spelling variant announced on a head line.
pub fn extract_spelling_region(text: &str, cfg: &ExtractConfig) -> (r: Option<String>)
    ensures
        match r {
            Some(s) => spelling_from(text@, 0, cfg.spelling_v()) == Some(s@),
            None => spelling_from(text@, 0, cfg.spelling_v()) is None,
        },
{
    let tv = chars_of(text);
    let t = tv.as_slice();
    let pres = {
        let mut v: Vec<Vec<char>> = Vec::new();
        v.push(chars_of("{{tlb|en|"));
        v.push(chars_of("{{lb|en|"));
        assert(v.deep_view() =~~= tlb_pres());
        v
    };
    let mut pos: usize = 0;
    loop
        invariant
            0 <= pos <= t.len(),
            t@ == text@,
            pres.deep_view() =~= tlb_pres(),
            spelling_from(t@, 0, cfg.spelling_v()) == spelling_from(
                t@,
                pos as int,
                cfg.spelling_v(),
            ),
        decreases t.len() - pos,
    {
        match find_tmpl_a_exec(t, &pres, pos) {
            None => {
                proof {
                    assert(spelling_from(t@, pos as int, cfg.spelling_v()) is None);
                }
                return None;
            },
            Some((s, cs, ce)) => {
                let content = slice_to_vec(t, cs, ce);
                let parts = split_pipe_exec(content.as_slice());
                let ghost pv = split_pipe(t@.subrange(cs as int, ce as int), 0);
                proof {
                    assert(pv.skip(0) =~= pv);
                }
                let mut found: Option<String> = None;
                let mut k: usize = 0;
                while k < parts.len() && found.is_none()
                    invariant
                        0 <= k <= parts.len(),
                        parts.deep_view() =~~= pv,
                        pv == split_pipe(t@.subrange(cs as int, ce as int), 0),
                        match found {
                            Some(c) => first_spelling(pv, cfg.spelling_v()) == Some(c@),
                            None => first_spelling(pv, cfg.spelling_v()) == first_spelling(
                                pv.skip(k as int),
                                cfg.spelling_v(),
                            ),
                        },
                    decreases parts.len() - k,
                {
                    proof {
                        assert(pv.skip(k as int)[0] == pv[k as int]);
                        assert(pv.skip(k as int).drop_first() =~= pv.skip(k + 1));
                        assert(parts.deep_view()[k as int] == parts@[k as int]@);
                    }
                    let tr = trim_chars(parts[k].as_slice());
                    let low = lower_chars(tr.as_slice());
                    let key = string_from_chars(low.as_slice());
                    match crate::config::map_lookup(&cfg.spelling_labels, &key) {
                        Some(code) => {
                            proof {
                                assert(first_spelling(pv.skip(k as int), cfg.spelling_v())
                                    == Some(code@));
                            }
                            found = Some(code);
                        },
                        None => {},
                    }
                    k = k + 1;
                }
                match found {
                    Some(code) => {
                        proof {
                            assert(spelling_from(t@, pos as int, cfg.spelling_v()) == Some(
                                code@,
                            ));
                        }
                        return Some(code);
                    },
                    None => {
                        proof {
                            assert(pv.skip(parts@.len() as int).len() == 0);
                            assert(first_spelling(pv, cfg.spelling_v()) is None);
                            assert(spelling_from(t@, pos as int, cfg.spelling_v())
                                == spelling_from(t@, ce + 2, cfg.spelling_v()));
                        }
                    },
                }
                pos = ce + 2;
            },
        }
    }
}

} // verus!
