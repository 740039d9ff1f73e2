//! Finders for the inline template shapes the extraction rules look for.
//!
//! Two shapes cover every template of interest.  A *capture* template is a
//! case-insensitive opening such as `{{label|en|` followed by a nonempty run
//! of characters other than `}`, closed by `}}`.  A *fixed-arity* template
//! is such an opening followed by two to four arguments, each a nonempty run
//! free of `|` and `}`, separated by `|` and closed by `}}`.  Both finders
//! return the leftmost position where the whole shape matches, trying later
//! positions when a candidate opening is not completed.

use vstd::prelude::*;

use crate::text::{match_at, match_at_exec, scan_until, scan_until_exec};

verus! {

/// A capture template with opening `pre` at position `i`: the capture range
/// `[cs, ce)` with `ce > cs`, followed by `}}`.
pub open spec fn tmpl_a_at(t: Seq<char>, pre: Seq<char>, i: int) -> Option<(int, int)> {
    if match_at(true, t, pre, i) {
        let cs = i + pre.len();
        let ce = scan_until(t, cs, seq!['}']);
        if ce > cs && match_at(false, t, seq!['}', '}'], ce) {
            Some((cs, ce))
        } else {
            None
        }
    } else {
        None
    }
}

/// The first opening in `pres` whose capture template matches at `i`.
pub open spec fn tmpl_a_list_at(t: Seq<char>, pres: Seq<Seq<char>>, i: int) -> Option<(int, int)>
    decreases pres.len(),
{
    if pres.len() == 0 {
        None
    } else if tmpl_a_at(t, pres[0], i) is Some {
        tmpl_a_at(t, pres[0], i)
    } else {
        tmpl_a_list_at(t, pres.drop_first(), i)
    }
}

/// The leftmost capture-template occurrence at or after `from`:
/// `(start, cs, ce)`.
pub open spec fn find_tmpl_a(t: Seq<char>, pres: Seq<Seq<char>>, from: int) -> Option<
    (int, int, int),
>
    decreases t.len() - from,
{
    if from < 0 || from > t.len() {
        None
    } else {
        match tmpl_a_list_at(t, pres, from) {
            Some(cc) => Some((from, cc.0, cc.1)),
            None => {
                if from == t.len() {
                    None
                } else {
                    find_tmpl_a(t, pres, from + 1)
                }
            },
        }
    }
}

proof fn lemma_tmpl_a_list_skip(t: Seq<char>, pres: Seq<Seq<char>>, i: int, k: int)
    requires
        0 <= k <= pres.len(),
        forall|j: int| 0 <= j < k ==> tmpl_a_at(t, pres[j], i) is None,
    ensures
        tmpl_a_list_at(t, pres, i) == tmpl_a_list_at(t, pres.skip(k), i),
    decreases k,
{
    if k == 0 {
        assert(pres.skip(0) =~= pres);
    } else {
        lemma_tmpl_a_list_skip(t, pres, i, k - 1);
        let s = pres.skip(k - 1);
        assert(s[0] == pres[k - 1]);
        assert(s.drop_first() =~= pres.skip(k));
    }
}

fn tmpl_a_at_exec(t: &[char], pre: &[char], i: usize) -> (r: Option<(usize, usize)>)
    requires
        i <= t.len(),
    ensures
        match r {
            Some((cs, ce)) => tmpl_a_at(t@, pre@, i as int) == Some((cs as int, ce as int)) && i
                <= cs < ce && ce + 2 <= t.len(),
            None => tmpl_a_at(t@, pre@, i as int) is None,
        },
{
    if !match_at_exec(true, t, pre, i) {
        return None;
    }
    let cs = i + pre.len();
    let brace = {
        let mut v: Vec<char> = Vec::new();
        v.push('}');
        assert(v@ =~= seq!['}']);
        v
    };
    let ce = scan_until_exec(t, cs, brace.as_slice());
    if ce > cs && crate::wikitext::is2(t, ce, '}', '}') {
        Some((cs, ce))
    } else {
        None
    }
}

/// Find the leftmost capture-template occurrence for any of the openings.
pub fn find_tmpl_a_exec(t: &[char], pres: &Vec<Vec<char>>, from: usize) -> (r: Option<
    (usize, usize, usize),
>)
    requires
        from <= t.len(),
    ensures
        match r {
            Some((s, cs, ce)) => find_tmpl_a(t@, pres.deep_view(), from as int) == Some(
                (s as int, cs as int, ce as int),
            ) && from <= s <= cs < ce && ce + 2 <= t.len(),
            None => find_tmpl_a(t@, pres.deep_view(), from as int) is None,
        },
{
    let mut pos: usize = from;
    loop
        invariant
            from <= pos <= t.len(),
            find_tmpl_a(t@, pres.deep_view(), from as int) == find_tmpl_a(
                t@,
                pres.deep_view(),
                pos as int,
            ),
        decreases t.len() - pos,
    {
        let mut k: usize = 0;
        let mut hit: Option<(usize, usize)> = None;
        while k < pres.len() && hit.is_none()
            invariant
                0 <= k <= pres.len(),
                pos <= t.len(),
                match hit {
                    Some((cs, ce)) => tmpl_a_list_at(t@, pres.deep_view(), pos as int) == Some(
                        (cs as int, ce as int),
                    ) && pos <= cs < ce && ce + 2 <= t.len(),
                    None => forall|j: int|
                        0 <= j < k ==> tmpl_a_at(t@, pres.deep_view()[j], pos as int) is None,
                },
            decreases pres.len() - k,
        {
            proof {
                assert(pres.deep_view()[k as int] == pres@[k as int]@);
            }
            match tmpl_a_at_exec(t, pres[k].as_slice(), pos) {
                Some(cc) => {
                    proof {
                        lemma_tmpl_a_list_skip(t@, pres.deep_view(), pos as int, k as int);
                        let s = pres.deep_view().skip(k as int);
                        assert(s[0] == pres.deep_view()[k as int]);
                    }
                    hit = Some(cc);
                },
                None => {},
            }
            k = k + 1;
        }
        match hit {
            Some((cs, ce)) => {
                return Some((pos, cs, ce));
            },
            None => {
                proof {
                    lemma_tmpl_a_list_skip(t@, pres.deep_view(), pos as int, pres@.len() as int);
                    assert(pres.deep_view().skip(pres@.len() as int).len() == 0);
                }
                if pos == t.len() {
                    return None;
                }
                pos = pos + 1;
            },
        }
    }
}

/// Up to `remaining` template arguments starting at `i`, each a nonempty
/// run free of `|` and `}`, separated by `|` and closed by `}}`.  Yields
/// the argument ranges and the position just past the closing braces.
pub open spec fn fix_args_at(t: Seq<char>, i: int, remaining: nat) -> Option<
    (Seq<(int, int)>, int),
>
    decreases remaining,
{
    let e = scan_until(t, i, seq!['|', '}']);
    if e <= i {
        None
    } else if match_at(false, t, seq!['}', '}'], e) {
        Some((seq![(i, e)], e + 2))
    } else if e < t.len() && t[e] == '|' && remaining > 1 {
        match fix_args_at(t, e + 1, (remaining - 1) as nat) {
            Some(rest) => Some((seq![(i, e)] + rest.0, rest.1)),
            None => None,
        }
    } else {
        None
    }
}

/// A fixed-arity template at `i`: opening `pre`, between `minargs` and
/// `maxargs` arguments, closed by `}}`.
pub open spec fn tmpl_fix_at(
    t: Seq<char>,
    pre: Seq<char>,
    i: int,
    minargs: nat,
    maxargs: nat,
) -> Option<(Seq<(int, int)>, int)> {
    if match_at(true, t, pre, i) {
        match fix_args_at(t, i + pre.len(), maxargs) {
            Some(r) => if r.0.len() >= minargs {
                Some(r)
            } else {
                None
            },
            None => None,
        }
    } else {
        None
    }
}

/// The leftmost fixed-arity occurrence at or after `from`:
/// `(start, args, end)`.
pub open spec fn find_tmpl_fix(
    t: Seq<char>,
    pre: Seq<char>,
    from: int,
    minargs: nat,
    maxargs: nat,
) -> Option<(int, Seq<(int, int)>, int)>
    decreases t.len() - from,
{
    if from < 0 || from > t.len() {
        None
    } else {
        match tmpl_fix_at(t, pre, from, minargs, maxargs) {
            Some(r) => Some((from, r.0, r.1)),
            None => {
                if from == t.len() {
                    None
                } else {
                    find_tmpl_fix(t, pre, from + 1, minargs, maxargs)
                }
            },
        }
    }
}

/// Relates executable argument ranges to specification-level ones.
pub open spec fn args_match(ex: Seq<(usize, usize)>, sp: Seq<(int, int)>) -> bool {
    ex.len() == sp.len() && forall|k: int|
        0 <= k < ex.len() ==> (#[trigger] ex[k]).0 as int == sp[k].0 && ex[k].1 as int == sp[k].1
}

/// All argument ranges lie within the text.
pub open spec fn args_in(ex: Seq<(usize, usize)>, len: int) -> bool {
    forall|k: int| 0 <= k < ex.len() ==> (#[trigger] ex[k]).0 <= ex[k].1 <= len
}

fn fix_args_at_exec(t: &[char], i: usize, remaining: usize) -> (r: Option<
    (Vec<(usize, usize)>, usize),
>)
    requires
        i <= t.len(),
        remaining >= 1,
    ensures
        match r {
            Some((args, e)) => fix_args_at(t@, i as int, remaining as nat) is Some && ({
                let sp = fix_args_at(t@, i as int, remaining as nat)->0;
                args_match(args@, sp.0) && e as int == sp.1
            }) && args_in(args@, t.len() as int) && i <= e <= t.len(),
            None => fix_args_at(t@, i as int, remaining as nat) is None,
        },
    decreases remaining,
{
    let stops = {
        let mut v: Vec<char> = Vec::new();
        v.push('|');
        v.push('}');
        assert(v@ =~= seq!['|', '}']);
        v
    };
    let e = scan_until_exec(t, i, stops.as_slice());
    if e <= i {
        return None;
    }
    if crate::wikitext::is2(t, e, '}', '}') {
        let mut args: Vec<(usize, usize)> = Vec::new();
        args.push((i, e));
        proof {
            let sp = fix_args_at(t@, i as int, remaining as nat)->0;
            assert(sp.0 =~= seq![(i as int, e as int)]);
        }
        return Some((args, e + 2));
    }
    if e < t.len() && t[e] == '|' && remaining > 1 {
        match fix_args_at_exec(t, e + 1, remaining - 1) {
            Some((rest, end)) => {
                let mut args: Vec<(usize, usize)> = Vec::new();
                args.push((i, e));
                let mut rest = rest;
                args.append(&mut rest);
                proof {
                    let spr = fix_args_at(t@, e + 1, (remaining - 1) as nat)->0;
                    let sp = fix_args_at(t@, i as int, remaining as nat)->0;
                    assert(sp.0 =~= seq![(i as int, e as int)] + spr.0);
                }
                Some((args, end))
            },
            None => None,
        }
    } else {
        None
    }
}

fn tmpl_fix_at_exec(t: &[char], pre: &[char], i: usize, minargs: usize, maxargs: usize) -> (r:
    Option<(Vec<(usize, usize)>, usize)>)
    requires
        i <= t.len(),
        1 <= minargs <= maxargs,
    ensures
        match r {
            Some((args, e)) => tmpl_fix_at(
                t@,
                pre@,
                i as int,
                minargs as nat,
                maxargs as nat,
            ) is Some && ({
                let sp = tmpl_fix_at(t@, pre@, i as int, minargs as nat, maxargs as nat)->0;
                args_match(args@, sp.0) && e as int == sp.1
            }) && args_in(args@, t.len() as int) && i <= e <= t.len() && args@.len() >= minargs,
            None => tmpl_fix_at(t@, pre@, i as int, minargs as nat, maxargs as nat) is None,
        },
{
    if !match_at_exec(true, t, pre, i) {
        return None;
    }
    match fix_args_at_exec(t, i + pre.len(), maxargs) {
        Some((args, e)) => {
            if args.len() >= minargs {
                Some((args, e))
            } else {
                None
            }
        },
        None => None,
    }
}

/// Find the leftmost fixed-arity template occurrence.
pub fn find_tmpl_fix_exec(t: &[char], pre: &[char], from: usize, minargs: usize, maxargs: usize) -> (r:
    Option<(usize, Vec<(usize, usize)>, usize)>)
    requires
        from <= t.len(),
        1 <= minargs <= maxargs,
    ensures
        match r {
            Some((s, args, e)) => find_tmpl_fix(
                t@,
                pre@,
                from as int,
                minargs as nat,
                maxargs as nat,
            ) is Some && ({
                let sp = find_tmpl_fix(t@, pre@, from as int, minargs as nat, maxargs as nat)->0;
                s as int == sp.0 && args_match(args@, sp.1) && e as int == sp.2
            }) && from <= s <= e <= t.len() && args_in(args@, t.len() as int)
                && args@.len() >= minargs,
            None => find_tmpl_fix(t@, pre@, from as int, minargs as nat, maxargs as nat) is None,
        },
{
    let mut pos: usize = from;
    loop
        invariant
            from <= pos <= t.len(),
            1 <= minargs <= maxargs,
            find_tmpl_fix(t@, pre@, from as int, minargs as nat, maxargs as nat) == find_tmpl_fix(
                t@,
                pre@,
                pos as int,
                minargs as nat,
                maxargs as nat,
            ),
        decreases t.len() - pos,
    {
        match tmpl_fix_at_exec(t, pre, pos, minargs, maxargs) {
            Some((args, e)) => {
                return Some((pos, args, e));
            },
            None => {
                if pos == t.len() {
                    return None;
                }
                pos = pos + 1;
            },
        }
    }
}

} // verus!
