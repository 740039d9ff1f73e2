//! The taxonomy configuration: label vocabularies, the part-of-speech map
//! and the reserved-title-prefix list.
//!
//! The tables are loaded from an external resource before processing starts
//! and injected read-only into every component; the library only looks
//! things up in them.

use vstd::prelude::*;

use crate::text::{chars_of, match_at, match_at_exec};

verus! {

/// View of a pair list as a key-value association in order.
pub open spec fn pairs_view(v: Seq<(String, String)>) -> Seq<(Seq<char>, Seq<char>)> {
    Seq::new(v.len(), |i: int| (v[i].0@, v[i].1@))
}

/// The value of the first pair whose key is `key`.
pub open spec fn map_get(pairs: Seq<(Seq<char>, Seq<char>)>, key: Seq<char>) -> Option<Seq<char>>
    decreases pairs.len(),
{
    if pairs.len() == 0 {
        None
    } else if pairs[0].0 == key {
        Some(pairs[0].1)
    } else {
        map_get(pairs.drop_first(), key)
    }
}

/// Immutable lookup tables driving classification: a header-to-code map for
/// parts of speech, the four label vocabularies, the spelling-variant map
/// and the reserved title prefixes.
pub struct ExtractConfig {
    pub pos_map: Vec<(String, String)>,
    pub register_labels: Vec<String>,
    pub temporal_labels: Vec<String>,
    pub domain_labels: Vec<String>,
    pub region_labels: Vec<(String, String)>,
    pub spelling_labels: Vec<(String, String)>,
    pub special_prefixes: Vec<String>,
}

impl ExtractConfig {
    pub open spec fn pos_v(&self) -> Seq<(Seq<char>, Seq<char>)> {
        pairs_view(self.pos_map@)
    }

    pub open spec fn register_v(&self) -> Seq<Seq<char>> {
        self.register_labels.deep_view()
    }

    pub open spec fn temporal_v(&self) -> Seq<Seq<char>> {
        self.temporal_labels.deep_view()
    }

    pub open spec fn domain_v(&self) -> Seq<Seq<char>> {
        self.domain_labels.deep_view()
    }

    pub open spec fn region_v(&self) -> Seq<(Seq<char>, Seq<char>)> {
        pairs_view(self.region_labels@)
    }

    pub open spec fn spelling_v(&self) -> Seq<(Seq<char>, Seq<char>)> {
        pairs_view(self.spelling_labels@)
    }

    pub open spec fn prefixes_v(&self) -> Seq<Seq<char>> {
        self.special_prefixes.deep_view()
    }

    /// An empty configuration: nothing is recognized.
    pub fn new() -> (r: Self)
        ensures
            r.pos_v() =~= Seq::<(Seq<char>, Seq<char>)>::empty(),
            r.register_v() =~= Seq::<Seq<char>>::empty(),
            r.temporal_v() =~= Seq::<Seq<char>>::empty(),
            r.domain_v() =~= Seq::<Seq<char>>::empty(),
            r.region_v() =~= Seq::<(Seq<char>, Seq<char>)>::empty(),
            r.spelling_v() =~= Seq::<(Seq<char>, Seq<char>)>::empty(),
            r.prefixes_v() =~= Seq::<Seq<char>>::empty(),
    {
        ExtractConfig {
            pos_map: Vec::new(),
            register_labels: Vec::new(),
            temporal_labels: Vec::new(),
            domain_labels: Vec::new(),
            region_labels: Vec::new(),
            spelling_labels: Vec::new(),
            special_prefixes: Vec::new(),
        }
    }
}

/// Membership of a label in a vocabulary.
pub fn set_contains(set: &Vec<String>, label: &String) -> (r: bool)
    ensures
        r == set.deep_view().contains(label@),
{
    let mut i: usize = 0;
    while i < set.len()
        invariant
            0 <= i <= set.len(),
            forall|j: int| 0 <= j < i ==> set.deep_view()[j] != label@,
        decreases set.len() - i,
    {
        proof {
            assert(set.deep_view()[i as int] == set@[i as int]@);
        }
        if set[i].eq(label) {
            assert(set.deep_view().contains(label@));
            return true;
        }
        i = i + 1;
    }
    assert(!set.deep_view().contains(label@)) by {
        if set.deep_view().contains(label@) {
            let j = choose|j: int|
                0 <= j < set.deep_view().len() && set.deep_view()[j] == label@;
        }
    }
    false
}

/// Lookup in a pair list, first matching key wins.
pub fn map_lookup(pairs: &Vec<(String, String)>, key: &String) -> (r: Option<String>)
    ensures
        match r {
            Some(v) => map_get(pairs_view(pairs@), key@) == Some(v@),
            None => map_get(pairs_view(pairs@), key@) is None,
        },
{
    let ghost pv = pairs_view(pairs@);
    proof {
        assert(pv.skip(0) =~= pv);
    }
    let mut i: usize = 0;
    while i < pairs.len()
        invariant
            0 <= i <= pairs.len(),
            pv == pairs_view(pairs@),
            map_get(pv, key@) == map_get(pv.skip(i as int), key@),
        decreases pairs.len() - i,
    {
        proof {
            assert(pv.skip(i as int)[0] == pv[i as int]);
            assert(pv.skip(i as int).drop_first() =~= pv.skip(i + 1));
            assert(pv[i as int] == (pairs@[i as int].0@, pairs@[i as int].1@));
        }
        if pairs[i].0.eq(key) {
            return Some(pairs[i].1.clone());
        }
        i = i + 1;
    }
    proof {
        assert(pv.skip(pairs@.len() as int).len() == 0);
    }
    None
}

/// The configured reserved title prefixes.
pub fn get_special_prefixes(cfg: &ExtractConfig) -> (r: &Vec<String>)
    ensures
        r.deep_view() == cfg.prefixes_v(),
{
    &cfg.special_prefixes
}

/// The title starts with one of the reserved prefixes.
pub open spec fn has_special_prefix_spec(prefixes: Seq<Seq<char>>, title: Seq<char>) -> bool {
    exists|i: int| 0 <= i < prefixes.len() && (#[trigger] prefixes[i]).is_prefix_of(title)
}

pub fn has_special_prefix(prefixes: &Vec<String>, title: &str) -> (r: bool)
    ensures
        r == has_special_prefix_spec(prefixes.deep_view(), title@),
{
    let t = chars_of(title);
    let mut i: usize = 0;
    while i < prefixes.len()
        invariant
            0 <= i <= prefixes.len(),
            t@ == title@,
            forall|j: int|
                0 <= j < i ==> !(#[trigger] prefixes.deep_view()[j]).is_prefix_of(title@),
        decreases prefixes.len() - i,
    {
        let p = chars_of(prefixes[i].as_str());
        proof {
            assert(prefixes.deep_view()[i as int] == prefixes@[i as int]@);
        }
        if match_at_exec(false, t.as_slice(), p.as_slice(), 0) {
            proof {
                assert(p@.is_prefix_of(title@)) by {
                    assert(match_at(false, title@, p@, 0));
                    assert(forall|k: int|
                        0 <= k < p@.len() ==> crate::text::chr_eq(false, title@[k], p@[k]));
                    assert(title@.subrange(0, p@.len() as int) =~= p@);
                }
            }
            return true;
        } else {
            proof {
                if p@.is_prefix_of(title@) {
                    assert(title@.subrange(0, p@.len() as int) =~= p@);
                    assert(forall|k: int|
                        0 <= k < p@.len() ==> title@[k] == title@.subrange(
                            0,
                            p@.len() as int,
                        )[k]);
                    assert(match_at(false, title@, p@, 0));
                }
            }
        }
        i = i + 1;
    }
    false
}

} // verus!
