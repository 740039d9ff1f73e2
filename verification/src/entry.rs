//! Assembly of per-sense records from a page: word-level facts computed
//! once, then one entry per definition line of each part-of-speech section.

use vstd::prelude::*;

use crate::config::ExtractConfig;
use crate::labels::{
    dom_stream, labels_from, reg_stream, region_stream, sortset, spelling_from, temp_stream,
};
use crate::markup::clean_lemma_spec;
use crate::morphology::{extract_morphology_spec, MorphV, Morphology};
use crate::script::is_englishlike_spec;
use crate::sections::{
    english_section_spec, extract_phrase_type_spec, find_head, pos_sections_spec,
};
use crate::syllables::{
    hyphenation_spec, ipa_spec, rhymes_spec, sylcat_spec, syllables_priority,
};
use crate::text::{chars_of, contains_from, contains_lit, slice_to_vec, string_from_chars};
use crate::unicode::{lower_of, lowercase, trim_chars, trim_spec, word_count, word_count_spec};

verus! {

// ── word-level signals ───────────────────────────────────────────

/// The abbreviation templates.
pub open spec fn has_abbrev(t: Seq<char>) -> bool {
    ||| contains_from(true, t, "{{abbreviation of|en|"@, 0)
    ||| contains_from(true, t, "{{abbrev of|en|"@, 0)
    ||| contains_from(true, t, "{{abbr of|en|"@, 0)
    ||| contains_from(true, t, "{{initialism of|en|"@, 0)
}

fn has_abbrev_exec(t: &[char]) -> (r: bool)
    ensures
        r == has_abbrev(t@),
{
    contains_lit(true, t, "{{abbreviation of|en|") || contains_lit(true, t, "{{abbrev of|en|")
        || contains_lit(true, t, "{{abbr of|en|") || contains_lit(true, t, "{{initialism of|en|")
}

/// An inflection template is present, whether or not a lemma could be read
/// from it.
pub open spec fn has_inflection_tmpl(t: Seq<char>) -> bool {
    ||| contains_from(true, t, "{{plural of|en|"@, 0)
    ||| contains_from(true, t, "{{past tense of|en|"@, 0)
    ||| contains_from(true, t, "{{past participle of|en|"@, 0)
    ||| contains_from(true, t, "{{present participle of|en|"@, 0)
    ||| contains_from(true, t, "{{comparative of|en|"@, 0)
    ||| contains_from(true, t, "{{superlative of|en|"@, 0)
    ||| contains_from(true, t, "{{inflection of|en|"@, 0)
}

fn has_inflection_tmpl_exec(t: &[char]) -> (r: bool)
    ensures
        r == has_inflection_tmpl(t@),
{
    contains_lit(true, t, "{{plural of|en|") || contains_lit(true, t, "{{past tense of|en|")
        || contains_lit(true, t, "{{past participle of|en|") || contains_lit(
        true,
        t,
        "{{present participle of|en|",
    ) || contains_lit(true, t, "{{comparative of|en|") || contains_lit(
        true,
        t,
        "{{superlative of|en|",
    ) || contains_lit(true, t, "{{inflection of|en|")
}

/// An inflection category marker is present.
pub open spec fn has_inflection_cat(t: Seq<char>) -> bool {
    ||| contains_from(false, t, "Category:English verb forms"@, 0)
    ||| contains_from(false, t, "Category:English noun forms"@, 0)
    ||| contains_from(false, t, "Category:English adjective forms"@, 0)
    ||| contains_from(false, t, "Category:English adverb forms"@, 0)
    ||| contains_from(false, t, "Category:English plurals"@, 0)
}

fn has_inflection_cat_exec(t: &[char]) -> (r: bool)
    ensures
        r == has_inflection_cat(t@),
{
    contains_lit(false, t, "Category:English verb forms") || contains_lit(
        false,
        t,
        "Category:English noun forms",
    ) || contains_lit(false, t, "Category:English adjective forms") || contains_lit(
        false,
        t,
        "Category:English adverb forms",
    ) || contains_lit(false, t, "Category:English plurals")
}

/// A category membership marker is present (checked on the lowercased text).
pub open spec fn has_categories(t: Seq<char>) -> bool {
    contains_from(false, lower_of(t), "category:english"@, 0)
}

/// A core part-of-speech template is present.
pub open spec fn has_en_templates(t: Seq<char>) -> bool {
    ||| contains_from(false, t, "{{en-noun"@, 0)
    ||| contains_from(false, t, "{{en-verb"@, 0)
    ||| contains_from(false, t, "{{en-adj"@, 0)
    ||| contains_from(false, t, "{{en-adv"@, 0)
}

fn has_en_templates_exec(t: &[char]) -> (r: bool)
    ensures
        r == has_en_templates(t@),
{
    contains_lit(false, t, "{{en-noun") || contains_lit(false, t, "{{en-verb") || contains_lit(
        false,
        t,
        "{{en-adj",
    ) || contains_lit(false, t, "{{en-adv")
}

/// A definition-generating template is present.
pub open spec fn has_def_templates(t: Seq<char>) -> bool {
    ||| contains_from(true, t, "{{abbr of|en|"@, 0)
    ||| contains_from(true, t, "{{abbreviation of|en|"@, 0)
    ||| contains_from(true, t, "{{abbrev of|en|"@, 0)
    ||| contains_from(true, t, "{{initialism of|en|"@, 0)
    ||| contains_from(true, t, "{{acronym of|en|"@, 0)
    ||| contains_from(true, t, "{{alternative form of|en|"@, 0)
    ||| contains_from(true, t, "{{alt form|en|"@, 0)
    ||| contains_from(true, t, "{{alt sp|en|"@, 0)
    ||| contains_from(true, t, "{{plural of|en|"@, 0)
    ||| contains_from(true, t, "{{past tense of|en|"@, 0)
    ||| contains_from(true, t, "{{past participle of|en|"@, 0)
    ||| contains_from(true, t, "{{present participle of|en|"@, 0)
    ||| contains_from(true, t, "{{en-noun|en|"@, 0)
    ||| contains_from(true, t, "{{en-verb|en|"@, 0)
    ||| contains_from(true, t, "{{en-adj|en|"@, 0)
    ||| contains_from(true, t, "{{en-adv|en|"@, 0)
    ||| contains_from(true, t, "{{en-past of|en|"@, 0)
}

fn has_def_templates_exec(t: &[char]) -> (r: bool)
    ensures
        r == has_def_templates(t@),
{
    contains_lit(true, t, "{{abbr of|en|") || contains_lit(true, t, "{{abbreviation of|en|")
        || contains_lit(true, t, "{{abbrev of|en|") || contains_lit(true, t, "{{initialism of|en|")
        || contains_lit(true, t, "{{acronym of|en|") || contains_lit(
        true,
        t,
        "{{alternative form of|en|",
    ) || contains_lit(true, t, "{{alt form|en|") || contains_lit(true, t, "{{alt sp|en|")
        || contains_lit(true, t, "{{plural of|en|") || contains_lit(true, t, "{{past tense of|en|")
        || contains_lit(true, t, "{{past participle of|en|") || contains_lit(
        true,
        t,
        "{{present participle of|en|",
    ) || contains_lit(true, t, "{{en-noun|en|") || contains_lit(true, t, "{{en-verb|en|")
        || contains_lit(true, t, "{{en-adj|en|") || contains_lit(true, t, "{{en-adv|en|")
        || contains_lit(true, t, "{{en-past of|en|")
}

// ── lemma extraction ─────────────────────────────────────────────

/// The inflection templates tried for lemma extraction, in priority order;
/// each group lists the alternative openings of one template.
pub open spec fn inflection_pres() -> Seq<Seq<Seq<char>>> {
    seq![
        seq!["{{plural of|en|"@],
        seq!["{{past tense of|en|"@],
        seq!["{{past participle of|en|"@],
        seq!["{{present participle of|en|"@],
        seq!["{{en-third-person singular of|en|"@, "{{third-person singular of|en|"@],
        seq!["{{comparative of|en|"@],
        seq!["{{superlative of|en|"@],
        seq!["{{inflection of|en|"@],
    ]
}

/// The cleaned, lowercased lemma read from an inflection-template argument.
pub open spec fn lemma_of_capture(cap: Seq<char>) -> Seq<char> {
    lower_of(clean_lemma_spec(trim_spec(cap)))
}

/// The first valid lemma among the template groups, from group `k` on: the
/// cleaned text must be nonempty and pass the script predicate.
pub open spec fn lemma_from(t: Seq<char>, k: int) -> Option<Seq<char>>
    decreases inflection_pres().len() - k,
{
    if k < 0 || k >= inflection_pres().len() {
        None
    } else {
        match find_head(t, inflection_pres()[k], 0) {
            Some((cs, ce)) => {
                let lem = lemma_of_capture(t.subrange(cs, ce));
                if lem.len() > 0 && is_englishlike_spec(lem) {
                    Some(lem)
                } else {
                    lemma_from(t, k + 1)
                }
            },
            None => lemma_from(t, k + 1),
        }
    }
}

pub open spec fn lemma_spec(t: Seq<char>) -> Option<Seq<char>> {
    lemma_from(t, 0)
}

/// Extract the lemma (base form) from the first inflection template whose
/// cleaned argument is a valid headword.
pub fn extract_lemma(text: &str) -> (r: Option<String>)
    ensures
        match r {
            Some(s) => lemma_spec(text@) == Some(s@),
            None => lemma_spec(text@) is None,
        },
{
    let tv = chars_of(text);
    let t = tv.as_slice();
    let mut groups: Vec<Vec<Vec<char>>> = Vec::new();
    let g1 = {
        let mut g: Vec<Vec<char>> = Vec::new();
        g.push(chars_of("{{plural of|en|"));
        g
    };
    groups.push(g1);
    let g2 = {
        let mut g: Vec<Vec<char>> = Vec::new();
        g.push(chars_of("{{past tense of|en|"));
        g
    };
    groups.push(g2);
    let g3 = {
        let mut g: Vec<Vec<char>> = Vec::new();
        g.push(chars_of("{{past participle of|en|"));
        g
    };
    groups.push(g3);
    let g4 = {
        let mut g: Vec<Vec<char>> = Vec::new();
        g.push(chars_of("{{present participle of|en|"));
        g
    };
    groups.push(g4);
    let g5 = {
        let mut g: Vec<Vec<char>> = Vec::new();
        g.push(chars_of("{{en-third-person singular of|en|"));
        g.push(chars_of("{{third-person singular of|en|"));
        g
    };
    groups.push(g5);
    let g6 = {
        let mut g: Vec<Vec<char>> = Vec::new();
        g.push(chars_of("{{comparative of|en|"));
        g
    };
    groups.push(g6);
    let g7 = {
        let mut g: Vec<Vec<char>> = Vec::new();
        g.push(chars_of("{{superlative of|en|"));
        g
    };
    groups.push(g7);
    let g8 = {
        let mut g: Vec<Vec<char>> = Vec::new();
        g.push(chars_of("{{inflection of|en|"));
        g
    };
    groups.push(g8);
    proof {
        assert(groups.deep_view() =~~= inflection_pres());
    }
    let mut k: usize = 0;
    while k < groups.len()
        invariant
            0 <= k <= groups.len(),
            t@ == text@,
            groups.deep_view() == inflection_pres(),
            groups@.len() == inflection_pres().len(),
            lemma_from(t@, 0) == lemma_from(t@, k as int),
        decreases groups.len() - k,
    {
        proof {
            assert(groups.deep_view()[k as int] == groups@[k as int].deep_view());
        }
        match crate::sections::find_head_exec(t, &groups[k], 0) {
            Some((cs, ce)) => {
                let cap = slice_to_vec(t, cs, ce);
                let tr = trim_chars(cap.as_slice());
                let cleaned = crate::markup::clean_lemma(
                    string_from_chars(tr.as_slice()).as_str(),
                );
                let lem = lowercase(cleaned.as_str());
                let lemc = chars_of(lem.as_str());
                if lemc.len() > 0 && crate::script::is_englishlike(lem.as_str()) {
                    proof {
                        assert(lemma_from(t@, k as int) == Some(lem@));
                    }
                    return Some(lem);
                }
            },
            None => {},
        }
        k = k + 1;
    }
    None
}

// ── the per-sense record ─────────────────────────────────────────

/// Specification-level entry.
#[verifier::ext_equal]
pub struct EntryV {
    pub word: Seq<char>,
    pub pos: Seq<char>,
    pub word_count: nat,
    pub is_abbreviation: bool,
    pub is_inflected: bool,
    pub is_phrase: bool,
    pub syllables: Option<usize>,
    pub phrase_type: Option<Seq<char>>,
    pub lemma: Option<Seq<char>>,
    pub domain_tags: Seq<Seq<char>>,
    pub region_tags: Seq<Seq<char>>,
    pub register_tags: Seq<Seq<char>>,
    pub temporal_tags: Seq<Seq<char>>,
    pub spelling_region: Option<Seq<char>>,
    pub morphology: Option<MorphV>,
}

/// One output record: a single sense of a headword under one part of
/// speech, with word-level fields shared across the page's senses and
/// sense-level tag sets from its definition line.
#[derive(Debug, PartialEq)]
pub struct Entry {
    pub word: String,
    pub pos: String,
    pub word_count: usize,
    pub is_abbreviation: bool,
    pub is_inflected: bool,
    pub is_phrase: bool,
    pub syllables: Option<usize>,
    pub phrase_type: Option<String>,
    pub lemma: Option<String>,
    pub domain_tags: Vec<String>,
    pub region_tags: Vec<String>,
    pub register_tags: Vec<String>,
    pub temporal_tags: Vec<String>,
    pub spelling_region: Option<String>,
    pub morphology: Option<Morphology>,
}

pub open spec fn opt_str_v(o: Option<String>) -> Option<Seq<char>> {
    match o {
        Some(s) => Some(s@),
        None => None,
    }
}

impl Entry {
    pub open spec fn v(&self) -> EntryV {
        EntryV {
            word: self.word@,
            pos: self.pos@,
            word_count: self.word_count as nat,
            is_abbreviation: self.is_abbreviation,
            is_inflected: self.is_inflected,
            is_phrase: self.is_phrase,
            syllables: self.syllables,
            phrase_type: opt_str_v(self.phrase_type),
            lemma: opt_str_v(self.lemma),
            domain_tags: self.domain_tags.deep_view(),
            region_tags: self.region_tags.deep_view(),
            register_tags: self.register_tags.deep_view(),
            temporal_tags: self.temporal_tags.deep_view(),
            spelling_region: opt_str_v(self.spelling_region),
            morphology: match self.morphology {
                Some(m) => Some(m.v()),
                None => None,
            },
        }
    }
}

pub open spec fn entries_view(v: Seq<Entry>) -> Seq<EntryV> {
    Seq::new(v.len(), |i: int| v[i].v())
}

/// The word-level fields shared by all senses of one page.
pub struct WordV {
    pub word: Seq<char>,
    pub word_count: nat,
    pub is_abbreviation: bool,
    pub is_inflected: bool,
    pub is_phrase: bool,
    pub syllables: Option<usize>,
    pub phrase_type: Option<Seq<char>>,
    pub lemma: Option<Seq<char>>,
    pub spelling_region: Option<Seq<char>>,
    pub morphology: Option<MorphV>,
}

/// The word-level fields computed from the title and the target-language
/// text.
pub open spec fn word_v(cfg_spelling: Seq<(Seq<char>, Seq<char>)>, title: Seq<char>, et: Seq<char>) -> WordV {
    let word = trim_spec(title);
    let wc = word_count_spec(word);
    let lemma = lemma_spec(et);
    WordV {
        word,
        word_count: wc,
        is_abbreviation: has_abbrev(et),
        is_inflected: lemma is Some || has_inflection_tmpl(et) || has_inflection_cat(et),
        is_phrase: wc > 1,
        syllables: syllables_priority(rhymes_spec(et), ipa_spec(et), sylcat_spec(et), hyphenation_spec(et)),
        phrase_type: if wc > 1 {
            extract_phrase_type_spec(et)
        } else {
            None
        },
        lemma,
        spelling_region: spelling_from(et, 0, cfg_spelling),
        morphology: extract_morphology_spec(et),
    }
}

/// The entry made of word-level fields, one part-of-speech code and one
/// definition line's tag sets.
pub open spec fn mk_entry(
    w: WordV,
    pos: Seq<char>,
    def: Seq<char>,
    cfg: ExtractConfig,
) -> EntryV {
    let ls = labels_from(def, 0);
    EntryV {
        word: w.word,
        pos,
        word_count: w.word_count,
        is_abbreviation: w.is_abbreviation,
        is_inflected: w.is_inflected,
        is_phrase: w.is_phrase,
        syllables: w.syllables,
        phrase_type: w.phrase_type,
        lemma: w.lemma,
        domain_tags: sortset(dom_stream(ls, cfg.register_v(), cfg.temporal_v(), cfg.domain_v())),
        region_tags: sortset(
            region_stream(ls, cfg.register_v(), cfg.temporal_v(), cfg.domain_v(), cfg.region_v()),
        ),
        register_tags: sortset(reg_stream(ls, cfg.register_v())),
        temporal_tags: sortset(temp_stream(ls, cfg.register_v(), cfg.temporal_v())),
        spelling_region: w.spelling_region,
        morphology: w.morphology,
    }
}

/// The single fallback entry when no part-of-speech section exists but
/// secondary signals confirm target-language content.
pub open spec fn mk_unknown_entry(w: WordV) -> EntryV {
    EntryV {
        word: w.word,
        pos: "unknown"@,
        word_count: w.word_count,
        is_abbreviation: w.is_abbreviation,
        is_inflected: w.is_inflected,
        is_phrase: w.is_phrase,
        syllables: w.syllables,
        phrase_type: w.phrase_type,
        lemma: w.lemma,
        domain_tags: Seq::empty(),
        region_tags: Seq::empty(),
        register_tags: Seq::empty(),
        temporal_tags: Seq::empty(),
        spelling_region: w.spelling_region,
        morphology: w.morphology,
    }
}

/// The entries of one section's definition lines, in order.
pub open spec fn entries_of_defs(
    w: WordV,
    pos: Seq<char>,
    defs: Seq<Seq<char>>,
    cfg: ExtractConfig,
    j: int,
) -> Seq<EntryV>
    decreases defs.len() - j,
{
    if j < 0 || j >= defs.len() {
        Seq::empty()
    } else {
        seq![mk_entry(w, pos, defs[j], cfg)] + entries_of_defs(w, pos, defs, cfg, j + 1)
    }
}

/// The entries of all sections, in order.
pub open spec fn entries_of_sections(
    w: WordV,
    secs: Seq<(Seq<char>, Seq<Seq<char>>)>,
    cfg: ExtractConfig,
    i: int,
) -> Seq<EntryV>
    decreases secs.len() - i,
{
    if i < 0 || i >= secs.len() {
        Seq::empty()
    } else {
        entries_of_defs(w, secs[i].0, secs[i].1, cfg, 0) + entries_of_sections(
            w,
            secs,
            cfg,
            i + 1,
        )
    }
}

/// What page parsing yields: one entry per definition line of each mapped
/// part-of-speech section of the target-language text; a single `unknown`
/// entry when no section is found but secondary signals exist; nothing
/// otherwise.
pub open spec fn parse_page_spec(cfg: ExtractConfig, title: Seq<char>, text: Seq<char>) -> Seq<
    EntryV,
> {
    match english_section_spec(text) {
        None => Seq::empty(),
        Some(et) => {
            let w = word_v(cfg.spelling_v(), title, et);
            let secs = pos_sections_spec(et, cfg.pos_v());
            if secs.len() == 0 {
                if has_categories(et) || has_en_templates(et) || has_def_templates(et) {
                    seq![mk_unknown_entry(w)]
                } else {
                    Seq::empty()
                }
            } else {
                entries_of_sections(w, secs, cfg, 0)
            }
        },
    }
}

fn clone_opt_string(o: &Option<String>) -> (r: Option<String>)
    ensures
        opt_str_v(r) == opt_str_v(*o),
{
    match o {
        Some(s) => Some(s.clone()),
        None => None,
    }
}

/// Copy a morphology record.
pub fn clone_morphology(m: &Morphology) -> (r: Morphology)
    ensures
        r.v() == m.v(),
{
    let r = Morphology {
        morph_type: m.morph_type.clone(),
        base: clone_opt_string(&m.base),
        components: crate::labels::copy_strings(&m.components),
        prefixes: crate::labels::copy_strings(&m.prefixes),
        suffixes: crate::labels::copy_strings(&m.suffixes),
        interfixes: crate::labels::copy_strings(&m.interfixes),
        is_compound: m.is_compound,
        etymology_template: m.etymology_template.clone(),
    };
    proof {
        assert(r.v() =~~= m.v());
    }
    r
}

fn clone_opt_morph(o: &Option<Morphology>) -> (r: Option<Morphology>)
    ensures
        match (r, o) {
            (Some(a), Some(b)) => a.v() == b.v(),
            (None, None) => true,
            _ => false,
        },
{
    match o {
        Some(m) => Some(clone_morphology(m)),
        None => None,
    }
}

/// Parse a page into entries, one per sense.
pub fn parse_page(cfg: &ExtractConfig, title: &str, text: &str) -> (r: Vec<Entry>)
    ensures
        entries_view(r@) == parse_page_spec(*cfg, title@, text@),
{
    let english_text = match crate::sections::extract_english_section(text) {
        Some(s) => s,
        None => {
            let r: Vec<Entry> = Vec::new();
            assert(entries_view(r@) =~= parse_page_spec(*cfg, title@, text@));
            return r;
        },
    };
    let et = english_text.as_str();
    let ghost etv = english_text@;
    let word = {
        let tc = chars_of(title);
        let tr = trim_chars(tc.as_slice());
        string_from_chars(tr.as_slice())
    };
    let wc = word_count(chars_of(word.as_str()).as_slice());
    let is_phrase = wc > 1;
    let phrase_type = if wc > 1 {
        crate::sections::extract_phrase_type(et)
    } else {
        None
    };
    let rhymes = crate::syllables::extract_syllable_count_from_rhymes(et);
    let ipa = crate::syllables::extract_syllable_count_from_ipa(et);
    let cat = crate::syllables::extract_syllable_count_from_categories(et);
    let hyph = crate::syllables::extract_syllable_count_from_hyphenation(et);
    let syllables = if rhymes.is_some() {
        rhymes
    } else if ipa.is_some() {
        ipa
    } else if cat.is_some() {
        cat
    } else {
        hyph
    };
    let morphology = crate::morphology::extract_morphology(et);
    let etc = chars_of(et);
    let is_abbreviation = has_abbrev_exec(etc.as_slice());
    let lemma = extract_lemma(et);
    let is_inflected = lemma.is_some() || has_inflection_tmpl_exec(etc.as_slice())
        || has_inflection_cat_exec(etc.as_slice());
    let spelling_region = crate::labels::extract_spelling_region(et, cfg);
    let ghost w = word_v(cfg.spelling_v(), title@, etv);
    proof {
        assert(w.word == word@);
        assert(w.word_count == wc as nat);
        assert(w.is_phrase == is_phrase);
        assert(w.phrase_type == opt_str_v(phrase_type));
        assert(w.syllables == syllables);
        assert(w.is_abbreviation == is_abbreviation);
        assert(w.lemma == opt_str_v(lemma));
        assert(w.is_inflected == is_inflected);
        assert(w.spelling_region == opt_str_v(spelling_region));
    }
    let sections = crate::sections::parse_pos_sections(et, cfg);
    let ghost secs = pos_sections_spec(etv, cfg.pos_v());
    if sections.len() == 0 {
        let low = lowercase(et);
        let lowc = chars_of(low.as_str());
        let has_cats = contains_lit(false, lowc.as_slice(), "category:english");
        let has_en = has_en_templates_exec(etc.as_slice());
        let has_defs = has_def_templates_exec(etc.as_slice());
        if has_cats || has_en || has_defs {
            let e = Entry {
                word,
                pos: String::from_str("unknown"),
                word_count: wc,
                is_abbreviation,
                is_inflected,
                is_phrase,
                syllables,
                phrase_type,
                lemma,
                domain_tags: Vec::new(),
                region_tags: Vec::new(),
                register_tags: Vec::new(),
                temporal_tags: Vec::new(),
                spelling_region,
                morphology,
            };
            let mut r: Vec<Entry> = Vec::new();
            proof {
                assert(e.v() =~~= mk_unknown_entry(w));
            }
            r.push(e);
            proof {
                assert(entries_view(r@) =~= seq![mk_unknown_entry(w)]);
            }
            return r;
        }
        let r: Vec<Entry> = Vec::new();
        assert(entries_view(r@) =~= parse_page_spec(*cfg, title@, text@));
        return r;
    }
    let mut out: Vec<Entry> = Vec::new();
    let mut i: usize = 0;
    proof {
        assert(crate::sections::sections_view(sections@) == secs);
    }
    while i < sections.len()
        invariant
            0 <= i <= sections.len(),
            crate::sections::sections_view(sections@) == secs,
            secs.len() == sections@.len(),
            secs.len() > 0,
            w == word_v(cfg.spelling_v(), title@, etv),
            w.word == word@,
            w.word_count == wc as nat,
            w.is_phrase == is_phrase,
            w.phrase_type == opt_str_v(phrase_type),
            w.syllables == syllables,
            w.is_abbreviation == is_abbreviation,
            w.lemma == opt_str_v(lemma),
            w.is_inflected == is_inflected,
            w.spelling_region == opt_str_v(spelling_region),
            ({
                match (morphology, w.morphology) {
                    (Some(m), Some(mv)) => m.v() == mv,
                    (None, None) => true,
                    _ => false,
                }
            }),
            entries_view(out@) + entries_of_sections(w, secs, *cfg, i as int)
                =~= entries_of_sections(w, secs, *cfg, 0),
        decreases sections.len() - i,
    {
        proof {
            assert(crate::sections::sections_view(sections@)[i as int] == sections@[i as int].v());
        }
        let ghost defs = secs[i as int].1;
        let mut j: usize = 0;
        while j < sections[i].definitions.len()
            invariant
                0 <= i < sections.len(),
                0 <= j <= sections@[i as int].definitions@.len(),
                crate::sections::sections_view(sections@) == secs,
                secs.len() == sections@.len(),
                defs == secs[i as int].1,
                defs.len() == sections@[i as int].definitions@.len(),
                sections@[i as int].v() == secs[i as int],
                w == word_v(cfg.spelling_v(), title@, etv),
                w.word == word@,
                w.word_count == wc as nat,
                w.is_phrase == is_phrase,
                w.phrase_type == opt_str_v(phrase_type),
                w.syllables == syllables,
                w.is_abbreviation == is_abbreviation,
                w.lemma == opt_str_v(lemma),
                w.is_inflected == is_inflected,
                w.spelling_region == opt_str_v(spelling_region),
                ({
                    match (morphology, w.morphology) {
                        (Some(m), Some(mv)) => m.v() == mv,
                        (None, None) => true,
                        _ => false,
                    }
                }),
                entries_view(out@) + entries_of_defs(w, secs[i as int].0, defs, *cfg, j as int)
                    + entries_of_sections(w, secs, *cfg, i + 1) =~= entries_of_sections(
                    w,
                    secs,
                    *cfg,
                    0,
                ),
            decreases sections@[i as int].definitions@.len() - j,
        {
            let def = &sections[i].definitions[j];
            let (register_tags, region_tags, domain_tags, temporal_tags) =
                crate::labels::extract_labels_from_line(def.as_str(), cfg);
            let e = Entry {
                word: word.clone(),
                pos: sections[i].pos.clone(),
                word_count: wc,
                is_abbreviation,
                is_inflected,
                is_phrase,
                syllables,
                phrase_type: clone_opt_string(&phrase_type),
                lemma: clone_opt_string(&lemma),
                domain_tags,
                region_tags,
                register_tags,
                temporal_tags,
                spelling_region: clone_opt_string(&spelling_region),
                morphology: clone_opt_morph(&morphology),
            };
            let ghost prev = entries_view(out@);
            proof {
                assert(sections@[i as int].definitions.deep_view()[j as int] == sections@[
                    i as int].definitions@[j as int]@);
                assert(defs[j as int] == sections@[i as int].definitions@[j as int]@);
                assert(e.v() =~~= mk_entry(w, secs[i as int].0, defs[j as int], *cfg));
            }
            out.push(e);
            proof {
                assert(entries_view(out@) =~= prev.push(
                    mk_entry(w, secs[i as int].0, defs[j as int], *cfg),
                ));
                assert(entries_of_defs(w, secs[i as int].0, defs, *cfg, j as int) =~= seq![
                    mk_entry(w, secs[i as int].0, defs[j as int], *cfg),
                ] + entries_of_defs(w, secs[i as int].0, defs, *cfg, j + 1));
            }
            j = j + 1;
        }
        proof {
            assert(entries_of_defs(w, secs[i as int].0, defs, *cfg, defs.len() as int)
                =~= Seq::<EntryV>::empty());
            assert(entries_of_sections(w, secs, *cfg, i as int) =~= entries_of_defs(
                w,
                secs[i as int].0,
                defs,
                *cfg,
                0,
            ) + entries_of_sections(w, secs, *cfg, i + 1));
        }
        i = i + 1;
    }
    proof {
        assert(entries_of_sections(w, secs, *cfg, secs.len() as int) =~= Seq::<EntryV>::empty());
        assert(entries_view(out@) =~= entries_of_sections(w, secs, *cfg, 0));
    }
    out
}


/// Determinism law: the parsed entries are a function of the configuration,
/// title and text alone, so two runs on identical input yield identical
/// output.
pub proof fn lemma_parse_page_deterministic(
    cfg: ExtractConfig,
    title: Seq<char>,
    text: Seq<char>,
    r1: Seq<EntryV>,
    r2: Seq<EntryV>,
)
    requires
        r1 == parse_page_spec(cfg, title, text),
        r2 == parse_page_spec(cfg, title, text),
    ensures
        r1 == r2,
{
}

} // verus!
