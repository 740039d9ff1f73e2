use wiktionary_scanner::config::ExtractConfig;
use wiktionary_scanner::entry::{extract_lemma, parse_page};
use wiktionary_scanner::labels::{extract_labels_from_line, extract_spelling_region};
use wiktionary_scanner::markup::{clean_lemma, strip_wikilinks};
use wiktionary_scanner::script::{classify_case, is_englishlike, CaseForm};
use wiktionary_scanner::sections::{
    extract_english_section, extract_phrase_type, parse_pos_sections,
};
use wiktionary_scanner::syllables::{
    count_syllables_from_ipa, extract_syllable_count_from_categories,
    extract_syllable_count_from_hyphenation, extract_syllable_count_from_ipa,
    extract_syllable_count_from_rhymes, extract_syllable_validation,
};

fn test_config() -> ExtractConfig {
    ExtractConfig {
        pos_map: vec![
            ("noun".to_string(), "noun".to_string()),
            ("verb".to_string(), "verb".to_string()),
            ("adjective".to_string(), "adj".to_string()),
            ("proper noun".to_string(), "proper".to_string()),
        ],
        register_labels: vec!["slang".to_string(), "informal".to_string()],
        temporal_labels: vec!["archaic".to_string(), "obsolete".to_string()],
        domain_labels: vec!["medicine".to_string(), "nautical".to_string()],
        region_labels: vec![
            ("british".to_string(), "en-GB".to_string()),
            ("us".to_string(), "en-US".to_string()),
        ],
        spelling_labels: vec![
            ("american spelling".to_string(), "en-US".to_string()),
            ("british spelling".to_string(), "en-GB".to_string()),
        ],
        special_prefixes: vec![
            "Wiktionary:".to_string(),
            "Template:".to_string(),
            "Category:".to_string(),
        ],
    }
}

// ── script predicate ─────────────────────────────────────────────

#[test]
fn englishlike_accepts_plain_word() {
    assert!(is_englishlike("happiness"));
}

#[test]
fn englishlike_accepts_latin_extended() {
    assert!(is_englishlike("café"));
}

#[test]
fn englishlike_composes_before_checking() {
    // a combining acute would be rejected on its own; canonical composition
    // folds it into the preceding letter first
    assert!(is_englishlike("cafe\u{0301}"));
}

#[test]
fn englishlike_rejects_forbidden_characters() {
    assert!(!is_englishlike("&"));
    assert!(!is_englishlike(";"));
    assert!(!is_englishlike("<"));
    assert!(!is_englishlike(">"));
    assert!(!is_englishlike("a&b"));
}

#[test]
fn englishlike_rejects_tokens_without_letters() {
    assert!(!is_englishlike("123"));
    assert!(!is_englishlike("..."));
    assert!(!is_englishlike(""));
    assert!(!is_englishlike("   "));
}

#[test]
fn englishlike_rejects_foreign_scripts() {
    assert!(!is_englishlike("λόγος"));
    assert!(!is_englishlike("слово"));
}

#[test]
fn englishlike_rejects_other_whitespace() {
    assert!(!is_englishlike("a\tb"));
    assert!(!is_englishlike("a\u{00a0}b"));
}

#[test]
fn englishlike_allows_listed_punctuation() {
    assert!(is_englishlike("don't"));
    assert!(is_englishlike("mother-in-law"));
    assert!(is_englishlike("e.g."));
}

// ── case classification ──────────────────────────────────────────

#[test]
fn classify_case_forms() {
    assert_eq!(classify_case("sat"), CaseForm::Lower);
    assert_eq!(classify_case("Sat"), CaseForm::Title);
    assert_eq!(classify_case("SAT"), CaseForm::Upper);
    assert_eq!(classify_case("iPhone"), CaseForm::Mixed);
    assert_eq!(classify_case("1234"), CaseForm::Lower);
}

// ── language section ─────────────────────────────────────────────

#[test]
fn english_section_cut_at_next_language() {
    let text = "==English==\nbody here\n==French==\nfrench text";
    let sec = extract_english_section(text).unwrap();
    assert!(sec.contains("body here"));
    assert!(!sec.contains("french text"));
}

#[test]
fn english_section_keeps_same_language_subsections() {
    let text = "==English==\nfirst\n===Etymology 2===\nsecond\n==German==\nx";
    let sec = extract_english_section(text).unwrap();
    assert!(sec.contains("first"));
    assert!(sec.contains("second"));
    assert!(!sec.contains("==German=="));
}

#[test]
fn english_section_absent() {
    assert!(extract_english_section("==French==\nrien").is_none());
}

#[test]
fn english_section_case_insensitive_header() {
    assert!(extract_english_section("== ENGLISH ==\nbody").is_some());
}

// ── sections and definitions ─────────────────────────────────────

#[test]
fn pos_sections_collect_definition_lines() {
    let cfg = test_config();
    let text = "===Noun===\n# First sense.\n# Second sense.\n## sub sense ignored\n===Verb===\n# To act.\n";
    let secs = parse_pos_sections(text, &cfg);
    assert_eq!(secs.len(), 2);
    assert_eq!(secs[0].pos, "noun");
    assert_eq!(
        secs[0].definitions,
        vec!["First sense.", "Second sense."]
    );
    assert_eq!(secs[1].pos, "verb");
    assert_eq!(secs[1].definitions, vec!["To act."]);
}

#[test]
fn pos_sections_ignore_unmapped_headers() {
    let cfg = test_config();
    let text = "===Pronunciation===\n# not a sense\n";
    let secs = parse_pos_sections(text, &cfg);
    assert_eq!(secs.len(), 0);
}

#[test]
fn pos_sections_drop_sections_without_definitions() {
    let cfg = test_config();
    let text = "===Noun===\nno definition lines here\n";
    assert_eq!(parse_pos_sections(text, &cfg).len(), 0);
}

#[test]
fn pos_header_case_and_spacing_normalized() {
    let cfg = test_config();
    let text = "===  Proper   NOUN  ===\n# A name.\n";
    let secs = parse_pos_sections(text, &cfg);
    assert_eq!(secs.len(), 1);
    assert_eq!(secs[0].pos, "proper");
}

// ── labels ───────────────────────────────────────────────────────

#[test]
fn labels_classified_into_vocabularies() {
    let cfg = test_config();
    let (register, region, domain, temporal) =
        extract_labels_from_line("{{lb|en|slang|archaic|medicine|british}} a sense", &cfg);
    assert_eq!(register, vec!["slang"]);
    assert_eq!(region, vec!["en-GB"]);
    assert_eq!(domain, vec!["medicine"]);
    assert_eq!(temporal, vec!["archaic"]);
}

#[test]
fn labels_lowercased_before_lookup() {
    let cfg = test_config();
    let (register, _, _, _) = extract_labels_from_line("{{lb|en|SLANG}}", &cfg);
    assert_eq!(register, vec!["slang"]);
}

#[test]
fn labels_deduplicated_and_sorted() {
    let cfg = test_config();
    let (register, _, _, _) =
        extract_labels_from_line("{{lb|en|slang|informal|slang}}", &cfg);
    assert_eq!(register, vec!["informal", "slang"]);
}

#[test]
fn labels_unknown_ignored() {
    let cfg = test_config();
    let (register, region, domain, temporal) =
        extract_labels_from_line("{{lb|en|mysterious}}", &cfg);
    assert!(register.is_empty() && region.is_empty() && domain.is_empty() && temporal.is_empty());
}

#[test]
fn spelling_region_from_head_line() {
    let cfg = test_config();
    let r = extract_spelling_region("{{tlb|en|American spelling}}", &cfg);
    assert_eq!(r, Some("en-US".to_string()));
}

#[test]
fn spelling_region_absent() {
    let cfg = test_config();
    assert_eq!(extract_spelling_region("{{tlb|en|rare}}", &cfg), None);
}

// ── phrase type ──────────────────────────────────────────────────

#[test]
fn phrase_type_from_header() {
    assert_eq!(
        extract_phrase_type("===Idiom===\n# meaning"),
        Some("idiom".to_string())
    );
}

#[test]
fn phrase_type_saying_maps_to_proverb() {
    assert_eq!(
        extract_phrase_type("===Saying===\n# meaning"),
        Some("proverb".to_string())
    );
}

#[test]
fn phrase_type_from_head_template() {
    assert_eq!(
        extract_phrase_type("{{head|en|verb phrase}}"),
        Some("verb phrase".to_string())
    );
}

#[test]
fn phrase_type_from_category() {
    assert_eq!(
        extract_phrase_type("[[Category:English proverbs]]"),
        Some("proverb".to_string())
    );
}

#[test]
fn phrase_type_none() {
    assert_eq!(extract_phrase_type("===Noun===\n# thing"), None);
}

// ── syllables ────────────────────────────────────────────────────

#[test]
fn syllables_from_rhymes_annotation() {
    let r = extract_syllable_count_from_rhymes("{{rhymes|en|-æpinəs|s=3}}");
    assert_eq!(r, Some(3));
}

#[test]
fn syllables_from_rhymes_absent_marker() {
    assert_eq!(extract_syllable_count_from_rhymes("{{rhymes|en|-æt}}"), None);
}

#[test]
fn syllables_from_category() {
    let r = extract_syllable_count_from_categories("[[Category:English 2-syllable words]]");
    assert_eq!(r, Some(2));
}

#[test]
fn syllables_from_hyphenation() {
    let r = extract_syllable_count_from_hyphenation("{{hyphenation|en|hap|pi|ness}}");
    assert_eq!(r, Some(3));
}

#[test]
fn syllables_hyphenation_single_long_segment_discarded() {
    assert_eq!(
        extract_syllable_count_from_hyphenation("{{hyph|en|happiness}}"),
        None
    );
}

#[test]
fn syllables_hyphenation_single_short_segment_kept() {
    assert_eq!(extract_syllable_count_from_hyphenation("{{hyph|en|cat}}"), Some(1));
}

#[test]
fn syllables_from_ipa_counts_nuclei() {
    assert_eq!(count_syllables_from_ipa("ˈhæpinəs"), 3);
    assert_eq!(count_syllables_from_ipa("kæt"), 1);
}

#[test]
fn syllables_ipa_diphthong_counts_once() {
    // the off-glide after a vowel does not start a new syllable
    assert_eq!(count_syllables_from_ipa("taɪm"), 1);
}

#[test]
fn syllables_ipa_syllabic_consonant_counts() {
    assert_eq!(count_syllables_from_ipa("bɒtl\u{0329}"), 2);
}

#[test]
fn syllables_ipa_template() {
    assert_eq!(
        extract_syllable_count_from_ipa("{{IPA|en|/ˈhæpinəs/}}"),
        Some(3)
    );
}

#[test]
fn syllable_validation_priority_and_disagreement() {
    let text = "==English==\n{{rhymes|en|-x|s=2}}\n{{hyphenation|en|aa|bb|cc}}\n";
    let v = extract_syllable_validation("w", text).unwrap();
    assert_eq!(v.rhymes, Some(2));
    assert_eq!(v.hyphenation, Some(3));
    assert_eq!(v.final_value, Some(2));
    assert!(v.has_disagreement);
}

#[test]
fn syllable_validation_none_without_signals() {
    assert!(extract_syllable_validation("w", "==English==\nplain text").is_none());
}

// ── lemma cleaning and extraction ────────────────────────────────

#[test]
fn clean_lemma_strips_anchor() {
    assert_eq!(clean_lemma("after#noun"), "after");
}

#[test]
fn clean_lemma_resolves_links() {
    assert_eq!(clean_lemma("[[cat|cats]]"), "cat");
    assert_eq!(clean_lemma("[[:en:word]]"), "word");
}

#[test]
fn clean_lemma_drops_templates() {
    assert_eq!(clean_lemma("word {{qualifier|rare}}"), "word");
}

#[test]
fn strip_wikilinks_takes_targets() {
    assert_eq!(strip_wikilinks("[[word]]"), "word");
    assert_eq!(strip_wikilinks("[[word|display]]"), "word");
    assert_eq!(strip_wikilinks("plain"), "plain");
}

#[test]
fn lemma_from_inflection_template() {
    assert_eq!(
        extract_lemma("{{plural of|en|cat}}"),
        Some("cat".to_string())
    );
}

#[test]
fn lemma_lowercased_and_validated() {
    assert_eq!(
        extract_lemma("{{past tense of|en|Run}}"),
        Some("run".to_string())
    );
    // an argument that fails the script predicate yields nothing
    assert_eq!(extract_lemma("{{plural of|en|λόγος}}"), None);
}

// ── whole-page scenarios ─────────────────────────────────────────

#[test]
fn happiness_page_yields_suffixed_sense() {
    let cfg = test_config();
    let text = "==English==\n===Etymology===\n{{suffix|en|happy|ness}}\n===Noun===\n# The state of being happy.\n";
    let entries = parse_page(&cfg, "happiness", text);
    assert_eq!(entries.len(), 1);
    let e = &entries[0];
    assert_eq!(e.word, "happiness");
    assert_eq!(e.pos, "noun");
    let m = e.morphology.as_ref().unwrap();
    assert_eq!(m.morph_type, "suffixed");
    assert_eq!(m.base, Some("happy".to_string()));
    assert_eq!(m.components, vec!["happy", "-ness"]);
}

#[test]
fn parse_page_is_deterministic() {
    let cfg = test_config();
    let text = "==English==\n===Etymology===\n{{compound|en|sun|flower}}\n===Noun===\n# A plant. {{lb|en|slang}}\n# Another sense.\n";
    let first = parse_page(&cfg, "sunflower", text);
    let second = parse_page(&cfg, "sunflower", text);
    assert_eq!(first, second);
}

#[test]
fn parse_page_one_entry_per_definition() {
    let cfg = test_config();
    let text = "==English==\n===Noun===\n# One.\n# Two.\n===Verb===\n# Three.\n";
    let entries = parse_page(&cfg, "w", text);
    assert_eq!(entries.len(), 3);
    assert_eq!(entries[0].pos, "noun");
    assert_eq!(entries[2].pos, "verb");
}

#[test]
fn parse_page_unknown_pos_fallback() {
    let cfg = test_config();
    let text = "==English==\n{{en-noun}}\nno definition lines\n";
    let entries = parse_page(&cfg, "w", text);
    assert_eq!(entries.len(), 1);
    assert_eq!(entries[0].pos, "unknown");
}

#[test]
fn parse_page_nothing_without_signals() {
    let cfg = test_config();
    let entries = parse_page(&cfg, "w", "==English==\njust prose\n");
    assert_eq!(entries.len(), 0);
}

#[test]
fn parse_page_word_level_fields() {
    let cfg = test_config();
    let text = "==English==\n{{rhymes|en|-x|s=2}}\n===Noun===\n# A thing.\n";
    let entries = parse_page(&cfg, "two words", text);
    assert_eq!(entries.len(), 1);
    let e = &entries[0];
    assert_eq!(e.word_count, 2);
    assert!(e.is_phrase);
    assert_eq!(e.syllables, Some(2));
}

#[test]
fn parse_page_inflected_with_lemma() {
    let cfg = test_config();
    let text = "==English==\n===Noun===\n# {{plural of|en|cat}}\n";
    let entries = parse_page(&cfg, "cats", text);
    assert_eq!(entries.len(), 1);
    assert!(entries[0].is_inflected);
    assert_eq!(entries[0].lemma, Some("cat".to_string()));
}
