use wiktionary_scanner::wikitext::{parse_template_params, Wikilink, WikitextParser};

// ── Wikilink struct ──────────────────────────────────────────────

#[test]
fn wikilink_text_returns_display_when_present() {
    let wl = Wikilink {
        target: "isle".to_string(),
        anchor: None,
        display: Some("Isle".to_string()),
    };
    assert_eq!(wl.text(), "Isle");
}

#[test]
fn wikilink_text_returns_target_when_no_display() {
    let wl = Wikilink {
        target: "word".to_string(),
        anchor: None,
        display: None,
    };
    assert_eq!(wl.text(), "word");
}

#[test]
fn wikilink_anchor_preserved() {
    let wl = Wikilink {
        target: "Man".to_string(),
        anchor: Some("Etymology 2".to_string()),
        display: Some("Man".to_string()),
    };
    assert_eq!(wl.anchor, Some("Etymology 2".to_string()));
    assert_eq!(wl.text(), "Man");
}

// ── Basic parameter parsing ──────────────────────────────────────

#[test]
fn simple_params() {
    let result = parse_template_params("en|word|suffix");
    assert_eq!(result, vec!["en", "word", "suffix"]);
}

#[test]
fn empty_string() {
    let result = parse_template_params("");
    assert!(result.is_empty() || result == vec![""]);
}

#[test]
fn single_param() {
    let result = parse_template_params("word");
    assert_eq!(result, vec!["word"]);
}

#[test]
fn whitespace_trimming() {
    let result = parse_template_params("  en  |  word  |  suffix  ");
    assert_eq!(result, vec!["en", "word", "suffix"]);
}

// ── Wikilink parsing ─────────────────────────────────────────────

#[test]
fn simple_wikilink() {
    let result = parse_template_params("[[cat]]");
    assert_eq!(result, vec!["cat"]);
}

#[test]
fn wikilink_with_display() {
    let result = parse_template_params("[[isle|Isle]]");
    assert_eq!(result, vec!["Isle"]);
}

#[test]
fn wikilink_with_anchor() {
    let result = parse_template_params("[[Man#Etymology 2]]");
    assert_eq!(result, vec!["Man"]);
}

#[test]
fn wikilink_with_anchor_and_display() {
    let result = parse_template_params("[[Man#Etymology 2|Man]]");
    assert_eq!(result, vec!["Man"]);
}

#[test]
fn isle_of_man_example() {
    // The motivating example: {{af|en|[[isle|Isle]]|of|[[Man#Etymology 2|Man]]}}
    let result = parse_template_params("en|[[isle|Isle]]|of|[[Man#Etymology 2|Man]]");
    assert_eq!(result, vec!["en", "Isle", "of", "Man"]);
}

#[test]
fn multiple_wikilinks() {
    let result = parse_template_params("[[a|A]]|[[b|B]]|[[c|C]]");
    assert_eq!(result, vec!["A", "B", "C"]);
}

#[test]
fn mixed_wikilinks_and_text() {
    let result = parse_template_params("prefix|[[word|Word]]|suffix");
    assert_eq!(result, vec!["prefix", "Word", "suffix"]);
}

// ── Nested template handling ─────────────────────────────────────

#[test]
fn nested_template_discarded() {
    let result = parse_template_params("foo|{{q|qualifier}}|bar");
    assert_eq!(result, vec!["foo", "", "bar"]);
}

#[test]
fn deeply_nested_templates() {
    let result = parse_template_params("foo|{{a|{{b|{{c|d}}}}}}|bar");
    assert_eq!(result, vec!["foo", "", "bar"]);
}

#[test]
fn template_with_wikilink_inside() {
    let result = parse_template_params("foo|{{m|en|[[word]]}}|bar");
    assert_eq!(result, vec!["foo", "", "bar"]);
}

#[test]
fn wikilink_after_template() {
    let result = parse_template_params("{{info}}|[[word|Word]]");
    assert_eq!(result, vec!["", "Word"]);
}

// ── Multi-byte text handling ─────────────────────────────────────

#[test]
fn latin_extended_characters() {
    let result = parse_template_params("nāsus|-o-");
    assert_eq!(result, vec!["nāsus", "-o-"]);
}

#[test]
fn alphabeticus_example() {
    let result = parse_template_params("lang1=la|alphabēticus|-al");
    assert_eq!(result, vec!["lang1=la", "alphabēticus", "-al"]);
}

#[test]
fn greek_characters() {
    let result = parse_template_params("en|λόγος");
    assert_eq!(result, vec!["en", "λόγος"]);
}

#[test]
fn cyrillic_characters() {
    let result = parse_template_params("en|слово");
    assert_eq!(result, vec!["en", "слово"]);
}

#[test]
fn mixed_scripts_in_wikilink() {
    let result = parse_template_params("[[word|café]]");
    assert_eq!(result, vec!["café"]);
}

#[test]
fn utf8_in_anchor() {
    let result = parse_template_params("[[page#Étymologie|display]]");
    assert_eq!(result, vec!["display"]);
}

// ── Edge cases ───────────────────────────────────────────────────

#[test]
fn unclosed_wikilink() {
    let result = parse_template_params("[[word");
    assert_eq!(result, vec!["word"]);
}

#[test]
fn unclosed_template() {
    let result = parse_template_params("{{template");
    assert_eq!(result, vec![""]);
}

#[test]
fn empty_wikilink() {
    let result = parse_template_params("[[]]");
    assert_eq!(result, vec![""]);
}

#[test]
fn consecutive_pipes() {
    let result = parse_template_params("a||b");
    assert_eq!(result, vec!["a", "", "b"]);
}

#[test]
fn wikilink_with_only_anchor() {
    let result = parse_template_params("[[#section]]");
    // Target is empty, anchor is "section", no display
    assert_eq!(result, vec![""]);
}

#[test]
fn wikilink_with_empty_display() {
    let result = parse_template_params("[[word|]]");
    assert_eq!(result, vec![""]);
}

#[test]
fn special_characters_in_text() {
    let result = parse_template_params("word's|don't|it-self");
    assert_eq!(result, vec!["word's", "don't", "it-self"]);
}

// ── Real-world examples ──────────────────────────────────────────

#[test]
fn batsman_compound() {
    // batsman: {{compound|en|bat|-s-|-man}}
    let result = parse_template_params("bat|-s-|-man");
    assert_eq!(result, vec!["bat", "-s-", "-man"]);
}

#[test]
fn affix_with_link() {
    let result = parse_template_params("[[un-]]|[[happy]]");
    assert_eq!(result, vec!["un-", "happy"]);
}

#[test]
fn suffix_template() {
    let result = parse_template_params("beauty|-ful");
    assert_eq!(result, vec!["beauty", "-ful"]);
}

#[test]
fn prefix_template() {
    let result = parse_template_params("un-|happy");
    assert_eq!(result, vec!["un-", "happy"]);
}

#[test]
fn confix_template() {
    let result = parse_template_params("bio-|chemistry|-ist");
    assert_eq!(result, vec!["bio-", "chemistry", "-ist"]);
}

#[test]
fn pictograph_style() {
    // Pattern like pictograph: {{affix|en|la:pictus|-o-|graph}}
    let result = parse_template_params("la:pictus|-o-|graph");
    assert_eq!(result, vec!["la:pictus", "-o-", "graph"]);
}

// ── Parser internals ─────────────────────────────────────────────

#[test]
fn parser_peek_multibyte() {
    let parser = WikitextParser::new("café");
    assert_eq!(parser.peek(1), "c");
    assert_eq!(parser.peek(4), "café");
}

#[test]
fn parser_consume_multibyte() {
    let mut parser = WikitextParser::new("café");
    assert_eq!(parser.consume(1), "c");
    assert_eq!(parser.consume(1), "a");
    assert_eq!(parser.consume(1), "f");
    assert_eq!(parser.consume(1), "é");
    assert!(parser.at_end());
}

#[test]
fn parser_wikilink_all_parts() {
    let mut parser = WikitextParser::new("[[Man#Etymology 2|Man]]");
    let wl = parser.parse_wikilink();
    assert_eq!(wl.target, "Man");
    assert_eq!(wl.anchor, Some("Etymology 2".to_string()));
    assert_eq!(wl.display, Some("Man".to_string()));
}

#[test]
fn parser_template_simple() {
    let mut parser = WikitextParser::new("{{m|en|word}}");
    let tmpl = parser.parse_template();
    assert_eq!(tmpl.name, "m");
    assert_eq!(tmpl.params, vec!["en", "word"]);
}

#[test]
fn parser_template_nested() {
    let mut parser = WikitextParser::new("{{outer|{{inner|a|b}}}}");
    let tmpl = parser.parse_template();
    assert_eq!(tmpl.name, "outer");
    // Inner template is parsed but its text is discarded
    assert_eq!(tmpl.params, vec![""]);
}
