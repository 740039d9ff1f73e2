use wiktionary_scanner::morphology::{classify_morphology, extract_morphology};

// ── classify_morphology ──────────────────────────────────────────

#[test]
fn classify_suffixed() {
    let result = classify_morphology(
        vec!["happy".to_string(), "-ness".to_string()],
        "{{test}}".to_string(),
    );
    assert_eq!(result.morph_type, "suffixed");
    assert_eq!(result.base, Some("happy".to_string()));
    assert_eq!(result.suffixes, vec!["-ness"]);
    assert!(!result.is_compound);
}

#[test]
fn classify_prefixed() {
    let result = classify_morphology(
        vec!["un-".to_string(), "happy".to_string()],
        "{{test}}".to_string(),
    );
    assert_eq!(result.morph_type, "prefixed");
    assert_eq!(result.base, Some("happy".to_string()));
    assert_eq!(result.prefixes, vec!["un-"]);
    assert!(!result.is_compound);
}

#[test]
fn classify_affixed() {
    let result = classify_morphology(
        vec!["un-".to_string(), "break".to_string(), "-able".to_string()],
        "{{test}}".to_string(),
    );
    assert_eq!(result.morph_type, "affixed");
    assert_eq!(result.base, Some("break".to_string()));
    assert_eq!(result.prefixes, vec!["un-"]);
    assert_eq!(result.suffixes, vec!["-able"]);
    assert!(!result.is_compound);
}

#[test]
fn classify_compound() {
    let result = classify_morphology(
        vec!["sun".to_string(), "flower".to_string()],
        "{{test}}".to_string(),
    );
    assert_eq!(result.morph_type, "compound");
    assert_eq!(result.base, None);
    assert!(result.is_compound);
}

#[test]
fn classify_compound_with_interfix() {
    let result = classify_morphology(
        vec!["bee".to_string(), "-s-".to_string(), "wax".to_string()],
        "{{test}}".to_string(),
    );
    assert_eq!(result.morph_type, "compound");
    assert_eq!(result.base, None);
    assert_eq!(result.interfixes, vec!["-s-"]);
    assert!(result.is_compound);
}

#[test]
fn classify_multiple_suffixes() {
    let result = classify_morphology(
        vec!["dict".to_string(), "-ion".to_string(), "-ary".to_string()],
        "{{test}}".to_string(),
    );
    assert_eq!(result.suffixes, vec!["-ion", "-ary"]);
    assert_eq!(result.base, Some("dict".to_string()));
}

// ── extract_morphology ───────────────────────────────────────────

#[test]
fn extract_suffix_template() {
    let text = "===Etymology===\n{{suffix|en|happy|ness}}";
    let result = extract_morphology(text).unwrap();
    assert_eq!(result.morph_type, "suffixed");
    assert_eq!(result.components, vec!["happy", "-ness"]);
    assert_eq!(result.base, Some("happy".to_string()));
}

#[test]
fn extract_prefix_template() {
    let text = "===Etymology===\n{{prefix|en|un|happy}}";
    let result = extract_morphology(text).unwrap();
    assert_eq!(result.morph_type, "prefixed");
    assert_eq!(result.components, vec!["un-", "happy"]);
    assert_eq!(result.base, Some("happy".to_string()));
}

#[test]
fn extract_confix_template() {
    let text = "===Etymology===\n{{confix|en|en|light|ment}}";
    let result = extract_morphology(text).unwrap();
    assert_eq!(result.morph_type, "circumfixed");
    assert_eq!(result.components, vec!["en-", "light", "-ment"]);
    assert_eq!(result.base, Some("light".to_string()));
}

#[test]
fn extract_compound_template() {
    let text = "===Etymology===\n{{compound|en|sun|flower}}";
    let result = extract_morphology(text).unwrap();
    assert_eq!(result.morph_type, "compound");
    assert_eq!(result.components, vec!["sun", "flower"]);
    assert!(result.is_compound);
}

#[test]
fn extract_affix_template_suffixed() {
    let text = "===Etymology===\n{{af|en|happy|-ness}}";
    let result = extract_morphology(text).unwrap();
    assert_eq!(result.morph_type, "suffixed");
    assert_eq!(result.components, vec!["happy", "-ness"]);
}

#[test]
fn extract_affix_template_prefixed() {
    let text = "===Etymology===\n{{af|en|un-|happy}}";
    let result = extract_morphology(text).unwrap();
    assert_eq!(result.morph_type, "prefixed");
    assert_eq!(result.components, vec!["un-", "happy"]);
}

#[test]
fn extract_affix_template_affixed() {
    let text = "===Etymology===\n{{af|en|un-|break|-able}}";
    let result = extract_morphology(text).unwrap();
    assert_eq!(result.morph_type, "affixed");
    assert_eq!(result.prefixes, vec!["un-"]);
    assert_eq!(result.suffixes, vec!["-able"]);
}

#[test]
fn extract_affix_template_compound() {
    let text = "===Etymology===\n{{af|en|sun|flower}}";
    let result = extract_morphology(text).unwrap();
    assert_eq!(result.morph_type, "compound");
    assert!(result.is_compound);
}

#[test]
fn extract_surf_template() {
    let text = "===Etymology===\n{{surf|en|heli|copter}}";
    let result = extract_morphology(text).unwrap();
    assert_eq!(result.morph_type, "compound");
    assert_eq!(result.components, vec!["heli", "copter"]);
}

#[test]
fn extract_with_wikilinks() {
    let text = "===Etymology===\n{{af|en|[[isle|Isle]]|of|[[Man#Etymology 2|Man]]}}";
    let result = extract_morphology(text).unwrap();
    assert_eq!(result.components, vec!["Isle", "of", "Man"]);
}

#[test]
fn extract_speedometer() {
    let text = "===Etymology===\n{{af|en|speed|-o-|meter}}";
    let result = extract_morphology(text).unwrap();
    assert_eq!(result.morph_type, "compound");
    assert_eq!(result.interfixes, vec!["-o-"]);
}

#[test]
fn no_etymology_section() {
    let text = "===Pronunciation===\nSome pronunciation info";
    let result = extract_morphology(text);
    assert!(result.is_none());
}

#[test]
fn no_morphology_template() {
    let text = "===Etymology===\nFrom Old English word.";
    let result = extract_morphology(text);
    assert!(result.is_none());
}
