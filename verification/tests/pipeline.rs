use wiktionary_scanner::config::ExtractConfig;
use wiktionary_scanner::pipeline::{
    process_pages_sequential, process_raw_page, update_stats_from_result, ReorderBuffer, Stats,
};
use wiktionary_scanner::scan::{
    extract_ns, extract_pages_from_xml, extract_text, extract_title, is_redirect, split_pages,
    RawPage,
};

fn test_config() -> ExtractConfig {
    ExtractConfig {
        pos_map: vec![("noun".to_string(), "noun".to_string())],
        register_labels: vec![],
        temporal_labels: vec![],
        domain_labels: vec![],
        region_labels: vec![],
        spelling_labels: vec![],
        special_prefixes: vec!["Wiktionary:".to_string(), "Template:".to_string()],
    }
}

fn page_xml(title: &str, body: &str) -> String {
    format!(
        "<page><title>{}</title><ns>0</ns><text>{}</text></page>",
        title, body
    )
}

fn keepable_body(n_defs: usize) -> String {
    let mut b = String::from("==English==\n===Noun===\n");
    for i in 0..n_defs {
        b.push_str(&format!("# Sense number {}.\n", i));
    }
    b
}

// ── fragment fields ──────────────────────────────────────────────

#[test]
fn title_extraction() {
    assert_eq!(
        extract_title("<page><title>cat</title></page>"),
        Some("cat".to_string())
    );
    assert_eq!(extract_title("<page><title></title></page>"), None);
    assert_eq!(extract_title("<page>no title</page>"), None);
}

#[test]
fn ns_extraction() {
    assert_eq!(extract_ns("<ns>0</ns>"), Some("0".to_string()));
    assert_eq!(extract_ns("<ns>14</ns>"), Some("14".to_string()));
    assert_eq!(extract_ns("no marker"), None);
}

#[test]
fn text_extraction() {
    assert_eq!(
        extract_text("<text xml:space=\"preserve\">body</text>"),
        Some("body".to_string())
    );
    assert_eq!(extract_text("<title>x</title>"), None);
}

#[test]
fn redirect_detection() {
    assert!(is_redirect("<redirect title=\"Target\" />"));
    assert!(!is_redirect("plain text"));
    assert!(!is_redirect("<redirect notitle />"));
}

// ── page splitting ───────────────────────────────────────────────

#[test]
fn split_complete_pages_in_order() {
    let (pages, rest) = split_pages("x<page>one</page>y<page>two</page>tail");
    assert_eq!(pages, vec!["<page>one</page>", "<page>two</page>"]);
    assert_eq!(rest, "tail");
}

#[test]
fn split_keeps_partial_page() {
    let (pages, rest) = split_pages("<page>done</page><page>unfini");
    assert_eq!(pages, vec!["<page>done</page>"]);
    assert_eq!(rest, "<page>unfini");
}

#[test]
fn split_trims_long_leftover_without_marker() {
    let (pages, rest) = split_pages("a long leftover without any marker at all");
    assert!(pages.is_empty());
    assert_eq!(rest.chars().count(), 10);
    assert!("a long leftover without any marker at all".ends_with(&rest));
}

#[test]
fn split_keeps_short_leftover() {
    let (pages, rest) = split_pages("short");
    assert!(pages.is_empty());
    assert_eq!(rest, "short");
}

// ── fragment filters ─────────────────────────────────────────────

#[test]
fn raw_page_accepted() {
    let cfg = test_config();
    let xml = page_xml("cat", "==English==\nbody");
    let raw = extract_pages_from_xml(&cfg, &xml, 7).unwrap();
    assert_eq!(raw.title, "cat");
    assert_eq!(raw.page_id, 7);
    assert!(raw.text.contains("==English=="));
}

#[test]
fn raw_page_rejects_namespace() {
    let cfg = test_config();
    let xml = "<page><title>t</title><ns>14</ns><text>b</text></page>";
    assert!(extract_pages_from_xml(&cfg, xml, 0).is_none());
}

#[test]
fn raw_page_rejects_reserved_prefix() {
    let cfg = test_config();
    let xml = page_xml("Template:foo", "b");
    assert!(extract_pages_from_xml(&cfg, &xml, 0).is_none());
}

#[test]
fn raw_page_rejects_missing_fields() {
    let cfg = test_config();
    assert!(extract_pages_from_xml(&cfg, "<page><text>b</text></page>", 0).is_none());
    assert!(extract_pages_from_xml(&cfg, "<page><title>t</title></page>", 0).is_none());
}

// ── per-page processing and counters ─────────────────────────────

#[test]
fn redirect_page_increments_redirects_not_skipped() {
    let cfg = test_config();
    let raw = RawPage {
        title: "cat".to_string(),
        text: "<redirect title=\"dog\" /> rest".to_string(),
        page_id: 0,
    };
    let result = process_raw_page(&cfg, raw);
    assert!(result.was_redirect);
    assert!(result.entries.is_empty());
    let mut stats = Stats::new();
    update_stats_from_result(&mut stats, &result);
    assert_eq!(stats.redirects, 1);
    assert_eq!(stats.skipped, 0);
}

#[test]
fn non_english_page_counted() {
    let cfg = test_config();
    let raw = RawPage {
        title: "chat".to_string(),
        text: "==French==\nrien".to_string(),
        page_id: 0,
    };
    let result = process_raw_page(&cfg, raw);
    assert!(!result.was_english);
    let mut stats = Stats::new();
    update_stats_from_result(&mut stats, &result);
    assert_eq!(stats.non_english, 1);
}

#[test]
fn dict_only_page_counted() {
    let cfg = test_config();
    let raw = RawPage {
        title: "x".to_string(),
        text: "==English==\n{{no entry|en}}".to_string(),
        page_id: 0,
    };
    let result = process_raw_page(&cfg, raw);
    assert!(result.was_dict_only);
    let mut stats = Stats::new();
    update_stats_from_result(&mut stats, &result);
    assert_eq!(stats.dict_only, 1);
}

#[test]
fn non_latin_title_counted() {
    let cfg = test_config();
    let raw = RawPage {
        title: "λόγος".to_string(),
        text: "==English==\nborrowed".to_string(),
        page_id: 0,
    };
    let result = process_raw_page(&cfg, raw);
    assert!(result.was_non_latin);
    let mut stats = Stats::new();
    update_stats_from_result(&mut stats, &result);
    assert_eq!(stats.non_latin, 1);
}

#[test]
fn kept_page_counts_word_and_case() {
    let cfg = test_config();
    let raw = RawPage {
        title: "Sat".to_string(),
        text: keepable_body(2),
        page_id: 0,
    };
    let result = process_raw_page(&cfg, raw);
    assert_eq!(result.entries.len(), 2);
    let mut stats = Stats::new();
    update_stats_from_result(&mut stats, &result);
    assert_eq!(stats.words_written, 1);
    assert_eq!(stats.case_title, 1);
}

#[test]
fn empty_page_counts_skipped() {
    let cfg = test_config();
    let raw = RawPage {
        title: "word".to_string(),
        text: "==English==\nprose only".to_string(),
        page_id: 0,
    };
    let result = process_raw_page(&cfg, raw);
    assert!(result.entries.is_empty() && result.was_english);
    let mut stats = Stats::new();
    update_stats_from_result(&mut stats, &result);
    assert_eq!(stats.skipped, 1);
}

// ── reorder buffer ───────────────────────────────────────────────

fn run_arrivals(order: &[usize]) -> Vec<usize> {
    let mut buf: ReorderBuffer<String> = ReorderBuffer::new();
    let mut emitted: Vec<usize> = Vec::new();
    for &id in order {
        let out = buf.accept(id, format!("item{}", id));
        for (oid, item) in out {
            assert_eq!(item, format!("item{}", oid));
            emitted.push(oid);
        }
    }
    emitted
}

#[test]
fn reorder_in_order_arrivals_pass_through() {
    assert_eq!(run_arrivals(&[0, 1, 2, 3]), vec![0, 1, 2, 3]);
}

#[test]
fn reorder_restores_order_for_any_arrival_order() {
    // every permutation of five ids: whatever the completion order, the
    // emitted ids come out strictly increasing and complete
    let ids = [0usize, 1, 2, 3, 4];
    let mut orders: Vec<Vec<usize>> = Vec::new();
    for a in 0..5 {
        for b in 0..5 {
            for c in 0..5 {
                for d in 0..5 {
                    for e in 0..5 {
                        let p = vec![ids[a], ids[b], ids[c], ids[d], ids[e]];
                        let mut seen = [false; 5];
                        for &x in &p {
                            seen[x] = true;
                        }
                        if seen.iter().all(|&s| s) {
                            orders.push(p);
                        }
                    }
                }
            }
        }
    }
    assert_eq!(orders.len(), 120);
    for order in orders {
        let emitted = run_arrivals(&order);
        assert_eq!(emitted, vec![0, 1, 2, 3, 4], "arrival order {:?}", order);
    }
}

#[test]
fn reorder_holds_early_arrivals() {
    let mut buf: ReorderBuffer<u8> = ReorderBuffer::new();
    assert!(buf.accept(2, 20).is_empty());
    assert!(buf.accept(1, 10).is_empty());
    let out = buf.accept(0, 0);
    assert_eq!(out, vec![(0, 0), (1, 10), (2, 20)]);
}

// ── sequential driver and its limit ──────────────────────────────

#[test]
fn sequential_processes_all_without_limit() {
    let cfg = test_config();
    let pages = vec![
        page_xml("alpha", &keepable_body(2)),
        page_xml("beta", &keepable_body(1)),
    ];
    let (entries, stats, reached) = process_pages_sequential(&cfg, &pages, None);
    assert_eq!(entries.len(), 3);
    assert!(!reached);
    assert_eq!(stats.senses_written, 3);
    assert_eq!(stats.pages_processed, 2);
    assert_eq!(stats.words_written, 2);
}

#[test]
fn sequential_limit_yields_exactly_n() {
    let cfg = test_config();
    let pages = vec![
        page_xml("alpha", &keepable_body(2)),
        page_xml("beta", &keepable_body(2)),
    ];
    let (entries, stats, reached) = process_pages_sequential(&cfg, &pages, Some(3));
    assert_eq!(entries.len(), 3);
    assert!(reached);
    assert_eq!(stats.senses_written, 3);
}

#[test]
fn sequential_limit_halts_before_exhausting_input() {
    let cfg = test_config();
    let pages = vec![
        page_xml("alpha", &keepable_body(1)),
        page_xml("beta", &keepable_body(1)),
        page_xml("gamma", &keepable_body(1)),
    ];
    let (entries, stats, reached) = process_pages_sequential(&cfg, &pages, Some(1));
    assert_eq!(entries.len(), 1);
    assert!(reached);
    assert_eq!(stats.pages_processed, 1);
}

#[test]
fn sequential_limit_beyond_stream_changes_nothing() {
    let cfg = test_config();
    let pages = vec![page_xml("alpha", &keepable_body(1))];
    let (entries, _stats, reached) = process_pages_sequential(&cfg, &pages, Some(10));
    assert_eq!(entries.len(), 1);
    assert!(!reached);
}

#[test]
fn sequential_counts_rejections() {
    let cfg = test_config();
    let pages = vec![
        "<page><title>t</title><ns>14</ns><text>b</text></page>".to_string(),
        page_xml("Template:x", "b"),
        page_xml("r", "<redirect title=\"t\" />"),
        page_xml("chat", "==French==\nrien"),
        page_xml("kept", &keepable_body(1)),
    ];
    let (entries, stats, _reached) = process_pages_sequential(&cfg, &pages, None);
    assert_eq!(entries.len(), 1);
    assert_eq!(stats.special, 2);
    assert_eq!(stats.redirects, 1);
    assert_eq!(stats.non_english, 1);
    assert_eq!(stats.words_written, 1);
    assert_eq!(stats.pages_processed, 5);
}
