use tree_flatten::file_tree::{generate_tree_and_content, generate_tree_and_content_with_progress};
use tree_flatten::ignore::{is_kept, matches_any};
use tree_flatten::progress::{progress_percent, Progress};
use tree_flatten::summary::{
    classify_node_kind, language_for_extension, summary_text, Decl, DeclKind, SummaryLanguage,
};
use tree_flatten::text::{line_number_width, split_lines, str_eq, usize_to_string};
use tree_flatten::walk::FsEntry;

fn file(rel: &str, content: &str) -> FsEntry {
    FsEntry { rel_path: rel.to_string(), is_file: true, content: Some(content.to_string()) }
}

fn dir(rel: &str) -> FsEntry {
    FsEntry { rel_path: rel.to_string(), is_file: false, content: None }
}

#[test]
fn width_is_decimal_digit_count_with_minimum_one() {
    assert_eq!(line_number_width(0), 1);
    assert_eq!(line_number_width(9), 1);
    assert_eq!(line_number_width(10), 2);
    assert_eq!(line_number_width(99), 2);
    assert_eq!(line_number_width(100), 3);
}

#[test]
fn decimal_rendering() {
    assert_eq!(usize_to_string(0), "0");
    assert_eq!(usize_to_string(7), "7");
    assert_eq!(usize_to_string(105), "105");
}

#[test]
fn split_lines_matches_std_lines() {
    for text in ["", "a", "a\n", "a\nb", "a\r\nb", "a\n\n", "\n", "x\r", "a\r\r\nb"] {
        let got: Vec<String> = split_lines(text);
        let want: Vec<String> = text.lines().map(|l| l.to_string()).collect();
        assert_eq!(got, want, "text {:?}", text);
    }
}

#[test]
fn str_eq_compares_by_characters() {
    assert!(str_eq("", ""));
    assert!(str_eq("abc", "abc"));
    assert!(!str_eq("abc", "abd"));
    assert!(!str_eq("abc", "ab"));
    assert!(str_eq("déjà", "déjà"));
}

#[test]
fn matching_prunes_by_ancestor() {
    let patterns = vec!["target".to_string()];
    assert!(matches_any(&patterns, "target"));
    assert!(!matches_any(&patterns, "target/debug/out.txt"));
    assert!(!is_kept(&patterns, "target"));
    assert!(!is_kept(&patterns, "target/debug"));
    assert!(!is_kept(&patterns, "target/debug/out.txt"));
    assert!(is_kept(&patterns, "src"));
    assert!(!is_kept(&patterns, ""));
}

#[test]
fn percentage_of_empty_scan_is_complete() {
    assert_eq!(progress_percent(0, 0), 100);
}

#[test]
fn percentage_is_processed_over_total() {
    assert_eq!(progress_percent(0, 4), 0);
    assert_eq!(progress_percent(1, 4), 25);
    assert_eq!(progress_percent(1, 3), 33);
    assert_eq!(progress_percent(4, 4), 100);
}

#[test]
fn progress_events_end_at_total() {
    let entries = vec![file("a.txt", "x"), dir("d"), file("d/b.txt", "y")];
    let (tx, mut rx) = tokio::sync::mpsc::unbounded_channel::<Progress>();
    let plain = generate_tree_and_content(&entries, &vec![]);
    let streamed = generate_tree_and_content_with_progress(&entries, &vec![], &tx);
    drop(tx);
    assert_eq!(plain, streamed);
    let mut events: Vec<Progress> = Vec::new();
    while let Ok(p) = rx.try_recv() {
        events.push(p);
    }
    assert_eq!(events.len(), 3);
    assert_eq!(events[0], Progress { processed: 0, total: 2 });
    assert_eq!(events[1], Progress { processed: 1, total: 2 });
    assert_eq!(events[2], Progress { processed: 2, total: 2 });
    let last = events.last().unwrap();
    assert_eq!(last.processed, last.total);
}

#[test]
fn progress_total_counts_only_kept_files() {
    let entries = vec![file("a.txt", "x"), file("b.log", "y")];
    let patterns = vec!["*.log".to_string()];
    let (tx, mut rx) = tokio::sync::mpsc::unbounded_channel::<Progress>();
    let _ = generate_tree_and_content_with_progress(&entries, &patterns, &tx);
    drop(tx);
    let mut events: Vec<Progress> = Vec::new();
    while let Ok(p) = rx.try_recv() {
        events.push(p);
    }
    assert_eq!(events.len(), 2);
    assert_eq!(events[0], Progress { processed: 0, total: 1 });
    assert_eq!(events[1], Progress { processed: 1, total: 1 });
}

#[test]
fn extension_selects_language() {
    assert_eq!(language_for_extension("rs"), Some(SummaryLanguage::Rust));
    assert_eq!(language_for_extension("js"), Some(SummaryLanguage::JavaScript));
    assert_eq!(language_for_extension("jsx"), Some(SummaryLanguage::JavaScript));
    assert_eq!(language_for_extension("ts"), Some(SummaryLanguage::JavaScript));
    assert_eq!(language_for_extension("tsx"), Some(SummaryLanguage::JavaScript));
    assert_eq!(language_for_extension("py"), Some(SummaryLanguage::Python));
    assert_eq!(language_for_extension("txt"), None);
}

#[test]
fn node_kinds_classify_declarations() {
    assert_eq!(classify_node_kind("function_item"), Some(DeclKind::Function));
    assert_eq!(classify_node_kind("function_declaration"), Some(DeclKind::Function));
    assert_eq!(classify_node_kind("method_definition"), Some(DeclKind::Function));
    assert_eq!(classify_node_kind("function_definition"), Some(DeclKind::Function));
    assert_eq!(classify_node_kind("struct_item"), Some(DeclKind::Class));
    assert_eq!(classify_node_kind("class_declaration"), Some(DeclKind::Class));
    assert_eq!(classify_node_kind("class_definition"), Some(DeclKind::Class));
    assert_eq!(classify_node_kind("enum_item"), Some(DeclKind::Enum));
    assert_eq!(classify_node_kind("identifier"), None);
}

#[test]
fn summary_lists_declarations_in_order() {
    let decls = vec![
        Decl { kind: DeclKind::Function, name: "main".to_string() },
        Decl { kind: DeclKind::Class, name: "Walker".to_string() },
        Decl { kind: DeclKind::Enum, name: "Mode".to_string() },
    ];
    let s = summary_text(&decls).unwrap();
    assert_eq!(s, "fn main\nclass Walker\nenum Mode\n");
    assert!(summary_text(&Vec::new()).is_none());
}
