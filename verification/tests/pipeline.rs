use tree_flatten::file_tree::{count_tokens, generate_tree_and_content};
use tree_flatten::walk::FsEntry;

fn file(rel: &str, content: &str) -> FsEntry {
    FsEntry { rel_path: rel.to_string(), is_file: true, content: Some(content.to_string()) }
}

fn unreadable(rel: &str) -> FsEntry {
    FsEntry { rel_path: rel.to_string(), is_file: true, content: None }
}

fn dir(rel: &str) -> FsEntry {
    FsEntry { rel_path: rel.to_string(), is_file: false, content: None }
}

fn numbered_file(lines: usize) -> FsEntry {
    let content: String = (1..=lines)
        .map(|i| format!("line{}", i))
        .collect::<Vec<_>>()
        .join("\n");
    file("file.txt", &content)
}

fn extract_file_lines(output: &str) -> Vec<String> {
    let marker = "/file.txt\n--------------------------------------------------\n\n";
    let start = output
        .find(marker)
        .map(|i| i + marker.len())
        .expect("file block start not found");
    output[start..]
        .lines()
        .take_while(|l| !l.is_empty())
        .map(|l| l.to_string())
        .collect()
}

#[test]
fn line_numbers_align() {
    for &count in &[9usize, 10, 100] {
        let entries = vec![numbered_file(count)];
        let output = generate_tree_and_content(&entries, &vec![]);
        let lines = extract_file_lines(&output);
        assert_eq!(lines.len(), count);
        let width = count.to_string().len();
        for (i, line) in lines.iter().enumerate() {
            let expected = format!("{:>width$} |", i + 1, width = width);
            assert!(line.starts_with(&expected), "line '{}', count {}", line, count);
        }
    }
}

#[test]
fn ignore_patterns_exclude_files_and_dirs() {
    let entries = vec![
        file("keep.txt", "keep"),
        dir("src"),
        file("src/lib.rs", "lib"),
        file("error.log", "ignore"),
        dir("node_modules"),
        file("node_modules/mod.js", "ignore"),
        dir("target"),
        dir("target/debug"),
        file("target/debug/out.txt", "ignore"),
    ];
    let patterns = vec!["*.log".to_string(), "node_modules".to_string(), "target".to_string()];
    let output = generate_tree_and_content(&entries, &patterns);

    assert!(output.contains("keep.txt"));
    assert!(output.contains("src"));
    assert!(output.contains("lib.rs"));
    assert!(!output.contains("error.log"));
    assert!(!output.contains("node_modules"));
    assert!(!output.contains("target"));
    assert!(!output.contains("out.txt"));
    assert!(!output.contains("mod.js"));
}

#[test]
fn exact_output_for_one_small_file() {
    let entries = vec![file("a.txt", "x\ny")];
    let output = generate_tree_and_content(&entries, &vec![]);
    let expected = ".\n  ├── a.txt\n\n\n\
--------------------------------------------------\n\
/a.txt\n\
--------------------------------------------------\n\n\
1 | x\n\
2 | y\n\n\n";
    assert_eq!(output, expected);
}

#[test]
fn nested_entry_is_indented_and_named_by_last_component() {
    let entries = vec![dir("src"), file("src/lib.rs", "lib")];
    let output = generate_tree_and_content(&entries, &vec![]);
    assert!(output.starts_with(".\n  ├── src\n    ├── lib.rs\n\n\n"));
    assert!(output.contains("/src/lib.rs\n"));
    assert!(output.contains("1 | lib\n"));
}

#[test]
fn empty_scan_yields_bare_listing() {
    let output = generate_tree_and_content(&vec![], &vec![]);
    assert_eq!(output, ".\n\n\n");
}

#[test]
fn root_entry_is_never_listed() {
    let entries = vec![dir(""), file("", "should not appear")];
    let output = generate_tree_and_content(&entries, &vec![]);
    assert_eq!(output, ".\n\n\n");
}

#[test]
fn unreadable_file_gets_placeholder_and_rest_continues() {
    let entries = vec![
        file("a.txt", "hi"),
        unreadable("b.bin"),
        file("c.txt", "z"),
    ];
    let output = generate_tree_and_content(&entries, &vec![]);
    assert!(output.contains("/b.bin\n"));
    assert!(output.contains("[Error: could not read file. It may be binary.]\n"));
    assert!(output.contains("/c.txt\n"));
    assert!(output.contains("1 | z\n"));
    let err_at = output.find("[Error:").unwrap();
    let c_at = output.find("/c.txt").unwrap();
    assert!(err_at < c_at);
}

#[test]
fn invalid_pattern_is_dropped() {
    let entries = vec![file("a.txt", "x")];
    let patterns = vec!["[".to_string()];
    let output = generate_tree_and_content(&entries, &patterns);
    assert!(output.contains("a.txt"));
    assert!(output.contains("1 | x\n"));
}

#[test]
fn file_pattern_leaves_siblings_alone() {
    let entries = vec![file("a.log", "gone"), file("b.txt", "stays"), dir("c")];
    let patterns = vec!["*.log".to_string()];
    let output = generate_tree_and_content(&entries, &patterns);
    assert!(!output.contains("a.log"));
    assert!(output.contains("b.txt"));
    assert!(output.contains("1 | stays\n"));
    assert!(output.contains("├── c\n"));
}

#[test]
fn crlf_terminators_are_stripped() {
    let entries = vec![file("a.txt", "a\r\nb")];
    let output = generate_tree_and_content(&entries, &vec![]);
    assert!(output.contains("1 | a\n2 | b\n"));
}

#[test]
fn pipeline_is_deterministic() {
    let entries = vec![file("a.txt", "one\ntwo"), dir("d"), unreadable("d/b.bin")];
    let patterns = vec!["*.tmp".to_string()];
    let out1 = generate_tree_and_content(&entries, &patterns);
    let out2 = generate_tree_and_content(&entries, &patterns);
    assert_eq!(out1, out2);
    let c1 = count_tokens(&out1).expect("token counting failed");
    let c2 = count_tokens(&out2).expect("token counting failed");
    assert_eq!(c1, c2);
}

#[test]
fn token_count_of_empty_text_is_zero() {
    assert_eq!(count_tokens(""), Some(0));
    assert!(count_tokens("hello world").expect("token counting failed") > 0);
}
