use miniprinter::layout::format_list;
use miniprinter::layout::wrap;
use miniprinter::width::display_width;

fn strings(v: &[&str]) -> Vec<String> {
    v.iter().map(|s| s.to_string()).collect()
}

#[test]
fn join_one_name() {
    assert_eq!(format_list(&strings(&["A"])), "A");
}

#[test]
fn join_two_names() {
    assert_eq!(format_list(&strings(&["A", "B"])), "A and B");
}

#[test]
fn join_three_names() {
    assert_eq!(format_list(&strings(&["A", "B", "C"])), "A, B, and C");
}

#[test]
fn join_four_names() {
    assert_eq!(format_list(&strings(&["A", "B", "C", "D"])), "A, B, C, and D");
}

#[test]
fn join_real_names() {
    assert_eq!(
        format_list(&strings(&["Ada Lovelace", "Alan Turing"])),
        "Ada Lovelace and Alan Turing"
    );
}

#[test]
fn wrap_empty_text_produces_no_lines() {
    let lines = wrap("", 32, "By ", "   ");
    assert!(lines.is_empty());
}

#[test]
fn wrap_whitespace_only_produces_no_lines() {
    let lines = wrap(" \t \n ", 32, "", "");
    assert!(lines.is_empty());
}

#[test]
fn wrap_clue_fits_on_one_line_at_width_32() {
    let lines = wrap("Capital of France", 32, "5: ", "   ");
    assert_eq!(lines, vec!["5: Capital of France".to_string()]);
}

#[test]
fn wrap_clue_breaks_into_aligned_lines_at_width_16() {
    let lines = wrap("Capital of France", 16, "5: ", "   ");
    assert_eq!(
        lines,
        vec!["5: Capital of".to_string(), "   France".to_string()]
    );
    for line in &lines {
        assert!(unicode_width::UnicodeWidthStr::width(line.as_str()) <= 16);
    }
    // Both lines start at column 0 and the text body aligns at column 3.
    assert!(lines[0].starts_with("5: "));
    assert!(lines[1].starts_with("   "));
}

#[test]
fn wrap_lines_stay_within_width() {
    let text = "the quick brown fox jumps over the lazy dog again and again";
    let lines = wrap(text, 20, "", "");
    assert!(lines.len() > 1);
    for line in &lines {
        assert!(unicode_width::UnicodeWidthStr::width(line.as_str()) <= 20);
    }
}

#[test]
fn wrap_indents_every_line() {
    let text = "one two three four five six seven eight nine ten";
    let lines = wrap(text, 16, "N: ", "   ");
    assert!(lines[0].starts_with("N: "));
    for line in &lines[1..] {
        assert!(line.starts_with("   "));
    }
}

#[test]
fn wrap_oversized_word_stands_alone() {
    let lines = wrap("a incomprehensibilities b", 10, "", "");
    assert_eq!(
        lines,
        vec![
            "a".to_string(),
            "incomprehensibilities".to_string(),
            "b".to_string(),
        ]
    );
}

#[test]
fn wrap_measures_wide_characters_by_display_cells() {
    // Each of these characters is two columns wide, so no two of the words
    // share an eight-column line even though their character counts suggest
    // they would.
    let lines = wrap("日本 語の テスト", 8, "", "");
    for line in &lines {
        assert!(unicode_width::UnicodeWidthStr::width(line.as_str()) <= 8);
    }
    assert_eq!(lines.len(), 3);
}

#[test]
fn display_width_counts_cells_not_chars() {
    assert_eq!(display_width("abc"), 3);
    assert_eq!(display_width("日本"), 4);
    assert_eq!(display_width(""), 0);
}
