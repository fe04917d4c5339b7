use publar::text::{extract_details_wiki_url, extract_title, parse_csv};

#[test]
fn csv_entries_are_trimmed_and_empty_ones_dropped() {
    let r = parse_csv(" a, b ,,c ,  ");
    assert_eq!(r, vec!["a".to_string(), "b".to_string(), "c".to_string()]);
}

#[test]
fn csv_of_empty_text_is_empty() {
    assert!(parse_csv("").is_empty());
    assert!(parse_csv(" , ,").is_empty());
}

#[test]
fn csv_keeps_inner_spaces() {
    assert_eq!(parse_csv("x y,\tz\n"), vec!["x y".to_string(), "z".to_string()]);
}

#[test]
fn title_is_first_line_without_heading_marks() {
    assert_eq!(extract_title("# Hello\nbody"), "Hello");
    assert_eq!(extract_title("# # Twice\r\nrest"), "Twice");
    assert_eq!(extract_title("Plain"), "Plain");
    assert_eq!(extract_title(""), "");
    assert_eq!(extract_title("\nsecond"), "");
    assert_eq!(extract_title("#NoSpace"), "#NoSpace");
}

#[test]
fn wiki_url_splits_at_first_slash() {
    assert_eq!(
        extract_details_wiki_url(" owner / page/sub "),
        Some(("owner".to_string(), "page/sub".to_string()))
    );
}

#[test]
fn wiki_url_needs_both_parts() {
    assert_eq!(extract_details_wiki_url("nopart"), None);
    assert_eq!(extract_details_wiki_url("/page"), None);
    assert_eq!(extract_details_wiki_url("owner/  "), None);
}
