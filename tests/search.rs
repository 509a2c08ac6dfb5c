use fabryk_graph::search::parse_phrases;

#[test]
fn test_parse_phrases_single() {
    let (phrases, remaining) = parse_phrases("\"exact phrase\" other");
    assert_eq!(phrases, vec!["exact phrase"]);
    assert!(remaining.contains("other"));
}

#[test]
fn test_parse_phrases_multiple() {
    let (phrases, remaining) = parse_phrases("\"one\" word \"two\"");
    assert_eq!(phrases.len(), 2);
    assert!(remaining.contains("word"));
}

#[test]
fn test_parse_phrases_none() {
    let (phrases, remaining) = parse_phrases("no phrases here");
    assert!(phrases.is_empty());
    assert_eq!(remaining.trim(), "no phrases here");
}

#[test]
fn test_parse_phrases_empty_quotes() {
    let (phrases, remaining) = parse_phrases("\"\" something");
    assert!(phrases.is_empty());
    assert!(remaining.contains("something"));
}

#[test]
fn test_parse_phrases_unclosed_quote() {
    let (phrases, remaining) = parse_phrases("\"unclosed phrase");
    assert!(phrases.is_empty());
    assert!(remaining.contains("unclosed"));
}

#[test]
fn phrases_are_trimmed_and_removed() {
    let (phrases, remaining) = parse_phrases("a \"  x y \" b \"z\" c \"open");
    assert_eq!(phrases, vec!["x y", "z"]);
    assert_eq!(remaining, "a  b  c \"open");
}

#[test]
fn phrases_keep_non_ascii_text() {
    let (phrases, remaining) = parse_phrases("é \"ü ß\" ñ");
    assert_eq!(phrases, vec!["ü ß"]);
    assert_eq!(remaining, "é  ñ");
}
