use retitle::codec::format_renamepairs;
use retitle::codec::parse_renamepairs;
use retitle::pair::file_list_to_renamepairs;
use retitle::pair::RenamePair;

fn pair(from: &str, to: &str) -> RenamePair {
    RenamePair {
        from: from.to_string(),
        to: to.to_string(),
    }
}

#[test]
fn parse_two_lines() {
    let pairs = parse_renamepairs("a.txt|b.txt\nb.txt|a.txt".to_string()).unwrap();
    assert_eq!(pairs.len(), 2);
    assert_eq!(pairs[0].from, "a.txt");
    assert_eq!(pairs[0].to, "b.txt");
    assert_eq!(pairs[1].from, "b.txt");
    assert_eq!(pairs[1].to, "a.txt");
}

#[test]
fn parse_empty_input_gives_empty_list() {
    let pairs = parse_renamepairs(String::new()).unwrap();
    assert_eq!(pairs.len(), 0);
}

#[test]
fn parse_trailing_newline() {
    let pairs = parse_renamepairs("old|new\n".to_string()).unwrap();
    assert_eq!(pairs.len(), 1);
    assert_eq!(pairs[0].from, "old");
    assert_eq!(pairs[0].to, "new");
}

#[test]
fn parse_line_without_delimiter_fails_verbatim() {
    let err = parse_renamepairs("justonefield".to_string()).unwrap_err();
    assert_eq!(err.line, "justonefield");
}

#[test]
fn parse_line_with_two_delimiters_fails_verbatim() {
    let err = parse_renamepairs("a|b|c".to_string()).unwrap_err();
    assert_eq!(err.line, "a|b|c");
}

#[test]
fn parse_reports_first_offending_line() {
    let err = parse_renamepairs("a|b\nbad line\nc|d\nworse".to_string()).unwrap_err();
    assert_eq!(err.line, "bad line");
}

#[test]
fn parse_empty_line_is_an_error() {
    let err = parse_renamepairs("a|b\n\nc|d".to_string()).unwrap_err();
    assert_eq!(err.line, "");
}

#[test]
fn parse_keeps_whitespace_verbatim() {
    let pairs = parse_renamepairs(" a .txt | b ".to_string()).unwrap();
    assert_eq!(pairs.len(), 1);
    assert_eq!(pairs[0].from, " a .txt ");
    assert_eq!(pairs[0].to, " b ");
}

#[test]
fn format_one_pair() {
    let text = format_renamepairs(vec![pair("draft.txt", "final.txt")]);
    assert_eq!(text, "draft.txt|final.txt\n");
}

#[test]
fn format_empty_list() {
    let text = format_renamepairs(Vec::new());
    assert_eq!(text, "");
}

#[test]
fn format_keeps_order() {
    let text = format_renamepairs(vec![pair("b", "c"), pair("a", "b")]);
    assert_eq!(text, "b|c\na|b\n");
}

#[test]
fn roundtrip_parse_of_format() {
    let pairs = vec![pair("a.txt", "b.txt"), pair("with space", "x"), pair("same", "same")];
    let text = format_renamepairs(pairs.clone());
    let back = parse_renamepairs(text).unwrap();
    assert_eq!(back.len(), pairs.len());
    for (p, q) in pairs.iter().zip(back.iter()) {
        assert_eq!(p.from, q.from);
        assert_eq!(p.to, q.to);
    }
}

#[test]
fn listing_becomes_identity_pairs() {
    let pairs = file_list_to_renamepairs(vec!["x.txt".to_string(), "y.txt".to_string()]);
    assert_eq!(pairs.len(), 2);
    assert_eq!(pairs[0].from, "x.txt");
    assert_eq!(pairs[0].to, "x.txt");
    assert_eq!(pairs[1].from, "y.txt");
    assert_eq!(pairs[1].to, "y.txt");
}
