use ev_core::parse::{parse_dotenv_like, ParseError, ParsedGroup};

fn parse_ok(text: &str) -> ParsedGroup {
    match parse_dotenv_like(text) {
        Ok(g) => g,
        Err(ParseError::InvalidKey { line, content }) => {
            panic!("unexpected parse error at line {}: {}", line, content)
        }
    }
}

fn parse_err(text: &str) -> (usize, String) {
    match parse_dotenv_like(text) {
        Ok(_) => panic!("expected a parse error"),
        Err(ParseError::InvalidKey { line, content }) => (line, content),
    }
}

fn value_of<'a>(g: &'a ParsedGroup, key: &str) -> &'a str {
    g.get(key).expect("key should be bound").as_str()
}

#[test]
fn basic_parse_with_comment_and_quotes() {
    let g = parse_ok("FOO=bar\n# comment\nBAZ=\"q u o\"\n");
    assert_eq!(g.len(), 2);
    assert_eq!(value_of(&g, "FOO"), "bar");
    assert_eq!(value_of(&g, "BAZ"), "q u o");
}

#[test]
fn invalid_key_names_line_one() {
    let (line, content) = parse_err("1BAD=x");
    assert_eq!(line, 1);
    assert_eq!(content, "1BAD=x");
}

#[test]
fn invalid_key_names_later_line() {
    let (line, content) = parse_err("A=1\nB-B=x\n");
    assert_eq!(line, 2);
    assert_eq!(content, "B-B=x");
}

#[test]
fn missing_equals_is_an_error() {
    let (line, content) = parse_err("JUSTAWORD\n");
    assert_eq!(line, 1);
    assert_eq!(content, "JUSTAWORD");
}

#[test]
fn duplicate_keys_last_wins() {
    let g = parse_ok("A=1\nA=2\n");
    assert_eq!(g.len(), 1);
    assert_eq!(value_of(&g, "A"), "2");
}

#[test]
fn blank_and_whitespace_lines_ignored() {
    let g = parse_ok("\n   \n\t\nA=1\n\n");
    assert_eq!(g.len(), 1);
    assert_eq!(value_of(&g, "A"), "1");
}

#[test]
fn comment_after_leading_whitespace_ignored() {
    let g = parse_ok("   # note\nA=1\n");
    assert_eq!(g.len(), 1);
}

#[test]
fn key_is_trimmed() {
    let g = parse_ok("  SPACED  =v\n");
    assert_eq!(value_of(&g, "SPACED"), "v");
}

#[test]
fn value_keeps_inner_whitespace_and_is_not_trimmed() {
    let g = parse_ok("K= x \n");
    assert_eq!(value_of(&g, "K"), " x ");
}

#[test]
fn single_quotes_stripped() {
    let g = parse_ok("K='v x'\n");
    assert_eq!(value_of(&g, "K"), "v x");
}

#[test]
fn mismatched_quotes_kept() {
    let g = parse_ok("K=\"a\n");
    assert_eq!(value_of(&g, "K"), "\"a");
}

#[test]
fn only_one_quote_pair_stripped() {
    let g = parse_ok("K=\"\"x\"\"\n");
    assert_eq!(value_of(&g, "K"), "\"x\"");
}

#[test]
fn empty_value_allowed() {
    let g = parse_ok("K=\n");
    assert_eq!(value_of(&g, "K"), "");
}

#[test]
fn value_may_contain_equals() {
    let g = parse_ok("K=a=b\n");
    assert_eq!(value_of(&g, "K"), "a=b");
}

#[test]
fn underscore_and_digits_in_keys() {
    let g = parse_ok("_A1=ok\n");
    assert_eq!(value_of(&g, "_A1"), "ok");
}

#[test]
fn empty_key_is_an_error() {
    let (line, content) = parse_err("=v\n");
    assert_eq!(line, 1);
    assert_eq!(content, "=v");
}

#[test]
fn empty_input_yields_empty_group() {
    let g = parse_ok("");
    assert_eq!(g.len(), 0);
    assert!(g.get("ANY").is_none());
}

#[test]
fn text_without_trailing_newline() {
    let g = parse_ok("A=1");
    assert_eq!(value_of(&g, "A"), "1");
}

#[test]
fn crlf_input_behaves_like_lf() {
    let g = parse_ok("A=1\r\nB=2\r\n");
    assert_eq!(g.len(), 2);
    assert_eq!(value_of(&g, "A"), "1");
    assert_eq!(value_of(&g, "B"), "2");
}

#[test]
fn group_set_overwrites() {
    let mut g = ParsedGroup::new();
    g.set(String::from("A"), String::from("1"));
    g.set(String::from("B"), String::from("2"));
    g.set(String::from("A"), String::from("3"));
    assert_eq!(g.len(), 2);
    assert_eq!(value_of(&g, "A"), "3");
    assert_eq!(value_of(&g, "B"), "2");
}
