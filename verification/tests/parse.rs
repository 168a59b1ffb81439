use unfurl::parse::{next, Token};

#[test]
fn parse_text() {
    let text = "Hello, there: https://google.com, and then trailing. Also https://yahoo.com.";
    let (tok, text) = next(text);
    assert_eq!(Token::Text("Hello, there: "), tok);
    assert_eq!("https://google.com, and then trailing. Also https://yahoo.com.", text);
    let (tok, text) = next(text);
    assert_eq!(Token::URL("https://google.com"), tok);
    assert_eq!(", and then trailing. Also https://yahoo.com.", text);
    let (tok, text) = next(text);
    assert_eq!(Token::Text(", and then trailing. Also "), tok);
    assert_eq!("https://yahoo.com.", text);
    let (tok, text) = next(text);
    assert_eq!(Token::URL("https://yahoo.com"), tok);
    assert_eq!(".", text);
    let (tok, text) = next(text);
    assert_eq!(Token::Text("."), tok);
    assert_eq!("", text);
    let (tok, text) = next(text);
    assert_eq!(Token::EOF, tok);
    assert_eq!("", text);
}

#[test]
fn parse_text_boundaries() {
    let (tok, text) = next("https://google.com,");
    assert_eq!(Token::URL("https://google.com"), tok);
    assert_eq!(",", text);
    let (tok, text) = next("https://google.com, ");
    assert_eq!(Token::URL("https://google.com"), tok);
    assert_eq!(", ", text);
    let (tok, text) = next("https://google.com.");
    assert_eq!(Token::URL("https://google.com"), tok);
    assert_eq!(".", text);
    let (tok, text) = next("https://google.com. ");
    assert_eq!(Token::URL("https://google.com"), tok);
    assert_eq!(". ", text);
    let (tok, text) = next("https://google.com:");
    assert_eq!(Token::URL("https://google.com"), tok);
    assert_eq!(":", text);
    let (tok, text) = next("https://google.com: ");
    assert_eq!(Token::URL("https://google.com"), tok);
    assert_eq!(": ", text);
}

#[test]
fn parse_empty_input() {
    let (tok, rest) = next("");
    assert_eq!(Token::EOF, tok);
    assert_eq!("", rest);
}

#[test]
fn parse_no_marker_single_text() {
    let (tok, rest) = next("no links in here at all");
    assert_eq!(Token::Text("no links in here at all"), tok);
    assert_eq!("", rest);
    let (tok, rest) = next(rest);
    assert_eq!(Token::EOF, tok);
    assert_eq!("", rest);
}

#[test]
fn parse_delimiters_end_url() {
    let (tok, rest) = next("(https://x.example/p) more");
    assert_eq!(Token::Text("("), tok);
    let (tok, rest) = next(rest);
    assert_eq!(Token::URL("https://x.example/p"), tok);
    assert_eq!(") more", rest);
    let (tok, rest) = next("https://a;b");
    assert_eq!(Token::URL("https://a"), tok);
    assert_eq!(";b", rest);
    let (tok, rest) = next("https://a]b");
    assert_eq!(Token::URL("https://a"), tok);
    assert_eq!("]b", rest);
    let (tok, rest) = next("https://a}b");
    assert_eq!(Token::URL("https://a"), tok);
    assert_eq!("}b", rest);
}

#[test]
fn parse_url_at_end_keeps_inner_dot() {
    let (tok, rest) = next("https://example.com/a.b");
    assert_eq!(Token::URL("https://example.com/a.b"), tok);
    assert_eq!("", rest);
}
