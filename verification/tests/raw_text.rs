use saba_core::renderer::html::token::{HtmlToken, HtmlTokenizer};

fn raw(html: &str) -> Vec<HtmlToken> {
    let mut tokenizer = HtmlTokenizer::new(html.to_string());
    tokenizer.switch_to_script_data();
    tokenizer.drain()
}

fn text(s: &str) -> Vec<HtmlToken> {
    s.chars().map(HtmlToken::Char).collect()
}

fn end(tag: &str) -> HtmlToken {
    HtmlToken::EndTag { tag: tag.to_string() }
}

#[test]
fn raw_text_without_less_than_comes_out_as_written() {
    assert_eq!(raw("let A = b > 1 && c;"), text("let A = b > 1 && c;"));
    assert_eq!(raw(""), Vec::new());
}

#[test]
fn less_than_in_raw_text_is_text() {
    assert_eq!(raw("a<b"), text("a<b"));
    assert_eq!(raw("if (a < b) {}"), text("if (a < b) {}"));
    assert_eq!(raw("a<<b"), text("a<<b"));
}

#[test]
fn tags_in_raw_text_are_text() {
    assert_eq!(raw("<p>x"), text("<p>x"));
}

#[test]
fn closing_tag_ends_raw_text() {
    let mut expected = text("js code;");
    expected.push(end("script"));
    expected.push(HtmlToken::StartTag { tag: "p".to_string(), self_closing: false, attributes: Vec::new() });
    assert_eq!(raw("js code;</script><p>"), expected);
}

#[test]
fn closing_tag_in_raw_text_is_folded() {
    assert_eq!(raw("</SCRIPT>"), vec![end("script")]);
}

#[test]
fn failed_closing_tag_is_handed_back_as_text() {
    assert_eq!(raw("x</sc y"), text("x<sc y"));
    assert_eq!(raw("</Sc!>"), text("<Sc!>"));
}

#[test]
fn failed_closing_tag_at_the_very_end_is_handed_back() {
    assert_eq!(raw("</a!"), text("<a!"));
    assert_eq!(raw("a</b "), text("a<b "));
}

#[test]
fn closing_tag_after_a_failed_one() {
    let mut expected = text("<a ");
    expected.push(end("b"));
    assert_eq!(raw("</a </b>"), expected);
}

#[test]
fn slash_without_a_letter_in_raw_text() {
    assert_eq!(raw("a</1"), text("a<1"));
}

#[test]
fn unfinished_closing_tag_in_raw_text_gives_no_tag() {
    assert_eq!(raw("ab</scr"), text("ab"));
    assert_eq!(raw("ab<"), text("ab"));
    assert_eq!(raw("ab</"), text("ab"));
}

#[test]
fn switch_after_a_start_tag() {
    let mut tokenizer = HtmlTokenizer::new("<script>a<b;</script>c<d>".to_string());
    assert_eq!(
        tokenizer.next(),
        Some(HtmlToken::StartTag { tag: "script".to_string(), self_closing: false, attributes: Vec::new() }),
    );
    tokenizer.switch_to_script_data();
    let mut expected = text("a<b;");
    expected.push(end("script"));
    expected.push(HtmlToken::Char('c'));
    expected.push(HtmlToken::StartTag { tag: "d".to_string(), self_closing: false, attributes: Vec::new() });
    assert_eq!(tokenizer.drain(), expected);
}

#[test]
fn switch_drops_an_unfinished_replay() {
    let mut tokenizer = HtmlTokenizer::new("</ab cd".to_string());
    tokenizer.switch_to_script_data();
    assert_eq!(tokenizer.next(), Some(HtmlToken::Char('<')));
    tokenizer.switch_to_script_data();
    assert_eq!(tokenizer.drain(), text("cd"));
}

#[test]
fn end_of_raw_text_is_final() {
    let mut tokenizer = HtmlTokenizer::new("a<".to_string());
    tokenizer.switch_to_script_data();
    assert_eq!(tokenizer.next(), Some(HtmlToken::Char('a')));
    for _ in 0..4 {
        assert_eq!(tokenizer.next(), None);
    }
}
