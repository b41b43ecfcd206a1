use saba_core::renderer::html::attribute::Attribute;
use saba_core::renderer::html::token::{HtmlToken, HtmlTokenizer};

fn start(tag: &str, self_closing: bool, attributes: Vec<Attribute>) -> HtmlToken {
    HtmlToken::StartTag { tag: tag.to_string(), self_closing, attributes }
}

fn end(tag: &str) -> HtmlToken {
    HtmlToken::EndTag { tag: tag.to_string() }
}

fn attribute(name: &str, value: &str) -> Attribute {
    let mut a = Attribute::new();
    for c in name.chars() {
        a.add_char(c, true);
    }
    for c in value.chars() {
        a.add_char(c, false);
    }
    a
}

fn text(s: &str) -> Vec<HtmlToken> {
    s.chars().map(HtmlToken::Char).collect()
}

fn all(html: &str) -> Vec<HtmlToken> {
    HtmlTokenizer::new(html.to_string()).drain()
}

#[test]
fn attribute_starts_empty() {
    let a = Attribute::new();
    assert_eq!(a.name(), "");
    assert_eq!(a.value(), "");
}

#[test]
fn attribute_add_char_fills_name_or_value() {
    let mut a = Attribute::new();
    a.add_char('i', true);
    a.add_char('d', true);
    assert_eq!(a.name(), "id");
    assert_eq!(a.value(), "");
    a.add_char('X', false);
    a.add_char('y', false);
    assert_eq!(a.name(), "id");
    assert_eq!(a.value(), "Xy");
}

#[test]
fn attributes_are_equal_by_content() {
    assert_eq!(attribute("id", "B"), attribute("id", "B"));
    assert_ne!(attribute("id", "B"), attribute("id", "b"));
    assert_ne!(attribute("id", "B"), attribute("di", "B"));
}

#[test]
fn text_without_markup_comes_out_char_by_char() {
    assert_eq!(all("Hello, World"), text("Hello, World"));
    assert_eq!(all("a > b / c = \"d\""), text("a > b / c = \"d\""));
    assert_eq!(all("é日本"), text("é日本"));
}

#[test]
fn text_keeps_its_case() {
    assert_eq!(all("AbC"), vec![HtmlToken::Char('A'), HtmlToken::Char('b'), HtmlToken::Char('C')]);
}

#[test]
fn next_hands_out_one_token_per_call() {
    let mut tokenizer = HtmlTokenizer::new("a<b>c".to_string());
    assert_eq!(tokenizer.next(), Some(HtmlToken::Char('a')));
    assert_eq!(tokenizer.next(), Some(start("b", false, Vec::new())));
    assert_eq!(tokenizer.next(), Some(HtmlToken::Char('c')));
    assert_eq!(tokenizer.next(), None);
}

#[test]
fn end_of_stream_is_final() {
    let mut tokenizer = HtmlTokenizer::new("<p>x".to_string());
    assert_eq!(tokenizer.next(), Some(start("p", false, Vec::new())));
    assert_eq!(tokenizer.next(), Some(HtmlToken::Char('x')));
    for _ in 0..5 {
        assert_eq!(tokenizer.next(), None);
    }
    assert_eq!(tokenizer.drain(), Vec::new());
}

#[test]
fn empty_input_is_final_too() {
    let mut tokenizer = HtmlTokenizer::new(String::new());
    for _ in 0..3 {
        assert_eq!(tokenizer.next(), None);
    }
}

#[test]
fn tag_names_are_folded_to_lower_case() {
    assert_eq!(all("<BODY></Body>"), vec![start("body", false, Vec::new()), end("body")]);
    assert_eq!(all("<H1>"), vec![start("h1", false, Vec::new())]);
}

#[test]
fn attribute_names_are_folded_and_values_are_kept() {
    assert_eq!(
        all("<A HREF=\"Index.HTML\" Id='Top' CLASS=Big>"),
        vec![start(
            "a",
            false,
            vec![attribute("href", "Index.HTML"), attribute("id", "Top"), attribute("class", "Big")],
        )],
    );
}

#[test]
fn letters_outside_ascii_are_not_folded() {
    assert_eq!(all("<aÉ Ñ=Ü>"), vec![start("aÉ", false, vec![attribute("Ñ", "Ü")])]);
}

#[test]
fn attribute_without_value() {
    assert_eq!(all("<input disabled>"), vec![start("input", false, vec![attribute("disabled", "")])]);
    assert_eq!(
        all("<input disabled checked >"),
        vec![start("input", false, vec![attribute("disabled", ""), attribute("checked", "")])],
    );
}

#[test]
fn blanks_around_the_equals_sign_are_skipped() {
    assert_eq!(all("<a b = c>"), vec![start("a", false, vec![attribute("b", "c")])]);
    assert_eq!(all("<a b =  \"c d\">"), vec![start("a", false, vec![attribute("b", "c d")])]);
}

#[test]
fn quoted_values_may_hold_markup_characters() {
    assert_eq!(all("<a b=\"<c> / 'd'\">"), vec![start("a", false, vec![attribute("b", "<c> / 'd'")])]);
    assert_eq!(all("<a b='<c> / \"d\"'>"), vec![start("a", false, vec![attribute("b", "<c> / \"d\"")])]);
}

#[test]
fn unquoted_value_ends_at_blank_or_closing() {
    assert_eq!(
        all("<a b=c/d e=f>"),
        vec![start("a", false, vec![attribute("b", "c/d"), attribute("e", "f")])],
    );
}

#[test]
fn attribute_right_after_a_quoted_value() {
    assert_eq!(
        all("<a b=\"c\"d=e>"),
        vec![start("a", false, vec![attribute("b", "c"), attribute("d", "e")])],
    );
}

#[test]
fn self_closing_forms() {
    assert_eq!(all("<br/>"), vec![start("br", true, Vec::new())]);
    assert_eq!(all("<br />"), vec![start("br", true, Vec::new())]);
    assert_eq!(all("<img src=\"a.png\"/>"), vec![start("img", true, vec![attribute("src", "a.png")])]);
    assert_eq!(all("<img alt />"), vec![start("img", true, vec![attribute("alt", "")])]);
}

#[test]
fn characters_after_the_slash_are_skipped() {
    assert_eq!(all("<br/ x>"), vec![start("br", true, Vec::new())]);
}

#[test]
fn less_than_sign_that_opens_no_tag_is_dropped() {
    assert_eq!(all("1<2"), text("12"));
    assert_eq!(all("a < b"), text("a  b"));
}

#[test]
fn end_tag_open_skips_what_is_no_letter() {
    assert_eq!(all("</ 1p>"), vec![end("p")]);
}

#[test]
fn end_tag_carries_no_attributes_and_no_mark() {
    assert_eq!(all("</p class=\"x\">"), vec![end("p")]);
    assert_eq!(all("</p x>y"), vec![end("p"), HtmlToken::Char('y')]);
    assert_eq!(all("</br/>"), vec![end("br")]);
    assert_eq!(all("</p >"), vec![end("p")]);
}

#[test]
fn unclosed_tag_at_the_end_gives_no_token() {
    for html in ["<", "</", "<p", "</p", "<p ", "<p a", "<p a=", "<p a=\"b", "<p a='b", "<p a=b", "<p a=\"b\"", "<br/"] {
        let mut tokenizer = HtmlTokenizer::new(html.to_string());
        assert_eq!(tokenizer.next(), None, "{html}");
        assert_eq!(tokenizer.next(), None, "{html}");
    }
}

#[test]
fn unclosed_tag_after_text_ends_the_stream() {
    assert_eq!(all("ab<p class=\"x\""), text("ab"));
    assert_eq!(all("<a>b</a"), vec![start("a", false, Vec::new()), HtmlToken::Char('b')]);
}

#[test]
fn eof_token_is_never_made() {
    for html in ["", "a", "<", "<p", "<p>", "<p a=b", "</p", "a<b>c</b>d"] {
        for token in all(html) {
            assert_ne!(token, HtmlToken::Eof);
        }
    }
}

#[test]
fn drain_gives_what_repeated_next_gives() {
    let html = "<ul><li class=a>One</li><li>Two</li></ul><br/>tail";
    let mut one = HtmlTokenizer::new(html.to_string());
    let mut by_next = Vec::new();
    while let Some(token) = one.next() {
        by_next.push(token);
    }
    assert_eq!(by_next.len(), 17);
    assert_eq!(all(html), by_next);
}

#[test]
fn drain_takes_up_where_next_left() {
    let mut tokenizer = HtmlTokenizer::new("<p>ab</p>".to_string());
    assert_eq!(tokenizer.next(), Some(start("p", false, Vec::new())));
    assert_eq!(tokenizer.drain(), vec![HtmlToken::Char('a'), HtmlToken::Char('b'), end("p")]);
    assert_eq!(tokenizer.next(), None);
}

#[test]
fn document_with_nested_tags() {
    let mut expected = vec![
        start("html", false, Vec::new()),
        start("body", false, vec![attribute("id", "main")]),
        start("p", false, Vec::new()),
    ];
    expected.extend(text("Hi "));
    expected.push(start("b", false, Vec::new()));
    expected.extend(text("you"));
    expected.push(end("b"));
    expected.push(end("p"));
    expected.push(end("body"));
    expected.push(end("html"));
    assert_eq!(all("<html><body id=main><p>Hi <b>you</b></p></body></html>"), expected);
}

#[test]
fn clone_goes_on_independently() {
    let mut first = HtmlTokenizer::new("<a>b".to_string());
    assert_eq!(first.next(), Some(start("a", false, Vec::new())));
    let mut second = first.clone();
    assert_eq!(first, second);
    assert_eq!(first.next(), Some(HtmlToken::Char('b')));
    assert_ne!(first, second);
    assert_eq!(second.next(), Some(HtmlToken::Char('b')));
    assert_eq!(first.next(), None);
    assert_eq!(second.next(), None);
}

#[test]
fn all_forms_of_attributes_in_one_tag() {
    assert_eq!(
        all("<P c=\"A\" i='B' F=ba d /></p>"),
        vec![
            start(
                "p",
                true,
                vec![attribute("c", "A"), attribute("i", "B"), attribute("f", "ba"), attribute("d", "")],
            ),
            end("p"),
        ],
    );
}

#[test]
fn slash_right_after_an_unquoted_value_joins_the_value() {
    assert_eq!(all("<a b=c/>"), vec![start("a", false, vec![attribute("b", "c/")])]);
}

#[test]
fn blank_before_the_closing() {
    assert_eq!(all("<a >"), vec![start("a", false, Vec::new())]);
    assert_eq!(all("<a b >"), vec![start("a", false, vec![attribute("b", "")])]);
    assert_eq!(all("<a b=c >"), vec![start("a", false, vec![attribute("b", "c")])]);
    assert_eq!(all("<a b='c' >"), vec![start("a", false, vec![attribute("b", "c")])]);
}

#[test]
fn empty_quoted_value() {
    assert_eq!(all("<a b=\"\" c=''>"), vec![start("a", false, vec![attribute("b", ""), attribute("c", "")])]);
}
