use saba_core::renderer::html::attribute::Attribute;
use saba_core::renderer::html::token::{HtmlToken, HtmlTokenizer};

#[test]
fn test_empty() {
    let html = "".to_string();
    let mut tokenizer = HtmlTokenizer::new(html);
    assert!(tokenizer.next().is_none());
}

#[test]
fn test_start_and_end_tag() {
    let html = "<body></body>".to_string();
    let mut tokenizer = HtmlTokenizer::new(html);
    let expected = [
        HtmlToken::StartTag {
            tag: "body".to_string(),
            self_closing: false,
            attributes: Vec::new(),
        },
        HtmlToken::EndTag {
            tag: "body".to_string(),
        },
    ];
    for e in expected {
        assert_eq!(Some(e), tokenizer.next());
    }
}

#[test]
fn test_attributes() {
    let html = "<p class=\"A\" id='B' foo=bar></p>".to_string();
    let mut tokenizer = HtmlTokenizer::new(html);

    let mut attr1 = Attribute::new();
    for c in "class".chars() {
        attr1.add_char(c, true);
    }
    attr1.add_char('A', false);
    let mut attr2 = Attribute::new();
    for c in "id".chars() {
        attr2.add_char(c, true);
    }
    attr2.add_char('B', false);
    let mut attr3 = Attribute::new();
    for c in "foo".chars() {
        attr3.add_char(c, true);
    }
    for c in "bar".chars() {
        attr3.add_char(c, false);
    }
    let expected = [
        HtmlToken::StartTag {
            tag: "p".to_string(),
            self_closing: false,
            attributes: vec![attr1, attr2, attr3],
        },
        HtmlToken::EndTag {
            tag: "p".to_string(),
        },
    ];

    for e in expected {
        assert_eq!(Some(e), tokenizer.next());
    }
}

#[test]
fn test_self_closing_tag() {
    let html = "<img />".to_string();
    let mut tokenizer = HtmlTokenizer::new(html);
    let expected = [HtmlToken::StartTag {
        tag: "img".to_string(),
        self_closing: true,
        attributes: Vec::new(),
    }];
    for e in expected {
        assert_eq!(Some(e), tokenizer.next());
    }
}

#[test]
fn test_script_tag() {
    let html = "<script>js code;</script>".to_string();
    let mut tokenizer = HtmlTokenizer::new(html);
    let mut expected = Vec::new();
    expected.push(HtmlToken::StartTag {
        tag: "script".to_string(),
        self_closing: false,
        attributes: Vec::new(),
    });
    for c in "js code;".chars() {
        expected.push(HtmlToken::Char(c));
    }
    expected.push(HtmlToken::EndTag {
        tag: "script".to_string(),
    });
    for e in expected {
        assert_eq!(Some(e), tokenizer.next());
    }
}
