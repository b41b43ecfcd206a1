use saba_core::renderer::html::ascii::{is_ascii_alphabetic, is_ascii_uppercase, to_ascii_lowercase};
use saba_core::renderer::html::text::chars_of;

#[test]
fn letters_are_the_ascii_letters() {
    for c in ['a', 'm', 'z', 'A', 'M', 'Z'] {
        assert!(is_ascii_alphabetic(c), "{c}");
    }
    for c in ['@', '[', '`', '{', '0', ' ', '<', 'é', 'É', 'ß', 'あ', '\u{0}', '\u{10FFFF}'] {
        assert!(!is_ascii_alphabetic(c), "{c}");
    }
}

#[test]
fn capitals_are_the_ascii_capitals() {
    for c in ['A', 'M', 'Z'] {
        assert!(is_ascii_uppercase(c), "{c}");
    }
    for c in ['a', 'z', '@', '[', 'É', 'Ω'] {
        assert!(!is_ascii_uppercase(c), "{c}");
    }
}

#[test]
fn folding_moves_capitals_only() {
    assert_eq!(to_ascii_lowercase('A'), 'a');
    assert_eq!(to_ascii_lowercase('Q'), 'q');
    assert_eq!(to_ascii_lowercase('Z'), 'z');
    for c in ['a', 'z', '@', '[', '1', ' ', 'É', 'Ω', '\u{10FFFF}'] {
        assert_eq!(to_ascii_lowercase(c), c);
    }
}

#[test]
fn ascii_functions_agree_with_the_standard_library() {
    for c in '\u{0}'..='\u{10FFFF}' {
        assert_eq!(is_ascii_alphabetic(c), c.is_ascii_alphabetic());
        assert_eq!(is_ascii_uppercase(c), c.is_ascii_uppercase());
        assert_eq!(to_ascii_lowercase(c), c.to_ascii_lowercase());
    }
}

#[test]
fn chars_of_gives_the_scalar_values_in_order() {
    assert_eq!(chars_of(""), Vec::<char>::new());
    assert_eq!(chars_of("a<b"), vec!['a', '<', 'b']);
    assert_eq!(chars_of("é日\u{1F600}"), vec!['é', '日', '\u{1F600}']);
}
