use obsidized::ast::Expression;
use obsidized::parser::utils::Fenced;
use obsidized::parser::utils::Styled;
use obsidized::parser::utils::fenced;
use obsidized::parser::utils::fenced_char;
use obsidized::parser::utils::new_line;
use obsidized::parser::utils::non_whitespace;
use obsidized::parser::utils::style;
use obsidized::parser::utils::style_char;
use obsidized::parser::utils::word;

#[test]
fn non_whitespace_checks_the_low_byte() {
    assert!(non_whitespace('a'));
    assert!(!non_whitespace(' '));
    assert!(!non_whitespace('\t'));
    assert!(!non_whitespace('\n'));
    assert!(non_whitespace('\r'));
}

#[test]
fn word_takes_the_leading_word() {
    assert_eq!(word("hello world"), Some(("hello", " world")));
    assert_eq!(word("hello"), Some(("hello", "")));
    assert_eq!(word(" leading"), None);
    assert_eq!(word(""), None);
}

#[test]
fn new_line_recognizes_both_endings() {
    assert_eq!(new_line("\nrest"), Some(("\n", "rest")));
    assert_eq!(new_line("\r\nrest"), Some(("\r\n", "rest")));
    assert_eq!(new_line("rest"), None);
}

#[test]
fn fenced_takes_first_occurrence_of_the_end() {
    match fenced("[[a]]b", "[[", "]]") {
        Fenced::Hit { inner, rest } => {
            assert_eq!(inner, "a");
            assert_eq!(rest, "b");
        },
        _ => panic!("expected a hit"),
    }
    assert!(matches!(fenced("x[[a]]", "[[", "]]"), Fenced::Miss));
    assert!(matches!(fenced("[[never", "[[", "]]"), Fenced::Unterminated));
}

#[test]
fn fenced_char_stops_at_the_character() {
    match fenced_char("$x+y$z", '$', '$') {
        Fenced::Hit { inner, rest } => {
            assert_eq!(inner, "x+y");
            assert_eq!(rest, "z");
        },
        _ => panic!("expected a hit"),
    }
    assert!(matches!(fenced_char("abc", '$', '$'), Fenced::Miss));
    assert!(matches!(fenced_char("$abc", '$', '$'), Fenced::Unterminated));
}

#[test]
fn style_parses_the_interior() {
    match style("**bold** tail", "**") {
        Styled::Hit { children, rest } => {
            assert_eq!(children, vec![Expression::Text("bold".to_string())]);
            assert_eq!(rest, " tail");
        },
        _ => panic!("expected a hit"),
    }
    assert!(matches!(style("plain", "**"), Styled::Miss));
    assert!(matches!(style("**open", "**"), Styled::Failed));
}

#[test]
fn style_char_parses_the_interior() {
    match style_char("=x=y", '=') {
        Styled::Hit { children, rest } => {
            assert_eq!(children, vec![Expression::Text("x".to_string())]);
            assert_eq!(rest, "y");
        },
        _ => panic!("expected a hit"),
    }
    assert!(matches!(style_char("plain", '='), Styled::Miss));
}
