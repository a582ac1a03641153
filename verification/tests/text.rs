use winfu::lines::line_ranges;
use winfu::text::{chars_of, contains_exec, count_char_exec, is_whitespace, trim_bounds};

#[test]
fn chars_in_order() {
    assert_eq!(chars_of("aé}"), vec!['a', 'é', '}']);
}

#[test]
fn trimming_bounds() {
    let v = chars_of(" \t }\u{3000}\n");
    assert_eq!(trim_bounds(&v, 0, v.len()), (3, 4));
    let w = chars_of("   ");
    let (a, b) = trim_bounds(&w, 0, w.len());
    assert_eq!(a, b);
}

#[test]
fn whitespace_set() {
    assert!(is_whitespace('\u{85}'));
    assert!(is_whitespace('\u{2028}'));
    assert!(!is_whitespace('\u{200b}'));
    assert!(!is_whitespace('}'));
}

#[test]
fn substring_search() {
    assert!(contains_exec(&chars_of("abcabd"), &chars_of("abd")));
    assert!(!contains_exec(&chars_of("abcab"), &chars_of("abd")));
    assert!(contains_exec(&chars_of(""), &chars_of("")));
    assert!(!contains_exec(&chars_of("a"), &chars_of("ab")));
}

#[test]
fn counting() {
    let v = chars_of("{ { } }}");
    assert_eq!(count_char_exec(&v, 0, v.len(), '{'), 2);
    assert_eq!(count_char_exec(&v, 0, v.len(), '}'), 3);
}

#[test]
fn lines_like_bufread() {
    let v = chars_of("a\r\nb\n\nc\r");
    assert_eq!(line_ranges(&v), vec![(0, 1), (3, 4), (5, 5), (6, 8)]);
    assert_eq!(line_ranges(&chars_of("x\n")), vec![(0, 1)]);
    assert_eq!(line_ranges(&chars_of("")), Vec::<(usize, usize)>::new());
}
