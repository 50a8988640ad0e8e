use ray_tracing_in_a_weekend::obj_loader::LineType;
use ray_tracing_in_a_weekend::obj_loader::Scanner;
use ray_tracing_in_a_weekend::obj_loader::ScannerError;

fn scanner(s: &str) -> Scanner {
    Scanner::new(s.chars().collect())
}

fn text(chars: &[char]) -> String {
    chars.iter().collect()
}

#[test]
fn peek_and_take_walk_the_line() {
    let mut sc = scanner("ab");
    assert_eq!(sc.peek(), Some('a'));
    assert_eq!(sc.try_take(), Some('a'));
    assert_eq!(sc.peek(), Some('b'));
    assert_eq!(sc.take().unwrap(), 'b');
    assert_eq!(sc.peek(), None);
    assert_eq!(sc.try_take(), None);
    assert!(matches!(sc.take(), Err(ScannerError::UnexpectedEndOfFile)));
}

#[test]
fn try_take_char_consumes_only_on_match() {
    let mut sc = scanner("xy");
    assert_eq!(sc.try_take_char('y'), None);
    assert_eq!(sc.try_take_char('x'), Some('x'));
    assert_eq!(sc.peek(), Some('y'));
}

#[test]
fn try_take_char_fn_uses_the_predicate() {
    let mut sc = scanner("7a");
    assert_eq!(sc.try_take_char_fn(|c| c.is_ascii_digit()), Some('7'));
    assert_eq!(sc.try_take_char_fn(|c| c.is_ascii_digit()), None);
    assert_eq!(sc.peek(), Some('a'));
}

#[test]
fn whitespace_runs_are_consumed() {
    let mut sc = scanner("   x");
    sc.take_at_least_one_whitespace().unwrap();
    assert_eq!(sc.peek(), Some('x'));

    let mut sc = scanner("x");
    assert!(matches!(
        sc.take_at_least_one_whitespace(),
        Err(ScannerError::ExpectedAtLeastOnWhitespace)
    ));
    assert_eq!(sc.peek(), Some('x'));

    let mut sc = scanner("x");
    sc.take_any_whitespace().unwrap();
    assert_eq!(sc.peek(), Some('x'));
}

#[test]
fn take_str_digits_reads_the_digit_prefix() {
    let mut sc = scanner("123x");
    let d = sc.take_str_digits().unwrap();
    assert_eq!(text(&d), "123");
    assert_eq!(sc.peek(), Some('x'));

    let mut sc = scanner("x123");
    assert!(matches!(
        sc.take_str_digits(),
        Err(ScannerError::ExpectedDigits)
    ));
    assert_eq!(sc.peek(), Some('x'));
}

#[test]
fn take_usize_parses_decimal() {
    let mut sc = scanner("42 7");
    assert_eq!(sc.take_usize().unwrap(), 42);
    sc.take_any_whitespace().unwrap();
    assert_eq!(sc.take_usize().unwrap(), 7);
}

#[test]
fn take_usize_rejects_overflow_and_non_digits() {
    let mut sc = scanner("99999999999999999999999999");
    assert!(matches!(sc.take_usize(), Err(ScannerError::UsizeFormat)));

    let mut sc = scanner("abc");
    assert!(matches!(sc.take_usize(), Err(ScannerError::ExpectedDigits)));
}

#[test]
fn take_float_digits_reads_signed_literals() {
    let mut sc = scanner("-12.5 x");
    assert_eq!(text(&sc.take_float_digits().unwrap()), "-12.5");
    assert_eq!(sc.peek(), Some(' '));

    let mut sc = scanner("3");
    assert_eq!(text(&sc.take_float_digits().unwrap()), "3");

    let mut sc = scanner("-");
    assert!(matches!(
        sc.take_float_digits(),
        Err(ScannerError::ExpectedDigits)
    ));

    let mut sc = scanner("1.x");
    assert!(matches!(
        sc.take_float_digits(),
        Err(ScannerError::ExpectedDigits)
    ));
}

#[test]
fn take_vertex_reads_every_reference_form() {
    let mut sc = scanner("1");
    assert_eq!(sc.take_vertex().unwrap(), (0, None, None));

    let mut sc = scanner("1/2");
    assert_eq!(sc.take_vertex().unwrap(), (0, Some(1), None));

    let mut sc = scanner("1//3");
    assert_eq!(sc.take_vertex().unwrap(), (0, None, Some(2)));

    let mut sc = scanner("4/2/3");
    assert_eq!(sc.take_vertex().unwrap(), (3, Some(1), Some(2)));
}

#[test]
fn take_vertex_rejects_the_zero_index() {
    let mut sc = scanner("0");
    assert!(matches!(
        sc.take_vertex(),
        Err(ScannerError::PosIdOutOfRange(0))
    ));
}

#[test]
fn parse_line_classifies_positions() {
    match Scanner::parse_line("v 1.0 -2.5 3".chars().collect()).unwrap() {
        LineType::V(v) => {
            assert_eq!(text(&v.e[0]), "1.0");
            assert_eq!(text(&v.e[1]), "-2.5");
            assert_eq!(text(&v.e[2]), "3");
        }
        _ => panic!("expected a position line"),
    }
}

#[test]
fn parse_line_classifies_normals_and_texture_coords() {
    match Scanner::parse_line("vn 0 1 0".chars().collect()).unwrap() {
        LineType::Vn(v) => {
            assert_eq!(text(&v.e[0]), "0");
            assert_eq!(text(&v.e[1]), "1");
            assert_eq!(text(&v.e[2]), "0");
        }
        _ => panic!("expected a normal line"),
    }
    match Scanner::parse_line("vt 0.25 0.75".chars().collect()).unwrap() {
        LineType::Vt(v) => {
            assert_eq!(text(&v.x), "0.25");
            assert_eq!(text(&v.y), "0.75");
        }
        _ => panic!("expected a texture coordinate line"),
    }
}

#[test]
fn parse_line_classifies_faces() {
    match Scanner::parse_line("f 1//1 2//1 3//1 4//1".chars().collect()).unwrap() {
        LineType::F(ids) => {
            assert_eq!(
                ids,
                vec![
                    (0, None, Some(0)),
                    (1, None, Some(0)),
                    (2, None, Some(0)),
                    (3, None, Some(0)),
                ]
            );
        }
        _ => panic!("expected a face line"),
    }
}

#[test]
fn parse_line_takes_faces_with_odd_spacing() {
    match Scanner::parse_line("f  1//1   2//1 3//1 ".chars().collect()).unwrap() {
        LineType::F(ids) => assert_eq!(ids.len(), 3),
        _ => panic!("expected a face line"),
    }
    match Scanner::parse_line("f ".chars().collect()).unwrap() {
        LineType::F(ids) => assert_eq!(ids, vec![]),
        _ => panic!("expected a face line"),
    }
}

#[test]
fn parse_line_classifies_the_rest() {
    assert!(matches!(
        Scanner::parse_line("# anything".chars().collect()).unwrap(),
        LineType::Comment
    ));
    assert!(matches!(
        Scanner::parse_line("o cube".chars().collect()).unwrap(),
        LineType::Object
    ));
    assert!(matches!(
        Scanner::parse_line("s off".chars().collect()).unwrap(),
        LineType::Unknown
    ));
    assert!(matches!(
        Scanner::parse_line("".chars().collect()).unwrap(),
        LineType::Unknown
    ));
}

#[test]
fn parse_line_reports_malformed_numbers() {
    assert!(matches!(
        Scanner::parse_line("v 1.0 x 3".chars().collect()),
        Err(ScannerError::ExpectedDigits)
    ));
    assert!(matches!(
        Scanner::parse_line("v1 2 3".chars().collect()),
        Err(ScannerError::ExpectedAtLeastOnWhitespace)
    ));
}
