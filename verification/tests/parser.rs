use jsruntime::{locate, parse_input, ParseError};

#[test]
fn parsed_module_is_handed_on() {
    let r = parse_input("let x = 1;", Ok::<u32, ParseError>(5));
    assert!(matches!(r, Ok(5)));
}

#[test]
fn error_on_first_line() {
    let r = parse_input::<()>(
        "let = 1;",
        Err(ParseError { offset: 4, message: "expected an identifier".to_string() }),
    );
    match r {
        Err(e) => {
            assert_eq!(e.message, "expected an identifier");
            assert_eq!((e.line, e.column), (1, 5));
        }
        Ok(_) => panic!("expected a syntax error"),
    }
}

#[test]
fn error_on_a_later_line() {
    let text = "a;\nb;\n  c d;";
    let r = parse_input::<()>(text, Err(ParseError { offset: 10, message: "unexpected d".to_string() }));
    match r {
        Err(e) => assert_eq!((e.line, e.column), (3, 5)),
        Ok(_) => panic!("expected a syntax error"),
    }
}

#[test]
fn locate_edges() {
    assert_eq!(locate("", 0), (1, 1));
    assert_eq!(locate("abc", 0), (1, 1));
    // Just after a line break.
    assert_eq!(locate("ab\ncd", 3), (2, 1));
    // At the line break itself.
    assert_eq!(locate("ab\ncd", 2), (1, 3));
    // Beyond the end: the end of the text.
    assert_eq!(locate("ab\ncd", 100), (2, 3));
    // Characters, not bytes.
    assert_eq!(locate("é\nü x", 4), (2, 3));
}
