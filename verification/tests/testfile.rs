use harness::error::Error;
use harness::loader::TestCase;
use harness::testfile::{parse_tests, serialize_tests, split_lines};

fn case(name: &str, input: Option<&str>, output: Option<&str>) -> TestCase {
    TestCase {
        name: name.to_string(),
        input: input.map(|s| s.as_bytes().to_vec()),
        output: output.map(|s| s.as_bytes().to_vec()),
    }
}

fn parse(doc: &str) -> Result<Vec<TestCase>, Error> {
    parse_tests(&doc.as_bytes().to_vec())
}

#[test]
fn lines_end_at_line_feeds() {
    assert_eq!(split_lines(&b"a\nb\n".to_vec()), vec![b"a".to_vec(), b"b".to_vec()]);
    assert_eq!(split_lines(&b"a\nb".to_vec()), vec![b"a".to_vec(), b"b".to_vec()]);
    assert_eq!(split_lines(&b"a\n\nb\n\n".to_vec()), vec![b"a".to_vec(), b"".to_vec(), b"b".to_vec(), b"".to_vec()]);
    assert_eq!(split_lines(&b"".to_vec()), Vec::<Vec<u8>>::new());
    assert_eq!(split_lines(&b"\n".to_vec()), vec![b"".to_vec()]);
    assert_eq!(split_lines(&b"a\r\n".to_vec()), vec![b"a\r".to_vec()]);
}

#[test]
fn single_signs_give_one_line() {
    assert_eq!(parse("|square\n< 5\n> 25\n"), Ok(vec![case("square", Some("5\n"), Some("25\n"))]));
    assert_eq!(parse("|square\n<5\n>25"), Ok(vec![case("square", Some("5\n"), Some("25\n"))]));
    assert_eq!(parse("|t\n< \t a b \n"), Ok(vec![case("t", Some("a b \n"), None)]));
    assert_eq!(parse("|t\n<\n"), Ok(vec![case("t", Some("\n"), None)]));
    assert_eq!(parse("|t\n< <x\n> >y\n"), Ok(vec![case("t", Some("<x\n"), Some(">y\n"))]));
}

#[test]
fn double_signs_take_the_lines_that_follow() {
    assert_eq!(
        parse("|sum\n<<\n1\n2\n\n3\n>>\n6\n"),
        Ok(vec![case("sum", Some("1\n2\n\n3\n"), Some("6\n"))])
    );
    assert_eq!(parse("|t\n<<\n  indented\n"), Ok(vec![case("t", Some("  indented\n"), None)]));
    assert_eq!(parse("|t\n<< ignored\nx\n"), Ok(vec![case("t", Some("x\n"), None)]));
}

#[test]
fn absent_is_not_empty() {
    assert_eq!(parse("|none\n"), Ok(vec![case("none", None, None)]));
    assert_eq!(parse("|empty\n<<\n>>\n"), Ok(vec![case("empty", Some(""), Some(""))]));
    assert_eq!(parse("|in only\n<<\n"), Ok(vec![case("in only", Some(""), None)]));
    assert_eq!(parse("|out only\n> x\n"), Ok(vec![case("out only", None, Some("x\n"))]));
    assert_eq!(parse(""), Ok(Vec::new()));
    assert_eq!(parse("\n\n"), Ok(Vec::new()));
}

#[test]
fn records_follow_one_another() {
    let doc = "|first\n< 1\n> 1\n\n|second\n<<\na\nb\n>>\nc\nd\n|\n|fourth\n> x\n";
    assert_eq!(
        parse(doc),
        Ok(vec![
            case("first", Some("1\n"), Some("1\n")),
            case("second", Some("a\nb\n"), Some("c\nd\n")),
            case("", None, None),
            case("fourth", None, Some("x\n")),
        ])
    );
}

#[test]
fn a_field_grows_with_every_sign() {
    assert_eq!(parse("|t\n< a\n< b\n"), Ok(vec![case("t", Some("a\nb\n"), None)]));
    assert_eq!(parse("|t\n< a\n<<\nb\n> x\n<<\nc\n"), Ok(vec![case("t", Some("a\nb\nc\n"), Some("x\n"))]));
}

#[test]
fn names_are_taken_as_they_stand() {
    assert_eq!(parse("| spaced name \n"), Ok(vec![case(" spaced name ", None, None)]));
    assert_eq!(parse("|größe ✓\n"), Ok(vec![case("größe ✓", None, None)]));
    assert_eq!(parse("||bar\n"), Ok(vec![case("|bar", None, None)]));
}

#[test]
fn what_belongs_nowhere_is_a_fault() {
    assert_eq!(parse("stray\n|t\n"), Err(Error::Stray { line: 0 }));
    assert_eq!(parse("< 5\n"), Err(Error::Stray { line: 0 }));
    assert_eq!(parse("\n>>\n"), Err(Error::Stray { line: 1 }));
    assert_eq!(parse("|t\n< 5\nmore\n"), Err(Error::Stray { line: 2 }));
    assert_eq!(parse("|t\ntext\n"), Err(Error::Stray { line: 1 }));
    assert_eq!(parse("|t\n \n"), Err(Error::Stray { line: 1 }));
    assert_eq!(parse("|a\n|b\nx\n|c\ny\n"), Err(Error::Stray { line: 2 }));
}

#[test]
fn a_name_must_be_utf8() {
    assert_eq!(parse_tests(&vec![b'|', b'a', 0xff, b'\n']), Err(Error::Name { line: 0 }));
    assert_eq!(parse_tests(&vec![b'|', b'a', b'\n', b'|', 0xc3, b'\n']), Err(Error::Name { line: 1 }));
    assert_eq!(
        parse_tests(&vec![b'|', b't', b'\n', b'<', b' ', 0xff, b'\n']),
        Ok(vec![TestCase { name: "t".to_string(), input: Some(vec![0xff, b'\n']), output: None }])
    );
}

#[test]
fn a_document_is_written_field_by_field() {
    let records = vec![
        case("square", Some("5\n"), Some("25\n")),
        case("sum", Some("1\n2\n"), Some("3\n")),
        case("none", None, None),
        case("empty", Some(""), Some("")),
        case("mixed", Some("a\n"), Some("x\n\ny\n")),
    ];
    let expected = "|square\n< 5\n> 25\n|sum\n<<\n1\n2\n> 3\n|none\n|empty\n<<\n>>\n|mixed\n< a\n>>\nx\n\ny\n";
    assert_eq!(serialize_tests(&records), expected.as_bytes().to_vec());
    assert_eq!(serialize_tests(&Vec::new()), Vec::<u8>::new());
}

#[test]
fn what_is_written_reads_back() {
    let records = vec![
        case("one line each", Some("5\n"), Some("25\n")),
        case("many lines each", Some("1\n2\n3\n"), Some("a\n\nb\n")),
        case("one and many", Some("<sign\n"), Some("  indented\nplain\n")),
        case("many and one", Some("x\ny\n"), Some("|bar\n")),
        case("absent", None, None),
        case("empty", Some(""), Some("")),
        case("input only", Some("\n"), None),
        case("output only", None, Some("\n\n")),
        case("größe ✓", Some("ü\n"), Some("✓\n✓\n")),
        case("", Some("last\n"), None),
    ];
    let written = serialize_tests(&records);
    assert_eq!(parse_tests(&written), Ok(records));
}

#[test]
fn what_is_not_portable_changes_on_the_way() {
    let unterminated = vec![case("t", Some("5"), None)];
    assert_eq!(parse_tests(&serialize_tests(&unterminated)), Ok(vec![case("t", Some("5\n"), None)]));
    let indented = vec![case("t", Some(" 5\n"), None)];
    assert_eq!(parse_tests(&serialize_tests(&indented)), Ok(vec![case("t", Some("5\n"), None)]));
    let signed = vec![case("t", Some("a\n|b\n"), None)];
    assert_eq!(
        parse_tests(&serialize_tests(&signed)),
        Ok(vec![case("t", Some("a\n"), None), case("b", None, None)])
    );
    let named = vec![case("two\nlines", None, None)];
    assert_eq!(parse_tests(&serialize_tests(&named)), Err(Error::Stray { line: 1 }));
}
