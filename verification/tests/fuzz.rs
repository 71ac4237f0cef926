use harness::error::Error;
use harness::fuzz::{is_enclosed, read_range, split, FuzzConfig, FuzzInput, InputTemplate};

fn text(s: &str) -> InputTemplate {
    InputTemplate::Const(s.to_string())
}

fn chars(s: &str) -> Vec<char> {
    s.chars().collect()
}

#[test]
fn a_range_in_parentheses() {
    assert_eq!(InputTemplate::parse("(3-7)"), Ok(InputTemplate::RandInt(FuzzInput { min: 3, max: 7 })));
}

#[test]
fn a_list_of_three_kinds() {
    let parsed = InputTemplate::parse("[a,(1-2),{x,y}]").unwrap();
    let expected = InputTemplate::List(vec![
        text("a"),
        InputTemplate::RandInt(FuzzInput { min: 1, max: 2 }),
        InputTemplate::Choice(vec![text("x"), text("y")]),
    ]);
    assert_eq!(parsed, expected);
    match parsed {
        InputTemplate::List(parts) => {
            assert_eq!(parts.len(), 3);
            assert!(matches!(parts[0], InputTemplate::Const(_)));
            assert!(matches!(parts[1], InputTemplate::RandInt(_)));
            assert!(matches!(parts[2], InputTemplate::Choice(_)));
        }
        _ => panic!("not a list"),
    }
}

#[test]
fn any_other_text_stands_for_itself() {
    assert_eq!(InputTemplate::parse("hello"), Ok(text("hello")));
    assert_eq!(InputTemplate::parse(""), Ok(text("")));
    assert_eq!(InputTemplate::parse("a[b"), Ok(text("a[b")));
    assert_eq!(InputTemplate::parse("a,b"), Ok(text("a,b")));
    assert_eq!(InputTemplate::parse("3-7"), Ok(text("3-7")));
    assert_eq!(InputTemplate::parse("]"), Ok(text("]")));
    assert_eq!(InputTemplate::parse(" [a]"), Ok(text(" [a]")));
    assert_eq!(InputTemplate::parse("héllo ✓"), Ok(text("héllo ✓")));
}

#[test]
fn commas_inside_brackets_do_not_split() {
    assert_eq!(
        InputTemplate::parse("[{a,b},[c,d],e]"),
        Ok(InputTemplate::List(vec![
            InputTemplate::Choice(vec![text("a"), text("b")]),
            InputTemplate::List(vec![text("c"), text("d")]),
            text("e"),
        ]))
    );
    assert_eq!(
        InputTemplate::parse("{x(,)y,z}"),
        Ok(InputTemplate::Choice(vec![text("x(,)y"), text("z")]))
    );
}

#[test]
fn empty_brackets_hold_one_empty_part() {
    assert_eq!(InputTemplate::parse("[]"), Ok(InputTemplate::List(vec![text("")])));
    assert_eq!(InputTemplate::parse("{}"), Ok(InputTemplate::Choice(vec![text("")])));
    assert_eq!(InputTemplate::parse("[,]"), Ok(InputTemplate::List(vec![text(""), text("")])));
    assert_eq!(InputTemplate::parse("[ a , b ]"), Ok(InputTemplate::List(vec![text(" a "), text(" b ")])));
}

#[test]
fn brackets_that_do_not_pair_up() {
    for bad in ["[a", "[a][b]", "(1-2", "{a]", "[(])x]", "[", "[a]]", "[[a]"] {
        assert_eq!(InputTemplate::parse(bad), Err(Error::Brackets { fragment: bad.to_string() }), "{}", bad);
    }
    assert_eq!(
        InputTemplate::parse("[ok,{a,b)]"),
        Err(Error::Brackets { fragment: "{a,b)".to_string() })
    );
    assert_eq!(InputTemplate::parse("[[x,(1-2]"), Err(Error::Brackets { fragment: "[[x,(1-2]".to_string() }));
}

#[test]
fn the_first_fault_is_reported() {
    assert_eq!(
        InputTemplate::parse("[(1-x),(2-3-4)]"),
        Err(Error::Bound { fragment: "x".to_string() })
    );
    assert_eq!(
        InputTemplate::parse("[(2-3-4),(1-x)]"),
        Err(Error::Hyphens { fragment: "2-3-4".to_string() })
    );
}

#[test]
fn ranges_and_their_faults() {
    assert_eq!(FuzzInput::parse("3-7"), Ok(FuzzInput { min: 3, max: 7 }));
    assert_eq!(FuzzInput::parse(" 3 -\t7 "), Ok(FuzzInput { min: 3, max: 7 }));
    assert_eq!(FuzzInput::parse("+3-+7"), Ok(FuzzInput { min: 3, max: 7 }));
    assert_eq!(FuzzInput::parse("7-3"), Ok(FuzzInput { min: 7, max: 3 }));
    assert_eq!(FuzzInput::parse("0-9223372036854775807"), Ok(FuzzInput { min: 0, max: i64::MAX }));
    assert_eq!(FuzzInput::parse("37"), Err(Error::Hyphens { fragment: "37".to_string() }));
    assert_eq!(FuzzInput::parse(""), Err(Error::Hyphens { fragment: "".to_string() }));
    assert_eq!(FuzzInput::parse("-5-5"), Err(Error::Hyphens { fragment: "-5-5".to_string() }));
    assert_eq!(FuzzInput::parse("1-2-3"), Err(Error::Hyphens { fragment: "1-2-3".to_string() }));
    assert_eq!(FuzzInput::parse("a-7"), Err(Error::Bound { fragment: "a".to_string() }));
    assert_eq!(FuzzInput::parse("3- x "), Err(Error::Bound { fragment: " x ".to_string() }));
    assert_eq!(FuzzInput::parse("-7"), Err(Error::Bound { fragment: "".to_string() }));
    assert_eq!(FuzzInput::parse("3-"), Err(Error::Bound { fragment: "".to_string() }));
    assert_eq!(FuzzInput::parse("1.5-2"), Err(Error::Bound { fragment: "1.5".to_string() }));
    assert_eq!(
        FuzzInput::parse("0-9223372036854775808"),
        Err(Error::Bound { fragment: "9223372036854775808".to_string() })
    );
    assert_eq!(read_range(&chars("10-20")), Ok(FuzzInput { min: 10, max: 20 }));
}

#[test]
fn enclosed_and_split() {
    assert!(is_enclosed(&chars("[a]")));
    assert!(is_enclosed(&chars("()")));
    assert!(is_enclosed(&chars("{[a],(b)}")));
    assert!(!is_enclosed(&chars("[a][b]")));
    assert!(!is_enclosed(&chars("[a}")));
    assert!(!is_enclosed(&chars("[")));
    assert!(!is_enclosed(&chars("a]")));
    assert!(!is_enclosed(&chars("")));
    assert_eq!(split(&chars("a,b,,c")), vec![chars("a"), chars("b"), chars(""), chars("c")]);
    assert_eq!(split(&chars("")), vec![chars("")]);
    assert_eq!(split(&chars("(a,b),c")), vec![chars("(a,b)"), chars("c")]);
    assert_eq!(split(&chars("a),b")), vec![chars("a),b")]);
}

#[test]
fn a_constant_gives_itself() {
    let template = text("x");
    assert!(template.is_valid());
    for _ in 0..50 {
        assert_eq!(template.generate(), "x");
    }
    assert_eq!(text("").generate(), "");
    assert_eq!(text("ü\n").generate(), "ü\n");
    assert_eq!(text("ab").draw(), vec!['a', 'b']);
}

#[test]
fn a_list_gives_its_parts_in_order() {
    let template = InputTemplate::List(vec![text("a"), text("bc"), text(""), text("d")]);
    assert!(template.is_valid());
    for _ in 0..20 {
        assert_eq!(template.generate(), "abcd");
    }
    assert_eq!(InputTemplate::List(Vec::new()).generate(), "");
    let mixed = InputTemplate::parse("[n=,(5-5),;]").unwrap();
    assert_eq!(mixed.generate(), "n=5;");
}

#[test]
fn a_set_gives_one_of_its_parts_and_each_in_turn() {
    let template = InputTemplate::Choice(vec![text("a"), text("b"), text("c")]);
    assert!(template.is_valid());
    let mut seen = [0usize; 3];
    for _ in 0..600 {
        let drawn = template.generate();
        match drawn.as_str() {
            "a" => seen[0] += 1,
            "b" => seen[1] += 1,
            "c" => seen[2] += 1,
            other => panic!("not a part: {}", other),
        }
    }
    assert!(seen[0] > 0 && seen[1] > 0 && seen[2] > 0);
    assert_eq!(seen[0] + seen[1] + seen[2], 600);
}

#[test]
fn a_range_gives_its_integers_ends_included() {
    let template = InputTemplate::RandInt(FuzzInput { min: -2, max: 3 });
    assert!(template.is_valid());
    let mut seen = [false; 6];
    for _ in 0..600 {
        let n: i64 = template.generate().parse().unwrap();
        assert!(-2 <= n && n <= 3);
        seen[(n + 2) as usize] = true;
    }
    assert!(seen.iter().all(|s| *s));
    let single = InputTemplate::RandInt(FuzzInput { min: i64::MIN, max: i64::MIN });
    assert_eq!(single.generate(), "-9223372036854775808");
    let top = InputTemplate::RandInt(FuzzInput { min: i64::MAX, max: i64::MAX });
    assert_eq!(top.generate(), "9223372036854775807");
}

#[test]
fn what_cannot_give_an_input_is_not_valid() {
    assert!(!InputTemplate::RandInt(FuzzInput { min: 7, max: 3 }).is_valid());
    assert!(!InputTemplate::Choice(Vec::new()).is_valid());
    assert!(InputTemplate::List(Vec::new()).is_valid());
    assert!(!InputTemplate::parse("[a,(7-3)]").unwrap().is_valid());
    assert!(!InputTemplate::List(vec![InputTemplate::Choice(vec![InputTemplate::Choice(Vec::new())])]).is_valid());
    assert!(InputTemplate::parse("[a,(3-7),{x,[y,(0-0)]}]").unwrap().is_valid());
}

#[test]
fn a_config_holds_its_parts() {
    let config = FuzzConfig { command: "prog".to_string(), time_limit: Some(100), input: text("x") };
    assert_eq!(config.command, "prog");
    assert_eq!(config.time_limit, Some(100));
    assert_eq!(config.input, text("x"));
}
