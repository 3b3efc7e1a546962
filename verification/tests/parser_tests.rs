use strict_yaml_rust::parser::{Event, Parser};

#[test]
fn test_peek_eq_parse() {
    let s = r#"
a0 bb: val
a1: &x
b1: 4
b2: d
a2: 4
a3: [1, 2, 3]
a4:
    - [a1, a2]
    - 2
a5: *x
"#;
    let mut p = Parser::new(s);
    while {
        let event_peek = p.peek().unwrap().clone();
        let event = p.next().unwrap();
        assert_eq!(event, event_peek);
        event.0 != Event::StreamEnd
    } {}
}
