use strict_yaml_rust::parser::{Event, Parser};
use strict_yaml_rust::scanner::{Marker, Scanner, TScalarStyle, TokenType};
use strict_yaml_rust::{StrictYaml, StrictYamlLoader};

fn text(s: &str) -> StrictYaml {
    StrictYaml::String(s.to_owned())
}

fn load_one(s: &str) -> StrictYaml {
    let mut docs = StrictYamlLoader::load_from_str(s).unwrap();
    assert_eq!(docs.len(), 1);
    docs.pop().unwrap()
}

fn kinds(s: &str) -> Vec<TokenType> {
    let mut scanner = Scanner::new(s);
    let mut out = Vec::new();
    while let Some(tok) = scanner.next() {
        out.push(tok.1);
    }
    assert!(scanner.get_error().is_none());
    out
}

#[test]
fn empty_input_gives_no_document() {
    assert_eq!(StrictYamlLoader::load_from_str(""), Ok(vec![]));
}

#[test]
fn comment_only_gives_no_document() {
    assert_eq!(StrictYamlLoader::load_from_str("# nothing here\n"), Ok(vec![]));
}

#[test]
fn document_marker_alone_gives_empty_string() {
    assert_eq!(StrictYamlLoader::load_from_str("---"), Ok(vec![text("")]));
}

#[test]
fn four_dashes_are_a_scalar() {
    assert_eq!(StrictYamlLoader::load_from_str("----\n"), Ok(vec![text("----")]));
}

#[test]
fn document_marker_with_comment_gives_empty_string() {
    assert_eq!(StrictYamlLoader::load_from_str("--- #comment\n"), Ok(vec![text("")]));
}

#[test]
fn bad_document_start_terminates() {
    assert_eq!(
        StrictYamlLoader::load_from_str("----This used to cause an infinite loop"),
        Ok(vec![text("----This used to cause an infinite loop")])
    );
}

#[test]
fn flow_sequence_is_a_plain_scalar() {
    let doc = load_one("zug: [1, 2, 3]\n");
    assert_eq!(doc["zug"], text("[1, 2, 3]"));
}

#[test]
fn three_documents_of_quoted_scalars() {
    let s = "'one'\n---\n\"two\"\n---\n'three'\n";
    assert_eq!(
        StrictYamlLoader::load_from_str(s),
        Ok(vec![text("one"), text("two"), text("three")])
    );
}

#[test]
fn tokens_of_a_simple_mapping() {
    let toks = kinds("a: b\n");
    assert_eq!(toks.len(), 8);
    assert!(matches!(toks[0], TokenType::StreamStart(_)));
    assert_eq!(toks[1], TokenType::BlockMappingStart);
    assert_eq!(toks[2], TokenType::Key);
    assert_eq!(toks[3], TokenType::Scalar(TScalarStyle::Plain, "a".to_owned()));
    assert_eq!(toks[4], TokenType::Value);
    assert_eq!(toks[5], TokenType::Scalar(TScalarStyle::Plain, "b".to_owned()));
    assert_eq!(toks[6], TokenType::BlockEnd);
    assert_eq!(toks[7], TokenType::StreamEnd);
}

#[test]
fn tokens_of_a_sequence() {
    let toks = kinds("- a\n- b\n");
    assert_eq!(toks.len(), 8);
    assert_eq!(toks[1], TokenType::BlockSequenceStart);
    assert_eq!(toks[2], TokenType::BlockEntry);
    assert_eq!(toks[3], TokenType::Scalar(TScalarStyle::Plain, "a".to_owned()));
    assert_eq!(toks[4], TokenType::BlockEntry);
    assert_eq!(toks[5], TokenType::Scalar(TScalarStyle::Plain, "b".to_owned()));
    assert_eq!(toks[6], TokenType::BlockEnd);
    assert_eq!(toks[7], TokenType::StreamEnd);
}

#[test]
fn markers_count_lines_and_columns() {
    let mut scanner = Scanner::new("a:\n  bc: d\r\ne: f\rg: h\n");
    let mut marks: Vec<(String, Marker)> = Vec::new();
    while let Some(tok) = scanner.next() {
        if let TokenType::Scalar(_, s) = tok.1 {
            marks.push((s, tok.0));
        }
    }
    assert!(scanner.get_error().is_none());
    let at = |name: &str| marks.iter().find(|(s, _)| s == name).unwrap().1;
    assert_eq!((at("a").index(), at("a").line(), at("a").col()), (0, 1, 0));
    assert_eq!((at("bc").index(), at("bc").line(), at("bc").col()), (5, 2, 2));
    assert_eq!((at("d").index(), at("d").line(), at("d").col()), (9, 2, 6));
    assert_eq!((at("e").index(), at("e").line(), at("e").col()), (12, 3, 0));
    assert_eq!((at("g").index(), at("g").line(), at("g").col()), (17, 4, 0));
}

#[test]
fn leading_byte_order_mark_is_ignored() {
    let doc = load_one("\u{feff}a: 1\n");
    assert_eq!(doc["a"], text("1"));
}

#[test]
fn literal_block_scalar_keeps_lines() {
    let doc = load_one("a: |\n  line1\n  line2\nb: x\n");
    assert_eq!(doc["a"], text("line1\nline2\n"));
    assert_eq!(doc["b"], text("x"));
}

#[test]
fn folded_block_scalar_folds_lines() {
    let doc = load_one("a: >\n  folded\n  text\n\n  para\n");
    assert_eq!(doc["a"], text("folded text\npara\n"));
}

#[test]
fn block_scalar_chomping() {
    assert_eq!(load_one("a: |-\n  x\n\n")["a"], text("x"));
    assert_eq!(load_one("a: |+\n  x\n\n")["a"], text("x\n\n"));
    assert_eq!(load_one("a: |\n  x\n\n")["a"], text("x\n"));
}

#[test]
fn block_scalar_with_indentation_indicator() {
    assert_eq!(load_one("a: |2\n    x\n   y\n")["a"], text("  x\n y\n"));
    assert_eq!(load_one("a: |1-\n  x\n")["a"], text(" x"));
}

#[test]
fn block_scalar_indicator_zero_is_refused() {
    assert!(StrictYamlLoader::load_from_str("a: |0\n  x\n").is_err());
}

#[test]
fn double_quoted_escapes() {
    let doc = load_one("a: \"x\\ty\\n\\x41\\u00e9\\U0001F600\\\\ \\\" \\/ \\0 \\e\"\n");
    assert_eq!(doc["a"], text("x\ty\nA\u{e9}\u{1F600}\\ \" / \0 \u{1b}"));
    let doc = load_one("a: \"\\a\\b\\f\\v\\r\\N\\_\\L\\P\"\n");
    assert_eq!(
        doc["a"],
        text("\u{7}\u{8}\u{c}\u{b}\r\u{85}\u{a0}\u{2028}\u{2029}")
    );
}

#[test]
fn double_quoted_line_continuation() {
    assert_eq!(load_one("a: \"one \\\n  two\"\n")["a"], text("one two"));
}

#[test]
fn quoted_scalars_fold_line_breaks() {
    assert_eq!(load_one("a: 'one\n  two\n\n  three'\n")["a"], text("one two\nthree"));
    assert_eq!(load_one("a: \"one\n  two\"\n")["a"], text("one two"));
}

#[test]
fn single_quote_written_twice_is_one_quote() {
    assert_eq!(load_one("a: 'it''s'\n")["a"], text("it's"));
}

#[test]
fn plain_scalar_folds_lines_and_trims() {
    assert_eq!(load_one("a: b  \n  c\n\n  d   # note\n")["a"], text("b c\nd"));
}

#[test]
fn malformed_escape_is_refused() {
    let e = StrictYamlLoader::load_from_str("a: \"\\q\"\n").unwrap_err();
    assert_eq!(e.info(), "while parsing a quoted scalar, found unknown escape character");
    assert_eq!((e.marker().line(), e.marker().col()), (1, 3));
    assert!(StrictYamlLoader::load_from_str("a: \"\\xZZ\"\n").is_err());
    assert!(StrictYamlLoader::load_from_str("a: \"\\UFFFFFFFF\"\n").is_err());
    assert!(StrictYamlLoader::load_from_str("a: \"\\uD800\"\n").is_err());
}

#[test]
fn unterminated_quoted_scalar_is_refused() {
    let e = StrictYamlLoader::load_from_str("a: 'never closed\n").unwrap_err();
    assert_eq!(e.info(), "while scanning a quoted scalar, found unexpected end of stream");
    assert_eq!((e.marker().index(), e.marker().line(), e.marker().col()), (3, 1, 3));
    assert!(StrictYamlLoader::load_from_str("\"open").is_err());
}

#[test]
fn tab_in_indentation_is_refused() {
    let e = StrictYamlLoader::load_from_str("a:\n\tb: 1\n").unwrap_err();
    assert_eq!(e.info(), "found a tab character where an indentation space is expected");
    assert_eq!((e.marker().line(), e.marker().col()), (2, 0));
}

#[test]
fn tab_inside_a_quoted_scalar_is_kept() {
    assert_eq!(load_one("a: 'x\ty'\n")["a"], text("x\ty"));
    assert_eq!(load_one("a: x\t# c\n")["a"], text("x"));
}

#[test]
fn reserved_indicator_is_refused() {
    let e = StrictYamlLoader::load_from_str("a: @b\n").unwrap_err();
    assert_eq!(e.info(), "unexpected character: `@'");
    assert_eq!((e.marker().line(), e.marker().col()), (1, 3));
    assert!(StrictYamlLoader::load_from_str("`a\n").is_err());
}

#[test]
fn value_where_none_may_stand_is_refused() {
    let e = StrictYamlLoader::load_from_str("a: b: c\n").unwrap_err();
    assert_eq!(e.info(), "mapping values are not allowed in this context");
}

#[test]
fn sequence_entry_where_none_may_stand_is_refused() {
    let e = StrictYamlLoader::load_from_str("a: - b\n").unwrap_err();
    assert_eq!(e.info(), "block sequence entries are not allowed in this context");
}

#[test]
fn wrong_indentation_is_refused() {
    assert!(StrictYamlLoader::load_from_str("a:\n    b: 1\n  c: 2\n").is_err());
    assert!(StrictYamlLoader::load_from_str("- a\nb: c\n").is_err());
}

#[test]
fn directives_are_read_and_ignored() {
    assert_eq!(load_one("%YAML 1.2\n---\na: 1\n")["a"], text("1"));
    assert_eq!(load_one("%YAML 9.9\n---\na: 1\n")["a"], text("1"));
    assert_eq!(load_one("%TAG !e! tag:example.com,2000:app/\n---\na: 1\n")["a"], text("1"));
    assert_eq!(load_one("%TAG ! tag:%41b\n---\nx\n"), text("x"));
    assert_eq!(load_one("%FOO bar baz\n---\nx\n"), text("x"));
    let toks = kinds("%YAML 1.2\n%TAG !e! tag:%C3%A9\n---\n");
    assert_eq!(toks[1], TokenType::VersionDirective(1, 2));
    assert_eq!(toks[2], TokenType::TagDirective("!e!".to_owned(), "tag:\u{e9}".to_owned()));
    assert_eq!(toks[3], TokenType::DocumentStart);
}

#[test]
fn malformed_directives_are_refused() {
    assert!(StrictYamlLoader::load_from_str("%YAML 1\n---\n").is_err());
    assert!(StrictYamlLoader::load_from_str("%YAML 1234567890.1\n---\n").is_err());
    assert!(StrictYamlLoader::load_from_str("%YAML 1.2 x\n---\n").is_err());
    assert!(StrictYamlLoader::load_from_str("%TAG !e tag:x\n---\n").is_err());
    assert!(StrictYamlLoader::load_from_str("%TAG !e! tag:%ZZ\n---\n").is_err());
    assert!(StrictYamlLoader::load_from_str("%TAG !e! tag:%FF\n---\n").is_err());
    assert!(StrictYamlLoader::load_from_str("% \n---\n").is_err());
    assert!(StrictYamlLoader::load_from_str("%YAML 1.2\na: 1\n").is_err());
}

#[test]
fn document_end_marker_separates_documents() {
    assert_eq!(
        StrictYamlLoader::load_from_str("a\n...\n---\nb\n...\n"),
        Ok(vec![text("a"), text("b")])
    );
}

#[test]
fn explicit_key_and_missing_parts() {
    let doc = load_one("? a\n: b\n? c\nd:\n: e\n");
    let entries = doc.into_hash().unwrap().into_vec();
    assert_eq!(
        entries,
        vec![
            (text("a"), text("b")),
            (text("c"), text("")),
            (text("d"), text("")),
            (text(""), text("e")),
        ]
    );
}

#[test]
fn sequence_with_missing_items() {
    let doc = load_one("-\n- a\n-\n");
    assert_eq!(doc.into_vec().unwrap(), vec![text(""), text("a"), text("")]);
}

#[test]
fn sequence_not_indented_under_a_key() {
    let doc = load_one("a:\n- x\n- y\nb: z\n");
    assert_eq!(doc["a"][0], text("x"));
    assert_eq!(doc["a"][1], text("y"));
    assert!(doc["a"][2].is_badvalue());
    assert_eq!(doc["b"], text("z"));
}

#[test]
fn nested_mapping_under_sequence_under_mapping() {
    let doc = load_one("top:\n  - name: n1\n    val: 'v 1'\n  - name: n2\n    val:\n      deep: \"x: y\"\n");
    assert!(doc["top"].is_array());
    assert_eq!(doc["top"][0]["name"], text("n1"));
    assert_eq!(doc["top"][0]["val"], text("v 1"));
    assert_eq!(doc["top"][1]["name"], text("n2"));
    assert_eq!(doc["top"][1]["val"]["deep"], text("x: y"));
    assert!(doc["top"][2].is_badvalue());
    assert!(doc["top"]["name"].is_badvalue());
}

#[test]
fn repeated_key_is_refused_at_its_value() {
    let e = StrictYamlLoader::load_from_str("\na: 10\na: 15\n").unwrap_err();
    assert_eq!(e.info(), "Error handling node: Key already exists in the hash map");
    assert_eq!((e.marker().index(), e.marker().line(), e.marker().col()), (10, 3, 3));
}

#[test]
fn repeated_key_in_a_nested_mapping_is_refused() {
    assert!(StrictYamlLoader::load_from_str("a:\n  b: 1\n  b: 2\n").is_err());
    assert!(StrictYamlLoader::load_from_str("a:\n  b: 1\nc:\n  b: 2\n").is_ok());
    assert!(StrictYamlLoader::load_from_str("? [x]\n: 1\n? [x]\n: 2\n").is_err());
}

#[test]
fn events_of_a_small_document() {
    let mut p = Parser::new("a:\n  - b\n");
    let mut evs = Vec::new();
    loop {
        let (ev, _) = p.next().unwrap();
        let done = ev == Event::StreamEnd;
        evs.push(ev);
        if done {
            break;
        }
    }
    assert_eq!(
        evs,
        vec![
            Event::StreamStart,
            Event::DocumentStart,
            Event::MappingStart(0),
            Event::Scalar("a".to_owned(), TScalarStyle::Plain, 0),
            Event::SequenceStart(0),
            Event::Scalar("b".to_owned(), TScalarStyle::Plain, 0),
            Event::SequenceEnd,
            Event::MappingEnd,
            Event::DocumentEnd,
            Event::StreamEnd,
        ]
    );
    assert_eq!(p.next().unwrap().0, Event::StreamEnd);
}

#[test]
fn parser_errors_name_what_was_expected() {
    let e = StrictYamlLoader::load_from_str("a: 1\nb\n").unwrap_err();
    assert_eq!(e.info(), "while parsing a block mapping, did not find expected key");
    let e = StrictYamlLoader::load_from_str("- a\n  b: c\n").unwrap_err();
    assert_eq!(e.info(), "mapping values are not allowed in this context");
    let e = StrictYamlLoader::load_from_str("a\n---\n%YAML 1.2\nb\n").unwrap_err();
    assert_eq!(e.info(), "did not find expected <document start>");
}

#[test]
fn line_endings_of_all_kinds() {
    let doc = load_one("a: b\r\nc: d\r\n");
    assert_eq!(doc["a"], text("b"));
    assert_eq!(doc["c"], text("d"));
    let doc = load_one("a: b\rc: d\r");
    assert_eq!(doc["a"], text("b"));
    assert_eq!(doc["c"], text("d"));
    let doc = load_one("a: |\r\n  x\r\n  y\r\n");
    assert_eq!(doc["a"], text("x\ny\n"));
}

#[test]
fn comment_sign_inside_a_plain_scalar() {
    assert_eq!(load_one("a#b: c#d\n")["a#b"], text("c#d"));
    assert_eq!(load_one("a: b #c\n")["a"], text("b"));
    assert_eq!(load_one("a: b#c # d\n")["a"], text("b#c"));
}

#[test]
fn colon_without_a_blank_is_text() {
    assert_eq!(load_one("key:value\n"), text("key:value"));
    assert_eq!(load_one("a: b:c\n")["a"], text("b:c"));
    assert_eq!(load_one("a: http://x/y\n")["a"], text("http://x/y"));
    assert_eq!(load_one(":a: b\n")[":a"], text("b"));
    assert_eq!(load_one("?a: b\n")["?a"], text("b"));
    assert_eq!(load_one("-a: -b\n")["-a"], text("-b"));
}

#[test]
fn indicators_as_plain_text() {
    assert_eq!(load_one("a: &x\n")["a"], text("&x"));
    assert_eq!(load_one("a: *x\n")["a"], text("*x"));
    assert_eq!(load_one("a: !t v\n")["a"], text("!t v"));
    assert_eq!(load_one("a: {b, c}\n")["a"], text("{b, c}"));
    assert_eq!(load_one("{a: b}\n")["{a"], text("b}"));
    assert!(StrictYamlLoader::load_from_str("a: {b: c}\n").is_err());
}

#[test]
fn end_of_input_sentinel_in_the_text_ends_the_stream() {
    assert_eq!(load_one("a\0b"), text("a"));
}

#[test]
fn block_scalars_in_every_place() {
    assert_eq!(load_one("|\n  text\n"), text("text\n"));
    assert_eq!(load_one("--- |\n  x\n"), text("x\n"));
    let doc = load_one("- |\n  x\n- >-\n  y\n  z\n- w\n");
    assert_eq!(doc.into_vec().unwrap(), vec![text("x\n"), text("y z"), text("w")]);
    assert_eq!(load_one("a: >\n  a\n    b\n  c\n")["a"], text("a\n  b\nc\n"));
    assert_eq!(load_one("a: | # note\n  x\n")["a"], text("x\n"));
    assert_eq!(load_one("a: |\n\n  x\n\n  y\n")["a"], text("\nx\n\ny\n"));
    assert_eq!(load_one("a: |\nb: c\n")["a"], text(""));
    assert!(StrictYamlLoader::load_from_str("a: | x\n  y\n").is_err());
    assert!(StrictYamlLoader::load_from_str("a: |\n\tx\n").is_err());
}

#[test]
fn closing_several_blocks_at_once() {
    let doc = load_one("a:\n  b:\n    c:\n      - d\n      - e:\n          f: g\nh: i\n");
    assert_eq!(doc["a"]["b"]["c"][0], text("d"));
    assert_eq!(doc["a"]["b"]["c"][1]["e"]["f"], text("g"));
    assert_eq!(doc["h"], text("i"));
    let toks = kinds("a:\n  b:\n    - c\nd: e\n");
    let ends = toks.iter().filter(|t| **t == TokenType::BlockEnd).count();
    assert_eq!(ends, 3);
}

#[test]
fn simple_key_must_be_on_one_line() {
    assert!(StrictYamlLoader::load_from_str("a\nb: c\n").is_err());
    assert_eq!(load_one("'a b': c\n")["a b"], text("c"));
    assert_eq!(load_one("\"a\\tb\": c\n")["a\tb"], text("c"));
}

#[test]
fn empty_values_and_keys() {
    let doc = load_one("a:\nb:\nc: d\n");
    assert_eq!(doc["a"], text(""));
    assert_eq!(doc["b"], text(""));
    assert_eq!(doc["c"], text("d"));
    let doc = load_one(": v\n");
    assert_eq!(doc[""], text("v"));
}

#[test]
fn scanner_gives_nothing_after_the_end_or_an_error() {
    let mut scanner = Scanner::new("a");
    let mut n = 0;
    while scanner.next().is_some() {
        n += 1;
    }
    assert_eq!(n, 3);
    assert!(scanner.stream_started());
    assert!(scanner.stream_ended());
    assert!(scanner.next().is_none());
    assert!(scanner.get_error().is_none());
    let mut scanner = Scanner::new("a: 'b");
    while scanner.next().is_some() {}
    let e = scanner.get_error().unwrap();
    assert_eq!(e.info(), "while scanning a quoted scalar, found unexpected end of stream");
    assert!(scanner.next().is_none());
    assert_eq!(scanner.get_error(), Some(e));
    assert!(!scanner.stream_ended());
}

#[test]
fn parser_reports_the_end_of_the_tokens() {
    let mut p = Parser::new("a: 'b");
    let mut last = None;
    for _ in 0..10 {
        match p.next() {
            Ok(_) => {}
            Err(e) => {
                last = Some(e);
                break;
            }
        }
    }
    assert_eq!(
        last.unwrap().info(),
        "while scanning a quoted scalar, found unexpected end of stream"
    );
}

#[test]
fn each_refusal_has_its_words() {
    let refused = |s: &str| StrictYamlLoader::load_from_str(s).unwrap_err();
    assert_eq!(refused("a: ? b\n").info(), "mapping keys are not allowed in this context");
    assert_eq!(
        refused("'a\n---\nb'\n").info(),
        "while scanning a quoted scalar, found unexpected document indicator"
    );
    assert_eq!(
        refused("- a\nb\n").info(),
        "while parsing a block collection, did not find expected '-' indicator"
    );
    let e = refused("...\n");
    assert_eq!(e.info(), "while parsing a node, did not find expected node content");
    assert_eq!((e.marker().index(), e.marker().line(), e.marker().col()), (0, 1, 0));
    assert_eq!(refused("a: b\n\tc\n").info(), "while scanning a plain scalar, found a tab");
    assert_eq!(
        refused("a: \"\\x4\"\n").info(),
        "while parsing a quoted scalar, did not find expected hexadecimal number"
    );
    assert_eq!(
        refused("a: \"\\UFFFFFFFF\"\n").info(),
        "while parsing a quoted scalar, found invalid Unicode character escape code"
    );
    assert_eq!(
        refused("a: |0\n").info(),
        "while scanning a block scalar, found an indentation indicator equal to 0"
    );
    assert_eq!(
        refused("a: | x\n").info(),
        "while scanning a block scalar, did not find expected comment or line break"
    );
    assert_eq!(
        refused("a: |\n \tx\n").info(),
        "while scanning a block scalar, found a tab character where an indentation space is expected"
    );
    assert_eq!(
        refused("% \n").info(),
        "while scanning a directive, could not find expected directive name"
    );
    assert_eq!(
        refused("%YAML! 1.2\n").info(),
        "while scanning a directive, found unexpected non-alphabetical character"
    );
    assert_eq!(
        refused("%YAML x\n").info(),
        "while scanning a YAML directive, did not find expected version number"
    );
    assert_eq!(
        refused("%YAML 1234567890.1\n").info(),
        "while scanning a YAML directive, found extremely long version number"
    );
    assert_eq!(
        refused("%YAML 1\n").info(),
        "while scanning a YAML directive, did not find expected digit or '.' character"
    );
    assert_eq!(
        refused("%YAML 1.2 x\n").info(),
        "while scanning a directive, did not find expected comment or line break"
    );
    assert_eq!(refused("%TAG x y\n").info(), "while scanning a tag, did not find expected '!'");
    assert_eq!(
        refused("%TAG !e tag:x\n").info(),
        "while parsing a tag directive, did not find expected '!'"
    );
    assert_eq!(refused("%TAG !e! \n").info(), "while parsing a tag, did not find expected tag URI");
    assert_eq!(
        refused("%TAG !e! tag:%4\n").info(),
        "while parsing a tag, did not find URI escaped octet"
    );
    assert_eq!(
        refused("%TAG !e! tag:%FF\n").info(),
        "while parsing a tag, found an incorrect leading UTF-8 octet"
    );
    assert_eq!(
        refused("%TAG !e! tag:%C3%41\n").info(),
        "while parsing a tag, found an incorrect trailing UTF-8 octet"
    );
    assert_eq!(
        refused("%TAG !e! tag:%ED%A0%80\n").info(),
        "while parsing a tag, found an invalid UTF-8 codepoint"
    );
    assert_eq!(
        refused("%TAG !e! tag:x\"\n").info(),
        "while scanning TAG, did not find expected whitespace or line break"
    );
    assert_eq!(refused("%YAML 1.2\n").info(), "did not find expected <document start>");
}
