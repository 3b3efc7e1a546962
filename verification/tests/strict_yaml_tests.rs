use strict_yaml_rust::strict_yaml::{StrictYaml, StrictYamlLoader};

#[test]
fn strict_yaml_test_coerce() {
    let s = "---
a: 1
b: 2.2
c: [1, 2]
";
    let out = StrictYamlLoader::load_from_str(&s).unwrap();
    let doc = &out[0];
    assert_eq!(doc["a"].as_str().unwrap(), "1");
    assert_eq!(doc["b"].as_str().unwrap(), "2.2");
    assert_eq!(doc["c"].as_str().unwrap(), "[1, 2]");
    assert!(doc["d"][0].is_badvalue());
}

#[test]
fn strict_yaml_test_empty_doc() {
    let s: String = "".to_owned();
    StrictYamlLoader::load_from_str(&s).unwrap();
    let s: String = "---".to_owned();
    assert_eq!(
        StrictYamlLoader::load_from_str(&s).unwrap()[0],
        StrictYaml::String("".to_owned())
    );
}

#[test]
fn strict_yaml_test_parser() {
    let s: String = "
# comment
a0 bb: val
a1:
    b1: 4
    b2: d
a2: 4 # i'm comment
a3: [1, 2, 3]
a4:
    - - a1
      - a2
    - 2
a5: 'single_quoted'
a6: \"double_quoted\"
a7: 你好
"
    .to_owned();
    let out = StrictYamlLoader::load_from_str(&s).unwrap();
    let doc = &out[0];
    assert_eq!(doc["a7"].as_str().unwrap(), "你好");
}

#[test]
fn strict_yaml_test_multi_doc() {
    let s = "
'a scalar'
---
'a scalar'
---
'a scalar'
";
    let out = StrictYamlLoader::load_from_str(&s).unwrap();
    assert_eq!(out.len(), 3);
}

#[test]
fn strict_yaml_test_plain_datatype() {
    let s = "
- 'string'
- \"string\"
- string
- 123
- -321
- 1.23
- -1e4
- ~
- null
- true
- false
- !!str 0
- !!int 100
- !!float 2
- !!null ~
- !!bool true
- !!bool false
- 0xFF
# bad values
- !!int string
- !!float string
- !!bool null
- !!null val
- 0o77
- [ 0xF, 0xF ]
- +12345
- [ true, false ]
";
    let out = StrictYamlLoader::load_from_str(&s).unwrap();
    let doc = &out[0];

    assert_eq!(doc[0].as_str().unwrap(), "string");
    assert_eq!(doc[1].as_str().unwrap(), "string");
    assert_eq!(doc[2].as_str().unwrap(), "string");
    assert_eq!(doc[3].as_str().unwrap(), "123");
    assert_eq!(doc[4].as_str().unwrap(), "-321");
    assert_eq!(doc[5].as_str().unwrap(), "1.23");
    assert_eq!(doc[6].as_str().unwrap(), "-1e4");
    assert_eq!(doc[7].as_str().unwrap(), "~");
    assert_eq!(doc[8].as_str().unwrap(), "null");
    assert_eq!(doc[9].as_str().unwrap(), "true");
    assert_eq!(doc[10].as_str().unwrap(), "false");
    assert_eq!(doc[11].as_str().unwrap(), "!!str 0");
    assert_eq!(doc[12].as_str().unwrap(), "!!int 100");
    assert_eq!(doc[13].as_str().unwrap(), "!!float 2");
    assert_eq!(doc[14].as_str().unwrap(), "!!null ~");
    assert_eq!(doc[15].as_str().unwrap(), "!!bool true");
    assert_eq!(doc[16].as_str().unwrap(), "!!bool false");
    assert_eq!(doc[17].as_str().unwrap(), "0xFF");
    assert_eq!(doc[18].as_str().unwrap(), "!!int string");
    assert_eq!(doc[19].as_str().unwrap(), "!!float string");
    assert_eq!(doc[20].as_str().unwrap(), "!!bool null");
    assert_eq!(doc[21].as_str().unwrap(), "!!null val");
    assert_eq!(doc[22].as_str().unwrap(), "0o77");
    assert_eq!(doc[23].as_str().unwrap(), "[ 0xF, 0xF ]");
    assert_eq!(doc[24].as_str().unwrap(), "+12345");
    assert_eq!(doc[25].as_str().unwrap(), "[ true, false ]");
}

#[test]
fn strict_yaml_test_bad_docstart() {
    assert!(StrictYamlLoader::load_from_str("---This used to cause an infinite loop").is_ok());
    assert_eq!(
        StrictYamlLoader::load_from_str("----"),
        Ok(vec![StrictYaml::String(String::from("----"))])
    );
    assert_eq!(
        StrictYamlLoader::load_from_str("--- #here goes a comment"),
        Ok(vec![StrictYaml::String("".to_owned())])
    );
    assert_eq!(
        StrictYamlLoader::load_from_str("---- #here goes a comment"),
        Ok(vec![StrictYaml::String(String::from("----"))])
    );
}

#[test]
fn strict_yaml_test_plain_datatype_with_into_methods() {
    let s = "
- 'string'
- \"string\"
- string
- 123
- -321
- 1.23
- -1e4
- true
- false
- !!str 0
- !!int 100
- !!float 2
- !!bool true
- !!bool false
- 0xFF
- 0o77
- +12345
- -.INF
- .NAN
- !!float .INF
";
    let mut out = StrictYamlLoader::load_from_str(&s).unwrap().into_iter();
    let mut doc = out.next().unwrap().into_iter();

    assert_eq!(doc.next().unwrap().into_string().unwrap(), "string");
    assert_eq!(doc.next().unwrap().into_string().unwrap(), "string");
    assert_eq!(doc.next().unwrap().into_string().unwrap(), "string");
    assert_eq!(doc.next().unwrap().into_string().unwrap(), "123");
    assert_eq!(doc.next().unwrap().into_string().unwrap(), "-321");
    assert_eq!(doc.next().unwrap().into_string().unwrap(), "1.23");
    assert_eq!(doc.next().unwrap().into_string().unwrap(), "-1e4");
    assert_eq!(doc.next().unwrap().into_string().unwrap(), "true");
    assert_eq!(doc.next().unwrap().into_string().unwrap(), "false");
    assert_eq!(doc.next().unwrap().into_string().unwrap(), "!!str 0");
    assert_eq!(doc.next().unwrap().into_string().unwrap(), "!!int 100");
    assert_eq!(doc.next().unwrap().into_string().unwrap(), "!!float 2");
    assert_eq!(doc.next().unwrap().into_string().unwrap(), "!!bool true");
    assert_eq!(doc.next().unwrap().into_string().unwrap(), "!!bool false");
    assert_eq!(doc.next().unwrap().into_string().unwrap(), "0xFF");
    assert_eq!(doc.next().unwrap().into_string().unwrap(), "0o77");
    assert_eq!(doc.next().unwrap().into_string().unwrap(), "+12345");
    assert_eq!(doc.next().unwrap().into_string().unwrap(), "-.INF");
    assert_eq!(doc.next().unwrap().into_string().unwrap(), ".NAN");
    assert_eq!(doc.next().unwrap().into_string().unwrap(), "!!float .INF");
}

#[test]
fn strict_yaml_test_hash_order() {
    let s = "---
b: ~
a: ~
c: ~
";
    let out = StrictYamlLoader::load_from_str(&s).unwrap();
    let first = out.into_iter().next().unwrap();
    let mut iter = first.into_hash().unwrap().into_iter();
    assert_eq!(
        Some((
            StrictYaml::String("b".to_owned()),
            StrictYaml::String("~".to_owned())
        )),
        iter.next()
    );
    assert_eq!(
        Some((
            StrictYaml::String("a".to_owned()),
            StrictYaml::String("~".to_owned())
        )),
        iter.next()
    );
    assert_eq!(
        Some((
            StrictYaml::String("c".to_owned()),
            StrictYaml::String("~".to_owned())
        )),
        iter.next()
    );
    assert_eq!(None, iter.next());
}

#[test]
fn test_duplicate_keys() {
    let s = "
a: 10
a: 15
";
    let out = StrictYamlLoader::load_from_str(&s);
    assert!(out.is_err());
}
