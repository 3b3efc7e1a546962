use strict_yaml_rust::event::{EventReceiver, MarkedEventReceiver, Unmarked};
use strict_yaml_rust::parser::{Event, Parser};
use strict_yaml_rust::scanner::{Marker, ScanError, TScalarStyle};
use strict_yaml_rust::strict_yaml::{StrictYaml, StrictYamlLoader};

fn text(s: &str) -> StrictYaml {
    StrictYaml::String(s.to_owned())
}

fn load_one(s: &str) -> StrictYaml {
    let mut docs = StrictYamlLoader::load_from_str(s).unwrap();
    assert_eq!(docs.len(), 1);
    docs.pop().unwrap()
}

#[test]
fn every_leaf_is_a_string() {
    fn check(node: &StrictYaml) {
        match node {
            StrictYaml::String(_) => {}
            StrictYaml::Array(items) => {
                for item in items {
                    check(item);
                }
            }
            StrictYaml::Hash(h) => {
                for (k, v) in h.entries() {
                    check(k);
                    check(v);
                }
            }
            StrictYaml::BadValue => panic!("an absent node in a document"),
        }
    }
    let docs = StrictYamlLoader::load_from_str(
        "a: 1\nb: [x]\nc:\n  - true\n  - ~\n  -\n  - d: 0x10\n---\n- null\n---\n",
    )
    .unwrap();
    assert_eq!(docs.len(), 3);
    for doc in &docs {
        check(doc);
    }
    assert_eq!(docs[0]["c"][2], text(""));
    assert_eq!(docs[2], text(""));
}

#[test]
fn mapping_keeps_the_order_of_insertion() {
    let doc = load_one("z: 1\ny: 2\nx: 3\nw: 4\n");
    let h = doc.as_hash().unwrap();
    assert_eq!(h.len(), 4);
    assert!(!h.is_empty());
    let keys: Vec<&str> = h.entries().iter().map(|(k, _)| k.as_str().unwrap()).collect();
    assert_eq!(keys, vec!["z", "y", "x", "w"]);
    let values: Vec<StrictYaml> = doc.into_hash().unwrap().into_vec().into_iter().map(|(_, v)| v).collect();
    assert_eq!(values, vec![text("1"), text("2"), text("3"), text("4")]);
}

#[test]
fn mapping_keys_are_distinct() {
    let doc = load_one("a: 1\nb: 2\n? [c]\n: 3\n");
    let h = doc.as_hash().unwrap();
    let entries = h.entries();
    for i in 0..entries.len() {
        for j in 0..i {
            assert_ne!(entries[i].0, entries[j].0);
        }
    }
    assert!(h.contains_key(&text("a")));
    assert!(h.contains_key(&text("[c]")));
    assert!(!h.contains_key(&text("c")));
    assert_eq!(h.get(&text("b")), Some(&text("2")));
    assert_eq!(h.get(&text("d")), None);
}

#[test]
fn a_mapping_may_be_a_key() {
    let doc = load_one("?\n  a: 1\n: outer\n");
    let entries = doc.into_hash().unwrap().into_vec();
    assert_eq!(entries.len(), 1);
    assert_eq!(entries[0].0["a"], text("1"));
    assert_eq!(entries[0].1, text("outer"));
}

#[test]
fn clone_gives_an_equal_tree() {
    let doc = load_one("a:\n  - b\n  - c: d\ne: f\n");
    let copy = doc.clone();
    assert_eq!(copy, doc);
    assert_eq!(copy["a"][1]["c"], text("d"));
    assert_eq!(copy.as_hash().unwrap().len(), 2);
}

#[test]
fn accessors_by_kind() {
    let doc = load_one("a:\n  - b\nc: d\n");
    assert!(doc.as_hash().is_some());
    assert!(doc.as_vec().is_none());
    assert!(doc.as_str().is_none());
    assert!(!doc.is_array());
    assert!(!doc.is_badvalue());
    assert!(doc["a"].is_array());
    assert_eq!(doc["a"].as_vec().unwrap().len(), 1);
    assert_eq!(doc["c"].as_str(), Some("d"));
    assert!(doc["a"].as_hash().is_none());
    assert!(doc["c"].clone().into_vec().is_none());
    assert!(doc["c"].clone().into_hash().is_none());
    assert_eq!(doc["a"].clone().into_string(), None);
    assert_eq!(doc["c"].clone().into_string(), Some("d".to_owned()));
    assert!(StrictYaml::BadValue.is_badvalue());
    assert_eq!(StrictYaml::from_str("-123"), text("-123"));
    assert_eq!(StrictYaml::from_str("true").as_str(), Some("true"));
}

#[test]
fn lookups_that_fail_give_the_absent_node() {
    let doc = load_one("a:\n  - b\nc: d\n");
    assert!(doc["missing"].is_badvalue());
    assert!(doc[0].is_badvalue());
    assert!(doc["a"][1].is_badvalue());
    assert!(doc["a"]["b"].is_badvalue());
    assert!(doc["c"][0].is_badvalue());
    assert!(doc["c"]["d"].is_badvalue());
    assert!(StrictYaml::BadValue["x"][3]["y"].is_badvalue());
}

#[test]
fn iteration_over_a_node() {
    let doc = load_one("- a\n- b\n- c\n");
    let mut it = doc.into_iter();
    assert_eq!(it.next(), Some(text("a")));
    assert_eq!(it.next(), Some(text("b")));
    assert_eq!(it.next(), Some(text("c")));
    assert_eq!(it.next(), None);
    assert_eq!(it.next(), None);
    assert_eq!(text("scalar").into_iter().next(), None);
    assert_eq!(load_one("a: b\n").into_iter().next(), None);
    assert_eq!(StrictYaml::BadValue.into_iter().next(), None);
}

#[test]
fn peek_does_not_take_the_event() {
    let mut p = Parser::new("- a\n");
    assert_eq!(p.peek().unwrap().0, Event::StreamStart);
    assert_eq!(p.peek().unwrap().0, Event::StreamStart);
    assert_eq!(p.next().unwrap().0, Event::StreamStart);
    assert_eq!(p.next().unwrap().0, Event::DocumentStart);
    assert_eq!(p.peek().unwrap().0, Event::SequenceStart(0));
    let (ev, mark) = p.next().unwrap();
    assert_eq!(ev, Event::SequenceStart(0));
    assert_eq!((mark.index(), mark.line(), mark.col()), (0, 1, 0));
    let (ev, mark) = p.next().unwrap();
    assert_eq!(ev, Event::Scalar("a".to_owned(), TScalarStyle::Plain, 0));
    assert_eq!((mark.index(), mark.line(), mark.col()), (2, 1, 2));
    assert_eq!(Event::empty_scalar(), Event::Scalar(String::new(), TScalarStyle::Plain, 0));
}

struct Recorder {
    seen: Vec<(Event, Marker)>,
    refuse_at: Option<usize>,
}

impl MarkedEventReceiver for Recorder {
    fn on_event(&mut self, ev: Event, mark: Marker) -> Result<(), ScanError> {
        if self.refuse_at == Some(self.seen.len()) {
            return Err(ScanError::new(mark, "refused"));
        }
        self.seen.push((ev, mark));
        Ok(())
    }
}

struct Counter {
    scalars: usize,
    depth: usize,
    deepest: usize,
}

impl EventReceiver for Counter {
    fn on_event(&mut self, ev: Event) {
        match ev {
            Event::Scalar(..) => self.scalars += 1,
            Event::SequenceStart(_) | Event::MappingStart(_) => {
                self.depth += 1;
                if self.depth > self.deepest {
                    self.deepest = self.depth;
                }
            }
            Event::SequenceEnd | Event::MappingEnd => self.depth -= 1,
            _ => {}
        }
    }
}

#[test]
fn load_hands_every_event_to_the_receiver() {
    let mut p = Parser::new("a: b\n---\n- c\n");
    let mut recv = Recorder { seen: Vec::new(), refuse_at: None };
    p.load(&mut recv, true).unwrap();
    let events: Vec<Event> = recv.seen.iter().map(|(e, _)| e.clone()).collect();
    assert_eq!(
        events,
        vec![
            Event::StreamStart,
            Event::DocumentStart,
            Event::MappingStart(0),
            Event::Scalar("a".to_owned(), TScalarStyle::Plain, 0),
            Event::Scalar("b".to_owned(), TScalarStyle::Plain, 0),
            Event::MappingEnd,
            Event::DocumentEnd,
            Event::DocumentStart,
            Event::SequenceStart(0),
            Event::Scalar("c".to_owned(), TScalarStyle::Plain, 0),
            Event::SequenceEnd,
            Event::DocumentEnd,
            Event::StreamEnd,
        ]
    );
}

#[test]
fn load_of_one_document_stops_after_it() {
    let mut p = Parser::new("a\n---\nb\n");
    let mut recv = Recorder { seen: Vec::new(), refuse_at: None };
    p.load(&mut recv, false).unwrap();
    let events: Vec<Event> = recv.seen.iter().map(|(e, _)| e.clone()).collect();
    assert_eq!(
        events,
        vec![
            Event::StreamStart,
            Event::DocumentStart,
            Event::Scalar("a".to_owned(), TScalarStyle::Plain, 0),
            Event::DocumentEnd,
        ]
    );
    let mut rest = Recorder { seen: Vec::new(), refuse_at: None };
    p.load(&mut rest, false).unwrap();
    assert_eq!(rest.seen.len(), 3);
    assert_eq!(rest.seen[1].0, Event::Scalar("b".to_owned(), TScalarStyle::Plain, 0));
}

#[test]
fn load_stops_at_the_error_of_the_receiver() {
    let mut p = Parser::new("a: b\n");
    let mut recv = Recorder { seen: Vec::new(), refuse_at: Some(3) };
    let e = p.load(&mut recv, true).unwrap_err();
    assert_eq!(e.info(), "refused");
    assert_eq!((e.marker().line(), e.marker().col()), (1, 0));
    assert_eq!(recv.seen.len(), 3);
}

#[test]
fn open_containers_rise_to_the_depth_of_the_document() {
    let mut p = Parser::new("a:\n  - b\n  - c:\n      - d\n      - e: f\ng: h\n");
    let mut recv = Unmarked { inner: Counter { scalars: 0, depth: 0, deepest: 0 } };
    p.load(&mut recv, true).unwrap();
    assert_eq!(recv.inner.scalars, 8);
    assert_eq!(recv.inner.depth, 0);
    assert_eq!(recv.inner.deepest, 5);
}
