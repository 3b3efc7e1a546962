use vstd::prelude::*;
use vstd::string::StringExecFns;
use crate::event::{
    advance, advanced_all, idle, node_done, permitted_all, permitted, Event, EventView,
    MarkedEventReceiver, Nesting, Slot,
};
use crate::marker::{Marker, ScanError};
use crate::lexeme::{lex_of, lexes, Lex};
use crate::machine::{run, Ran, State};
use crate::parser::Parser;
use crate::reader::padded;
use crate::scanner::{terminal, token_at};
use crate::strict_yaml::{entries_of, lemma_array_view, trees_of, StrictYaml};
use crate::tree::{has_key, lemma_push_distinct, well_formed, Tree};

verus! {

/// Why a node could not be stored.
#[derive(Clone, Copy, PartialEq, Eq, Debug, Structural)]
pub enum StoreError {
    RepeatedHashKey,
}

impl StoreError {
    /// The reason in words.
    pub fn describe(&self) -> (s: &'static str)
        ensures
            s@ == "Key already exists in the hash map"@,
    {
        "Key already exists in the hash map"
    }
}

/// Folds the events of a stream into documents.
pub struct StrictYamlLoader {
    /// The documents that are complete.
    docs: Vec<StrictYaml>,
    /// The containers in progress, the outermost first, each with its anchor
    /// (always 0); or the finished root of the document, alone.
    doc_stack: Vec<(StrictYaml, usize)>,
    /// For each mapping in progress, the key that waits for its value, or
    /// `BadValue` where a key is to come.
    key_stack: Vec<StrictYaml>,
    nesting: Ghost<Nesting>,
    log: Ghost<Seq<EventView>>,
}

/// What a loader holds, as trees.
pub struct LoaderView {
    pub docs: Seq<Tree>,
    pub stack: Seq<Tree>,
    pub keys: Seq<Tree>,
}

/// The first `n` tokens of the text `src`.
pub open spec fn stream(src: Seq<char>, n: nat) -> Seq<Lex> {
    Seq::new(n, |i: int| token_at(src, i as nat)->0)
}

/// `r` is what loading `text` comes to, as far as its first `n` tokens
/// decide: the documents that the events of these tokens fold into; or the
/// first error of the parser or of the loader; or, where the text has no
/// more tokens, the reason for that.
pub open spec fn loaded(text: Seq<char>, n: nat, r: Result<Vec<StrictYaml>, ScanError>) -> bool {
    let src = padded(text);
    &&& forall|i: nat| i < n ==> token_at(src, i) is Some
    &&& match run::<StrictYamlLoader>(
        State::StreamStart,
        Seq::empty(),
        0,
        Seq::empty(),
        stream(src, n),
        true,
    ) {
        Ran::Done { log, result: Ok(_) } => r is Ok && trees_of(r->Ok_0@) == received_all(
            nothing(),
            log,
        ).0.docs,
        Ran::Done { log, result: Err(e) } => r is Err && (r->Err_0.mark, r->Err_0.info@) == e,
        Ran::Paused { .. } => r is Err && token_at(src, n) is None && (
            r->Err_0.mark,
            r->Err_0.info@,
        ) == terminal(src, n),
    }
}

/// A loader that holds nothing.
pub open spec fn nothing() -> LoaderView {
    LoaderView { docs: Seq::empty(), stack: Seq::empty(), keys: Seq::empty() }
}

/// The loader after a complete node arrives, and whether the node was accepted.
///
/// With nothing in progress the node is the root.  A sequence in progress gets
/// it as its last item.  A mapping in progress that waits for a key keeps it as
/// the key; one that has a key takes (key, node) as its last entry, unless it
/// has that key already: then the node is refused.
pub open spec fn inserted(v: LoaderView, node: Tree) -> (LoaderView, bool) {
    if v.stack.len() == 0 {
        (LoaderView { stack: seq![node], ..v }, true)
    } else {
        match v.stack.last() {
            Tree::List(items) => (
                LoaderView { stack: v.stack.drop_last().push(Tree::List(items.push(node))), ..v },
                true,
            ),
            Tree::Table(entries) => {
                if v.keys.len() == 0 {
                    (v, true)
                } else if v.keys.last() is Absent {
                    (LoaderView { keys: v.keys.drop_last().push(node), ..v }, true)
                } else if has_key(entries, v.keys.last()) {
                    (LoaderView { keys: v.keys.drop_last().push(Tree::Absent), ..v }, false)
                } else {
                    (
                        LoaderView {
                            stack: v.stack.drop_last().push(
                                Tree::Table(entries.push((v.keys.last(), node))),
                            ),
                            keys: v.keys.drop_last().push(Tree::Absent),
                            ..v
                        },
                        true,
                    )
                }
            },
            _ => (v, true),
        }
    }
}

/// The loader after an event, and whether the event was accepted.
pub open spec fn received(v: LoaderView, ev: EventView) -> (LoaderView, bool) {
    match ev {
        EventView::StreamStart | EventView::StreamEnd | EventView::DocumentStart => (v, true),
        EventView::DocumentEnd => if v.stack.len() == 0 {
            (LoaderView { docs: v.docs.push(Tree::Absent), ..v }, true)
        } else {
            (LoaderView { docs: v.docs.push(v.stack.last()), stack: v.stack.drop_last(), ..v }, true)
        },
        EventView::SequenceStart(_) => (
            LoaderView { stack: v.stack.push(Tree::List(Seq::empty())), ..v },
            true,
        ),
        EventView::MappingStart(_) => (
            LoaderView {
                stack: v.stack.push(Tree::Table(Seq::empty())),
                keys: v.keys.push(Tree::Absent),
                ..v
            },
            true,
        ),
        EventView::SequenceEnd => inserted(
            LoaderView { stack: v.stack.drop_last(), ..v },
            v.stack.last(),
        ),
        EventView::MappingEnd => inserted(
            LoaderView { stack: v.stack.drop_last(), keys: v.keys.drop_last(), ..v },
            v.stack.last(),
        ),
        EventView::Scalar(text, _, _) => inserted(v, Tree::Text(text)),
    }
}

/// The loader after the events `evs`, one after the other, and whether all
/// of them were accepted.  Nothing is received after an event that is refused.
pub open spec fn received_all(v: LoaderView, evs: Seq<EventView>) -> (LoaderView, bool)
    decreases evs.len(),
{
    if evs.len() == 0 {
        (v, true)
    } else {
        let before = received_all(v, evs.drop_last());
        if before.1 {
            received(before.0, evs.last())
        } else {
            before
        }
    }
}

/// Receiving `a` and then `b` is receiving `a + b`.
pub proof fn lemma_received_all_concat(v: LoaderView, a: Seq<EventView>, b: Seq<EventView>)
    ensures
        received_all(v, a + b) == if received_all(v, a).1 {
            received_all(received_all(v, a).0, b)
        } else {
            received_all(v, a)
        },
    decreases b.len(),
{
    if b.len() == 0 {
        assert(a + b =~= a);
    } else {
        assert((a + b).drop_last() =~= a + b.drop_last());
        assert((a + b).last() == b.last());
        lemma_received_all_concat(v, a, b.drop_last());
    }
}

/// The containers in progress are what `open` says: a sequence where an item
/// is awaited, a mapping where a key or a value is, and a pending key exactly
/// where a value is awaited.  Each is well formed as far as it has been built.
pub open spec fn agree(open: Seq<Slot>, stack: Seq<Tree>, keys: Seq<Tree>) -> bool
    decreases open.len(),
{
    if open.len() == 0 {
        stack.len() == 0 && keys.len() == 0
    } else {
        &&& stack.len() > 0
        &&& well_formed(stack.last())
        &&& match open.last() {
            Slot::Item => stack.last() is List && agree(open.drop_last(), stack.drop_last(), keys),
            Slot::Key => stack.last() is Table && keys.len() > 0 && keys.last() is Absent && agree(
                open.drop_last(),
                stack.drop_last(),
                keys.drop_last(),
            ),
            Slot::Value => stack.last() is Table && keys.len() > 0 && well_formed(keys.last())
                && agree(open.drop_last(), stack.drop_last(), keys.drop_last()),
        }
    }
}

/// What a loader holds is consistent with its place `n` in the stream.
pub open spec fn consistent(n: Nesting, v: LoaderView) -> bool {
    &&& forall|i: int| 0 <= i < v.docs.len() ==> well_formed(#[trigger] v.docs[i])
    &&& if !n.in_document {
        n.open.len() == 0 && !n.root_done && v.stack.len() == 0 && v.keys.len() == 0
    } else if n.root_done {
        n.open.len() == 0 && v.stack.len() == 1 && v.keys.len() == 0 && well_formed(v.stack[0])
    } else {
        agree(n.open, v.stack, v.keys)
    }
}

impl View for StrictYamlLoader {
    type V = LoaderView;

    closed spec fn view(&self) -> LoaderView {
        LoaderView {
            docs: trees_of(self.docs@),
            stack: Seq::new(self.doc_stack@.len(), |i: int| self.doc_stack@[i].0@),
            keys: trees_of(self.key_stack@),
        }
    }
}

/// A complete node keeps a consistent loader consistent, where it is accepted.
pub proof fn lemma_inserted_consistent(n: Nesting, v: LoaderView, node: Tree)
    requires
        consistent(n, v),
        n.in_document,
        !n.root_done,
        well_formed(node),
    ensures
        inserted(v, node).1 ==> consistent(node_done(n), inserted(v, node).0),
{
    let after = inserted(v, node).0;
    let m = node_done(n);
    if n.open.len() == 0 {
    } else if inserted(v, node).1 {
        match n.open.last() {
            Slot::Item => {
                let items = v.stack.last()->List_0;
                let grown = items.push(node);
                assert forall|i: int| 0 <= i < grown.len() implies well_formed(
                    #[trigger] grown[i],
                ) by {
                    if i < items.len() {
                        assert(grown[i] == items[i]);
                    }
                }
                assert(after.stack.drop_last() =~= v.stack.drop_last());
            },
            Slot::Key => {
                assert(after.keys.drop_last() =~= v.keys.drop_last());
                assert(m.open.drop_last() =~= n.open.drop_last());
            },
            Slot::Value => {
                let entries = v.stack.last()->Table_0;
                let key = v.keys.last();
                let grown = entries.push((key, node));
                lemma_push_distinct(entries, key, node);
                assert forall|i: int| 0 <= i < grown.len() implies well_formed(
                    (#[trigger] grown[i]).0,
                ) && well_formed(grown[i].1) by {
                    if i < entries.len() {
                        assert(grown[i] == entries[i]);
                    }
                }
                assert(after.stack.drop_last() =~= v.stack.drop_last());
                assert(after.keys.drop_last() =~= v.keys.drop_last());
                assert(m.open.drop_last() =~= n.open.drop_last());
            },
        }
    }
}

/// An event that is permitted keeps a consistent loader consistent, where it is accepted.
pub proof fn lemma_received_consistent(n: Nesting, v: LoaderView, ev: EventView)
    requires
        consistent(n, v),
        permitted(n, ev),
    ensures
        received(v, ev).1 ==> consistent(advance(n, ev), received(v, ev).0),
{
    let after = received(v, ev).0;
    match ev {
        EventView::StreamStart | EventView::StreamEnd | EventView::DocumentStart => {},
        EventView::DocumentEnd => {
            assert forall|i: int| 0 <= i < after.docs.len() implies well_formed(
                #[trigger] after.docs[i],
            ) by {
                if i < v.docs.len() {
                    assert(after.docs[i] == v.docs[i]);
                }
            }
        },
        EventView::SequenceStart(_) => {
            assert(after.stack.drop_last() =~= v.stack);
            assert(n.open.push(Slot::Item).drop_last() =~= n.open);
        },
        EventView::MappingStart(_) => {
            assert(after.stack.drop_last() =~= v.stack);
            assert(after.keys.drop_last() =~= v.keys);
            assert(n.open.push(Slot::Key).drop_last() =~= n.open);
        },
        EventView::SequenceEnd => {
            lemma_inserted_consistent(
                Nesting { open: n.open.drop_last(), ..n },
                LoaderView { stack: v.stack.drop_last(), ..v },
                v.stack.last(),
            );
        },
        EventView::MappingEnd => {
            lemma_inserted_consistent(
                Nesting { open: n.open.drop_last(), ..n },
                LoaderView { stack: v.stack.drop_last(), keys: v.keys.drop_last(), ..v },
                v.stack.last(),
            );
        },
        EventView::Scalar(text, _, _) => {
            lemma_inserted_consistent(n, v, Tree::Text(text));
        },
    }
}

impl StrictYamlLoader {
    /// A loader that has seen nothing.
    pub fn new() -> (loader: StrictYamlLoader)
        ensures
            loader.ready(),
            loader.nesting() == idle(),
            loader.log() == Seq::<EventView>::empty(),
            loader@ == nothing(),
    {
        let loader = StrictYamlLoader {
            docs: Vec::new(),
            doc_stack: Vec::new(),
            key_stack: Vec::new(),
            nesting: Ghost(idle()),
            log: Ghost(Seq::empty()),
        };
        proof {
            assert(loader@.docs =~= Seq::<Tree>::empty());
            assert(loader@.stack =~= Seq::<Tree>::empty());
            assert(loader@.keys =~= Seq::<Tree>::empty());
        }
        loader
    }

    /// Loads the documents of `source`.
    ///
    /// The outcome is `run` of the tokens of `source`, as many as the parser
    /// asks for: the documents are what the events of the stream fold into,
    /// and an error is the first that the scanner, the parser or the loader
    /// finds.  Every document that comes out is well formed: its leaves are
    /// scalars, and no mapping in it has a key twice.
    pub fn load_from_str(source: &str) -> (r: Result<Vec<StrictYaml>, ScanError>)
        ensures
            exists|n: nat| loaded(source@, n, r),
            r is Ok ==> forall|i: int|
                0 <= i < r->Ok_0@.len() ==> well_formed(#[trigger] r->Ok_0@[i]@),
    {
        let mut loader = StrictYamlLoader::new();
        let mut parser = Parser::new(source);
        let res = parser.load(&mut loader, true);
        proof {
            let n = parser.fetched@.len();
            let src = padded(source@);
            assert(lexes(parser.fetched@) =~= stream(src, n)) by {
                assert forall|i: int| 0 <= i < n implies lexes(parser.fetched@)[i] == stream(
                    src,
                    n,
                )[i] by {
                    assert(token_at(src, i as nat) == Some(lex_of(parser.fetched@[i])));
                }
            }
            assert forall|i: nat| i < n implies token_at(src, i) is Some by {
                assert(token_at(src, i) == Some(lex_of(parser.fetched@[i as int])));
            }
        }
        match res {
            Err(e) => {
                proof {
                    assert(loaded(source@, parser.fetched@.len(), Err(e)));
                }
                Err(e)
            },
            Ok(()) => {
                proof {
                    assert(loader@.stack =~= Seq::<Tree>::empty());
                    assert(loader@.keys =~= Seq::<Tree>::empty());
                    assert(received_all(nothing(), loader.log@) == (loader@, true));
                    assert forall|i: int| 0 <= i < loader.docs@.len() implies well_formed(
                        #[trigger] loader.docs@[i]@,
                    ) by {
                        assert(loader@.docs[i] == loader.docs@[i]@);
                    }
                    assert(loaded(source@, parser.fetched@.len(), Ok(loader.docs)));
                }
                Ok(loader.docs)
            },
        }
    }

    /// Stores a complete node where it belongs: as the root, as the next item
    /// of the sequence in progress, or as the next key or value of the mapping
    /// in progress.  A key that the mapping has already is refused.
    fn insert_new_node(&mut self, node: (StrictYaml, usize)) -> (r: Result<(), StoreError>)
        requires
            consistent(old(self).nesting@, old(self)@),
            old(self).nesting@.in_document,
            !old(self).nesting@.root_done,
            well_formed(node.0@),
        ensures
            final(self)@ == inserted(old(self)@, node.0@).0,
            r is Ok <==> inserted(old(self)@, node.0@).1,
            r is Ok ==> consistent(final(self).nesting@, final(self)@) && final(self).nesting@
                == node_done(old(self).nesting@),
            final(self).log == old(self).log,
    {
        let ghost n = self.nesting@;
        let ghost v = self@;
        proof {
            lemma_inserted_consistent(n, v, node.0@);
        }
        if self.doc_stack.is_empty() {
            self.doc_stack.push(node);
            proof {
                self.nesting@ = node_done(n);
                assert(self@.stack =~= seq![node.0@]);
            }
            Ok(())
        } else {
            let (parent, aid) = self.doc_stack.pop().unwrap();
            assert(parent@ == v.stack.last());
            assert(self@.stack =~= v.stack.drop_last());
            match parent {
                StrictYaml::Array(items) => {
                    let mut items = items;
                    let ghost before = items;
                    items.push(node.0);
                    proof {
                        lemma_array_view(before);
                        lemma_array_view(items);
                        assert(trees_of(items@) =~= trees_of(before@).push(node.0@));
                    }
                    self.doc_stack.push((StrictYaml::Array(items), aid));
                    proof {
                        self.nesting@ = node_done(n);
                        assert(self@.stack =~= inserted(v, node.0@).0.stack);
                    }
                    Ok(())
                },
                StrictYaml::Hash(h) => {
                    let mut h = h;
                    let cur_key = self.key_stack.pop().unwrap();
                    assert(cur_key@ == v.keys.last());
                    assert(self@.keys =~= v.keys.drop_last());
                    if cur_key.is_badvalue() {
                        self.key_stack.push(node.0);
                        self.doc_stack.push((StrictYaml::Hash(h), aid));
                        proof {
                            self.nesting@ = node_done(n);
                            assert(self@.stack =~= v.stack);
                            assert(self@.keys =~= inserted(v, node.0@).0.keys);
                        }
                        Ok(())
                    } else {
                        self.key_stack.push(StrictYaml::BadValue);
                        if h.contains_key(&cur_key) {
                            self.doc_stack.push((StrictYaml::Hash(h), aid));
                            proof {
                                assert(self@.stack =~= v.stack);
                                assert(self@.keys =~= inserted(v, node.0@).0.keys);
                            }
                            Err(StoreError::RepeatedHashKey)
                        } else {
                            let _ = h.raw_insert(cur_key, node.0);
                            self.doc_stack.push((StrictYaml::Hash(h), aid));
                            proof {
                                self.nesting@ = node_done(n);
                                assert(self@.stack =~= inserted(v, node.0@).0.stack);
                                assert(self@.keys =~= inserted(v, node.0@).0.keys);
                            }
                            Ok(())
                        }
                    }
                },
                // only a container is in progress
                _ => vstd::pervasive::unreached(),
            }
        }
    }
}

impl MarkedEventReceiver for StrictYamlLoader {
    closed spec fn nesting(&self) -> Nesting {
        self.nesting@
    }

    closed spec fn ready(&self) -> bool {
        &&& consistent(self.nesting@, self@)
        &&& received_all(nothing(), self.log@) == (self@, true)
        &&& permitted_all(idle(), self.log@)
        &&& advanced_all(idle(), self.log@) == self.nesting@
    }

    closed spec fn log(&self) -> Seq<EventView> {
        self.log@
    }

    /// An event is refused where it is the value of a key that its mapping has already.
    open spec fn refusal(log: Seq<EventView>, ev: EventView, mark: Marker) -> Option<
        (Marker, Seq<char>),
    > {
        if received(received_all(nothing(), log).0, ev).1 {
            None
        } else {
            Some((mark, "Error handling node: "@ + "Key already exists in the hash map"@))
        }
    }

    /// Takes the next event of the stream.  The loader afterwards is
    /// `received` of the loader before; the one event that can be refused is
    /// the value of a key that its mapping has already, and the error then
    /// carries the position of that event.
    fn on_event(&mut self, ev: Event, mark: Marker) -> (r: Result<(), ScanError>)
        ensures
            final(self)@ == received(old(self)@, ev@).0,
            r is Ok <==> received(old(self)@, ev@).1,
            r is Err ==> r->Err_0.mark == mark && r->Err_0.info@
                == "Error handling node: "@ + "Key already exists in the hash map"@,
    {
        let ghost n = self.nesting@;
        let ghost v = self@;
        let ghost e = ev@;
        proof {
            lemma_received_consistent(n, v, ev@);
        }
        let res = match ev {
            Event::DocumentStart => {
                proof {
                    self.nesting@ = advance(n, ev@);
                }
                Ok(())
            },
            Event::DocumentEnd => {
                if self.doc_stack.len() == 0 {
                    self.docs.push(StrictYaml::BadValue);
                } else {
                    let (node, _) = self.doc_stack.pop().unwrap();
                    self.docs.push(node);
                }
                proof {
                    self.nesting@ = advance(n, ev@);
                    assert(self@.docs =~= received(v, ev@).0.docs);
                    assert(self@.stack =~= received(v, ev@).0.stack);
                }
                Ok(())
            },
            Event::SequenceStart(aid) => {
                let items: Vec<StrictYaml> = Vec::new();
                proof {
                    lemma_array_view(items);
                    assert(trees_of(items@) =~= Seq::<Tree>::empty());
                }
                self.doc_stack.push((StrictYaml::Array(items), aid));
                proof {
                    self.nesting@ = advance(n, ev@);
                    assert(self@.stack =~= received(v, ev@).0.stack);
                }
                Ok(())
            },
            Event::SequenceEnd => {
                let node = self.doc_stack.pop().unwrap();
                proof {
                    self.nesting@ = Nesting { open: n.open.drop_last(), ..n };
                    assert(self@.stack =~= v.stack.drop_last());
                }
                self.insert_new_node(node)
            },
            Event::MappingStart(aid) => {
                self.doc_stack.push((StrictYaml::Hash(crate::strict_yaml::Hash::new()), aid));
                self.key_stack.push(StrictYaml::BadValue);
                proof {
                    self.nesting@ = advance(n, ev@);
                    assert(self@.stack =~= received(v, ev@).0.stack);
                    assert(self@.keys =~= received(v, ev@).0.keys);
                }
                Ok(())
            },
            Event::MappingEnd => {
                let _ = self.key_stack.pop().unwrap();
                let node = self.doc_stack.pop().unwrap();
                proof {
                    self.nesting@ = Nesting { open: n.open.drop_last(), ..n };
                    assert(self@.stack =~= v.stack.drop_last());
                    assert(self@.keys =~= v.keys.drop_last());
                }
                self.insert_new_node(node)
            },
            Event::Scalar(text, _, aid) => {
                let node = StrictYaml::String(text);
                self.insert_new_node((node, aid))
            },
            _ => {
                proof {
                    self.nesting@ = advance(n, e);
                }
                Ok(())
            },
        };
        match res {
            Ok(()) => {
                proof {
                    let before = self.log@;
                    let after = before.push(e);
                    assert(after.drop_last() =~= before);
                    self.log@ = after;
                }
                Ok(())
            },
            Err(e) => {
                let mut info = "Error handling node: ".to_owned();
                info.append(e.describe());
                Err(ScanError { mark, info })
            },
        }
    }
}

} // verus!
