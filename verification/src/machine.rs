use vstd::prelude::*;
use crate::event::{
    advance, idle, node_done, permitted, EventView, MarkedEventReceiver, Nesting, Slot,
};
use crate::marker::Marker;
use crate::lexeme::Lex;
use crate::token::{TScalarStyle, TokenKind};

verus! {

/// The states of the parser.
#[derive(Clone, Copy, PartialEq, Eq, Debug, Structural)]
pub enum State {
    StreamStart,
    ImplicitDocumentStart,
    DocumentStart,
    DocumentContent,
    DocumentEnd,
    BlockNode,
    BlockSequenceFirstEntry,
    BlockSequenceEntry,
    IndentlessSequenceEntry,
    BlockMappingFirstKey,
    BlockMappingKey,
    BlockMappingValue,
    End,
}

/// What one step of the parser comes to.
pub enum Outcome {
    /// An event, the state and the suspended states after it, and the index
    /// of the first token that the step left unread.
    Emit { event: EventView, mark: Marker, state: State, states: Seq<State>, next: int },
    /// The token at `mark` cannot stand where it does.
    Refuse { mark: Marker, info: Seq<char> },
    /// The tokens end before the step is decided.
    Starve,
}

/// The scalar that stands for a key or a value that was left out.
pub open spec fn empty_scalar() -> EventView {
    EventView::Scalar(Seq::empty(), TScalarStyle::Plain, 0)
}

/// The index of the first token from `at` on that is no `DocumentEnd`.
pub open spec fn after_document_ends(toks: Seq<Lex>, at: int) -> int
    decreases toks.len() - at,
{
    if 0 <= at < toks.len() && toks[at].lexeme.kind() == TokenKind::DocumentEnd {
        after_document_ends(toks, at + 1)
    } else {
        at
    }
}

/// The index of the first token from `at` on that is no directive.
pub open spec fn after_directives(toks: Seq<Lex>, at: int) -> int
    decreases toks.len() - at,
{
    if 0 <= at < toks.len() && (toks[at].lexeme.kind() == TokenKind::VersionDirective
        || toks[at].lexeme.kind() == TokenKind::TagDirective) {
        after_directives(toks, at + 1)
    } else {
        at
    }
}

/// The start of a node at the token `at`: a scalar is the whole node, and the
/// parser goes on where the innermost suspended state says; the start of a
/// block opens a collection; a `-` opens a sequence that is not indented,
/// where one may stand.
pub open spec fn node(
    block: bool,
    indentless: bool,
    states: Seq<State>,
    toks: Seq<Lex>,
    at: int,
) -> Outcome {
    if !(0 <= at < toks.len()) {
        Outcome::Starve
    } else {
        let mark = toks[at].mark;
        match toks[at].lexeme.kind() {
            TokenKind::Scalar => Outcome::Emit {
                event: EventView::Scalar(toks[at].lexeme->Scalar_1, toks[at].lexeme->Scalar_0, 0),
                mark,
                state: states.last(),
                states: states.drop_last(),
                next: at + 1,
            },
            TokenKind::BlockSequenceStart => if !block {
                refused_node(mark)
            } else {
                Outcome::Emit {
                    event: EventView::SequenceStart(0),
                    mark,
                    state: State::BlockSequenceFirstEntry,
                    states,
                    next: at,
                }
            },
            TokenKind::BlockMappingStart => if !block {
                refused_node(mark)
            } else {
                Outcome::Emit {
                    event: EventView::MappingStart(0),
                    mark,
                    state: State::BlockMappingFirstKey,
                    states,
                    next: at,
                }
            },
            TokenKind::BlockEntry => if indentless {
                Outcome::Emit {
                    event: EventView::SequenceStart(0),
                    mark,
                    state: State::IndentlessSequenceEntry,
                    states,
                    next: at,
                }
            } else {
                refused_node(mark)
            },
            _ => refused_node(mark),
        }
    }
}

/// No node can begin with the token at `mark`.
pub open spec fn refused_node(mark: Marker) -> Outcome {
    Outcome::Refuse { mark, info: "while parsing a node, did not find expected node content"@ }
}

/// At the start: the token of the start of the stream gives its event, and
/// a document may follow.
pub open spec fn stream_start(states: Seq<State>, toks: Seq<Lex>, at: int) -> Outcome {
    if !(0 <= at < toks.len()) {
        Outcome::Starve
    } else if toks[at].lexeme.kind() == TokenKind::StreamStart {
        Outcome::Emit {
            event: EventView::StreamStart,
            mark: toks[at].mark,
            state: State::ImplicitDocumentStart,
            states,
            next: at + 1,
        }
    } else {
        Outcome::Refuse { mark: toks[at].mark, info: "did not find expected <stream-start>"@ }
    }
}

/// A document that begins with directives or with `---`.
pub open spec fn explicit_document_start(states: Seq<State>, toks: Seq<Lex>, at: int) -> Outcome {
    let a = after_directives(toks, at);
    if !(0 <= a < toks.len()) {
        Outcome::Starve
    } else if toks[a].lexeme.kind() == TokenKind::DocumentStart {
        Outcome::Emit {
            event: EventView::DocumentStart,
            mark: toks[a].mark,
            state: State::DocumentContent,
            states: states.push(State::DocumentEnd),
            next: a + 1,
        }
    } else {
        Outcome::Refuse { mark: toks[a].mark, info: "did not find expected <document start>"@ }
    }
}

/// Before a document.  The end of the stream ends the parse.  Directives
/// or `---` begin a document of which they are part.  Anything else begins
/// a document whose root node it is, where no `---` is asked for (`implicit`).
/// Where `---` is asked for, tokens that end a document are read over first.
pub open spec fn document_start(implicit: bool, states: Seq<State>, toks: Seq<Lex>, at: int)
    -> Outcome {
    let a = if implicit {
        at
    } else {
        after_document_ends(toks, at)
    };
    if !(0 <= a < toks.len()) {
        Outcome::Starve
    } else {
        match toks[a].lexeme.kind() {
            TokenKind::StreamEnd => Outcome::Emit {
                event: EventView::StreamEnd,
                mark: toks[a].mark,
                state: State::End,
                states,
                next: a + 1,
            },
            TokenKind::VersionDirective | TokenKind::TagDirective | TokenKind::DocumentStart => {
                explicit_document_start(states, toks, a)
            },
            _ => if implicit {
                Outcome::Emit {
                    event: EventView::DocumentStart,
                    mark: toks[a].mark,
                    state: State::BlockNode,
                    states: states.push(State::DocumentEnd),
                    next: a,
                }
            } else {
                explicit_document_start(states, toks, a)
            },
        }
    }
}

/// After `---`: a token that begins or ends a document, or ends the
/// stream, leaves the document empty, which is an empty scalar; anything
/// else is its root node.
pub open spec fn document_content(states: Seq<State>, toks: Seq<Lex>, at: int) -> Outcome {
    if !(0 <= at < toks.len()) {
        Outcome::Starve
    } else {
        match toks[at].lexeme.kind() {
            TokenKind::VersionDirective
            | TokenKind::TagDirective
            | TokenKind::DocumentStart
            | TokenKind::DocumentEnd
            | TokenKind::StreamEnd => Outcome::Emit {
                event: empty_scalar(),
                mark: toks[at].mark,
                state: states.last(),
                states: states.drop_last(),
                next: at,
            },
            _ => node(true, false, states, toks, at),
        }
    }
}

/// After the root node: the document ends, with `...` or without.
pub open spec fn document_end(states: Seq<State>, toks: Seq<Lex>, at: int) -> Outcome {
    if !(0 <= at < toks.len()) {
        Outcome::Starve
    } else {
        Outcome::Emit {
            event: EventView::DocumentEnd,
            mark: toks[at].mark,
            state: State::DocumentStart,
            states,
            next: if toks[at].lexeme.kind() == TokenKind::DocumentEnd {
                at + 1
            } else {
                at
            },
        }
    }
}

/// In a block mapping, where a key may stand (`first`: at its start, whose
/// token is read over).  A `Key` token begins a key, which is empty where no
/// node follows; a `Value` token without a key leaves the key empty; the
/// end of the block ends the mapping.
pub open spec fn block_mapping_key(first: bool, states: Seq<State>, toks: Seq<Lex>, at: int)
    -> Outcome {
    let a = if first {
        at + 1
    } else {
        at
    };
    if !(0 <= at && a < toks.len()) {
        Outcome::Starve
    } else {
        match toks[a].lexeme.kind() {
            TokenKind::Key => if !(a + 1 < toks.len()) {
                Outcome::Starve
            } else {
                match toks[a + 1].lexeme.kind() {
                    TokenKind::Key | TokenKind::Value | TokenKind::BlockEnd => Outcome::Emit {
                        event: empty_scalar(),
                        mark: toks[a + 1].mark,
                        state: State::BlockMappingValue,
                        states,
                        next: a + 1,
                    },
                    _ => node(true, true, states.push(State::BlockMappingValue), toks, a + 1),
                }
            },
            TokenKind::Value => Outcome::Emit {
                event: empty_scalar(),
                mark: toks[a].mark,
                state: State::BlockMappingValue,
                states,
                next: a,
            },
            TokenKind::BlockEnd => Outcome::Emit {
                event: EventView::MappingEnd,
                mark: toks[a].mark,
                state: states.last(),
                states: states.drop_last(),
                next: a + 1,
            },
            _ => Outcome::Refuse {
                mark: toks[a].mark,
                info: "while parsing a block mapping, did not find expected key"@,
            },
        }
    }
}

/// In a block mapping, after a key.  A `Value` token begins the value,
/// which is empty where no node follows; without one the value is empty.
pub open spec fn block_mapping_value(states: Seq<State>, toks: Seq<Lex>, at: int) -> Outcome {
    if !(0 <= at < toks.len()) {
        Outcome::Starve
    } else {
        match toks[at].lexeme.kind() {
            TokenKind::Value => if !(at + 1 < toks.len()) {
                Outcome::Starve
            } else {
                match toks[at + 1].lexeme.kind() {
                    TokenKind::Key | TokenKind::Value | TokenKind::BlockEnd => Outcome::Emit {
                        event: empty_scalar(),
                        mark: toks[at + 1].mark,
                        state: State::BlockMappingKey,
                        states,
                        next: at + 1,
                    },
                    _ => node(true, true, states.push(State::BlockMappingKey), toks, at + 1),
                }
            },
            _ => Outcome::Emit {
                event: empty_scalar(),
                mark: toks[at].mark,
                state: State::BlockMappingKey,
                states,
                next: at,
            },
        }
    }
}

/// In a sequence that is not indented.  A `-` begins an item, which is
/// empty where no node follows; anything else ends the sequence.
pub open spec fn indentless_sequence_entry(states: Seq<State>, toks: Seq<Lex>, at: int)
    -> Outcome {
    if !(0 <= at < toks.len()) {
        Outcome::Starve
    } else if toks[at].lexeme.kind() != TokenKind::BlockEntry {
        Outcome::Emit {
            event: EventView::SequenceEnd,
            mark: toks[at].mark,
            state: states.last(),
            states: states.drop_last(),
            next: at,
        }
    } else if !(at + 1 < toks.len()) {
        Outcome::Starve
    } else {
        match toks[at + 1].lexeme.kind() {
            TokenKind::BlockEntry | TokenKind::Key | TokenKind::Value | TokenKind::BlockEnd => {
                Outcome::Emit {
                    event: empty_scalar(),
                    mark: toks[at + 1].mark,
                    state: State::IndentlessSequenceEntry,
                    states,
                    next: at + 1,
                }
            },
            _ => node(true, false, states.push(State::IndentlessSequenceEntry), toks, at + 1),
        }
    }
}

/// In a block sequence (`first`: at its start, whose token is read over).
/// A `-` begins an item, which is empty where no node follows; the end of
/// the block ends the sequence.
pub open spec fn block_sequence_entry(first: bool, states: Seq<State>, toks: Seq<Lex>, at: int)
    -> Outcome {
    let a = if first {
        at + 1
    } else {
        at
    };
    if !(0 <= at && a < toks.len()) {
        Outcome::Starve
    } else {
        match toks[a].lexeme.kind() {
            TokenKind::BlockEnd => Outcome::Emit {
                event: EventView::SequenceEnd,
                mark: toks[a].mark,
                state: states.last(),
                states: states.drop_last(),
                next: a + 1,
            },
            TokenKind::BlockEntry => if !(a + 1 < toks.len()) {
                Outcome::Starve
            } else {
                match toks[a + 1].lexeme.kind() {
                    TokenKind::BlockEntry | TokenKind::BlockEnd => Outcome::Emit {
                        event: empty_scalar(),
                        mark: toks[a + 1].mark,
                        state: State::BlockSequenceEntry,
                        states,
                        next: a + 1,
                    },
                    _ => node(true, false, states.push(State::BlockSequenceEntry), toks, a + 1),
                }
            },
            _ => Outcome::Refuse {
                mark: toks[a].mark,
                info: "while parsing a block collection, did not find expected '-' indicator"@,
            },
        }
    }
}

/// One step of the parser: from the state, the suspended states and the
/// tokens from `at` on, to an event and what follows it.  (At the end of the
/// stream no step is taken.)
pub open spec fn step(state: State, states: Seq<State>, toks: Seq<Lex>, at: int) -> Outcome {
    match state {
        State::StreamStart => stream_start(states, toks, at),
        State::ImplicitDocumentStart => document_start(true, states, toks, at),
        State::DocumentStart => document_start(false, states, toks, at),
        State::DocumentContent => document_content(states, toks, at),
        State::DocumentEnd => document_end(states, toks, at),
        State::BlockNode => node(true, false, states, toks, at),
        State::BlockMappingFirstKey => block_mapping_key(true, states, toks, at),
        State::BlockMappingKey => block_mapping_key(false, states, toks, at),
        State::BlockMappingValue => block_mapping_value(states, toks, at),
        State::BlockSequenceFirstEntry => block_sequence_entry(true, states, toks, at),
        State::BlockSequenceEntry => block_sequence_entry(false, states, toks, at),
        State::IndentlessSequenceEntry => indentless_sequence_entry(states, toks, at),
        State::End => Outcome::Starve,
    }
}

/// A state in which a collection is open.
pub open spec fn in_collection(state: State) -> bool {
    state is BlockSequenceFirstEntry || state is BlockSequenceEntry
        || state is IndentlessSequenceEntry || state is BlockMappingFirstKey
        || state is BlockMappingKey || state is BlockMappingValue
}

/// A state that is suspended while a node inside a collection is parsed.
pub open spec fn is_continuation(state: State) -> bool {
    state is BlockSequenceEntry || state is IndentlessSequenceEntry || state is BlockMappingKey
        || state is BlockMappingValue
}

/// What the collection that is open in `state` waits for.
pub open spec fn slot_of_state(state: State) -> Slot {
    if state is BlockMappingFirstKey || state is BlockMappingKey {
        Slot::Key
    } else if state is BlockMappingValue {
        Slot::Value
    } else {
        Slot::Item
    }
}

/// What a collection waits for while `state` is suspended for a node in it:
/// a mapping that will go on with a value is at a key, and the other way round.
pub open spec fn slot_of_suspended(state: State) -> Slot {
    if state is BlockMappingKey {
        Slot::Value
    } else if state is BlockMappingValue {
        Slot::Key
    } else {
        Slot::Item
    }
}

/// The suspended states fit the state: none outside a document, the end of
/// the document alone under its root node, and under an open collection the
/// end of the document and then one state for each collection around it.
pub open spec fn stack_ok(state: State, states: Seq<State>) -> bool {
    if in_collection(state) {
        &&& states.len() >= 1
        &&& states[0] is DocumentEnd
        &&& forall|i: int| 1 <= i < states.len() ==> is_continuation(#[trigger] states[i])
        &&& forall|i: int|
            1 <= i < states.len() && (#[trigger] states[i]) is IndentlessSequenceEntry
                ==> under_mapping(states[i - 1])
        &&& state is IndentlessSequenceEntry ==> under_mapping(states.last())
    } else if state is BlockNode || state is DocumentContent {
        states =~= seq![State::DocumentEnd]
    } else {
        states.len() == 0
    }
}

/// A sequence that is not indented stands in a mapping only, as a key or a value.
pub open spec fn under_mapping(state: State) -> bool {
    state is BlockMappingKey || state is BlockMappingValue
}

/// The slots of the collections that the suspended states stand for.
pub open spec fn open_under(states: Seq<State>) -> Seq<Slot> {
    Seq::new((states.len() - 1) as nat, |i: int| slot_of_suspended(states[i + 1]))
}

/// Where in the stream of events the parser stands.
pub open spec fn nesting_of(state: State, states: Seq<State>) -> Nesting {
    if in_collection(state) {
        Nesting {
            in_document: true,
            root_done: false,
            open: open_under(states).push(slot_of_state(state)),
        }
    } else if state is BlockNode || state is DocumentContent {
        Nesting { in_document: true, root_done: false, open: Seq::empty() }
    } else if state is DocumentEnd {
        Nesting { in_document: true, root_done: true, open: Seq::empty() }
    } else {
        idle()
    }
}

/// The start of a node keeps the stream well nested.
pub proof fn lemma_node_nested(
    indentless: bool,
    state: State,
    states: Seq<State>,
    toks: Seq<Lex>,
    at: int,
)
    requires
        is_continuation(state) || state is DocumentEnd,
        stack_ok(state, states),
        node(true, indentless, states.push(state), toks, at) is Emit,
        indentless ==> state is BlockMappingKey || state is BlockMappingValue,
    ensures
        ({
            let out = node(true, indentless, states.push(state), toks, at);
            let before = if state is DocumentEnd {
                Nesting { in_document: true, root_done: false, open: Seq::empty() }
            } else {
                Nesting {
                    in_document: true,
                    root_done: false,
                    open: open_under(states).push(slot_of_suspended(state)),
                }
            };
            &&& stack_ok(out->state, out->states)
            &&& permitted(before, out->event)
            &&& nesting_of(out->state, out->states) == advance(before, out->event)
        }),
{
    let out = node(true, indentless, states.push(state), toks, at);
    let pushed = states.push(state);
    let before = if state is DocumentEnd {
        Nesting { in_document: true, root_done: false, open: Seq::<Slot>::empty() }
    } else {
        Nesting {
            in_document: true,
            root_done: false,
            open: open_under(states).push(slot_of_suspended(state)),
        }
    };
    assert(pushed.drop_last() =~= states);
    assert(pushed.last() == state);
    if toks[at].lexeme.kind() == TokenKind::Scalar {
        if state is DocumentEnd {
        } else {
            assert(before.open.drop_last() =~= open_under(states));
            assert(nesting_of(state, states).open =~= advance(before, out->event).open);
        }
    } else {
        if state is DocumentEnd {
            assert(open_under(pushed) =~= Seq::<Slot>::empty());
        } else {
            assert(open_under(pushed) =~= open_under(states).push(slot_of_suspended(state)));
        }
        assert(nesting_of(out->state, out->states).open =~= advance(before, out->event).open);
    }
}

/// Where a collection ends, the parser goes on with the innermost suspended
/// state, which stands where the collection, now a complete node, leaves its parent.
pub proof fn lemma_pop_nested(state: State, states: Seq<State>)
    requires
        in_collection(state),
        stack_ok(state, states),
    ensures
        stack_ok(states.last(), states.drop_last()),
        nesting_of(states.last(), states.drop_last()) == node_done(
            Nesting { open: nesting_of(state, states).open.drop_last(), ..nesting_of(state, states) },
        ),
{
    let under = open_under(states);
    assert(nesting_of(state, states).open.drop_last() =~= under);
    let rest = states.drop_last();
    if states.len() == 1 {
        assert(under =~= Seq::<Slot>::empty());
    } else {
        let top = states.last();
        assert(is_continuation(top));
        assert(under.last() == slot_of_suspended(top));
        assert(under.drop_last() =~= open_under(rest));
        assert(rest[0] == states[0]);
        assert forall|i: int| 1 <= i < rest.len() implies is_continuation(#[trigger] rest[i]) by {
            assert(rest[i] == states[i]);
        }
        assert(nesting_of(top, rest).open =~= node_done(
            Nesting { open: under, ..nesting_of(state, states) },
        ).open);
    }
}

/// The parser keeps the stream of events well nested: the event of a step
/// is permitted where the parser stood, and the parser then stands where the
/// event leads.
pub proof fn lemma_step_nested(state: State, states: Seq<State>, toks: Seq<Lex>, at: int)
    requires
        stack_ok(state, states),
        step(state, states, toks, at) is Emit,
    ensures
        ({
            let out = step(state, states, toks, at);
            &&& stack_ok(out->state, out->states)
            &&& permitted(nesting_of(state, states), out->event)
            &&& nesting_of(out->state, out->states) == advance(
                nesting_of(state, states),
                out->event,
            )
        }),
{
    let out = step(state, states, toks, at);
    let before = nesting_of(state, states);
    match state {
        State::StreamStart => {},
        State::ImplicitDocumentStart | State::DocumentStart => {
            assert(states.push(State::DocumentEnd) =~= seq![State::DocumentEnd]);
        },
        State::DocumentContent => {
            assert(states.drop_last() =~= Seq::<State>::empty());
            if !(out->event is Scalar && out->next == at) {
                assert(states =~= Seq::<State>::empty().push(State::DocumentEnd));
                lemma_node_nested(false, State::DocumentEnd, Seq::empty(), toks, at);
            }
        },
        State::DocumentEnd => {},
        State::BlockNode => {
            assert(states =~= Seq::<State>::empty().push(State::DocumentEnd));
            lemma_node_nested(false, State::DocumentEnd, Seq::empty(), toks, at);
        },
        State::BlockMappingFirstKey | State::BlockMappingKey => {
            let a = if state is BlockMappingFirstKey {
                at + 1
            } else {
                at
            };
            if toks[a].lexeme.kind() == TokenKind::Key {
                if out == node(true, true, states.push(State::BlockMappingValue), toks, a + 1) {
                    lemma_node_nested(true, State::BlockMappingValue, states, toks, a + 1);
                }
                assert(before.open.drop_last() =~= open_under(states));
                assert(nesting_of(State::BlockMappingValue, states).open =~= node_done(
                    before,
                ).open);
            } else if toks[a].lexeme.kind() == TokenKind::Value {
                assert(before.open.drop_last() =~= open_under(states));
                assert(nesting_of(State::BlockMappingValue, states).open =~= node_done(
                    before,
                ).open);
            } else {
                lemma_pop_nested(state, states);
            }
        },
        State::BlockMappingValue => {
            if toks[at].lexeme.kind() == TokenKind::Value && out == node(
                true,
                true,
                states.push(State::BlockMappingKey),
                toks,
                at + 1,
            ) {
                lemma_node_nested(true, State::BlockMappingKey, states, toks, at + 1);
            }
            assert(before.open.drop_last() =~= open_under(states));
            assert(nesting_of(State::BlockMappingKey, states).open =~= node_done(before).open);
        },
        State::BlockSequenceFirstEntry | State::BlockSequenceEntry => {
            let a = if state is BlockSequenceFirstEntry {
                at + 1
            } else {
                at
            };
            if toks[a].lexeme.kind() == TokenKind::BlockEnd {
                lemma_pop_nested(state, states);
            } else {
                if out == node(true, false, states.push(State::BlockSequenceEntry), toks, a + 1) {
                    lemma_node_nested(false, State::BlockSequenceEntry, states, toks, a + 1);
                }
                assert(nesting_of(State::BlockSequenceEntry, states).open =~= before.open);
            }
        },
        State::IndentlessSequenceEntry => {
            if toks[at].lexeme.kind() != TokenKind::BlockEntry {
                lemma_pop_nested(state, states);
            } else {
                if out == node(true, false, states.push(State::IndentlessSequenceEntry), toks, at + 1) {
                    lemma_node_nested(false, State::IndentlessSequenceEntry, states, toks, at + 1);
                }
                assert(nesting_of(State::IndentlessSequenceEntry, states).open =~= before.open);
            }
        },
        State::End => {},
    }
}

/// Where the tokens from `at` up to `a` are `DocumentEnd` tokens and the one
/// at `a` is none, `a` is where they end.
pub proof fn lemma_after_document_ends(toks: Seq<Lex>, at: int, a: int)
    requires
        0 <= at <= a <= toks.len(),
        forall|i: int| at <= i < a ==> (#[trigger] toks[i]).lexeme.kind() == TokenKind::DocumentEnd,
        a < toks.len() ==> toks[a].lexeme.kind() != TokenKind::DocumentEnd,
    ensures
        after_document_ends(toks, at) == a,
    decreases a - at,
{
    if at < a {
        assert(toks[at].lexeme.kind() == TokenKind::DocumentEnd);
        lemma_after_document_ends(toks, at + 1, a);
    }
}

/// Where the tokens from `at` up to `a` are directives and the one at `a` is
/// none, `a` is where they end.
pub proof fn lemma_after_directives(toks: Seq<Lex>, at: int, a: int)
    requires
        0 <= at <= a <= toks.len(),
        forall|i: int|
            at <= i < a ==> (#[trigger] toks[i]).lexeme.kind() == TokenKind::VersionDirective
                || toks[i].lexeme.kind() == TokenKind::TagDirective,
        a < toks.len() ==> toks[a].lexeme.kind() != TokenKind::VersionDirective
            && toks[a].lexeme.kind()
            != TokenKind::TagDirective,
    ensures
        after_directives(toks, at) == a,
    decreases a - at,
{
    if at < a {
        assert(toks[at].lexeme.kind() == TokenKind::VersionDirective || toks[at].lexeme.kind()
            == TokenKind::TagDirective);
        lemma_after_directives(toks, at + 1, a);
    }
}

/// How far the parser is from a step that uses a token, by its state and the
/// kind of the token that it has looked at.
pub open spec fn rank_of(state: State, kind: Option<TokenKind>) -> int {
    match state {
        State::ImplicitDocumentStart | State::DocumentContent => 3,
        State::BlockNode | State::DocumentEnd => 2,
        State::DocumentStart => 1,
        State::BlockMappingKey => if kind is Some && kind->0 != TokenKind::Value {
            0
        } else {
            1
        },
        State::BlockMappingValue => if kind == Some(TokenKind::Value) {
            0
        } else {
            1
        },
        State::IndentlessSequenceEntry => if kind == Some(TokenKind::BlockEntry) {
            0
        } else {
            2
        },
        _ => 0,
    }
}

/// A bound on the steps that the tokens `toks` from `at` on allow.
pub open spec fn weight_of(state: State, toks: Seq<Lex>, at: int) -> int {
    4 * (toks.len() - at) + rank_of(
        state,
        if 0 <= at < toks.len() {
            Some(toks[at].lexeme.kind())
        } else {
            None
        },
    )
}

/// Each step brings the parser nearer to the end of the tokens.
pub proof fn lemma_step_weight(state: State, states: Seq<State>, toks: Seq<Lex>, at: int)
    requires
        stack_ok(state, states),
        0 <= at,
        step(state, states, toks, at) is Emit,
    ensures
        ({
            let out = step(state, states, toks, at);
            &&& at <= out->next <= toks.len()
            &&& 0 <= weight_of(out->state, toks, out->next) < weight_of(state, toks, at)
        }),
{
    let out = step(state, states, toks, at);
    if state is DocumentStart {
        lemma_after_document_ends_bounds(toks, at);
        lemma_after_directives_bounds(toks, after_document_ends(toks, at));
    }
    if state is ImplicitDocumentStart {
        lemma_after_directives_bounds(toks, at);
    }
}

/// Reading over the tokens that end a document goes forward, and not past the tokens.
pub proof fn lemma_after_document_ends_bounds(toks: Seq<Lex>, at: int)
    requires
        0 <= at,
    ensures
        at <= after_document_ends(toks, at),
        at <= toks.len() ==> after_document_ends(toks, at) <= toks.len(),
    decreases toks.len() - at,
{
    if 0 <= at < toks.len() && toks[at].lexeme.kind() == TokenKind::DocumentEnd {
        lemma_after_document_ends_bounds(toks, at + 1);
    }
}

/// Reading over directives goes forward, and not past the tokens.
pub proof fn lemma_after_directives_bounds(toks: Seq<Lex>, at: int)
    requires
        0 <= at,
    ensures
        at <= after_directives(toks, at),
        at <= toks.len() ==> after_directives(toks, at) <= toks.len(),
    decreases toks.len() - at,
{
    if 0 <= at < toks.len() && (toks[at].lexeme.kind() == TokenKind::VersionDirective
        || toks[at].lexeme.kind() == TokenKind::TagDirective) {
        lemma_after_directives_bounds(toks, at + 1);
    }
}

/// `short` is the beginning of `long`.
pub open spec fn begins(short: Seq<Lex>, long: Seq<Lex>) -> bool {
    &&& short.len() <= long.len()
    &&& forall|i: int| 0 <= i < short.len() ==> #[trigger] long[i] == short[i]
}

/// Where the tokens that end a document stop before the end of `short`,
/// they stop at the same place with more tokens after `short`.
pub proof fn lemma_after_document_ends_extends(short: Seq<Lex>, long: Seq<Lex>, at: int)
    requires
        begins(short, long),
        0 <= at,
        after_document_ends(short, at) < short.len(),
    ensures
        after_document_ends(long, at) == after_document_ends(short, at),
    decreases short.len() - at,
{
    if 0 <= at < short.len() && short[at].lexeme.kind() == TokenKind::DocumentEnd {
        assert(long[at] == short[at]);
        lemma_after_document_ends_extends(short, long, at + 1);
    } else if at < short.len() {
        assert(long[at] == short[at]);
    }
}

/// Where the directives stop before the end of `short`, they stop at the
/// same place with more tokens after `short`.
pub proof fn lemma_after_directives_extends(short: Seq<Lex>, long: Seq<Lex>, at: int)
    requires
        begins(short, long),
        0 <= at,
        after_directives(short, at) < short.len(),
    ensures
        after_directives(long, at) == after_directives(short, at),
    decreases short.len() - at,
{
    if 0 <= at < short.len() && (short[at].lexeme.kind() == TokenKind::VersionDirective
        || short[at].lexeme.kind() == TokenKind::TagDirective) {
        assert(long[at] == short[at]);
        lemma_after_directives_extends(short, long, at + 1);
    } else if at < short.len() {
        assert(long[at] == short[at]);
    }
}

/// A step that the tokens `short` decide comes to the same with more tokens after them.
pub proof fn lemma_step_extends(
    state: State,
    states: Seq<State>,
    short: Seq<Lex>,
    long: Seq<Lex>,
    at: int,
)
    requires
        begins(short, long),
        0 <= at,
        !(step(state, states, short, at) is Starve),
    ensures
        step(state, states, long, at) == step(state, states, short, at),
{
    lemma_after_document_ends_bounds(short, at);
    lemma_after_directives_bounds(short, at);
    let a = after_document_ends(short, at);
    lemma_after_directives_bounds(short, a);
    if state is DocumentStart {
        if a < short.len() {
            lemma_after_document_ends_extends(short, long, at);
            assert(long[a] == short[a]);
            if after_directives(short, a) < short.len() {
                lemma_after_directives_extends(short, long, a);
                assert(long[after_directives(short, a)] == short[after_directives(short, a)]);
            }
        }
    } else if state is ImplicitDocumentStart {
        if at < short.len() {
            assert(long[at] == short[at]);
            if after_directives(short, at) < short.len() {
                lemma_after_directives_extends(short, long, at);
                assert(long[after_directives(short, at)] == short[after_directives(short, at)]);
            }
        }
    } else {
        if at < short.len() {
            assert(long[at] == short[at]);
        }
        if at + 1 < short.len() {
            assert(long[at + 1] == short[at + 1]);
        }
        if at + 2 < short.len() {
            assert(long[at + 2] == short[at + 2]);
        }
    }
}

/// What driving a receiver with the events of the parser comes to.
pub enum Ran {
    /// The receiver has accepted the events `log`, and the drive has ended:
    /// well, or with an error of the parser or of the receiver.
    Done { log: Seq<EventView>, result: Result<(), (Marker, Seq<char>)> },
    /// The tokens have ended before the drive.
    Paused { state: State, states: Seq<State>, at: int, log: Seq<EventView> },
}

/// The event ends the drive: the end of the stream does, and the end of a
/// document where one document is asked for.
pub open spec fn is_last(ev: EventView, multi: bool) -> bool {
    ev is StreamEnd || (!multi && ev is DocumentEnd)
}

/// Drives a receiver that has accepted the events `log`: the parser takes
/// step after step over the tokens `toks` from `at` on, and each event goes
/// to the receiver, until an event ends the drive, the parser or the
/// receiver refuses, or the tokens end.
pub open spec fn run<R: MarkedEventReceiver>(
    state: State,
    states: Seq<State>,
    at: int,
    log: Seq<EventView>,
    toks: Seq<Lex>,
    multi: bool,
) -> Ran
    decreases weight_of(state, toks, at),
{
    match step(state, states, toks, at) {
        Outcome::Starve => Ran::Paused { state, states, at, log },
        Outcome::Refuse { mark, info } => Ran::Done { log, result: Err((mark, info)) },
        Outcome::Emit { event, mark, state: after, states: suspended, next } => match R::refusal(
            log,
            event,
            mark,
        ) {
            Some(e) => Ran::Done { log, result: Err(e) },
            None => if is_last(event, multi) {
                Ran::Done { log: log.push(event), result: Ok(()) }
            } else if 0 <= weight_of(after, toks, next) < weight_of(state, toks, at) {
                run::<R>(after, suspended, next, log.push(event), toks, multi)
            } else {
                Ran::Paused { state, states, at, log }
            },
        },
    }
}

/// The drive that goes on where `ran` stopped for want of tokens, now with the tokens `toks`.
pub open spec fn resumed<R: MarkedEventReceiver>(ran: Ran, toks: Seq<Lex>, multi: bool) -> Ran {
    match ran {
        Ran::Done { .. } => ran,
        Ran::Paused { state, states, at, log } => run::<R>(state, states, at, log, toks, multi),
    }
}

/// A drive over some tokens, gone on with more tokens after them, is the
/// drive over all of them.
pub proof fn lemma_run_extends<R: MarkedEventReceiver>(
    state: State,
    states: Seq<State>,
    at: int,
    log: Seq<EventView>,
    short: Seq<Lex>,
    long: Seq<Lex>,
    multi: bool,
)
    requires
        begins(short, long),
        stack_ok(state, states),
        0 <= at,
    ensures
        run::<R>(state, states, at, log, long, multi) == resumed::<R>(
            run::<R>(state, states, at, log, short, multi),
            long,
            multi,
        ),
    decreases weight_of(state, short, at),
{
    let out = step(state, states, short, at);
    if !(out is Starve) {
        lemma_step_extends(state, states, short, long, at);
        if out is Emit {
            lemma_step_weight(state, states, short, at);
            lemma_step_weight(state, states, long, at);
            lemma_step_nested(state, states, short, at);
            if R::refusal(log, out->event, out->Emit_mark) is None && !is_last(out->event, multi) {
                lemma_run_extends::<R>(
                    out->state,
                    out->states,
                    out->next,
                    log.push(out->event),
                    short,
                    long,
                    multi,
                );
            }
        }
    }
}

} // verus!
