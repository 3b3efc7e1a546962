use vstd::prelude::*;
pub use crate::event::{Event, EventReceiver, MarkedEventReceiver};
use crate::event::{advance, idle, permitted, EventView, Nesting};
use crate::machine::{
    block_mapping_key, block_mapping_value, block_sequence_entry, document_content, document_end,
    document_start, explicit_document_start, indentless_sequence_entry, lemma_run_extends,
    lemma_step_nested, lemma_step_weight, begins, is_last, run, Ran, nesting_of, rank_of, node,
    stack_ok, step, under_mapping, stream_start, after_directives, after_document_ends,
    lemma_after_directives, lemma_after_document_ends, Outcome, State,
};
use crate::marker::{Marker, ScanError};
use crate::scanner::{scan_after, terminal, token_at, Scanner};
use crate::lexeme::{lex_of, lexes};
use crate::token::{Token, TokenKind, TokenType};

verus! {

/// Turns the tokens of a text into events, on demand.
pub struct Parser {
    pub scanner: Scanner,
    /// The suspended states: what to go on with once the node in hand is complete.
    pub states: Vec<State>,
    pub state: State,
    /// The token that was looked at and not yet used.
    pub token: Option<Token>,
    /// The event that was looked at and not yet handed out.
    pub current: Option<(Event, Marker)>,
    /// Every token taken from the scanner so far, in order.
    pub fetched: Ghost<Seq<Token>>,
    /// Where the parser stood before the event in `current`.
    pub origin: Ghost<Nesting>,
    /// The events that were handed out so far, in order.
    pub emitted: Ghost<Seq<EventView>>,
    /// The text, with the end-of-input sentinels after it.
    pub text: Ghost<Seq<char>>,
}

/// An event with the position at which it began, or the error that ended the parse.
pub type ParseResult = Result<(Event, Marker), ScanError>;

/// How far the parser is from a step that uses a token, by its state and the
/// kind of the token that it has looked at.
pub open spec fn rank(state: State, token: Option<Token>) -> int {
    rank_of(
        state,
        match token {
            Some(t) => Some(t.1.kind()),
            None => None,
        },
    )
}

impl Parser {
    /// The number of tokens that were used.
    pub open spec fn used(&self) -> int {
        self.fetched@.len() - (if self.token is Some {
            1int
        } else {
            0
        })
    }

    /// The scanner is in order and the token in hand is the last that it gave.
    pub open spec fn sane(&self) -> bool {
        &&& self.scanner.wf()
        &&& self.scanner.error is None
        &&& self.token is Some ==> self.fetched@.len() > 0 && self.fetched@.last() == self.token->0
        &&& self.fetched@.len() > 0 ==> self.scanner.stream_start_produced
        &&& self.scanner.stream_end_produced == (self.fetched@.len() > 0 && self.fetched@.last().1
            is StreamEnd)
        &&& self.scanner.rdr.src@ == self.text@
        &&& self.scanner.state() == scan_after(self.text@, self.fetched@.len())
        &&& forall|i: int|
            0 <= i < self.fetched@.len() ==> token_at(self.text@, i as nat) == Some(
                lex_of(#[trigger] self.fetched@[i]),
            )
    }

    /// The parser is in order: no error has occurred, its states fit together,
    /// and an event that was looked at leads to where the parser stands.
    pub open spec fn wf(&self) -> bool {
        &&& self.sane()
        &&& stack_ok(self.state, self.states@)
        &&& self.state is StreamStart <==> self.fetched@.len() == 0
        &&& self.state is StreamStart <==> !self.scanner.stream_start_produced
        &&& self.state is StreamStart ==> self.current is None
        &&& self.state is End ==> self.scanner.stream_end_produced
        &&& self.current is Some ==> permitted(self.origin@, self.current->Some_0.0@) && nesting_of(
            self.state,
            self.states@,
        ) == advance(self.origin@, self.current->Some_0.0@)
    }

    /// Where in the stream of events the parser stands: before the event
    /// that `next` will give.
    pub open spec fn place(&self) -> Nesting {
        if self.current is Some {
            self.origin@
        } else {
            nesting_of(self.state, self.states@)
        }
    }

    /// A bound on the tokens still to be used, times four.
    pub open spec fn fuel(&self) -> int {
        4 * (self.scanner.budget() + (if self.token is Some {
            1int
        } else {
            0
        }))
    }

    /// A bound on the steps still to come.
    pub open spec fn weight(&self) -> int {
        self.fuel() + rank(self.state, self.token)
    }

    /// A bound on the events still to come.  It falls with every event but
    /// the end of the stream, which comes again and again.
    pub open spec fn measure(&self) -> int {
        self.weight() + (if self.current is Some {
            1int
        } else {
            0
        })
    }

    /// `e` is the error of a scanner that gave no token: its own error, or
    /// the end of the tokens at its position.
    pub open spec fn starved(&self, e: ScanError) -> bool {
        &&& token_at(self.text@, self.fetched@.len()) is None
        &&& (e.mark, e.info@) == terminal(self.text@, self.fetched@.len())
    }

    /// `self` came from `before` by looking at tokens and using them.
    pub open spec fn moved(&self, before: &Parser) -> bool {
        &&& self.scanner.error is None ==> self.sane()
        &&& self.moved_on(before)
        &&& self.text == before.text
        &&& before.fetched@.len() <= self.fetched@.len()
        &&& forall|i: int|
            0 <= i < before.fetched@.len() ==> #[trigger] self.fetched@[i] == before.fetched@[i]
        &&& before.used() <= self.used()
        &&& self.current == before.current
        &&& self.origin == before.origin
        &&& self.emitted == before.emitted
        &&& self.scanner.error is Some ==> self.token is None
    }

    /// `self` came from `before` by going on: the text is the same, and every
    /// token taken is a token of the text.
    pub open spec fn moved_on(&self, before: &Parser) -> bool {
        &&& self.text == before.text
        &&& (forall|i: int|
            0 <= i < before.fetched@.len() ==> token_at(before.text@, i as nat) == Some(
                lex_of(#[trigger] before.fetched@[i]),
            )) ==> (forall|i: int|
            0 <= i < self.fetched@.len() ==> token_at(self.text@, i as nat) == Some(
                lex_of(#[trigger] self.fetched@[i]),
            ))
    }

    /// `self` has the tokens that `before` had, and maybe more after them.
    pub open spec fn grown(&self, before: &Parser) -> bool {
        &&& before.fetched@.len() <= self.fetched@.len()
        &&& forall|i: int|
            0 <= i < before.fetched@.len() ==> #[trigger] self.fetched@[i] == before.fetched@[i]
    }

    /// The result `r` of a step, and the parser after it, are what `out` says.
    pub open spec fn stepped(&self, r: ParseResult, out: Outcome) -> bool {
        match out {
            Outcome::Emit { event, mark, state, states, next } => r is Ok && r->Ok_0.0@ == event
                && r->Ok_0.1 == mark && self.state == state && self.states@ == states
                && self.used() == next && self.scanner.error is None,
            Outcome::Refuse { mark, info } => r is Err && r->Err_0.mark == mark && r->Err_0.info@
                == info,
            Outcome::Starve => r is Err && self.starved(r->Err_0) && self.token is None,
        }
    }

    /// A parser at the start of `source`.
    pub fn new(source: &str) -> (p: Parser)
        ensures
            p.wf(),
            p.state is StreamStart,
            p.current is None,
            p.place() == idle(),
            p.scanner.rdr.text() == source@,
            p.text@ == crate::reader::padded(source@),
            p.fetched@.len() == 0,
            p.emitted@.len() == 0,
            p.states@ == Seq::<State>::empty(),
            p.token is None,
            !p.scanner.stream_end_produced,
    {
        reveal(scan_after);
        let p = Parser {
            scanner: Scanner::new(source),
            states: Vec::new(),
            state: State::StreamStart,
            token: None,
            current: None,
            fetched: Ghost(Seq::empty()),
            origin: Ghost(idle()),
            emitted: Ghost(Seq::empty()),
            text: Ghost(crate::reader::padded(source@)),
        };
        assert(p.states@ =~= Seq::<State>::empty());
        p
    }

    /// The next token of the scanner, or the error that stands for none.
    fn scan_next_token(&mut self) -> (r: Result<Token, ScanError>)
        requires
            old(self).sane(),
            old(self).token is None,
        ensures
            final(self).scanner.wf(),
            final(self).states == old(self).states,
            final(self).state == old(self).state,
            final(self).token == old(self).token,
            final(self).current == old(self).current,
            final(self).fetched == old(self).fetched,
            final(self).origin == old(self).origin,
            final(self).emitted == old(self).emitted,
            final(self).text == old(self).text,
            r is Ok ==> final(self).scanner.budget() < old(self).scanner.budget()
                && final(self).scanner.error is None
                && final(self).scanner.stream_start_produced
                && final(self).scanner.rdr.src@ == final(self).text@,
            r is Ok ==> token_at(final(self).text@, final(self).fetched@.len()) == Some(
                lex_of(r->Ok_0),
            ) && final(self).scanner.state() == scan_after(
                final(self).text@,
                final(self).fetched@.len() + 1,
            ),
            r is Ok && !old(self).scanner.stream_start_produced ==> r->Ok_0.1 is StreamStart,
            r is Ok ==> final(self).scanner.stream_end_produced == (r->Ok_0.1 is StreamEnd),
            r is Err ==> final(self).starved(r->Err_0),
            r is Err && final(self).scanner.error is None ==> *final(self) == *old(self),
    {
        reveal(scan_after);
        reveal(token_at);
        reveal(terminal);
        let token = self.scanner.next();
        match token {
            None => match self.scanner.get_error() {
                None => Err(ScanError::new(self.scanner.mark(), "unexpected eof")),
                Some(e) => Err(e),
            },
            Some(tok) => Ok(tok),
        }
    }

    /// Looks at the next token, taking it from the scanner if none is in hand.
    fn peek_token(&mut self) -> (r: Result<(Marker, TokenKind), ScanError>)
        requires
            old(self).sane(),
        ensures
            final(self).moved(old(self)),
            final(self).states == old(self).states,
            final(self).state == old(self).state,
            final(self).used() == old(self).used(),
            old(self).token is Some ==> *final(self) == *old(self),
            r is Ok ==> final(self).token is Some && r->Ok_0.0 == final(self).token->Some_0.0
                && r->Ok_0.1 == final(self).token->Some_0.1.kind()
                    && final(self).fetched@[old(self).used()] == final(self).token->0,
            r is Ok ==> final(self).fuel() <= old(self).fuel(),
            r is Ok && old(self).token is None && !old(self).scanner.stream_start_produced
                ==> r->Ok_0.1 == TokenKind::StreamStart,
            r is Ok ==> final(self).sane(),
            r is Err ==> final(self).starved(r->Err_0)
                && final(self).token is None
                && final(self).fetched == old(self).fetched,
    {
        if self.token.is_none() {
            let tok = self.scan_next_token()?;
            proof {
                self.fetched@ = self.fetched@.push(tok);
            }
            self.token = Some(tok);
        }
        match &self.token {
            Some(tok) => Ok((tok.0, tok.1.kind())),
            None => vstd::pervasive::unreached(),
        }
    }

    /// Takes the token in hand.
    fn fetch_token(&mut self) -> (t: Token)
        requires
            old(self).sane(),
            old(self).token is Some,
        ensures
            t == old(self).token->0,
            *final(self) == (Parser { token: None, ..*old(self) }),
            final(self).moved(old(self)),
            final(self).sane(),
            final(self).used() == old(self).used() + 1,
            final(self).fuel() == old(self).fuel() - 4,
    {
        self.token.take().unwrap()
    }

    /// Uses the token in hand.
    fn skip(&mut self)
        requires
            old(self).sane(),
            old(self).token is Some,
        ensures
            *final(self) == (Parser { token: None, ..*old(self) }),
            final(self).moved(old(self)),
            final(self).sane(),
            final(self).used() == old(self).used() + 1,
            final(self).fuel() == old(self).fuel() - 4,
    {
        self.token = None;
    }

    /// Goes on with the innermost suspended state.
    fn pop_state(&mut self)
        requires
            old(self).states@.len() > 0,
        ensures
            *final(self) == (Parser {
                state: old(self).states@.last(),
                states: final(self).states,
                ..*old(self)
            }),
            final(self).states@ == old(self).states@.drop_last(),
    {
        self.state = self.states.pop().unwrap()
    }

    /// Suspends `state`.
    fn push_state(&mut self, state: State)
        ensures
            *final(self) == (Parser { states: final(self).states, ..*old(self) }),
            final(self).states@ == old(self).states@.push(state),
    {
        self.states.push(state);
    }

    /// The start of a node.
    fn parse_node(&mut self, block: bool, indentless_sequence: bool) -> (r: ParseResult)
        requires
            old(self).sane(),
            old(self).states@.len() > 0,
        ensures
            final(self).moved(old(self)),
            final(self).stepped(
                r,
                node(
                    block,
                    indentless_sequence,
                    old(self).states@,
                    lexes(final(self).fetched@),
                    old(self).used(),
                ),
            ),
            r is Ok ==> final(self).weight() <= old(self).fuel(),
    {
        let anchor_id: usize = 0;
        let (mark, kind) = self.peek_token()?;
        match kind {
            TokenKind::BlockEntry => {
                if indentless_sequence {
                    self.state = State::IndentlessSequenceEntry;
                    Ok((Event::SequenceStart(anchor_id), mark))
                } else {
                    Err(
                        ScanError::new(
                            mark,
                            "while parsing a node, did not find expected node content",
                        ),
                    )
                }
            },
            TokenKind::Scalar => {
                self.pop_state();
                match self.fetch_token() {
                    Token(mark, TokenType::Scalar(style, v)) => Ok(
                        (Event::Scalar(v, style, anchor_id), mark),
                    ),
                    _ => vstd::pervasive::unreached(),
                }
            },
            TokenKind::BlockSequenceStart => {
                if block {
                    self.state = State::BlockSequenceFirstEntry;
                    Ok((Event::SequenceStart(anchor_id), mark))
                } else {
                    Err(
                        ScanError::new(
                            mark,
                            "while parsing a node, did not find expected node content",
                        ),
                    )
                }
            },
            TokenKind::BlockMappingStart => {
                if block {
                    self.state = State::BlockMappingFirstKey;
                    Ok((Event::MappingStart(anchor_id), mark))
                } else {
                    Err(
                        ScanError::new(
                            mark,
                            "while parsing a node, did not find expected node content",
                        ),
                    )
                }
            },
            _ => Err(
                ScanError::new(mark, "while parsing a node, did not find expected node content"),
            ),
        }
    }

    fn stream_start(&mut self) -> (r: ParseResult)
        requires
            old(self).sane(),
            old(self).state is StreamStart,
        ensures
            old(self).state is StreamStart && r is Ok ==> final(self).token is None,
            final(self).moved(old(self)),
            final(self).stepped(
                r,
                stream_start(old(self).states@, lexes(final(self).fetched@), old(self).used()),
            ),
            r is Ok ==> final(self).weight() < old(self).weight(),
    {
        let (mark, kind) = self.peek_token()?;
        match kind {
            TokenKind::StreamStart => {
                self.state = State::ImplicitDocumentStart;
                self.skip();
                Ok((Event::StreamStart, mark))
            },
            _ => Err(ScanError::new(mark, "did not find expected <stream-start>")),
        }
    }

    /// Reads over directives: they are taken as written and change nothing.
    fn parser_process_directives(&mut self) -> (r: Result<(), ScanError>)
        requires
            old(self).sane(),
        ensures
            final(self).moved(old(self)),
            final(self).states == old(self).states,
            final(self).state == old(self).state,
            r is Ok ==> final(self).token is Some && final(self).used() == after_directives(
                lexes(final(self).fetched@),
                old(self).used(),
            ) && final(self).fuel() <= old(self).fuel(),
            r is Err ==> final(self).starved(r->Err_0) && final(self).token is None
                && after_directives(lexes(final(self).fetched@), old(self).used())
                == final(self).fetched@.len(),
    {
        let ghost start = self.used();
        loop
            invariant
                self.moved(old(self)),
                self.sane(),
                self.states == old(self).states,
                self.state == old(self).state,
                start == old(self).used(),
                0 <= start <= self.used(),
                self.fuel() <= old(self).fuel(),
                forall|i: int|
                    start <= i < self.used() ==> (#[trigger] self.fetched@[i]).1.kind()
                        == TokenKind::VersionDirective || self.fetched@[i].1.kind()
                        == TokenKind::TagDirective,
            ensures
                self.token is Some,
                self.token->Some_0.1.kind() != TokenKind::VersionDirective,
                self.token->Some_0.1.kind() != TokenKind::TagDirective,
            decreases self.fuel(),
        {
            let peeked = self.peek_token();
            match peeked {
                Err(e) => {
                    proof {
                        lemma_after_directives(lexes(self.fetched@), start, self.used());
                    }
                    return Err(e);
                },
                Ok((_, kind)) => {
                    match kind {
                        TokenKind::VersionDirective | TokenKind::TagDirective => {},
                        _ => {
                            break ;
                        },
                    }
                },
            }
            self.skip();
        }
        proof {
            lemma_after_directives(lexes(self.fetched@), start, self.used());
        }
        Ok(())
    }

    fn _explict_document_start(&mut self) -> (r: ParseResult)
        requires
            old(self).sane(),
        ensures
            final(self).moved(old(self)),
            final(self).stepped(
                r,
                explicit_document_start(
                    old(self).states@,
                    lexes(final(self).fetched@),
                    old(self).used(),
                ),
            ),
            r is Ok ==> final(self).fuel() < old(self).fuel() && final(self).token is None,
    {
        self.parser_process_directives()?;
        let (mark, kind) = self.peek_token()?;
        match kind {
            TokenKind::DocumentStart => {
                self.push_state(State::DocumentEnd);
                self.state = State::DocumentContent;
                self.skip();
                Ok((Event::DocumentStart, mark))
            },
            _ => Err(ScanError::new(mark, "did not find expected <document start>")),
        }
    }

    fn document_start(&mut self, implicit: bool) -> (r: ParseResult)
        requires
            old(self).sane(),
            old(self).state == (if implicit {
                State::ImplicitDocumentStart
            } else {
                State::DocumentStart
            }),
        ensures
            r is Ok && final(self).state is End ==> final(self).scanner.stream_end_produced,
            final(self).moved(old(self)),
            final(self).stepped(
                r,
                document_start(
                    implicit,
                    old(self).states@,
                    lexes(final(self).fetched@),
                    old(self).used(),
                ),
            ),
            r is Ok ==> final(self).weight() < old(self).weight(),
    {
        let ghost start = self.used();
        if !implicit {
            loop
                invariant
                    self.moved(old(self)),
                    self.sane(),
                    self.states == old(self).states,
                    self.state == old(self).state,
                    !implicit,
                    start == old(self).used(),
                    0 <= start <= self.used(),
                    self.fuel() <= old(self).fuel(),
                    forall|i: int|
                        start <= i < self.used() ==> (#[trigger] self.fetched@[i]).1.kind()
                            == TokenKind::DocumentEnd,
                ensures
                    self.token is Some,
                    self.token->Some_0.1.kind() != TokenKind::DocumentEnd,
                decreases self.fuel(),
            {
                let peeked = self.peek_token();
                match peeked {
                    Err(e) => {
                        proof {
                            lemma_after_document_ends(lexes(self.fetched@), start, self.used());
                        }
                        return Err(e);
                    },
                    Ok((_, kind)) => {
                        match kind {
                            TokenKind::DocumentEnd => {},
                            _ => {
                                break ;
                            },
                        }
                    },
                }
                self.skip();
            }
        }
        let ghost a = self.used();
        let (mark, kind) = self.peek_token()?;
        proof {
            if !implicit {
                lemma_after_document_ends(lexes(self.fetched@), start, a);
            }
        }
        let r = match kind {
            TokenKind::StreamEnd => {
                self.state = State::End;
                self.skip();
                Ok((Event::StreamEnd, mark))
            },
            TokenKind::VersionDirective | TokenKind::TagDirective | TokenKind::DocumentStart => {
                self._explict_document_start()
            },
            _ => {
                if implicit {
                    self.parser_process_directives()?;
                    self.push_state(State::DocumentEnd);
                    self.state = State::BlockNode;
                    Ok((Event::DocumentStart, mark))
                } else {
                    self._explict_document_start()
                }
            },
        };
        proof {
            if !implicit {
                lemma_after_document_ends(lexes(self.fetched@), start, a);
            }
        }
        r
    }

    fn document_content(&mut self) -> (r: ParseResult)
        requires
            old(self).sane(),
            old(self).state is DocumentContent,
            old(self).states@.len() > 0,
            old(self).states@.last() is DocumentEnd,
        ensures
            final(self).moved(old(self)),
            final(self).stepped(
                r,
                document_content(old(self).states@, lexes(final(self).fetched@), old(self).used()),
            ),
            r is Ok ==> final(self).weight() < old(self).weight(),
    {
        let (mark, kind) = self.peek_token()?;
        match kind {
            TokenKind::VersionDirective
            | TokenKind::TagDirective
            | TokenKind::DocumentStart
            | TokenKind::DocumentEnd
            | TokenKind::StreamEnd => {
                self.pop_state();
                Ok((Event::empty_scalar(), mark))
            },
            _ => self.parse_node(true, false),
        }
    }

    fn document_end(&mut self) -> (r: ParseResult)
        requires
            old(self).sane(),
            old(self).state is DocumentEnd,
        ensures
            final(self).moved(old(self)),
            final(self).stepped(
                r,
                document_end(old(self).states@, lexes(final(self).fetched@), old(self).used()),
            ),
            r is Ok ==> final(self).weight() < old(self).weight(),
    {
        let (mark, kind) = self.peek_token()?;
        match kind {
            TokenKind::DocumentEnd => {
                self.skip();
            },
            _ => {},
        }
        self.state = State::DocumentStart;
        Ok((Event::DocumentEnd, mark))
    }

    fn block_mapping_key(&mut self, first: bool) -> (r: ParseResult)
        requires
            old(self).sane(),
            old(self).state == (if first {
                State::BlockMappingFirstKey
            } else {
                State::BlockMappingKey
            }),
            old(self).states@.len() > 0,
        ensures
            final(self).moved(old(self)),
            final(self).stepped(
                r,
                block_mapping_key(
                    first,
                    old(self).states@,
                    lexes(final(self).fetched@),
                    old(self).used(),
                ),
            ),
            r is Ok ==> final(self).weight() < old(self).weight(),
    {
        // the start of the mapping
        if first {
            let _ = self.peek_token()?;
            self.skip();
        }
        let (mark, kind) = self.peek_token()?;
        match kind {
            TokenKind::Key => {
                self.skip();
                let (mark, kind) = self.peek_token()?;
                match kind {
                    TokenKind::Key | TokenKind::Value | TokenKind::BlockEnd => {
                        self.state = State::BlockMappingValue;
                        Ok((Event::empty_scalar(), mark))
                    },
                    _ => {
                        self.push_state(State::BlockMappingValue);
                        self.parse_node(true, true)
                    },
                }
            },
            TokenKind::Value => {
                self.state = State::BlockMappingValue;
                Ok((Event::empty_scalar(), mark))
            },
            TokenKind::BlockEnd => {
                self.pop_state();
                self.skip();
                Ok((Event::MappingEnd, mark))
            },
            _ => Err(
                ScanError::new(mark, "while parsing a block mapping, did not find expected key"),
            ),
        }
    }

    fn block_mapping_value(&mut self) -> (r: ParseResult)
        requires
            old(self).sane(),
            old(self).state is BlockMappingValue,
            old(self).states@.len() > 0,
        ensures
            final(self).moved(old(self)),
            final(self).stepped(
                r,
                block_mapping_value(
                    old(self).states@,
                    lexes(final(self).fetched@),
                    old(self).used(),
                ),
            ),
            r is Ok ==> final(self).weight() < old(self).weight(),
    {
        let (mark, kind) = self.peek_token()?;
        match kind {
            TokenKind::Value => {
                self.skip();
                let (mark, kind) = self.peek_token()?;
                match kind {
                    TokenKind::Key | TokenKind::Value | TokenKind::BlockEnd => {
                        self.state = State::BlockMappingKey;
                        Ok((Event::empty_scalar(), mark))
                    },
                    _ => {
                        self.push_state(State::BlockMappingKey);
                        self.parse_node(true, true)
                    },
                }
            },
            _ => {
                self.state = State::BlockMappingKey;
                Ok((Event::empty_scalar(), mark))
            },
        }
    }

    fn indentless_sequence_entry(&mut self) -> (r: ParseResult)
        requires
            old(self).sane(),
            old(self).state is IndentlessSequenceEntry,
            old(self).states@.len() > 0,
            old(self).states@.last() is BlockMappingKey || old(self).states@.last()
                is BlockMappingValue,
        ensures
            final(self).moved(old(self)),
            final(self).stepped(
                r,
                indentless_sequence_entry(
                    old(self).states@,
                    lexes(final(self).fetched@),
                    old(self).used(),
                ),
            ),
            r is Ok ==> final(self).weight() < old(self).weight(),
    {
        let (mark, kind) = self.peek_token()?;
        match kind {
            TokenKind::BlockEntry => {},
            _ => {
                self.pop_state();
                return Ok((Event::SequenceEnd, mark));
            },
        }
        self.skip();
        let (mark, kind) = self.peek_token()?;
        match kind {
            TokenKind::BlockEntry | TokenKind::Key | TokenKind::Value | TokenKind::BlockEnd => {
                self.state = State::IndentlessSequenceEntry;
                Ok((Event::empty_scalar(), mark))
            },
            _ => {
                self.push_state(State::IndentlessSequenceEntry);
                self.parse_node(true, false)
            },
        }
    }

    fn block_sequence_entry(&mut self, first: bool) -> (r: ParseResult)
        requires
            old(self).sane(),
            old(self).state == (if first {
                State::BlockSequenceFirstEntry
            } else {
                State::BlockSequenceEntry
            }),
            old(self).states@.len() > 0,
        ensures
            final(self).moved(old(self)),
            final(self).stepped(
                r,
                block_sequence_entry(
                    first,
                    old(self).states@,
                    lexes(final(self).fetched@),
                    old(self).used(),
                ),
            ),
            r is Ok ==> final(self).weight() < old(self).weight(),
    {
        // the start of the sequence
        if first {
            let _ = self.peek_token()?;
            self.skip();
        }
        let (mark, kind) = self.peek_token()?;
        match kind {
            TokenKind::BlockEnd => {
                self.pop_state();
                self.skip();
                Ok((Event::SequenceEnd, mark))
            },
            TokenKind::BlockEntry => {
                self.skip();
                let (mark, kind) = self.peek_token()?;
                match kind {
                    TokenKind::BlockEntry | TokenKind::BlockEnd => {
                        self.state = State::BlockSequenceEntry;
                        Ok((Event::empty_scalar(), mark))
                    },
                    _ => {
                        self.push_state(State::BlockSequenceEntry);
                        self.parse_node(true, false)
                    },
                }
            },
            _ => Err(
                ScanError::new(
                    mark,
                    "while parsing a block collection, did not find expected '-' indicator",
                ),
            ),
        }
    }

    /// One step: by the state, to the event that comes next.
    fn state_machine(&mut self) -> (r: ParseResult)
        requires
            old(self).wf(),
            !(old(self).state is End),
        ensures
            r is Ok && final(self).state is End ==> final(self).scanner.stream_end_produced,
            old(self).state is StreamStart && r is Ok ==> final(self).token is None,
            final(self).moved(old(self)),
            final(self).stepped(
                r,
                step(
                    old(self).state,
                    old(self).states@,
                    lexes(final(self).fetched@),
                    old(self).used(),
                ),
            ),
            r is Ok ==> final(self).weight() < old(self).weight(),
    {
        match self.state {
            State::StreamStart => self.stream_start(),
            State::ImplicitDocumentStart => self.document_start(true),
            State::DocumentStart => self.document_start(false),
            State::DocumentContent => self.document_content(),
            State::DocumentEnd => self.document_end(),
            State::BlockNode => {
                let r = self.parse_node(true, false);
                r
            },
            State::BlockMappingFirstKey => self.block_mapping_key(true),
            State::BlockMappingKey => self.block_mapping_key(false),
            State::BlockMappingValue => self.block_mapping_value(),
            State::BlockSequenceFirstEntry => self.block_sequence_entry(true),
            State::BlockSequenceEntry => self.block_sequence_entry(false),
            State::IndentlessSequenceEntry => self.indentless_sequence_entry(),
            // at the end no step is taken
            State::End => vstd::pervasive::unreached(),
        }
    }

    /// The next event from the tokens.  At the end of the stream, the end of
    /// the stream again.
    fn parse(&mut self) -> (r: ParseResult)
        requires
            old(self).wf(),
            old(self).current is None,
        ensures
            old(self).state is StreamStart && r is Ok ==> final(self).token is None,
            old(self).state is End ==> r is Ok && r->Ok_0.0@ == EventView::StreamEnd && r->Ok_0.1
                == old(self).scanner.rdr.mark && *final(self) == *old(self),
            !(old(self).state is End) ==> final(self).moved(old(self)) && final(self).stepped(
                r,
                step(
                    old(self).state,
                    old(self).states@,
                    lexes(final(self).fetched@),
                    old(self).used(),
                ),
            ),
            r is Ok ==> final(self).wf() && final(self).current is None && permitted(
                old(self).place(),
                r->Ok_0.0@,
            ) && final(self).place() == advance(old(self).place(), r->Ok_0.0@),
            r is Ok && !(old(self).state is End) ==> final(self).weight() < old(self).weight(),
    {
        if self.state == State::End {
            return Ok((Event::StreamEnd, self.scanner.mark()));
        }
        let r = self.state_machine();
        proof {
            if r is Ok {
                lemma_step_nested(
                    old(self).state,
                    old(self).states@,
                    lexes(self.fetched@),
                    old(self).used(),
                );
            }
        }
        r
    }

    /// Looks at the next event without taking it: the `next` after it gives
    /// the same event.  An event that was looked at before is given again;
    /// otherwise the parser takes one step, as `next` does, and keeps its event.
    pub fn peek(&mut self) -> (r: Result<&(Event, Marker), ScanError>)
        requires
            old(self).wf(),
        ensures
            old(self).current is Some ==> r is Ok && *final(self) == *old(self),
            old(self).current is None && old(self).state is End ==> r is Ok && r->Ok_0.0@
                == EventView::StreamEnd && r->Ok_0.1 == old(self).scanner.rdr.mark,
            old(self).current is None && !(old(self).state is End) ==> final(self).stepped(
                match r {
                    Ok(x) => Ok(*x),
                    Err(e) => Err(e),
                },
                step(
                    old(self).state,
                    old(self).states@,
                    lexes(final(self).fetched@),
                    old(self).used(),
                ),
            ),
            r is Ok ==> final(self).wf()
                && final(self).current == Some(*r->Ok_0)
                && final(self).place() == old(self).place(),
            r is Ok && !(old(self).state is End) ==> final(self).measure() <= old(self).measure(),
            final(self).moved_on(old(self)),
    {
        if self.current.is_none() {
            let ghost place = self.place();
            let ev = self.parse()?;
            proof {
                self.origin@ = place;
            }
            self.current = Some(ev);
        }
        Ok(self.current.as_ref().unwrap())
    }

    /// The next event.  An event that `peek` has looked at is handed out as
    /// it is; otherwise the parser takes one step, which is `step` of its
    /// state, its suspended states and the tokens that the scanner gives.
    /// The events come well nested.
    pub fn next(&mut self) -> (r: ParseResult)
        requires
            old(self).wf(),
        ensures
            old(self).state is StreamStart && r is Ok ==> final(self).token is None,
            old(self).current is Some ==> r == Ok::<(Event, Marker), ScanError>(
                old(self).current->Some_0,
            ) && *final(self) == (Parser {
                current: None,
                emitted: final(self).emitted,
                ..*old(self)
            }),
            old(self).current is None && old(self).state is End ==> r is Ok && r->Ok_0.0@
                == EventView::StreamEnd && r->Ok_0.1 == old(self).scanner.rdr.mark && *final(self)
                == (Parser { emitted: final(self).emitted, ..*old(self) }),
            old(self).current is None && !(old(self).state is End) ==> final(self).stepped(
                r,
                step(
                    old(self).state,
                    old(self).states@,
                    lexes(final(self).fetched@),
                    old(self).used(),
                ),
            ),
            final(self).moved_on(old(self)),
            final(self).grown(old(self)),
            r is Ok ==> final(self).wf() && final(self).current is None && permitted(
                old(self).place(),
                r->Ok_0.0@,
            ) && final(self).place() == advance(old(self).place(), r->Ok_0.0@),
            r is Ok ==> final(self).emitted@ == old(self).emitted@.push(r->Ok_0.0@),
            r is Ok
                && !(old(self).current is None && old(self).state is End) ==>
                    final(self).measure() < old(self).measure(),
            r is Ok ==> !(final(self).state is StreamStart),
    {
        let r = match self.current {
            None => self.parse(),
            Some(_) => Ok(self.current.take().unwrap()),
        };
        proof {
            if r is Ok {
                self.emitted@ = self.emitted@.push(r->Ok_0.0@);
            }
        }
        r
    }

    /// `recv` has received what `self` has handed out since it had handed
    /// out `from` events, after the events `base`.
    pub open spec fn in_step<R: MarkedEventReceiver>(
        &self,
        recv: &R,
        base: Seq<EventView>,
        from: int,
    )
        -> bool {
        &&& 0 <= from <= self.emitted@.len()
        &&& recv.log() == base + self.emitted@.skip(from)
    }

    /// The drive from `start` over the tokens that `self` has taken from the scanner.
    pub open spec fn drive<R: MarkedEventReceiver>(&self, start: Start, multi: bool) -> Ran {
        run::<R>(start.state, start.states, start.at, start.log, lexes(self.fetched@), multi)
    }

    /// The drive from `start` has come to where `self` and `recv` are.
    pub open spec fn tracks<R: MarkedEventReceiver>(&self, recv: &R, start: Start, multi: bool)
        -> bool {
        &&& stack_ok(start.state, start.states)
        &&& 0 <= start.at
        &&& start.followed ==> !(self.state is End) && self.drive::<R>(start, multi) == run::<R>(
            self.state,
            self.states@,
            self.used(),
            recv.log(),
            lexes(self.fetched@),
            multi,
        )
    }

    /// The drive from `start` has come to the event `ev`, which `recv` has not yet received.
    pub open spec fn pending<R: MarkedEventReceiver>(
        &self,
        recv: &R,
        start: Start,
        multi: bool,
        ev: EventView,
        mark: Marker,
    ) -> bool {
        &&& stack_ok(start.state, start.states)
        &&& 0 <= start.at
        &&& start.followed ==> (ev is StreamEnd || !(self.state is End)) && self.drive::<R>(
            start,
            multi,
        ) == (match R::refusal(recv.log(), ev, mark) {
            Some(e) => Ran::Done { log: recv.log(), result: Err(e) },
            None => if is_last(ev, multi) {
                Ran::Done { log: recv.log().push(ev), result: Ok(()) }
            } else {
                run::<R>(
                    self.state,
                    self.states@,
                    self.used(),
                    recv.log().push(ev),
                    lexes(self.fetched@),
                    multi,
                )
            },
        })
    }

    /// The drive from `start` has ended with the error `e`.
    pub open spec fn failed<R: MarkedEventReceiver>(&self, start: Start, multi: bool, e: ScanError)
        -> bool {
        start.followed ==> match self.drive::<R>(start, multi) {
            Ran::Done { log, result } => result == Err::<(), (Marker, Seq<char>)>(
                (e.mark, e.info@),
            ),
            Ran::Paused { .. } => self.starved(e),
        }
    }

    /// The drive from `start` has ended well, with `recv` as it is.
    pub open spec fn finished<R: MarkedEventReceiver>(&self, recv: &R, start: Start, multi: bool)
        -> bool {
        start.followed ==> self.drive::<R>(start, multi) == (Ran::Done {
            log: recv.log(),
            result: Ok(()),
        })
    }

    /// The next event, for a receiver that has received all events before it.
    fn next_event<R: MarkedEventReceiver>(
        &mut self,
        recv: &R,
        Ghost(start): Ghost<Start>,
        Ghost(multi): Ghost<bool>,
    ) -> (r: ParseResult)
        requires
            old(self).wf(),
            start.followed ==> old(self).current is None,
            old(self).tracks(recv, start, multi),
        ensures
            old(self).state is StreamStart && r is Ok ==> final(self).token is None,
            r is Ok ==> final(self).wf() && final(self).current is None && permitted(
                old(self).place(),
                r->Ok_0.0@,
            ) && final(self).place() == advance(old(self).place(), r->Ok_0.0@),
            r is Ok ==> final(self).emitted@ == old(self).emitted@.push(r->Ok_0.0@),
            r is Ok
                && !(old(self).current is None && old(self).state is End) ==>
                    final(self).measure() < old(self).measure(),
            r is Ok ==> !(final(self).state is StreamStart),
            r is Ok ==> final(self).pending(recv, start, multi, r->Ok_0.0@, r->Ok_0.1),
            r is Err ==> final(self).failed::<R>(start, multi, r->Err_0),
            final(self).moved_on(old(self)),
            old(self).current is Some ==> r == Ok::<(Event, Marker), ScanError>(
                old(self).current->Some_0,
            ),
            old(self).current is None && old(self).state is End ==> r is Ok && r->Ok_0.0@
                == EventView::StreamEnd,
            old(self).current is None && !(old(self).state is End) ==> final(self).stepped(
                r,
                step(
                    old(self).state,
                    old(self).states@,
                    lexes(final(self).fetched@),
                    old(self).used(),
                ),
            ),
    {
        let ghost before = lexes(self.fetched@);
        let r = self.next();
        proof {
            if start.followed {
                let after = lexes(self.fetched@);
                assert(begins(before, after)) by {
                    assert forall|i: int| 0 <= i < before.len() implies #[trigger] after[i]
                        == before[i] by {
                        assert(self.fetched@[i] == old(self).fetched@[i]);
                    }
                }
                lemma_run_extends::<R>(
                    start.state,
                    start.states,
                    start.at,
                    start.log,
                    before,
                    after,
                    multi,
                );
                lemma_run_extends::<R>(
                    old(self).state,
                    old(self).states@,
                    old(self).used(),
                    recv.log(),
                    before,
                    after,
                    multi,
                );
                if r is Ok {
                    lemma_step_weight(old(self).state, old(self).states@, after, old(self).used());
                }
            }
        }
        r
    }

    /// Hands the event `ev` to `recv`.
    fn hand_over<R: MarkedEventReceiver>(
        &self,
        recv: &mut R,
        ev: Event,
        mark: Marker,
        Ghost(start): Ghost<Start>,
        Ghost(multi): Ghost<bool>,
    ) -> (r: Result<(), ScanError>)
        requires
            old(recv).ready(),
            permitted(old(recv).nesting(), ev@),
            self.pending(old(recv), start, multi, ev@, mark),
        ensures
            r is Ok ==> final(recv).ready() && final(recv).nesting() == advance(
                old(recv).nesting(),
                ev@,
            ) && final(recv).log() == old(recv).log().push(ev@),
            r is Ok && is_last(ev@, multi) ==> self.finished(final(recv), start, multi),
            r is Ok && !is_last(ev@, multi) ==> self.tracks(final(recv), start, multi),
            r is Err ==> self.failed::<R>(start, multi, r->Err_0),
    {
        recv.on_event(ev, mark)
    }

    /// Parses the stream and hands its events to `recv`: all of it, or, where
    /// `multi` is false, up to the end of its first document.  `recv` receives
    /// the events that `next` gives, in their order, and the end of the stream
    /// where the scanner has reached it already.
    ///
    /// Where no event was looked at and not taken, and the scanner has not
    /// reached the end of the stream, the outcome is `run` of the tokens that
    /// the scanner gives: the events that `recv` has accepted at the end, or
    /// the first error of the parser or of `recv`, or that of the scanner
    /// where the tokens end before the stream does.
    pub fn load<R: MarkedEventReceiver>(&mut self, recv: &mut R, multi: bool) -> (r: Result<
        (),
        ScanError,
    >)
        requires
            old(self).wf(),
            old(self).place() == idle(),
            !(old(self).current is Some && old(self).current->Some_0.0 is StreamStart),
            old(recv).ready(),
            old(recv).nesting() == idle(),
        ensures
            r is Ok ==> final(self).wf() && final(self).place() == idle() && final(recv).ready()
                && final(recv).nesting() == idle(),
            r is Ok ==> old(self).emitted@.len() <= final(self).emitted@.len()
                && final(recv).log() == old(recv).log() + final(self).emitted@.skip(
                old(self).emitted@.len() as int,
            ),
            final(self).text == old(self).text,
            forall|i: int|
                0 <= i < final(self).fetched@.len() ==> token_at(final(self).text@, i as nat)
                    == Some(lex_of(#[trigger] final(self).fetched@[i])),
            old(self).current is None && !old(self).scanner.stream_end_produced ==> match run::<R>(
                old(self).state,
                old(self).states@,
                old(self).used(),
                old(recv).log(),
                lexes(final(self).fetched@),
                multi,
            ) {
                Ran::Done { log, result: Ok(_) } => r is Ok && final(recv).log() == log,
                Ran::Done { log, result: Err(e) } => r is Err && (r->Err_0.mark, r->Err_0.info@)
                    == e,
                Ran::Paused { .. } => r is Err && final(self).starved(r->Err_0),
            },
            old(self).scanner.stream_end_produced ==> match R::refusal(
                old(recv).log(),
                EventView::StreamEnd,
                old(self).scanner.rdr.mark,
            ) {
                None => r is Ok && final(recv).log() == old(recv).log().push(EventView::StreamEnd),
                Some(e) => r is Err && (r->Err_0.mark, r->Err_0.info@) == e,
            },
    {
        let ghost base = recv.log();
        let ghost from = self.emitted@.len() as int;
        let ghost start = Start {
            state: self.state,
            states: self.states@,
            at: self.used(),
            log: recv.log(),
            followed: self.current is None && !self.scanner.stream_end_produced,
        };
        proof {
            assert(self.emitted@.skip(from) =~= Seq::<EventView>::empty());
            assert(base + self.emitted@.skip(from) =~= base);
        }
        if !self.scanner.stream_started() {
            let (ev, mark) = self.next_event(recv, Ghost(start), Ghost(multi))?;
            self.hand_over(recv, ev, mark, Ghost(start), Ghost(multi))?;
            proof {
                assert(recv.log() =~= base + self.emitted@.skip(from));
            }
        }
        if self.scanner.stream_ended() {
            proof {
                if start.followed {
                    // the scanner had not ended, so it has just begun: the one
                    // token taken so far is the start of the stream
                    assert(old(self).fetched@.len() == 0);
                    assert(self.fetched@.len() == 1);
                    assert(lexes(self.fetched@)[0].lexeme.kind() == TokenKind::StreamStart);
                    assert(self.fetched@.last().1 is StreamStart);
                    assert(false);
                }
            }
            recv.on_event(Event::StreamEnd, self.scanner.mark())?;
            proof {
                self.emitted@ = self.emitted@.push(EventView::StreamEnd);
                assert(recv.log() =~= base + self.emitted@.skip(from));
            }
            return Ok(());
        }
        loop
            invariant_except_break
                self.tracks(recv, start, multi),
            invariant
                self.wf(),
                self.place() == idle(),
                !(self.current is Some && self.current->Some_0.0 is StreamStart),
                !(self.state is StreamStart),
                recv.ready(),
                recv.nesting() == idle(),
                self.in_step(recv, base, from),
                base == old(recv).log(),
                from == old(self).emitted@.len(),
                self.text == old(self).text,
                self.moved_on(old(self)),
                !old(self).scanner.stream_end_produced,
                start.followed ==> self.current is None,
                start == (Start {
                    state: old(self).state,
                    states: old(self).states@,
                    at: old(self).used(),
                    log: old(recv).log(),
                    followed: old(self).current is None && !old(self).scanner.stream_end_produced,
                }),
            ensures
                self.finished(recv, start, multi),
            decreases self.measure(),
        {
            let (ev, mark) = self.next_event(recv, Ghost(start), Ghost(multi))?;
            if let Event::StreamEnd = ev {
                self.hand_over(recv, ev, mark, Ghost(start), Ghost(multi))?;
                proof {
                    assert(recv.log() =~= base + self.emitted@.skip(from));
                }
                return Ok(());
            }
            self.load_document(
                ev,
                mark,
                recv,
                Ghost(base),
                Ghost(from),
                Ghost(start),
                Ghost(multi),
            )?;
            if !multi {
                break ;
            }
        }
        Ok(())
    }

    /// Hands over one document: its start, its root node, its end.
    fn load_document<R: MarkedEventReceiver>(
        &mut self,
        first_ev: Event,
        mark: Marker,
        recv: &mut R,
        Ghost(base): Ghost<Seq<EventView>>,
        Ghost(from): Ghost<int>,
        Ghost(start): Ghost<Start>,
        Ghost(multi): Ghost<bool>,
    ) -> (r: Result<(), ScanError>)
        requires
            old(self).wf(),
            old(self).current is None,
            first_ev is DocumentStart,
            old(self).place() == advance(idle(), EventView::DocumentStart),
            old(recv).ready(),
            old(recv).nesting() == idle(),
            0 <= from < old(self).emitted@.len(),
            old(self).emitted@.last() == first_ev@,
            old(recv).log() =~= base + old(self).emitted@.drop_last().skip(from),
            old(self).pending(old(recv), start, multi, first_ev@, mark),
        ensures
            r is Ok ==> final(self).wf() && final(self).current is None && final(self).place()
                == idle() && final(recv).ready() && final(recv).nesting() == idle()
                && final(self).measure() < old(self).measure() && !(final(self).state
                is StreamStart) && final(self).in_step(final(recv), base, from),
            r is Ok && multi ==> final(self).tracks(final(recv), start, multi),
            r is Ok && !multi ==> final(self).finished(final(recv), start, multi),
            r is Err ==> final(self).failed::<R>(start, multi, r->Err_0),
            final(self).text == old(self).text,
            final(self).moved_on(old(self)),
    {
        self.hand_over(recv, first_ev, mark, Ghost(start), Ghost(multi))?;
        proof {
            assert(recv.log() =~= base + self.emitted@.skip(from));
        }
        let (ev, mark) = self.next_event(recv, Ghost(start), Ghost(multi))?;
        self.load_node(ev, mark, recv, Ghost(base), Ghost(from), Ghost(start), Ghost(multi))?;
        // the end of the document is expected
        let (ev, mark) = self.next_event(recv, Ghost(start), Ghost(multi))?;
        self.hand_over(recv, ev, mark, Ghost(start), Ghost(multi))?;
        proof {
            assert(recv.log() =~= base + self.emitted@.skip(from));
        }
        Ok(())
    }

    /// Hands over one node, whose first event is `first_ev`: a scalar, or a
    /// collection with all that is in it.
    fn load_node<R: MarkedEventReceiver>(
        &mut self,
        first_ev: Event,
        mark: Marker,
        recv: &mut R,
        Ghost(base): Ghost<Seq<EventView>>,
        Ghost(from): Ghost<int>,
        Ghost(start): Ghost<Start>,
        Ghost(multi): Ghost<bool>,
    ) -> (r: Result<(), ScanError>)
        requires
            old(self).wf(),
            old(self).current is None,
            crate::event::starts_node(first_ev@),
            old(recv).ready(),
            permitted(old(recv).nesting(), first_ev@),
            old(self).place() == advance(old(recv).nesting(), first_ev@),
            0 <= from < old(self).emitted@.len(),
            old(self).emitted@.last() == first_ev@,
            old(recv).log() =~= base + old(self).emitted@.drop_last().skip(from),
            old(self).pending(old(recv), start, multi, first_ev@, mark),
        ensures
            r is Ok ==> final(self).wf() && final(self).current is None && final(recv).ready()
                && final(recv).nesting() == crate::event::node_done(old(recv).nesting())
                && final(self).place() == final(recv).nesting()
                    && final(self).measure() <= old(self).measure()
                    && final(self).in_step(final(recv), base, from)
                    && final(self).tracks(
                final(recv),
                start,
                multi,
            ),
            r is Err ==> final(self).failed::<R>(start, multi, r->Err_0),
            final(self).moved_on(old(self)),
        decreases old(self).measure(), 1int,
    {
        match first_ev {
            Event::Scalar(..) => {
                self.hand_over(recv, first_ev, mark, Ghost(start), Ghost(multi))?;
                proof {
                    assert(recv.log() =~= base + self.emitted@.skip(from));
                }
                Ok(())
            },
            Event::SequenceStart(_) => {
                let ghost n = recv.nesting();
                self.hand_over(recv, first_ev, mark, Ghost(start), Ghost(multi))?;
                proof {
                    assert(recv.nesting().open.drop_last() =~= n.open);
                    assert(recv.log() =~= base + self.emitted@.skip(from));
                }
                self.load_sequence(recv, Ghost(base), Ghost(from), Ghost(start), Ghost(multi))
            },
            Event::MappingStart(_) => {
                let ghost n = recv.nesting();
                self.hand_over(recv, first_ev, mark, Ghost(start), Ghost(multi))?;
                proof {
                    assert(recv.nesting().open.drop_last() =~= n.open);
                    assert(recv.log() =~= base + self.emitted@.skip(from));
                }
                self.load_mapping(recv, Ghost(base), Ghost(from), Ghost(start), Ghost(multi))
            },
            // a node begins with a scalar or with the start of a collection
            _ => vstd::pervasive::unreached(),
        }
    }

    /// Hands over the entries of a mapping, key and value in turn, and its end.
    fn load_mapping<R: MarkedEventReceiver>(
        &mut self,
        recv: &mut R,
        Ghost(base): Ghost<Seq<EventView>>,
        Ghost(from): Ghost<int>,
        Ghost(start): Ghost<Start>,
        Ghost(multi): Ghost<bool>,
    ) -> (r: Result<(), ScanError>)
        requires
            old(self).wf(),
            old(self).current is None,
            old(recv).ready(),
            old(self).place() == old(recv).nesting(),
            old(self).place().in_document,
            !old(self).place().root_done,
            old(self).place().open.len() > 0,
            old(self).place().open.last() is Key,
            old(self).in_step(old(recv), base, from),
            old(self).tracks(old(recv), start, multi),
        ensures
            r is Ok ==> final(self).wf() && final(self).current is None && final(recv).ready()
                && final(recv).nesting() == crate::event::node_done(
                Nesting { open: old(recv).nesting().open.drop_last(), ..old(recv).nesting() },
            ) && final(self).place() == final(recv).nesting()
                && final(self).measure() <= old(self).measure()
                && final(self).in_step(final(recv), base, from) && final(self).tracks(
                final(recv),
                start,
                multi,
            ),
            r is Err ==> final(self).failed::<R>(start, multi, r->Err_0),
            final(self).moved_on(old(self)),
        decreases old(self).measure(), 0int,
    {
        loop
            invariant
                self.wf(),
                self.current is None,
                recv.ready(),
                self.place() == recv.nesting(),
                recv.nesting() == old(recv).nesting(),
                self.place().in_document,
                !self.place().root_done,
                self.place().open.len() > 0,
                self.place().open.last() is Key,
                self.measure() <= old(self).measure(),
                self.in_step(recv, base, from),
                self.tracks(recv, start, multi),
                self.moved_on(old(self)),
            decreases self.measure(),
        {
            let ghost n = recv.nesting();
            let (key_ev, key_mark) = self.next_event(recv, Ghost(start), Ghost(multi))?;
            if let Event::MappingEnd = key_ev {
                self.hand_over(recv, key_ev, key_mark, Ghost(start), Ghost(multi))?;
                proof {
                    assert(recv.log() =~= base + self.emitted@.skip(from));
                }
                return Ok(());
            }
            // the key
            self.load_node(
                key_ev,
                key_mark,
                recv,
                Ghost(base),
                Ghost(from),
                Ghost(start),
                Ghost(multi),
            )?;
            // the value
            let (ev, mark) = self.next_event(recv, Ghost(start), Ghost(multi))?;
            self.load_node(ev, mark, recv, Ghost(base), Ghost(from), Ghost(start), Ghost(multi))?;
            proof {
                assert(recv.nesting().open =~= n.open);
            }
        }
    }

    /// Hands over the items of a sequence, and its end.
    fn load_sequence<R: MarkedEventReceiver>(
        &mut self,
        recv: &mut R,
        Ghost(base): Ghost<Seq<EventView>>,
        Ghost(from): Ghost<int>,
        Ghost(start): Ghost<Start>,
        Ghost(multi): Ghost<bool>,
    ) -> (r: Result<(), ScanError>)
        requires
            old(self).wf(),
            old(self).current is None,
            old(recv).ready(),
            old(self).place() == old(recv).nesting(),
            old(self).place().in_document,
            !old(self).place().root_done,
            old(self).place().open.len() > 0,
            old(self).place().open.last() is Item,
            old(self).in_step(old(recv), base, from),
            old(self).tracks(old(recv), start, multi),
        ensures
            r is Ok ==> final(self).wf() && final(self).current is None && final(recv).ready()
                && final(recv).nesting() == crate::event::node_done(
                Nesting { open: old(recv).nesting().open.drop_last(), ..old(recv).nesting() },
            ) && final(self).place() == final(recv).nesting()
                && final(self).measure() <= old(self).measure()
                && final(self).in_step(final(recv), base, from) && final(self).tracks(
                final(recv),
                start,
                multi,
            ),
            r is Err ==> final(self).failed::<R>(start, multi, r->Err_0),
            final(self).moved_on(old(self)),
        decreases old(self).measure(), 0int,
    {
        loop
            invariant
                self.wf(),
                self.current is None,
                recv.ready(),
                self.place() == recv.nesting(),
                recv.nesting() == old(recv).nesting(),
                self.place().in_document,
                !self.place().root_done,
                self.place().open.len() > 0,
                self.place().open.last() is Item,
                self.measure() <= old(self).measure(),
                self.in_step(recv, base, from),
                self.tracks(recv, start, multi),
                self.moved_on(old(self)),
            decreases self.measure(),
        {
            let (ev, mark) = self.next_event(recv, Ghost(start), Ghost(multi))?;
            if let Event::SequenceEnd = ev {
                self.hand_over(recv, ev, mark, Ghost(start), Ghost(multi))?;
                proof {
                    assert(recv.log() =~= base + self.emitted@.skip(from));
                }
                return Ok(());
            }
            self.load_node(ev, mark, recv, Ghost(base), Ghost(from), Ghost(start), Ghost(multi))?;
        }
    }
}

/// Where a drive began.
pub struct Start {
    pub state: State,
    pub states: Seq<State>,
    pub at: int,
    pub log: Seq<EventView>,
    /// The drive is followed: nothing stood in its way when it began.
    pub followed: bool,
}

} // verus!
