use vstd::prelude::*;
use crate::chars::{is_blankz, is_z, spec_is_blank, spec_is_blankz, spec_is_break};
use crate::directives::{directive, scan_directive, skip_to_line_end};
use crate::lexeme::{lex_of, lexeme_of, lexes, Lex, Lexeme};
use crate::reader::{line_end, past_break, past_one, Scan};
use crate::scalars::{block_scalar, indicator_at, plain_scalar, quoted_scalar};
pub use crate::marker::{Marker, ScanError};
use crate::reader::Reader;
use crate::scalars::{
    at_document_indicator, document_indicator_ahead, plain_can_start, scan_block_scalar,
    scan_flow_scalar, scan_plain_scalar,
};
pub use crate::token::{TEncoding, TScalarStyle, Token, TokenType};

verus! {

/// A scalar that may turn out to be the key of a mapping, when a `:` follows
/// it on its line.
pub struct SimpleKey {
    /// Whether the candidate still stands.
    pub possible: bool,
    /// Where in the queue of tokens the `Key` token would go.
    pub position: usize,
    /// Where the candidate begins.
    pub mark: Marker,
}

/// Turns characters into tokens, on demand.
pub struct Scanner {
    pub rdr: Reader,
    /// The tokens that are made and not yet handed out, the next one first.
    pub tokens: Vec<Token>,
    /// The error that ended the scan.
    pub error: Option<ScanError>,
    pub stream_start_produced: bool,
    pub stream_end_produced: bool,
    /// The `StreamEnd` token is made.
    pub stream_end_queued: bool,
    /// A simple key may begin at the next token.
    pub simple_key_allowed: bool,
    pub simple_key: SimpleKey,
    /// The column of the innermost open block, plus one; 0 where no block is open.
    pub floor: usize,
    /// The same for the blocks around it, the outermost first.
    pub floors: Vec<usize>,
}

/// Nothing, or the error that ended the scan.
pub type ScanResult = Result<(), ScanError>;

/// A scanner as a mathematical value: all of it but the text.
pub struct ScanState {
    pub mark: Marker,
    pub tokens: Seq<Lex>,
    pub failed: Option<(Marker, Seq<char>)>,
    pub started: bool,
    pub ended: bool,
    pub queued: bool,
    pub key_allowed: bool,
    pub key: SimpleKey,
    pub floor: usize,
    pub floors: Seq<usize>,
}

/// What making tokens comes to: the scanner after it, or an error.
pub enum Fetched {
    Next(ScanState),
    Fail(Marker, Seq<char>),
}

/// `r`, with the scanner then being `after`, is what `f` says.
pub open spec fn fetch_agrees(r: ScanResult, after: ScanState, f: Fetched) -> bool {
    match f {
        Fetched::Next(s) => r is Ok && after == s,
        Fetched::Fail(mark, info) => r is Err && r->Err_0.mark == mark && r->Err_0.info@ == info,
    }
}

/// The simple key candidate goes stale once its line is over, or after 1024 characters.
pub open spec fn stale(st: ScanState) -> ScanState {
    ScanState {
        key: SimpleKey {
            possible: st.key.possible && !(st.key.mark.line < st.mark.line || st.key.mark.index
                + 1024 < st.mark.index),
            ..st.key
        },
        ..st
    }
}

/// The next token is noted as a simple key candidate, where one may begin.
pub open spec fn key_saved(st: ScanState) -> ScanState {
    if st.key_allowed {
        ScanState {
            key: SimpleKey { possible: true, position: st.tokens.len() as usize, mark: st.mark },
            ..st
        }
    } else {
        st
    }
}

/// A block opens at the column `col`, if that is deeper than the block
/// around: the token that starts it goes to `position` in the queue, or to its end.
pub open spec fn rolled(st: ScanState, col: usize, position: Option<usize>, lex: Lex) -> ScanState {
    if st.floor <= col {
        ScanState {
            floor: (col + 1) as usize,
            floors: st.floors.push(st.floor),
            tokens: match position {
                Some(n) => st.tokens.insert(n as int, lex),
                None => st.tokens.push(lex),
            },
            ..st
        }
    } else {
        st
    }
}

/// The blocks that are deeper than `to` allows are closed, with a `BlockEnd` for each.
pub open spec fn unrolled(st: ScanState, to: usize) -> ScanState
    decreases st.floors.len(),
{
    if st.floor > to && st.floors.len() > 0 {
        unrolled(
            ScanState {
                tokens: st.tokens.push(Lex { mark: st.mark, lexeme: Lexeme::BlockEnd }),
                floor: st.floors.last(),
                floors: st.floors.drop_last(),
                ..st
            },
            to,
        )
    } else {
        st
    }
}

/// The position of the next token after `m`, past blanks, line breaks and
/// comments, and whether a simple key may begin there: after a line break
/// one may.  A tab where a simple key may begin is an error.
pub open spec fn gap(src: Seq<char>, m: Marker, allowed: bool) -> Scan<bool>
    decreases src.len() - m.index,
{
    let c = src[m.index as int];
    if !(m.index + 1 < src.len() <= usize::MAX) {
        Scan::Done { mark: m, value: allowed }
    } else if c == ' ' {
        gap(src, past_one(src, m), allowed)
    } else if c == '\t' {
        if allowed {
            Scan::Fail {
                mark: m,
                info: "found a tab character where an indentation space is expected"@,
            }
        } else {
            gap(src, past_one(src, m), allowed)
        }
    } else if (c == '\n' || c == '\r') && m.index < past_break(src, m).index <= src.len() {
        gap(src, past_break(src, m), true)
    } else if c == '#' && m.index < line_end(src, m).index <= src.len() {
        gap(src, line_end(src, m), allowed)
    } else {
        Scan::Done { mark: m, value: allowed }
    }
}

/// The start of the stream: its token, after a byte order mark if there is one.
pub open spec fn stream_started(src: Seq<char>, st: ScanState) -> ScanState {
    ScanState {
        mark: if src[st.mark.index as int] == '\u{feff}' {
            past_one(src, st.mark)
        } else {
            st.mark
        },
        floor: 0,
        floors: Seq::empty(),
        started: true,
        key_allowed: true,
        tokens: st.tokens.push(Lex { mark: st.mark, lexeme: Lexeme::StreamStart }),
        key: SimpleKey { possible: false, position: 0, mark: Marker { index: 0, line: 0, col: 0 } },
        ..st
    }
}

/// The end of the stream: the text ends its line, every block is closed, and
/// the token of the end follows.
pub open spec fn stream_ended(st: ScanState) -> ScanState {
    let m = if st.mark.col != 0 {
        Marker { col: 0, line: (st.mark.line + 1) as usize, ..st.mark }
    } else {
        st.mark
    };
    let u = unrolled(ScanState { mark: m, ..st }, 0);
    ScanState {
        key: SimpleKey { possible: false, ..u.key },
        key_allowed: false,
        tokens: u.tokens.push(Lex { mark: m, lexeme: Lexeme::StreamEnd }),
        queued: true,
        ..u
    }
}

/// Every block is closed and no simple key stands: so it is before a
/// directive and before a document indicator.
pub open spec fn at_top(st: ScanState) -> ScanState {
    let u = unrolled(st, 0);
    ScanState { key: SimpleKey { possible: false, ..u.key }, key_allowed: false, ..u }
}

/// A directive at the start of a line.
pub open spec fn directive_fetched(src: Seq<char>, st: ScanState) -> Fetched {
    let u = at_top(st);
    match directive(src, u.mark) {
        Scan::Fail { mark, info } => Fetched::Fail(mark, info),
        Scan::Done { mark, value } => Fetched::Next(
            ScanState { mark, tokens: u.tokens.push(Lex { mark: u.mark, lexeme: value }), ..u },
        ),
    }
}

/// `---` or `...` at the start of a line.
pub open spec fn indicator_fetched(src: Seq<char>, st: ScanState, lexeme: Lexeme) -> ScanState {
    let u = at_top(st);
    ScanState {
        mark: past_one(src, past_one(src, past_one(src, u.mark))),
        tokens: u.tokens.push(Lex { mark: u.mark, lexeme }),
        ..u
    }
}

/// `-` before a blank: an item of a block sequence, which it opens if it
/// stands deeper than the block around.
pub open spec fn entry_fetched(src: Seq<char>, st: ScanState) -> Fetched {
    if !st.key_allowed {
        Fetched::Fail(st.mark, "block sequence entries are not allowed in this context"@)
    } else {
        let r = rolled(
            st,
            st.mark.col,
            None,
            Lex { mark: st.mark, lexeme: Lexeme::BlockSequenceStart },
        );
        Fetched::Next(
            ScanState {
                key: SimpleKey { possible: false, ..r.key },
                key_allowed: true,
                mark: past_one(src, st.mark),
                tokens: r.tokens.push(Lex { mark: st.mark, lexeme: Lexeme::BlockEntry }),
                ..r
            },
        )
    }
}

/// `?` before a blank: a key that need not be simple, which opens a block
/// mapping if it stands deeper than the block around.
pub open spec fn key_fetched(src: Seq<char>, st: ScanState) -> Fetched {
    if !st.key_allowed {
        Fetched::Fail(st.mark, "mapping keys are not allowed in this context"@)
    } else {
        let r = rolled(
            st,
            st.mark.col,
            None,
            Lex { mark: st.mark, lexeme: Lexeme::BlockMappingStart },
        );
        Fetched::Next(
            ScanState {
                key: SimpleKey { possible: false, ..r.key },
                key_allowed: true,
                mark: past_one(src, st.mark),
                tokens: r.tokens.push(Lex { mark: st.mark, lexeme: Lexeme::Key }),
                ..r
            },
        )
    }
}

/// `:` before a blank: a value.  Where a simple key candidate stands, it is
/// the key: a `Key` token goes before it, and before that the start of a
/// block mapping, if the key stands deeper than the block around.
pub open spec fn value_fetched(src: Seq<char>, st: ScanState) -> Fetched {
    if st.key.possible {
        let keyed = ScanState {
            tokens: st.tokens.insert(
                st.key.position as int,
                Lex { mark: st.key.mark, lexeme: Lexeme::Key },
            ),
            ..st
        };
        let r = rolled(
            keyed,
            st.key.mark.col,
            Some(st.key.position),
            Lex { mark: st.mark, lexeme: Lexeme::BlockMappingStart },
        );
        Fetched::Next(
            ScanState {
                key: SimpleKey { possible: false, ..r.key },
                key_allowed: false,
                mark: past_one(src, st.mark),
                tokens: r.tokens.push(Lex { mark: st.mark, lexeme: Lexeme::Value }),
                ..r
            },
        )
    } else if !st.key_allowed {
        Fetched::Fail(st.mark, "mapping values are not allowed in this context"@)
    } else {
        let r = rolled(
            st,
            st.mark.col,
            None,
            Lex { mark: st.mark, lexeme: Lexeme::BlockMappingStart },
        );
        Fetched::Next(
            ScanState {
                key_allowed: true,
                mark: past_one(src, st.mark),
                tokens: r.tokens.push(Lex { mark: st.mark, lexeme: Lexeme::Value }),
                ..r
            },
        )
    }
}

/// A literal or a folded scalar.  It may be a simple key, and one may follow it.
pub open spec fn block_scalar_fetched(src: Seq<char>, st: ScanState, literal: bool) -> Fetched {
    let k = ScanState { key_allowed: true, ..key_saved(st) };
    match block_scalar(src, k.mark, literal, k.floor) {
        Scan::Fail { mark, info } => Fetched::Fail(mark, info),
        Scan::Done { mark, value } => Fetched::Next(
            ScanState {
                mark,
                tokens: k.tokens.push(
                    Lex {
                        mark: value.0,
                        lexeme: Lexeme::Scalar(
                            if literal {
                                TScalarStyle::Literal
                            } else {
                                TScalarStyle::Folded
                            },
                            value.1,
                        ),
                    },
                ),
                ..k
            },
        ),
    }
}

/// A quoted scalar.  It may be a simple key, and none may follow it.
pub open spec fn quoted_scalar_fetched(src: Seq<char>, st: ScanState, single: bool) -> Fetched {
    let k = ScanState { key_allowed: false, ..key_saved(st) };
    match quoted_scalar(src, k.mark, single) {
        Scan::Fail { mark, info } => Fetched::Fail(mark, info),
        Scan::Done { mark, value } => Fetched::Next(
            ScanState {
                mark,
                tokens: k.tokens.push(
                    Lex {
                        mark: k.mark,
                        lexeme: Lexeme::Scalar(
                            if single {
                                TScalarStyle::SingleQuoted
                            } else {
                                TScalarStyle::DoubleQuoted
                            },
                            value,
                        ),
                    },
                ),
                ..k
            },
        ),
    }
}

/// A plain scalar.  It may be a simple key; one may follow it where it ends
/// after a line break.
pub open spec fn plain_scalar_fetched(src: Seq<char>, st: ScanState) -> Fetched {
    let k = ScanState { key_allowed: false, ..key_saved(st) };
    match plain_scalar(src, k.mark, k.floor) {
        Scan::Fail { mark, info } => Fetched::Fail(mark, info),
        Scan::Done { mark, value } => Fetched::Next(
            ScanState {
                mark,
                key_allowed: value.1,
                tokens: k.tokens.push(
                    Lex { mark: k.mark, lexeme: Lexeme::Scalar(TScalarStyle::Plain, value.0) },
                ),
                ..k
            },
        ),
    }
}

/// What the character at the next token asks for.  A line that begins left
/// of an open block closes the block first.
pub open spec fn token_fetched(src: Seq<char>, st: ScanState) -> Fetched {
    let u = unrolled(stale(st), (st.mark.col + 1) as usize);
    let c = src[st.mark.index as int];
    let nc = src[st.mark.index + 1];
    if c == '\0' {
        Fetched::Next(stream_ended(u))
    } else if st.mark.col == 0 && c == '%' {
        directive_fetched(src, u)
    } else if indicator_at(src, st.mark) {
        Fetched::Next(
            indicator_fetched(
                src,
                u,
                if c == '-' {
                    Lexeme::DocumentStart
                } else {
                    Lexeme::DocumentEnd
                },
            ),
        )
    } else if c == '-' && spec_is_blankz(nc) {
        entry_fetched(src, u)
    } else if c == '?' && spec_is_blankz(nc) {
        key_fetched(src, u)
    } else if c == ':' && spec_is_blankz(nc) {
        value_fetched(src, u)
    } else if c == '|' {
        block_scalar_fetched(src, u, true)
    } else if c == '>' {
        block_scalar_fetched(src, u, false)
    } else if c == '\'' {
        quoted_scalar_fetched(src, u, true)
    } else if c == '"' {
        quoted_scalar_fetched(src, u, false)
    } else if c == '%' || c == '@' || c == '`' {
        Fetched::Fail(st.mark, "unexpected character: `"@.push(c).push('\''))
    } else {
        plain_scalar_fetched(src, u)
    }
}

/// The next token, or the next few, are made: the start of the stream
/// first, then what follows the gap before the next token.
pub open spec fn next_fetched(src: Seq<char>, st: ScanState) -> Fetched {
    if !st.started {
        Fetched::Next(stream_started(src, st))
    } else {
        match gap(src, st.mark, st.key_allowed) {
            Scan::Fail { mark, info } => Fetched::Fail(mark, info),
            Scan::Done { mark, value } => token_fetched(
                src,
                ScanState { mark, key_allowed: value, ..st },
            ),
        }
    }
}

/// A bound on the tokens still to come.
pub open spec fn budget_of(src: Seq<char>, st: ScanState) -> int {
    8 * (src.len() - crate::reader::LOOKAHEAD - st.mark.index) + 2 * st.floors.len()
        + st.tokens.len() + (if st.started {
        0int
    } else {
        4
    }) + (if st.queued {
        0int
    } else {
        4
    })
}

/// Tokens are made until the first in the queue can be handed out: until
/// the queue is not empty and no `Key` token can still go before its first token.
pub open spec fn more_fetched(src: Seq<char>, st: ScanState) -> Fetched
    decreases budget_of(src, st),
{
    let s = if st.tokens.len() == 0 {
        st
    } else {
        stale(st)
    };
    if !(s.tokens.len() == 0 || (s.key.possible && s.key.position == 0)) {
        Fetched::Next(s)
    } else {
        match next_fetched(src, s) {
            Fetched::Fail(mark, info) => Fetched::Fail(mark, info),
            Fetched::Next(next) => if 0 <= budget_of(src, next) < budget_of(src, s) {
                more_fetched(src, next)
            } else {
                Fetched::Next(next)
            },
        }
    }
}

/// A scanner that has read nothing.
pub open spec fn first_state() -> ScanState {
    ScanState {
        mark: Marker { index: 0, line: 1, col: 0 },
        tokens: Seq::empty(),
        failed: None,
        started: false,
        ended: false,
        queued: false,
        key_allowed: true,
        key: SimpleKey { possible: false, position: 0, mark: Marker { index: 0, line: 0, col: 0 } },
        floor: 0,
        floors: Seq::empty(),
    }
}

/// The scanner after `next`, and what `next` gives: a token, or nothing
/// after the end of the stream and after an error, which the scanner keeps.
#[verifier::opaque]
pub open spec fn scanned_next(src: Seq<char>, st: ScanState) -> (ScanState, Option<Lex>) {
    if st.failed is Some || st.ended {
        (st, None)
    } else {
        match more_fetched(src, st) {
            Fetched::Fail(mark, info) => (ScanState { failed: Some((mark, info)), ..st }, None),
            Fetched::Next(s) => (
                ScanState {
                    tokens: s.tokens.drop_first(),
                    key: if s.key.possible {
                        SimpleKey { position: (s.key.position - 1) as usize, ..s.key }
                    } else {
                        s.key
                    },
                    ended: s.tokens[0].lexeme is StreamEnd,
                    ..s
                },
                Some(s.tokens[0]),
            ),
        }
    }
}

/// The scanner of the text `src` after `n` calls of `next`.
#[verifier::opaque]
pub open spec fn scan_after(src: Seq<char>, n: nat) -> ScanState
    decreases n,
{
    if n == 0 {
        first_state()
    } else {
        scanned_next(src, scan_after(src, (n - 1) as nat)).0
    }
}

/// What the call of `next` after `n` others gives for the text `src`: the
/// token of index `n`, if there is one.
#[verifier::opaque]
pub open spec fn token_at(src: Seq<char>, n: nat) -> Option<Lex> {
    scanned_next(src, scan_after(src, n)).1
}

/// Why the text `src` has no token of index `n`: the error of the scanner
/// and its position, or the end of the tokens at the position of the scanner.
#[verifier::opaque]
pub open spec fn terminal(src: Seq<char>, n: nat) -> (Marker, Seq<char>) {
    match scan_after(src, n + 1).failed {
        Some(failure) => failure,
        None => (scan_after(src, n).mark, "unexpected eof"@),
    }
}

impl Scanner {
    /// The scan can go on: the parts of the scanner fit together.
    pub open spec fn sound(&self) -> bool {
        &&& self.rdr.wf()
        &&& self.floor <= self.rdr.mark.index + 1
        &&& forall|i: int, j: int|
            0 <= i < j < self.floors@.len() ==> self.floors@[i] < self.floors@[j]
        &&& forall|i: int| 0 <= i < self.floors@.len() ==> #[trigger] self.floors@[i] < self.floor
        &&& self.floors@.len() > 0 ==> self.floors@[0] == 0
        &&& self.floors@.len() == 0 ==> self.floor == 0
        &&& self.simple_key.mark.col <= self.simple_key.mark.index <= self.rdr.mark.index
        &&& self.simple_key.possible ==> self.simple_key.position <= self.tokens@.len()
        &&& self.stream_end_produced ==> self.stream_end_queued
        &&& self.stream_end_queued ==> self.stream_start_produced && !self.simple_key.possible
        &&& !self.stream_start_produced ==> self.tokens@.len() == 0 && !self.simple_key.possible
        &&& self.stream_end_queued && !self.stream_end_produced ==> self.tokens@.len() > 0
            && self.tokens@.last().1 is StreamEnd
        &&& forall|i: int|
            0 <= i < self.tokens@.len() && (#[trigger] self.tokens@[i]).1 is StreamEnd
                ==> self.stream_end_queued
    }

    /// The scanner as a mathematical value.
    pub open spec fn state(&self) -> ScanState {
        ScanState {
            mark: self.rdr.mark,
            tokens: lexes(self.tokens@),
            failed: match self.error {
                Some(e) => Some((e.mark, e.info@)),
                None => None,
            },
            started: self.stream_start_produced,
            ended: self.stream_end_produced,
            queued: self.stream_end_queued,
            key_allowed: self.simple_key_allowed,
            key: self.simple_key,
            floor: self.floor,
            floors: self.floors@,
        }
    }

    /// The scanner is in order: it has failed, or the scan can go on.
    pub open spec fn wf(&self) -> bool {
        self.error is Some || self.sound()
    }

    /// A bound on the tokens still to come.  It falls with every token handed out.
    pub open spec fn budget(&self) -> int {
        8 * self.rdr.left() + 2 * self.floors@.len() + self.tokens@.len() + (
        if self.stream_start_produced {
            0int
        } else {
            4
        }) + (if self.stream_end_queued {
            0int
        } else {
            4
        })
    }

    /// A scanner at the start of `source`.
    pub fn new(source: &str) -> (s: Scanner)
        ensures
            s.wf(),
            s.sound(),
            s.error is None,
            s.rdr.text() == source@,
            s.rdr.src@ == crate::reader::padded(source@),
            s.state() == first_state(),
            s.tokens@.len() == 0,
            !s.stream_start_produced,
            !s.stream_end_produced,
    {
        let s = Scanner {
            rdr: Reader::new(source),
            tokens: Vec::new(),
            error: None,
            stream_start_produced: false,
            stream_end_produced: false,
            stream_end_queued: false,
            simple_key_allowed: true,
            simple_key: SimpleKey { possible: false, position: 0, mark: Marker::new(0, 0, 0) },
            floor: 0,
            floors: Vec::new(),
        };
        assert(s.state().tokens =~= Seq::<Lex>::empty());
        assert(s.state().floors =~= Seq::<usize>::empty());
        s
    }

    /// The error that ended the scan, if one did.
    pub fn get_error(&self) -> (e: Option<ScanError>)
        ensures
            e == self.error,
    {
        match &self.error {
            None => None,
            Some(e) => Some(e.clone()),
        }
    }

    /// Whether the token of the start of the stream was made.
    pub fn stream_started(&self) -> (b: bool)
        ensures
            b == self.stream_start_produced,
    {
        self.stream_start_produced
    }

    /// Whether the token of the end of the stream was handed out.
    pub fn stream_ended(&self) -> (b: bool)
        ensures
            b == self.stream_end_produced,
    {
        self.stream_end_produced
    }

    /// The position of the next character.
    pub fn mark(&self) -> (m: Marker)
        ensures
            m == self.rdr.mark,
    {
        self.rdr.mark
    }

    /// Puts a token at the end of the queue.
    fn push_token(&mut self, tok: Token)
        ensures
            *final(self) == (Scanner { tokens: final(self).tokens, ..*old(self) }),
            final(self).tokens@ == old(self).tokens@.push(tok),
            lexes(final(self).tokens@) == lexes(old(self).tokens@).push(lex_of(tok)),
    {
        self.tokens.push(tok);
        assert(lexes(self.tokens@) =~= lexes(old(self).tokens@).push(lex_of(tok)));
    }

    /// Puts a token into the queue, before the token at `pos`.
    fn insert_token(&mut self, pos: usize, tok: Token)
        requires
            pos <= old(self).tokens@.len(),
        ensures
            *final(self) == (Scanner { tokens: final(self).tokens, ..*old(self) }),
            final(self).tokens@ == old(self).tokens@.insert(pos as int, tok),
            lexes(final(self).tokens@) == lexes(old(self).tokens@).insert(pos as int, lex_of(tok)),
    {
        self.tokens.insert(pos, tok);
        assert(lexes(self.tokens@) =~= lexes(old(self).tokens@).insert(pos as int, lex_of(tok)));
    }

    /// The simple key candidate goes stale once its line is over, or after
    /// 1024 characters.
    fn stale_simple_key(&mut self)
        requires
            old(self).sound(),
        ensures
            final(self).state() == stale(old(self).state()),
            final(self).sound(),
            *final(self) == (Scanner {
                simple_key: SimpleKey {
                    possible: old(self).simple_key.possible && !(old(self).simple_key.mark.line
                        < old(self).rdr.mark.line
                            || old(self).simple_key.mark.index + 1024 < old(self).rdr.mark.index),
                    ..old(self).simple_key
                },
                ..*old(self)
            }),
    {
        if self.simple_key.possible && (self.simple_key.mark.line < self.rdr.mark.line
            || self.rdr.mark.index - self.simple_key.mark.index > 1024) {
            self.simple_key.possible = false;
        }
    }

    /// Notes the next token as a simple key candidate, where one may begin.
    fn save_simple_key(&mut self)
        requires
            old(self).sound(),
            !old(self).stream_end_queued,
            old(self).stream_start_produced,
        ensures
            final(self).state() == key_saved(old(self).state()),
            *final(self) == (Scanner {
                simple_key: if old(self).simple_key_allowed {
                    SimpleKey {
                        possible: true,
                        position: old(self).tokens@.len() as usize,
                        mark: old(self).rdr.mark,
                    }
                } else {
                    old(self).simple_key
                },
                ..*old(self)
            }),
            final(self).sound(),
    {
        if self.simple_key_allowed {
            self.simple_key =
            SimpleKey { possible: true, position: self.tokens.len(), mark: self.rdr.mark };
        }
    }

    /// Opens a block at the column `col`, if that is deeper than the block
    /// around: the token that starts it goes to `position` in the queue, or to
    /// its end.
    fn roll_indent(&mut self, col: usize, position: Option<usize>, tok: TokenType, mark: Marker)
        requires
            old(self).sound(),
            !old(self).stream_end_queued,
            old(self).stream_start_produced,
            col <= old(self).rdr.mark.index,
            position is Some ==> position->0 <= old(self).tokens@.len(),
            !(tok is StreamEnd),
        ensures
            final(self).state() == rolled(
                old(self).state(),
                col,
                position,
                lex_of(Token(mark, tok)),
            ),
            final(self).sound(),
            old(self).floor > col ==> *final(self) == *old(self),
            old(self).floor <= col ==> *final(self) == (Scanner {
                floor: (col + 1) as usize,
                floors: final(self).floors,
                tokens: final(self).tokens,
                ..*old(self)
            }) && final(self).floors@ == old(self).floors@.push(old(self).floor) && final(self).tokens@ == (match position {
                Some(n) => old(self).tokens@.insert(n as int, Token(mark, tok)),
                None => old(self).tokens@.push(Token(mark, tok)),
            }),
    {
        if self.floor <= col {
            self.floors.push(self.floor);
            self.floor = col + 1;
            match position {
                Some(n) => {
                    self.insert_token(n, Token(mark, tok));
                },
                None => {
                    self.push_token(Token(mark, tok));
                },
            }
        }
    }

    /// Closes the blocks that are deeper than `to` allows, with a `BlockEnd` for each.
    fn unroll_indent(&mut self, to: usize)
        requires
            old(self).sound(),
            !old(self).stream_end_queued,
            old(self).stream_start_produced,
        ensures
            final(self).state() == unrolled(old(self).state(), to),
            final(self).sound(),
            final(self).floor <= to || final(self).floor == old(self).floor,
            old(self).floor <= to ==> *final(self) == *old(self),
            final(self).floor <= old(self).floor,
            final(self).budget() <= old(self).budget(),
            final(self).tokens@.len() >= old(self).tokens@.len(),
            *final(self) == (Scanner {
                floor: final(self).floor,
                floors: final(self).floors,
                tokens: final(self).tokens,
                ..*old(self)
            }),
    {
        while self.floor > to
            invariant
                self.sound(),
                unrolled(self.state(), to) == unrolled(old(self).state(), to),
                old(self).floor <= to ==> *self == *old(self),
                !self.stream_end_queued,
                self.stream_start_produced,
                self.floor <= old(self).floor,
                self.budget() <= old(self).budget(),
                self.tokens@.len() >= old(self).tokens@.len(),
                *self == (Scanner {
                    floor: self.floor,
                    floors: self.floors,
                    tokens: self.tokens,
                    ..*old(self)
                }),
            decreases self.floors@.len(),
        {
            self.push_token(Token(self.rdr.mark, TokenType::BlockEnd));
            self.floor = self.floors.pop().unwrap();
        }
    }

    /// `self` came from `before` by making tokens: the scan can go on, the
    /// bound on what is to come fell, and no token left the queue.
    pub open spec fn fetched_from(&self, before: &Scanner) -> bool {
        &&& self.sound()
        &&& self.error == before.error
        &&& self.stream_start_produced
        &&& !self.stream_end_produced
        &&& self.budget() < before.budget()
        &&& self.tokens@.len() >= before.tokens@.len()
        &&& self.stream_end_queued ==> !before.stream_end_queued
    }

    /// Reads over blanks, line breaks and comments, up to the next token.  A
    /// tab is read over inside a line only: where a simple key may begin,
    /// indentation is expected, and a tab is an error.
    fn skip_to_next_token(&mut self) -> (r: ScanResult)
        requires
            old(self).sound(),
        ensures
            match gap(old(self).rdr.src@, old(self).rdr.mark, old(self).simple_key_allowed) {
                Scan::Done { mark, value } => r is Ok
                    && final(self).rdr.mark == mark
                    && final(self).simple_key_allowed == value,
                Scan::Fail { mark, info } => r is Err && r->Err_0.mark == mark && r->Err_0.info@
                    == info,
            },
            r is Ok ==> final(self).sound() && final(self).rdr.follows(&old(self).rdr)
                && *final(self) == (Scanner {
                rdr: final(self).rdr,
                simple_key_allowed: final(self).simple_key_allowed,
                ..*old(self)
            }) && !spec_is_blank(final(self).rdr.at(0)) && !spec_is_break(final(self).rdr.at(0))
                && final(self).rdr.at(0) != '#',
            r is Err ==> r->Err_0.mark == final(self).rdr.mark && final(self).rdr.at(0) == '\t',
    {
        loop
            invariant
                self.sound(),
                self.rdr.follows(&old(self).rdr),
                *self == (Scanner {
                    rdr: self.rdr,
                    simple_key_allowed: self.simple_key_allowed,
                    ..*old(self)
                }),
                gap(self.rdr.src@, self.rdr.mark, self.simple_key_allowed) == gap(
                    old(self).rdr.src@,
                    old(self).rdr.mark,
                    old(self).simple_key_allowed,
                ),
            ensures
                !spec_is_blank(self.rdr.at(0)) && !spec_is_break(self.rdr.at(0)) && self.rdr.at(0)
                    != '#',
                gap(self.rdr.src@, self.rdr.mark, self.simple_key_allowed) == (Scan::Done {
                    mark: self.rdr.mark,
                    value: self.simple_key_allowed,
                }),
            decreases self.rdr.left(),
        {
            let c = self.rdr.ch();
            if c == ' ' {
                self.rdr.skip();
            } else if c == '\t' {
                if self.simple_key_allowed {
                    return Err(
                        ScanError::new(
                            self.rdr.mark,
                            "found a tab character where an indentation space is expected",
                        ),
                    );
                }
                self.rdr.skip();
            } else if c == '\n' || c == '\r' {
                self.rdr.skip_line();
                self.simple_key_allowed = true;
            } else if c == '#' {
                skip_to_line_end(&mut self.rdr);
            } else {
                break ;
            }
        }
        Ok(())
    }

    fn fetch_stream_start(&mut self)
        requires
            old(self).sound(),
            !old(self).stream_start_produced,
            !old(self).stream_end_queued,
            !old(self).stream_end_produced,
        ensures
            final(self).state() == stream_started(old(self).rdr.src@, old(self).state()),
            final(self).rdr.src == old(self).rdr.src,
            final(self).fetched_from(old(self)),
            final(self).tokens@.len() == 1,
            final(self).tokens@[0].1 is StreamStart,
            !final(self).simple_key.possible,
    {
        let mark = self.rdr.mark;
        if self.rdr.ch() == '\u{feff}' {
            // a byte order mark at the very start is no text
            self.rdr.skip();
        }
        self.floor = 0;
        self.floors = Vec::new();
        self.stream_start_produced = true;
        self.simple_key_allowed = true;
        self.push_token(Token(mark, TokenType::StreamStart(TEncoding::Utf8)));
        self.simple_key = SimpleKey { possible: false, position: 0, mark: Marker::new(0, 0, 0) };
    }

    fn fetch_stream_end(&mut self)
        requires
            old(self).sound(),
            old(self).stream_start_produced,
            !old(self).stream_end_queued,
            !old(self).stream_end_produced,
        ensures
            final(self).state() == stream_ended(old(self).state()),
            final(self).rdr.src == old(self).rdr.src,
            final(self).fetched_from(old(self)),
    {
        // the end of the text ends the line
        if self.rdr.mark.col != 0 {
            self.rdr.mark.col = 0;
            self.rdr.mark.line = self.rdr.mark.line + 1;
        }
        self.unroll_indent(0);
        self.simple_key.possible = false;
        self.simple_key_allowed = false;
        self.push_token(Token(self.rdr.mark, TokenType::StreamEnd));
        self.stream_end_queued = true;
    }

    fn fetch_directive(&mut self) -> (r: ScanResult)
        requires
            old(self).sound(),
            old(self).stream_start_produced,
            !old(self).stream_end_queued,
            !old(self).stream_end_produced,
            old(self).rdr.left() > 0,
        ensures
            fetch_agrees(
                r,
                final(self).state(),
                directive_fetched(old(self).rdr.src@, old(self).state()),
            ),
            r is Ok ==> final(self).rdr.src == old(self).rdr.src,
            r is Ok ==> final(self).fetched_from(old(self)),
    {
        self.unroll_indent(0);
        self.simple_key.possible = false;
        self.simple_key_allowed = false;
        let tok = scan_directive(&mut self.rdr)?;
        self.push_token(tok);
        Ok(())
    }

    /// Takes `---` or `...` as a token.
    fn fetch_document_indicator(&mut self, t: TokenType)
        requires
            old(self).sound(),
            old(self).stream_start_produced,
            !old(self).stream_end_queued,
            !old(self).stream_end_produced,
            at_document_indicator(&old(self).rdr),
            t is DocumentStart || t is DocumentEnd,
        ensures
            final(self).state() == indicator_fetched(
                old(self).rdr.src@,
                old(self).state(),
                lexeme_of(t),
            ),
            final(self).rdr.src == old(self).rdr.src,
            final(self).fetched_from(old(self)),
    {
        self.unroll_indent(0);
        self.simple_key.possible = false;
        self.simple_key_allowed = false;
        let mark = self.rdr.mark;
        assert(self.rdr.left() > 2) by {
            assert(self.rdr.src@[self.rdr.mark.index + 2] != '\0');
        }
        self.rdr.skip();
        self.rdr.skip();
        self.rdr.skip();
        self.push_token(Token(mark, t));
    }

    /// Takes `-` as the start of an item of a block sequence.
    fn fetch_block_entry(&mut self) -> (r: ScanResult)
        requires
            old(self).sound(),
            old(self).stream_start_produced,
            !old(self).stream_end_queued,
            !old(self).stream_end_produced,
            old(self).rdr.left() > 0,
        ensures
            fetch_agrees(
                r,
                final(self).state(),
                entry_fetched(old(self).rdr.src@, old(self).state()),
            ),
            r is Ok ==> final(self).rdr.src == old(self).rdr.src,
            r is Ok ==> final(self).fetched_from(old(self)),
            r is Err ==> !old(self).simple_key_allowed && r->Err_0.mark == old(self).rdr.mark,
    {
        if !self.simple_key_allowed {
            return Err(
                ScanError::new(
                    self.rdr.mark,
                    "block sequence entries are not allowed in this context",
                ),
            );
        }
        let mark = self.rdr.mark;
        self.roll_indent(mark.col, None, TokenType::BlockSequenceStart, mark);
        self.simple_key.possible = false;
        self.simple_key_allowed = true;
        self.rdr.skip();
        self.push_token(Token(mark, TokenType::BlockEntry));
        Ok(())
    }

    /// Takes `?` as the start of a key that need not be simple.
    fn fetch_key(&mut self) -> (r: ScanResult)
        requires
            old(self).sound(),
            old(self).stream_start_produced,
            !old(self).stream_end_queued,
            !old(self).stream_end_produced,
            old(self).rdr.left() > 0,
        ensures
            fetch_agrees(
                r,
                final(self).state(),
                key_fetched(old(self).rdr.src@, old(self).state()),
            ),
            r is Ok ==> final(self).rdr.src == old(self).rdr.src,
            r is Ok ==> final(self).fetched_from(old(self)),
            r is Err ==> !old(self).simple_key_allowed && r->Err_0.mark == old(self).rdr.mark,
    {
        let start_mark = self.rdr.mark;
        if !self.simple_key_allowed {
            return Err(
                ScanError::new(self.rdr.mark, "mapping keys are not allowed in this context"),
            );
        }
        self.roll_indent(start_mark.col, None, TokenType::BlockMappingStart, start_mark);
        self.simple_key.possible = false;
        self.simple_key_allowed = true;
        self.rdr.skip();
        self.push_token(Token(start_mark, TokenType::Key));
        Ok(())
    }

    /// Takes `:` as the start of a value.  Where a simple key candidate stands,
    /// it is the key: a `Key` token goes before it, and before that the start
    /// of a mapping, if the key opens one.
    fn fetch_value(&mut self) -> (r: ScanResult)
        requires
            old(self).sound(),
            old(self).stream_start_produced,
            !old(self).stream_end_queued,
            !old(self).stream_end_produced,
            old(self).rdr.left() > 0,
        ensures
            fetch_agrees(
                r,
                final(self).state(),
                value_fetched(old(self).rdr.src@, old(self).state()),
            ),
            r is Ok ==> final(self).rdr.src == old(self).rdr.src,
            r is Ok ==> final(self).fetched_from(old(self)),
            r is Err ==> !old(self).simple_key.possible && !old(self).simple_key_allowed
                && r->Err_0.mark == old(self).rdr.mark,
    {
        let start_mark = self.rdr.mark;
        if self.simple_key.possible {
            let position = self.simple_key.position;
            let key_mark = self.simple_key.mark;
            self.insert_token(position, Token(key_mark, TokenType::Key));
            self.roll_indent(
                key_mark.col,
                Some(position),
                TokenType::BlockMappingStart,
                start_mark,
            );
            self.simple_key.possible = false;
            self.simple_key_allowed = false;
        } else {
            // the ':' follows a key that is not simple
            if !self.simple_key_allowed {
                return Err(
                    ScanError::new(start_mark, "mapping values are not allowed in this context"),
                );
            }
            self.roll_indent(start_mark.col, None, TokenType::BlockMappingStart, start_mark);
            self.simple_key_allowed = true;
        }
        self.rdr.skip();
        self.push_token(Token(start_mark, TokenType::Value));
        Ok(())
    }

    fn fetch_block_scalar(&mut self, literal: bool) -> (r: ScanResult)
        requires
            old(self).sound(),
            old(self).stream_start_produced,
            !old(self).stream_end_queued,
            !old(self).stream_end_produced,
            old(self).rdr.left() > 0,
        ensures
            fetch_agrees(
                r,
                final(self).state(),
                block_scalar_fetched(old(self).rdr.src@, old(self).state(), literal),
            ),
            r is Ok ==> final(self).rdr.src == old(self).rdr.src,
            r is Ok ==> final(self).fetched_from(old(self)),
    {
        self.save_simple_key();
        self.simple_key_allowed = true;
        let tok = scan_block_scalar(&mut self.rdr, literal, self.floor)?;
        self.push_token(tok);
        Ok(())
    }

    fn fetch_flow_scalar(&mut self, single: bool) -> (r: ScanResult)
        requires
            old(self).sound(),
            old(self).stream_start_produced,
            !old(self).stream_end_queued,
            !old(self).stream_end_produced,
            old(self).rdr.at(0) == (if single {
                '\''
            } else {
                '"'
            }),
        ensures
            fetch_agrees(
                r,
                final(self).state(),
                quoted_scalar_fetched(old(self).rdr.src@, old(self).state(), single),
            ),
            r is Ok ==> final(self).rdr.src == old(self).rdr.src,
            r is Ok ==> final(self).fetched_from(old(self)),
            r is Err ==> r->Err_0.mark == old(self).rdr.mark,
    {
        self.save_simple_key();
        self.simple_key_allowed = false;
        let tok = scan_flow_scalar(&mut self.rdr, single)?;
        self.push_token(tok);
        Ok(())
    }

    fn fetch_plain_scalar(&mut self) -> (r: ScanResult)
        requires
            old(self).sound(),
            old(self).stream_start_produced,
            !old(self).stream_end_queued,
            !old(self).stream_end_produced,
            plain_can_start(&old(self).rdr),
        ensures
            fetch_agrees(
                r,
                final(self).state(),
                plain_scalar_fetched(old(self).rdr.src@, old(self).state()),
            ),
            r is Ok ==> final(self).rdr.src == old(self).rdr.src,
            r is Ok ==> final(self).fetched_from(old(self)),
            r is Err ==> r->Err_0.mark == old(self).rdr.mark,
    {
        self.save_simple_key();
        self.simple_key_allowed = false;
        let (tok, after_break) = scan_plain_scalar(&mut self.rdr, self.floor)?;
        if after_break {
            self.simple_key_allowed = true;
        }
        self.push_token(tok);
        Ok(())
    }

    /// Makes the token, or the few tokens, that the next character asks for.
    fn fetch_token(&mut self) -> (r: ScanResult)
        requires
            old(self).sound(),
            old(self).stream_start_produced,
            !old(self).stream_end_queued,
            !old(self).stream_end_produced,
            !spec_is_blank(old(self).rdr.at(0)),
            !spec_is_break(old(self).rdr.at(0)),
            old(self).rdr.at(0) != '#',
        ensures
            fetch_agrees(
                r,
                final(self).state(),
                token_fetched(old(self).rdr.src@, old(self).state()),
            ),
            r is Ok ==> final(self).rdr.src == old(self).rdr.src,
            r is Ok ==> final(self).fetched_from(old(self)),
    {
        self.stale_simple_key();
        let col = self.rdr.mark.col;
        self.unroll_indent(col + 1);
        let c = self.rdr.ch();
        if is_z(c) {
            self.fetch_stream_end();
            return Ok(());
        }
        if col == 0 && c == '%' {
            return self.fetch_directive();
        }
        let nc = self.rdr.peek(1);
        if document_indicator_ahead(&self.rdr) {
            if c == '-' {
                self.fetch_document_indicator(TokenType::DocumentStart);
            } else {
                self.fetch_document_indicator(TokenType::DocumentEnd);
            }
            return Ok(());
        }
        if c == '-' && is_blankz(nc) {
            self.fetch_block_entry()
        } else if c == '?' && is_blankz(nc) {
            self.fetch_key()
        } else if c == ':' && is_blankz(nc) {
            self.fetch_value()
        } else if c == '|' {
            self.fetch_block_scalar(true)
        } else if c == '>' {
            self.fetch_block_scalar(false)
        } else if c == '\'' {
            self.fetch_flow_scalar(true)
        } else if c == '"' {
            self.fetch_flow_scalar(false)
        } else if c == '%' || c == '@' || c == '`' {
            let mut info = "unexpected character: `".to_owned();
            info.push(c);
            info.push('\'');
            Err(ScanError { mark: self.rdr.mark, info })
        } else {
            self.fetch_plain_scalar()
        }
    }

    /// Makes the next token, or the next few: the start of the stream first,
    /// the end of the stream at the end of the text, and between them what
    /// the next character asks for.
    fn fetch_next_token(&mut self) -> (r: ScanResult)
        requires
            old(self).sound(),
            !old(self).stream_end_queued,
            !old(self).stream_end_produced,
        ensures
            fetch_agrees(
                r,
                final(self).state(),
                next_fetched(old(self).rdr.src@, old(self).state()),
            ),
            r is Ok ==> final(self).rdr.src == old(self).rdr.src,
            r is Ok ==> final(self).fetched_from(old(self)),
            r is Ok && !old(self).stream_start_produced ==> final(self).tokens@.len() == 1
                && final(self).tokens@[0].1 is StreamStart && !final(self).simple_key.possible,
    {
        if !self.stream_start_produced {
            self.fetch_stream_start();
            return Ok(());
        }
        self.skip_to_next_token()?;
        self.fetch_token()
    }

    /// Makes tokens until the queue holds one that can be handed out: one
    /// before which no `Key` token can still be put.
    fn fetch_more_tokens(&mut self) -> (r: ScanResult)
        requires
            old(self).sound(),
            !old(self).stream_end_produced,
        ensures
            fetch_agrees(
                r,
                final(self).state(),
                more_fetched(old(self).rdr.src@, old(self).state()),
            ),
            r is Ok ==> final(self).rdr.src == old(self).rdr.src,
            r is Ok ==> final(self).sound()
                && final(self).error == old(self).error
                && final(self).budget() <= old(self).budget()
                && final(self).tokens@.len() > 0
                && (final(self).simple_key.possible ==> final(self).simple_key.position > 0)
                && !final(self).stream_end_produced,
            r is Ok && !old(self).stream_start_produced ==> final(self).tokens@[0].1 is StreamStart,
    {
        loop
            invariant
                self.sound(),
                self.error == old(self).error,
                !self.stream_end_produced,
                self.budget() <= old(self).budget(),
                !old(self).stream_start_produced ==> !self.stream_start_produced || (
                self.tokens@.len() == 1 && self.tokens@[0].1 is StreamStart
                    && !self.simple_key.possible),
                self.rdr.src == old(self).rdr.src,
                more_fetched(self.rdr.src@, self.state()) == more_fetched(
                    old(self).rdr.src@,
                    old(self).state(),
                ),
            ensures
                self.tokens@.len() > 0,
                self.simple_key.possible ==> self.simple_key.position > 0,
                more_fetched(old(self).rdr.src@, old(self).state()) == Fetched::Next(
                    self.state(),
                ),
            decreases self.budget(),
        {
            let mut need_more = false;
            if self.tokens.len() == 0 {
                need_more = true;
            } else {
                self.stale_simple_key();
                if self.simple_key.possible && self.simple_key.position == 0 {
                    need_more = true;
                }
            }
            if !need_more {
                break ;
            }
            self.fetch_next_token()?;
        }
        Ok(())
    }

    /// The next token; nothing once the end of the stream was handed out.
    fn next_token(&mut self) -> (r: Result<Option<Token>, ScanError>)
        requires
            old(self).sound(),
        ensures
            old(self).error is None ==> ({
                let next = scanned_next(old(self).rdr.src@, old(self).state());
                match r {
                    Ok(Some(t)) => next.1 == Some(lex_of(t)) && final(self).state() == next.0,
                    Ok(None) => next.1 is None && final(self).state() == next.0,
                    Err(e) => next.1 is None && next.0.failed == Some((e.mark, e.info@)),
                }
            }),
            r is Ok ==> final(self).rdr.src == old(self).rdr.src,
            r is Ok ==> final(self).sound() && final(self).error == old(self).error,
            r is Ok
                && r->Ok_0 is None ==> old(self).stream_end_produced
                && *final(self) == *old(self),
            r is Ok && r->Ok_0 is Some ==> !old(self).stream_end_produced && final(self).budget()
                < old(self).budget()
                    && final(self).stream_start_produced
                    && final(self).stream_end_produced == ((r->Ok_0->0).1 is StreamEnd),
            r is Ok
                && r->Ok_0 is Some
                && !old(self).stream_start_produced ==> (r->Ok_0->0).1 is StreamStart,
    {
        reveal(scanned_next);
        if self.stream_end_produced {
            return Ok(None);
        }
        self.fetch_more_tokens()?;
        let ghost first = self.tokens@[0];
        let ghost queue = self.tokens@;
        let t = self.tokens.remove(0);
        assert(t == first);
        assert(lexes(self.tokens@) =~= lexes(queue).drop_first());
        assert(lexes(queue)[0] == lex_of(t));
        if self.simple_key.possible {
            self.simple_key.position = self.simple_key.position - 1;
        }
        if let TokenType::StreamEnd = t.1 {
            self.stream_end_produced = true;
        }
        Ok(Some(t))
    }

    /// The next token.  Nothing comes after the end of the stream, nor after
    /// an error, which `get_error` then gives.
    pub fn next(&mut self) -> (r: Option<Token>)
        requires
            old(self).wf(),
        ensures
            ({
                let next = scanned_next(old(self).rdr.src@, old(self).state());
                &&& match r {
                    Some(t) => next.1 == Some(lex_of(t)),
                    None => next.1 is None,
                }
                &&& final(self).state().failed == next.0.failed
                &&& next.0.failed is None ==> final(self).state() == next.0
            }),
            final(self).error is None ==> final(self).rdr.src == old(self).rdr.src,
            final(self).wf(),
            r is Some ==> final(self).budget() < old(self).budget() && final(self).error is None
                && final(self).stream_start_produced && final(self).stream_end_produced == (
            (r->0).1 is StreamEnd),
            r is Some && !old(self).stream_start_produced ==> (r->0).1 is StreamStart,
            r is None ==> final(self).error is Some
                || (old(self).stream_end_produced && *final(self) == *old(self)),
            old(self).error is Some ==> r is None && *final(self) == *old(self),
    {
        reveal(scanned_next);
        if self.error.is_some() {
            return None;
        }
        match self.next_token() {
            Ok(tok) => tok,
            Err(e) => {
                self.error = Some(e);
                None
            },
        }
    }
}

} // verus!
