use vstd::prelude::*;
use vstd::string::StringExecFns;
use crate::chars::{
    as_hex, digit_value, is_blank, is_blankz, is_break, is_breakz, is_digit, is_hex, is_z,
};
use crate::chars::{
    spec_is_blank, spec_is_blankz, spec_is_break, spec_is_breakz, spec_is_digit, spec_is_hex,
    spec_is_z,
};
use crate::marker::{Marker, ScanError};
use crate::reader::{line_end, past_blanks, past_break, past_one, Reader, Scan};
use crate::directives::{skip_blanks, skip_to_line_end};
use crate::token::{TScalarStyle, Token, TokenType};

verus! {

/// `---` or `...` stands at `m`, at the start of a line, and ends the line
/// or stands before a blank.
pub open spec fn indicator_at(src: Seq<char>, m: Marker) -> bool {
    &&& m.col == 0
    &&& (src[m.index as int] == '-' && src[m.index + 1] == '-' && src[m.index + 2] == '-') || (
    src[m.index as int] == '.' && src[m.index + 1] == '.' && src[m.index + 2] == '.')
    &&& spec_is_blankz(src[m.index + 3])
}

/// `---` or `...` stands at the start of a line and ends there or before a blank.
pub open spec fn at_document_indicator(rdr: &Reader) -> bool {
    indicator_at(rdr.src@, rdr.mark)
}

/// Whether `---` or `...` stands next, at the start of a line and before a
/// blank or the end of the line.
pub fn document_indicator_ahead(rdr: &Reader) -> (b: bool)
    requires
        rdr.wf(),
    ensures
        b == at_document_indicator(rdr),
{
    rdr.mark.col == 0 && ((rdr.ch() == '-' && rdr.peek(1) == '-' && rdr.peek(2) == '-') || (
    rdr.ch() == '.' && rdr.peek(1) == '.' && rdr.peek(2) == '.')) && is_blankz(rdr.peek(3))
}

/// A plain scalar can begin here: with a character that is no blank, no
/// line break and no comment sign, that is no `:` before a blank, and that
/// starts no document indicator.
pub open spec fn plain_can_start(rdr: &Reader) -> bool {
    &&& !spec_is_blankz(rdr.at(0))
    &&& rdr.at(0) != '#'
    &&& !(rdr.at(0) == ':' && spec_is_blankz(rdr.at(1)))
    &&& !at_document_indicator(rdr)
}

/// The token is a scalar of the given style that starts at `start`.
pub open spec fn is_scalar_at(tok: Token, start: Marker, style: TScalarStyle) -> bool {
    tok.0 == start && tok.1 is Scalar && tok.1->Scalar_0 == style
}

/// What a run of folded line breaks adds to a scalar: a space for a single
/// break, else the breaks after the first.
fn fold_breaks(string: &mut String, trailing_breaks: &String)
    ensures
        final(string)@ == old(string)@ + (if trailing_breaks@.len() == 0 {
            seq![' ']
        } else {
            trailing_breaks@
        }),
{
    if trailing_breaks.as_str().is_empty() {
        assert(trailing_breaks@.len() == 0);
        string.push(' ');
        assert(string@ =~= old(string)@ + seq![' ']);
    } else {
        assert(trailing_breaks@.len() != 0);
        string.append(trailing_breaks.as_str());
    }
}

/// What a run of folded line breaks adds to a scalar: a space for a single
/// break, else the breaks after the first.
pub open spec fn folded(trailing: Seq<char>) -> Seq<char> {
    if trailing.len() == 0 {
        seq![' ']
    } else {
        trailing
    }
}

/// A flow of text that is being read: where the reader is, the text so far,
/// the line breaks after the first and the blanks that were read since the
/// last word, and whether a line break was read since then.
pub struct Flow {
    pub m: Marker,
    pub text: Seq<char>,
    pub trailing: Seq<char>,
    pub white: Seq<char>,
    pub broke: bool,
}

/// The flow after the word at its position: what goes up to a blank, a line
/// break, the end of the text, or a `:` before one of these.  Before the
/// word come the blanks that were read, or the line breaks, folded.
pub open spec fn plain_words(src: Seq<char>, p: Flow) -> Flow
    decreases src.len() - p.m.index,
{
    let c = src[p.m.index as int];
    if !(p.m.index + 1 < src.len() <= usize::MAX) || spec_is_blankz(c) || (c == ':'
        && spec_is_blankz(src[p.m.index + 1])) {
        p
    } else {
        let text = if p.broke {
            p.text + folded(p.trailing)
        } else {
            p.text + p.white
        };
        plain_words(
            src,
            Flow {
                m: past_one(src, p.m),
                text: text.push(c),
                trailing: if p.broke {
                    Seq::empty()
                } else {
                    p.trailing
                },
                white: if p.broke {
                    p.white
                } else {
                    Seq::empty()
                },
                broke: false,
            },
        )
    }
}

/// The flow after the blanks and line breaks at its position.  After a line
/// break, a tab before the column `floor` is an error.
pub open spec fn plain_blanks(src: Seq<char>, p: Flow, floor: usize, start: Marker) -> Scan<Flow>
    decreases src.len() - p.m.index,
{
    let c = src[p.m.index as int];
    if !(p.m.index + 1 < src.len() <= usize::MAX) {
        Scan::Done { mark: p.m, value: p }
    } else if spec_is_blank(c) {
        if p.broke && p.m.col < floor && c == '\t' {
            Scan::Fail { mark: start, info: "while scanning a plain scalar, found a tab"@ }
        } else {
            plain_blanks(
                src,
                Flow {
                    m: past_one(src, p.m),
                    white: if p.broke {
                        p.white
                    } else {
                        p.white.push(c)
                    },
                    ..p
                },
                floor,
                start,
            )
        }
    } else if spec_is_break(c) && p.m.index < past_break(src, p.m).index <= src.len() {
        if p.broke {
            plain_blanks(
                src,
                Flow { m: past_break(src, p.m), trailing: p.trailing.push('\n'), ..p },
                floor,
                start,
            )
        } else {
            plain_blanks(
                src,
                Flow { m: past_break(src, p.m), white: Seq::empty(), broke: true, ..p },
                floor,
                start,
            )
        }
    } else {
        Scan::Done { mark: p.m, value: p }
    }
}

/// The text of a plain scalar that goes on from the flow `p`, and whether
/// it ends after a line break.  The scalar ends before a document indicator,
/// before a comment, after a word that no blank follows, and before a line
/// that begins left of the column `floor`.
pub open spec fn plain_lines(src: Seq<char>, p: Flow, floor: usize, start: Marker) -> Scan<
    (Seq<char>, bool),
>
    decreases src.len() - p.m.index,
{
    if indicator_at(src, p.m) || src[p.m.index as int] == '#' {
        Scan::Done { mark: p.m, value: (p.text, p.broke) }
    } else {
        let w = plain_words(src, p);
        let c = src[w.m.index as int];
        if !(spec_is_blank(c) || spec_is_break(c)) {
            Scan::Done { mark: w.m, value: (w.text, w.broke) }
        } else {
            match plain_blanks(src, w, floor, start) {
                Scan::Fail { mark, info } => Scan::Fail { mark, info },
                Scan::Done { mark, value: b } => if b.m.col < floor || !(p.m.index < b.m.index
                    <= src.len()) {
                    Scan::Done { mark: b.m, value: (b.text, b.broke) }
                } else {
                    plain_lines(src, b, floor, start)
                },
            }
        }
    }
}

/// The plain scalar at `m`.
pub open spec fn plain_scalar(src: Seq<char>, m: Marker, floor: usize) -> Scan<(Seq<char>, bool)> {
    plain_lines(
        src,
        Flow { m, text: Seq::empty(), trailing: Seq::empty(), white: Seq::empty(), broke: false },
        floor,
        m,
    )
}

/// Reads a plain scalar.  `floor` is the least column at which a line may
/// continue it.  Also tells whether the scalar ended after a line break.
pub fn scan_plain_scalar(rdr: &mut Reader, floor: usize) -> (r: Result<(Token, bool), ScanError>)
    requires
        old(rdr).wf(),
        plain_can_start(old(rdr)),
    ensures
        match plain_scalar(old(rdr).src@, old(rdr).mark, floor) {
            Scan::Done { mark, value } => r is Ok && final(rdr).mark == mark && r->Ok_0.0
                == Token(
                old(rdr).mark,
                TokenType::Scalar(TScalarStyle::Plain, r->Ok_0.0.1->Scalar_1),
            ) && r->Ok_0.0.1->Scalar_1@ == value.0 && r->Ok_0.1 == value.1,
            Scan::Fail { mark, info } => r is Err && r->Err_0.mark == mark && r->Err_0.info@
                == info,
        },
        final(rdr).follows(old(rdr)),
        r is Ok ==> final(rdr).mark.index > old(rdr).mark.index && is_scalar_at(
            r->Ok_0.0,
            old(rdr).mark,
            TScalarStyle::Plain,
        ),
        r is Err ==> r->Err_0.mark == old(rdr).mark,
{
    let start_mark = rdr.mark;
    let mut string = String::new();
    let mut trailing_breaks = String::new();
    let mut whitespaces = String::new();
    let mut leading_blanks = false;
    let ghost goal = plain_scalar(rdr.src@, rdr.mark, floor);

    loop
        invariant_except_break
            rdr.mark.index > start_mark.index || (rdr.mark == start_mark && plain_can_start(rdr)),
            goal == plain_lines(
                rdr.src@,
                Flow {
                    m: rdr.mark,
                    text: string@,
                    trailing: trailing_breaks@,
                    white: whitespaces@,
                    broke: leading_blanks,
                },
                floor,
                start_mark,
            ),
        invariant
            rdr.follows(old(rdr)),
            start_mark == old(rdr).mark,
            goal == plain_scalar(old(rdr).src@, old(rdr).mark, floor),
        ensures
            rdr.mark.index > start_mark.index,
            goal == (Scan::Done { mark: rdr.mark, value: (string@, leading_blanks) }),
        decreases rdr.left(),
    {
        let ghost entry = rdr.mark.index;
        let ghost p = Flow {
            m: rdr.mark,
            text: string@,
            trailing: trailing_breaks@,
            white: whitespaces@,
            broke: leading_blanks,
        };
        if document_indicator_ahead(rdr) {
            break ;
        }
        if rdr.ch() == '#' {
            break ;
        }
        let ghost w = plain_words(rdr.src@, p);
        loop
            invariant
                rdr.follows(old(rdr)),
                rdr.mark.index >= entry,
                w == plain_words(
                    rdr.src@,
                    Flow {
                        m: rdr.mark,
                        text: string@,
                        trailing: trailing_breaks@,
                        white: whitespaces@,
                        broke: leading_blanks,
                    },
                ),
            ensures
                rdr.mark.index > entry || spec_is_blankz(rdr.at(0)) || (rdr.at(0) == ':'
                    && spec_is_blankz(rdr.at(1))),
                w == (Flow {
                    m: rdr.mark,
                    text: string@,
                    trailing: trailing_breaks@,
                    white: whitespaces@,
                    broke: leading_blanks,
                }),
            decreases rdr.left(),
        {
            let c = rdr.ch();
            if is_blankz(c) {
                break ;
            }
            if c == ':' && is_blankz(rdr.peek(1)) {
                break ;
            }
            if leading_blanks {
                fold_breaks(&mut string, &trailing_breaks);
                trailing_breaks = String::new();
                leading_blanks = false;
            } else if !whitespaces.as_str().is_empty() {
                string.append(whitespaces.as_str());
                whitespaces = String::new();
            } else {
                assert(string@ + whitespaces@ =~= string@);
                assert(whitespaces@ =~= Seq::<char>::empty());
            }
            string.push(c);
            rdr.skip();
        }
        let c = rdr.ch();
        if !(is_blank(c) || is_break(c)) {
            break ;
        }
        let ghost b = plain_blanks(rdr.src@, w, floor, start_mark);
        loop
            invariant_except_break
                rdr.mark.index > entry || spec_is_blank(rdr.at(0)) || spec_is_break(rdr.at(0)),
            invariant
                rdr.follows(old(rdr)),
                rdr.mark.index >= entry,
                start_mark == old(rdr).mark,
                goal == plain_scalar(old(rdr).src@, old(rdr).mark, floor),
                goal == match b {
                    Scan::Fail { mark, info } => Scan::Fail { mark, info },
                    Scan::Done { mark, value } => if value.m.col < floor || !(entry < value.m.index
                        <= rdr.src@.len()) {
                        Scan::Done { mark: value.m, value: (value.text, value.broke) }
                    } else {
                        plain_lines(rdr.src@, value, floor, start_mark)
                    },
                },
                b == plain_blanks(
                    rdr.src@,
                    Flow {
                        m: rdr.mark,
                        text: string@,
                        trailing: trailing_breaks@,
                        white: whitespaces@,
                        broke: leading_blanks,
                    },
                    floor,
                    start_mark,
                ),
            ensures
                rdr.mark.index > entry,
                b == (Scan::Done {
                    mark: rdr.mark,
                    value: Flow {
                        m: rdr.mark,
                        text: string@,
                        trailing: trailing_breaks@,
                        white: whitespaces@,
                        broke: leading_blanks,
                    },
                }),
            decreases rdr.left(),
        {
            let c = rdr.ch();
            if is_blank(c) {
                if leading_blanks && rdr.mark.col < floor && c == '\t' {
                    assert(b is Fail);
                    return Err(
                        ScanError::new(start_mark, "while scanning a plain scalar, found a tab"),
                    );
                }
                if !leading_blanks {
                    whitespaces.push(c);
                }
                rdr.skip();
            } else if is_break(c) {
                if leading_blanks {
                    rdr.read_break(&mut trailing_breaks);
                } else {
                    whitespaces = String::new();
                    rdr.skip_line();
                    leading_blanks = true;
                }
            } else {
                break ;
            }
        }
        if rdr.mark.col < floor {
            break ;
        }
    }
    Ok((Token(start_mark, TokenType::Scalar(TScalarStyle::Plain, string)), leading_blanks))
}

/// Whether `code` is a Unicode scalar value: a code point that is no surrogate.
pub open spec fn is_scalar_value(code: u32) -> bool {
    code <= 0xD7FF || (0xE000 <= code <= 0x10FFFF)
}

/// `char::from_u32` of std: the character with the code `i`, where `i` is a
/// Unicode scalar value, and nothing otherwise.
pub assume_specification[ char::from_u32 ](i: u32) -> (r: Option<char>)
    ensures
        is_scalar_value(i) ==> r == Some(i as char),
        !is_scalar_value(i) ==> r is None,
;

/// What a backslash and the character `c` stand for in a double-quoted
/// scalar, where that is a single character.
pub open spec fn simple_escape(c: char) -> Option<char> {
    if c == '0' {
        Some('\0')
    } else if c == 'a' {
        Some('\x07')
    } else if c == 'b' {
        Some('\x08')
    } else if c == 't' || c == '\t' {
        Some('\t')
    } else if c == 'n' {
        Some('\n')
    } else if c == 'v' {
        Some('\x0b')
    } else if c == 'f' {
        Some('\x0c')
    } else if c == 'r' {
        Some('\r')
    } else if c == 'e' {
        Some('\x1b')
    } else if c == ' ' {
        Some(' ')
    } else if c == '"' {
        Some('"')
    } else if c == '\'' {
        Some('\'')
    } else if c == '/' {
        Some('/')
    } else if c == '\\' {
        Some('\\')
    } else if c == 'N' {
        Some('\u{85}')
    } else if c == '_' {
        Some('\u{a0}')
    } else if c == 'L' {
        Some('\u{2028}')
    } else if c == 'P' {
        Some('\u{2029}')
    } else {
        None
    }
}

/// The number of hexadecimal digits that follow `\x`, `\u` and `\U`; 0 for any other character.
pub open spec fn escape_digits(c: char) -> nat {
    if c == 'x' {
        2
    } else if c == 'u' {
        4
    } else if c == 'U' {
        8
    } else {
        0
    }
}

/// What a backslash and `c` stand for, where that is a single character.
pub fn escape_of(c: char) -> (r: Option<char>)
    ensures
        r == simple_escape(c),
{
    if c == '0' {
        Some('\0')
    } else if c == 'a' {
        Some('\x07')
    } else if c == 'b' {
        Some('\x08')
    } else if c == 't' || c == '\t' {
        Some('\t')
    } else if c == 'n' {
        Some('\n')
    } else if c == 'v' {
        Some('\x0b')
    } else if c == 'f' {
        Some('\x0c')
    } else if c == 'r' {
        Some('\r')
    } else if c == 'e' {
        Some('\x1b')
    } else if c == ' ' {
        Some(' ')
    } else if c == '"' {
        Some('"')
    } else if c == '\'' {
        Some('\'')
    } else if c == '/' {
        Some('/')
    } else if c == '\\' {
        Some('\\')
    } else if c == 'N' {
        Some('\u{85}')
    } else if c == '_' {
        Some('\u{a0}')
    } else if c == 'L' {
        Some('\u{2028}')
    } else if c == 'P' {
        Some('\u{2029}')
    } else {
        None
    }
}

/// The number that the hexadecimal digits `digits` write.
pub open spec fn hex_number(digits: Seq<char>) -> nat
    decreases digits.len(),
{
    if digits.len() == 0 {
        0
    } else {
        (hex_number(digits.drop_last()) * 16 + crate::chars::spec_as_hex(digits.last())) as nat
    }
}

/// The number that `left` hexadecimal digits at `m` write after the digits
/// that gave `value`.
pub open spec fn hex_tail(src: Seq<char>, m: Marker, start: Marker, left: nat, value: u32) -> Scan<
    u32,
>
    decreases left,
{
    if left == 0 {
        Scan::Done { mark: m, value }
    } else if !spec_is_hex(src[m.index as int]) {
        Scan::Fail {
            mark: start,
            info: "while parsing a quoted scalar, did not find expected hexadecimal number"@,
        }
    } else {
        hex_tail(
            src,
            past_one(src, m),
            start,
            (left - 1) as nat,
            (value * 16 + crate::chars::spec_as_hex(src[m.index as int])) as u32,
        )
    }
}

/// The character whose code `count` hexadecimal digits at `m` write.
pub open spec fn hex_escape(src: Seq<char>, m: Marker, count: nat, start: Marker) -> Scan<char> {
    match hex_tail(src, m, start, count, 0) {
        Scan::Fail { mark, info } => Scan::Fail { mark, info },
        Scan::Done { mark, value } => if is_scalar_value(value) {
            Scan::Done { mark, value: value as char }
        } else {
            Scan::Fail {
                mark: start,
                info: "while parsing a quoted scalar, found invalid Unicode character escape code"@,
            }
        },
    }
}

/// Reads `count` hexadecimal digits and gives the character with that code.
pub fn scan_hex_escape(rdr: &mut Reader, count: usize, start_mark: Marker) -> (r: Result<
    char,
    ScanError,
>)
    requires
        old(rdr).wf(),
        count <= 8,
    ensures
        match hex_escape(old(rdr).src@, old(rdr).mark, count as nat, start_mark) {
            Scan::Done { mark, value } => r is Ok && final(rdr).mark == mark && r->Ok_0 == value,
            Scan::Fail { mark, info } => r is Err && r->Err_0.mark == mark && r->Err_0.info@
                == info,
        },
        final(rdr).follows(old(rdr)),
        r is Ok ==> final(rdr).mark.index == old(rdr).mark.index + count,
        r is Ok ==> r->Ok_0 as nat == hex_number(
            old(rdr).src@.subrange(
                old(rdr).mark.index as int,
                old(rdr).mark.index as int + count as int,
            ),
        ),
        r is Err ==> r->Err_0.mark == start_mark,
{
    let mut value: u32 = 0;
    let mut i: usize = 0;
    let ghost from = rdr.mark.index as int;
    let ghost goal = hex_tail(rdr.src@, rdr.mark, start_mark, count as nat, 0);
    while i < count
        invariant
            rdr.follows(old(rdr)),
            goal == hex_tail(old(rdr).src@, old(rdr).mark, start_mark, count as nat, 0),
            goal == hex_tail(rdr.src@, rdr.mark, start_mark, (count - i) as nat, value),
            i <= count <= 8,
            from == old(rdr).mark.index,
            rdr.mark.index == from + i,
            value as nat == hex_number(rdr.src@.subrange(from, from + i as int)),
            value < hex_bound(i as nat),
        decreases count - i,
    {
        let c = rdr.ch();
        if !is_hex(c) {
            return Err(
                ScanError::new(
                    start_mark,
                    "while parsing a quoted scalar, did not find expected hexadecimal number",
                ),
            );
        }
        proof {
            let done = rdr.src@.subrange(from, from + i as int);
            let more = rdr.src@.subrange(from, from + i as int + 1);
            assert(more.drop_last() =~= done);
            assert(more.last() == c);
        }
        value = value * 16 + as_hex(c);
        rdr.skip();
        i += 1;
    }
    match char::from_u32(value) {
        Some(v) => Ok(v),
        None => Err(
            ScanError::new(
                start_mark,
                "while parsing a quoted scalar, found invalid Unicode character escape code",
            ),
        ),
    }
}

/// The quote that ends a quoted scalar.
pub open spec fn quote_of(single: bool) -> char {
    if single {
        '\''
    } else {
        '"'
    }
}

/// The text of a quoted scalar after the word at `m`, and whether the word
/// ends with a line break that a backslash hides.  In a single-quoted scalar
/// a quote written twice is one quote; in a double-quoted scalar a backslash
/// begins an escape.
pub open spec fn quoted_words(
    src: Seq<char>,
    m: Marker,
    text: Seq<char>,
    single: bool,
    start: Marker,
) -> Scan<(Seq<char>, bool)>
    decreases src.len() - m.index,
{
    let c = src[m.index as int];
    let next = src[m.index + 1];
    if !(m.index + 2 < src.len() <= usize::MAX) || spec_is_blankz(c) {
        Scan::Done { mark: m, value: (text, false) }
    } else if single && c == '\'' && next == '\'' {
        quoted_words(src, past_one(src, past_one(src, m)), text.push('\''), single, start)
    } else if c == quote_of(single) {
        Scan::Done { mark: m, value: (text, false) }
    } else if !single && c == '\\' && spec_is_break(next) {
        Scan::Done { mark: past_break(src, past_one(src, m)), value: (text, true) }
    } else if !single && c == '\\' {
        match simple_escape(next) {
            Some(e) => quoted_words(
                src,
                past_one(src, past_one(src, m)),
                text.push(e),
                single,
                start,
            ),
            None => if escape_digits(next) == 0 {
                Scan::Fail {
                    mark: start,
                    info: "while parsing a quoted scalar, found unknown escape character"@,
                }
            } else {
                match hex_escape(
                    src,
                    past_one(src, past_one(src, m)),
                    escape_digits(next),
                    start,
                ) {
                    Scan::Fail { mark, info } => Scan::Fail { mark, info },
                    Scan::Done { mark, value } => if m.index < mark.index <= src.len() {
                        quoted_words(src, mark, text.push(value), single, start)
                    } else {
                        Scan::Done { mark, value: (text, false) }
                    },
                }
            },
        }
    } else {
        quoted_words(src, past_one(src, m), text.push(c), single, start)
    }
}

/// The flow after the blanks and line breaks at its position, and whether a
/// line break was read that no backslash hides.
pub open spec fn quoted_blanks(src: Seq<char>, p: Flow, first: bool) -> (Flow, bool)
    decreases src.len() - p.m.index,
{
    let c = src[p.m.index as int];
    if !(p.m.index + 1 < src.len() <= usize::MAX) {
        (p, first)
    } else if spec_is_blank(c) {
        quoted_blanks(
            src,
            Flow {
                m: past_one(src, p.m),
                white: if p.broke {
                    p.white
                } else {
                    p.white.push(c)
                },
                ..p
            },
            first,
        )
    } else if spec_is_break(c) && p.m.index < past_break(src, p.m).index <= src.len() {
        if p.broke {
            quoted_blanks(
                src,
                Flow { m: past_break(src, p.m), trailing: p.trailing.push('\n'), ..p },
                first,
            )
        } else {
            quoted_blanks(
                src,
                Flow { m: past_break(src, p.m), white: Seq::empty(), broke: true, ..p },
                true,
            )
        }
    } else {
        (p, first)
    }
}

/// The text after blanks and line breaks were read: blanks are kept, and
/// line breaks are folded, but for the one that a backslash hides.
pub open spec fn joined(b: (Flow, bool)) -> Seq<char> {
    if b.0.broke {
        if b.1 {
            b.0.text + folded(b.0.trailing)
        } else {
            b.0.text + b.0.trailing
        }
    } else {
        b.0.text + b.0.white
    }
}

/// How a quoted scalar goes on after the word that began at `from`.
pub open spec fn quoted_after_words(
    src: Seq<char>,
    from: Marker,
    w: Scan<(Seq<char>, bool)>,
    single: bool,
    start: Marker,
) -> Scan<Seq<char>>
    decreases src.len() - from.index, 0nat,
{
    match w {
        Scan::Fail { mark, info } => Scan::Fail { mark, info },
        Scan::Done { mark, value } => if src[mark.index as int] == quote_of(single) {
            Scan::Done { mark: past_one(src, mark), value: value.0 }
        } else {
            let b = quoted_blanks(
                src,
                Flow {
                    m: mark,
                    text: value.0,
                    trailing: Seq::empty(),
                    white: Seq::empty(),
                    broke: value.1,
                },
                false,
            );
            if from.index < b.0.m.index <= src.len() {
                quoted_lines(src, b.0.m, joined(b), single, start)
            } else {
                Scan::Done { mark: b.0.m, value: joined(b) }
            }
        },
    }
}

/// The text of a quoted scalar that goes on at `m` after `text`, up to its
/// right quote.  A document indicator or the end of the text before the
/// quote is an error.
pub open spec fn quoted_lines(
    src: Seq<char>,
    m: Marker,
    text: Seq<char>,
    single: bool,
    start: Marker,
) -> Scan<Seq<char>>
    decreases src.len() - m.index, 1nat,
{
    if indicator_at(src, m) {
        Scan::Fail {
            mark: start,
            info: "while scanning a quoted scalar, found unexpected document indicator"@,
        }
    } else if src[m.index as int] == '\0' {
        Scan::Fail {
            mark: start,
            info: "while scanning a quoted scalar, found unexpected end of stream"@,
        }
    } else {
        quoted_after_words(src, m, quoted_words(src, m, text, single, start), single, start)
    }
}

/// The quoted scalar whose left quote is at `m`.
pub open spec fn quoted_scalar(src: Seq<char>, m: Marker, single: bool) -> Scan<Seq<char>> {
    quoted_lines(src, past_one(src, m), Seq::empty(), single, m)
}

/// Reads a single-quoted or a double-quoted scalar, from its left quote to
/// its right quote.
pub fn scan_flow_scalar(rdr: &mut Reader, single: bool) -> (r: Result<Token, ScanError>)
    requires
        old(rdr).wf(),
        old(rdr).at(0) == quote_of(single),
    ensures
        match quoted_scalar(old(rdr).src@, old(rdr).mark, single) {
            Scan::Done { mark, value } => r is Ok && final(rdr).mark == mark && r->Ok_0 == Token(
                old(rdr).mark,
                TokenType::Scalar(
                    if single {
                        TScalarStyle::SingleQuoted
                    } else {
                        TScalarStyle::DoubleQuoted
                    },
                    r->Ok_0.1->Scalar_1,
                ),
            ) && r->Ok_0.1->Scalar_1@ == value,
            Scan::Fail { mark, info } => r is Err && r->Err_0.mark == mark && r->Err_0.info@
                == info,
        },
        final(rdr).follows(old(rdr)),
        r is Ok ==> final(rdr).mark.index > old(rdr).mark.index && is_scalar_at(
            r->Ok_0,
            old(rdr).mark,
            if single {
                TScalarStyle::SingleQuoted
            } else {
                TScalarStyle::DoubleQuoted
            },
        ),
        r is Err ==> r->Err_0.mark == old(rdr).mark,
{
    let start_mark = rdr.mark;
    let quote = if single {
        '\''
    } else {
        '"'
    };
    let mut string = String::new();
    let mut trailing_breaks = String::new();
    let mut whitespaces = String::new();
    let ghost goal = quoted_scalar(rdr.src@, rdr.mark, single);

    // the left quote
    rdr.skip();

    loop
        invariant_except_break
            goal == quoted_lines(rdr.src@, rdr.mark, string@, single, start_mark),
        invariant
            rdr.follows(old(rdr)),
            rdr.mark.index > start_mark.index,
            start_mark == old(rdr).mark,
            quote == quote_of(single),
            goal == quoted_scalar(old(rdr).src@, old(rdr).mark, single),
            trailing_breaks@ == Seq::<char>::empty(),
            whitespaces@ == Seq::<char>::empty(),
        ensures
            rdr.at(0) == quote,
            goal == (Scan::Done { mark: past_one(rdr.src@, rdr.mark), value: string@ }),
        decreases rdr.left(),
    {
        let ghost entry = rdr.mark;
        if document_indicator_ahead(rdr) {
            return Err(
                ScanError::new(
                    start_mark,
                    "while scanning a quoted scalar, found unexpected document indicator",
                ),
            );
        }
        if is_z(rdr.ch()) {
            return Err(
                ScanError::new(
                    start_mark,
                    "while scanning a quoted scalar, found unexpected end of stream",
                ),
            );
        }
        let mut leading_blanks = false;
        // a line break was read that no backslash hides
        let mut leading_break = false;
        let ghost w = quoted_words(rdr.src@, rdr.mark, string@, single, start_mark);
        // what is no blank
        loop
            invariant_except_break
                w == quoted_words(rdr.src@, rdr.mark, string@, single, start_mark),
                !leading_blanks,
            invariant
                rdr.follows(old(rdr)),
                rdr.mark.index >= entry.index,
                start_mark == old(rdr).mark,
                quote == quote_of(single),
                goal == quoted_scalar(old(rdr).src@, old(rdr).mark, single),
                goal == quoted_after_words(rdr.src@, entry, w, single, start_mark),
            ensures
                rdr.mark.index > entry.index || spec_is_blankz(rdr.at(0)) || rdr.at(0) == quote,
                w == (Scan::Done { mark: rdr.mark, value: (string@, leading_blanks) }),
            decreases rdr.left(),
        {
            let c = rdr.ch();
            if is_blankz(c) {
                break ;
            }
            let next = rdr.peek(1);
            if single && c == '\'' && next == '\'' {
                // a quote written twice is one quote
                string.push('\'');
                rdr.skip();
                rdr.skip();
            } else if c == quote {
                break ;
            } else if !single && c == '\\' && is_break(next) {
                // a backslash before a line break joins the lines
                rdr.skip();
                rdr.skip_line();
                leading_blanks = true;
                break ;
            } else if !single && c == '\\' {
                match escape_of(next) {
                    Some(e) => {
                        string.push(e);
                        rdr.skip();
                        rdr.skip();
                    },
                    None => {
                        let count: usize = if next == 'x' {
                            2
                        } else if next == 'u' {
                            4
                        } else if next == 'U' {
                            8
                        } else {
                            0
                        };
                        if count == 0 {
                            return Err(
                                ScanError::new(
                                    start_mark,
                                    "while parsing a quoted scalar, found unknown escape character",
                                ),
                            );
                        }
                        rdr.skip();
                        rdr.skip();
                        match scan_hex_escape(rdr, count, start_mark) {
                            Ok(e) => {
                                string.push(e);
                            },
                            Err(e) => {
                                return Err(e);
                            },
                        }
                    },
                }
            } else {
                string.push(c);
                rdr.skip();
            }
        }
        if rdr.ch() == quote {
            break ;
        }
        let ghost b = quoted_blanks(
            rdr.src@,
            Flow {
                m: rdr.mark,
                text: string@,
                trailing: Seq::empty(),
                white: Seq::empty(),
                broke: leading_blanks,
            },
            false,
        );
        // blanks and line breaks
        loop
            invariant_except_break
                rdr.mark.index > entry.index || spec_is_blank(rdr.at(0)) || spec_is_break(
                    rdr.at(0),
                ),
            invariant
                rdr.follows(old(rdr)),
                rdr.mark.index >= entry.index,
                b == quoted_blanks(
                    rdr.src@,
                    Flow {
                        m: rdr.mark,
                        text: string@,
                        trailing: trailing_breaks@,
                        white: whitespaces@,
                        broke: leading_blanks,
                    },
                    leading_break,
                ),
            ensures
                rdr.mark.index > entry.index,
                b == (
                    Flow {
                        m: rdr.mark,
                        text: string@,
                        trailing: trailing_breaks@,
                        white: whitespaces@,
                        broke: leading_blanks,
                    },
                    leading_break,
                ),
            decreases rdr.left(),
        {
            let c = rdr.ch();
            if is_blank(c) {
                if !leading_blanks {
                    whitespaces.push(c);
                }
                rdr.skip();
            } else if is_break(c) {
                if leading_blanks {
                    rdr.read_break(&mut trailing_breaks);
                } else {
                    whitespaces = String::new();
                    rdr.skip_line();
                    leading_blanks = true;
                    leading_break = true;
                }
            } else {
                break ;
            }
        }
        // join the blanks, or fold the line breaks
        if leading_blanks {
            if leading_break {
                fold_breaks(&mut string, &trailing_breaks);
            } else {
                string.append(trailing_breaks.as_str());
            }
        } else {
            string.append(whitespaces.as_str());
        }
        trailing_breaks = String::new();
        whitespaces = String::new();
    }
    // the right quote
    rdr.skip();
    let style = if single {
        TScalarStyle::SingleQuoted
    } else {
        TScalarStyle::DoubleQuoted
    };
    Ok(Token(start_mark, TokenType::Scalar(style, string)))
}

/// The position after the spaces at `m` that indent a line of a block
/// scalar: all of them where the indentation is not known yet (`indent` is
/// 0), else those before the column `indent`.
pub open spec fn past_indent(src: Seq<char>, m: Marker, indent: usize) -> Marker
    decreases src.len() - m.index,
{
    if m.index + 1 < src.len() <= usize::MAX
        && (indent == 0 || m.col < indent)
        && src[m.index as int]
        == ' ' {
        past_indent(src, past_one(src, m), indent)
    } else {
        m
    }
}

/// The line breaks at `m` before the next line of a block scalar that has
/// text, after the breaks `breaks`; and the deepest indentation of the lines
/// read over, at least `deepest`.  A tab where indentation is expected is an error.
pub open spec fn block_breaks(
    src: Seq<char>,
    m: Marker,
    indent: usize,
    breaks: Seq<char>,
    deepest: usize,
) -> Scan<(Seq<char>, usize)>
    decreases src.len() - m.index,
{
    let at = past_indent(src, m, indent);
    let deepest = if at.col > deepest {
        at.col
    } else {
        deepest
    };
    if (indent == 0 || at.col < indent) && src[at.index as int] == '\t' {
        Scan::Fail {
            mark: at,
            info: "while scanning a block scalar, found a tab character where an indentation space is expected"@,
        }
    } else if spec_is_break(src[at.index as int]) && m.index < past_break(src, at).index
        <= src.len() {
        block_breaks(src, past_break(src, at), indent, breaks.push('\n'), deepest)
    } else {
        Scan::Done { mark: at, value: (breaks, deepest) }
    }
}

/// The indentation of a block scalar: as given, or, where none is given
/// (`indent` is 0), that of its deepest leading line, at least `floor` and at least 1.
pub open spec fn block_indent(indent: usize, deepest: usize, floor: usize) -> usize {
    if indent != 0 {
        indent
    } else if deepest >= floor && deepest >= 1 {
        deepest
    } else if floor >= 1 {
        floor
    } else {
        1
    }
}

/// Reads the line breaks, and the indentation before each, that precede a
/// line of a block scalar.  Where the indentation of the scalar is not known
/// yet (`indent` is 0), it is taken from the deepest of these lines, and is at
/// least `floor` and at least 1.
pub fn block_scalar_breaks(rdr: &mut Reader, indent: usize, floor: usize, breaks: &mut String) -> (r:
    Result<usize, ScanError>)
    requires
        old(rdr).wf(),
    ensures
        match block_breaks(old(rdr).src@, old(rdr).mark, indent, old(breaks)@, 0) {
            Scan::Done { mark, value } => r is Ok && final(rdr).mark == mark && final(breaks)@
                == value.0 && r->Ok_0 == block_indent(indent, value.1, floor),
            Scan::Fail { mark, info } => r is Err && r->Err_0.mark == mark && r->Err_0.info@
                == info,
        },
        final(rdr).follows(old(rdr)),
        r is Ok ==> r->Ok_0 >= 1 && (indent > 0 ==> r->Ok_0 == indent),
{
    let mut max_indent: usize = 0;
    let ghost goal = block_breaks(rdr.src@, rdr.mark, indent, breaks@, 0);
    loop
        invariant_except_break
            goal == block_breaks(rdr.src@, rdr.mark, indent, breaks@, max_indent),
        invariant
            rdr.follows(old(rdr)),
            goal == block_breaks(old(rdr).src@, old(rdr).mark, indent, old(breaks)@, 0),
        ensures
            goal == (Scan::Done { mark: rdr.mark, value: (breaks@, max_indent) }),
        decreases rdr.left(),
    {
        let ghost entry = rdr.mark;
        loop
            invariant
                rdr.follows(old(rdr)),
                rdr.mark.index >= entry.index,
                past_indent(rdr.src@, rdr.mark, indent) == past_indent(rdr.src@, entry, indent),
            ensures
                rdr.mark == past_indent(rdr.src@, entry, indent),
            decreases rdr.left(),
        {
            if (indent == 0 || rdr.mark.col < indent) && rdr.ch() == ' ' {
                rdr.skip();
            } else {
                break ;
            }
        }
        if rdr.mark.col > max_indent {
            max_indent = rdr.mark.col;
        }
        if (indent == 0 || rdr.mark.col < indent) && rdr.ch() == '\t' {
            return Err(
                ScanError::new(
                    rdr.mark,
                    "while scanning a block scalar, found a tab character where an indentation space is expected",
                ),
            );
        }
        if !is_break(rdr.ch()) {
            break ;
        }
        rdr.read_break(breaks);
    }
    if indent == 0 {
        let mut found = max_indent;
        if found < floor {
            found = floor;
        }
        if found < 1 {
            found = 1;
        }
        Ok(found)
    } else {
        Ok(indent)
    }
}

/// The header of a block scalar, after its `|` or `>` at `m`: how the line
/// breaks at its end are chomped (1 keeps them, -1 strips them, 0 keeps
/// one), and the indentation indicator (0 where there is none).
pub open spec fn block_header(src: Seq<char>, m: Marker) -> Scan<(int, usize)> {
    let first = past_one(src, m);
    let c = src[first.index as int];
    let second = past_one(src, first);
    let d = src[second.index as int];
    let zero = Scan::Fail {
        mark: m,
        info: "while scanning a block scalar, found an indentation indicator equal to 0"@,
    };
    if c == '+' || c == '-' {
        let chomping = if c == '+' {
            1int
        } else {
            -1
        };
        if spec_is_digit(d) {
            if d == '0' {
                zero
            } else {
                Scan::Done {
                    mark: past_one(src, second),
                    value: (chomping, (d as int - '0' as int) as usize),
                }
            }
        } else {
            Scan::Done { mark: second, value: (chomping, 0) }
        }
    } else if spec_is_digit(c) {
        if c == '0' {
            zero
        } else if d == '+' || d == '-' {
            Scan::Done {
                mark: past_one(src, second),
                value: (
                    if d == '+' {
                        1int
                    } else {
                        -1
                    },
                    (c as int - '0' as int) as usize,
                ),
            }
        } else {
            Scan::Done { mark: second, value: (0, (c as int - '0' as int) as usize) }
        }
    } else {
        Scan::Done { mark: first, value: (0, 0) }
    }
}

/// The text of a block scalar from the line at `m` on: `text` so far, then
/// the line break `leading` before this line and the breaks `trailing` after
/// it, which a folded scalar folds between two lines that begin with no
/// blank, then the lines that are indented by `indent`.  Also the line
/// breaks at the end, the first and the others.
pub open spec fn block_body(
    src: Seq<char>,
    m: Marker,
    indent: usize,
    literal: bool,
    text: Seq<char>,
    leading: Seq<char>,
    trailing: Seq<char>,
    leading_blank: bool,
) -> Scan<(Seq<char>, Seq<char>, Seq<char>)>
    decreases src.len() - m.index,
{
    if !(m.col == indent && src[m.index as int] != '\0') {
        Scan::Done { mark: m, value: (text, leading, trailing) }
    } else {
        let blank = spec_is_blank(src[m.index as int]);
        let before = if !literal && leading.len() > 0 && !leading_blank && !blank {
            if trailing.len() == 0 {
                text.push(' ')
            } else {
                text
            }
        } else {
            text + leading
        };
        let end = line_end(src, m);
        let line = before + trailing + src.subrange(m.index as int, end.index as int);
        if src[end.index as int] == '\0' {
            Scan::Done { mark: end, value: (line, Seq::empty(), Seq::empty()) }
        } else {
            match block_breaks(src, past_break(src, end), indent, Seq::empty(), 0) {
                Scan::Fail { mark, info } => Scan::Fail { mark, info },
                Scan::Done { mark, value } => if m.index < mark.index <= src.len() {
                    block_body(src, mark, indent, literal, line, seq!['\n'], value.0, blank)
                } else {
                    Scan::Done { mark, value: (line, seq!['\n'], value.0) }
                },
            }
        }
    }
}

/// The start of the block scalar at `m`, up to its first line that has
/// text: how it is chomped, its indentation, and the line breaks before that
/// line.  After the header only blanks and a comment may stand on its line.
pub open spec fn block_start(src: Seq<char>, m: Marker, floor: usize) -> Scan<
    (int, usize, Seq<char>),
> {
    match block_header(src, m) {
        Scan::Fail { mark, info } => Scan::Fail { mark, info },
        Scan::Done { mark, value: header } => {
            let rest = past_blanks(src, mark);
            let end = if src[rest.index as int] == '#' {
                line_end(src, rest)
            } else {
                rest
            };
            if !spec_is_breakz(src[end.index as int]) {
                Scan::Fail {
                    mark: m,
                    info: "while scanning a block scalar, did not find expected comment or line break"@,
                }
            } else {
                let given: usize = if header.1 > 0 {
                    if floor >= 1 {
                        (floor - 1 + header.1) as usize
                    } else {
                        header.1
                    }
                } else {
                    0
                };
                match block_breaks(src, past_break(src, end), given, Seq::empty(), 0) {
                    Scan::Fail { mark, info } => Scan::Fail { mark, info },
                    Scan::Done { mark, value } => Scan::Done {
                        mark,
                        value: (header.0, block_indent(given, value.1, floor), value.0),
                    },
                }
            }
        },
    }
}

/// The text of a block scalar, chomped: one line break is kept at its end,
/// or all of them (`chomping` is 1), or none (-1).
pub open spec fn chomped(body: (Seq<char>, Seq<char>, Seq<char>), chomping: int) -> Seq<char> {
    body.0 + (if chomping != -1 {
        body.1
    } else {
        Seq::empty()
    }) + (if chomping == 1 {
        body.2
    } else {
        Seq::empty()
    })
}

/// The block scalar at `m`: the position after it, where its first line
/// begins, and its text.  `floor` is the column of the block around it, plus one.
pub open spec fn block_scalar(src: Seq<char>, m: Marker, literal: bool, floor: usize) -> Scan<
    (Marker, Seq<char>),
> {
    match block_start(src, m, floor) {
        Scan::Fail { mark, info } => Scan::Fail { mark, info },
        Scan::Done { mark: first, value: start } => match block_body(
            src,
            first,
            start.1,
            literal,
            Seq::empty(),
            Seq::empty(),
            start.2,
            false,
        ) {
            Scan::Fail { mark, info } => Scan::Fail { mark, info },
            Scan::Done { mark, value: body } => Scan::Done {
                mark,
                value: (first, chomped(body, start.0)),
            },
        },
    }
}

/// Reads the header of a block scalar: `|` or `>`, and the chomping and
/// indentation indicators in either order.
fn scan_block_header(rdr: &mut Reader) -> (r: Result<(i8, usize), ScanError>)
    requires
        old(rdr).wf(),
        old(rdr).left() > 0,
    ensures
        match block_header(old(rdr).src@, old(rdr).mark) {
            Scan::Done { mark, value } => r is Ok && final(rdr).mark == mark && r->Ok_0.0
                == value.0 && r->Ok_0.1 == value.1 && r->Ok_0.1 < 10,
            Scan::Fail { mark, info } => r is Err && r->Err_0.mark == mark && r->Err_0.info@
                == info,
        },
        final(rdr).follows(old(rdr)),
        final(rdr).mark.index > old(rdr).mark.index,
{
    let start_mark = rdr.mark;
    // 1 keeps the line breaks at the end, -1 strips them, 0 keeps one
    let mut chomping: i8 = 0;
    let mut increment: usize = 0;
    // '|' or '>'
    rdr.skip();

    let c = rdr.ch();
    if c == '+' || c == '-' {
        chomping = if c == '+' {
            1
        } else {
            -1
        };
        rdr.skip();
        let d = rdr.ch();
        if is_digit(d) {
            if d == '0' {
                return Err(
                    ScanError::new(
                        start_mark,
                        "while scanning a block scalar, found an indentation indicator equal to 0",
                    ),
                );
            }
            increment = digit_value(d) as usize;
            rdr.skip();
        }
    } else if is_digit(c) {
        if c == '0' {
            return Err(
                ScanError::new(
                    start_mark,
                    "while scanning a block scalar, found an indentation indicator equal to 0",
                ),
            );
        }
        increment = digit_value(c) as usize;
        rdr.skip();
        let d = rdr.ch();
        if d == '+' || d == '-' {
            chomping = if d == '+' {
                1
            } else {
                -1
            };
            rdr.skip();
        }
    }
    Ok((chomping, increment))
}

/// Reads the lines of a block scalar, from the first line that has text.
/// Gives the text, and the line breaks at its end: the first, and the others.
fn scan_block_body(
    rdr: &mut Reader,
    indent: usize,
    literal: bool,
    floor: usize,
    trailing: String,
) -> (r: Result<(String, String, String), ScanError>)
    requires
        old(rdr).wf(),
        indent >= 1,
    ensures
        match block_body(
            old(rdr).src@,
            old(rdr).mark,
            indent,
            literal,
            Seq::empty(),
            Seq::empty(),
            trailing@,
            false,
        ) {
            Scan::Done { mark, value } => r is Ok && final(rdr).mark == mark && r->Ok_0.0@
                == value.0 && r->Ok_0.1@ == value.1 && r->Ok_0.2@ == value.2,
            Scan::Fail { mark, info } => r is Err && r->Err_0.mark == mark && r->Err_0.info@
                == info,
        },
        final(rdr).follows(old(rdr)),
{
    let mut leading_blank: bool = false;
    let mut string = String::new();
    let mut leading_break = String::new();
    let mut trailing_breaks = trailing;
    let ghost body = block_body(
        rdr.src@,
        rdr.mark,
        indent,
        literal,
        Seq::empty(),
        Seq::empty(),
        trailing_breaks@,
        false,
    );
    loop
        invariant_except_break
            body == block_body(
                rdr.src@,
                rdr.mark,
                indent,
                literal,
                string@,
                leading_break@,
                trailing_breaks@,
                leading_blank,
            ),
        invariant
            rdr.follows(old(rdr)),
            indent >= 1,
            body == block_body(
                old(rdr).src@,
                old(rdr).mark,
                indent,
                literal,
                Seq::empty(),
                Seq::empty(),
                trailing@,
                false,
            ),
        ensures
            body == (Scan::Done {
                mark: rdr.mark,
                value: (string@, leading_break@, trailing_breaks@),
            }),
        decreases rdr.left(),
    {
        if !(rdr.mark.col == indent && !is_z(rdr.ch())) {
            break ;
        }
        // at the start of a line that has text
        let trailing_blank = is_blank(rdr.ch());
        if !literal && !leading_break.as_str().is_empty() && !leading_blank && !trailing_blank {
            if trailing_breaks.as_str().is_empty() {
                string.push(' ');
            }
        } else {
            string.append(leading_break.as_str());
        }
        leading_break = String::new();
        string.append(trailing_breaks.as_str());
        trailing_breaks = String::new();

        leading_blank = is_blank(rdr.ch());

        let ghost entry = rdr.mark;
        let ghost before = string@;
        loop
            invariant
                rdr.follows(old(rdr)),
                rdr.mark.index >= entry.index,
                line_end(rdr.src@, rdr.mark) == line_end(rdr.src@, entry),
                string@ =~= before + rdr.src@.subrange(entry.index as int, rdr.mark.index as int),
            ensures
                spec_is_breakz(rdr.at(0)),
                rdr.mark == line_end(rdr.src@, entry),
            decreases rdr.left(),
        {
            let c = rdr.ch();
            if is_breakz(c) {
                break ;
            }
            string.push(c);
            rdr.skip();
        }
        if is_z(rdr.ch()) {
            break ;
        }
        rdr.read_break(&mut leading_break);
        assert(leading_break@ =~= seq!['\n']);
        // the indentation and the line breaks that follow
        let _ = block_scalar_breaks(rdr, indent, floor, &mut trailing_breaks)?;
    }
    Ok((string, leading_break, trailing_breaks))
}

/// Reads the start of a block scalar, up to its first line that has text.
fn scan_block_start(rdr: &mut Reader, floor: usize) -> (r: Result<(i8, usize, String), ScanError>)
    requires
        old(rdr).wf(),
        old(rdr).left() > 0,
        floor <= old(rdr).mark.index + 1,
    ensures
        match block_start(old(rdr).src@, old(rdr).mark, floor) {
            Scan::Done { mark, value } => r is Ok && final(rdr).mark == mark && r->Ok_0.0
                == value.0 && r->Ok_0.1 == value.1 && r->Ok_0.2@ == value.2,
            Scan::Fail { mark, info } => r is Err && r->Err_0.mark == mark && r->Err_0.info@
                == info,
        },
        final(rdr).follows(old(rdr)),
        final(rdr).mark.index > old(rdr).mark.index,
        r is Ok ==> r->Ok_0.1 >= 1,
{
    let start_mark = rdr.mark;
    let (chomping, increment) = scan_block_header(rdr)?;
    // blanks and a comment up to the end of the line
    skip_blanks(rdr);
    if rdr.ch() == '#' {
        skip_to_line_end(rdr);
    }
    if !is_breakz(rdr.ch()) {
        return Err(
            ScanError::new(
                start_mark,
                "while scanning a block scalar, did not find expected comment or line break",
            ),
        );
    }
    if is_break(rdr.ch()) {
        rdr.skip_line();
    }
    let mut indent: usize = 0;
    if increment > 0 {
        indent = if floor >= 1 {
            floor - 1 + increment
        } else {
            increment
        };
    }
    // the line breaks before the first line, and the indentation if it was not given
    let mut trailing_breaks = String::new();
    indent = block_scalar_breaks(rdr, indent, floor, &mut trailing_breaks)?;
    Ok((chomping, indent, trailing_breaks))
}

/// Reads a literal (`|`) or a folded (`>`) scalar: the header with its
/// chomping and indentation indicators, then the lines that are indented
/// deep enough.  `floor` is the least column of the block around it, plus one.
pub fn scan_block_scalar(rdr: &mut Reader, literal: bool, floor: usize) -> (r: Result<
    Token,
    ScanError,
>)
    requires
        old(rdr).wf(),
        old(rdr).left() > 0,
        floor <= old(rdr).mark.index + 1,
    ensures
        match block_scalar(old(rdr).src@, old(rdr).mark, literal, floor) {
            Scan::Done { mark, value } => r is Ok && final(rdr).mark == mark && r->Ok_0 == Token(
                value.0,
                TokenType::Scalar(
                    if literal {
                        TScalarStyle::Literal
                    } else {
                        TScalarStyle::Folded
                    },
                    r->Ok_0.1->Scalar_1,
                ),
            ) && r->Ok_0.1->Scalar_1@ == value.1,
            Scan::Fail { mark, info } => r is Err && r->Err_0.mark == mark && r->Err_0.info@
                == info,
        },
        final(rdr).follows(old(rdr)),
        r is Ok ==> final(rdr).mark.index > old(rdr).mark.index && r->Ok_0.1 is Scalar
            && r->Ok_0.1->Scalar_0 == (if literal {
            TScalarStyle::Literal
        } else {
            TScalarStyle::Folded
        }),
{
    let (chomping, indent, trailing_breaks) = scan_block_start(rdr, floor)?;
    let start_mark = rdr.mark;
    let (text, leading_break, trailing_breaks) = scan_block_body(
        rdr,
        indent,
        literal,
        floor,
        trailing_breaks,
    )?;
    let mut string = text;
    // chomp the tail
    if chomping != -1 {
        string.append(leading_break.as_str());
    } else {
        assert(string@ + Seq::<char>::empty() =~= string@);
    }
    if chomping == 1 {
        string.append(trailing_breaks.as_str());
    } else {
        assert(string@ + Seq::<char>::empty() =~= string@);
    }
    let style = if literal {
        TScalarStyle::Literal
    } else {
        TScalarStyle::Folded
    };
    Ok(Token(start_mark, TokenType::Scalar(style, string)))
}

/// 16 to the power `n`, for the at most eight digits of an escape.
pub open spec fn hex_bound(n: nat) -> nat {
    if n == 0 {
        1
    } else if n == 1 {
        0x10
    } else if n == 2 {
        0x100
    } else if n == 3 {
        0x1000
    } else if n == 4 {
        0x1_0000
    } else if n == 5 {
        0x10_0000
    } else if n == 6 {
        0x100_0000
    } else if n == 7 {
        0x1000_0000
    } else {
        0x1_0000_0000
    }
}

} // verus!
