use vstd::prelude::*;
use crate::chars::{
    as_hex, digit_value, is_alpha, is_blank, is_blankz, is_break, is_breakz, is_digit, is_hex,
};
use crate::chars::{spec_is_alpha, spec_is_blankz, spec_is_digit};
use crate::marker::{Marker, ScanError};
use crate::reader::{line_end, mark_after, past_blanks, past_break, past_one, Reader, Scan};
use crate::lexeme::{lexeme_of, Lexeme};
use crate::scalars::is_scalar_value;
use crate::token::{Token, TokenType};

verus! {

/// Reads blanks.
pub fn skip_blanks(rdr: &mut Reader)
    requires
        old(rdr).wf(),
    ensures
        final(rdr).follows(old(rdr)),
        !crate::chars::spec_is_blank(final(rdr).at(0)),
        final(rdr).mark == past_blanks(old(rdr).src@, old(rdr).mark),
{
    loop
        invariant
            rdr.follows(old(rdr)),
            past_blanks(rdr.src@, rdr.mark) == past_blanks(old(rdr).src@, old(rdr).mark),
        ensures
            !crate::chars::spec_is_blank(rdr.at(0)),
        decreases rdr.left(),
    {
        if is_blank(rdr.ch()) {
            rdr.skip();
        } else {
            break ;
        }
    }
}

/// Reads up to the end of the line, the line break left unread.
pub fn skip_to_line_end(rdr: &mut Reader)
    requires
        old(rdr).wf(),
    ensures
        final(rdr).follows(old(rdr)),
        crate::chars::spec_is_breakz(final(rdr).at(0)),
        final(rdr).mark == line_end(old(rdr).src@, old(rdr).mark),
{
    loop
        invariant
            rdr.follows(old(rdr)),
            line_end(rdr.src@, rdr.mark) == line_end(old(rdr).src@, old(rdr).mark),
        ensures
            crate::chars::spec_is_breakz(rdr.at(0)),
        decreases rdr.left(),
    {
        if !is_breakz(rdr.ch()) {
            rdr.skip();
        } else {
            break ;
        }
    }
}

/// The position after the letters, digits, `_` and `-` at `m` in `src`.
pub open spec fn past_alpha(src: Seq<char>, m: Marker) -> Marker
    decreases src.len() - m.index,
{
    if m.index + 1 < src.len() <= usize::MAX && spec_is_alpha(src[m.index as int]) {
        past_alpha(src, past_one(src, m))
    } else {
        m
    }
}

/// The name of the directive at `m`: the letters, digits, `_` and `-` there,
/// at least one, before a blank or the end of the line.
pub open spec fn directive_name(src: Seq<char>, m: Marker) -> Scan<Seq<char>> {
    let end = past_alpha(src, m);
    if end.index == m.index {
        Scan::Fail {
            mark: m,
            info: "while scanning a directive, could not find expected directive name"@,
        }
    } else if !spec_is_blankz(src[end.index as int]) {
        Scan::Fail {
            mark: m,
            info: "while scanning a directive, found unexpected non-alphabetical character"@,
        }
    } else {
        Scan::Done { mark: end, value: src.subrange(m.index as int, end.index as int) }
    }
}

/// `r`, with the reader at `at`, is what `s` says.
pub open spec fn text_scanned(r: Result<String, ScanError>, at: Marker, s: Scan<Seq<char>>) -> bool {
    match s {
        Scan::Done { mark, value } => r is Ok && at == mark && r->Ok_0@ == value,
        Scan::Fail { mark, info } => r is Err && r->Err_0.mark == mark && r->Err_0.info@ == info,
    }
}

/// Reads the name of a directive: letters, digits, `_` and `-`, before a blank
/// or the end of the line.
pub fn scan_directive_name(rdr: &mut Reader) -> (r: Result<String, ScanError>)
    requires
        old(rdr).wf(),
    ensures
        text_scanned(r, final(rdr).mark, directive_name(old(rdr).src@, old(rdr).mark)),
        final(rdr).follows(old(rdr)),
        r is Ok ==> r->Ok_0@.len() > 0 && r->Ok_0@ == old(rdr).src@.subrange(
            old(rdr).mark.index as int,
            final(rdr).mark.index as int,
        ) && (forall|i: int| 0 <= i < r->Ok_0@.len() ==> spec_is_alpha(#[trigger] r->Ok_0@[i]))
            && spec_is_blankz(final(rdr).at(0)),
        r is Err ==> r->Err_0.mark == old(rdr).mark,
{
    let start_mark = rdr.mark;
    let mut string = String::new();
    loop
        invariant
            rdr.follows(old(rdr)),
            start_mark == old(rdr).mark,
            past_alpha(rdr.src@, rdr.mark) == past_alpha(old(rdr).src@, old(rdr).mark),
            string@ =~= old(rdr).src@.subrange(old(rdr).mark.index as int, rdr.mark.index as int),
            forall|i: int| 0 <= i < string@.len() ==> spec_is_alpha(#[trigger] string@[i]),
        ensures
            !spec_is_alpha(rdr.at(0)),
        decreases rdr.left(),
    {
        let c = rdr.ch();
        if !is_alpha(c) {
            break ;
        }
        string.push(c);
        rdr.skip();
    }
    if string.as_str().is_empty() {
        return Err(
            ScanError::new(
                start_mark,
                "while scanning a directive, could not find expected directive name",
            ),
        );
    }
    if !is_blankz(rdr.ch()) {
        return Err(
            ScanError::new(
                start_mark,
                "while scanning a directive, found unexpected non-alphabetical character",
            ),
        );
    }
    Ok(string)
}

/// The number that the decimal digits `digits` write.
pub open spec fn decimal_number(digits: Seq<char>) -> nat
    decreases digits.len(),
{
    if digits.len() == 0 {
        0
    } else {
        (decimal_number(digits.drop_last()) * 10 + (digits.last() as int - '0' as int)) as nat
    }
}

/// 10 to the power `n`, for the at most nine digits of a version number.
pub open spec fn decimal_bound(n: nat) -> nat {
    if n == 0 {
        1
    } else if n == 1 {
        10
    } else if n == 2 {
        100
    } else if n == 3 {
        1_000
    } else if n == 4 {
        10_000
    } else if n == 5 {
        100_000
    } else if n == 6 {
        1_000_000
    } else if n == 7 {
        10_000_000
    } else if n == 8 {
        100_000_000
    } else {
        1_000_000_000
    }
}

/// The position after the decimal digits at `m` in `src`.
pub open spec fn past_digits(src: Seq<char>, m: Marker) -> Marker
    decreases src.len() - m.index,
{
    if m.index + 1 < src.len() <= usize::MAX && spec_is_digit(src[m.index as int]) {
        past_digits(src, past_one(src, m))
    } else {
        m
    }
}

/// The part of a version number at `m`: one to nine decimal digits.  Errors
/// carry the position `at` of the directive.
pub open spec fn version_number(src: Seq<char>, m: Marker, at: Marker) -> Scan<u32> {
    let end = past_digits(src, m);
    if end.index - m.index > 9 {
        Scan::Fail {
            mark: at,
            info: "while scanning a YAML directive, found extremely long version number"@,
        }
    } else if end.index == m.index {
        Scan::Fail {
            mark: at,
            info: "while scanning a YAML directive, did not find expected version number"@,
        }
    } else {
        Scan::Done {
            mark: end,
            value: decimal_number(src.subrange(m.index as int, end.index as int)) as u32,
        }
    }
}

/// `r`, with the reader at `at`, is what `s` says.
pub open spec fn number_scanned(r: Result<u32, ScanError>, at: Marker, s: Scan<u32>) -> bool {
    match s {
        Scan::Done { mark, value } => r is Ok && at == mark && r->Ok_0 == value,
        Scan::Fail { mark, info } => r is Err && r->Err_0.mark == mark && r->Err_0.info@ == info,
    }
}

/// Past the digits from `m` on lies where the digits from `from` on end.
pub proof fn lemma_past_digits(src: Seq<char>, from: Marker, m: Marker)
    requires
        past_digits(src, from) == past_digits(src, m),
        from.index <= m.index,
    ensures
        past_digits(src, from).index >= m.index,
    decreases src.len() - m.index,
{
    if m.index + 1 < src.len() <= usize::MAX && spec_is_digit(src[m.index as int]) {
        lemma_past_digits(src, from, past_one(src, m));
    }
}

/// Reads a part of a version number: one to nine decimal digits.
pub fn scan_version_directive_number(rdr: &mut Reader, mark: Marker) -> (r: Result<u32, ScanError>)
    requires
        old(rdr).wf(),
    ensures
        number_scanned(r, final(rdr).mark, version_number(old(rdr).src@, old(rdr).mark, mark)),
        final(rdr).follows(old(rdr)),
        r is Ok ==> final(rdr).mark.index > old(rdr).mark.index && r->Ok_0 == decimal_number(
            old(rdr).src@.subrange(old(rdr).mark.index as int, final(rdr).mark.index as int),
        ) && !spec_is_digit(final(rdr).at(0)),
        r is Err ==> r->Err_0.mark == mark,
{
    let mut val: u32 = 0;
    let mut length: usize = 0;
    let ghost from = rdr.mark.index as int;
    loop
        invariant
            rdr.follows(old(rdr)),
            from == old(rdr).mark.index,
            rdr.mark.index == from + length,
            length <= 9,
            past_digits(rdr.src@, rdr.mark) == past_digits(old(rdr).src@, old(rdr).mark),
            val < decimal_bound(length as nat),
            val == decimal_number(rdr.src@.subrange(from, from + length as int)),
        ensures
            !spec_is_digit(rdr.at(0)),
        decreases rdr.left(),
    {
        let c = rdr.ch();
        if !is_digit(c) {
            break ;
        }
        if length + 1 > 9 {
            proof {
                lemma_past_digits(rdr.src@, old(rdr).mark, past_one(rdr.src@, rdr.mark));
            }
            return Err(
                ScanError::new(
                    mark,
                    "while scanning a YAML directive, found extremely long version number",
                ),
            );
        }
        proof {
            let done = rdr.src@.subrange(from, from + length as int);
            let more = rdr.src@.subrange(from, from + length as int + 1);
            assert(more.drop_last() =~= done);
            assert(more.last() == c);
        }
        length += 1;
        val = val * 10 + digit_value(c);
        rdr.skip();
    }
    if length == 0 {
        return Err(
            ScanError::new(
                mark,
                "while scanning a YAML directive, did not find expected version number",
            ),
        );
    }
    Ok(val)
}

/// `r`, with the reader at `at`, is what `s` says: a token at `start`.
pub open spec fn token_scanned(
    r: Result<Token, ScanError>,
    at: Marker,
    start: Marker,
    s: Scan<Lexeme>,
) -> bool {
    match s {
        Scan::Done { mark, value } => r is Ok && at == mark && r->Ok_0.0 == start && lexeme_of(
            r->Ok_0.1,
        ) == value,
        Scan::Fail { mark, info } => r is Err && r->Err_0.mark == mark && r->Err_0.info@ == info,
    }
}

/// The value of a `%YAML` directive at `m`: blanks, the major number, `.`,
/// the minor number.
pub open spec fn version_directive_value(src: Seq<char>, m: Marker, at: Marker) -> Scan<Lexeme> {
    match version_number(src, past_blanks(src, m), at) {
        Scan::Fail { mark, info } => Scan::Fail { mark, info },
        Scan::Done { mark: dot, value: major } => if src[dot.index as int] != '.' {
            Scan::Fail {
                mark: at,
                info: "while scanning a YAML directive, did not find expected digit or '.' character"@,
            }
        } else {
            match version_number(src, past_one(src, dot), at) {
                Scan::Fail { mark, info } => Scan::Fail { mark, info },
                Scan::Done { mark, value: minor } => Scan::Done {
                    mark,
                    value: Lexeme::VersionDirective(major, minor),
                },
            }
        },
    }
}

/// Reads the value of a `%YAML` directive: major, `.`, minor.
pub fn scan_version_directive_value(rdr: &mut Reader, mark: Marker) -> (r: Result<Token, ScanError>)
    requires
        old(rdr).wf(),
    ensures
        token_scanned(
            r,
            final(rdr).mark,
            mark,
            version_directive_value(old(rdr).src@, old(rdr).mark, mark),
        ),
        final(rdr).follows(old(rdr)),
        r is Ok ==> r->Ok_0.0 == mark && r->Ok_0.1 is VersionDirective,
        r is Err ==> r->Err_0.mark == mark,
{
    skip_blanks(rdr);
    let major = scan_version_directive_number(rdr, mark)?;
    if rdr.ch() != '.' {
        return Err(
            ScanError::new(
                mark,
                "while scanning a YAML directive, did not find expected digit or '.' character",
            ),
        );
    }
    rdr.skip();
    let minor = scan_version_directive_number(rdr, mark)?;
    Ok(Token(mark, TokenType::VersionDirective(major, minor)))
}

/// The handle of a tag at `m`: `!`, letters, and a closing `!`.  In a
/// directive the closing `!` may be missing only where the handle is `!` alone.
pub open spec fn tag_handle(src: Seq<char>, m: Marker, directive: bool, at: Marker) -> Scan<
    Seq<char>,
> {
    if src[m.index as int] != '!' {
        Scan::Fail { mark: at, info: "while scanning a tag, did not find expected '!'"@ }
    } else {
        let from = past_one(src, m);
        let end = past_alpha(src, from);
        if src[end.index as int] == '!' {
            Scan::Done {
                mark: past_one(src, end),
                value: src.subrange(m.index as int, end.index + 1),
            }
        } else if directive && end.index > from.index {
            Scan::Fail {
                mark: at,
                info: "while parsing a tag directive, did not find expected '!'"@,
            }
        } else {
            Scan::Done { mark: end, value: src.subrange(m.index as int, end.index as int) }
        }
    }
}

/// Reads the handle of a tag: `!`, letters, and a closing `!`.  In a
/// directive the closing `!` may be missing only where the handle is `!` alone.
pub fn scan_tag_handle(rdr: &mut Reader, directive: bool, mark: Marker) -> (r: Result<
    String,
    ScanError,
>)
    requires
        old(rdr).wf(),
    ensures
        text_scanned(r, final(rdr).mark, tag_handle(old(rdr).src@, old(rdr).mark, directive, mark)),
        final(rdr).follows(old(rdr)),
        r is Ok ==> r->Ok_0@.len() > 0 && r->Ok_0@[0] == '!',
        r is Err ==> r->Err_0.mark == mark,
{
    let mut string = String::new();
    if rdr.ch() != '!' {
        return Err(ScanError::new(mark, "while scanning a tag, did not find expected '!'"));
    }
    string.push('!');
    rdr.skip();
    let mut letters: bool = false;
    let ghost from = rdr.mark;
    loop
        invariant
            rdr.follows(old(rdr)),
            string@.len() > 0,
            string@[0] == '!',
            from == past_one(old(rdr).src@, old(rdr).mark),
            from.index == old(rdr).mark.index + 1,
            past_alpha(rdr.src@, rdr.mark) == past_alpha(rdr.src@, from),
            rdr.mark.index >= from.index,
            letters == (rdr.mark.index > from.index),
            string@ =~= rdr.src@.subrange(old(rdr).mark.index as int, rdr.mark.index as int),
        ensures
            !spec_is_alpha(rdr.at(0)),
        decreases rdr.left(),
    {
        let c = rdr.ch();
        if !is_alpha(c) {
            break ;
        }
        string.push(c);
        letters = true;
        rdr.skip();
    }
    assert(past_alpha(rdr.src@, rdr.mark) == rdr.mark);
    if rdr.ch() == '!' {
        string.push('!');
        assert(string@ =~= rdr.src@.subrange(old(rdr).mark.index as int, rdr.mark.index + 1));
        rdr.skip();
    } else if directive && letters {
        return Err(
            ScanError::new(mark, "while parsing a tag directive, did not find expected '!'"),
        );
    }
    Ok(string)
}

/// Whether `c` may stand in the prefix of a tag.
pub open spec fn spec_is_uri_char(c: char) -> bool {
    spec_is_alpha(c) || c == ';' || c == '/' || c == '?' || c == ':' || c == '@' || c == '&' || c
        == '=' || c == '+' || c == '$' || c == ',' || c == '.' || c == '!' || c == '~' || c == '*'
        || c == '\'' || c == '(' || c == ')' || c == '[' || c == ']' || c == '%'
}

/// Whether `c` may stand in the prefix of a tag.
#[verifier::when_used_as_spec(spec_is_uri_char)]
pub fn is_uri_char(c: char) -> (b: bool)
    ensures
        b == spec_is_uri_char(c),
{
    is_alpha(c) || c == ';' || c == '/' || c == '?' || c == ':' || c == '@' || c == '&' || c == '='
        || c == '+' || c == '$' || c == ',' || c == '.' || c == '!' || c == '~' || c == '*' || c
        == '\'' || c == '(' || c == ')' || c == '[' || c == ']' || c == '%'
}

/// The octet at `m`, written as `%` and two hexadecimal digits.
pub open spec fn uri_octet(src: Seq<char>, m: Marker, at: Marker) -> Scan<u32> {
    if !(src[m.index as int] == '%' && crate::chars::spec_is_hex(src[m.index + 1])
        && crate::chars::spec_is_hex(src[m.index + 2])) {
        Scan::Fail { mark: at, info: "while parsing a tag, did not find URI escaped octet"@ }
    } else {
        Scan::Done {
            mark: past_one(src, past_one(src, past_one(src, m))),
            value: (crate::chars::spec_as_hex(src[m.index + 1]) * 16 + crate::chars::spec_as_hex(
                src[m.index + 2],
            )) as u32,
        }
    }
}

/// The code of a character whose UTF-8 form goes on with `left` more octets
/// at `m`, `code` being what the octets before gave.
pub open spec fn uri_tail(src: Seq<char>, m: Marker, at: Marker, left: nat, code: u32) -> Scan<u32>
    decreases left,
{
    if left == 0 {
        Scan::Done { mark: m, value: code }
    } else {
        match uri_octet(src, m, at) {
            Scan::Fail { mark, info } => Scan::Fail { mark, info },
            Scan::Done { mark, value } => if !(0x80 <= value < 0xC0) {
                Scan::Fail {
                    mark: at,
                    info: "while parsing a tag, found an incorrect trailing UTF-8 octet"@,
                }
            } else {
                uri_tail(src, mark, at, (left - 1) as nat, (code * 64 + (value - 0x80)) as u32)
            },
        }
    }
}

/// The character at `m`, written as the octets of its UTF-8 form.
pub open spec fn uri_escape(src: Seq<char>, m: Marker, at: Marker) -> Scan<char> {
    match uri_octet(src, m, at) {
        Scan::Fail { mark, info } => Scan::Fail { mark, info },
        Scan::Done { mark, value: first } => {
            let tail = if first < 0x80 {
                uri_tail(src, mark, at, 0, first)
            } else if 0xC0 <= first < 0xE0 {
                uri_tail(src, mark, at, 1, (first - 0xC0) as u32)
            } else if 0xE0 <= first < 0xF0 {
                uri_tail(src, mark, at, 2, (first - 0xE0) as u32)
            } else if 0xF0 <= first < 0xF8 {
                uri_tail(src, mark, at, 3, (first - 0xF0) as u32)
            } else {
                Scan::Fail {
                    mark: at,
                    info: "while parsing a tag, found an incorrect leading UTF-8 octet"@,
                }
            };
            uri_char(tail, at)
        },
    }
}

/// The character with the code that `tail` gives, if there is one.
pub open spec fn uri_char(tail: Scan<u32>, at: Marker) -> Scan<char> {
    match tail {
        Scan::Fail { mark, info } => Scan::Fail { mark, info },
        Scan::Done { mark, value } => if is_scalar_value(value) {
            Scan::Done { mark, value: value as char }
        } else {
            Scan::Fail { mark: at, info: "while parsing a tag, found an invalid UTF-8 codepoint"@ }
        },
    }
}

/// The prefix of a tag at `m`, after the characters `acc` of it.
pub open spec fn uri_chars(src: Seq<char>, m: Marker, at: Marker, acc: Seq<char>) -> Scan<Seq<char>>
    decreases src.len() - m.index,
{
    if m.index + 1 < src.len() <= usize::MAX && spec_is_uri_char(src[m.index as int]) {
        if src[m.index as int] == '%' {
            match uri_escape(src, m, at) {
                Scan::Fail { mark, info } => Scan::Fail { mark, info },
                Scan::Done { mark, value } => if m.index < mark.index <= src.len() {
                    uri_chars(src, mark, at, acc.push(value))
                } else {
                    Scan::Done { mark: m, value: acc }
                },
            }
        } else {
            uri_chars(src, past_one(src, m), at, acc.push(src[m.index as int]))
        }
    } else if acc.len() == 0 {
        Scan::Fail { mark: at, info: "while parsing a tag, did not find expected tag URI"@ }
    } else {
        Scan::Done { mark: m, value: acc }
    }
}

/// The value of a `%TAG` directive at `m`: blanks, the handle, blanks, the prefix.
pub open spec fn tag_directive_value(src: Seq<char>, m: Marker, at: Marker) -> Scan<Lexeme> {
    match tag_handle(src, past_blanks(src, m), true, at) {
        Scan::Fail { mark, info } => Scan::Fail { mark, info },
        Scan::Done { mark, value: handle } => match uri_chars(
            src,
            past_blanks(src, mark),
            at,
            Seq::empty(),
        ) {
            Scan::Fail { mark, info } => Scan::Fail { mark, info },
            Scan::Done { mark, value: prefix } => if spec_is_blankz(src[mark.index as int]) {
                Scan::Done { mark, value: Lexeme::TagDirective(handle, prefix) }
            } else {
                Scan::Fail {
                    mark: at,
                    info: "while scanning TAG, did not find expected whitespace or line break"@,
                }
            },
        },
    }
}

/// The directive at `m`: `%`, its name, its value, and the rest of its line,
/// which may hold a comment.  A directive of a name other than `YAML` and
/// `TAG` is read over, and gives an empty tag directive.
pub open spec fn directive(src: Seq<char>, m: Marker) -> Scan<Lexeme> {
    match directive_name(src, past_one(src, m)) {
        Scan::Fail { mark, info } => Scan::Fail { mark, info },
        Scan::Done { mark: named, value: name } => {
            let value = if name == "YAML"@ {
                version_directive_value(src, named, m)
            } else if name == "TAG"@ {
                tag_directive_value(src, named, m)
            } else {
                Scan::Done {
                    mark: line_end(src, named),
                    value: Lexeme::TagDirective(Seq::empty(), Seq::empty()),
                }
            };
            match value {
                Scan::Fail { mark, info } => Scan::Fail { mark, info },
                Scan::Done { mark, value } => {
                    let rest = past_blanks(src, mark);
                    let end = if src[rest.index as int] == '#' {
                        line_end(src, rest)
                    } else {
                        rest
                    };
                    if !crate::chars::spec_is_breakz(src[end.index as int]) {
                        Scan::Fail {
                            mark: m,
                            info: "while scanning a directive, did not find expected comment or line break"@,
                        }
                    } else {
                        Scan::Done { mark: past_break(src, end), value }
                    }
                },
            }
        },
    }
}

/// `r`, with the reader at `at`, is what `s` says.
pub open spec fn char_scanned(r: Result<char, ScanError>, at: Marker, s: Scan<char>) -> bool {
    match s {
        Scan::Done { mark, value } => r is Ok && at == mark && r->Ok_0 == value,
        Scan::Fail { mark, info } => r is Err && r->Err_0.mark == mark && r->Err_0.info@ == info,
    }
}

/// Reads one octet written as `%` and two hexadecimal digits.
pub fn scan_uri_octet(rdr: &mut Reader, mark: Marker) -> (r: Result<u32, ScanError>)
    requires
        old(rdr).wf(),
    ensures
        number_scanned(r, final(rdr).mark, uri_octet(old(rdr).src@, old(rdr).mark, mark)),
        final(rdr).follows(old(rdr)),
        r is Ok ==> r->Ok_0 < 256 && final(rdr).mark.index == old(rdr).mark.index + 3,
        r is Ok ==> r->Ok_0 == crate::chars::spec_as_hex(old(rdr).at(1)) * 16
            + crate::chars::spec_as_hex(old(rdr).at(2)),
        r is Err ==> r->Err_0.mark == mark,
{
    let high = rdr.peek(1);
    let low = rdr.peek(2);
    if !(rdr.ch() == '%' && is_hex(high) && is_hex(low)) {
        return Err(ScanError::new(mark, "while parsing a tag, did not find URI escaped octet"));
    }
    let octet = as_hex(high) * 16 + as_hex(low);
    rdr.skip();
    rdr.skip();
    rdr.skip();
    Ok(octet)
}

/// Reads a character written as the octets of its UTF-8 form, each as `%`
/// and two hexadecimal digits.
pub fn scan_uri_escapes(rdr: &mut Reader, mark: Marker) -> (r: Result<char, ScanError>)
    requires
        old(rdr).wf(),
    ensures
        char_scanned(r, final(rdr).mark, uri_escape(old(rdr).src@, old(rdr).mark, mark)),
        final(rdr).follows(old(rdr)),
        r is Ok ==> final(rdr).mark.index > old(rdr).mark.index,
        r is Err ==> r->Err_0.mark == mark,
{
    let first = scan_uri_octet(rdr, mark)?;
    let mut width: usize = 0;
    let mut code: u32 = 0;
    if first < 0x80 {
        width = 1;
        code = first;
    } else if first >= 0xC0 && first < 0xE0 {
        width = 2;
        code = first - 0xC0;
    } else if first >= 0xE0 && first < 0xF0 {
        width = 3;
        code = first - 0xE0;
    } else if first >= 0xF0 && first < 0xF8 {
        width = 4;
        code = first - 0xF0;
    } else {
        return Err(
            ScanError::new(mark, "while parsing a tag, found an incorrect leading UTF-8 octet"),
        );
    }
    let mut seen: usize = 1;
    let ghost goal = uri_tail(rdr.src@, rdr.mark, mark, (width - 1) as nat, code);
    while seen < width
        invariant
            rdr.follows(old(rdr)),
            rdr.mark.index > old(rdr).mark.index,
            1 <= seen <= width <= 4,
            goal == uri_tail(rdr.src@, rdr.mark, mark, (width - seen) as nat, code),
            uri_escape(old(rdr).src@, old(rdr).mark, mark) == uri_char(goal, mark),
            seen == 1 ==> code < 0x80,
            seen == 2 ==> code < 0x2000,
            seen == 3 ==> code < 0x8_0000,
            seen == 4 ==> code < 0x200_0000,
        decreases width - seen,
    {
        let octet = scan_uri_octet(rdr, mark)?;
        if !(octet >= 0x80 && octet < 0xC0) {
            return Err(
                ScanError::new(
                    mark,
                    "while parsing a tag, found an incorrect trailing UTF-8 octet",
                ),
            );
        }
        code = code * 64 + (octet - 0x80);
        seen += 1;
    }
    match char::from_u32(code) {
        Some(ch) => Ok(ch),
        None => Err(ScanError::new(mark, "while parsing a tag, found an invalid UTF-8 codepoint")),
    }
}

/// Reads the prefix of a tag directive.
pub fn scan_tag_uri(rdr: &mut Reader, mark: Marker) -> (r: Result<String, ScanError>)
    requires
        old(rdr).wf(),
    ensures
        text_scanned(
            r,
            final(rdr).mark,
            uri_chars(old(rdr).src@, old(rdr).mark, mark, Seq::empty()),
        ),
        final(rdr).follows(old(rdr)),
        r is Ok ==> r->Ok_0@.len() > 0,
        r is Err ==> r->Err_0.mark == mark,
{
    let mut string = String::new();
    let ghost goal = uri_chars(rdr.src@, rdr.mark, mark, Seq::empty());
    loop
        invariant
            rdr.follows(old(rdr)),
            goal == uri_chars(old(rdr).src@, old(rdr).mark, mark, Seq::empty()),
            goal == uri_chars(rdr.src@, rdr.mark, mark, string@),
        ensures
            !spec_is_uri_char(rdr.at(0)),
        decreases rdr.left(),
    {
        let c = rdr.ch();
        if !is_uri_char(c) {
            break ;
        }
        if c == '%' {
            let e = scan_uri_escapes(rdr, mark)?;
            string.push(e);
        } else {
            string.push(c);
            rdr.skip();
        }
    }
    if string.as_str().is_empty() {
        return Err(ScanError::new(mark, "while parsing a tag, did not find expected tag URI"));
    }
    Ok(string)
}

/// Reads the value of a `%TAG` directive: handle, prefix.
pub fn scan_tag_directive_value(rdr: &mut Reader, mark: Marker) -> (r: Result<Token, ScanError>)
    requires
        old(rdr).wf(),
    ensures
        token_scanned(
            r,
            final(rdr).mark,
            mark,
            tag_directive_value(old(rdr).src@, old(rdr).mark, mark),
        ),
        final(rdr).follows(old(rdr)),
        r is Ok ==> r->Ok_0.0 == mark && r->Ok_0.1 is TagDirective,
        r is Err ==> r->Err_0.mark == mark,
{
    skip_blanks(rdr);
    let handle = scan_tag_handle(rdr, true, mark)?;
    skip_blanks(rdr);
    let prefix = scan_tag_uri(rdr, mark)?;
    if is_blankz(rdr.ch()) {
        Ok(Token(mark, TokenType::TagDirective(handle, prefix)))
    } else {
        Err(
            ScanError::new(
                mark,
                "while scanning TAG, did not find expected whitespace or line break",
            ),
        )
    }
}

/// Reads a directive, from its `%` to the end of its line.  A `%YAML`
/// directive gives its version and a `%TAG` directive its handle and prefix;
/// a directive of any other name is read over and gives an empty tag directive.
pub fn scan_directive(rdr: &mut Reader) -> (r: Result<Token, ScanError>)
    requires
        old(rdr).wf(),
        old(rdr).left() > 0,
    ensures
        token_scanned(r, final(rdr).mark, old(rdr).mark, directive(old(rdr).src@, old(rdr).mark)),
        final(rdr).follows(old(rdr)),
        r is Ok ==> final(rdr).mark.index > old(rdr).mark.index && r->Ok_0.0 == old(rdr).mark && (
        r->Ok_0.1 is VersionDirective || r->Ok_0.1 is TagDirective),
        r is Err ==> r->Err_0.mark == old(rdr).mark || r->Err_0.mark == mark_after(
            old(rdr).mark,
            old(rdr).at(0),
            old(rdr).at(1),
        ),
{
    let start_mark = rdr.mark;
    rdr.skip();
    let name = scan_directive_name(rdr)?;
    let yaml = "YAML".to_owned();
    let tag = "TAG".to_owned();
    let tok = if name == yaml {
        scan_version_directive_value(rdr, start_mark)?
    } else if name == tag {
        scan_tag_directive_value(rdr, start_mark)?
    } else {
        skip_to_line_end(rdr);
        Token(start_mark, TokenType::TagDirective(String::new(), String::new()))
    };
    skip_blanks(rdr);
    if rdr.ch() == '#' {
        skip_to_line_end(rdr);
    }
    if !is_breakz(rdr.ch()) {
        return Err(
            ScanError::new(
                start_mark,
                "while scanning a directive, did not find expected comment or line break",
            ),
        );
    }
    if is_break(rdr.ch()) {
        rdr.skip_line();
    }
    Ok(tok)
}

} // verus!
