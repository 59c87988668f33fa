//! What a scan of a character sequence yields: the lines that it counts, in the order
//! in which they end, and how far it reads.
//!
//! Each scan is told in two steps: the token at the position, and what follows the
//! token.

use vstd::prelude::*;
use crate::line::Line;
use crate::line::LineContext;
use crate::line::VisitorContext;
use crate::token::lemma_token_at;
use crate::token::token_at;
use crate::token::Token;

verus! {

/// The outcome of a scan: the lines counted, and the number of characters read.
pub struct Scan {
    pub lines: Seq<Line>,
    pub len: nat,
}

impl Scan {
    /// Nothing read and nothing counted.
    pub open spec fn nothing() -> Scan {
        Scan { lines: Seq::empty(), len: 0 }
    }

    /// `len` characters read and nothing counted.
    pub open spec fn skip(len: nat) -> Scan {
        Scan { lines: Seq::empty(), len }
    }

    /// `line` counted and nothing read.
    pub open spec fn line(line: Line) -> Scan {
        Scan { lines: seq![line], len: 0 }
    }

    /// This scan, and after it `next`, which starts where this one ends.
    pub open spec fn followed_by(self, next: Scan) -> Scan {
        Scan { lines: self.lines + next.lines, len: self.len + next.len }
    }
}

/// The number of characters from `pos` to the end of the text; 0 behind the end.
pub open spec fn remaining(s: Seq<char>, pos: int) -> nat {
    if pos < s.len() {
        (s.len() - pos) as nat
    } else {
        0
    }
}

/// The number of characters from `pos` through the next line break, or to the end of
/// the text where no line break follows.
pub open spec fn line_len(s: Seq<char>, pos: int) -> nat
    decreases remaining(s, pos),
{
    if !(0 <= pos < s.len()) {
        0
    } else if s[pos] == '\n' {
        1
    } else {
        1 + line_len(s, pos + 1)
    }
}

/// Whether the rest of the line at `pos` ends with a line break.
pub open spec fn line_closed(s: Seq<char>, pos: int) -> bool {
    line_len(s, pos) > 0 && s[pos + line_len(s, pos) - 1] == '\n'
}

/// The rest of the line at `pos` is passed over, and the line is counted with the
/// flags `line` under `context`.
pub open spec fn skip_line(
    s: Seq<char>,
    pos: int,
    context: VisitorContext,
    line: LineContext,
) -> Scan {
    Scan::skip(line_len(s, pos)).followed_by(Scan::line(line.line(context, line_closed(s, pos))))
}

/// The scan of a string's inside from `pos`, up to and with the token `closing` or to
/// the end of the text.
pub open spec fn scan_string(
    s: Seq<char>,
    pos: int,
    context: VisitorContext,
    line: LineContext,
    closing: Token,
) -> Scan
    decreases remaining(s, pos), 0nat,
{
    if !(0 <= pos < s.len()) {
        Scan::nothing()
    } else {
        let lexeme = token_at(s, pos);
        proof {
            lemma_token_at(s, pos);
        }
        Scan::skip(lexeme.len).followed_by(
            string_after(s, pos + lexeme.len, context, line, closing, lexeme.token),
        )
    }
}

/// What follows `token` inside a string, from `pos` behind the token. The token
/// `closing` ends the string. A line break ends a line, and the next line starts with
/// nothing seen. Every other token is code.
pub open spec fn string_after(
    s: Seq<char>,
    pos: int,
    context: VisitorContext,
    line: LineContext,
    closing: Token,
    token: Token,
) -> Scan
    decreases remaining(s, pos), 1nat,
{
    if token == Token::LineBreak {
        Scan::line(line.line(context, true)).followed_by(
            scan_string(s, pos, context, LineContext::blank(), closing),
        )
    } else if token == closing {
        Scan::nothing()
    } else {
        scan_string(s, pos, context, line.with_code(), closing)
    }
}

/// The scan of a block comment's inside from `pos`, up to and with the `*/` that
/// closes it or to the end of the text.
pub open spec fn scan_comment(
    s: Seq<char>,
    pos: int,
    context: VisitorContext,
    is_doc: bool,
    line: LineContext,
) -> Scan
    decreases remaining(s, pos), 0nat,
{
    if !(0 <= pos < s.len()) {
        Scan::nothing()
    } else {
        let lexeme = token_at(s, pos);
        proof {
            lemma_token_at(s, pos);
        }
        Scan::skip(lexeme.len).followed_by(
            comment_after(s, pos + lexeme.len, context, is_doc, line, lexeme.token),
        )
    }
}

/// What follows `token` inside a block comment, from `pos` behind the token. `*/`
/// ends the comment. Comments nest: one that opens here is scanned to its own end, and
/// leaves the line's flags as they were. A line break ends a line, and the next line
/// starts with nothing seen. White space changes nothing; any other token marks its
/// line as a comment of this block's sort.
pub open spec fn comment_after(
    s: Seq<char>,
    pos: int,
    context: VisitorContext,
    is_doc: bool,
    line: LineContext,
    token: Token,
) -> Scan
    decreases remaining(s, pos), 1nat,
{
    match token {
        Token::LineBreak => Scan::line(line.line(context, true)).followed_by(
            scan_comment(s, pos, context, is_doc, LineContext::blank()),
        ),
        Token::CommentBlockOpen => {
            let inner = scan_comment(s, pos, context, false, LineContext::comment(false));
            inner.followed_by(scan_comment(s, pos + inner.len, context, is_doc, line))
        },
        Token::DocComentBlockOpen => {
            let inner = scan_comment(s, pos, context, true, LineContext::comment(true));
            inner.followed_by(scan_comment(s, pos + inner.len, context, is_doc, line))
        },
        Token::CommentBlockClose => Scan::nothing(),
        Token::WhiteSpace => scan_comment(s, pos, context, is_doc, line),
        _ => scan_comment(s, pos, context, is_doc, line.inside_comment(is_doc)),
    }
}

/// The scan of code from `pos`: of the whole text if `till_the_end`, else up to and
/// with the `}` that closes the block, or to the end of the text. `line` holds what has
/// been seen on the line at `pos`.
pub open spec fn scan_code(
    s: Seq<char>,
    pos: int,
    context: VisitorContext,
    line: LineContext,
    till_the_end: bool,
) -> Scan
    decreases remaining(s, pos), 0nat,
{
    if !(0 <= pos < s.len()) {
        Scan::nothing()
    } else {
        let lexeme = token_at(s, pos);
        proof {
            lemma_token_at(s, pos);
        }
        Scan::skip(lexeme.len).followed_by(
            code_after(s, pos + lexeme.len, context, line, till_the_end, lexeme.token),
        )
    }
}

/// The scan of a string's inside from `pos` in code, for the token `open` that opened
/// the string: up to and with the token that closes a string of that sort.
pub open spec fn scan_string_of(
    s: Seq<char>,
    pos: int,
    context: VisitorContext,
    open: Token,
) -> Scan {
    scan_string(s, pos, context, LineContext::code(), closing_of(open))
}

/// The token that closes the string that `open` opens.
pub open spec fn closing_of(open: Token) -> Token {
    match open {
        Token::StringBlockOpen => Token::StringBlockClose,
        Token::DoubleStringBlockOpen => Token::DoubleStringBlockClose,
        _ => Token::DoubleQuote,
    }
}

/// What follows `token` in code, from `pos` behind the token.
///
/// - A line break ends a line, and the next line starts with nothing seen.
/// - White space changes nothing.
/// - A line comment takes the rest of its line, which is counted with the comment's
///   flag set beside what was seen before.
/// - A block comment is scanned to its end, and then sets its flag on the line on
///   which it ends.
/// - A test marker has what it marks scanned under the tests; the line's flags stay.
/// - `{` has a block scanned to its `}`, with the line's flags; behind it, code was seen.
/// - `}` ends this scan, unless it goes on to the end of the text: then it changes
///   nothing.
/// - A string is scanned to its end, and is code; so is every other token.
pub open spec fn code_after(
    s: Seq<char>,
    pos: int,
    context: VisitorContext,
    line: LineContext,
    till_the_end: bool,
    token: Token,
) -> Scan
    decreases remaining(s, pos), 3nat,
{
    match token {
        Token::LineBreak => Scan::line(line.line(context, true)).followed_by(
            scan_code(s, pos, context, LineContext::blank(), till_the_end),
        ),
        Token::WhiteSpace => scan_code(s, pos, context, line, till_the_end),
        Token::CommentStart => {
            let rest = skip_line(s, pos, context, line.with_comment_start());
            rest.followed_by(
                scan_code(s, pos + rest.len, context, LineContext::blank(), till_the_end),
            )
        },
        Token::DocCommentStart => {
            let rest = skip_line(s, pos, context, line.with_doc_comment_start());
            rest.followed_by(
                scan_code(s, pos + rest.len, context, LineContext::blank(), till_the_end),
            )
        },
        Token::CommentBlockOpen => {
            let inner = scan_comment(s, pos, context, false, LineContext::comment(false));
            inner.followed_by(
                scan_code(s, pos + inner.len, context, line.with_comment_start(), till_the_end),
            )
        },
        Token::DocComentBlockOpen => {
            let inner = scan_comment(s, pos, context, true, LineContext::comment(true));
            inner.followed_by(
                scan_code(
                    s,
                    pos + inner.len,
                    context,
                    line.with_doc_comment_start(),
                    till_the_end,
                ),
            )
        },
        Token::TestBlockStart => {
            let inner = scan_test_block(s, pos);
            inner.followed_by(scan_code(s, pos + inner.len, context, line, till_the_end))
        },
        Token::CodeBlockOpen => {
            let inner = scan_code(s, pos, context, line, false);
            inner.followed_by(
                scan_code(s, pos + inner.len, context, line.with_code(), till_the_end),
            )
        },
        Token::CodeBlockClose => if till_the_end {
            scan_code(s, pos, context, line, till_the_end)
        } else {
            Scan::nothing()
        },
        Token::DoubleQuote | Token::StringBlockOpen | Token::DoubleStringBlockOpen => {
            let inner = scan_string_of(s, pos, context, token);
            inner.followed_by(
                scan_code(s, pos + inner.len, context, line.with_code(), till_the_end),
            )
        },
        _ => scan_code(s, pos, context, line.with_code(), till_the_end),
    }
}

/// The scan of what a test marker marks, from behind the marker at `pos`. The rest of
/// the marker's line is a code line of the tests. What follows is counted under the
/// tests, up to the end of the first statement or block.
pub open spec fn scan_test_block(s: Seq<char>, pos: int) -> Scan
    decreases remaining(s, pos), 2nat,
{
    let first = skip_line(s, pos, VisitorContext::Tests, LineContext::code());
    first.followed_by(scan_test_item(s, pos + first.len, LineContext::blank()))
}

/// The scan of the item behind a test marker's line, from `pos`: up to the end of the
/// line on which its first `;` stands, or on which the block that its first `{` opens
/// is closed, or to the end of the text.
pub open spec fn scan_test_item(s: Seq<char>, pos: int, line: LineContext) -> Scan
    decreases remaining(s, pos), 1nat,
{
    if !(0 <= pos < s.len()) {
        Scan::nothing()
    } else {
        let lexeme = token_at(s, pos);
        proof {
            lemma_token_at(s, pos);
        }
        Scan::skip(lexeme.len).followed_by(
            test_item_after(s, pos + lexeme.len, line, lexeme.token),
        )
    }
}

/// What follows `token` in the item behind a test marker's line, from `pos` behind the
/// token. All lines are counted under the tests. A line break ends a line, and the
/// next line starts with nothing seen. `;` is code and ends the item with the rest of
/// its line. `{` has a block scanned to its `}`; the line on which the block ends is a
/// code line, and the item ends with the rest of it. White space changes nothing.
/// Every other token is code, unless a comment was seen on the line.
pub open spec fn test_item_after(s: Seq<char>, pos: int, line: LineContext, token: Token) -> Scan
    decreases remaining(s, pos), 3nat,
{
    match token {
        Token::LineBreak => Scan::line(line.line(VisitorContext::Tests, true)).followed_by(
            scan_test_item(s, pos, LineContext::blank()),
        ),
        Token::EndOfStatement => skip_line(s, pos, VisitorContext::Tests, line.with_code()),
        Token::CodeBlockOpen => {
            let inner = scan_code(s, pos, VisitorContext::Tests, line, false);
            inner.followed_by(
                skip_line(s, pos + inner.len, VisitorContext::Tests, line.with_code()),
            )
        },
        Token::WhiteSpace => scan_test_item(s, pos, line),
        _ => scan_test_item(
            s,
            pos,
            if line.spec_is_inside_comment() {
                line
            } else {
                line.with_code()
            },
        ),
    }
}

/// The lines of the text `s` of a file whose own region is `context`, in the order in
/// which they end.
pub open spec fn classify(s: Seq<char>, context: VisitorContext) -> Seq<Line> {
    scan_code(s, 0, context, LineContext::blank(), true).lines
}

/// Scans that follow one another can be grouped either way.
pub proof fn lemma_followed_by_associative(a: Scan, b: Scan, c: Scan)
    ensures
        a.followed_by(b).followed_by(c) == a.followed_by(b.followed_by(c)),
{
    assert((a.lines + b.lines) + c.lines =~= a.lines + (b.lines + c.lines));
}

/// A scan of nothing, before or after another scan, changes nothing.
pub proof fn lemma_followed_by_nothing(a: Scan)
    ensures
        a.followed_by(Scan::nothing()) == a,
        Scan::nothing().followed_by(a) == a,
{
    assert(a.lines + Seq::<Line>::empty() =~= a.lines);
    assert(Seq::<Line>::empty() + a.lines =~= a.lines);
}

} // verus!
