//! What holds of every scan: it stays inside the text, it counts a line for every line
//! break that it reads, and a line on which code was seen is a code line.

use vstd::prelude::*;
use crate::line::count_closed;
use crate::line::lemma_tally_counts_each_line_once;
use crate::line::tally;
use crate::line::Line;
use crate::line::LineContext;
use crate::line::LineKind;
use crate::line::VisitorContext;
use crate::scan::classify;
use crate::scan::closing_of;
use crate::scan::code_after;
use crate::scan::comment_after;
use crate::scan::line_closed;
use crate::scan::line_len;
use crate::scan::remaining;
use crate::scan::scan_code;
use crate::scan::scan_comment;
use crate::scan::scan_string;
use crate::scan::scan_string_of;
use crate::scan::scan_test_block;
use crate::scan::scan_test_item;
use crate::scan::skip_line;
use crate::scan::string_after;
use crate::scan::test_item_after;
use crate::scan::Scan;
use crate::token::lemma_token_at;
use crate::token::lemma_token_line_break;
use crate::token::token_at;
use crate::token::Token;

verus! {

/// The number of line breaks among the characters of `s` from `from` up to `to`.
pub open spec fn line_breaks(s: Seq<char>, from: int, to: int) -> nat
    decreases to - from,
{
    if 0 <= from < to <= s.len() {
        let one: nat = if s[to - 1] == '\n' { 1 } else { 0 };
        line_breaks(s, from, to - 1) + one
    } else {
        0
    }
}

/// 1 for `true`, 0 for `false`.
pub open spec fn one_if(b: bool) -> nat {
    if b {
        1
    } else {
        0
    }
}

impl Scan {
    /// A scan from `pos` that accounts for the text `s`: it ends inside the text, it
    /// counts at most `extra` lines more than it reads characters, and the lines that it
    /// counts as ended by a line break are as many as the line breaks that it reads,
    /// and `carried` more, whose line break was read before `pos`.
    pub open spec fn accounts(self, s: Seq<char>, pos: int, extra: nat, carried: nat) -> bool {
        &&& 0 <= pos
        &&& pos + self.len <= s.len()
        &&& self.lines.len() <= self.len + extra
        &&& count_closed(self.lines) == line_breaks(s, pos, pos + self.len) + carried
    }
}

/// The line breaks of two stretches that meet are those of the whole stretch.
pub proof fn lemma_line_breaks_split(s: Seq<char>, from: int, mid: int, to: int)
    requires
        0 <= from <= mid <= to <= s.len(),
    ensures
        line_breaks(s, from, to) == line_breaks(s, from, mid) + line_breaks(s, mid, to),
    decreases to - mid,
{
    if mid < to {
        lemma_line_breaks_split(s, from, mid, to - 1);
    }
}

/// A stretch without a line break has none.
pub proof fn lemma_line_breaks_none(s: Seq<char>, from: int, to: int)
    requires
        0 <= from <= to <= s.len(),
        forall|i: int| from <= i < to ==> s[i] != '\n',
    ensures
        line_breaks(s, from, to) == 0,
    decreases to - from,
{
    if from < to {
        lemma_line_breaks_none(s, from, to - 1);
    }
}

/// The lines of two sequences that a line break ended are those of the two together.
pub proof fn lemma_count_closed_add(a: Seq<Line>, b: Seq<Line>)
    ensures
        count_closed(a + b) == count_closed(a) + count_closed(b),
    decreases b.len(),
{
    if b.len() == 0 {
        assert(a + b =~= a);
    } else {
        lemma_count_closed_add(a, b.drop_last());
        assert((a + b).drop_last() =~= a + b.drop_last());
    }
}

/// A token holds one line break if it is the line break, and none if it is not.
pub proof fn lemma_token_line_breaks(s: Seq<char>, pos: int)
    requires
        0 <= pos < s.len(),
    ensures
        line_breaks(s, pos, pos + token_at(s, pos).len) == one_if(
            token_at(s, pos).token == Token::LineBreak,
        ),
{
    lemma_token_at(s, pos);
    lemma_token_line_break(s, pos);
    let len = token_at(s, pos).len;
    lemma_line_breaks_split(s, pos, pos + 1, pos + len);
    lemma_line_breaks_none(s, pos + 1, pos + len);
    assert(line_breaks(s, pos, pos) == 0);
}

/// The rest of a line ends inside the text, and holds one line break if a line break
/// ends it, and none if the text ends first.
pub proof fn lemma_line_len(s: Seq<char>, pos: int)
    requires
        0 <= pos <= s.len(),
    ensures
        pos + line_len(s, pos) <= s.len(),
        line_breaks(s, pos, pos + line_len(s, pos)) == one_if(line_closed(s, pos)),
    decreases remaining(s, pos),
{
    if pos < s.len() {
        if s[pos] != '\n' {
            lemma_line_len(s, pos + 1);
            lemma_line_breaks_split(s, pos, pos + 1, pos + line_len(s, pos));
        }
        assert(line_breaks(s, pos, pos) == 0);
    }
}

/// A scan that accounts for the text and the next one that does so account for the
/// text together.
pub proof fn lemma_followed_by_accounts(
    a: Scan,
    b: Scan,
    s: Seq<char>,
    pos: int,
    a_extra: nat,
    a_carried: nat,
    b_extra: nat,
    b_carried: nat,
)
    requires
        a.accounts(s, pos, a_extra, a_carried),
        b.accounts(s, pos + a.len, b_extra, b_carried),
    ensures
        a.followed_by(b).accounts(s, pos, a_extra + b_extra, a_carried + b_carried),
        a.followed_by(b).len == a.len + b.len,
{
    lemma_count_closed_add(a.lines, b.lines);
    lemma_line_breaks_split(s, pos, pos + a.len, pos + a.len + b.len);
}

/// A counted line accounts for the text wherever it is counted: it is one line more
/// than the characters read, and its line break, if one ended it, was read before.
pub proof fn lemma_line_accounts(line: Line, s: Seq<char>, pos: int)
    requires
        0 <= pos <= s.len(),
    ensures
        Scan::line(line).accounts(s, pos, 1, one_if(line.closed)),
{
    assert(seq![line].drop_last() =~= Seq::<Line>::empty());
    assert(count_closed(Seq::<Line>::empty()) == 0);
}

/// A counted line and the scan behind it account for the text together.
pub proof fn lemma_line_first_accounts(line: Line, rest: Scan, s: Seq<char>, pos: int)
    requires
        rest.accounts(s, pos, 0, 0),
    ensures
        Scan::line(line).followed_by(rest).accounts(s, pos, 1, one_if(line.closed)),
{
    lemma_line_accounts(line, s, pos);
    lemma_followed_by_accounts(Scan::line(line), rest, s, pos, 1, one_if(line.closed), 0, 0);
}

/// A token and what follows it account for the text together: the token's first
/// character makes up for a line that what follows counts beyond its characters, and
/// a line break's line is counted in what follows the line break.
pub proof fn lemma_token_accounts(s: Seq<char>, pos: int, after: Scan)
    requires
        0 <= pos < s.len(),
        after.accounts(
            s,
            pos + token_at(s, pos).len,
            1,
            one_if(token_at(s, pos).token == Token::LineBreak),
        ),
    ensures
        Scan::skip(token_at(s, pos).len).followed_by(after).accounts(s, pos, 0, 0),
{
    let len = token_at(s, pos).len;
    lemma_token_at(s, pos);
    lemma_token_line_breaks(s, pos);
    lemma_line_breaks_split(s, pos, pos + len, pos + len + after.len);
    assert(count_closed(Seq::<Line>::empty()) == 0);
    lemma_count_closed_add(Seq::<Line>::empty(), after.lines);
}

/// The rest of a line, passed over and counted, accounts for the text, with its one
/// line beyond its characters.
pub proof fn lemma_skip_line_accounts(
    s: Seq<char>,
    pos: int,
    context: VisitorContext,
    line: LineContext,
)
    requires
        0 <= pos <= s.len(),
    ensures
        skip_line(s, pos, context, line).accounts(s, pos, 1, 0),
        skip_line(s, pos, context, line).len == line_len(s, pos),
{
    lemma_line_len(s, pos);
    let counted = line.line(context, line_closed(s, pos));
    lemma_line_accounts(counted, s, pos + line_len(s, pos));
    assert(count_closed(Seq::<Line>::empty()) == 0);
    lemma_count_closed_add(Seq::<Line>::empty(), seq![counted]);
    lemma_line_breaks_split(s, pos, pos + line_len(s, pos), pos + line_len(s, pos));
}

/// The scan of a string's inside accounts for the text.
pub proof fn lemma_scan_string_accounts(
    s: Seq<char>,
    pos: int,
    context: VisitorContext,
    line: LineContext,
    closing: Token,
)
    requires
        0 <= pos <= s.len(),
    ensures
        scan_string(s, pos, context, line, closing).accounts(s, pos, 0, 0),
    decreases remaining(s, pos),
{
    if pos < s.len() {
        lemma_token_at(s, pos);
        let lexeme = token_at(s, pos);
        let next = pos + lexeme.len;
        let after = string_after(s, next, context, line, closing, lexeme.token);
        if lexeme.token == Token::LineBreak {
            let rest = scan_string(s, next, context, LineContext::blank(), closing);
            lemma_scan_string_accounts(s, next, context, LineContext::blank(), closing);
            lemma_line_first_accounts(line.line(context, true), rest, s, next);
        } else if lexeme.token != closing {
            lemma_scan_string_accounts(s, next, context, line.with_code(), closing);
        } else {
            lemma_nothing_accounts(s, next);
        }
        lemma_token_accounts(s, pos, after);
    } else {
        lemma_nothing_accounts(s, pos);
    }
}

/// A scan of nothing accounts for the text.
pub proof fn lemma_nothing_accounts(s: Seq<char>, pos: int)
    requires
        0 <= pos <= s.len(),
    ensures
        Scan::nothing().accounts(s, pos, 0, 0),
{
    assert(count_closed(Seq::<Line>::empty()) == 0);
}

/// The scan of a block comment's inside accounts for the text.
pub proof fn lemma_scan_comment_accounts(
    s: Seq<char>,
    pos: int,
    context: VisitorContext,
    is_doc: bool,
    line: LineContext,
)
    requires
        0 <= pos <= s.len(),
    ensures
        scan_comment(s, pos, context, is_doc, line).accounts(s, pos, 0, 0),
    decreases remaining(s, pos),
{
    if pos < s.len() {
        lemma_token_at(s, pos);
        let lexeme = token_at(s, pos);
        let next = pos + lexeme.len;
        let after = comment_after(s, next, context, is_doc, line, lexeme.token);
        match lexeme.token {
            Token::LineBreak => {
                let rest = scan_comment(s, next, context, is_doc, LineContext::blank());
                lemma_scan_comment_accounts(s, next, context, is_doc, LineContext::blank());
                lemma_line_first_accounts(line.line(context, true), rest, s, next);
            },
            Token::CommentBlockOpen => {
                let inner = scan_comment(s, next, context, false, LineContext::comment(false));
                let rest = scan_comment(s, next + inner.len, context, is_doc, line);
                lemma_scan_comment_accounts(s, next, context, false, LineContext::comment(false));
                lemma_scan_comment_accounts(s, next + inner.len, context, is_doc, line);
                lemma_followed_by_accounts(inner, rest, s, next, 0, 0, 0, 0);
            },
            Token::DocComentBlockOpen => {
                let inner = scan_comment(s, next, context, true, LineContext::comment(true));
                let rest = scan_comment(s, next + inner.len, context, is_doc, line);
                lemma_scan_comment_accounts(s, next, context, true, LineContext::comment(true));
                lemma_scan_comment_accounts(s, next + inner.len, context, is_doc, line);
                lemma_followed_by_accounts(inner, rest, s, next, 0, 0, 0, 0);
            },
            Token::CommentBlockClose => {
                lemma_nothing_accounts(s, next);
            },
            Token::WhiteSpace => {
                lemma_scan_comment_accounts(s, next, context, is_doc, line);
            },
            _ => {
                lemma_scan_comment_accounts(s, next, context, is_doc, line.inside_comment(is_doc));
            },
        }
        lemma_token_accounts(s, pos, after);
    } else {
        lemma_nothing_accounts(s, pos);
    }
}

/// The scan of code accounts for the text, and reads it to the end where it is not
/// to stop at a `}`.
pub proof fn lemma_scan_code_accounts(
    s: Seq<char>,
    pos: int,
    context: VisitorContext,
    line: LineContext,
    till_the_end: bool,
)
    requires
        0 <= pos <= s.len(),
    ensures
        scan_code(s, pos, context, line, till_the_end).accounts(s, pos, 0, 0),
        till_the_end ==> pos + scan_code(s, pos, context, line, till_the_end).len == s.len(),
    decreases remaining(s, pos), 0nat,
{
    if pos < s.len() {
        lemma_token_at(s, pos);
        let lexeme = token_at(s, pos);
        let next = pos + lexeme.len;
        let after = code_after(s, next, context, line, till_the_end, lexeme.token);
        lemma_code_after_accounts(s, next, context, line, till_the_end, lexeme.token);
        lemma_token_accounts(s, pos, after);
    } else {
        lemma_nothing_accounts(s, pos);
    }
}

/// What follows a token in code accounts for the text, with a line break's line
/// carried, and reads the text to the end where it is not to stop at a `}`.
pub proof fn lemma_code_after_accounts(
    s: Seq<char>,
    pos: int,
    context: VisitorContext,
    line: LineContext,
    till_the_end: bool,
    token: Token,
)
    requires
        0 <= pos <= s.len(),
    ensures
        code_after(s, pos, context, line, till_the_end, token).accounts(
            s,
            pos,
            1,
            one_if(token == Token::LineBreak),
        ),
        till_the_end ==> pos + code_after(s, pos, context, line, till_the_end, token).len
            == s.len(),
    decreases remaining(s, pos), 3nat,
{
    match token {
        Token::LineBreak => {
            let rest = scan_code(s, pos, context, LineContext::blank(), till_the_end);
            lemma_scan_code_accounts(s, pos, context, LineContext::blank(), till_the_end);
            lemma_line_first_accounts(line.line(context, true), rest, s, pos);
        },
        Token::WhiteSpace => {
            lemma_scan_code_accounts(s, pos, context, line, till_the_end);
        },
        Token::CommentStart => {
            let first = skip_line(s, pos, context, line.with_comment_start());
            let rest = scan_code(s, pos + first.len, context, LineContext::blank(), till_the_end);
            lemma_skip_line_accounts(s, pos, context, line.with_comment_start());
            lemma_scan_code_accounts(
                s,
                pos + first.len,
                context,
                LineContext::blank(),
                till_the_end,
            );
            lemma_followed_by_accounts(first, rest, s, pos, 1, 0, 0, 0);
        },
        Token::DocCommentStart => {
            let first = skip_line(s, pos, context, line.with_doc_comment_start());
            let rest = scan_code(s, pos + first.len, context, LineContext::blank(), till_the_end);
            lemma_skip_line_accounts(s, pos, context, line.with_doc_comment_start());
            lemma_scan_code_accounts(
                s,
                pos + first.len,
                context,
                LineContext::blank(),
                till_the_end,
            );
            lemma_followed_by_accounts(first, rest, s, pos, 1, 0, 0, 0);
        },
        Token::CommentBlockOpen => {
            let inner = scan_comment(s, pos, context, false, LineContext::comment(false));
            let flags = line.with_comment_start();
            let rest = scan_code(s, pos + inner.len, context, flags, till_the_end);
            lemma_scan_comment_accounts(s, pos, context, false, LineContext::comment(false));
            lemma_scan_code_accounts(s, pos + inner.len, context, flags, till_the_end);
            lemma_followed_by_accounts(inner, rest, s, pos, 0, 0, 0, 0);
        },
        Token::DocComentBlockOpen => {
            let inner = scan_comment(s, pos, context, true, LineContext::comment(true));
            let flags = line.with_doc_comment_start();
            let rest = scan_code(s, pos + inner.len, context, flags, till_the_end);
            lemma_scan_comment_accounts(s, pos, context, true, LineContext::comment(true));
            lemma_scan_code_accounts(s, pos + inner.len, context, flags, till_the_end);
            lemma_followed_by_accounts(inner, rest, s, pos, 0, 0, 0, 0);
        },
        Token::TestBlockStart => {
            let inner = scan_test_block(s, pos);
            let rest = scan_code(s, pos + inner.len, context, line, till_the_end);
            lemma_scan_test_block_accounts(s, pos);
            lemma_scan_code_accounts(s, pos + inner.len, context, line, till_the_end);
            lemma_followed_by_accounts(inner, rest, s, pos, 1, 0, 0, 0);
        },
        Token::CodeBlockOpen => {
            let inner = scan_code(s, pos, context, line, false);
            let rest = scan_code(s, pos + inner.len, context, line.with_code(), till_the_end);
            lemma_scan_code_accounts(s, pos, context, line, false);
            lemma_scan_code_accounts(s, pos + inner.len, context, line.with_code(), till_the_end);
            lemma_followed_by_accounts(inner, rest, s, pos, 0, 0, 0, 0);
        },
        Token::CodeBlockClose => {
            if till_the_end {
                lemma_scan_code_accounts(s, pos, context, line, till_the_end);
            } else {
                lemma_nothing_accounts(s, pos);
            }
        },
        Token::DoubleQuote | Token::StringBlockOpen | Token::DoubleStringBlockOpen => {
            let inner = scan_string_of(s, pos, context, token);
            let rest = scan_code(s, pos + inner.len, context, line.with_code(), till_the_end);
            lemma_scan_string_accounts(s, pos, context, LineContext::code(), closing_of(token));
            lemma_scan_code_accounts(s, pos + inner.len, context, line.with_code(), till_the_end);
            lemma_followed_by_accounts(inner, rest, s, pos, 0, 0, 0, 0);
        },
        _ => {
            lemma_scan_code_accounts(s, pos, context, line.with_code(), till_the_end);
        },
    }
}

/// The scan of what a test marker marks accounts for the text, with one line beyond
/// its characters.
pub proof fn lemma_scan_test_block_accounts(s: Seq<char>, pos: int)
    requires
        0 <= pos <= s.len(),
    ensures
        scan_test_block(s, pos).accounts(s, pos, 1, 0),
    decreases remaining(s, pos), 2nat,
{
    let first = skip_line(s, pos, VisitorContext::Tests, LineContext::code());
    let rest = scan_test_item(s, pos + first.len, LineContext::blank());
    lemma_skip_line_accounts(s, pos, VisitorContext::Tests, LineContext::code());
    lemma_scan_test_item_accounts(s, pos + first.len, LineContext::blank());
    lemma_followed_by_accounts(first, rest, s, pos, 1, 0, 0, 0);
}

/// The scan of the item behind a test marker's line accounts for the text.
pub proof fn lemma_scan_test_item_accounts(s: Seq<char>, pos: int, line: LineContext)
    requires
        0 <= pos <= s.len(),
    ensures
        scan_test_item(s, pos, line).accounts(s, pos, 0, 0),
    decreases remaining(s, pos), 1nat,
{
    if pos < s.len() {
        lemma_token_at(s, pos);
        let lexeme = token_at(s, pos);
        let next = pos + lexeme.len;
        let tests = VisitorContext::Tests;
        let after = test_item_after(s, next, line, lexeme.token);
        match lexeme.token {
            Token::LineBreak => {
                let rest = scan_test_item(s, next, LineContext::blank());
                lemma_scan_test_item_accounts(s, next, LineContext::blank());
                lemma_line_first_accounts(line.line(tests, true), rest, s, next);
            },
            Token::EndOfStatement => {
                lemma_skip_line_accounts(s, next, tests, line.with_code());
            },
            Token::CodeBlockOpen => {
                let inner = scan_code(s, next, tests, line, false);
                let rest = skip_line(s, next + inner.len, tests, line.with_code());
                lemma_scan_code_accounts(s, next, tests, line, false);
                lemma_skip_line_accounts(s, next + inner.len, tests, line.with_code());
                lemma_followed_by_accounts(inner, rest, s, next, 0, 0, 1, 0);
            },
            Token::WhiteSpace => {
                lemma_scan_test_item_accounts(s, next, line);
            },
            _ => {
                lemma_scan_test_item_accounts(
                    s,
                    next,
                    if line.spec_is_inside_comment() {
                        line
                    } else {
                        line.with_code()
                    },
                );
            },
        }
        lemma_token_accounts(s, pos, after);
    } else {
        lemma_nothing_accounts(s, pos);
    }
}

/// The counts of a file add up to the number of its lines, and its lines are as
/// many as the line breaks of its text and the lines that the end of the text cut off:
/// no line is counted twice, and none is dropped.
pub proof fn lemma_every_line_counted(s: Seq<char>, context: VisitorContext)
    ensures
        tally(1, classify(s, context)).sum() == classify(s, context).len(),
        count_closed(classify(s, context)) == line_breaks(s, 0, s.len() as int),
        classify(s, context).len() == line_breaks(s, 0, s.len() as int) + (classify(
            s,
            context,
        ).len() - count_closed(classify(s, context))),
{
    lemma_tally_counts_each_line_once(1, classify(s, context));
    lemma_scan_code_accounts(s, 0, context, LineContext::blank(), true);
}

/// Where a line break ends every line of a file, the counts of the file add up to the
/// number of line breaks of its text.
pub proof fn lemma_sum_is_line_breaks(s: Seq<char>, context: VisitorContext)
    requires
        forall|i: int| 0 <= i < classify(s, context).len() ==> (#[trigger] classify(
            s,
            context,
        )[i]).closed,
    ensures
        tally(1, classify(s, context)).sum() == line_breaks(s, 0, s.len() as int),
{
    lemma_every_line_counted(s, context);
    lemma_all_closed(classify(s, context));
}

/// Where a line break ended every line, the lines that a line break ended are all.
pub proof fn lemma_all_closed(lines: Seq<Line>)
    requires
        forall|i: int| 0 <= i < lines.len() ==> (#[trigger] lines[i]).closed,
    ensures
        count_closed(lines) == lines.len(),
    decreases lines.len(),
{
    if lines.len() > 0 {
        lemma_all_closed(lines.drop_last());
    }
}

impl Scan {
    /// The first line that the scan counts, if it counts any.
    pub open spec fn first(self) -> Option<Line> {
        if self.lines.len() > 0 {
            Some(self.lines[0])
        } else {
            None
        }
    }

    /// The scan counts no line, or its first line is a code line.
    pub open spec fn starts_with_code(self) -> bool {
        self.first() matches Some(line) ==> line.kind == LineKind::Code
    }
}

/// The first line of two scans that follow one another is that of the first scan, or
/// that of the second where the first counts no line.
pub proof fn lemma_followed_by_first(a: Scan, b: Scan)
    ensures
        a.followed_by(b).first() == if a.first() is Some {
            a.first()
        } else {
            b.first()
        },
{
}

/// Whether, in the scan of code from `pos`, a block comment opens before the line at
/// `pos` has been counted, and reaches the end of the line or of the text still open:
/// the comment then has the line counted as its own.
pub open spec fn comment_takes_line(
    s: Seq<char>,
    pos: int,
    context: VisitorContext,
    line: LineContext,
    till_the_end: bool,
) -> bool
    decreases remaining(s, pos), 0nat,
{
    if !(0 <= pos < s.len()) {
        false
    } else {
        let lexeme = token_at(s, pos);
        proof {
            lemma_token_at(s, pos);
        }
        comment_takes_line_after(s, pos + lexeme.len, context, line, till_the_end, lexeme.token)
    }
}

/// Whether, in what follows `token` in code from `pos`, a block comment opens before
/// the line has been counted, and has the line counted as its own.
pub open spec fn comment_takes_line_after(
    s: Seq<char>,
    pos: int,
    context: VisitorContext,
    line: LineContext,
    till_the_end: bool,
    token: Token,
) -> bool
    decreases remaining(s, pos), 3nat,
{
    match token {
        Token::LineBreak | Token::CommentStart | Token::DocCommentStart
        | Token::TestBlockStart => false,
        Token::WhiteSpace => comment_takes_line(s, pos, context, line, till_the_end),
        Token::CommentBlockOpen => {
            let inner = scan_comment(s, pos, context, false, LineContext::comment(false));
            inner.first() is Some || comment_takes_line(
                s,
                pos + inner.len,
                context,
                line.with_comment_start(),
                till_the_end,
            )
        },
        Token::DocComentBlockOpen => {
            let inner = scan_comment(s, pos, context, true, LineContext::comment(true));
            inner.first() is Some || comment_takes_line(
                s,
                pos + inner.len,
                context,
                line.with_doc_comment_start(),
                till_the_end,
            )
        },
        Token::CodeBlockOpen => {
            let inner = scan_code(s, pos, context, line, false);
            if inner.first() is Some {
                comment_takes_line(s, pos, context, line, false)
            } else {
                comment_takes_line(s, pos + inner.len, context, line.with_code(), till_the_end)
            }
        },
        Token::CodeBlockClose => till_the_end && comment_takes_line(
            s,
            pos,
            context,
            line,
            till_the_end,
        ),
        Token::DoubleQuote | Token::StringBlockOpen | Token::DoubleStringBlockOpen => {
            let inner = scan_string_of(s, pos, context, token);
            inner.first() is None && comment_takes_line(
                s,
                pos + inner.len,
                context,
                line.with_code(),
                till_the_end,
            )
        },
        _ => comment_takes_line(s, pos, context, line.with_code(), till_the_end),
    }
}

/// Inside a string, a line on which code was seen is a code line.
pub proof fn lemma_string_line_is_code(
    s: Seq<char>,
    pos: int,
    context: VisitorContext,
    line: LineContext,
    closing: Token,
)
    requires
        line.has_code,
    ensures
        scan_string(s, pos, context, line, closing).starts_with_code(),
    decreases remaining(s, pos),
{
    if 0 <= pos < s.len() {
        lemma_token_at(s, pos);
        let lexeme = token_at(s, pos);
        let next = pos + lexeme.len;
        let after = string_after(s, next, context, line, closing, lexeme.token);
        if lexeme.token == Token::LineBreak {
            lemma_followed_by_first(
                Scan::line(line.line(context, true)),
                scan_string(s, next, context, LineContext::blank(), closing),
            );
        } else if lexeme.token != closing {
            lemma_string_line_is_code(s, next, context, line.with_code(), closing);
        }
        lemma_followed_by_first(Scan::skip(lexeme.len), after);
    }
}

/// In code, a line on which code was seen is a code line, whatever follows the code
/// on the line: a line comment, a string, a block, a test marker, a block comment that
/// is closed on the line. The one exception is a block comment that opens behind the
/// code and is still open where the line ends: it has the line counted as its own.
pub proof fn lemma_code_line_is_code(
    s: Seq<char>,
    pos: int,
    context: VisitorContext,
    line: LineContext,
    till_the_end: bool,
)
    requires
        line.has_code,
        !comment_takes_line(s, pos, context, line, till_the_end),
    ensures
        scan_code(s, pos, context, line, till_the_end).starts_with_code(),
    decreases remaining(s, pos), 0nat,
{
    if 0 <= pos < s.len() {
        lemma_token_at(s, pos);
        let lexeme = token_at(s, pos);
        let next = pos + lexeme.len;
        let after = code_after(s, next, context, line, till_the_end, lexeme.token);
        lemma_code_line_is_code_after(s, next, context, line, till_the_end, lexeme.token);
        lemma_followed_by_first(Scan::skip(lexeme.len), after);
    }
}

/// Behind a token in code, a line on which code was seen is a code line, unless a
/// block comment has the line counted as its own.
pub proof fn lemma_code_line_is_code_after(
    s: Seq<char>,
    pos: int,
    context: VisitorContext,
    line: LineContext,
    till_the_end: bool,
    token: Token,
)
    requires
        line.has_code,
        !comment_takes_line_after(s, pos, context, line, till_the_end, token),
    ensures
        code_after(s, pos, context, line, till_the_end, token).starts_with_code(),
    decreases remaining(s, pos), 3nat,
{
    match token {
        Token::LineBreak => {
            lemma_followed_by_first(
                Scan::line(line.line(context, true)),
                scan_code(s, pos, context, LineContext::blank(), till_the_end),
            );
        },
        Token::WhiteSpace => {
            lemma_code_line_is_code(s, pos, context, line, till_the_end);
        },
        Token::CommentStart => {
            let flags = line.with_comment_start();
            let first = skip_line(s, pos, context, flags);
            lemma_followed_by_first(
                Scan::skip(line_len(s, pos)),
                Scan::line(flags.line(context, line_closed(s, pos))),
            );
            lemma_followed_by_first(
                first,
                scan_code(s, pos + first.len, context, LineContext::blank(), till_the_end),
            );
        },
        Token::DocCommentStart => {
            let flags = line.with_doc_comment_start();
            let first = skip_line(s, pos, context, flags);
            lemma_followed_by_first(
                Scan::skip(line_len(s, pos)),
                Scan::line(flags.line(context, line_closed(s, pos))),
            );
            lemma_followed_by_first(
                first,
                scan_code(s, pos + first.len, context, LineContext::blank(), till_the_end),
            );
        },
        Token::CommentBlockOpen => {
            let inner = scan_comment(s, pos, context, false, LineContext::comment(false));
            let flags = line.with_comment_start();
            lemma_code_line_is_code(s, pos + inner.len, context, flags, till_the_end);
            lemma_followed_by_first(
                inner,
                scan_code(s, pos + inner.len, context, flags, till_the_end),
            );
        },
        Token::DocComentBlockOpen => {
            let inner = scan_comment(s, pos, context, true, LineContext::comment(true));
            let flags = line.with_doc_comment_start();
            lemma_code_line_is_code(s, pos + inner.len, context, flags, till_the_end);
            lemma_followed_by_first(
                inner,
                scan_code(s, pos + inner.len, context, flags, till_the_end),
            );
        },
        Token::TestBlockStart => {
            let code = LineContext::code();
            let tests = VisitorContext::Tests;
            let first = skip_line(s, pos, tests, code);
            let inner = scan_test_block(s, pos);
            lemma_followed_by_first(
                Scan::skip(line_len(s, pos)),
                Scan::line(code.line(tests, line_closed(s, pos))),
            );
            lemma_followed_by_first(
                first,
                scan_test_item(s, pos + first.len, LineContext::blank()),
            );
            lemma_followed_by_first(
                inner,
                scan_code(s, pos + inner.len, context, line, till_the_end),
            );
        },
        Token::CodeBlockOpen => {
            let inner = scan_code(s, pos, context, line, false);
            if inner.first() is Some {
                lemma_code_line_is_code(s, pos, context, line, false);
            } else {
                lemma_code_line_is_code(s, pos + inner.len, context, line.with_code(), till_the_end);
            }
            lemma_followed_by_first(
                inner,
                scan_code(s, pos + inner.len, context, line.with_code(), till_the_end),
            );
        },
        Token::CodeBlockClose => {
            if till_the_end {
                lemma_code_line_is_code(s, pos, context, line, till_the_end);
            }
        },
        Token::DoubleQuote | Token::StringBlockOpen | Token::DoubleStringBlockOpen => {
            let inner = scan_string_of(s, pos, context, token);
            lemma_string_line_is_code(s, pos, context, LineContext::code(), closing_of(token));
            if inner.first() is None {
                lemma_code_line_is_code(s, pos + inner.len, context, line.with_code(), till_the_end);
            }
            lemma_followed_by_first(
                inner,
                scan_code(s, pos + inner.len, context, line.with_code(), till_the_end),
            );
        },
        _ => {
            lemma_code_line_is_code(s, pos, context, line.with_code(), till_the_end);
        },
    }
}

} // verus!
