//! The scanner: reads the characters of one file token by token and counts its lines.

use vstd::prelude::*;
use vstd::string::StrSliceExecFns;
use crate::decode::decode;
use crate::decode::decoded;
use crate::decode::valid_chars;
use crate::line::lemma_tally_counts_each_line_once;
use crate::line::tally;
use crate::line::Line;
use crate::line::LineContext;
use crate::line::VisitorContext;
use crate::scan::classify;
use crate::scan::closing_of;
use crate::scan::code_after;
use crate::scan::comment_after;
use crate::scan::lemma_followed_by_associative;
use crate::scan::lemma_followed_by_nothing;
use crate::laws::lemma_scan_code_accounts;
use crate::scan::line_closed;
use crate::scan::line_len;
use crate::scan::scan_code;
use crate::scan::scan_comment;
use crate::scan::scan_string;
use crate::scan::scan_test_block;
use crate::scan::scan_test_item;
use crate::scan::skip_line;
use crate::scan::string_after;
use crate::scan::test_item_after;
use crate::scan::Scan;
use crate::token::lemma_run_len;
use crate::token::lemma_token_at;
use crate::token::peek;
use crate::token::run_len;
use crate::token::token_at;
use crate::token::CharRun;
use crate::token::Token;
use crate::warlocs::Locs;
use crate::warlocs::Warlocs;

verus! {

/// The scanner of one file: the file's characters, how far they have been read, and
/// the lines counted so far.
pub struct Visitor {
    chars: Vec<char>,
    pos: usize,
    context: VisitorContext,
    stats: Warlocs,
    lines: Ghost<Seq<Line>>,
}

impl Visitor {
    /// The characters of the file.
    pub closed spec fn input(&self) -> Seq<char> {
        self.chars@
    }

    /// The file's own region.
    pub closed spec fn context(&self) -> VisitorContext {
        self.context
    }

    /// The scanner's invariant: it has not read past the end, its counts are those of
    /// the lines counted so far, and each of these lines has taken a character of its own.
    spec fn wf(&self) -> bool {
        &&& self.pos <= self.chars.len()
        &&& self.stats@ == tally(self.stats.file_count as nat, self.lines@)
        &&& self.lines@.len() <= self.pos
    }

    /// A scanner that has read nothing and counted nothing yet.
    pub closed spec fn unread(&self) -> bool {
        &&& self.wf()
        &&& self.pos == 0
        &&& self.lines@ == Seq::<Line>::empty()
        &&& self.stats.file_count == 0
    }

    /// The same file with the same lines counted; only the position may differ.
    spec fn reads_on(&self, before: &Visitor) -> bool {
        &&& self.chars == before.chars
        &&& self.context == before.context
        &&& self.stats == before.stats
        &&& self.lines == before.lines
        &&& self.pos >= before.pos
    }

    /// The state after the scan `scan` from the state `before`.
    spec fn follows(&self, before: &Visitor, scan: Scan) -> bool {
        &&& self.wf()
        &&& self.chars == before.chars
        &&& self.context == before.context
        &&& self.stats.file_count == before.stats.file_count
        &&& self.pos == before.pos + scan.len
        &&& self.lines@ == before.lines@ + scan.lines
    }

    /// The scan that the scanner makes in code for `token` before it looks for the next
    /// token, from `pos` behind the token: of the rest of a line comment's line, or of
    /// the inside of what the token opens; for another token, a line break's line or
    /// nothing.
    spec fn code_step(
        s: Seq<char>,
        pos: int,
        context: VisitorContext,
        line: LineContext,
        token: Token,
    ) -> Scan {
        match token {
            Token::LineBreak => Scan::line(line.line(context, true)),
            Token::CommentStart => skip_line(s, pos, context, line.with_comment_start()),
            Token::DocCommentStart => skip_line(s, pos, context, line.with_doc_comment_start()),
            Token::CommentBlockOpen => scan_comment(
                s,
                pos,
                context,
                false,
                LineContext::comment(false),
            ),
            Token::DocComentBlockOpen => scan_comment(
                s,
                pos,
                context,
                true,
                LineContext::comment(true),
            ),
            Token::TestBlockStart => scan_test_block(s, pos),
            Token::CodeBlockOpen => scan_code(s, pos, context, line, false),
            Token::DoubleQuote | Token::StringBlockOpen | Token::DoubleStringBlockOpen => {
                scan_string(s, pos, context, LineContext::code(), closing_of(token))
            },
            _ => Scan::nothing(),
        }
    }

    /// Reading on by `len` characters is a scan that counts nothing.
    proof fn lemma_reads(&self, at: &Visitor, len: nat)
        requires
            self.wf(),
            self.reads_on(at),
            self.pos == at.pos + len,
        ensures
            self.follows(at, Scan::skip(len)),
    {
        assert(at.lines@ + Seq::<Line>::empty() =~= at.lines@);
    }

    /// One more step of a scan: `at` came by `done` from `start`, and `self` by `step`
    /// from `at`, where `done`, `step` and `rest` make up `total`.
    proof fn lemma_step(
        &self,
        at: &Visitor,
        start: &Visitor,
        done: Scan,
        step: Scan,
        rest: Scan,
        total: Scan,
    )
        requires
            at.follows(start, done),
            self.follows(at, step),
            done.followed_by(step.followed_by(rest)) == total,
        ensures
            self.follows(start, done.followed_by(step)),
            done.followed_by(step).followed_by(rest) == total,
    {
        lemma_followed_by_associative(done, step, rest);
        assert((start.lines@ + done.lines) + step.lines =~= start.lines@ + (done.lines
            + step.lines));
    }

    /// A scanner for the characters `chars` of a file whose own region is `context`.
    pub fn from_chars(context: VisitorContext, chars: Vec<char>) -> (visitor: Visitor)
        ensures
            visitor.unread(),
            visitor.input() == chars@,
            visitor.context() == context,
    {
        Visitor { chars, pos: 0, context, stats: Warlocs::default(), lines: Ghost(Seq::empty()) }
    }

    /// A scanner for the file with the bytes `contents`, whose own region is `context`.
    /// Bytes that encode no character are passed over.
    pub fn with_context(context: VisitorContext, contents: &[u8]) -> (visitor: Visitor)
        ensures
            visitor.unread(),
            visitor.input() == valid_chars(decoded(contents@)),
            visitor.context() == context,
    {
        Visitor::from_chars(context, decode(contents))
    }

    /// A scanner for the file with the bytes `contents`, under the path whose components
    /// are `file_path`, in order: the path decides the file's own region.
    /// Bytes that encode no character are passed over.
    pub fn new(file_path: &[String], contents: &[u8]) -> (visitor: Visitor)
        ensures
            visitor.unread(),
            visitor.input() == valid_chars(decoded(contents@)),
            visitor.context() == VisitorContext::of_path(file_path@),
    {
        Visitor::with_context(VisitorContext::from_file_path(file_path), contents)
    }

    /// Whether the next character is `c`.
    fn lookahead_is(&self, c: char) -> (is: bool)
        requires
            self.wf(),
        ensures
            is == (peek(self.chars@, self.pos as int) == Some(c)),
    {
        self.pos < self.chars.len() && self.chars[self.pos] == c
    }

    /// Reads one character, if any is left.
    fn next_char(&mut self) -> (c: Option<char>)
        requires
            old(self).wf(),
        ensures
            final(self).wf(),
            final(self).reads_on(old(self)),
            c == peek(old(self).chars@, old(self).pos as int),
            final(self).pos == old(self).pos + (if c is Some { 1int } else { 0int }),
    {
        if self.pos < self.chars.len() {
            let c = self.chars[self.pos];
            self.pos = self.pos + 1;
            Some(c)
        } else {
            None
        }
    }

    /// Reads on for as long as the next character is one that `run` takes.
    fn collect_while(&mut self, run: CharRun)
        requires
            old(self).wf(),
        ensures
            final(self).wf(),
            final(self).reads_on(old(self)),
            final(self).pos == old(self).pos + run_len(old(self).chars@, old(self).pos as int, run),
    {
        while self.pos < self.chars.len() && run.takes(self.chars[self.pos])
            invariant
                self.wf(),
                self.reads_on(old(self)),
                self.pos + run_len(self.chars@, self.pos as int, run) == old(self).pos + run_len(
                    old(self).chars@,
                    old(self).pos as int,
                    run,
                ),
            decreases self.chars.len() - self.pos,
        {
            let _ = self.next_char();
        }
    }

    /// Whether the characters read from `start` on are those of `literal`.
    fn text_is(&self, start: usize, literal: &str) -> (same: bool)
        requires
            self.wf(),
            start <= self.pos,
        ensures
            same == (self.chars@.subrange(start as int, self.pos as int) == literal@),
    {
        let len = literal.unicode_len();
        if self.pos - start != len {
            return false;
        }
        let ghost text = self.chars@.subrange(start as int, self.pos as int);
        let mut i: usize = 0;
        while i < len
            invariant
                self.wf(),
                start <= self.pos,
                i <= len,
                len == literal@.len(),
                self.pos - start == len,
                text == self.chars@.subrange(start as int, self.pos as int),
                forall|j: int| 0 <= j < i ==> text[j] == literal@[j],
            decreases len - i,
        {
            if self.chars[start + i] != literal.get_char(i) {
                assert(text[i as int] != literal@[i as int]);
                return false;
            }
            i += 1;
        }
        assert(text =~= literal@);
        true
    }

    /// Reads the next token, if any character is left.
    fn next_token(&mut self) -> (token: Option<Token>)
        requires
            old(self).wf(),
        ensures
            final(self).wf(),
            final(self).reads_on(old(self)),
            old(self).pos >= old(self).chars.len() ==> token is None && final(self).pos == old(
                self,
            ).pos,
            old(self).pos < old(self).chars.len() ==> token == Some(
                token_at(old(self).chars@, old(self).pos as int).token,
            ) && final(self).pos == old(self).pos + token_at(
                old(self).chars@,
                old(self).pos as int,
            ).len,
    {
        proof {
            reveal(token_at);
        }
        let start = self.pos;
        let next_char = match self.next_char() {
            Some(c) => c,
            None => return None,
        };
        let token = if next_char == '\n' {
            Token::LineBreak
        } else if next_char == '/' && self.lookahead_is('/') {
            let _ = self.next_char();
            if self.lookahead_is('/') || self.lookahead_is('!') {
                let third = self.next_char();
                if third == Some('/') && self.lookahead_is('/') {
                    Token::CommentStart
                } else {
                    Token::DocCommentStart
                }
            } else {
                Token::CommentStart
            }
        } else if next_char == '/' && self.lookahead_is('*') {
            self.collect_while(CharRun::BlockComment);
            proof {
                lemma_run_len(self.chars@, start + 1, CharRun::BlockComment);
            }
            if self.text_is(start, "/**") || self.text_is(start, "/*!") {
                Token::DocComentBlockOpen
            } else if self.chars[self.pos - 2] == '*' && self.chars[self.pos - 1] == '/' {
                Token::WhiteSpace
            } else {
                Token::CommentBlockOpen
            }
        } else if next_char == '*' && self.lookahead_is('/') {
            let _ = self.next_char();
            Token::CommentBlockClose
        } else if next_char == '#' && self.lookahead_is('[') {
            self.collect_while(CharRun::Attribute);
            proof {
                lemma_run_len(self.chars@, start + 1, CharRun::Attribute);
            }
            if self.lookahead_is(']') {
                let _ = self.next_char();
                if self.text_is(start, "#[cfg(test)]") || self.text_is(start, "#[test]") {
                    Token::TestBlockStart
                } else {
                    Token::Other
                }
            } else {
                Token::Other
            }
        } else if next_char == '{' {
            Token::CodeBlockOpen
        } else if next_char == '}' {
            Token::CodeBlockClose
        } else if next_char == ';' {
            Token::EndOfStatement
        } else if next_char == '\\' && self.lookahead_is('\\') {
            let _ = self.next_char();
            Token::DoubleBackSlash
        } else if next_char == '\\' && self.lookahead_is('"') {
            let _ = self.next_char();
            Token::EscapedDoubleQuote
        } else if next_char == '"' && self.lookahead_is('#') {
            self.collect_while(CharRun::StringClose);
            if self.text_is(start, "\"#") {
                Token::StringBlockClose
            } else if self.text_is(start, "\"##") {
                Token::DoubleStringBlockClose
            } else {
                Token::Other
            }
        } else if next_char == '"' {
            Token::DoubleQuote
        } else if next_char == 'r' && self.lookahead_is('#') {
            self.collect_while(CharRun::StringOpen);
            if self.text_is(start, "r#\"") {
                Token::StringBlockOpen
            } else if self.text_is(start, "r##\"") {
                Token::DoubleStringBlockOpen
            } else {
                Token::Other
            }
        } else if next_char.is_whitespace() {
            Token::WhiteSpace
        } else {
            Token::Other
        };
        Some(token)
    }

    /// The counts of the region `context`.
    fn mut_stats(&mut self, context: VisitorContext) -> (stats: &mut Locs)
        ensures
            *stats == match context {
                VisitorContext::Main => old(self).stats.main,
                VisitorContext::Tests => old(self).stats.tests,
                VisitorContext::Example => old(self).stats.examples,
            },
            final(self).chars == old(self).chars,
            final(self).pos == old(self).pos,
            final(self).context == old(self).context,
            final(self).lines == old(self).lines,
            final(self).stats == match context {
                VisitorContext::Main => Warlocs { main: *final(stats), ..old(self).stats },
                VisitorContext::Tests => Warlocs { tests: *final(stats), ..old(self).stats },
                VisitorContext::Example => Warlocs { examples: *final(stats), ..old(self).stats },
            },
    {
        match context {
            VisitorContext::Main => &mut self.stats.main,
            VisitorContext::Tests => &mut self.stats.tests,
            VisitorContext::Example => &mut self.stats.examples,
        }
    }

    /// Counts the line that has been read, with the flags `line_context`, under
    /// `context`. `closed` tells whether a line break ended the line.
    fn finish_line(
        &mut self,
        context: VisitorContext,
        line_context: LineContext,
        Ghost(closed): Ghost<bool>,
    )
        requires
            old(self).wf(),
            old(self).lines@.len() < old(self).pos,
        ensures
            final(self).follows(old(self), Scan::line(line_context.line(context, closed))),
    {
        let ghost line = line_context.line(context, closed);
        let ghost lines = self.lines@;
        proof {
            lemma_tally_counts_each_line_once(self.stats.file_count as nat, lines);
            assert(lines.push(line).drop_last() =~= lines);
            assert(lines + seq![line] =~= lines.push(line));
        }
        self.lines = Ghost(lines.push(line));
        let stats = self.mut_stats(context);
        if line_context.has_code {
            stats.code = stats.code + 1;
        } else if line_context.has_doc_comment_start {
            stats.docs = stats.docs + 1;
        } else if line_context.has_comment_start {
            stats.comments = stats.comments + 1;
        } else {
            stats.whitespaces = stats.whitespaces + 1;
        }
    }

    /// Passes over the rest of the line and counts the line, with the flags
    /// `line_context`, under `context`.
    fn skip_line(&mut self, context: VisitorContext, line_context: LineContext)
        requires
            old(self).wf(),
            old(self).lines@.len() < old(self).pos,
        ensures
            final(self).follows(
                old(self),
                skip_line(old(self).chars@, old(self).pos as int, context, line_context),
            ),
    {
        let ghost start = *self;
        let ghost s = self.chars@;
        loop
            invariant_except_break
                self.pos + line_len(s, self.pos as int) == start.pos + line_len(s, start.pos as int),
                line_closed(s, self.pos as int) == line_closed(s, start.pos as int),
            invariant
                self.wf(),
                self.reads_on(&start),
                s == start.chars@,
            ensures
                self.pos == start.pos + line_len(s, start.pos as int),
            decreases self.chars.len() - self.pos,
        {
            match self.next_char() {
                Some(c) => {
                    if c == '\n' {
                        break ;
                    }
                },
                None => {
                    break ;
                },
            }
        }
        let ghost at = *self;
        let ghost closed = line_closed(s, start.pos as int);
        self.finish_line(context, line_context, Ghost(closed));
        proof {
            let len = line_len(s, start.pos as int);
            at.lemma_reads(&start, len);
            lemma_followed_by_nothing(Scan::line(line_context.line(context, closed)));
            self.lemma_step(
                &at,
                &start,
                Scan::skip(len),
                Scan::line(line_context.line(context, closed)),
                Scan::nothing(),
                skip_line(s, start.pos as int, context, line_context),
            );
        }
    }

    /// Reads the inside of a raw string, up to and with the token `closing_token`,
    /// and counts the lines that end in it.
    fn visit_string_block(&mut self, context: VisitorContext, closing_token: Token)
        requires
            old(self).wf(),
        ensures
            final(self).follows(
                old(self),
                scan_string(
                    old(self).chars@,
                    old(self).pos as int,
                    context,
                    LineContext::code(),
                    closing_token,
                ),
            ),
    {
        let mut line_context = LineContext {
            has_code: true,
            has_comment_start: false,
            has_doc_comment_start: false,
        };
        let ghost start = *self;
        let ghost s = self.chars@;
        let ghost total = scan_string(s, start.pos as int, context, line_context, closing_token);
        let ghost mut done = Scan::nothing();
        proof {
            lemma_followed_by_nothing(total);
            self.lemma_reads(&start, 0);
        }
        loop
            invariant
                self.follows(&start, done),
                start == *old(self),
                s == start.chars@,
                total == scan_string(
                    s,
                    start.pos as int,
                    context,
                    LineContext::code(),
                    closing_token,
                ),
                done.followed_by(
                    scan_string(s, self.pos as int, context, line_context, closing_token),
                ) == total,
            decreases self.chars.len() - self.pos,
        {
            let ghost at = *self;
            let token = match self.next_token() {
                Some(token) => token,
                None => {
                    proof {
                        lemma_followed_by_nothing(done);
                    }
                    return ;
                },
            };
            let ghost lexeme = token_at(s, at.pos as int);
            let ghost next = at.pos + lexeme.len;
            proof {
                lemma_token_at(s, at.pos as int);
                self.lemma_reads(&at, lexeme.len);
                self.lemma_step(
                    &at,
                    &start,
                    done,
                    Scan::skip(lexeme.len),
                    string_after(s, next, context, line_context, closing_token, token),
                    total,
                );
                done = done.followed_by(Scan::skip(lexeme.len));
            }
            if token == Token::LineBreak {
                let ghost read = *self;
                self.finish_line(context, line_context, Ghost(true));
                proof {
                    let step = Scan::line(line_context.line(context, true));
                    self.lemma_step(
                        &read,
                        &start,
                        done,
                        step,
                        scan_string(s, next, context, LineContext::blank(), closing_token),
                        total,
                    );
                    done = done.followed_by(step);
                }
                line_context = LineContext::default();
            } else if token == closing_token {
                proof {
                    lemma_followed_by_nothing(done);
                }
                return ;
            } else {
                line_context.has_code = true;
            }
        }
    }

    /// Reads the inside of a string, up to and with the quote that closes it, and
    /// counts the lines that end in it.
    fn visit_string(&mut self, context: VisitorContext)
        requires
            old(self).wf(),
        ensures
            final(self).follows(
                old(self),
                scan_string(
                    old(self).chars@,
                    old(self).pos as int,
                    context,
                    LineContext::code(),
                    Token::DoubleQuote,
                ),
            ),
    {
        self.visit_string_block(context, Token::DoubleQuote)
    }

    /// Reads the inside of a block comment, up to and with the `*/` that closes it,
    /// and counts the lines that end in it. `is_doc` tells a documentation block.
    fn visit_comment_block(&mut self, context: VisitorContext, is_doc: bool)
        requires
            old(self).wf(),
        ensures
            final(self).follows(
                old(self),
                scan_comment(
                    old(self).chars@,
                    old(self).pos as int,
                    context,
                    is_doc,
                    LineContext::comment(is_doc),
                ),
            ),
        decreases old(self).chars.len() - old(self).pos,
    {
        let mut line_context = LineContext {
            has_code: false,
            has_comment_start: !is_doc,
            has_doc_comment_start: is_doc,
        };
        let ghost start = *self;
        let ghost s = self.chars@;
        let ghost total = scan_comment(s, start.pos as int, context, is_doc, line_context);
        let ghost mut done = Scan::nothing();
        proof {
            lemma_followed_by_nothing(total);
            self.lemma_reads(&start, 0);
        }
        loop
            invariant
                self.follows(&start, done),
                start == *old(self),
                s == start.chars@,
                total == scan_comment(
                    s,
                    start.pos as int,
                    context,
                    is_doc,
                    LineContext::comment(is_doc),
                ),
                done.followed_by(scan_comment(s, self.pos as int, context, is_doc, line_context))
                    == total,
            decreases self.chars.len() - self.pos,
        {
            let ghost at = *self;
            let token = match self.next_token() {
                Some(token) => token,
                None => {
                    proof {
                        lemma_followed_by_nothing(done);
                    }
                    return ;
                },
            };
            let ghost lexeme = token_at(s, at.pos as int);
            let ghost next = at.pos + lexeme.len;
            proof {
                lemma_token_at(s, at.pos as int);
                self.lemma_reads(&at, lexeme.len);
                self.lemma_step(
                    &at,
                    &start,
                    done,
                    Scan::skip(lexeme.len),
                    comment_after(s, next, context, is_doc, line_context, token),
                    total,
                );
                done = done.followed_by(Scan::skip(lexeme.len));
            }
            let ghost read = *self;
            match token {
                Token::LineBreak => {
                    self.finish_line(context, line_context, Ghost(true));
                    proof {
                        let step = Scan::line(line_context.line(context, true));
                        self.lemma_step(
                            &read,
                            &start,
                            done,
                            step,
                            scan_comment(s, next, context, is_doc, LineContext::blank()),
                            total,
                        );
                        done = done.followed_by(step);
                    }
                    line_context = LineContext::default();
                },
                Token::CommentBlockOpen => {
                    self.visit_comment_block(context, false);
                    proof {
                        let step = scan_comment(s, next, context, false, LineContext::comment(false));
                        self.lemma_step(
                            &read,
                            &start,
                            done,
                            step,
                            scan_comment(s, next + step.len, context, is_doc, line_context),
                            total,
                        );
                        done = done.followed_by(step);
                    }
                },
                Token::CommentBlockClose => {
                    proof {
                        lemma_followed_by_nothing(done);
                    }
                    return ;
                },
                Token::DocComentBlockOpen => {
                    self.visit_comment_block(context, true);
                    proof {
                        let step = scan_comment(s, next, context, true, LineContext::comment(true));
                        self.lemma_step(
                            &read,
                            &start,
                            done,
                            step,
                            scan_comment(s, next + step.len, context, is_doc, line_context),
                            total,
                        );
                        done = done.followed_by(step);
                    }
                },
                Token::WhiteSpace => {},
                _ => {
                    line_context.has_comment_start = !is_doc;
                    line_context.has_doc_comment_start = is_doc;
                },
            }
        }
    }

    /// Reads what a test marker marks, from behind the marker, and counts its lines
    /// under the tests.
    fn visit_test_block(&mut self)
        requires
            old(self).wf(),
            old(self).lines@.len() < old(self).pos,
        ensures
            final(self).follows(
                old(self),
                scan_test_block(old(self).chars@, old(self).pos as int),
            ),
        decreases old(self).chars.len() - old(self).pos, 1nat,
    {
        let ghost start = *self;
        let ghost s = self.chars@;
        let ghost total = scan_test_block(s, start.pos as int);
        self.skip_line(
            VisitorContext::Tests,
            LineContext { has_code: true, has_comment_start: false, has_doc_comment_start: false },
        );
        let mut line_context = LineContext::default();
        let ghost mut done = skip_line(
            s,
            start.pos as int,
            VisitorContext::Tests,
            LineContext::code(),
        );
        loop
            invariant
                self.follows(&start, done),
                start == *old(self),
                s == start.chars@,
                total == scan_test_block(s, start.pos as int),
                done.followed_by(scan_test_item(s, self.pos as int, line_context)) == total,
            decreases self.chars.len() - self.pos,
        {
            let ghost at = *self;
            let token = match self.next_token() {
                Some(token) => token,
                None => {
                    proof {
                        lemma_followed_by_nothing(done);
                    }
                    return ;
                },
            };
            let ghost lexeme = token_at(s, at.pos as int);
            let ghost next = at.pos + lexeme.len;
            proof {
                lemma_token_at(s, at.pos as int);
                self.lemma_reads(&at, lexeme.len);
                self.lemma_step(
                    &at,
                    &start,
                    done,
                    Scan::skip(lexeme.len),
                    test_item_after(s, next, line_context, token),
                    total,
                );
                done = done.followed_by(Scan::skip(lexeme.len));
            }
            let ghost read = *self;
            match token {
                Token::LineBreak => {
                    self.finish_line(VisitorContext::Tests, line_context, Ghost(true));
                    proof {
                        let step = Scan::line(line_context.line(VisitorContext::Tests, true));
                        self.lemma_step(
                            &read,
                            &start,
                            done,
                            step,
                            scan_test_item(s, next, LineContext::blank()),
                            total,
                        );
                        done = done.followed_by(step);
                    }
                    line_context = LineContext::default();
                },
                Token::EndOfStatement => {
                    line_context.has_code = true;
                    self.skip_line(VisitorContext::Tests, line_context);
                    proof {
                        let step = skip_line(s, next, VisitorContext::Tests, line_context);
                        lemma_followed_by_nothing(step);
                        self.lemma_step(&read, &start, done, step, Scan::nothing(), total);
                        lemma_followed_by_nothing(done.followed_by(step));
                    }
                    return ;
                },
                Token::CodeBlockOpen => {
                    self.visit_code_block(VisitorContext::Tests, line_context, false);
                    let ghost inner = scan_code(s, next, VisitorContext::Tests, line_context, false);
                    let ghost block = *self;
                    proof {
                        lemma_scan_code_accounts(s, next, VisitorContext::Tests, line_context, false);
                        self.lemma_step(
                            &read,
                            &start,
                            done,
                            inner,
                            skip_line(
                                s,
                                next + inner.len,
                                VisitorContext::Tests,
                                line_context.with_code(),
                            ),
                            total,
                        );
                        done = done.followed_by(inner);
                    }
                    line_context.has_code = true;
                    self.skip_line(VisitorContext::Tests, line_context);
                    proof {
                        let step = skip_line(s, next + inner.len, VisitorContext::Tests, line_context);
                        lemma_followed_by_nothing(step);
                        self.lemma_step(&block, &start, done, step, Scan::nothing(), total);
                        lemma_followed_by_nothing(done.followed_by(step));
                    }
                    return ;
                },
                Token::WhiteSpace => {},
                _ => {
                    if !line_context.is_inside_comment() {
                        line_context.has_code = true;
                    }
                },
            }
        }
    }

    /// Reads code and counts its lines under `context`: to the end of the file if
    /// `till_the_end`, else up to and with the `}` that closes the block.
    /// `line_context` holds what has been seen on the line so far.
    fn visit_code_block(
        &mut self,
        context: VisitorContext,
        line_context: LineContext,
        till_the_end: bool,
    )
        requires
            old(self).wf(),
        ensures
            final(self).follows(
                old(self),
                scan_code(
                    old(self).chars@,
                    old(self).pos as int,
                    context,
                    line_context,
                    till_the_end,
                ),
            ),
        decreases old(self).chars.len() - old(self).pos, 0nat,
    {
        let ghost start = *self;
        let ghost s = self.chars@;
        let ghost total = scan_code(s, start.pos as int, context, line_context, till_the_end);
        let ghost mut done = Scan::nothing();
        let mut current = line_context;
        proof {
            lemma_followed_by_nothing(total);
            self.lemma_reads(&start, 0);
        }
        loop
            invariant
                self.follows(&start, done),
                start == *old(self),
                s == start.chars@,
                total == scan_code(s, start.pos as int, context, line_context, till_the_end),
                done.followed_by(
                    scan_code(s, self.pos as int, context, current, till_the_end),
                ) == total,
            decreases self.chars.len() - self.pos,
        {
            let ghost at = *self;
            let token = match self.next_token() {
                Some(token) => token,
                None => {
                    proof {
                        lemma_followed_by_nothing(done);
                    }
                    return ;
                },
            };
            let ghost lexeme = token_at(s, at.pos as int);
            let ghost next = at.pos + lexeme.len;
            proof {
                lemma_token_at(s, at.pos as int);
                self.lemma_reads(&at, lexeme.len);
                self.lemma_step(
                    &at,
                    &start,
                    done,
                    Scan::skip(lexeme.len),
                    code_after(s, next, context, current, till_the_end, token),
                    total,
                );
                done = done.followed_by(Scan::skip(lexeme.len));
            }
            let ghost read = *self;
            let ghost flags = current;
            match token {
                Token::LineBreak => {
                    self.finish_line(context, current, Ghost(true));
                    current = LineContext::default();
                },
                Token::WhiteSpace => {},
                Token::CommentStart => {
                    current.has_comment_start = true;
                    self.skip_line(context, current);
                    current = LineContext::default();
                },
                Token::DocCommentStart => {
                    current.has_doc_comment_start = true;
                    self.skip_line(context, current);
                    current = LineContext::default();
                },
                Token::CommentBlockOpen => {
                    self.visit_comment_block(context, false);
                    current.has_comment_start = true;
                },
                Token::DocComentBlockOpen => {
                    self.visit_comment_block(context, true);
                    current.has_doc_comment_start = true;
                },
                Token::TestBlockStart => {
                    self.visit_test_block();
                },
                Token::CodeBlockOpen => {
                    self.visit_code_block(context, current, false);
                    current.has_code = true;
                },
                Token::CodeBlockClose => {
                    if !till_the_end {
                        proof {
                            lemma_followed_by_nothing(done);
                        }
                        return ;
                    }
                },
                Token::DoubleQuote => {
                    self.visit_string(context);
                    current.has_code = true;
                },
                Token::StringBlockOpen => {
                    self.visit_string_block(context, Token::StringBlockClose);
                    current.has_code = true;
                },
                Token::DoubleStringBlockOpen => {
                    self.visit_string_block(context, Token::DoubleStringBlockClose);
                    current.has_code = true;
                },
                _ => {
                    current.has_code = true;
                },
            }
            proof {
                let step = Visitor::code_step(s, next, context, flags, token);
                let rest = scan_code(s, next + step.len, context, current, till_the_end);
                lemma_followed_by_nothing(rest);
                self.lemma_step(&read, &start, done, step, rest, total);
                done = done.followed_by(step);
            }
        }
    }

    /// Reads the whole file as code of the region `context` and counts its lines.
    fn visit_code(&mut self, context: VisitorContext)
        requires
            old(self).wf(),
        ensures
            final(self).follows(
                old(self),
                scan_code(
                    old(self).chars@,
                    old(self).pos as int,
                    context,
                    LineContext::blank(),
                    true,
                ),
            ),
    {
        let line_context = LineContext::default();
        self.visit_code_block(context, line_context, true);
    }

    /// Reads the file to its end and gives its line counts, for one file: each line
    /// that the scan of the text ends is counted once, under its region and category,
    /// so that the counts add up to the number of these lines.
    pub fn visit_file(self) -> (stats: Warlocs)
        requires
            self.unread(),
        ensures
            stats@ == tally(1, classify(self.input(), self.context())),
            stats@.sum() == classify(self.input(), self.context()).len(),
    {
        let mut visitor = self;
        visitor.stats.file_count += 1;
        let context = visitor.context;
        visitor.visit_code(context);
        proof {
            assert(Seq::<Line>::empty() + classify(self.chars@, self.context) =~= classify(
                self.chars@,
                self.context,
            ));
            lemma_tally_counts_each_line_once(1, classify(self.chars@, self.context));
        }
        visitor.stats
    }
}

} // verus!
