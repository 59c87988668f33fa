//! Tokens, and which token stands at a position of a character sequence.

use vstd::prelude::*;

verus! {

/// What the scanner tells apart in a source text.
#[derive(Debug, Copy, Clone, PartialEq, Eq, Structural)]
pub enum Token {
    LineBreak,
    WhiteSpace,
    TestBlockStart,
    CodeBlockOpen,
    CodeBlockClose,
    CommentStart,
    DocCommentStart,
    CommentBlockOpen,
    CommentBlockClose,
    DocComentBlockOpen,
    EndOfStatement,
    DoubleBackSlash,
    DoubleQuote,
    EscapedDoubleQuote,
    StringBlockOpen,
    StringBlockClose,
    DoubleStringBlockOpen,
    DoubleStringBlockClose,
    Other,
}

/// The characters that a greedy run takes, by the marker that the run belongs to.
#[derive(Debug, Copy, Clone, PartialEq, Eq, Structural)]
pub enum CharRun {
    /// After `/`: any of `!`, `*`, `/`.
    BlockComment,
    /// After `#`: anything but `]` and a line break.
    Attribute,
    /// After `"`: `#`.
    StringClose,
    /// After `r`: `#` or `"`.
    StringOpen,
}

/// A token and the number of characters that it is made of.
pub struct Lexeme {
    pub token: Token,
    pub len: nat,
}

/// Whether `char::is_whitespace` holds of `c`: whether `c` has the Unicode property
/// White_Space.
pub uninterp spec fn is_whitespace(c: char) -> bool;

/// `char::is_whitespace` tells whether the character has the Unicode property
/// White_Space; the answer depends on the character alone.
pub assume_specification[ char::is_whitespace ](c: char) -> (white: bool)
    ensures
        white == is_whitespace(c),
;

impl CharRun {
    /// Whether a run of this sort takes `c`.
    pub open spec fn admits(self, c: char) -> bool {
        match self {
            CharRun::BlockComment => c == '!' || c == '*' || c == '/',
            CharRun::Attribute => c != ']' && c != '\n',
            CharRun::StringClose => c == '#',
            CharRun::StringOpen => c == '#' || c == '"',
        }
    }

    /// Whether a run of this sort takes `c`.
    pub fn takes(self, c: char) -> (taken: bool)
        ensures
            taken == self.admits(c),
    {
        match self {
            CharRun::BlockComment => c == '!' || c == '*' || c == '/',
            CharRun::Attribute => c != ']' && c != '\n',
            CharRun::StringClose => c == '#',
            CharRun::StringOpen => c == '#' || c == '"',
        }
    }
}

/// The character at `at`, if the sequence reaches that far.
pub open spec fn peek(s: Seq<char>, at: int) -> Option<char> {
    if 0 <= at < s.len() {
        Some(s[at])
    } else {
        None
    }
}

/// The number of characters from `from` on that a run of sort `run` takes: as many as
/// it admits, one after the other.
pub open spec fn run_len(s: Seq<char>, from: int, run: CharRun) -> nat
    decreases s.len() - from,
{
    if 0 <= from < s.len() && run.admits(s[from]) {
        1 + run_len(s, from + 1, run)
    } else {
        0
    }
}

/// The text of a test marker: `#[cfg(test)]` or `#[test]`.
pub open spec fn is_test_marker(text: Seq<char>) -> bool {
    text == "#[cfg(test)]"@ || text == "#[test]"@
}

/// The text of a marker that opens a documentation block: `/**` or `/*!`.
pub open spec fn is_doc_block_open(text: Seq<char>) -> bool {
    text == "/**"@ || text == "/*!"@
}

/// Whether `text` ends in `*/`.
pub open spec fn ends_block(text: Seq<char>) -> bool {
    text.len() >= 2 && text[text.len() - 2] == '*' && text[text.len() - 1] == '/'
}

/// The token that starts with `//` at `pos`. A third `/` or a `!` belongs to it and
/// makes it a documentation marker, unless it is `///` with one more `/` behind it.
pub open spec fn line_comment_at(s: Seq<char>, pos: int) -> Lexeme {
    let third = peek(s, pos + 2);
    if third == Some('/') || third == Some('!') {
        if third == Some('/') && peek(s, pos + 3) == Some('/') {
            Lexeme { token: Token::CommentStart, len: 3 }
        } else {
            Lexeme { token: Token::DocCommentStart, len: 3 }
        }
    } else {
        Lexeme { token: Token::CommentStart, len: 2 }
    }
}

/// The token that starts with `/*` at `pos`: the `/` and the run of `!`, `*`, `/` behind
/// it. `/**` and `/*!` open a documentation block; a text that ends in `*/` is a
/// comment that is closed already and counts as white space; any other opens a
/// comment block.
pub open spec fn block_comment_at(s: Seq<char>, pos: int) -> Lexeme {
    let len = 1 + run_len(s, pos + 1, CharRun::BlockComment);
    let text = s.subrange(pos, pos + len);
    if is_doc_block_open(text) {
        Lexeme { token: Token::DocComentBlockOpen, len }
    } else if ends_block(text) {
        Lexeme { token: Token::WhiteSpace, len }
    } else {
        Lexeme { token: Token::CommentBlockOpen, len }
    }
}

/// The token that starts with `#[` at `pos`: the text up to the next `]` or line
/// break. With the `]`, which then belongs to it, a test marker's text is a test
/// marker; everything else is an ordinary token that ends before the line break or
/// with the input.
pub open spec fn attribute_at(s: Seq<char>, pos: int) -> Lexeme {
    let len = 1 + run_len(s, pos + 1, CharRun::Attribute);
    if peek(s, pos + len) == Some(']') {
        if is_test_marker(s.subrange(pos, pos + len + 1)) {
            Lexeme { token: Token::TestBlockStart, len: len + 1 }
        } else {
            Lexeme { token: Token::Other, len: len + 1 }
        }
    } else {
        Lexeme { token: Token::Other, len }
    }
}

/// The token that starts with `"#` at `pos`: the quote and all `#` behind it. One `#`
/// closes a raw string of one `#`, two close one of two.
pub open spec fn string_close_at(s: Seq<char>, pos: int) -> Lexeme {
    let len = 1 + run_len(s, pos + 1, CharRun::StringClose);
    let text = s.subrange(pos, pos + len);
    let token = if text == "\"#"@ {
        Token::StringBlockClose
    } else if text == "\"##"@ {
        Token::DoubleStringBlockClose
    } else {
        Token::Other
    };
    Lexeme { token, len }
}

/// The token that starts with `r#` at `pos`: the `r` and all `#` and `"` behind it.
/// `r#"` opens a raw string of one `#`, `r##"` one of two.
pub open spec fn string_open_at(s: Seq<char>, pos: int) -> Lexeme {
    let len = 1 + run_len(s, pos + 1, CharRun::StringOpen);
    let text = s.subrange(pos, pos + len);
    let token = if text == "r#\""@ {
        Token::StringBlockOpen
    } else if text == "r##\""@ {
        Token::DoubleStringBlockOpen
    } else {
        Token::Other
    };
    Lexeme { token, len }
}

/// The token that starts at `pos`, and its length. The longest marker wins: a
/// character that can start a marker of two or more characters does so where the
/// next character fits.
#[verifier::opaque]
pub open spec fn token_at(s: Seq<char>, pos: int) -> Lexeme
    recommends
        0 <= pos < s.len(),
{
    let c = s[pos];
    let next = peek(s, pos + 1);
    if c == '\n' {
        Lexeme { token: Token::LineBreak, len: 1 }
    } else if c == '/' && next == Some('/') {
        line_comment_at(s, pos)
    } else if c == '/' && next == Some('*') {
        block_comment_at(s, pos)
    } else if c == '*' && next == Some('/') {
        Lexeme { token: Token::CommentBlockClose, len: 2 }
    } else if c == '#' && next == Some('[') {
        attribute_at(s, pos)
    } else if c == '{' {
        Lexeme { token: Token::CodeBlockOpen, len: 1 }
    } else if c == '}' {
        Lexeme { token: Token::CodeBlockClose, len: 1 }
    } else if c == ';' {
        Lexeme { token: Token::EndOfStatement, len: 1 }
    } else if c == '\\' && next == Some('\\') {
        Lexeme { token: Token::DoubleBackSlash, len: 2 }
    } else if c == '\\' && next == Some('"') {
        Lexeme { token: Token::EscapedDoubleQuote, len: 2 }
    } else if c == '"' && next == Some('#') {
        string_close_at(s, pos)
    } else if c == '"' {
        Lexeme { token: Token::DoubleQuote, len: 1 }
    } else if c == 'r' && next == Some('#') {
        string_open_at(s, pos)
    } else if is_whitespace(c) {
        Lexeme { token: Token::WhiteSpace, len: 1 }
    } else {
        Lexeme { token: Token::Other, len: 1 }
    }
}

/// A run ends inside the text, takes every character in it, and does not take the
/// character behind it.
pub proof fn lemma_run_len(s: Seq<char>, from: int, run: CharRun)
    requires
        0 <= from <= s.len(),
    ensures
        from + run_len(s, from, run) <= s.len(),
        forall|i: int| from <= i < from + run_len(s, from, run) ==> run.admits(#[trigger] s[i]),
        peek(s, from + run_len(s, from, run)) matches Some(c) ==> !run.admits(c),
    decreases s.len() - from,
{
    if from < s.len() && run.admits(s[from]) {
        lemma_run_len(s, from + 1, run);
    }
}

/// A token has at least one character and lies inside the text.
pub proof fn lemma_token_at(s: Seq<char>, pos: int)
    requires
        0 <= pos < s.len(),
    ensures
        1 <= token_at(s, pos).len,
        pos + token_at(s, pos).len <= s.len(),
{
    reveal(token_at);
    lemma_run_len(s, pos + 1, CharRun::BlockComment);
    lemma_run_len(s, pos + 1, CharRun::Attribute);
    lemma_run_len(s, pos + 1, CharRun::StringClose);
    lemma_run_len(s, pos + 1, CharRun::StringOpen);
}

/// A line break is a token of its own, and no other token holds one.
pub proof fn lemma_token_line_break(s: Seq<char>, pos: int)
    requires
        0 <= pos < s.len(),
    ensures
        token_at(s, pos).token == Token::LineBreak <==> s[pos] == '\n',
        token_at(s, pos).token == Token::LineBreak ==> token_at(s, pos).len == 1,
        forall|i: int|
            pos < i < pos + token_at(s, pos).len ==> #[trigger] s[i] != '\n',
{
    reveal(token_at);
    lemma_run_len(s, pos + 1, CharRun::BlockComment);
    lemma_run_len(s, pos + 1, CharRun::Attribute);
    lemma_run_len(s, pos + 1, CharRun::StringClose);
    lemma_run_len(s, pos + 1, CharRun::StringOpen);
}

} // verus!
