//! Regions, line categories, and the flags from which a line's category is decided.

use vstd::prelude::*;
use crate::warlocs::LocsView;
use crate::warlocs::WarlocsView;

verus! {

/// The region that a line is counted under.
#[derive(Debug, Copy, Clone, PartialEq, Eq, Structural)]
pub enum VisitorContext {
    Main,
    Tests,
    Example,
}

/// The category of a line.
#[derive(Debug, Copy, Clone, PartialEq, Eq, Structural)]
pub enum LineKind {
    Code,
    Docs,
    Comments,
    Whitespaces,
}

/// What has been seen on the line that is being read.
#[derive(Debug, Copy, Clone)]
pub struct LineContext {
    pub has_code: bool,
    pub has_comment_start: bool,
    pub has_doc_comment_start: bool,
}

/// One counted line: its region, its category, and whether a line break ended it
/// (if not, the input ended first).
pub struct Line {
    pub context: VisitorContext,
    pub kind: LineKind,
    pub closed: bool,
}

impl VisitorContext {
    /// The region of a file under the path whose components are `components`, in
    /// order. The first component named `tests`, `tests.rs` or `examples` decides: the
    /// tests for the first two, the examples for the third. With no such component
    /// the file belongs to the main code.
    pub open spec fn of_path(components: Seq<String>) -> VisitorContext
        decreases components.len(),
    {
        if components.len() == 0 {
            VisitorContext::Main
        } else if components[0]@ == "tests"@ || components[0]@ == "tests.rs"@ {
            VisitorContext::Tests
        } else if components[0]@ == "examples"@ {
            VisitorContext::Example
        } else {
            VisitorContext::of_path(components.skip(1))
        }
    }

    /// The region of a file under the path whose components are `components`, in order.
    pub fn from_file_path(components: &[String]) -> (context: VisitorContext)
        ensures
            context == VisitorContext::of_path(components@),
    {
        let tests = "tests".to_owned();
        let tests_rs = "tests.rs".to_owned();
        let examples = "examples".to_owned();
        let mut i: usize = 0;
        proof {
            assert(components@.skip(0) =~= components@);
        }
        while i < components.len()
            invariant
                i <= components.len(),
                tests@ == "tests"@,
                tests_rs@ == "tests.rs"@,
                examples@ == "examples"@,
                VisitorContext::of_path(components@) == VisitorContext::of_path(
                    components@.skip(i as int),
                ),
            decreases components.len() - i,
        {
            let ghost rest = components@.skip(i as int);
            proof {
                assert(rest[0] == components@[i as int]);
                assert(rest.skip(1) =~= components@.skip(i + 1));
            }
            if components[i] == tests || components[i] == tests_rs {
                return VisitorContext::Tests;
            }
            if components[i] == examples {
                return VisitorContext::Example;
            }
            i += 1;
        }
        VisitorContext::Main
    }
}

impl LineContext {
    /// Nothing seen yet.
    pub open spec fn blank() -> LineContext {
        LineContext { has_code: false, has_comment_start: false, has_doc_comment_start: false }
    }

    /// Code seen, and nothing else.
    pub open spec fn code() -> LineContext {
        LineContext { has_code: true, has_comment_start: false, has_doc_comment_start: false }
    }

    /// The flags of a line inside a block comment: documentation or plain, and no code.
    pub open spec fn comment(is_doc: bool) -> LineContext {
        LineContext { has_code: false, has_comment_start: !is_doc, has_doc_comment_start: is_doc }
    }

    /// The same flags, and code seen.
    pub open spec fn with_code(self) -> LineContext {
        LineContext { has_code: true, ..self }
    }

    /// The same flags, and a plain comment seen.
    pub open spec fn with_comment_start(self) -> LineContext {
        LineContext { has_comment_start: true, ..self }
    }

    /// The same flags, and a documentation comment seen.
    pub open spec fn with_doc_comment_start(self) -> LineContext {
        LineContext { has_doc_comment_start: true, ..self }
    }

    /// The same code flag, and the comment flags of a line inside a block comment.
    pub open spec fn inside_comment(self, is_doc: bool) -> LineContext {
        LineContext { has_comment_start: !is_doc, has_doc_comment_start: is_doc, ..self }
    }

    /// Whether a comment of either sort has been seen.
    pub open spec fn spec_is_inside_comment(&self) -> bool {
        self.has_comment_start || self.has_doc_comment_start
    }

    /// The category of the line: code wins over documentation, documentation over
    /// a plain comment, and a line with none of them is blank.
    pub open spec fn kind(self) -> LineKind {
        if self.has_code {
            LineKind::Code
        } else if self.has_doc_comment_start {
            LineKind::Docs
        } else if self.has_comment_start {
            LineKind::Comments
        } else {
            LineKind::Whitespaces
        }
    }

    /// The line that these flags give in `context`.
    pub open spec fn line(self, context: VisitorContext, closed: bool) -> Line {
        Line { context, kind: self.kind(), closed }
    }

    /// Whether a comment of either sort has been seen.
    #[verifier::when_used_as_spec(spec_is_inside_comment)]
    pub fn is_inside_comment(&self) -> (inside: bool)
        ensures
            inside == self.spec_is_inside_comment(),
    {
        self.has_comment_start || self.has_doc_comment_start
    }
}

impl Default for LineContext {
    fn default() -> (context: LineContext)
        ensures
            context == LineContext::blank(),
    {
        LineContext { has_code: false, has_comment_start: false, has_doc_comment_start: false }
    }
}

/// How many of `lines` are of `kind` in `context`.
pub open spec fn count_lines(lines: Seq<Line>, context: VisitorContext, kind: LineKind) -> nat
    decreases lines.len(),
{
    if lines.len() == 0 {
        0
    } else {
        let last = lines.last();
        let one: nat = if last.context == context && last.kind == kind { 1 } else { 0 };
        count_lines(lines.drop_last(), context, kind) + one
    }
}

/// How many of `lines` a line break ended.
pub open spec fn count_closed(lines: Seq<Line>) -> nat
    decreases lines.len(),
{
    if lines.len() == 0 {
        0
    } else {
        let one: nat = if lines.last().closed { 1 } else { 0 };
        count_closed(lines.drop_last()) + one
    }
}

/// The counts of the lines of `context` among `lines`, by category.
pub open spec fn region_tally(lines: Seq<Line>, context: VisitorContext) -> LocsView {
    LocsView {
        whitespaces: count_lines(lines, context, LineKind::Whitespaces),
        code: count_lines(lines, context, LineKind::Code),
        docs: count_lines(lines, context, LineKind::Docs),
        comments: count_lines(lines, context, LineKind::Comments),
    }
}

/// The counts of `lines` by region and category, for `file_count` files.
pub open spec fn tally(file_count: nat, lines: Seq<Line>) -> WarlocsView {
    WarlocsView {
        file_count,
        main: region_tally(lines, VisitorContext::Main),
        tests: region_tally(lines, VisitorContext::Tests),
        examples: region_tally(lines, VisitorContext::Example),
    }
}

/// Every line is counted once: under one category of one region.
pub proof fn lemma_tally_counts_each_line_once(file_count: nat, lines: Seq<Line>)
    ensures
        tally(file_count, lines).sum() == lines.len(),
    decreases lines.len(),
{
    if lines.len() > 0 {
        lemma_tally_counts_each_line_once(file_count, lines.drop_last());
    }
}

/// A line with code on it is a code line, whatever comment was seen on it too.
pub proof fn lemma_code_wins(context: LineContext)
    requires
        context.has_code,
    ensures
        context.kind() == LineKind::Code,
        context.with_comment_start().kind() == LineKind::Code,
        context.with_doc_comment_start().kind() == LineKind::Code,
{
}

} // verus!
