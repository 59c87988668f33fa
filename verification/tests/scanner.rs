use warloc::line::VisitorContext;
use warloc::visitor::Visitor;
use warloc::warlocs::Warlocs;

fn count(context: VisitorContext, file: &str) -> Warlocs {
    Visitor::with_context(context, file.as_bytes()).visit_file()
}

fn main_count(file: &str) -> Warlocs {
    count(VisitorContext::Main, file)
}

#[test]
fn empty_input_counts_one_file_and_no_line() {
    let stats = main_count("");

    assert_eq!(stats.file_count, 1);
    assert_eq!(stats.sum(), 0);
}

#[test]
fn trailing_line_comment_leaves_a_code_line() {
    let stats = main_count("let a = 1; // note\n");

    assert_eq!(stats.main.code, 1);
    assert_eq!(stats.main.comments, 0);
    assert_eq!(stats.main.sum(), 1);
}

#[test]
fn trailing_doc_comment_leaves_a_code_line() {
    let stats = main_count("let a = 1; /// note\n");

    assert_eq!(stats.main.code, 1);
    assert_eq!(stats.main.docs, 0);
}

#[test]
fn closed_block_comment_behind_code_leaves_a_code_line() {
    let stats = main_count("let a = 1; /* note */\n");

    assert_eq!(stats.main.code, 1);
    assert_eq!(stats.main.comments, 0);
}

#[test]
fn code_behind_a_closed_block_comment_is_a_code_line() {
    let stats = main_count("/* note */ let a = 1;\n");

    assert_eq!(stats.main.code, 1);
    assert_eq!(stats.main.comments, 0);
}

#[test]
fn open_block_comment_behind_code_takes_the_line() {
    let stats = main_count("let a = 1; /* note\n*/\n");

    assert_eq!(stats.main.comments, 1);
    assert_eq!(stats.main.code, 1);
    assert_eq!(stats.main.sum(), 2);
}

#[test]
fn doc_wins_over_comment_on_one_line() {
    let stats = main_count("/* a */ /** b */\n");

    assert_eq!(stats.main.docs, 1);
    assert_eq!(stats.main.comments, 0);
}

#[test]
fn four_slashes_are_a_plain_comment() {
    let stats = main_count("//// separator\n");

    assert_eq!(stats.main.comments, 1);
    assert_eq!(stats.main.docs, 0);
}

#[test]
fn three_slashes_at_the_end_of_input_are_a_doc_comment() {
    let stats = main_count("///");

    assert_eq!(stats.main.docs, 1);
    assert_eq!(stats.main.sum(), 1);
}

#[test]
fn empty_block_comment_is_white_space() {
    let stats = main_count("/**/\n");

    assert_eq!(stats.main.whitespaces, 1);
    assert_eq!(stats.main.comments, 0);
    assert_eq!(stats.main.docs, 0);
}

#[test]
fn marker_that_ends_in_star_slash_is_white_space() {
    let stats = main_count("/*/\n/***/\n");

    assert_eq!(stats.main.whitespaces, 2);
    assert_eq!(stats.main.sum(), 2);
}

#[test]
fn longer_marker_opens_a_plain_block_comment() {
    let stats = main_count("/*** a */\n/*!! b */\n");

    assert_eq!(stats.main.comments, 2);
    assert_eq!(stats.main.docs, 0);
}

#[test]
fn nested_block_comments_close_one_by_one() {
    let stats = main_count("/* a /* b */ c\n d */\nlet a = 1;\n");

    assert_eq!(stats.main.comments, 2);
    assert_eq!(stats.main.code, 1);
}

#[test]
fn nested_doc_block_does_not_change_the_outer_sort() {
    let stats = main_count("/* a /** b */ c\n d */\n");

    assert_eq!(stats.main.comments, 2);
    assert_eq!(stats.main.docs, 0);
}

#[test]
fn doc_block_over_two_lines() {
    let stats = main_count("/** a\n b */\n");

    assert_eq!(stats.main.docs, 2);
    assert_eq!(stats.main.sum(), 2);
}

#[test]
fn last_line_without_line_break_is_not_counted() {
    let stats = main_count("let a = 1;\nlet b = 2;");

    assert_eq!(stats.main.code, 1);
    assert_eq!(stats.sum(), 1);
}

#[test]
fn line_comment_without_line_break_is_counted() {
    let stats = main_count("// note");

    assert_eq!(stats.main.comments, 1);
    assert_eq!(stats.sum(), 1);
}

#[test]
fn unclosed_comment_and_string_end_with_the_input() {
    let comment = main_count("/* a\n b\n c");
    let string = main_count("let s = \"a\n b\n c");

    assert_eq!(comment.main.comments, 2);
    assert_eq!(comment.sum(), 2);
    assert_eq!(string.main.code, 2);
    assert_eq!(string.sum(), 2);
}

#[test]
fn sum_is_the_number_of_line_breaks() {
    let file = "//! doc\n\nfn main() {\n    let s = \"a\n\nb\"; /* c\n    d */\n}\n";
    let stats = main_count(file);

    assert_eq!(file.matches('\n').count(), 8);
    assert_eq!(stats.sum(), 8);
    assert_eq!(stats.main.docs, 1);
    assert_eq!(stats.main.whitespaces, 2);
    assert_eq!(stats.main.code, 4);
    assert_eq!(stats.main.comments, 1);
}

#[test]
fn line_cut_off_behind_a_test_block_is_counted() {
    let stats = main_count("#[test]\n{\n");

    assert_eq!(stats.tests.code, 2);
    assert_eq!(stats.tests.whitespaces, 1);
    assert_eq!(stats.sum(), 3);
}

#[test]
fn escaped_quote_does_not_close_a_string() {
    let stats = main_count("let s = \"a\\\"b // c\";\nlet t = 1;\n");

    assert_eq!(stats.main.code, 2);
    assert_eq!(stats.main.comments, 0);
}

#[test]
fn escaped_backslash_before_a_quote_closes_a_string() {
    let stats = main_count("let s = \"a\\\\\"; // c\n// d\n");

    assert_eq!(stats.main.code, 1);
    assert_eq!(stats.main.comments, 1);
}

#[test]
fn blank_line_inside_a_string_is_blank() {
    let stats = main_count("let s = \"a\n\nb\";\n");

    assert_eq!(stats.main.code, 2);
    assert_eq!(stats.main.whitespaces, 1);
}

#[test]
fn raw_string_of_two_hashes_ends_at_two_hashes() {
    let stats = main_count("let s = r##\"a \"# b\n// c\n\"##; // d\n// e\n");

    assert_eq!(stats.main.code, 3);
    assert_eq!(stats.main.comments, 1);
}

#[test]
fn raw_string_of_one_hash_ends_at_one_hash() {
    let stats = main_count("let s = r#\"a \" b\n/* c\n\"#;\n/* d */\n");

    assert_eq!(stats.main.code, 3);
    assert_eq!(stats.main.comments, 1);
}

#[test]
fn raw_marker_of_three_hashes_opens_no_string() {
    let stats = main_count("r###\n// a\n");

    assert_eq!(stats.main.code, 1);
    assert_eq!(stats.main.comments, 1);
}

#[test]
fn test_attribute_moves_a_function_to_the_tests() {
    let stats = main_count("#[test]\nfn a() {\n    x();\n}\nfn b() {}\n");

    assert_eq!(stats.tests.code, 4);
    assert_eq!(stats.tests.sum(), 4);
    assert_eq!(stats.main.code, 1);
    assert_eq!(stats.main.sum(), 1);
}

#[test]
fn test_attribute_before_a_statement_ends_with_its_line() {
    let stats = main_count("#[cfg(test)]\nmod tests;\nfn a() {}\n");

    assert_eq!(stats.tests.code, 2);
    assert_eq!(stats.main.code, 1);
    assert_eq!(stats.sum(), 3);
}

#[test]
fn rest_of_the_marker_line_is_passed_over() {
    let stats = main_count("#[test] fn a() { }\nfn b() { }\n");

    assert_eq!(stats.tests.code, 2);
    assert_eq!(stats.tests.sum(), 2);
    assert_eq!(stats.main.sum(), 0);
}

#[test]
fn blank_lines_behind_a_test_marker_belong_to_the_tests() {
    let stats = main_count("#[test]\n\nfn a();\n\n");

    assert_eq!(stats.tests.code, 2);
    assert_eq!(stats.tests.whitespaces, 1);
    assert_eq!(stats.main.whitespaces, 1);
}

#[test]
fn test_marker_in_a_tests_file_stays_in_the_tests() {
    let stats = count(VisitorContext::Tests, "use a;\n#[test]\nfn a() {}\nfn b() {}\n");

    assert_eq!(stats.tests.code, 4);
    assert_eq!(stats.main.sum(), 0);
    assert_eq!(stats.examples.sum(), 0);
}

#[test]
fn test_marker_in_an_example_counts_under_the_tests() {
    let stats = count(VisitorContext::Example, "use a;\n#[test]\nfn a() {}\nfn b() {}\n");

    assert_eq!(stats.examples.code, 2);
    assert_eq!(stats.tests.code, 2);
    assert_eq!(stats.main.sum(), 0);
}

#[test]
fn other_attributes_are_code() {
    let stats = main_count("#[derive(Debug)]\nstruct A;\n#[cfg(tests)]\nmod a;\n");

    assert_eq!(stats.main.code, 4);
    assert_eq!(stats.tests.sum(), 0);
}

#[test]
fn attribute_without_closing_bracket_is_code() {
    let stats = main_count("#[test\nfn a() {}\n#[test");

    assert_eq!(stats.main.code, 2);
    assert_eq!(stats.tests.sum(), 0);
}

#[test]
fn brace_alone_opens_a_block_on_a_blank_line() {
    let stats = main_count("{\n}\n");

    assert_eq!(stats.main.whitespaces, 1);
    assert_eq!(stats.main.code, 1);
}

#[test]
fn closing_brace_without_a_block_is_passed_over() {
    let stats = main_count("}\nlet a = 1;\n}}\n");

    assert_eq!(stats.main.whitespaces, 2);
    assert_eq!(stats.main.code, 1);
}

#[test]
fn block_keeps_the_region_of_its_file() {
    let stats = count(VisitorContext::Example, "fn main() {\n    // a\n    /// b\n\n    a();\n}\n");

    assert_eq!(stats.examples.code, 3);
    assert_eq!(stats.examples.comments, 1);
    assert_eq!(stats.examples.docs, 1);
    assert_eq!(stats.examples.whitespaces, 1);
    assert_eq!(stats.examples.sum(), 6);
    assert_eq!(stats.main.sum(), 0);
}

#[test]
fn unicode_white_space_is_blank() {
    let stats = main_count("\u{a0}\u{2003}\r\n\u{3000}\n\u{200b}\n");

    assert_eq!(stats.main.whitespaces, 2);
    assert_eq!(stats.main.code, 1);
}

#[test]
fn text_in_other_scripts_is_code() {
    let stats = main_count("let имя = \"значение\";\n// комментарий\n");

    assert_eq!(stats.main.code, 1);
    assert_eq!(stats.main.comments, 1);
}

#[test]
fn bytes_that_encode_no_character_are_passed_over() {
    let broken = Visitor::with_context(VisitorContext::Main, b"/\xff/ a\nlet\xc3 b;\n\xf8\n").visit_file();
    let clean = main_count("// a\nlet b;\n\n");

    assert_eq!(broken.main.comments, 1);
    assert_eq!(broken.main.code, 1);
    assert_eq!(broken.main.whitespaces, 1);
    assert_eq!(broken.sum(), clean.sum());
}

#[test]
fn scanner_from_characters_counts_like_the_one_from_bytes() {
    let file = "fn a() {\n    /* b */\n}\n";
    let from_chars = Visitor::from_chars(VisitorContext::Main, file.chars().collect()).visit_file();
    let from_bytes = main_count(file);

    assert_eq!(from_chars.main.code, 2);
    assert_eq!(from_chars.main.comments, 1);
    assert_eq!(from_chars.main.code, from_bytes.main.code);
    assert_eq!(from_chars.main.comments, from_bytes.main.comments);
    assert_eq!(from_chars.file_count, 1);
}

#[test]
fn path_decides_the_region_of_a_new_scanner() {
    let tests = vec!["tests".to_string(), "it.rs".to_string()];
    let examples = vec!["examples".to_string(), "demo.rs".to_string()];
    let main = vec!["src".to_string(), "lib.rs".to_string()];
    let file = b"fn a() {}\n";

    assert_eq!(Visitor::new(&tests, file).visit_file().tests.code, 1);
    assert_eq!(Visitor::new(&examples, file).visit_file().examples.code, 1);
    assert_eq!(Visitor::new(&main, file).visit_file().main.code, 1);
    assert_eq!(Visitor::new(&tests, file).visit_file().main.sum(), 0);
}
