use warloc::line::LineContext;
use warloc::line::VisitorContext;

fn region(components: &[&str]) -> VisitorContext {
    let components: Vec<String> = components.iter().map(|name| name.to_string()).collect();
    VisitorContext::from_file_path(&components)
}

#[test]
fn path_without_a_special_component_is_main() {
    assert_eq!(region(&[]), VisitorContext::Main);
    assert_eq!(region(&["src", "lib.rs"]), VisitorContext::Main);
    assert_eq!(region(&["src", "tests_util.rs"]), VisitorContext::Main);
    assert_eq!(region(&["src", "test", "examples.rs"]), VisitorContext::Main);
}

#[test]
fn tests_directory_and_tests_file_are_tests() {
    assert_eq!(region(&["tests", "it.rs"]), VisitorContext::Tests);
    assert_eq!(region(&["src", "tests.rs"]), VisitorContext::Tests);
    assert_eq!(region(&["crates", "a", "tests", "b", "c.rs"]), VisitorContext::Tests);
}

#[test]
fn examples_directory_is_example() {
    assert_eq!(region(&["examples", "demo.rs"]), VisitorContext::Example);
    assert_eq!(region(&["a", "examples", "b", "demo.rs"]), VisitorContext::Example);
}

#[test]
fn first_special_component_decides() {
    assert_eq!(region(&["examples", "tests", "a.rs"]), VisitorContext::Example);
    assert_eq!(region(&["tests", "examples", "a.rs"]), VisitorContext::Tests);
    assert_eq!(region(&["examples", "tests.rs"]), VisitorContext::Example);
}

#[test]
fn comment_flags_tell_the_inside_of_a_comment() {
    let blank = LineContext::default();
    let code = LineContext { has_code: true, ..blank };
    let comment = LineContext { has_comment_start: true, ..blank };
    let doc = LineContext { has_doc_comment_start: true, ..code };

    assert!(!blank.has_code && !blank.has_comment_start && !blank.has_doc_comment_start);
    assert!(!blank.is_inside_comment());
    assert!(!code.is_inside_comment());
    assert!(comment.is_inside_comment());
    assert!(doc.is_inside_comment());
}
