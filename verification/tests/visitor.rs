use warloc::line::VisitorContext;
use warloc::visitor::Visitor;
use warloc::warlocs::Warlocs;

fn stats(file: &str) -> Warlocs {
    Visitor::with_context(VisitorContext::Main, file.as_bytes()).visit_file()
}

#[test]
fn empty_file() {
    let file = "\n";
    let stats = stats(file);

    assert_eq!(stats.file_count, 1);
    assert_eq!(stats.main.whitespaces, 1);
    assert_eq!(stats.main.sum(), 1);
}

#[test]
fn one_empty_string() {
    let file = "  \t\t \n";
    let stats = stats(file);

    assert_eq!(stats.file_count, 1);
    assert_eq!(stats.main.whitespaces, 1);
    assert_eq!(stats.main.sum(), 1);
}

#[test]
fn one_code_string() {
    let file = "mod lib;\n";
    let stats = stats(file);

    assert_eq!(stats.main.code, 1);
    assert_eq!(stats.main.sum(), 1);
}

#[test]
fn single_comment() {
    let file = "   // Comment\n";
    let stats = stats(file);

    assert_eq!(stats.main.comments, 1);
    assert_eq!(stats.main.sum(), 1);
}

#[test]
fn single_doc() {
    let file = "   /// Documentation\n";
    let stats = stats(file);

    assert_eq!(stats.main.docs, 1);
    assert_eq!(stats.main.sum(), 1);
}

#[test]
fn single_module_doc() {
    let file = "   //! Documentation\n";
    let stats = stats(file);

    assert_eq!(stats.main.docs, 1);
    assert_eq!(stats.main.sum(), 1);
}

#[test]
fn comment_block() {
    let file = "   /* comment */ \n";
    let stats = stats(file);

    assert_eq!(stats.main.comments, 1);
    assert_eq!(stats.main.sum(), 1);
}

#[test]
fn multiline_comment_block() {
    let file = r#"   /* 

        comment 
        */ 
"#;

    let stats = stats(file);

    assert_eq!(stats.main.comments, 3);
    assert_eq!(stats.main.whitespaces, 1);
    assert_eq!(stats.main.sum(), 4);
}

#[test]
fn doc_comment_block() {
    let file = "   /** comment */ \n";
    let stats = stats(file);

    assert_eq!(stats.main.docs, 1);
    assert_eq!(stats.main.sum(), 1);
}

#[test]
fn multiline_doc_comment_block() {
    let file = r#"   /*!

        comment 
        */ 
"#;

    let stats = stats(file);

    assert_eq!(stats.main.docs, 3);
    assert_eq!(stats.main.whitespaces, 1);
    assert_eq!(stats.main.sum(), 4);
}

#[test]
fn comment_in_string_literals() {
    let file = r#"
let string = "Not a comment /*";
let a = 1;
"#;

    let stats = stats(file);

    assert_eq!(stats.main.comments, 0);
    assert_eq!(stats.main.code, 2);
}

#[test]
fn test_block() {
    let file = r#"
#[cfg(test)]
mod tests {

    use super::*;

}
"#;

    let stats = stats(file);

    assert_eq!(stats.tests.code, 4);
    assert_eq!(stats.tests.whitespaces, 2);
    assert_eq!(stats.tests.sum(), 6);
}

#[test]
fn multiline_string_literals() {
    let file = r##"
let string = r#"

This is a string
// This is also a string

"#;

"##;

    let stats = stats(file);

    assert_eq!(stats.main.code, 4);
    assert_eq!(stats.main.whitespaces, 4);
    assert_eq!(stats.main.sum(), 8);
}
