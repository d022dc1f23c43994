use frust::io::parse_args;
use frust::preprocessor::remove_comments;

fn words(all: &[&str]) -> Vec<String> {
    all.iter().map(|w| w.to_string()).collect()
}

#[test]
fn input_and_output_are_named() {
    assert_eq!(
        parse_args(words(&["frustc", "main.fr", "main.S"])),
        Ok(("main.fr".to_string(), "main.S".to_string()))
    );
}

#[test]
fn the_output_has_a_default_name() {
    assert_eq!(parse_args(words(&["frustc", "main.fr"])), Ok(("main.fr".to_string(), "a.S".to_string())));
}

#[test]
fn any_other_number_of_arguments_is_an_error() {
    let usage = "Wrong number of arguments: \n Usage: frustc input.fr output.S".to_string();
    assert_eq!(parse_args(words(&[])), Err(usage.clone()));
    assert_eq!(parse_args(words(&["frustc"])), Err(usage.clone()));
    assert_eq!(parse_args(words(&["frustc", "a", "b", "c"])), Err(usage));
}

#[test]
fn a_text_without_comments_stays_as_it_is() {
    assert_eq!(remove_comments(""), Some("".to_string()));
    assert_eq!(remove_comments("let x: num = 6 / 2;\n"), Some("let x: num = 6 / 2;\n".to_string()));
}

#[test]
fn a_line_comment_ends_with_its_line() {
    assert_eq!(remove_comments("a // b\nc"), Some("a \nc".to_string()));
    assert_eq!(remove_comments("// only"), Some("".to_string()));
    assert_eq!(remove_comments("x = 1; // one\n// two\ny = 2;"), Some("x = 1; \n\ny = 2;".to_string()));
}

#[test]
fn a_block_comment_ends_at_the_nearest_end_mark() {
    assert_eq!(remove_comments("a /* b */ c"), Some("a  c".to_string()));
    assert_eq!(remove_comments("a /* b\n b */ c /* d */ e"), Some("a  c  e".to_string()));
    assert_eq!(remove_comments("a /* b */ c */ d"), Some("a  c */ d".to_string()));
    assert_eq!(remove_comments("/* // */ x"), Some(" x".to_string()));
    assert_eq!(remove_comments("/**/"), Some("".to_string()));
}

#[test]
fn a_block_comment_without_end_is_no_comment() {
    assert_eq!(remove_comments("a /* b"), Some("a /* b".to_string()));
    assert_eq!(remove_comments("/*/"), Some("/*/".to_string()));
    assert_eq!(remove_comments("a /* b // c\nd"), Some("a /* b \nd".to_string()));
}
