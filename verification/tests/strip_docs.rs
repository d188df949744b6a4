use doxidize::strip_leading_space;

#[test]
fn strips_whitespace() {
    let input = " a doc comment
 this is the form they're generally in";

    let result = strip_leading_space(input);

    assert_eq!(
        result,
        "a doc comment
this is the form they're generally in"
    );
}

#[test]
fn works_on_the_empty_string() {
    let result = strip_leading_space("");

    assert_eq!(result, "");
}

#[test]
fn doesnt_panic_on_blank_lines() {
    let input = " Examples of rendering

 This module and its submodules are purely for show. Check out each type of
 item and see how Doxidize decides to render them!";

    let result = strip_leading_space(input);

    assert_eq!(
        result,
        "Examples of rendering

This module and its submodules are purely for show. Check out each type of
item and see how Doxidize decides to render them!"
    );
}

#[test]
fn keeps_a_line_without_a_leading_space() {
    assert_eq!(strip_leading_space("no space\n here"), "no space\nhere");
}

#[test]
fn drops_a_single_trailing_newline() {
    assert_eq!(strip_leading_space(" abc\n"), "abc");
}
