use docmerge::assemble::{assemble, SEPARATOR};

#[test]
fn no_fragments_give_the_empty_document() {
    assert_eq!(assemble(&Vec::new()), "");
}

#[test]
fn three_fragments_are_joined_by_the_separator() {
    let fragments = vec!["a".to_string(), "b".to_string(), "c".to_string()];
    assert_eq!(assemble(&fragments), "a\n\n * * * \n\nb\n\n * * * \n\nc");
}

#[test]
fn one_fragment_stands_alone() {
    assert_eq!(assemble(&vec!["only".to_string()]), "only");
}

#[test]
fn empty_fragments_still_get_separators() {
    let fragments = vec![String::new(), String::new()];
    assert_eq!(assemble(&fragments), SEPARATOR);
}

#[test]
fn the_separator_is_fixed() {
    assert_eq!(SEPARATOR, "\n\n * * * \n\n");
}
