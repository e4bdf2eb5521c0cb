use sjmb_matrix::{trim_ws, ws_normalize, ConvertWhiteSpace};

#[test]
fn ws_convert_joins_words_with_underscores() {
    assert_eq!("  Alice \t  Smith  ".ws_convert(), "Alice_Smith");
    assert_eq!("a  b\tc\n\nd".ws_convert(), "a_b_c_d");
}

#[test]
fn ws_convert_of_empty_is_empty() {
    assert_eq!("".ws_convert(), "");
    assert_eq!(" \t\n ".ws_convert(), "");
}

#[test]
fn ws_convert_on_owned_string() {
    assert_eq!(String::from("Alice ").ws_convert(), "Alice");
    assert_eq!(String::from("General").ws_convert(), "General");
}

#[test]
fn ws_normalize_keeps_single_words_and_unicode_spaces() {
    assert_eq!(ws_normalize("word"), "word");
    assert_eq!(ws_normalize("x\u{3000}y\u{00a0}z"), "x_y_z");
    assert_eq!(ws_normalize("é  ü"), "é_ü");
}

#[test]
fn ws_normalize_output_has_no_edge_or_double_underscores() {
    let r = ws_normalize("\t lots   of\t\tspace  here \n");
    assert_eq!(r, "lots_of_space_here");
    assert!(!r.starts_with('_'));
    assert!(!r.ends_with('_'));
    assert!(!r.contains("__"));
}

#[test]
fn trim_ws_drops_both_ends() {
    assert_eq!(trim_ws("  check this \t\n"), "check this");
    assert_eq!(trim_ws("   "), "");
    assert_eq!(trim_ws("x"), "x");
}

#[test]
fn ws_convert_equals_words_joined() {
    for s in ["  a b  ", "x\t\ty\nz", "", "   ", "one", "_a  b_", "a\u{2003}b"] {
        let words: Vec<&str> = s.split_whitespace().collect();
        assert_eq!(s.ws_convert(), words.join("_"));
    }
}

#[test]
fn ws_convert_splits_back_into_words() {
    for s in ["  a b  ", "x\t\ty\nz", "one", " Rust  Users\tGroup "] {
        let words: Vec<&str> = s.split_whitespace().collect();
        let r = s.ws_convert();
        assert_eq!(r.split('_').collect::<Vec<&str>>(), words);
    }
}
