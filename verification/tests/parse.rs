use oatie::parse::{char_is_white_space, debug_pretty, try_debug_pretty};

#[test]
fn debug_pretty_lays_out_lists() {
    assert_eq!(debug_pretty("[A(1), B([]), C]"), "[\n    A(1), B([]),\n    C\n]");
}

#[test]
fn debug_pretty_nested_lists() {
    assert_eq!(debug_pretty("[[x]]"), "[\n    [\n        x\n    ]\n]");
    assert_eq!(debug_pretty("no lists"), "no lists");
    assert_eq!(debug_pretty(""), "");
}

#[test]
fn debug_pretty_indents_new_lines() {
    assert_eq!(debug_pretty("[a\nb]"), "[\n    a\n    b\n]");
}

#[test]
fn debug_pretty_refuses_what_it_cannot_lay_out() {
    assert_eq!(try_debug_pretty("]"), None);
    assert_eq!(try_debug_pretty("[   "), None);
    assert_eq!(try_debug_pretty("[]),  "), None);
    assert_eq!(try_debug_pretty("[]), x"), Some("[]),\nx".to_string()));
}

#[test]
fn white_space_is_that_of_std() {
    for u in 0..=0x10FFFFu32 {
        if let Some(c) = char::from_u32(u) {
            assert_eq!(char_is_white_space(c), c.is_whitespace(), "{:?}", c);
        }
    }
}
