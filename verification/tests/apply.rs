use oatie::apply::{apply_add, apply_delete, apply_operation};
use oatie::doc::{
    AddGroup, AddSkip, AddStyles, AddText, AddWithGroup, DelGroup, DelSkip, DelStyles, DelText,
    DelWithGroup, DocGroup, DocString, DocText, Op,
};
use oatie::rtf::{Attrs, RtfStyle, StyleSet};

fn text(s: &str) -> oatie::doc::DocElement {
    DocText(StyleSet::new(), DocString::from_str(s))
}

#[test]
fn apply_try_this() {
    assert_eq!(
        apply_delete(&vec![text("Hello World!")], &vec![DelText(6)]),
        vec![text("World!")]
    );

    assert_eq!(
        apply_add(
            &vec![text("World!")],
            &vec![AddText(StyleSet::new(), DocString::from_str("Hello "))],
        ),
        vec![text("Hello World!")],
    );

    assert_eq!(
        apply_add(
            &vec![DocGroup(Attrs::Para, vec![]), text("World!")],
            &vec![AddSkip(1), AddText(StyleSet::new(), DocString::from_str("Hello "))],
        ),
        vec![DocGroup(Attrs::Para, vec![]), text("Hello World!")]
    );

    assert_eq!(
        apply_delete(
            &vec![DocGroup(Attrs::Para, vec![text("Hello Damned World!")])],
            &vec![DelWithGroup(vec![DelSkip(6), DelText(7)])],
        ),
        vec![DocGroup(Attrs::Para, vec![text("Hello World!")])]
    );

    assert_eq!(
        apply_add(
            &vec![DocGroup(Attrs::Para, vec![text("Hello!")])],
            &vec![AddWithGroup(vec![
                AddSkip(5),
                AddText(StyleSet::new(), DocString::from_str(" World")),
            ])],
        ),
        vec![DocGroup(Attrs::Para, vec![text("Hello World!")])]
    );

    assert_eq!(
        apply_operation(
            &vec![text("Goodbye World!")],
            &Op(
                vec![DelText(7)],
                vec![AddText(StyleSet::new(), DocString::from_str("Hello"))],
            )
        ),
        vec![text("Hello World!")]
    );

    assert_eq!(
        apply_add(
            &vec![text("Hello world!")],
            &vec![
                AddSkip(10),
                AddText(StyleSet::new(), DocString::from_str("dd49")),
                AddSkip(2),
            ],
        ),
        vec![text("Hello worldd49d!")]
    );
}

#[test]
fn apply_test_lib_op() {
    assert_eq!(
        apply_operation(
            &vec![text("Heo"), DocGroup(Attrs::Para, vec![]), text("!")],
            &Op(
                vec![DelSkip(1), DelText(1), DelSkip(2), DelSkip(1)],
                vec![AddSkip(3)],
            ),
        ),
        vec![text("Ho"), DocGroup(Attrs::Para, vec![]), text("!")]
    );
}

#[test]
fn apply_ghost() {
    assert_eq!(
        apply_operation(
            &vec![text(" stop crying, little hip hop")],
            &Op(vec![], vec![AddText(StyleSet::new(), DocString::from_str("\u{01f47b}"))]),
        ),
        vec![text("\u{01f47b} stop crying, little hip hop")]
    );
}

#[test]
fn apply_delete_group_keeps_contents() {
    assert_eq!(
        apply_delete(
            &vec![text("a"), DocGroup(Attrs::Para, vec![text("bc")]), text("d")],
            &vec![DelSkip(1), DelGroup(vec![DelSkip(1), DelText(1)])],
        ),
        vec![text("abd")]
    );
}

#[test]
fn apply_add_group_wraps() {
    assert_eq!(
        apply_add(
            &vec![text("abcd")],
            &vec![AddSkip(1), AddGroup(Attrs::Para, vec![AddSkip(2)])],
        ),
        vec![text("a"), DocGroup(Attrs::Para, vec![text("bc")]), text("d")]
    );
}

#[test]
fn apply_styles_both_ways() {
    let bold = StyleSet::from(&[RtfStyle::Bold]);
    let styled = apply_add(&vec![text("abcd")], &vec![AddSkip(1), AddStyles(2, bold)]);
    assert_eq!(
        styled,
        vec![text("a"), DocText(bold, DocString::from_str("bc")), text("d")]
    );
    let plain = apply_delete(&styled, &vec![DelSkip(1), DelStyles(2, bold)]);
    assert_eq!(plain, vec![text("abcd")]);
}

#[test]
fn apply_empty_operations_keep_the_document() {
    let doc = vec![text("ab"), DocGroup(Attrs::Code, vec![text("c")])];
    assert_eq!(apply_delete(&doc, &vec![]), doc);
    assert_eq!(apply_add(&doc, &vec![]), doc);
    assert_eq!(apply_add(&vec![], &vec![AddText(StyleSet::new(), DocString::from_str("x"))]), vec![text("x")]);
}
