use oatie::apply::{apply_add, apply_delete, apply_operation};
use oatie::compose::{compose, compose_add_add, compose_add_del, compose_del_del};
use oatie::doc::{
    AddGroup, AddSkip, AddStyles, AddText, AddWithGroup, DelGroup, DelSkip, DelStyles, DelText,
    DelWithGroup, DocElement, DocGroup, DocString, DocText, Op,
};
use oatie::random::{random_add_span, random_del_span};
use oatie::rtf::{Attrs, RtfStyle, StyleSet};

fn text(s: &str) -> DocElement {
    DocText(StyleSet::new(), DocString::from_str(s))
}

fn add_text(s: &str) -> oatie::doc::AddElement {
    AddText(StyleSet::new(), DocString::from_str(s))
}

fn doc() -> Vec<DocElement> {
    vec![text("abc"), DocGroup(Attrs::Para, vec![text("de"), DocGroup(Attrs::Code, vec![])]), text("f")]
}

#[test]
fn law_compose_del_del_on_groups() {
    let d = doc();
    let a = vec![DelSkip(1), DelText(1), DelSkip(1), DelGroup(vec![DelText(1), DelSkip(1), DelSkip(1)])];
    let b = vec![
        DelSkip(1),
        DelStyles(1, StyleSet::from(&[RtfStyle::Bold])),
        DelText(1),
        DelWithGroup(vec![]),
        DelText(1),
    ];
    let middle = apply_delete(&d, &a);
    assert_eq!(middle, vec![text("ace"), DocGroup(Attrs::Code, vec![]), text("f")]);
    let end = apply_delete(&middle, &b);
    assert_eq!(end, vec![text("ac"), DocGroup(Attrs::Code, vec![])]);
    assert_eq!(apply_delete(&d, &compose_del_del(&a, &b)), end);
}

#[test]
fn law_compose_add_add_on_groups() {
    let d = doc();
    let a = vec![AddSkip(1), add_text("X"), AddSkip(2), AddWithGroup(vec![AddGroup(Attrs::Html, vec![AddSkip(1)])])];
    let middle = apply_add(&d, &a);
    let b = vec![AddStyles(2, StyleSet::from(&[RtfStyle::Italic])), AddGroup(Attrs::Para, vec![AddSkip(2)]), add_text("Y")];
    let end = apply_add(&middle, &b);
    assert_eq!(apply_add(&d, &compose_add_add(&a, &b)), end);
}

#[test]
fn law_compose_add_del_on_groups() {
    let d = doc();
    let a = vec![AddSkip(2), add_text("XY"), AddGroup(Attrs::Html, vec![AddSkip(1)]), AddWithGroup(vec![AddSkip(1), add_text("Z")])];
    let middle = apply_add(&d, &a);
    let b = vec![DelSkip(2), DelText(1), DelStyles(1, StyleSet::from(&[RtfStyle::Bold])), DelGroup(vec![DelText(1)]), DelWithGroup(vec![DelSkip(1), DelText(1)])];
    let end = apply_delete(&middle, &b);
    let Op(dd, ii) = compose_add_del(&a, &b);
    assert_eq!(apply_add(&apply_delete(&d, &dd), &ii), end);
}

#[test]
fn law_compose_operations() {
    let d = doc();
    let a = Op(vec![DelSkip(1), DelText(1)], vec![AddSkip(1), add_text("Q")]);
    let middle = apply_operation(&d, &a);
    let b = Op(vec![DelText(1), DelSkip(1), DelText(1)], vec![AddGroup(Attrs::Para, vec![AddSkip(1)])]);
    let end = apply_operation(&middle, &b);
    assert_eq!(apply_operation(&d, &compose(&a, &b)), end);
}

#[test]
fn random_edits_apply_to_nested_documents() {
    let d = doc();
    for _ in 0..300 {
        let del = random_del_span(&d);
        let after = apply_delete(&d, &del);
        let add = random_add_span(&after);
        let _ = apply_add(&after, &add);
    }
}
