use oatie::apply::{apply_add, apply_delete, apply_operation};
use oatie::doc::{
    AddSkip, AddText, AddWithGroup, DelGroup, DelSkip, DelText, DelWithGroup, DocElement,
    DocGroup, DocString, DocText, Op,
};
use oatie::rtf::{Attrs, StyleSet};
use oatie::stream::{iterate, simple, Atom};

fn text(s: &str) -> DocElement {
    DocText(StyleSet::new(), DocString::from_str(s))
}

fn add_text(s: &str) -> oatie::doc::AddElement {
    AddText(StyleSet::new(), DocString::from_str(s))
}

fn hello_stream() -> Vec<Atom> {
    let mut atoms: Vec<Atom> = "Hello world!".chars().map(Atom::Char).collect();
    atoms.push(Atom::Enter(Attrs::Para));
    atoms.push(Atom::Leave);
    atoms
}

#[test]
fn doc_try_this() {
    let source = vec![text("Hello world!"), DocGroup(Attrs::Para, vec![])];

    assert_eq!(iterate(&source), hello_stream());

    assert_eq!(
        apply_delete(
            &vec![text("Hello world!"), DocGroup(Attrs::Para, vec![])],
            &vec![DelText(3), DelSkip(2), DelText(1), DelSkip(1), DelText(5), DelGroup(vec![])],
        ),
        vec![text("low")]
    );

    assert_eq!(apply_delete(&vec![text("Hello World!")], &vec![DelText(6)]), vec![text("World!")]);

    assert_eq!(apply_add(&vec![text("World!")], &vec![add_text("Hello ")]), vec![text("Hello World!")]);

    assert_eq!(
        apply_add(
            &vec![DocGroup(Attrs::Para, vec![]), text("World!")],
            &vec![AddSkip(1), add_text("Hello ")],
        ),
        vec![DocGroup(Attrs::Para, vec![]), text("Hello World!")]
    );

    assert_eq!(
        apply_delete(
            &vec![DocGroup(Attrs::Para, vec![text("Hello Damned World!")])],
            &vec![DelWithGroup(vec![DelSkip(6), DelText(7)])],
        ),
        vec![DocGroup(Attrs::Para, vec![text("Hello World!")])]
    );

    assert_eq!(
        apply_add(
            &vec![DocGroup(Attrs::Para, vec![text("Hello!")])],
            &vec![AddWithGroup(vec![AddSkip(5), add_text(" World")])],
        ),
        vec![DocGroup(Attrs::Para, vec![text("Hello World!")])]
    );

    assert_eq!(
        apply_operation(&vec![text("Goodbye World!")], &Op(vec![DelText(7)], vec![add_text("Hello")])),
        vec![text("Hello World!")]
    );

    assert_eq!(
        apply_add(&vec![text("Hello world!")], &vec![AddSkip(10), add_text("dd49"), AddSkip(2)]),
        vec![text("Hello worldd49d!")]
    );
}

#[test]
fn doc_test_lib_op() {
    assert_eq!(
        apply_operation(
            &vec![text("Heo"), DocGroup(Attrs::Para, vec![]), text("!")],
            &Op(vec![DelSkip(1), DelText(1), DelSkip(2), DelSkip(1)], vec![AddSkip(3)]),
        ),
        vec![text("Ho"), DocGroup(Attrs::Para, vec![]), text("!")]
    );
}

#[test]
fn lib_try_this() {
    assert_eq!(iterate(&vec![text("Hello world!"), DocGroup(Attrs::Para, vec![])]), hello_stream());

    assert_eq!(
        apply_delete(
            &vec![text("Hello world!"), DocGroup(Attrs::Para, vec![])],
            &vec![DelText(3), DelSkip(2), DelText(1), DelSkip(1), DelText(5), DelGroup(vec![])],
        ),
        vec![text("low")]
    );

    assert_eq!(apply_delete(&vec![text("Hello World!")], &vec![DelText(6)]), vec![text("World!")]);
}

#[test]
fn stream_of_nested_groups() {
    let doc = vec![DocGroup(Attrs::Code, vec![text("a"), DocGroup(Attrs::Para, vec![])]), text("b")];
    assert_eq!(
        iterate(&doc),
        vec![
            Atom::Enter(Attrs::Code),
            Atom::Char('a'),
            Atom::Enter(Attrs::Para),
            Atom::Leave,
            Atom::Leave,
            Atom::Char('b'),
        ]
    );
    assert_eq!(iterate(&vec![]), vec![]);
}

#[test]
fn simple_document() {
    assert_eq!(simple(), vec![text("Hello world!"), DocGroup(Attrs::Para, vec![])]);
    assert_eq!(iterate(&simple()), hello_stream());
}
