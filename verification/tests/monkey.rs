use oatie::apply::{apply_add, apply_delete, apply_operation};
use oatie::compose::{compose, compose_add_add, compose_add_del, compose_del_del};
use oatie::doc::{AddElement, DelElement, DocElement, DocString, DocText, Op};
use oatie::random::{random_add_span, random_del_span};
use oatie::rtf::StyleSet;

fn hello() -> Vec<DocElement> {
    vec![DocText(StyleSet::new(), DocString::from_str("Hello world!"))]
}

fn random_op(input: &Vec<DocElement>) -> Op {
    let del = random_del_span(input);
    let middle = apply_delete(input, &del);
    let ins = random_add_span(&middle);
    Op(del, ins)
}

fn add_add_rounds(rounds: usize) {
    for _ in 0..rounds {
        let start = hello();
        let a = random_add_span(&start);
        let middle = apply_add(&start, &a);
        let b = random_add_span(&middle);
        let end = apply_add(&middle, &b);

        let composed = compose_add_add(&a, &b);
        let otherend = apply_add(&start, &composed);
        assert_eq!(end, otherend);
    }
}

fn del_del_rounds(rounds: usize) {
    for _ in 0..rounds {
        let start = hello();
        let a = random_del_span(&start);
        let middle = apply_delete(&start, &a);
        let b = random_del_span(&middle);
        let end = apply_delete(&middle, &b);

        let composed = compose_del_del(&a, &b);
        let otherend = apply_delete(&start, &composed);
        assert_eq!(end, otherend);
    }
}

fn add_del_rounds(rounds: usize) {
    for _ in 0..rounds {
        let start = hello();
        let a = random_add_span(&start);
        let middle = apply_add(&start, &a);
        let b = random_del_span(&middle);
        let end = apply_delete(&middle, &b);

        let Op(dela, addb) = compose_add_del(&a, &b);
        let middle2 = apply_delete(&start, &dela);
        let otherend = apply_add(&middle2, &addb);
        assert_eq!(end, otherend);
    }
}

fn compose_rounds(rounds: usize) {
    let mut start = hello();
    for _ in 0..rounds {
        let a = random_op(&start);
        let middle = apply_operation(&start, &a);
        let b = random_op(&middle);
        let end = apply_operation(&middle, &b);

        let composed = compose(&a, &b);
        let otherend = apply_operation(&start, &composed);
        assert_eq!(end, otherend);

        start = end;
    }
}

#[test]
fn monkey_monkey_add_add() {
    add_add_rounds(1000);
}

#[test]
fn monkey_monkey_del_del() {
    del_del_rounds(1000);
}

#[test]
fn monkey_monkey_add_del() {
    add_del_rounds(1000);
}

#[test]
fn monkey_monkey_compose() {
    compose_rounds(100);
}

#[test]
fn compose_monkey_add_add() {
    add_add_rounds(1000);
}

#[test]
fn compose_monkey_del_del() {
    del_del_rounds(1000);
}

#[test]
fn compose_monkey_add_del() {
    add_del_rounds(1000);
}

#[test]
fn compose_monkey_compose() {
    compose_rounds(100);
}

#[test]
fn random_spans_keep_their_shape() {
    let doc = vec![
        DocText(StyleSet::new(), DocString::from_str("Hello world!")),
        oatie::doc::DocGroup(oatie::rtf::Attrs::Para, vec![]),
        DocText(StyleSet::new(), DocString::from_str("ab")),
    ];
    for _ in 0..200 {
        let del = random_del_span(&doc);
        // The first character of each text element is kept.
        assert!(matches!(del[0], DelElement::DelSkip(_)));
        for e in random_add_span(&doc) {
            match e {
                AddElement::AddText(st, text) => {
                    assert_eq!(st, StyleSet::new());
                    assert!(text.as_str().chars().all(|c| c.is_ascii_alphanumeric()));
                },
                AddElement::AddGroup(_, inner) => assert!(inner.is_empty()),
                AddElement::AddStyles(..) => panic!("styles are never added"),
                _ => {},
            }
        }
    }
}
