use oatie::doc::{
    AddGroup, AddSkip, AddText, AddWithGroup, DelGroup, DelSkip, DelText, DelWithGroup, DocString, Op,
};
use oatie::normalize::normalize;
use oatie::rtf::{Attrs, StyleSet};

fn add_text(s: &str) -> oatie::doc::AddElement {
    AddText(StyleSet::new(), DocString::from_str(s))
}

#[test]
fn normalize_drops_trailing_skips() {
    assert_eq!(
        normalize(Op(vec![DelText(2), DelSkip(3)], vec![add_text("x"), AddSkip(4)])),
        Op(vec![DelText(2)], vec![add_text("x")])
    );
}

#[test]
fn normalize_turns_skipping_groups_into_skips() {
    assert_eq!(
        normalize(Op(
            vec![DelSkip(3), DelWithGroup(vec![DelSkip(2)]), DelSkip(1), DelText(1)],
            vec![AddSkip(2), AddWithGroup(vec![AddSkip(1)]), add_text("x"), AddSkip(4)],
        )),
        Op(vec![DelSkip(5), DelText(1)], vec![AddSkip(3), add_text("x")])
    );
}

#[test]
fn normalize_keeps_inserted_and_deleted_groups() {
    assert_eq!(
        normalize(Op(
            vec![DelGroup(vec![DelSkip(2)]), DelWithGroup(vec![DelText(1), DelSkip(1)])],
            vec![AddGroup(Attrs::Para, vec![AddSkip(2)]), AddWithGroup(vec![add_text("y"), AddSkip(3)])],
        )),
        Op(
            vec![DelGroup(vec![DelSkip(2)]), DelWithGroup(vec![DelText(1)])],
            vec![AddGroup(Attrs::Para, vec![AddSkip(2)]), AddWithGroup(vec![add_text("y")])],
        )
    );
}

#[test]
fn normalize_empty_operation() {
    assert_eq!(normalize(Op(vec![], vec![])), Op(vec![], vec![]));
    assert_eq!(normalize(Op(vec![DelSkip(7)], vec![AddSkip(7)])), Op(vec![], vec![]));
}

#[test]
fn normalize_applies_like_the_operation() {
    let doc = vec![
        oatie::doc::DocGroup(
            Attrs::Para,
            vec![oatie::doc::DocText(StyleSet::new(), DocString::from_str("hello"))],
        ),
        oatie::doc::DocGroup(
            Attrs::Para,
            vec![oatie::doc::DocText(StyleSet::new(), DocString::from_str("world"))],
        ),
    ];
    let op = Op(
        vec![DelWithGroup(vec![DelSkip(5)]), DelWithGroup(vec![DelText(1), DelSkip(4)])],
        vec![AddWithGroup(vec![AddSkip(5)]), AddWithGroup(vec![add_text("W"), AddSkip(4)])],
    );
    let norm = normalize(op.clone());
    assert_eq!(
        norm,
        Op(
            vec![DelSkip(1), DelWithGroup(vec![DelText(1)])],
            vec![AddSkip(1), AddWithGroup(vec![add_text("W")])],
        )
    );
    let expected = vec![
        oatie::doc::DocGroup(
            Attrs::Para,
            vec![oatie::doc::DocText(StyleSet::new(), DocString::from_str("hello"))],
        ),
        oatie::doc::DocGroup(
            Attrs::Para,
            vec![oatie::doc::DocText(StyleSet::new(), DocString::from_str("World"))],
        ),
    ];
    assert_eq!(oatie::apply::apply_operation(&doc, &op), expected);
    assert_eq!(oatie::apply::apply_operation(&doc, &norm), expected);
}

#[test]
fn normalize_merges_inside_groups() {
    assert_eq!(
        normalize(Op(
            vec![DelWithGroup(vec![DelSkip(1), DelSkip(2), DelText(1), DelText(2)]), DelText(1)],
            vec![AddWithGroup(vec![add_text("a"), add_text("b"), AddSkip(1)]), add_text("c")],
        )),
        Op(
            vec![DelWithGroup(vec![DelSkip(3), DelText(3)]), DelText(1)],
            vec![AddWithGroup(vec![add_text("ab")]), add_text("c")],
        )
    );
}
