use oatie::apply::{apply_add, apply_delete};
use oatie::doc::{
    AddElement, AddGroup, AddSkip, AddText, AddWithGroup, DelGroup, DelSkip, DelText, DelWithGroup,
    DocElement, DocGroup, DocString, DocText, Op,
};
use oatie::random::{random_add_span, random_del_span};
use oatie::rtf::{Attrs, StyleSet};
use oatie::transform::{transform_deletions, undel};
use oatie::transform_add::{add_skip_post_len, transform_add_del, unadd};
use oatie::compose::compose;
use oatie::normalize::normalize;

fn text(s: &str) -> DocElement {
    DocText(StyleSet::new(), DocString::from_str(s))
}

fn doc() -> Vec<DocElement> {
    vec![text("abc"), DocGroup(Attrs::Para, vec![text("de"), DocGroup(Attrs::Code, vec![])]), text("f")]
}

#[test]
fn transform_deletions_of_text() {
    let d = vec![text("abcdef")];
    let a = vec![DelSkip(1), DelText(2)];
    let b = vec![DelText(1), DelSkip(2), DelText(1)];
    let (a_, b_) = transform_deletions(&a, &b);
    assert_eq!(a_, vec![DelText(2)]);
    assert_eq!(b_, vec![DelText(2)]);
    let left = apply_delete(&apply_delete(&d, &a), &a_);
    let right = apply_delete(&apply_delete(&d, &b), &b_);
    assert_eq!(left, vec![text("ef")]);
    assert_eq!(right, left);
}

#[test]
fn transform_deletions_of_groups() {
    let d = doc();
    let a = vec![DelSkip(3), DelGroup(vec![DelText(1), DelSkip(2)])];
    let b = vec![DelText(1), DelSkip(2), DelWithGroup(vec![DelSkip(1), DelText(1)])];
    let (a_, b_) = transform_deletions(&a, &b);
    assert_eq!(a_, vec![DelText(1), DelSkip(2), DelText(1), DelSkip(1)]);
    assert_eq!(b_, vec![DelSkip(2), DelGroup(vec![DelText(1), DelSkip(1)])]);
    let left = apply_delete(&apply_delete(&d, &a), &a_);
    let right = apply_delete(&apply_delete(&d, &b), &b_);
    assert_eq!(left, vec![text("bc"), DocGroup(Attrs::Code, vec![]), text("f")]);
    assert_eq!(right, left);
}

#[test]
fn transform_deletions_of_one_group_both_delete() {
    let d = doc();
    let a = vec![DelSkip(3), DelGroup(vec![DelText(1), DelSkip(2)])];
    let b = vec![DelSkip(3), DelGroup(vec![DelSkip(1), DelText(1), DelGroup(vec![])])];
    let (a_, b_) = transform_deletions(&a, &b);
    let left = apply_delete(&apply_delete(&d, &a), &a_);
    let right = apply_delete(&apply_delete(&d, &b), &b_);
    assert_eq!(left, vec![text("abcf")]);
    assert_eq!(right, left);
}

#[test]
fn transform_deletions_longer_first() {
    let d = vec![text("abcdef")];
    let a = vec![DelSkip(4), DelText(2)];
    let b = vec![DelText(1)];
    let (a_, b_) = transform_deletions(&a, &b);
    assert_eq!(a_, vec![DelText(1)]);
    assert_eq!(b_, vec![DelSkip(3), DelText(2)]);
    let left = apply_delete(&apply_delete(&d, &a), &a_);
    let right = apply_delete(&apply_delete(&d, &b), &b_);
    assert_eq!(left, vec![text("bcd")]);
    assert_eq!(right, left);
}

#[test]
fn undel_keeps_what_is_left() {
    let del = vec![
        DelSkip(2),
        DelText(3),
        DelGroup(vec![DelSkip(1), DelText(1)]),
        DelWithGroup(vec![DelText(1)]),
    ];
    assert_eq!(undel(&del), vec![DelSkip(3), DelWithGroup(vec![])]);
}

#[test]
fn transform_deletions_random_converge() {
    let d = doc();
    for _ in 0..500 {
        let a = random_del_span(&d);
        let b = random_del_span(&d);
        let (a_, b_) = transform_deletions(&a, &b);
        let left = apply_delete(&apply_delete(&d, &a), &a_);
        let right = apply_delete(&apply_delete(&d, &b), &b_);
        assert_eq!(left, right);
    }
}

fn add_text(s: &str) -> AddElement {
    AddText(StyleSet::new(), DocString::from_str(s))
}

#[test]
fn transform_add_del_group_over_deleted_text() {
    let d = vec![text("xy")];
    let a = vec![AddGroup(Attrs::Para, vec![AddSkip(2)])];
    let b = vec![DelText(1)];
    let Op(del, add) = transform_add_del(&a, &b);
    assert_eq!(del, vec![DelWithGroup(vec![DelText(1)])]);
    assert_eq!(add, vec![AddGroup(Attrs::Para, vec![AddSkip(1)])]);
    let left = apply_delete(&apply_add(&d, &a), &del);
    let right = apply_add(&apply_delete(&d, &b), &add);
    assert_eq!(left, vec![DocGroup(Attrs::Para, vec![text("y")])]);
    assert_eq!(right, left);
}

#[test]
fn transform_add_del_text_and_skips() {
    let d = vec![text("abcd")];
    let a = vec![AddSkip(1), add_text("XY"), AddSkip(1)];
    let b = vec![DelText(2), DelSkip(1), DelText(1)];
    let Op(del, add) = transform_add_del(&a, &b);
    assert_eq!(del, vec![DelText(1), DelSkip(2), DelText(1), DelSkip(1), DelText(1)]);
    assert_eq!(add, vec![add_text("XY")]);
    let left = apply_delete(&apply_add(&d, &a), &del);
    let right = apply_add(&apply_delete(&d, &b), &add);
    assert_eq!(left, vec![text("XYc")]);
    assert_eq!(right, left);
}

#[test]
fn transform_add_del_into_deleted_group() {
    let d = doc();
    let a = vec![AddSkip(3), AddWithGroup(vec![AddSkip(1), add_text("Z")])];
    let b = vec![DelSkip(3), DelGroup(vec![DelText(1), DelSkip(2)])];
    let Op(del, add) = transform_add_del(&a, &b);
    let left = apply_delete(&apply_add(&d, &a), &del);
    let right = apply_add(&apply_delete(&d, &b), &add);
    assert_eq!(left, vec![text("abcZe"), DocGroup(Attrs::Code, vec![]), text("f")]);
    assert_eq!(right, left);
}

#[test]
fn transform_add_del_into_emptied_group() {
    let d = vec![DocGroup(Attrs::Para, vec![text("ab")]), text("c")];
    let a = vec![AddWithGroup(vec![AddSkip(1), add_text("Z")])];
    let b = vec![DelGroup(vec![DelText(2)])];
    let Op(del, add) = transform_add_del(&a, &b);
    assert_eq!(del, vec![DelGroup(vec![DelText(3)])]);
    assert_eq!(add, Vec::<AddElement>::new());
    let left = apply_delete(&apply_add(&d, &a), &del);
    let right = apply_add(&apply_delete(&d, &b), &add);
    assert_eq!(left, vec![text("c")]);
    assert_eq!(right, left);
}

#[test]
fn unadd_takes_out_insertions() {
    let add = vec![AddSkip(2), add_text("ab"), AddGroup(Attrs::Para, vec![AddSkip(1)]), AddWithGroup(vec![add_text("c")])];
    assert_eq!(
        unadd(&add),
        vec![DelSkip(2), DelText(2), DelGroup(vec![DelSkip(1)]), DelWithGroup(vec![DelText(1)])]
    );
    assert_eq!(add_skip_post_len(&add), 6);
}

#[test]
fn transform_add_del_random_converge() {
    let d = doc();
    for _ in 0..500 {
        let a = random_add_span(&d);
        let b = random_del_span(&d);
        let Op(del, add) = transform_add_del(&a, &b);
        let left = apply_delete(&apply_add(&d, &a), &del);
        let right = apply_add(&apply_delete(&d, &b), &add);
        assert_eq!(left, right);
    }
}

#[test]
fn test_transform_cory() {
    let a = vec![AddSkip(1), AddText(StyleSet::new(), DocString::from_str("1"))];
    let b = vec![AddSkip(1), AddText(StyleSet::new(), DocString::from_str("2"))];

    let (a_, b_) = oatie::transform_ins::transform_insertions(&a, &b);

    let res = Op(vec![], vec![AddSkip(1), AddText(StyleSet::new(), DocString::from_str("12"))]);

    assert_eq!(normalize(compose(&Op(vec![], a), &a_)), res.clone());
    assert_eq!(normalize(compose(&Op(vec![], b), &b_)), res.clone());
}

#[test]
fn transform_ops_converge() {
    let doc = vec![
        DocGroup(Attrs::Para, vec![text("Hello world!")]),
        DocGroup(Attrs::Para, vec![text("abc")]),
    ];
    let a = Op(
        vec![DelWithGroup(vec![DelSkip(6), DelText(5)])],
        vec![AddWithGroup(vec![AddSkip(6), AddText(StyleSet::new(), DocString::from_str("there"))])],
    );
    let b = Op(
        vec![DelWithGroup(vec![DelText(1)]), DelWithGroup(vec![DelSkip(1), DelText(1)])],
        vec![AddWithGroup(vec![AddText(StyleSet::new(), DocString::from_str("J"))]), AddWithGroup(vec![AddSkip(1), AddText(StyleSet::new(), DocString::from_str("X"))])],
    );
    let (ta, tb) = oatie::transform_ins::transform(&a, &b);
    let left = oatie::apply::apply_operation(&oatie::apply::apply_operation(&doc, &a), &ta);
    let right = oatie::apply::apply_operation(&oatie::apply::apply_operation(&doc, &b), &tb);
    assert_eq!(left, right);
    assert_eq!(
        left,
        vec![
            DocGroup(Attrs::Para, vec![text("Jello there!")]),
            DocGroup(Attrs::Para, vec![text("aXc")]),
        ]
    );
}

#[test]
fn transform_insertions_put_first_text_first() {
    let a = vec![AddSkip(2), AddText(StyleSet::new(), DocString::from_str("x"))];
    let b = vec![AddSkip(2), AddText(StyleSet::new(), DocString::from_str("y")), AddSkip(1)];
    let (ta, tb) = oatie::transform_ins::transform_insertions(&a, &b);
    assert_eq!(ta, Op(vec![DelSkip(4)], vec![AddSkip(3), AddText(StyleSet::new(), DocString::from_str("y")), AddSkip(1)]));
    assert_eq!(tb, Op(vec![DelSkip(4)], vec![AddSkip(2), AddText(StyleSet::new(), DocString::from_str("x")), AddSkip(2)]));
}
