use oatie::compose::{compose, compose_add_add, compose_add_del, compose_del_del};
use oatie::doc::{
    AddGroup, AddSkip, AddText, AddWithGroup, DelGroup, DelSkip, DelStyles, DelText, DelWithGroup,
    DocString, Op,
};
use oatie::normalize::normalize;
use oatie::rtf::{Attrs, RtfStyle, StyleSet};

#[test]
fn compose_test_compose_del_del() {
    assert_eq!(
        compose_del_del(&vec![DelSkip(6), DelText(6)], &vec![DelText(3)]),
        vec![DelText(3), DelSkip(3), DelText(6)]
    );

    assert_eq!(
        compose_del_del(&vec![DelSkip(6), DelText(6)], &vec![DelText(6)]),
        vec![DelText(12)]
    );

    assert_eq!(
        compose_del_del(
            &vec![DelWithGroup(vec![DelText(6)])],
            &vec![DelWithGroup(vec![DelText(6)])],
        ),
        vec![DelWithGroup(vec![DelText(12)])]
    );

    assert_eq!(
        compose_del_del(
            &vec![DelSkip(2), DelText(6), DelSkip(1), DelText(2), DelSkip(1)],
            &vec![DelSkip(1), DelText(1), DelSkip(1)],
        ),
        vec![DelSkip(1), DelText(7), DelSkip(1), DelText(2), DelSkip(1)]
    );

    assert_eq!(
        compose_del_del(&vec![DelGroup(vec![DelSkip(11)])], &vec![DelSkip(6), DelText(1)]),
        vec![DelGroup(vec![DelSkip(6), DelText(1), DelSkip(4)])]
    );
}

#[test]
fn compose_del_del_styles() {
    let bold = StyleSet::from(&[RtfStyle::Bold]);
    let italic = StyleSet::from(&[RtfStyle::Italic]);
    let both = StyleSet::from(&[RtfStyle::Bold, RtfStyle::Italic]);
    assert_eq!(
        compose_del_del(&vec![DelStyles(3, bold)], &vec![DelStyles(2, italic)]),
        vec![DelStyles(2, both), DelStyles(1, bold)]
    );
    assert_eq!(
        compose_del_del(&vec![DelSkip(3)], &vec![DelSkip(1), DelStyles(2, italic)]),
        vec![DelSkip(1), DelStyles(2, italic)]
    );
}

#[test]
fn compose_test_compose_add_add() {
    let t = |s: &str| AddText(StyleSet::new(), DocString::from_str(s));
    assert_eq!(compose_add_add(&vec![t("World!")], &vec![t("Hello ")]), vec![t("Hello World!")]);

    assert_eq!(
        compose_add_add(
            &vec![t("edef")],
            &vec![t("d"), AddSkip(1), t("a"), AddSkip(1), t("b"), AddSkip(1), t("e"), AddSkip(1)],
        ),
        vec![t("deadbeef")],
    );

    assert_eq!(
        compose_add_add(&vec![AddSkip(10), t("h")], &vec![AddSkip(11), t("i")]),
        vec![AddSkip(10), t("hi")],
    );

    assert_eq!(
        compose_add_add(
            &vec![
                AddSkip(5),
                t("yEH"),
                AddSkip(1),
                t("GlG5"),
                AddSkip(4),
                t("nnG"),
                AddSkip(1),
                t("ra8c"),
                AddSkip(1),
            ],
            &vec![AddSkip(10), t("Eh"), AddSkip(16)],
        ),
        vec![
            AddSkip(5),
            t("yEH"),
            AddSkip(1),
            t("GEhlG5"),
            AddSkip(4),
            t("nnG"),
            AddSkip(1),
            t("ra8c"),
            AddSkip(1),
        ]
    );
}

#[test]
fn compose_test_compose_add_del() {
    let t = |s: &str| AddText(StyleSet::new(), DocString::from_str(s));
    assert_eq!(
        compose_add_del(
            &vec![AddSkip(4), t("0O"), AddSkip(5), t("mnc"), AddSkip(3), t("gbL")],
            &vec![
                DelSkip(1),
                DelText(1),
                DelSkip(3),
                DelText(2),
                DelSkip(2),
                DelText(9),
                DelSkip(1),
                DelText(1),
            ],
        ),
        Op(
            vec![DelSkip(1), DelText(1), DelSkip(2), DelText(1), DelSkip(2), DelText(5)],
            vec![AddSkip(3), t("0"), AddSkip(2), t("b")],
        )
    );
}

#[test]
fn test_compose() {
    let caret = || Attrs::Caret { client_id: "left".to_string(), focus: true };
    assert_eq!(
        normalize(compose(
            &Op(vec![], vec![AddGroup(Attrs::Para, vec![AddSkip(6)])]),
            &Op(
                vec![DelGroup(vec![DelSkip(6)])],
                vec![
                    AddGroup(Attrs::Para, vec![AddSkip(4)]),
                    AddGroup(Attrs::Para, vec![AddSkip(2)]),
                ],
            ),
        )),
        Op(
            vec![],
            vec![
                AddGroup(Attrs::Para, vec![AddSkip(4)]),
                AddGroup(Attrs::Para, vec![AddSkip(2)]),
            ],
        )
    );

    assert_eq!(
        compose(
            &Op(
                vec![DelWithGroup(vec![DelSkip(5), DelWithGroup(vec![]), DelSkip(1)])],
                vec![AddWithGroup(vec![
                    AddSkip(5),
                    AddWithGroup(vec![]),
                    AddSkip(1),
                    AddGroup(caret(), vec![]),
                ])],
            ),
            &Op(vec![DelWithGroup(vec![DelSkip(5), DelGroup(vec![])])], vec![]),
        ),
        Op(
            vec![DelWithGroup(vec![DelSkip(5), DelGroup(vec![]), DelSkip(1)])],
            vec![AddWithGroup(vec![AddSkip(6), AddGroup(caret(), vec![])])],
        ),
    );
}

#[test]
fn compose_del_del_merges_inside_groups() {
    assert_eq!(
        compose_del_del(
            &vec![DelWithGroup(vec![DelSkip(2), DelText(1)])],
            &vec![DelWithGroup(vec![DelSkip(1), DelSkip(1)])],
        ),
        vec![DelWithGroup(vec![DelSkip(2), DelText(1)])]
    );
}
