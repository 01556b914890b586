use oatie::doc::{DocElement, DocGroup, DocString, DocText};
use oatie::rtf::{Attrs, StyleSet};
use oatie::validate::{validate_doc_span, ValidateContext, ValidateError};

fn text(s: &str) -> DocElement {
    DocText(StyleSet::new(), DocString::from_str(s))
}

fn caret(client: &str) -> DocElement {
    DocGroup(Attrs::Caret { client_id: client.to_string(), focus: false }, vec![])
}

fn check(doc: &Vec<DocElement>) -> Result<(), ValidateError> {
    let mut ctx = ValidateContext::new();
    validate_doc_span(&mut ctx, doc)
}

#[test]
fn validate_accepts_well_nested_documents() {
    let doc = vec![
        DocGroup(Attrs::Para, vec![text("abc"), caret("a")]),
        DocGroup(Attrs::ListItem, vec![DocGroup(Attrs::Para, vec![text("x"), caret("b")])]),
        DocGroup(Attrs::Rule, vec![]),
    ];
    let mut ctx = ValidateContext::new();
    assert!(validate_doc_span(&mut ctx, &doc).is_ok());
    assert!(ctx.stack.is_empty());
    assert_eq!(ctx.carets, vec!["a".to_string(), "b".to_string()]);
}

#[test]
fn validate_rejects_text_at_the_top() {
    assert!(matches!(check(&vec![text("a")]), Err(ValidateError::CharInRoot)));
}

#[test]
fn validate_rejects_empty_text() {
    let doc = vec![DocGroup(Attrs::Para, vec![text("")])];
    assert!(matches!(check(&doc), Err(ValidateError::EmptyText)));
}

#[test]
fn validate_rejects_blocks_in_blocks() {
    let doc = vec![DocGroup(Attrs::Para, vec![DocGroup(Attrs::Code, vec![text("a")])])];
    assert!(matches!(check(&doc), Err(ValidateError::IncorrectParent)));
}

#[test]
fn validate_rejects_carets_at_the_top() {
    assert!(matches!(check(&vec![caret("a")]), Err(ValidateError::IncorrectRootParent)));
}

#[test]
fn validate_rejects_text_outside_blocks() {
    let inside = DocGroup(Attrs::Caret { client_id: "a".to_string(), focus: true }, vec![text("a")]);
    let doc = vec![DocGroup(Attrs::Para, vec![inside])];
    assert!(matches!(check(&doc), Err(ValidateError::CharOutsideBlock)));
}

#[test]
fn validate_rejects_two_carets_of_one_client() {
    let doc = vec![DocGroup(Attrs::Para, vec![caret("a"), text("b"), caret("a")])];
    match check(&doc) {
        Err(ValidateError::MultipleCarets(c)) => assert_eq!(c, "a"),
        other => panic!("unexpected {:?}", other),
    }
}

#[test]
fn validate_reports_the_first_fault() {
    let doc = vec![DocGroup(Attrs::Para, vec![DocGroup(Attrs::Code, vec![text("")])]), text("x")];
    assert!(matches!(check(&doc), Err(ValidateError::EmptyText)));
}
