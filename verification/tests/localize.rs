use remajiro_tools::catalog::CatalogMessage;
use remajiro_tools::localize::{
    annotate, checked_body_size, place_translations, Annotated, ItemShape, TEXT_RENDER,
};
use std::collections::BTreeMap;

fn message(source: Option<&str>, text: &str) -> CatalogMessage {
    CatalogMessage { source: source.map(|s| s.to_string()), text: text.to_string() }
}

fn body() -> Vec<ItemShape> {
    vec![
        ItemShape::Insn { opcode: 0x840, args_len: 10 },
        ItemShape::Insn { opcode: TEXT_RENDER, args_len: 0 },
        ItemShape::Other,
        ItemShape::Raw { len: 4 },
        ItemShape::Insn { opcode: TEXT_RENDER, args_len: 0 },
        ItemShape::Insn { opcode: 0x801, args_len: 6 },
        ItemShape::Insn { opcode: TEXT_RENDER, args_len: 0 },
    ]
}

#[test]
fn translations_follow_text_render_at_their_offset() {
    let mut messages = BTreeMap::new();
    messages.insert(12, message(Some("a"), "A"));
    messages.insert(18, message(None, "B"));
    messages.insert(20, message(None, "not a text render"));
    messages.insert(99, message(None, "orphan"));
    let (placed, attached) = place_translations(&body(), &messages);
    assert_eq!(placed.len(), 7);
    assert_eq!(attached, 2);
    assert_eq!(messages.len() - attached, 2);
    assert!(placed[0].is_none());
    let first = placed[1].as_ref().unwrap();
    assert_eq!(first.text, "A");
    assert_eq!(first.source.as_deref(), Some("a"));
    assert!(placed[2].is_none());
    assert!(placed[3].is_none());
    assert_eq!(placed[4].as_ref().unwrap().text, "B");
    assert!(placed[5].is_none());
    assert!(placed[6].is_none());
}

#[test]
fn body_size_counts_opcodes_and_bytes() {
    assert_eq!(checked_body_size(&body()), Some(30));
    assert_eq!(checked_body_size(&vec![]), Some(0));
    let huge = vec![ItemShape::Raw { len: usize::MAX }, ItemShape::Insn { opcode: 1, args_len: 0 }];
    assert_eq!(checked_body_size(&huge), None);
    assert_eq!(checked_body_size(&vec![ItemShape::Insn { opcode: 1, args_len: usize::MAX - 1 }]), None);
}

#[test]
fn empty_catalog_places_nothing() {
    let (placed, attached) = place_translations(&body(), &BTreeMap::new());
    assert_eq!(attached, 0);
    assert!(placed.iter().all(|p| p.is_none()));
}

#[test]
fn annotations_follow_their_items() {
    let items = vec!["a", "b", "c"];
    let placed = vec![None, Some(message(None, "B")), Some(message(Some("c"), "C"))];
    let body = annotate(items, placed);
    assert_eq!(body.len(), 5);
    assert!(matches!(body[0], Annotated::Item("a")));
    assert!(matches!(body[1], Annotated::Item("b")));
    match &body[2] {
        Annotated::Translation(m) => assert_eq!(m.text, "B"),
        other => panic!("unexpected {other:?}"),
    }
    assert!(matches!(body[3], Annotated::Item("c")));
    match &body[4] {
        Annotated::Translation(m) => {
            assert_eq!(m.text, "C");
            assert_eq!(m.source.as_deref(), Some("c"));
        }
        other => panic!("unexpected {other:?}"),
    }
    let originals: Vec<&str> = body
        .iter()
        .filter_map(|a| match a {
            Annotated::Item(i) => Some(*i),
            Annotated::Translation(_) => None,
        })
        .collect();
    assert_eq!(originals, vec!["a", "b", "c"]);
}

#[test]
fn placing_then_annotating_a_body() {
    let shapes = body();
    let mut messages = BTreeMap::new();
    messages.insert(18, message(None, "B"));
    let (placed, attached) = place_translations(&shapes, &messages);
    assert_eq!(attached, 1);
    let names: Vec<usize> = (0..shapes.len()).collect();
    let annotated = annotate(names, placed);
    assert_eq!(annotated.len(), shapes.len() + 1);
    assert!(matches!(annotated[4], Annotated::Item(4)));
    assert!(matches!(&annotated[5], Annotated::Translation(m) if m.text == "B"));
}
