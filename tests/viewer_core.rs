use cosmol_ribbon::{CosViewerCore, Interaction, ParserOptions, ShapeKind};

#[test]
fn state_starts_empty_and_is_replaced() {
    let mut core = CosViewerCore::new();
    assert_eq!(core.get_state(), None);
    core.set_state("first".to_string());
    assert_eq!(core.get_state(), Some(&"first".to_string()));
    core.set_state("second".to_string());
    assert_eq!(core.get_state().map(|s| s.as_str()), Some("second"));
}

#[test]
fn add_sums() {
    assert_eq!(CosViewerCore::add(2, 3), 5);
    assert_eq!(CosViewerCore::add(-7, 3), -4);
}

#[test]
fn plain_types() {
    let i = Interaction::default();
    assert!(!i.clickable && !i.hoverable && !i.context_menu_enabled);
    assert_ne!(ShapeKind::Sphere, ShapeKind::Stick);
    let _options = ParserOptions {};
}
