use selection_layout::{
    caret_offset, sat_add, sat_sub, Bounds, Constraint, DirtySize, LayoutTree, Margin,
    MonospaceMeasure, NodeProperties, TextMeasure, TextSelection, TextSelectionLayout, TextStyle,
    VerticalAlignment, Visibility,
};

fn props(text: Option<&str>, selection: Option<(usize, usize)>) -> NodeProperties {
    NodeProperties {
        visibility: Visibility::Visible,
        constraint: Constraint { width: 0, height: 0 },
        vertical_alignment: VerticalAlignment::Top,
        selection: selection.map(|(s, e)| TextSelection::new(s, e)),
        text: text.map(|t| TextStyle {
            text: t.to_string(),
            font: "Roboto".to_string(),
            font_size: 12,
        }),
        offset: None,
    }
}

fn margin() -> Option<Margin> {
    Some(Margin { left: 0, top: 0, right: 0, bottom: 0 })
}

fn bounds() -> Option<Bounds> {
    Some(Bounds { width: 0, height: 0 })
}

fn single(p: NodeProperties) -> (LayoutTree, usize) {
    let mut tree = LayoutTree::new();
    let id = tree.add_node(None, p, Some(TextSelectionLayout::new()), margin(), bounds());
    (tree, id)
}

fn mono() -> MonospaceMeasure {
    MonospaceMeasure { advance: 10 }
}

fn pass(tree: &mut LayoutTree, id: usize, parent: (i64, i64)) -> (i64, i64) {
    tree.measure(id).unwrap();
    tree.arrange(parent, id, &mono()).unwrap()
}

#[test]
fn dirty_size_setters_keep_the_flag() {
    let mut s = DirtySize::new();
    assert!(s.dirty());
    assert_eq!(s.size(), (0, 0));
    s.set_size(3, 4);
    assert_eq!(s.size(), (3, 4));
    assert!(s.dirty());
    s.set_dirty(false);
    s.set_width(7);
    assert_eq!(s.size(), (7, 4));
    s.set_height(9);
    assert_eq!(s.size(), (7, 9));
    assert!(!s.dirty());
    assert_eq!(DirtySize::default(), DirtySize::new());
}

#[test]
fn second_arrange_returns_same_size_and_writes_nothing() {
    let mut p = props(Some("hello world"), Some((5, 5)));
    p.constraint = Constraint { width: 40, height: 20 };
    let (mut tree, id) = single(p);
    let first = pass(&mut tree, id, (100, 100));
    assert_eq!(first, (40, 20));
    assert_eq!(tree.margin(id).unwrap().left, 50);
    assert_eq!(tree.bounds(id), Some(Bounds { width: 40, height: 20 }));
    // sentinels: a write by the second arrange would overwrite them
    tree.margins[id] = Some(Margin { left: 999, top: 0, right: 0, bottom: 0 });
    tree.bounds[id] = Some(Bounds { width: -1, height: -1 });
    let second = tree.arrange((300, 300), id, &mono()).unwrap();
    assert_eq!(second, first);
    assert_eq!(tree.margin(id).unwrap().left, 999);
    assert_eq!(tree.bounds(id), Some(Bounds { width: -1, height: -1 }));
    // a measure with unchanged inputs keeps the node clean
    assert!(!tree.measure(id).unwrap().dirty);
    assert_eq!(tree.arrange((300, 300), id, &mono()).unwrap(), first);
    assert_eq!(tree.margin(id).unwrap().left, 999);
}

#[test]
fn dirty_leaf_marks_every_ancestor() {
    let mut tree = LayoutTree::new();
    let root = tree.add_node(None, props(None, None), Some(TextSelectionLayout::new()), margin(), bounds());
    let mid = tree.add_node(Some(root), props(None, None), Some(TextSelectionLayout::new()), margin(), bounds());
    let leaf = tree.add_node(
        Some(mid),
        props(Some("hello world"), Some((0, 0))),
        Some(TextSelectionLayout::new()),
        margin(),
        bounds(),
    );
    pass(&mut tree, root, (100, 100));
    assert!(!tree.measure(root).unwrap().dirty);
    assert!(!tree.layout(mid).unwrap().desired_size.dirty);
    tree.set_properties(leaf, props(Some("hello world"), Some((3, 3))));
    assert!(tree.measure(root).unwrap().dirty);
    assert!(tree.layout(mid).unwrap().desired_size.dirty);
    assert!(tree.layout(leaf).unwrap().desired_size.dirty);
    pass(&mut tree, root, (100, 100));
    assert!(!tree.layout(leaf).unwrap().desired_size.dirty);
    assert_eq!(tree.margin(leaf).unwrap().left, 30);
}

#[test]
fn moved_selection_is_detected_once() {
    let (mut tree, id) = single(props(Some("hello world"), Some((0, 0))));
    pass(&mut tree, id, (100, 100));
    assert!(!tree.measure(id).unwrap().dirty);
    tree.set_properties(id, props(Some("hello world"), Some((6, 6))));
    assert!(tree.measure(id).unwrap().dirty);
    tree.arrange((100, 100), id, &mono()).unwrap();
    assert!(!tree.measure(id).unwrap().dirty);
    assert_eq!(tree.layout(id).unwrap().old_text_selection, TextSelection::new(6, 6));
}

#[test]
fn constraint_overrides_natural_width() {
    let mut p = props(None, None);
    p.constraint = Constraint { width: 50, height: 0 };
    let mut layout = TextSelectionLayout::new();
    layout.desired_size.set_size(10, 8);
    let mut tree = LayoutTree::new();
    let id = tree.add_node(None, p, Some(layout), margin(), bounds());
    let measured = tree.measure(id).unwrap();
    assert_eq!(measured.size(), (50, 8));
    assert_eq!(tree.arrange((200, 200), id, &mono()).unwrap(), (50, 8));
}

#[test]
fn caret_after_hello_is_fifty() {
    let (mut tree, id) = single(props(Some("hello world"), Some((5, 5))));
    pass(&mut tree, id, (100, 100));
    assert_eq!(tree.margin(id).unwrap().left, 50);
}

#[test]
fn trailing_space_adds_half_a_glyph() {
    let (mut tree, id) = single(props(Some("hello "), Some((6, 6))));
    pass(&mut tree, id, (100, 100));
    assert_eq!(tree.margin(id).unwrap().left, 65);
}

#[test]
fn collapsed_node_measures_zero() {
    let mut tree = LayoutTree::new();
    let root = tree.add_node(None, props(None, None), Some(TextSelectionLayout::new()), margin(), bounds());
    let mut p = props(Some("hello world"), Some((5, 5)));
    p.visibility = Visibility::Collapsed;
    p.constraint = Constraint { width: 50, height: 30 };
    let mut layout = TextSelectionLayout::new();
    layout.desired_size.set_size(70, 40);
    let child = tree.add_node(Some(root), p, Some(layout), margin(), bounds());
    tree.measure(root).unwrap();
    assert_eq!(tree.layout(child).unwrap().desired_size.size(), (0, 0));
    assert_eq!(tree.measure(child).unwrap().size(), (0, 0));
}

#[test]
fn selection_past_end_keeps_only_the_offset() {
    let mut p = props(Some("hello"), Some((20, 20)));
    p.offset = Some(7);
    let (mut tree, id) = single(p);
    pass(&mut tree, id, (100, 100));
    assert_eq!(tree.margin(id).unwrap().left, 7);

    let (mut tree, id) = single(props(Some("hello"), Some((20, 20))));
    pass(&mut tree, id, (100, 100));
    assert_eq!(tree.margin(id).unwrap().left, 0);
}

#[test]
fn offset_is_added_to_the_caret() {
    let mut p = props(Some("hello world"), Some((5, 5)));
    p.offset = Some(-3);
    assert_eq!(caret_offset(&mono(), &p), 47);
}

#[test]
fn selection_inside_a_character_measures_nothing() {
    let p = props(Some("\u{e9}t\u{e9}"), Some((1, 1)));
    assert_eq!(caret_offset(&mono(), &p), 0);
    let p = props(Some("\u{e9}t\u{e9}"), Some((3, 3)));
    assert_eq!(caret_offset(&mono(), &p), 20);
}

#[test]
fn stretch_fills_parent_less_margins() {
    let mut p = props(None, None);
    p.vertical_alignment = VerticalAlignment::Stretch;
    let mut tree = LayoutTree::new();
    let id = tree.add_node(
        None,
        p,
        Some(TextSelectionLayout::new()),
        Some(Margin { left: 0, top: 10, right: 0, bottom: 5 }),
        bounds(),
    );
    assert_eq!(pass(&mut tree, id, (30, 100)), (0, 85));
    assert_eq!(tree.bounds(id), Some(Bounds { width: 0, height: 85 }));
    assert_eq!(VerticalAlignment::Center.align_height(100, 12, Margin { left: 0, top: 10, right: 0, bottom: 5 }), 12);
}

#[test]
fn clean_node_short_circuits_arrange() {
    let mut layout = TextSelectionLayout::new();
    layout.desired_size.set_size(11, 12);
    layout.desired_size.set_dirty(false);
    let mut tree = LayoutTree::new();
    let id = tree.add_node(None, props(Some("abc"), Some((2, 2))), Some(layout), margin(), bounds());
    assert_eq!(tree.arrange((100, 100), id, &mono()), Some((11, 12)));
    assert_eq!(tree.margin(id), margin());
    assert_eq!(tree.bounds(id), bounds());
}

#[test]
fn unregistered_child_is_skipped() {
    let mut tree = LayoutTree::new();
    let root = tree.add_node(None, props(None, None), Some(TextSelectionLayout::new()), margin(), bounds());
    let child = tree.add_node(Some(root), props(Some("x"), Some((1, 1))), None, margin(), bounds());
    assert_eq!(tree.measure(child), None);
    pass(&mut tree, root, (10, 10));
    assert_eq!(tree.arrange((10, 10), child, &mono()), None);
    assert_eq!(tree.margin(child), margin());
    assert!(!tree.measure(root).unwrap().dirty);
}

#[test]
fn missing_margin_and_bounds_are_not_written() {
    let mut tree = LayoutTree::new();
    let id = tree.add_node(None, props(Some("hello"), Some((2, 2))), Some(TextSelectionLayout::new()), None, None);
    assert_eq!(pass(&mut tree, id, (10, 10)), (0, 0));
    assert_eq!(tree.margin(id), None);
    assert_eq!(tree.bounds(id), None);
    assert!(!tree.layout(id).unwrap().desired_size.dirty);
}

#[test]
fn measuring_twice_adds_nothing() {
    let (mut tree, id) = single(props(Some("hello"), Some((2, 2))));
    pass(&mut tree, id, (10, 10));
    tree.set_properties(id, props(Some("hello"), Some((4, 4))));
    let once = tree.measure(id).unwrap();
    let twice = tree.measure(id).unwrap();
    assert_eq!(once, twice);
    assert!(twice.dirty);
}

#[test]
fn monospace_counts_characters() {
    let m = MonospaceMeasure { advance: 10 };
    assert_eq!(m.measure("h\u{e9}llo", "any", 9), 50);
    assert_eq!(m.measure("", "any", 9), 0);
    let wide = MonospaceMeasure { advance: u32::MAX };
    assert_eq!(wide.measure("ab", "any", 9), u32::MAX);
}

#[test]
fn saturating_arithmetic() {
    assert_eq!(sat_add(i64::MAX, 1), i64::MAX);
    assert_eq!(sat_add(i64::MIN, -1), i64::MIN);
    assert_eq!(sat_add(2, 3), 5);
    assert_eq!(sat_sub(i64::MIN, 1), i64::MIN);
    assert_eq!(sat_sub(i64::MAX, -1), i64::MAX);
    assert_eq!(sat_sub(2, 3), -1);
}

#[test]
fn new_layout_is_dirty_and_default() {
    let l = TextSelectionLayout::new();
    assert!(l.desired_size().dirty);
    assert_eq!(l, TextSelectionLayout::default());
    assert_eq!(l.old_text_selection, TextSelection::new(0, 0));
}
