use potty::layout::{build_node, find_local, room_left};
use potty::proto::LayoutNode;
use potty::workspace::{Node, Split, Workspace, HALF, MAX_RATIO, MIN_RATIO};

fn leaves(n: &Node) -> Vec<u64> {
    let mut out = Vec::new();
    n.collect_leaves(&mut out);
    out
}

fn split_of(ws: &Workspace) -> u64 {
    match &ws.active_tab().layout {
        Node::Branch { id, .. } => *id,
        other => panic!("{other:?}"),
    }
}

#[test]
fn a_new_workspace_has_one_pane() {
    let ws = Workspace::new();
    assert_eq!(ws.tabs.len(), 1);
    assert_eq!(ws.all_leaves().len(), 1);
    assert_eq!(ws.active_tab().focus, ws.all_leaves()[0]);
}

#[test]
fn a_split_puts_the_new_pane_behind_and_focuses_it() {
    let mut ws = Workspace::new();
    let first = ws.active_tab().focus;
    ws.split(Split::Cols);
    let second = ws.active_tab().focus;
    assert_eq!(ws.all_leaves(), [first, second]);
    ws.focus(first);
    ws.split(Split::Rows);
    let third = ws.active_tab().focus;
    assert_eq!(ws.all_leaves(), [first, third, second]);
    assert_eq!(ws.tab_of(third), Some(0));
    assert_eq!(ws.tab_of(99), None);
}

#[test]
fn closing_undoes_splitting() {
    let mut ws = Workspace::new();
    let first = ws.active_tab().focus;
    ws.split(Split::Cols);
    ws.close_focused();
    assert_eq!(ws.active_tab().layout, Node::Leaf(first));
    assert_eq!(ws.active_tab().focus, first);
}

#[test]
fn dropping_a_pane_collapses_its_split() {
    let tree = Node::Branch {
        id: 9,
        split: Split::Cols,
        ratio: HALF,
        a: Box::new(Node::Leaf(1)),
        b: Box::new(Node::Leaf(2)),
    };
    assert_eq!(tree.without(1), Some(Node::Leaf(2)));
    assert_eq!(Node::Leaf(1).without(1), None);
    assert_eq!(Node::Leaf(1).without(2), Some(Node::Leaf(1)));
}

#[test]
fn the_last_pane_closes_its_tab_but_not_the_last_tab() {
    let mut ws = Workspace::new();
    ws.new_tab();
    assert_eq!((ws.tabs.len(), ws.active), (2, 1));
    let second = ws.active_tab().focus;
    ws.remove_pane(second);
    assert_eq!((ws.tabs.len(), ws.active), (1, 0));
    ws.close_tab(0);
    assert!(ws.tabs.len() <= 1);
}

#[test]
fn shares_are_kept_in_bounds() {
    let mut ws = Workspace::new();
    ws.split(Split::Cols);
    let id = split_of(&ws);
    for (set, kept) in [(0.5f32, 0.5f32), (0.0, 0.05), (2.0, 0.95), (-1.0, 0.05), (0.3, 0.3)] {
        ws.set_ratio(id, set.to_bits());
        match &ws.active_tab().layout {
            Node::Branch { ratio, .. } => assert_eq!(f32::from_bits(*ratio), kept),
            other => panic!("{other:?}"),
        }
    }
    assert_eq!(f32::from_bits(HALF), 0.5);
    assert_eq!(f32::from_bits(MIN_RATIO), 0.05);
    assert_eq!(f32::from_bits(MAX_RATIO), 0.95);
}

type Area = (f32, f32, f32, f32);

fn cut(r: Area, split: Split, ratio: u32) -> (Area, Area) {
    let k = f32::from_bits(ratio);
    match split {
        Split::Cols => ((r.0, r.1, r.2 * k, r.3), (r.0 + r.2 * k, r.1, r.2 - r.2 * k, r.3)),
        Split::Rows => ((r.0, r.1, r.2, r.3 * k), (r.0, r.1 + r.3 * k, r.2, r.3 - r.3 * k)),
    }
}

#[test]
fn every_pane_gets_its_part_of_the_area() {
    let mut ws = Workspace::new();
    ws.split(Split::Cols);
    let ids = ws.all_leaves();
    let rects = ws.leaf_rects((0.0, 0.0, 100.0, 50.0), &cut);
    assert_eq!(rects[0], (ids[0], (0.0, 0.0, 50.0, 50.0)));
    assert_eq!(rects[1], (ids[1], (50.0, 0.0, 50.0, 50.0)));
    let strip = |_r: Area, _s: Split, _a: Area, b: Area| (b.0 - 2.0, b.1, 4.0, b.3);
    let ds = ws.dividers((0.0, 0.0, 100.0, 50.0), &cut, &strip);
    assert_eq!(ds.len(), 1);
    assert_eq!((ds[0].id, ds[0].rect), (split_of(&ws), (48.0, 0.0, 4.0, 50.0)));
}

#[test]
fn a_stored_layout_is_rebuilt_without_dead_panes() {
    let stored = LayoutNode::Split {
        cols: true,
        ratio: HALF,
        a: Box::new(LayoutNode::Leaf { pane: 10 }),
        b: Box::new(LayoutNode::Split {
            cols: false,
            ratio: MIN_RATIO,
            a: Box::new(LayoutNode::Leaf { pane: 11 }),
            b: Box::new(LayoutNode::Leaf { pane: 12 }),
        }),
    };
    let mut next = 100;
    let all = build_node(&stored, &[(10, 1), (11, 2), (12, 3)], &mut next).unwrap();
    assert_eq!(leaves(&all), [1, 2, 3]);
    let some = build_node(&stored, &[(10, 1), (12, 3)], &mut next).unwrap();
    assert_eq!(leaves(&some), [1, 3]);
    assert_eq!(build_node(&stored, &[], &mut next), None);
    assert_eq!(room_left(&stored, 2), Some(0));
    assert_eq!(room_left(&stored, 1), None);
    assert_eq!(find_local(&[(10, 1)], 10), Some(1));
    assert_eq!(find_local(&[(10, 1)], 11), None);
}
