use aparte::view::{Content, Dimension, Frame, Linear, Orientation, ViewNode};
use aparte::bars::TitleBar;

fn leaf(width: Dimension, height: Dimension) -> ViewNode {
    ViewNode {
        width,
        height,
        x: 0,
        y: 0,
        w: 0,
        h: 0,
        dirty: true,
        content: Content::Title(TitleBar::new()),
    }
}

fn vertical(children: Vec<ViewNode>) -> ViewNode {
    ViewNode {
        width: Dimension::MatchParent,
        height: Dimension::MatchParent,
        x: 0,
        y: 0,
        w: 0,
        h: 0,
        dirty: true,
        content: Content::Lin(Linear { orientation: Orientation::Vertical, children }),
    }
}

fn children_of(v: &ViewNode) -> &Vec<ViewNode> {
    match &v.content {
        Content::Lin(l) => &l.children,
        _ => panic!("not a layout"),
    }
}

#[test]
fn test_two_absolute_children_stack_vertically() {
    let kids = vec![
        leaf(Dimension::MatchParent, Dimension::Absolute(1)),
        leaf(Dimension::MatchParent, Dimension::Absolute(1)),
    ];
    let mut root = vertical(kids);
    root.measure(Some(80), Some(10));
    root.layout(1, 1);
    let kids = children_of(&root);
    assert_eq!(kids[0].h, 1);
    assert_eq!(kids[1].h, 1);
    assert_eq!(kids[0].y, 1);
    assert_eq!(kids[1].y, 2);
    assert_eq!(root.h, 2);
}

#[test]
fn test_flexible_children_share_leftover_space() {
    let kids = vec![
        leaf(Dimension::MatchParent, Dimension::Absolute(2)),
        leaf(Dimension::MatchParent, Dimension::MatchParent),
        leaf(Dimension::MatchParent, Dimension::MatchParent),
    ];
    let mut root = vertical(kids);
    root.measure(Some(80), Some(10));
    let kids = children_of(&root);
    assert_eq!(kids[0].h, 2);
    assert_eq!(kids[1].h, 4);
    assert_eq!(kids[2].h, 4);
    assert_eq!(root.h, 10);
    assert_eq!(root.w, 80);
}

#[test]
fn test_main_axis_conserves_children_sizes() {
    let kids = vec![
        leaf(Dimension::Absolute(3), Dimension::Absolute(1)),
        leaf(Dimension::Absolute(5), Dimension::Absolute(1)),
        leaf(Dimension::MatchParent, Dimension::Absolute(1)),
    ];
    let mut root = ViewNode {
        width: Dimension::MatchParent,
        height: Dimension::MatchParent,
        x: 0,
        y: 0,
        w: 0,
        h: 0,
        dirty: true,
        content: Content::Lin(Linear { orientation: Orientation::Horizontal, children: kids }),
    };
    root.measure(Some(20), Some(5));
    let kids = children_of(&root);
    let sum: u16 = kids.iter().map(|k| k.w).sum();
    assert_eq!(root.w, sum);
    assert_eq!(kids[0].w, 3);
    assert_eq!(kids[1].w, 5);
    assert_eq!(kids[2].w, 12);
}

#[test]
fn test_absolute_request_is_clamped_to_offer() {
    let mut v = leaf(Dimension::Absolute(50), Dimension::Absolute(1));
    v.measure(Some(20), Some(1));
    assert_eq!(v.w, 20);
    let mut v = leaf(Dimension::Absolute(50), Dimension::Absolute(1));
    v.measure(None, None);
    assert_eq!(v.w, 50);
}

#[test]
fn test_match_parent_without_offer_resolves_to_zero() {
    let mut v = leaf(Dimension::MatchParent, Dimension::MatchParent);
    v.measure(None, None);
    assert_eq!(v.w, 0);
    assert_eq!(v.h, 0);
}

#[test]
fn test_measure_layout_twice_is_idempotent() {
    let kids = vec![
        leaf(Dimension::MatchParent, Dimension::Absolute(1)),
        leaf(Dimension::MatchParent, Dimension::MatchParent),
        leaf(Dimension::MatchParent, Dimension::Absolute(1)),
    ];
    let mut root = vertical(kids);
    root.measure(Some(80), Some(24));
    root.layout(1, 1);
    let first: Vec<(u16, u16, u16, u16)> =
        children_of(&root).iter().map(|k| (k.x, k.y, k.w, k.h)).collect();
    let root_first = (root.x, root.y, root.w, root.h);
    root.measure(Some(80), Some(24));
    root.layout(1, 1);
    let second: Vec<(u16, u16, u16, u16)> =
        children_of(&root).iter().map(|k| (k.x, k.y, k.w, k.h)).collect();
    assert_eq!(first, second);
    assert_eq!(root_first, (root.x, root.y, root.w, root.h));
}

#[test]
fn test_frame_delegates_bounds_to_child() {
    let child = leaf(Dimension::MatchParent, Dimension::MatchParent);
    let mut frame = ViewNode {
        width: Dimension::MatchParent,
        height: Dimension::MatchParent,
        x: 0,
        y: 0,
        w: 0,
        h: 0,
        dirty: true,
        content: Content::Shell(Frame { child: Some(Box::new(child)) }),
    };
    frame.measure(Some(40), Some(12));
    frame.layout(3, 2);
    assert_eq!(frame.w, 40);
    assert_eq!(frame.h, 12);
    match &frame.content {
        Content::Shell(f) => {
            let c = f.child.as_ref().unwrap();
            assert_eq!(c.w, 40);
            assert_eq!(c.h, 12);
            assert_eq!(c.x, 2);
            assert_eq!(c.y, 3);
        },
        _ => panic!("frame lost its child"),
    }
}

#[test]
fn test_wrap_content_row_reports_intrinsic_size() {
    let inner = vec![
        leaf(Dimension::Absolute(2), Dimension::Absolute(1)),
        leaf(Dimension::Absolute(3), Dimension::Absolute(1)),
    ];
    let nested = ViewNode {
        width: Dimension::WrapContent,
        height: Dimension::Absolute(1),
        x: 0,
        y: 0,
        w: 0,
        h: 0,
        dirty: true,
        content: Content::Lin(
            Linear { orientation: Orientation::Horizontal, children: inner },
        ),
    };
    let kids = vec![nested, leaf(Dimension::MatchParent, Dimension::Absolute(1))];
    let mut root = ViewNode {
        width: Dimension::MatchParent,
        height: Dimension::MatchParent,
        x: 0,
        y: 0,
        w: 0,
        h: 0,
        dirty: true,
        content: Content::Lin(Linear { orientation: Orientation::Horizontal, children: kids }),
    };
    root.measure(Some(20), Some(1));
    let kids = children_of(&root);
    assert_eq!(kids[0].w, 5);
    assert_eq!(kids[1].w, 15);
    assert_eq!(root.w, 20);
}
