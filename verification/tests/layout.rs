//! Layout-engine tests: constraint conformance, flex distribution and the
//! concrete horizontal-run scenario.

use gggg_ui::container::container;
use gggg_ui::context::Context;
use gggg_ui::error::UiError;
use gggg_ui::flex::{Axis, AxisAlignment, Flex};
use gggg_ui::loader::Loader;
use gggg_ui::shape::ShapeType;
use gggg_ui::widget::{Widget, WidgetCache};
use gggg_ui::widgets::{BoxConstraints, Size};
use gggg_ui::{build_tree, Offset};

fn ctx() -> Context {
    Context::new(Loader::new())
}

fn loose(w: i64, h: i64) -> BoxConstraints {
    BoxConstraints::new(Size::new(0, 0), Size::new(w, h))
}

#[test]
fn container_clamps_into_constraints() {
    let c = BoxConstraints::new(Size::new(10, 10), Size::new(100, 50));
    let w = Widget::Container(container().width(20).height(5));
    let run = w.layout(&c, &ctx()).unwrap();
    assert_eq!(run.size, Size::new(20, 10));
    let big = Widget::Container(container().width(400).height(70));
    let run = big.layout(&c, &ctx()).unwrap();
    assert_eq!(run.size, Size::new(100, 50));
}

#[test]
fn container_without_child_under_tight_constraints() {
    let c = BoxConstraints::tight(Size::new(100, 50));
    let w = Widget::Container(container().width(20).height(5));
    let run = w.layout(&c, &ctx()).unwrap();
    assert_eq!(run.size, Size::new(100, 50));
}

#[test]
fn horizontal_run_with_fixed_and_flex_children() {
    // one fixed 20-wide child and two unit-weight flexible children in a
    // 100 by 50 box: the fixed child keeps [0, 20), each flexible child
    // gets 40 units, at offsets 20 and 60 under start alignment
    let flex = Flex::new()
        .with_axis(Axis::Horizontal)
        .with_fixed_child(Box::new(Widget::Container(container().width(20).height(10))))
        .with_flex_child(Box::new(Widget::Container(container().width(0).height(10))), 1)
        .with_flex_child(Box::new(Widget::Container(container().width(0).height(10))), 1);
    let w = Widget::Flex(flex);
    let c = loose(100, 50);
    let run = w.layout(&c, &ctx()).unwrap();
    match &run.cache {
        WidgetCache::Flex(cc) => {
            assert_eq!(cc.size_map, vec![20, 40, 40]);
            assert_eq!(cc.offset_map, vec![0, 20, 60]);
        },
        _ => panic!("flex cache expected"),
    }
    assert_eq!(run.size.width, 100);
    let shapes = w
        .get_shapes(&Offset { dx: 0, dy: 0 }, &c, &run.cache, &ctx())
        .unwrap();
    assert_eq!(shapes.len(), 3);
    assert_eq!(shapes[0].offset.dx, 0);
    assert_eq!(shapes[1].offset.dx, 20);
    assert_eq!(shapes[2].offset.dx, 60);
    assert_eq!(shapes[1].size.width, 40);
    assert_eq!(shapes[2].size.width, 40);
}

#[test]
fn flex_children_share_space_by_weight() {
    // weights 1 and 2 over 90 units: 30 and 60
    let flex = Flex::new()
        .with_axis(Axis::Horizontal)
        .with_flex_child(Box::new(Widget::Container(container().width(0).height(1))), 1)
        .with_flex_child(Box::new(Widget::Container(container().width(0).height(1))), 2);
    let w = Widget::Flex(flex);
    let run = w.layout(&loose(90, 10), &ctx()).unwrap();
    match &run.cache {
        WidgetCache::Flex(cc) => {
            assert_eq!(cc.size_map, vec![30, 60]);
        },
        _ => panic!("flex cache expected"),
    }
    // conservation: the extents sum to the available space
    assert_eq!(run.size.width, 90);
}

#[test]
fn flex_without_space_reports_insufficient_space() {
    let flex = Flex::new()
        .with_axis(Axis::Horizontal)
        .with_fixed_child(Box::new(Widget::Container(container().width(200).height(1))));
    let w = Widget::Flex(flex);
    // the fixed child clamps to the full 100 units, leaving nothing
    let r = w.layout(&loose(100, 10), &ctx());
    assert_eq!(r.err(), Some(UiError::InsufficientSpace));
}

#[test]
fn vertical_run_distributes_heights() {
    let flex = Flex::new()
        .with_axis(Axis::Vertical)
        .with_fixed_child(Box::new(Widget::Container(container().width(10).height(25))))
        .with_flex_child(Box::new(Widget::Container(container().width(10).height(0))), 1);
    let w = Widget::Flex(flex);
    let run = w.layout(&loose(40, 100), &ctx()).unwrap();
    match &run.cache {
        WidgetCache::Flex(cc) => {
            assert_eq!(cc.size_map, vec![25, 75]);
            assert_eq!(cc.offset_map, vec![0, 25]);
        },
        _ => panic!("flex cache expected"),
    }
    assert_eq!(run.size.height, 100);
    assert_eq!(run.size.width, 10);
}

#[test]
fn build_tree_emits_container_rectangle() {
    let w = Widget::Container(container().width(30).height(20));
    let shapes = build_tree(&w, loose(100, 100), &ctx()).unwrap();
    assert_eq!(shapes.len(), 1);
    assert_eq!(shapes[0].offset.dx, 0);
    assert_eq!(shapes[0].offset.dy, 0);
    assert_eq!(shapes[0].size, Size::new(30, 20));
    match &shapes[0].shape {
        ShapeType::Rectangle(_) => {},
        _ => panic!("rectangle expected"),
    }
}

#[test]
fn max_bounded_flex_child_returns_excess() {
    // two unit-weight children over 100 units; the first declares a
    // maximum of 10, so the single forward pass returns its excess of 40
    // to the pool before the final split
    let bounded = container().width(0).height(1).constraints(BoxConstraints::new(
        Size::new(0, 0),
        Size::new(10, 10),
    ));
    let flex = Flex::new()
        .with_axis(Axis::Horizontal)
        .with_flex_child(Box::new(Widget::Container(bounded)), 1)
        .with_flex_child(Box::new(Widget::Container(container().width(0).height(1))), 1);
    let w = Widget::Flex(flex);
    let run = w.layout(&loose(100, 10), &ctx()).unwrap();
    match &run.cache {
        WidgetCache::Flex(cc) => {
            // relaxed pool: 100 + (50 - 10) = 140; each child gets 70
            assert_eq!(cc.size_map, vec![70, 70]);
        },
        _ => panic!("flex cache expected"),
    }
}

#[test]
fn flex_distribution_loses_at_most_one_unit_per_child() {
    // three unit-weight children over 100 units: each gets 33, and the
    // floor division leaves a deficit smaller than the child count
    let flex = Flex::new()
        .with_axis(Axis::Horizontal)
        .with_flex_child(Box::new(Widget::Container(container().width(0).height(1))), 1)
        .with_flex_child(Box::new(Widget::Container(container().width(0).height(1))), 1)
        .with_flex_child(Box::new(Widget::Container(container().width(0).height(1))), 1);
    let w = Widget::Flex(flex);
    let run = w.layout(&loose(100, 10), &ctx()).unwrap();
    match &run.cache {
        WidgetCache::Flex(cc) => {
            assert_eq!(cc.size_map, vec![33, 33, 33]);
            let total: i64 = cc.size_map.iter().sum();
            assert!(100 - 3 <= total && total <= 100);
        },
        _ => panic!("flex cache expected"),
    }
}

#[test]
fn center_and_end_alignments_shift_the_cached_extents() {
    // the centering strategy (and the end strategy) shift each child's
    // cache entry, which holds its extent, by a constant delta; `Center`,
    // `SpaceBetween` and `SpaceAround` share the centering strategy
    for alignment in [
        AxisAlignment::Center,
        AxisAlignment::SpaceBetween,
        AxisAlignment::SpaceAround,
    ] {
        let flex = Flex::new()
            .with_axis(Axis::Horizontal)
            .with_main_axis_alignment(alignment)
            .with_fixed_child(Box::new(Widget::Container(container().width(30).height(5))))
            .with_fixed_child(Box::new(Widget::Container(container().width(30).height(5))));
        let w = Widget::Flex(flex);
        let run = w.layout(&loose(100, 10), &ctx()).unwrap();
        match &run.cache {
            WidgetCache::Flex(cc) => {
                // delta = 100/2 - 60/2 = 20, applied to each extent of 30
                assert_eq!(cc.offset_map, vec![50, 50]);
            },
            _ => panic!("flex cache expected"),
        }
    }
    let flex = Flex::new()
        .with_axis(Axis::Horizontal)
        .with_main_axis_alignment(AxisAlignment::End)
        .with_fixed_child(Box::new(Widget::Container(container().width(30).height(5))))
        .with_fixed_child(Box::new(Widget::Container(container().width(30).height(5))));
    let w = Widget::Flex(flex);
    let run = w.layout(&loose(100, 10), &ctx()).unwrap();
    match &run.cache {
        WidgetCache::Flex(cc) => {
            // delta = 100 - 60 = 40, applied to each extent of 30
            assert_eq!(cc.offset_map, vec![70, 70]);
        },
        _ => panic!("flex cache expected"),
    }
}

#[test]
fn errors_describe_themselves() {
    assert_eq!(UiError::InsufficientSpace.describe(), "insufficient space");
    assert_eq!(UiError::UnknownHandle.describe(), "unknown handle");
    assert_eq!(UiError::StyleNotFound.describe(), "style not found");
    assert_eq!(UiError::AtlasTooLarge.describe(), "atlas too large");
}
