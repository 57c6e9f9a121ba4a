use rsvg_core::attribute::AttributeBag;
use rsvg_core::filter::{evaluate_chain, FilterContext, FilterError, Primitive};
use rsvg_core::flood::Flood;
use rsvg_core::node::{Node, NodeArena, NodeImpl, NodeType};
use rsvg_core::raster::{IRect, Pixel, Raster};
use rsvg_core::style::{ColorRgba, CssColor, StyleValues};

fn rgba(red: u8, green: u8, blue: u8) -> ColorRgba {
    ColorRgba { red, green, blue, alpha: 255 }
}

fn style(color: ColorRgba, flood_color: CssColor, flood_opacity: u8) -> StyleValues {
    StyleValues { color, flood_color, flood_opacity }
}

fn bag(entries: &[(&str, &str)]) -> AttributeBag {
    let mut b = AttributeBag::new();
    for (name, value) in entries {
        b.push(name.to_string(), value.to_string());
    }
    b
}

fn flood_with(entries: &[(&str, &str)]) -> Flood {
    let mut f = Flood::new();
    f.set_atts(&bag(entries)).expect("well-formed attributes");
    f
}

fn flood_node(f: Flood, sv: StyleValues) -> Node {
    Node::new(NodeType::FeFlood, None, None, None, sv, NodeImpl::Flood(f))
}

#[test]
fn flood_opacity_zero_yields_fully_transparent_buffer() {
    let source = Raster::create(8, 8).unwrap();
    let ctx = FilterContext::new(source, None);
    let f = flood_with(&[("x", "1"), ("y", "1"), ("width", "5"), ("height", "5")]);
    let sv = style(rgba(10, 20, 30), CssColor::Rgba(rgba(200, 100, 50)), 0);
    let res = f.render(&sv, &ctx).unwrap();
    assert_eq!(res.output.surface.width, 8);
    assert_eq!(res.output.surface.height, 8);
    for y in 0..8 {
        for x in 0..8 {
            let p = res.output.surface.get_pixel(x, y);
            assert_eq!((p.r, p.g, p.b, p.a), (0, 0, 0, 0));
        }
    }
}

#[test]
fn flood_current_color_red_paints_inside_bounds_only() {
    let source = Raster::create(40, 40).unwrap();
    let ctx = FilterContext::new(source, None);
    let f = flood_with(&[("x", "10"), ("y", "10"), ("width", "20"), ("height", "20")]);
    let sv = style(rgba(255, 0, 0), CssColor::CurrentColor, 255);
    let res = f.render(&sv, &ctx).unwrap();
    assert_eq!(res.output.bounds, IRect { x0: 10, y0: 10, x1: 30, y1: 30 });
    for y in 0..40 {
        for x in 0..40 {
            let p = res.output.surface.get_pixel(x, y);
            let inside = (10..30).contains(&x) && (10..30).contains(&y);
            if inside {
                assert_eq!((p.r, p.g, p.b, p.a), (255, 0, 0, 255));
            } else {
                assert_eq!((p.r, p.g, p.b, p.a), (0, 0, 0, 0));
            }
        }
    }
}

#[test]
fn flood_explicit_color_ignores_foreground() {
    let source = Raster::create(4, 4).unwrap();
    let ctx = FilterContext::new(source, None);
    let f = flood_with(&[]);
    let sv = style(rgba(1, 2, 3), CssColor::Rgba(rgba(0, 128, 255)), 255);
    let res = f.render(&sv, &ctx).unwrap();
    let p = res.output.surface.get_pixel(2, 2);
    assert_eq!((p.r, p.g, p.b, p.a), (0, 128, 255, 255));
}

#[test]
fn flood_premultiplies_partial_opacity() {
    let source = Raster::create(2, 2).unwrap();
    let ctx = FilterContext::new(source, None);
    let f = flood_with(&[]);
    let sv = style(rgba(0, 0, 0), CssColor::Rgba(rgba(255, 100, 0)), 128);
    let res = f.render(&sv, &ctx).unwrap();
    let p = res.output.surface.get_pixel(0, 0);
    assert_eq!(p.r, (255u32 * 128 / 255) as u8);
    assert_eq!(p.g, (100u32 * 128 / 255) as u8);
    assert_eq!(p.b, 0);
    assert_eq!(p.a, 128);
}

#[test]
fn bounds_default_to_full_source_extent() {
    let source = Raster::create(12, 9).unwrap();
    let ctx = FilterContext::new(source, None);
    let p = Primitive::new();
    assert_eq!(p.get_bounds(&ctx), IRect { x0: 0, y0: 0, x1: 12, y1: 9 });
}

#[test]
fn bounds_intersect_with_filter_region() {
    let source = Raster::create(40, 40).unwrap();
    let region = IRect { x0: 0, y0: 0, x1: 15, y1: 15 };
    let ctx = FilterContext::new(source, Some(region));
    let mut p = Primitive::new();
    p.set_atts(&bag(&[("x", "10"), ("y", "10"), ("width", "20"), ("height", "20")])).unwrap();
    assert_eq!(p.get_bounds(&ctx), IRect { x0: 10, y0: 10, x1: 15, y1: 15 });
}

#[test]
fn chain_published_output_is_what_the_next_lookup_observes() {
    let sv1 = style(rgba(255, 0, 0), CssColor::CurrentColor, 255);
    let sv2 = style(rgba(0, 0, 0), CssColor::Rgba(rgba(9, 9, 9)), 255);
    let mut arena = NodeArena::new();
    let h1 = arena.new_node(flood_node(
        flood_with(&[("result", "A"), ("x", "1"), ("y", "1"), ("width", "2"), ("height", "2")]),
        sv1,
    ));
    let h2 = arena.new_node(flood_node(flood_with(&[("result", "B")]), sv2));
    let mut ctx = FilterContext::new(Raster::create(5, 5).unwrap(), None);
    evaluate_chain(&arena, &vec![h1, h2], &mut ctx).unwrap();

    let reference_ctx = FilterContext::new(Raster::create(5, 5).unwrap(), None);
    let expected = flood_with(&[("result", "A"), ("x", "1"), ("y", "1"), ("width", "2"), (
        "height",
        "2",
    )])
        .render(&sv1, &reference_ctx)
        .unwrap();

    let seen = ctx.lookup_output(&"A".to_string()).expect("output published under A");
    assert_eq!(seen.bounds, expected.output.bounds);
    for y in 0..5 {
        for x in 0..5 {
            assert_eq!(seen.surface.get_pixel(x, y), expected.output.surface.get_pixel(x, y));
        }
    }
    assert!(ctx.lookup_output(&"B".to_string()).is_some());
    assert!(ctx.lookup_output(&"C".to_string()).is_none());
}

#[test]
fn same_name_published_twice_keeps_the_later_output() {
    let sv1 = style(rgba(250, 0, 0), CssColor::CurrentColor, 255);
    let sv2 = style(rgba(0, 250, 0), CssColor::CurrentColor, 255);
    let mut arena = NodeArena::new();
    let h1 = arena.new_node(flood_node(flood_with(&[("result", "A")]), sv1));
    let h2 = arena.new_node(flood_node(flood_with(&[("result", "A")]), sv2));
    let mut ctx = FilterContext::new(Raster::create(3, 3).unwrap(), None);
    evaluate_chain(&arena, &vec![h1, h2], &mut ctx).unwrap();
    let seen = ctx.lookup_output(&"A".to_string()).unwrap();
    let p = seen.surface.get_pixel(1, 1);
    assert_eq!((p.r, p.g, p.b, p.a), (0, 250, 0, 255));
}

#[test]
fn chain_failure_aborts_and_publishes_nothing_partial() {
    let sv = style(rgba(255, 0, 0), CssColor::CurrentColor, 255);
    let mut arena = NodeArena::new();
    let h1 = arena.new_node(flood_node(flood_with(&[("result", "A")]), sv));
    let h2 = arena.new_node(flood_node(flood_with(&[("result", "B")]), sv));
    // A source wider than any buffer the backend will allocate: the first
    // primitive's render fails, the second must never be evaluated.
    let oversized = Raster::from_pixels(40000, 1, vec![Pixel { r: 0, g: 0, b: 0, a: 0 }; 40000]);
    let mut ctx = FilterContext::new(oversized, None);
    let r = evaluate_chain(&arena, &vec![h1, h2], &mut ctx);
    assert_eq!(r, Err(FilterError::OutputSurfaceCreation));
    assert!(ctx.lookup_output(&"A".to_string()).is_none());
    assert!(ctx.lookup_output(&"B".to_string()).is_none());
}

#[test]
fn backend_refuses_oversized_buffers() {
    assert!(Raster::create(32768, 1).is_none());
    assert!(Raster::create(1, 32768).is_none());
    assert!(Raster::create(32767, 1).is_some());
    let ctx = FilterContext::new(Raster::create(3, 2).unwrap(), None);
    assert_eq!(ctx.source_graphic().width, 3);
    assert_eq!(ctx.source_graphic().height, 2);
}
