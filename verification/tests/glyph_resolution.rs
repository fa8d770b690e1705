use norad::glyph::PointType as U;
use std::sync::Arc;

use norad::glyph::{
    AffineTransform, Component, Contour, ContourPoint, Outline as UfoOutline,
    PointType as UfoPointType,
};
use norad::{Glyph, Ufo};
use runebender::font::{needs_write_back, DrawnOutline, FontObject, GlyphSet, PlacedEl, Unresolvable};
use runebender::outline::placeholder_outline;
use runebender::outline::{Outline, PathEl, PointId, PointType};

fn point(typ: UfoPointType) -> ContourPoint {
    ContourPoint { name: None, x: 1.0, y: 2.0, typ, smooth: false, identifier: None }
}

fn component(base: &str) -> Component {
    Component {
        base: base.into(),
        transform: AffineTransform {
            x_scale: 1.0,
            xy_scale: 0.0,
            yx_scale: 0.0,
            y_scale: 1.0,
            x_offset: 10.0,
            y_offset: 0.0,
        },
        identifier: None,
    }
}

fn glyph(name: &str, contours: Vec<Vec<UfoPointType>>, components: &[&str]) -> Glyph {
    let mut g = Glyph::new_named(name);
    g.outline = Some(UfoOutline {
        components: components.iter().map(|c| component(c)).collect(),
        contours: contours
            .into_iter()
            .map(|c| Contour { identifier: None, points: c.into_iter().map(point).collect() })
            .collect(),
    });
    g
}

fn font(glyphs: Vec<Glyph>) -> Arc<FontObject> {
    let mut ufo = Ufo::new();
    let layer = ufo.get_default_layer_mut().unwrap();
    for g in glyphs {
        layer.insert_glyph(g);
    }
    Arc::new(FontObject::new(ufo, Some("font.ufo".to_string())))
}

fn pid(contour: usize, point: usize) -> PointId {
    PointId { contour, point }
}

fn placed(components: Vec<usize>, el: PathEl<PointId>) -> PlacedEl {
    PlacedEl { components, el }
}

#[test]
fn glyph_with_one_component() {
    let set = GlyphSet::new(font(vec![
        glyph("A", vec![vec![U::Line, U::Line]], &["B"]),
        glyph("B", vec![vec![U::Move, U::Line]], &[]),
    ]));
    assert_eq!(
        set.get_bezier("A"),
        Some(vec![
            placed(vec![], PathEl::MoveTo(pid(0, 0))),
            placed(vec![], PathEl::LineTo(pid(0, 1))),
            placed(vec![], PathEl::LineTo(pid(0, 0))),
            placed(vec![0], PathEl::MoveTo(pid(0, 0))),
            placed(vec![0], PathEl::LineTo(pid(0, 1))),
        ])
    );
}

#[test]
fn nested_components_record_their_chain_and_missing_ones_add_nothing() {
    let set = GlyphSet::new(font(vec![
        glyph("A", vec![], &["missing", "B"]),
        glyph("B", vec![], &["C"]),
        glyph("C", vec![vec![U::Move, U::OffCurve, U::Curve]], &[]),
    ]));
    assert_eq!(
        set.try_get_bezier("A"),
        Ok(Some(vec![
            placed(vec![0, 1], PathEl::MoveTo(pid(0, 0))),
            placed(vec![0, 1], PathEl::QuadTo(pid(0, 1), pid(0, 2))),
        ]))
    );
}

#[test]
fn missing_glyph_and_glyph_without_outline_have_no_path() {
    let set = GlyphSet::new(font(vec![Glyph::new_named("empty")]));
    assert_eq!(set.get_bezier("nothing"), None);
    assert_eq!(set.get_bezier("empty"), None);
    assert_eq!(set.try_get_bezier("empty"), Ok(None));
}

#[test]
fn session_outline_wins_over_the_font() {
    let mut set = GlyphSet::new(font(vec![glyph("A", vec![vec![U::Move, U::Line]], &[])]));
    set.insert_session(
        "A".to_string(),
        Some(Outline { contours: vec![vec![PointType::Curve]], components: vec![] }),
    );
    assert_eq!(
        set.get_bezier("A"),
        Some(vec![
            placed(vec![], PathEl::MoveTo(pid(0, 0))),
            placed(vec![], PathEl::LineTo(pid(0, 0))),
        ])
    );
    set.insert_session("A".to_string(), None);
    assert_eq!(set.sessions.len(), 1);
    assert_eq!(set.get_bezier("A"), None);
}

#[test]
fn cyclic_components_are_refused() {
    let set = GlyphSet::new(font(vec![
        glyph("A", vec![vec![U::Line]], &["B"]),
        glyph("B", vec![vec![U::Line]], &["A"]),
    ]));
    assert_eq!(set.try_get_bezier("A"), Err(Unresolvable::CyclicOrMalformed));
    assert!(!set.is_resolvable("A", 100));
}

#[test]
fn malformed_outline_is_refused() {
    let set =
        GlyphSet::new(font(vec![glyph("A", vec![vec![U::Move, U::OffCurve, U::OffCurve, U::OffCurve, U::Line]], &[])]));
    assert_eq!(set.try_get_bezier("A"), Err(Unresolvable::CyclicOrMalformed));
}

#[test]
fn resolvability_needs_enough_nesting() {
    let set = GlyphSet::new(font(vec![
        glyph("A", vec![vec![U::Line]], &["B"]),
        glyph("B", vec![vec![U::Line]], &[]),
    ]));
    assert!(!set.is_resolvable("A", 1));
    assert!(set.is_resolvable("A", 2));
    assert!(set.is_resolvable("zzz", 1));
    assert!(!set.is_resolvable("zzz", 0));
}

#[test]
fn default_font_is_untitled_and_empty() {
    let f = FontObject::default();
    assert!(f.path.is_none());
    assert_eq!(
        f.ufo.font_info.as_ref().and_then(|i| i.family_name.clone()),
        Some("Untitled".to_string())
    );
    assert_eq!(f.ufo.glyph_count(), 0);
    assert_eq!(f.ufo.meta.creator, "org.linebender.norad");
    assert_eq!(f.ufo.layers.len(), 1);
    assert_eq!(f.placeholder.len(), 16);
}

#[test]
fn new_font_object_keeps_path_and_font() {
    let f = font(vec![Glyph::new_named("x")]);
    assert_eq!(f.path, Some("font.ufo".to_string()));
    assert_eq!(f.ufo.glyph_count(), 1);
    assert_eq!(f.placeholder[0], PathEl::MoveTo((51, 482)));
}

#[test]
fn write_back_only_replaced_sessions() {
    assert!(needs_write_back(Some(false)));
    assert!(!needs_write_back(Some(true)));
    assert!(!needs_write_back(None));
}

#[test]
fn glyph_without_outline_is_drawn_as_the_placeholder() {
    let set = GlyphSet::new(font(vec![Glyph::new_named("empty"), glyph("x", vec![vec![U::Line]], &[])]));
    assert_eq!(set.drawn_outline("empty"), Ok(DrawnOutline::Placeholder(placeholder_outline())));
    assert_eq!(set.drawn_outline("missing"), Ok(DrawnOutline::Placeholder(placeholder_outline())));
    assert_eq!(
        set.drawn_outline("x"),
        Ok(DrawnOutline::Resolved(vec![
            placed(vec![], PathEl::MoveTo(pid(0, 0))),
            placed(vec![], PathEl::LineTo(pid(0, 0))),
        ]))
    );
}

#[test]
fn sessions_keep_one_entry_per_name() {
    let mut set = GlyphSet::new(font(vec![]));
    set.insert_session("a".to_string(), None);
    set.insert_session("b".to_string(), None);
    assert_eq!(set.sessions.len(), 2);
    set.insert_session(
        "a".to_string(),
        Some(Outline { contours: vec![vec![PointType::Line]], components: vec![] }),
    );
    assert_eq!(set.sessions.len(), 2);
    assert_eq!(set.sessions[0].name, "a");
    assert!(set.sessions[0].outline.is_some());
    assert_eq!(set.sessions[1].name, "b");
}

#[test]
fn placeholder_is_the_fonts_own() {
    let mut f = FontObject::new(Ufo::new(), None);
    f.placeholder = vec![PathEl::MoveTo((1, 2)), PathEl::ClosePath];
    let set = GlyphSet::new(Arc::new(f));
    assert_eq!(
        set.drawn_outline("none"),
        Ok(DrawnOutline::Placeholder(vec![PathEl::MoveTo((1, 2)), PathEl::ClosePath]))
    );
}
