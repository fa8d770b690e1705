use runebender::outline::PointType as T;
use runebender::outline::{
    add_contour, contour_is_drawable, outline_is_drawable, path_for_glyph, placeholder_outline,
    Outline, PathEl, PointId, PointType,
};

fn p(contour: usize, point: usize) -> PointId {
    PointId { contour, point }
}

#[test]
fn closed_contour_of_lines_returns_to_start() {
    let pts = vec![T::Line, T::Line, T::Line];
    let mut path = Vec::new();
    add_contour(&mut path, &pts, 0);
    assert_eq!(
        path,
        vec![
            PathEl::MoveTo(p(0, 0)),
            PathEl::LineTo(p(0, 1)),
            PathEl::LineTo(p(0, 2)),
            PathEl::LineTo(p(0, 0)),
        ]
    );
}

#[test]
fn open_contour_starts_with_move_and_is_not_closed() {
    let pts = vec![T::Move, T::Line, T::OffCurve, T::OffCurve, T::Curve];
    let mut path = Vec::new();
    add_contour(&mut path, &pts, 2);
    assert_eq!(
        path,
        vec![
            PathEl::MoveTo(p(2, 0)),
            PathEl::LineTo(p(2, 1)),
            PathEl::CurveTo(p(2, 2), p(2, 3), p(2, 4)),
        ]
    );
}

#[test]
fn one_control_point_makes_a_quadratic_segment() {
    let pts = vec![T::Move, T::OffCurve, T::QCurve];
    let mut path = Vec::new();
    add_contour(&mut path, &pts, 0);
    assert_eq!(path, vec![PathEl::MoveTo(p(0, 0)), PathEl::QuadTo(p(0, 1), p(0, 2))]);
}

#[test]
fn trailing_controls_close_a_closed_contour() {
    let pts = vec![T::Curve, T::Line, T::OffCurve, T::OffCurve];
    let mut path = Vec::new();
    add_contour(&mut path, &pts, 0);
    assert_eq!(
        path,
        vec![
            PathEl::MoveTo(p(0, 0)),
            PathEl::LineTo(p(0, 1)),
            PathEl::CurveTo(p(0, 2), p(0, 3), p(0, 0)),
        ]
    );
}

#[test]
fn trailing_controls_of_an_open_contour_are_dropped() {
    let pts = vec![T::Move, T::Line, T::OffCurve, T::OffCurve, T::OffCurve];
    let mut path = Vec::new();
    add_contour(&mut path, &pts, 0);
    assert_eq!(path, vec![PathEl::MoveTo(p(0, 0)), PathEl::LineTo(p(0, 1))]);
}

#[test]
fn a_move_inside_a_contour_is_passed_over() {
    let pts = vec![T::Move, T::OffCurve, T::Move, T::Curve];
    let mut path = Vec::new();
    add_contour(&mut path, &pts, 0);
    assert_eq!(path, vec![PathEl::MoveTo(p(0, 0)), PathEl::QuadTo(p(0, 1), p(0, 3))]);
}

#[test]
fn empty_contour_draws_nothing() {
    let mut path = vec![PathEl::ClosePath];
    add_contour(&mut path, &Vec::new(), 0);
    assert_eq!(path, vec![PathEl::ClosePath]);
}

#[test]
fn three_control_points_cannot_be_drawn() {
    assert!(!contour_is_drawable(&vec![T::Move, T::OffCurve, T::OffCurve, T::OffCurve, T::Curve]));
    assert!(contour_is_drawable(&vec![T::Move, T::OffCurve, T::OffCurve, T::OffCurve]));
    assert!(!contour_is_drawable(&vec![T::Line, T::OffCurve, T::OffCurve, T::OffCurve]));
    assert!(contour_is_drawable(&vec![T::Line, T::OffCurve, T::OffCurve]));
    assert!(contour_is_drawable(&vec![]));
}

#[test]
fn glyph_without_outline_has_no_path() {
    assert_eq!(path_for_glyph(None), None);
}

#[test]
fn contours_follow_each_other() {
    let outline = Outline {
        contours: vec![vec![T::Line, T::Line], vec![T::Move, T::Curve]],
        components: vec![],
    };
    assert!(outline_is_drawable(&outline));
    assert_eq!(
        path_for_glyph(Some(&outline)),
        Some(vec![
            PathEl::MoveTo(p(0, 0)),
            PathEl::LineTo(p(0, 1)),
            PathEl::LineTo(p(0, 0)),
            PathEl::MoveTo(p(1, 0)),
            PathEl::LineTo(p(1, 1)),
        ])
    );
}

#[test]
fn placeholder_is_a_question_mark_of_two_closed_shapes() {
    let bez = placeholder_outline();
    assert_eq!(bez.len(), 16);
    assert_eq!(bez[0], PathEl::MoveTo((51, 482)));
    assert_eq!(bez[2], PathEl::CurveTo((112, 482), (134, 631), (246, 631)));
    assert_eq!(bez[9], PathEl::ClosePath);
    assert_eq!(bez[10], PathEl::MoveTo((202, 172)));
    assert_eq!(bez[15], PathEl::ClosePath);
}

#[test]
fn paths_of_concatenated_contours_concatenate() {
    let first = Outline { contours: vec![vec![T::Line, T::Line]], components: vec![] };
    let second = Outline {
        contours: vec![vec![], vec![T::Move, T::OffCurve, T::Curve]],
        components: vec!["x".to_string()],
    };
    let both = Outline {
        contours: vec![vec![T::Line, T::Line], vec![], vec![T::Move, T::OffCurve, T::Curve]],
        components: vec![],
    };
    let a = path_for_glyph(Some(&first)).unwrap();
    let b = path_for_glyph(Some(&second)).unwrap();
    let shifted: Vec<PathEl<PointId>> = b
        .iter()
        .map(|e| match *e {
            PathEl::MoveTo(x) => PathEl::MoveTo(p(x.contour + 1, x.point)),
            PathEl::LineTo(x) => PathEl::LineTo(p(x.contour + 1, x.point)),
            PathEl::QuadTo(x, y) => {
                PathEl::QuadTo(p(x.contour + 1, x.point), p(y.contour + 1, y.point))
            }
            PathEl::CurveTo(x, y, z) => PathEl::CurveTo(
                p(x.contour + 1, x.point),
                p(y.contour + 1, y.point),
                p(z.contour + 1, z.point),
            ),
            PathEl::ClosePath => PathEl::ClosePath,
        })
        .collect();
    let mut expected = a.clone();
    expected.extend(shifted);
    assert_eq!(path_for_glyph(Some(&both)).unwrap(), expected);
    assert_eq!(b, vec![PathEl::MoveTo(p(1, 0)), PathEl::QuadTo(p(1, 1), p(1, 2))]);
}
