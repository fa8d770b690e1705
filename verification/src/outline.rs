//! Conversion of a glyph's contours, given as the kinds of their points, into
//! the drawing commands of a bezier path.
//!
//! Coordinates stay with the caller: a drawing command names the points it
//! draws to by their place in the outline, and the caller looks them up.

use vstd::prelude::*;

verus! {

/// The role of a point in a contour, as the UFO format defines it.
#[derive(Clone, Copy, PartialEq, Eq, Debug, Structural)]
pub enum PointType {
    Move,
    Line,
    OffCurve,
    Curve,
    QCurve,
}

/// A point of an outline: the index of its contour, and its index in that contour.
#[derive(Clone, Copy, PartialEq, Eq, Debug, Structural)]
pub struct PointId {
    pub contour: usize,
    pub point: usize,
}

/// One drawing command of a bezier path, over points of type `P`.
#[derive(Clone, Copy, PartialEq, Eq, Debug)]
pub enum PathEl<P> {
    MoveTo(P),
    LineTo(P),
    QuadTo(P, P),
    CurveTo(P, P, P),
    ClosePath,
}

/// A glyph outline: its contours, each the list of its points' kinds, and the
/// names of the glyphs it uses as components, in order.
pub struct Outline {
    pub contours: Vec<Vec<PointType>>,
    pub components: Vec<String>,
}

/// The mathematical value of an [`Outline`].
pub struct OutlineModel {
    pub contours: Seq<Seq<PointType>>,
    pub components: Seq<Seq<char>>,
}

impl View for Outline {
    type V = OutlineModel;

    open spec fn view(&self) -> OutlineModel {
        OutlineModel {
            contours: self.contours@.map_values(|c: Vec<PointType>| c@),
            components: self.components@.map_values(|s: String| s@),
        }
    }
}

/// Whether a point of this kind ends a segment (it lies on the curve).
pub open spec fn ends_segment(t: PointType) -> bool {
    t == PointType::Line || t == PointType::Curve || t == PointType::QCurve
}

/// The point of index `point` in contour `contour`.
pub open spec fn point_id(contour: int, point: int) -> PointId {
    PointId { contour: contour as usize, point: point as usize }
}

/// The off-curve points that wait for the next segment end, once the points
/// before index `n` of a contour have been read. The first point starts the
/// contour and never waits; a segment end takes all waiting points; a move
/// point inside a contour is passed over.
pub open spec fn pending(pts: Seq<PointType>, n: int) -> Seq<usize>
    decreases n,
{
    if n <= 1 {
        seq![]
    } else {
        let before = pending(pts, n - 1);
        match pts[n - 1] {
            PointType::OffCurve => before.push((n - 1) as usize),
            PointType::Move => before,
            _ => seq![],
        }
    }
}

/// The segment of contour `c` that ends at point `to`, with `controls` as its
/// control points: a line, a quadratic or a cubic curve.
pub open spec fn segment(c: int, to: int, controls: Seq<usize>) -> PathEl<PointId> {
    if controls.len() == 0 {
        PathEl::LineTo(point_id(c, to))
    } else if controls.len() == 1 {
        PathEl::QuadTo(point_id(c, controls[0] as int), point_id(c, to))
    } else {
        PathEl::CurveTo(
            point_id(c, controls[0] as int),
            point_id(c, controls[1] as int),
            point_id(c, to),
        )
    }
}

/// The commands drawn for the points before index `n` of contour `c`: a move
/// to its first point, then one segment for each later segment end.
pub open spec fn drawn(pts: Seq<PointType>, c: int, n: int) -> Seq<PathEl<PointId>>
    decreases n,
{
    if n <= 1 {
        seq![PathEl::MoveTo(point_id(c, 0))]
    } else {
        let before = drawn(pts, c, n - 1);
        if ends_segment(pts[n - 1]) {
            before.push(segment(c, n - 1, pending(pts, n - 1)))
        } else {
            before
        }
    }
}

/// Whether a contour is closed: it does not start with a move point.
pub open spec fn is_closed(pts: Seq<PointType>) -> bool {
    pts.len() > 0 && pts[0] != PointType::Move
}

/// The commands for contour `c`. A closed contour ends with a segment back to
/// its first point, over the off-curve points left at its end.
pub open spec fn contour_path(pts: Seq<PointType>, c: int) -> Seq<PathEl<PointId>> {
    if pts.len() == 0 {
        seq![]
    } else if is_closed(pts) {
        drawn(pts, c, pts.len() as int).push(segment(c, 0, pending(pts, pts.len() as int)))
    } else {
        drawn(pts, c, pts.len() as int)
    }
}

/// A contour can be drawn when no segment has more than two control points.
pub open spec fn contour_drawable(pts: Seq<PointType>) -> bool {
    &&& forall|n: int|
        1 <= n < pts.len() && ends_segment(pts[n]) ==> #[trigger] pending(pts, n).len() <= 2
    &&& is_closed(pts) ==> pending(pts, pts.len() as int).len() <= 2
}

/// The commands for the first `n` contours, one contour after the other.
pub open spec fn contours_path(cs: Seq<Seq<PointType>>, n: int) -> Seq<PathEl<PointId>>
    decreases n,
{
    if n <= 0 {
        seq![]
    } else {
        contours_path(cs, n - 1) + contour_path(cs[n - 1], n - 1)
    }
}

/// The commands for a whole outline.
pub open spec fn outline_path(o: OutlineModel) -> Seq<PathEl<PointId>> {
    contours_path(o.contours, o.contours.len() as int)
}

/// Every contour of the outline can be drawn.
pub open spec fn outline_drawable(o: OutlineModel) -> bool {
    forall|c: int| 0 <= c < o.contours.len() ==> contour_drawable(#[trigger] o.contours[c])
}

/// The segment ending at `to` with the given control points.
fn segment_to(c: usize, to: usize, controls: &Vec<usize>) -> (el: PathEl<PointId>)
    requires
        controls.len() <= 2,
    ensures
        el == segment(c as int, to as int, controls@),
{
    let end = PointId { contour: c, point: to };
    if controls.len() == 0 {
        PathEl::LineTo(end)
    } else if controls.len() == 1 {
        PathEl::QuadTo(PointId { contour: c, point: controls[0] }, end)
    } else {
        PathEl::CurveTo(
            PointId { contour: c, point: controls[0] },
            PointId { contour: c, point: controls[1] },
            end,
        )
    }
}

/// Appends the commands of contour `c`, whose points have the kinds `pts`.
pub fn add_contour(path: &mut Vec<PathEl<PointId>>, pts: &Vec<PointType>, c: usize)
    requires
        contour_drawable(pts@),
    ensures
        final(path)@ == old(path)@ + contour_path(pts@, c as int),
{
    if pts.len() == 0 {
        assert(old(path)@ + contour_path(pts@, c as int) =~= old(path)@);
        return;
    }
    path.push(PathEl::MoveTo(PointId { contour: c, point: 0 }));
    let mut controls: Vec<usize> = Vec::new();
    let mut idx: usize = 1;
    assert(path@ =~= old(path)@ + drawn(pts@, c as int, 1));
    while idx < pts.len()
        invariant
            1 <= idx <= pts.len(),
            contour_drawable(pts@),
            controls@ == pending(pts@, idx as int),
            path@ == old(path)@ + drawn(pts@, c as int, idx as int),
        decreases pts.len() - idx,
    {
        let ghost before = path@;
        match pts[idx] {
            PointType::OffCurve => {
                controls.push(idx);
            },
            PointType::Move => {},
            _ => {
                assert(pending(pts@, idx as int).len() <= 2);
                let el = segment_to(c, idx, &controls);
                path.push(el);
                controls = Vec::new();
            },
        }
        proof {
            assert(pending(pts@, idx + 1) =~= controls@);
            assert(path@ =~= old(path)@ + drawn(pts@, c as int, idx + 1));
        }
        idx = idx + 1;
    }
    if pts[0] != PointType::Move {
        let el = segment_to(c, 0, &controls);
        path.push(el);
        assert(path@ =~= old(path)@ + contour_path(pts@, c as int));
    }
}

/// The bezier path of an outline, or `None` when the glyph has no outline.
pub fn path_for_glyph(outline: Option<&Outline>) -> (res: Option<Vec<PathEl<PointId>>>)
    requires
        outline matches Some(o) ==> outline_drawable(o@),
    ensures
        match outline {
            None => res is None,
            Some(o) => res matches Some(p) && p@ == outline_path(o@),
        },
{
    match outline {
        None => None,
        Some(o) => {
            let mut path: Vec<PathEl<PointId>> = Vec::new();
            let n = o.contours.len();
            let mut c: usize = 0;
            while c < n
                invariant
                    n == o.contours.len(),
                    c <= n,
                    outline_drawable(o@),
                    path@ == contours_path(o@.contours, c as int),
                decreases n - c,
            {
                assert(o@.contours[c as int] == o.contours[c as int]@);
                add_contour(&mut path, &o.contours[c], c);
                c = c + 1;
            }
            Some(path)
        },
    }
}

/// The number of points that end a segment among the points from index 1
/// up to (not including) index `n`.
pub open spec fn segment_ends(pts: Seq<PointType>, n: int) -> nat
    decreases n,
{
    if n <= 1 {
        0
    } else {
        segment_ends(pts, n - 1) + if ends_segment(pts[n - 1]) {
            1nat
        } else {
            0nat
        }
    }
}

/// A closed contour ends with a segment back to its first point, drawn by
/// the same rule as every segment: over no trailing off-curve point it is a
/// line, over one it is a quadratic curve through that point, and over two
/// a cubic curve through both.
pub proof fn lemma_closing_segment(pts: Seq<PointType>, c: int)
    requires
        is_closed(pts),
    ensures
        ({
            let n = pts.len() as int;
            let last = contour_path(pts, c).last();
            &&& (n == 1 || ends_segment(pts[n - 1])) ==> last == PathEl::LineTo(point_id(c, 0))
            &&& (n >= 2 && pts[n - 1] == PointType::OffCurve && (n == 2 || ends_segment(
                pts[n - 2],
            ))) ==> last == PathEl::QuadTo(point_id(c, n - 1), point_id(c, 0))
            &&& (n >= 3 && pts[n - 1] == PointType::OffCurve && pts[n - 2] == PointType::OffCurve
                && (n == 3 || ends_segment(pts[n - 3]))) ==> last == PathEl::CurveTo(
                point_id(c, n - 2),
                point_id(c, n - 1),
                point_id(c, 0),
            )
        }),
{
    let n = pts.len() as int;
    if n >= 2 {
        assert(pending(pts, n - 1) == pending(pts, n - 1));
        if n >= 3 {
            assert(pending(pts, n - 2) == pending(pts, n - 2));
        }
    }
}

proof fn lemma_drawn_at(pts: Seq<PointType>, c: int, i: int, m: int)
    requires
        1 <= i < m,
        ends_segment(pts[i]),
    ensures
        drawn(pts, c, m).len() == 1 + segment_ends(pts, m),
        1 + segment_ends(pts, i) < drawn(pts, c, m).len(),
        drawn(pts, c, m)[1 + segment_ends(pts, i) as int] == segment(c, i, pending(pts, i)),
    decreases m,
{
    lemma_drawn_commands(pts, c, m);
    if m > i + 1 {
        lemma_drawn_at(pts, c, i, m - 1);
        lemma_segment_ends_grow(pts, i + 1, m - 1);
    } else {
        lemma_drawn_commands(pts, c, i);
    }
}

proof fn lemma_segment_ends_grow(pts: Seq<PointType>, a: int, b: int)
    requires
        a <= b,
    ensures
        segment_ends(pts, a) <= segment_ends(pts, b),
    decreases b - a,
{
    if a < b {
        lemma_segment_ends_grow(pts, a, b - 1);
    }
}

/// Each point after the first that ends a segment is drawn to by its own
/// command, the one after the move and the segments of the earlier segment
/// ends: a line when no off-curve point comes before it, a quadratic curve
/// through one off-curve point, a cubic curve through two.
pub proof fn lemma_segment_at(pts: Seq<PointType>, c: int, i: int)
    requires
        1 <= i < pts.len(),
        ends_segment(pts[i]),
    ensures
        ({
            let el = contour_path(pts, c)[1 + segment_ends(pts, i) as int];
            &&& 1 + segment_ends(pts, i) < contour_path(pts, c).len()
            &&& (i == 1 || ends_segment(pts[i - 1])) ==> el == PathEl::LineTo(point_id(c, i))
            &&& (i >= 2 && pts[i - 1] == PointType::OffCurve && (i == 2 || ends_segment(
                pts[i - 2],
            ))) ==> el == PathEl::QuadTo(point_id(c, i - 1), point_id(c, i))
            &&& (i >= 3 && pts[i - 1] == PointType::OffCurve && pts[i - 2] == PointType::OffCurve
                && (i == 3 || ends_segment(pts[i - 3]))) ==> el == PathEl::CurveTo(
                point_id(c, i - 2),
                point_id(c, i - 1),
                point_id(c, i),
            )
        }),
{
    let n = pts.len() as int;
    lemma_drawn_at(pts, c, i, n);
    let d = drawn(pts, c, n);
    assert(pending(pts, i) == pending(pts, i));
    if i >= 2 {
        assert(pending(pts, i - 1) == pending(pts, i - 1));
        if i >= 3 {
            assert(pending(pts, i - 2) == pending(pts, i - 2));
        }
    }
    if is_closed(pts) {
        assert(contour_path(pts, c)[1 + segment_ends(pts, i) as int] == d[1 + segment_ends(pts, i) as int]);
    }
}

/// A point moved `d` contours further on.
pub open spec fn shift_point(p: PointId, d: int) -> PointId {
    PointId { contour: (p.contour + d) as usize, point: p.point }
}

/// A drawing command whose points are moved `d` contours further on.
pub open spec fn shift_el(e: PathEl<PointId>, d: int) -> PathEl<PointId> {
    match e {
        PathEl::MoveTo(a) => PathEl::MoveTo(shift_point(a, d)),
        PathEl::LineTo(a) => PathEl::LineTo(shift_point(a, d)),
        PathEl::QuadTo(a, b) => PathEl::QuadTo(shift_point(a, d), shift_point(b, d)),
        PathEl::CurveTo(a, b, c) => PathEl::CurveTo(
            shift_point(a, d),
            shift_point(b, d),
            shift_point(c, d),
        ),
        PathEl::ClosePath => PathEl::ClosePath,
    }
}

/// Commands whose points are moved `d` contours further on.
pub open spec fn shift_path(p: Seq<PathEl<PointId>>, d: int) -> Seq<PathEl<PointId>> {
    p.map_values(|e: PathEl<PointId>| shift_el(e, d))
}

proof fn lemma_segment_shift(c: int, d: int, to: int, controls: Seq<usize>)
    requires
        0 <= c,
        0 <= d,
        c + d <= usize::MAX,
    ensures
        segment(c + d, to, controls) == shift_el(segment(c, to, controls), d),
{
}

proof fn lemma_drawn_shift(pts: Seq<PointType>, c: int, d: int, n: int)
    requires
        0 <= c,
        0 <= d,
        c + d <= usize::MAX,
    ensures
        drawn(pts, c + d, n) == shift_path(drawn(pts, c, n), d),
    decreases n,
{
    if n > 1 {
        lemma_drawn_shift(pts, c, d, n - 1);
        if ends_segment(pts[n - 1]) {
            lemma_segment_shift(c, d, n - 1, pending(pts, n - 1));
        }
    }
    assert(drawn(pts, c + d, n) =~= shift_path(drawn(pts, c, n), d));
}

/// A contour drawn as contour `c + d` is the contour drawn as `c`, with its
/// points moved `d` contours further on.
pub proof fn lemma_contour_shift(pts: Seq<PointType>, c: int, d: int)
    requires
        0 <= c,
        0 <= d,
        c + d <= usize::MAX,
    ensures
        contour_path(pts, c + d) == shift_path(contour_path(pts, c), d),
{
    if pts.len() > 0 {
        lemma_drawn_shift(pts, c, d, pts.len() as int);
        lemma_segment_shift(c, d, 0, pending(pts, pts.len() as int));
    }
    assert(contour_path(pts, c + d) =~= shift_path(contour_path(pts, c), d));
}

proof fn lemma_contours_append(a: Seq<Seq<PointType>>, b: Seq<Seq<PointType>>, n: int)
    requires
        0 <= n <= b.len(),
        a.len() + b.len() <= usize::MAX,
    ensures
        contours_path(a + b, a.len() + n) == contours_path(a, a.len() as int) + shift_path(
            contours_path(b, n),
            a.len() as int,
        ),
    decreases n,
{
    if n == 0 {
        lemma_contours_prefix(a, b, a.len() as int);
        assert(shift_path(contours_path(b, 0), a.len() as int) =~= Seq::empty());
        assert(contours_path(a + b, a.len() + n) =~= contours_path(a, a.len() as int)
            + shift_path(contours_path(b, n), a.len() as int));
    } else {
        lemma_contours_append(a, b, n - 1);
        assert((a + b)[a.len() + n - 1] == b[n - 1]);
        lemma_contour_shift(b[n - 1], n - 1, a.len() as int);
        assert(n - 1 + a.len() == a.len() + n - 1);
        assert(contours_path(a + b, a.len() + n) =~= contours_path(a, a.len() as int)
            + shift_path(contours_path(b, n), a.len() as int));
    }
}

proof fn lemma_contours_prefix(a: Seq<Seq<PointType>>, b: Seq<Seq<PointType>>, n: int)
    requires
        0 <= n <= a.len(),
    ensures
        contours_path(a + b, n) == contours_path(a, n),
    decreases n,
{
    if n > 0 {
        lemma_contours_prefix(a, b, n - 1);
        assert((a + b)[n - 1] == a[n - 1]);
    }
}

/// Each contour is drawn on its own: the path of an outline whose contours
/// are those of `o1` followed by those of `o2` is the path of `o1` followed
/// by the path of `o2`, with `o2`'s contours numbered after `o1`'s. An empty
/// contour adds nothing.
pub proof fn lemma_path_concatenates(o: OutlineModel, o1: OutlineModel, o2: OutlineModel)
    requires
        o.contours == o1.contours + o2.contours,
        o.contours.len() <= usize::MAX,
    ensures
        outline_path(o) == outline_path(o1) + shift_path(
            outline_path(o2),
            o1.contours.len() as int,
        ),
{
    lemma_contours_append(o1.contours, o2.contours, o2.contours.len() as int);
    assert(o.contours.len() == o1.contours.len() + o2.contours.len());
}

/// The path of an outline depends on its contours alone: components are not
/// drawn here.
pub proof fn lemma_path_ignores_components(o1: OutlineModel, o2: OutlineModel)
    requires
        o1.contours == o2.contours,
    ensures
        outline_path(o1) == outline_path(o2),
{
}

/// A contour is drawn as a move to its first point followed by one segment
/// for each later point that ends a segment, and, when the contour is
/// closed, one more segment back to its first point.
pub proof fn lemma_contour_commands(pts: Seq<PointType>, c: int)
    requires
        pts.len() > 0,
    ensures
        contour_path(pts, c).len() == 1 + segment_ends(pts, pts.len() as int) + if is_closed(pts) {
            1nat
        } else {
            0nat
        },
        contour_path(pts, c)[0] == PathEl::MoveTo(point_id(c, 0)),
{
    lemma_drawn_commands(pts, c, pts.len() as int);
}

proof fn lemma_drawn_commands(pts: Seq<PointType>, c: int, n: int)
    requires
        n >= 1,
    ensures
        drawn(pts, c, n).len() == 1 + segment_ends(pts, n),
        drawn(pts, c, n)[0] == PathEl::MoveTo(point_id(c, 0)),
    decreases n,
{
    if n > 1 {
        lemma_drawn_commands(pts, c, n - 1);
    }
}

/// Whether the contour can be drawn, found by counting the control points
/// that each segment gathers.
pub fn contour_is_drawable(pts: &Vec<PointType>) -> (res: bool)
    ensures
        res == contour_drawable(pts@),
{
    let len = pts.len();
    if len == 0 {
        return true;
    }
    let mut waiting: usize = 0;
    let mut idx: usize = 1;
    while idx < len
        invariant
            len == pts.len(),
            1 <= idx <= len,
            waiting == pending(pts@, idx as int).len(),
            waiting < idx,
            forall|n: int|
                1 <= n < idx && ends_segment(pts@[n]) ==> #[trigger] pending(pts@, n).len() <= 2,
        decreases len - idx,
    {
        match pts[idx] {
            PointType::OffCurve => {
                waiting = waiting + 1;
            },
            PointType::Move => {},
            _ => {
                if waiting > 2 {
                    assert(ends_segment(pts@[idx as int]));
                    return false;
                }
                waiting = 0;
            },
        }
        idx = idx + 1;
    }
    if pts[0] != PointType::Move && waiting > 2 {
        return false;
    }
    true
}

/// Whether every contour of the outline can be drawn.
pub fn outline_is_drawable(o: &Outline) -> (res: bool)
    ensures
        res == outline_drawable(o@),
{
    let n = o.contours.len();
    let mut c: usize = 0;
    while c < n
        invariant
            n == o.contours.len(),
            c <= n,
            forall|j: int| 0 <= j < c ==> contour_drawable(#[trigger] o@.contours[j]),
        decreases n - c,
    {
        assert(o@.contours[c as int] == o.contours[c as int]@);
        if !contour_is_drawable(&o.contours[c]) {
            return false;
        }
        c = c + 1;
    }
    true
}

/// A point given by integer font units.
pub type UnitPoint = (i64, i64);

/// The outline drawn for a glyph that has none: a question mark.
pub open spec fn placeholder_path() -> Seq<PathEl<UnitPoint>> {
    seq![
        PathEl::MoveTo((51, 482)),
        PathEl::LineTo((112, 482)),
        PathEl::CurveTo((112, 482), (134, 631), (246, 631)),
        PathEl::CurveTo((308, 631), (356, 625), (356, 551)),
        PathEl::CurveTo((356, 487), (202, 432), (202, 241)),
        PathEl::LineTo((275, 241)),
        PathEl::CurveTo((276, 417), (430, 385), (430, 562)),
        PathEl::CurveTo((430, 699), (301, 700), (246, 700)),
        PathEl::CurveTo((201, 700), (51, 653), (51, 482)),
        PathEl::ClosePath,
        PathEl::MoveTo((202, 172)),
        PathEl::LineTo((275, 172)),
        PathEl::LineTo((275, 105)),
        PathEl::LineTo((203, 105)),
        PathEl::LineTo((202, 172)),
        PathEl::ClosePath,
    ]
}

/// A poorly drawn question mark, drawn in place of a glyph without an outline.
pub fn placeholder_outline() -> (bez: Vec<PathEl<UnitPoint>>)
    ensures
        bez@ == placeholder_path(),
{
    let mut bez: Vec<PathEl<UnitPoint>> = Vec::new();
    bez.push(PathEl::MoveTo((51, 482)));
    bez.push(PathEl::LineTo((112, 482)));
    bez.push(PathEl::CurveTo((112, 482), (134, 631), (246, 631)));
    bez.push(PathEl::CurveTo((308, 631), (356, 625), (356, 551)));
    bez.push(PathEl::CurveTo((356, 487), (202, 432), (202, 241)));
    bez.push(PathEl::LineTo((275, 241)));
    bez.push(PathEl::CurveTo((276, 417), (430, 385), (430, 562)));
    bez.push(PathEl::CurveTo((430, 699), (301, 700), (246, 700)));
    bez.push(PathEl::CurveTo((201, 700), (51, 653), (51, 482)));
    bez.push(PathEl::ClosePath);
    bez.push(PathEl::MoveTo((202, 172)));
    bez.push(PathEl::LineTo((275, 172)));
    bez.push(PathEl::LineTo((275, 105)));
    bez.push(PathEl::LineTo((203, 105)));
    bez.push(PathEl::LineTo((202, 172)));
    bez.push(PathEl::ClosePath);
    assert(bez@ =~= placeholder_path());
    bez
}

} // verus!
