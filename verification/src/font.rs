//! The font being edited, the glyphs open in editing sessions, and the
//! resolution of a glyph's outline together with the outlines of the
//! components it uses.

use std::sync::Arc;
use vstd::prelude::*;

use norad::glyph::PointType as UfoPointType;

use crate::outline::{
    outline_drawable, outline_is_drawable, outline_path, path_for_glyph, placeholder_outline,
    placeholder_path, Outline, OutlineModel, PathEl, PointId, PointType, UnitPoint,
};

verus! {

/// The font format's in-memory font, `norad::Ufo`, opaque to proofs.
#[verifier::external_type_specification]
#[verifier::external_body]
pub struct ExUfo(norad::Ufo);

/// What the glyphs of a font's default layer are to this library: for each
/// glyph name, the glyph's outline, if it has one.
pub uninterp spec fn ufo_glyphs(ufo: norad::Ufo) -> Map<Seq<char>, Option<OutlineModel>>;

/// The family name recorded in a font's info, if any.
pub uninterp spec fn ufo_family_name(ufo: norad::Ufo) -> Option<Seq<char>>;

/// The value of a glyph's optional outline.
pub open spec fn outline_model(o: Option<Outline>) -> Option<OutlineModel> {
    match o {
        Some(x) => Some(x@),
        None => None,
    }
}

/// Calls `norad::Ufo::get_glyph`. Trusted to return `Some` exactly when the
/// default layer holds a glyph of that name, and then that glyph's outline:
/// each contour by the kinds of its points, each component by the name of
/// its base glyph.
#[verifier::external_body]
fn ufo_glyph(ufo: &norad::Ufo, name: &str) -> (res: Option<Option<Outline>>)
    ensures
        res is Some <==> ufo_glyphs(*ufo).dom().contains(name@),
        res matches Some(g) ==> outline_model(g) == ufo_glyphs(*ufo)[name@],
{
    ufo.get_glyph(name).map(|g| g.outline.as_ref().map(|o| Outline {
        contours: o.contours.iter().map(|c| c.points.iter().map(|p| match p.typ {
            UfoPointType::Move => PointType::Move,
            UfoPointType::Line => PointType::Line,
            UfoPointType::OffCurve => PointType::OffCurve,
            UfoPointType::Curve => PointType::Curve,
            UfoPointType::QCurve => PointType::QCurve,
        }).collect()).collect(),
        components: o.components.iter().map(|c| c.base.to_string()).collect(),
    }))
}

/// The font that `norad::Ufo::new` makes, with `family` as the only font
/// info: norad's own meta info (so norad will save it), one empty default
/// layer, no lib, groups, kerning or features.
pub uninterp spec fn fresh_ufo(family: Seq<char>) -> norad::Ufo;

/// The default layer of the font holds finitely many glyphs, `n` of them.
pub open spec fn holds_glyph_count(ufo: norad::Ufo, n: nat) -> bool {
    ufo_glyphs(ufo).dom().finite() && ufo_glyphs(ufo).dom().len() == n
}

/// Calls `norad::Ufo::glyph_count`. Trusted to return the number of glyphs
/// in the default layer, which holds finitely many.
#[verifier::external_body]
fn ufo_glyph_count(ufo: &norad::Ufo) -> (n: usize)
    ensures
        holds_glyph_count(*ufo, n as nat),
{
    ufo.glyph_count()
}

/// Calls `norad::Ufo::new` and records `family` as the family name in the
/// new font's info. Trusted to give norad's fresh font for that family name,
/// whose default layer holds no glyph, with that family name.
#[verifier::external_body]
fn ufo_with_family_name(family: String) -> (res: norad::Ufo)
    ensures
        res == fresh_ufo(family@),
        ufo_glyphs(res).dom().is_empty(),
        ufo_family_name(res) == Some(family@),
{
    let mut ufo = norad::Ufo::new();
    ufo.font_info = Some(norad::FontInfo { family_name: Some(family), ..Default::default() });
    ufo
}

/// A font being edited: where it is saved, its contents, and the outline
/// drawn for glyphs that have none.
pub struct FontObject {
    pub path: Option<String>,
    pub ufo: norad::Ufo,
    pub placeholder: Vec<PathEl<UnitPoint>>,
}

impl FontObject {
    /// The font object for `ufo`, saved at `path`.
    pub fn new(ufo: norad::Ufo, path: Option<String>) -> (res: FontObject)
        ensures
            res.ufo == ufo,
            res.path == path,
            res.placeholder@ == placeholder_path(),
    {
        FontObject { path, ufo, placeholder: placeholder_outline() }
    }
}

impl Default for FontObject {
    /// An unsaved font named "Untitled", with no glyphs.
    fn default() -> (res: FontObject)
        ensures
            res.path is None,
            res.ufo == fresh_ufo("Untitled"@),
            ufo_family_name(res.ufo) == Some("Untitled"@),
            ufo_glyphs(res.ufo).dom().is_empty(),
            res.placeholder@ == placeholder_path(),
    {
        let ufo = ufo_with_family_name(String::from_str("Untitled"));
        FontObject { path: None, ufo, placeholder: placeholder_outline() }
    }
}

/// A glyph open in an editing session: its name and its current outline.
pub struct SessionGlyph {
    pub name: String,
    pub outline: Option<Outline>,
}

/// No two sessions have the same name.
pub open spec fn sessions_distinct(s: Seq<SessionGlyph>) -> bool {
    forall|a: int, b: int| 0 <= a < b < s.len() ==> #[trigger] s[a].name@ != #[trigger] s[b].name@
}

/// The glyph named `name` among the sessions from index `i` on: the first
/// session of that name wins.
pub open spec fn session_from(s: Seq<SessionGlyph>, name: Seq<char>, i: int) -> Option<
    Option<OutlineModel>,
>
    decreases s.len() - i,
{
    if i < 0 || i >= s.len() {
        None
    } else if s[i].name@ == name {
        Some(outline_model(s[i].outline))
    } else {
        session_from(s, name, i + 1)
    }
}

/// A drawing command of a resolved glyph. `components` leads from the glyph
/// that owns the command's points out to the resolved glyph: its first entry
/// is the index of the component that places the owning glyph in its user,
/// and so on outward; it is empty for the resolved glyph's own contours.
/// The command's points are placed by applying those components'
/// transformations, innermost first.
#[derive(Clone, PartialEq, Eq, Debug)]
pub struct PlacedEl {
    pub components: Vec<usize>,
    pub el: PathEl<PointId>,
}

impl View for PlacedEl {
    type V = (Seq<usize>, PathEl<PointId>);

    open spec fn view(&self) -> (Seq<usize>, PathEl<PointId>) {
        (self.components@, self.el)
    }
}

/// The values of a list of placed commands.
pub open spec fn placed_model(v: Seq<PlacedEl>) -> Seq<(Seq<usize>, PathEl<PointId>)> {
    v.map_values(|e: PlacedEl| e@)
}

/// The commands of a glyph's own contours, placed in that glyph.
pub open spec fn unplaced(p: Seq<PathEl<PointId>>) -> Seq<(Seq<usize>, PathEl<PointId>)> {
    p.map_values(|e: PathEl<PointId>| (Seq::<usize>::empty(), e))
}

/// The resolved commands of a component's glyph, placed as component `k`.
pub open spec fn under_component(p: Seq<(Seq<usize>, PathEl<PointId>)>, k: int) -> Seq<
    (Seq<usize>, PathEl<PointId>),
> {
    p.map_values(|e: (Seq<usize>, PathEl<PointId>)| (e.0.push(k as usize), e.1))
}

/// The reason a glyph's outline could not be resolved.
#[derive(Clone, Copy, PartialEq, Eq, Debug, Structural)]
pub enum Unresolvable {
    /// Resolving it takes more levels of components than the set has glyphs,
    /// which happens when its components reach back to a glyph being
    /// resolved, or one of the outlines reached has a segment with more than
    /// two control points.
    CyclicOrMalformed,
}

/// What is drawn for a glyph: its resolved outline, or the placeholder when
/// it has none.
#[derive(PartialEq, Eq, Debug)]
pub enum DrawnOutline {
    Resolved(Vec<PlacedEl>),
    Placeholder(Vec<PathEl<UnitPoint>>),
}

/// The font, with the glyphs currently open in editing sessions.
pub struct GlyphSet {
    pub font: Arc<FontObject>,
    pub sessions: Vec<SessionGlyph>,
}

impl GlyphSet {
    /// The glyphs of the font, with their outlines.
    pub open spec fn font_glyphs(&self) -> Map<Seq<char>, Option<OutlineModel>> {
        ufo_glyphs(self.font.ufo)
    }

    /// The glyph of that name, looked up among the sessions first and then in
    /// the font: `None` when neither has it, else its outline, if any.
    pub open spec fn glyph(&self, name: Seq<char>) -> Option<Option<OutlineModel>> {
        let s = session_from(self.sessions@, name, 0);
        if s is Some {
            s
        } else if ufo_glyphs(self.font.ufo).dom().contains(name) {
            Some(ufo_glyphs(self.font.ufo)[name])
        } else {
            None
        }
    }

    /// The glyph can be resolved with `fuel` levels of nesting: it is missing
    /// or has no outline, or its outline can be drawn and each of its
    /// components can be resolved with one level less.
    pub open spec fn resolvable(&self, name: Seq<char>, fuel: nat) -> bool
        decreases fuel,
    {
        fuel > 0 && match self.glyph(name) {
            Some(Some(o)) => {
                &&& outline_drawable(o)
                &&& forall|k: int|
                    0 <= k < o.components.len() ==> self.resolvable(
                        #[trigger] o.components[k],
                        (fuel - 1) as nat,
                    )
            },
            _ => true,
        }
    }

    /// The resolved outline of the glyph, with `fuel` levels of nesting.
    pub open spec fn resolved(&self, name: Seq<char>, fuel: nat) -> Option<
        Seq<(Seq<usize>, PathEl<PointId>)>,
    >
        decreases fuel, 0nat,
    {
        if fuel == 0 {
            None
        } else {
            match self.glyph(name) {
                Some(Some(o)) => Some(
                    unplaced(outline_path(o)) + self.resolved_components(
                        o.components,
                        (fuel - 1) as nat,
                    ),
                ),
                _ => None,
            }
        }
    }

    /// The resolved outlines of the components named in `comps`, each placed
    /// as its component, in order; a component whose glyph does not resolve
    /// to an outline adds nothing.
    pub open spec fn resolved_components(&self, comps: Seq<Seq<char>>, fuel: nat) -> Seq<
        (Seq<usize>, PathEl<PointId>),
    >
        decreases fuel, comps.len() + 1,
    {
        if comps.len() == 0 {
            seq![]
        } else {
            let k = comps.len() - 1;
            self.resolved_components(comps.drop_last(), fuel) + match self.resolved(
                comps[k],
                fuel,
            ) {
                Some(p) => under_component(p, k),
                None => seq![],
            }
        }
    }

    /// The glyph's resolved outline: the commands of its own contours, then
    /// those of each of its components in turn.
    pub open spec fn bezier(&self, name: Seq<char>) -> Option<Seq<(Seq<usize>, PathEl<PointId>)>> {
        self.resolved(name, choose|f: nat| self.resolvable(name, f))
    }

    /// The nesting allowed by `try_get_bezier`: one more than the number of
    /// glyphs the set can look up, or the largest `usize`.
    pub open spec fn depth_bound(&self) -> nat {
        let n = self.sessions.len() + ufo_glyphs(self.font.ufo).dom().len() + 1;
        if n > usize::MAX {
            usize::MAX as nat
        } else {
            n as nat
        }
    }

    /// The set's invariant: no two sessions have the same name.
    pub open spec fn wf(&self) -> bool {
        sessions_distinct(self.sessions@)
    }

    /// A glyph set with no open sessions.
    pub fn new(font: Arc<FontObject>) -> (res: GlyphSet)
        ensures
            res.font == font,
            res.sessions@.len() == 0,
            res.wf(),
    {
        GlyphSet { font, sessions: Vec::new() }
    }

    /// The index of the first session of that name.
    fn session_index(&self, name: &str) -> (res: Option<usize>)
        ensures
            match res {
                Some(i) => {
                    &&& i < self.sessions.len()
                    &&& self.sessions@[i as int].name@ == name@
                    &&& forall|k: int| 0 <= k < i ==> self.sessions@[k].name@ != name@
                    &&& session_from(self.sessions@, name@, 0) == Some(
                        outline_model(self.sessions@[i as int].outline),
                    )
                },
                None => session_from(self.sessions@, name@, 0) is None,
            },
    {
        let key = name.to_owned();
        let n = self.sessions.len();
        let mut i: usize = 0;
        while i < n
            invariant
                n == self.sessions.len(),
                key@ == name@,
                i <= n,
                session_from(self.sessions@, name@, 0) == session_from(
                    self.sessions@,
                    name@,
                    i as int,
                ),
                forall|k: int| 0 <= k < i ==> self.sessions@[k].name@ != name@,
            decreases n - i,
        {
            if self.sessions[i].name == key {
                return Some(i);
            }
            assert(session_from(self.sessions@, name@, i as int) == session_from(
                self.sessions@,
                name@,
                i + 1,
            ));
            i = i + 1;
        }
        None
    }

    /// Records the outline of the session for `name`, replacing the one
    /// recorded before, if any: the list keeps one session per name.
    pub fn insert_session(&mut self, name: String, outline: Option<Outline>)
        ensures
            final(self).font == old(self).font,
            old(self).wf() ==> final(self).wf(),
            session_from(old(self).sessions@, name@, 0) is Some ==> final(self).sessions.len()
                == old(self).sessions.len(),
            session_from(old(self).sessions@, name@, 0) is None ==> final(self).sessions.len()
                == old(self).sessions.len() + 1,
            session_from(final(self).sessions@, name@, 0) == Some(outline_model(outline)),
            final(self).glyph(name@) == Some(outline_model(outline)),
            forall|other: Seq<char>|
                other != name@ ==> session_from(final(self).sessions@, other, 0) == session_from(
                    old(self).sessions@,
                    other,
                    0,
                ),
    {
        let ghost name_v = name@;
        let ghost model = outline_model(outline);
        match self.session_index(name.as_str()) {
            Some(i) => {
                let ghost before = self.sessions@;
                self.sessions.set(i, SessionGlyph { name, outline });
                proof {
                    let after = self.sessions@;
                    assert(after[i as int].name@ == before[i as int].name@);
                    if sessions_distinct(before) {
                        assert forall|a: int, b: int|
                            0 <= a < b < after.len() implies #[trigger] after[a].name@
                            != #[trigger] after[b].name@ by {
                            assert(after[a].name@ == before[a].name@);
                            assert(after[b].name@ == before[b].name@);
                        }
                    }
                    lemma_session_found(after, name_v, 0, i as int);
                    assert forall|other: Seq<char>| other != name_v implies session_from(
                        after,
                        other,
                        0,
                    ) == session_from(before, other, 0) by {
                        lemma_sessions_agree(before, after, other, 0);
                    }
                }
            },
            None => {
                let ghost before = self.sessions@;
                self.sessions.push(SessionGlyph { name, outline });
                proof {
                    let after = self.sessions@;
                    assert forall|k: int| 0 <= k < before.len() implies after[k].name@
                        != name_v by {
                        lemma_session_absent(before, name_v, 0, k);
                    }
                    lemma_session_found(after, name_v, 0, before.len() as int);
                    if sessions_distinct(before) {
                        assert forall|a: int, b: int|
                            0 <= a < b < after.len() implies #[trigger] after[a].name@
                            != #[trigger] after[b].name@ by {
                            assert(after[a] == before[a]);
                            if b < before.len() {
                                assert(after[b] == before[b]);
                            }
                        }
                    }
                    assert forall|other: Seq<char>| other != name_v implies session_from(
                        after,
                        other,
                        0,
                    ) == session_from(before, other, 0) by {
                        lemma_sessions_agree(before, after, other, 0);
                    }
                }
            },
        }
    }
}

/// The value of an optional list of placed commands.
pub open spec fn placed_option(p: Option<Vec<PlacedEl>>) -> Option<
    Seq<(Seq<usize>, PathEl<PointId>)>,
> {
    match p {
        Some(v) => Some(placed_model(v@)),
        None => None,
    }
}

/// A copy of a path in font units.
fn copy_path(p: &Vec<PathEl<UnitPoint>>) -> (r: Vec<PathEl<UnitPoint>>)
    ensures
        r@ == p@,
{
    let mut r: Vec<PathEl<UnitPoint>> = Vec::new();
    let n = p.len();
    let mut i: usize = 0;
    while i < n
        invariant
            n == p.len(),
            i <= n,
            r@ == p@.take(i as int),
        decreases n - i,
    {
        r.push(p[i]);
        i = i + 1;
        assert(r@ =~= p@.take(i as int));
    }
    assert(p@.take(n as int) =~= p@);
    r
}

/// A copy of the component chain `v`, extended outward by component `k`.
fn extend_chain(v: &Vec<usize>, k: usize) -> (r: Vec<usize>)
    ensures
        r@ == v@.push(k),
{
    let mut r: Vec<usize> = Vec::new();
    let n = v.len();
    let mut i: usize = 0;
    while i < n
        invariant
            n == v.len(),
            i <= n,
            r@ == v@.take(i as int),
        decreases n - i,
    {
        r.push(v[i]);
        i = i + 1;
        assert(r@ =~= v@.take(i as int));
    }
    assert(v@.take(n as int) =~= v@);
    r.push(k);
    r
}

impl GlyphSet {
    /// Whether the glyph resolves with `fuel` levels of nesting.
    pub fn is_resolvable(&self, name: &str, fuel: usize) -> (res: bool)
        ensures
            res == self.resolvable(name@, fuel as nat),
        decreases fuel, 1nat,
    {
        if fuel == 0 {
            return false;
        }
        match self.session_index(name) {
            Some(i) => self.outline_resolvable(self.sessions[i].outline.as_ref(), fuel),
            None => {
                let g = ufo_glyph(&self.font.ufo, name);
                match g {
                    None => true,
                    Some(o) => self.outline_resolvable(o.as_ref(), fuel),
                }
            },
        }
    }

    /// Whether the outline can be drawn and its components resolve with one
    /// level of nesting less than `fuel`.
    fn outline_resolvable(&self, outline: Option<&Outline>, fuel: usize) -> (res: bool)
        requires
            fuel > 0,
        ensures
            res == match outline {
                Some(o) => {
                    &&& outline_drawable(o@)
                    &&& forall|k: int|
                        0 <= k < o@.components.len() ==> self.resolvable(
                            #[trigger] o@.components[k],
                            (fuel - 1) as nat,
                        )
                },
                None => true,
            },
        decreases fuel, 0nat,
    {
        match outline {
            None => true,
            Some(o) => {
                if !outline_is_drawable(o) {
                    return false;
                }
                let n = o.components.len();
                let mut k: usize = 0;
                while k < n
                    invariant
                        outline == Some(o),
                        n == o.components.len(),
                        k <= n,
                        fuel > 0,
                        forall|j: int|
                            0 <= j < k ==> self.resolvable(
                                #[trigger] o@.components[j],
                                (fuel - 1) as nat,
                            ),
                    decreases n - k,
                {
                    assert(o@.components[k as int] == o.components[k as int]@);
                    if !self.is_resolvable(o.components[k].as_str(), fuel - 1) {
                        assert(o@.components.len() == n);
                        assert(!self.resolvable(o@.components[k as int], (fuel - 1) as nat));
                        return false;
                    }
                    k = k + 1;
                }
                true
            },
        }
    }

    /// The resolved outline of the glyph, with `fuel` levels of nesting.
    fn resolve(&self, name: &str, Ghost(fuel): Ghost<nat>) -> (res: Option<Vec<PlacedEl>>)
        requires
            self.resolvable(name@, fuel),
        ensures
            placed_option(res) == self.resolved(name@, fuel),
        decreases fuel, 2nat,
    {
        match self.session_index(name) {
            Some(i) => self.resolve_outline(self.sessions[i].outline.as_ref(), Ghost(fuel)),
            None => {
                let g = ufo_glyph(&self.font.ufo, name);
                match g {
                    None => None,
                    Some(o) => self.resolve_outline(o.as_ref(), Ghost(fuel)),
                }
            },
        }
    }

    /// The commands of the outline's own contours, followed by those of its
    /// resolved components.
    fn resolve_outline(&self, outline: Option<&Outline>, Ghost(fuel): Ghost<nat>) -> (res: Option<
        Vec<PlacedEl>,
    >)
        requires
            fuel > 0,
            outline matches Some(o) ==> {
                &&& outline_drawable(o@)
                &&& forall|k: int|
                    0 <= k < o@.components.len() ==> self.resolvable(
                        #[trigger] o@.components[k],
                        (fuel - 1) as nat,
                    )
            },
        ensures
            placed_option(res) == match outline {
                Some(o) => Some(
                    unplaced(outline_path(o@)) + self.resolved_components(
                        o@.components,
                        (fuel - 1) as nat,
                    ),
                ),
                None => None,
            },
        decreases fuel, 1nat,
    {
        match outline {
            None => None,
            Some(o) => {
                let path = path_for_glyph(Some(o));
                let path = match path {
                    Some(p) => p,
                    None => {
                        return None;
                    },
                };
                let mut bez: Vec<PlacedEl> = Vec::new();
                let n = path.len();
                let mut i: usize = 0;
                while i < n
                    invariant
                        n == path.len(),
                        i <= n,
                        placed_model(bez@) == unplaced(path@.take(i as int)),
                    decreases n - i,
                {
                    let e = PlacedEl { components: Vec::new(), el: path[i] };
                    assert(e@ == (Seq::<usize>::empty(), path@[i as int]));
                    let ghost old_bez = bez@;
                    bez.push(e);
                    i = i + 1;
                    assert(bez@ == old_bez.push(e));
                    assert(unplaced(path@.take(i - 1)).len() == i - 1);
                    assert(placed_model(old_bez).len() == old_bez.len());
                    assert(old_bez.len() == i - 1);
                    assert(placed_model(bez@).len() == i);
                    assert(unplaced(path@.take(i as int)).len() == i);
                    assert forall|x: int| 0 <= x < i implies placed_model(bez@)[x] == unplaced(
                        path@.take(i as int),
                    )[x] by {
                        if x < i - 1 {
                            assert(bez@[x] == old_bez[x]);
                            assert(placed_model(old_bez)[x] == unplaced(path@.take(i - 1))[x]);
                        }
                    }
                    assert(placed_model(bez@) =~= unplaced(path@.take(i as int)));
                }
                assert(path@.take(n as int) =~= path@);
                Some(self.resolve_components(o, bez, Ghost(fuel)))
            },
        }
    }

    /// Appends to `bez` the resolved outline of each component of `outline`,
    /// placed as that component; a component whose glyph is missing or has
    /// no outline adds nothing.
    fn resolve_components(&self, outline: &Outline, bez: Vec<PlacedEl>, Ghost(fuel): Ghost<nat>) -> (res:
        Vec<PlacedEl>)
        requires
            fuel > 0,
            forall|k: int|
                0 <= k < outline@.components.len() ==> self.resolvable(
                    #[trigger] outline@.components[k],
                    (fuel - 1) as nat,
                ),
        ensures
            placed_model(res@) == placed_model(bez@) + self.resolved_components(
                outline@.components,
                (fuel - 1) as nat,
            ),
        decreases fuel, 0nat,
    {
        let ghost comps = outline@.components;
        let ghost f = (fuel - 1) as nat;
        let ghost start = placed_model(bez@);
        let mut bez = bez;
        let n = outline.components.len();
        let mut k: usize = 0;
        assert(comps.take(0) =~= Seq::<Seq<char>>::empty());
        while k < n
            invariant
                n == outline.components.len(),
                comps == outline@.components,
                f == fuel - 1,
                fuel > 0,
                k <= n,
                forall|j: int|
                    0 <= j < comps.len() ==> self.resolvable(#[trigger] comps[j], f),
                placed_model(bez@) == start + self.resolved_components(comps.take(k as int), f),
            decreases n - k,
        {
            let ghost before = placed_model(bez@);
            assert(comps[k as int] == outline.components[k as int]@);
            let sub = self.resolve(outline.components[k].as_str(), Ghost(f));
            match sub {
                Some(sub) => {
                    let m = sub.len();
                    let mut j: usize = 0;
                    while j < m
                        invariant
                            m == sub.len(),
                            j <= m,
                            k < n,
                            placed_model(bez@) == before + under_component(
                                placed_model(sub@).take(j as int),
                                k as int,
                            ),
                        decreases m - j,
                    {
                        let chain = extend_chain(&sub[j].components, k);
                        let e = PlacedEl { components: chain, el: sub[j].el };
                        assert(e@ == (placed_model(sub@)[j as int].0.push(k), placed_model(
                            sub@,
                        )[j as int].1));
                        let ghost old_bez = bez@;
                        bez.push(e);
                        j = j + 1;
                        let ghost sm = placed_model(sub@);
                        assert(under_component(sm.take(j - 1), k as int).len() == j - 1);
                        assert(placed_model(old_bez).len() == old_bez.len());
                        assert(old_bez.len() == before.len() + j - 1);
                        assert(placed_model(bez@).len() == before.len() + j);
                        assert forall|x: int|
                            0 <= x < before.len() + j implies placed_model(bez@)[x] == (before
                            + under_component(sm.take(j as int), k as int))[x] by {
                            if x < before.len() + j - 1 {
                                assert(bez@[x] == old_bez[x]);
                                assert(placed_model(old_bez)[x] == (before + under_component(
                                    sm.take(j - 1),
                                    k as int,
                                ))[x]);
                            }
                        }
                        assert(placed_model(bez@) =~= before + under_component(
                            placed_model(sub@).take(j as int),
                            k as int,
                        ));
                    }
                    assert(placed_model(sub@).take(m as int) =~= placed_model(sub@));
                },
                None => {},
            }
            proof {
                let t = comps.take(k + 1);
                assert(t.drop_last() =~= comps.take(k as int));
                assert(t[k as int] == comps[k as int]);
                assert(placed_model(bez@) =~= start + self.resolved_components(t, f));
            }
            k = k + 1;
        }
        assert(comps.take(n as int) =~= comps);
        bez
    }

    /// The glyph's resolved outline. `None` when neither the sessions nor the
    /// font have the glyph, or the glyph has no outline.
    pub fn get_bezier(&self, name: &str) -> (res: Option<Vec<PlacedEl>>)
        requires
            exists|f: nat| self.resolvable(name@, f),
        ensures
            placed_option(res) == self.bezier(name@),
    {
        let ghost f = choose|f: nat| self.resolvable(name@, f);
        self.resolve(name, Ghost(f))
    }

    /// What is drawn for the glyph: its resolved outline, or the placeholder
    /// when the glyph is missing or has no outline; checked as
    /// `try_get_bezier` checks.
    pub fn drawn_outline(&self, name: &str) -> (res: Result<DrawnOutline, Unresolvable>)
        ensures
            match res {
                Ok(DrawnOutline::Resolved(v)) => self.resolvable(name@, self.depth_bound())
                    && self.bezier(name@) == Some(placed_model(v@)),
                Ok(DrawnOutline::Placeholder(p)) => self.resolvable(name@, self.depth_bound())
                    && self.bezier(name@) is None && p@ == self.font.placeholder@,
                Err(_) => {
                    &&& !self.resolvable(name@, self.depth_bound())
                    &&& self.sessions.len() + ufo_glyphs(self.font.ufo).dom().len() < usize::MAX
                        ==> !exists|f: nat| self.resolvable(name@, f)
                },
            },
    {
        match self.try_get_bezier(name) {
            Ok(Some(v)) => Ok(DrawnOutline::Resolved(v)),
            Ok(None) => Ok(DrawnOutline::Placeholder(copy_path(&self.font.placeholder))),
            Err(e) => Err(e),
        }
    }

    /// The glyph's resolved outline, after checking that it resolves with as
    /// many levels of nesting as the set has glyphs (and one more). A glyph
    /// whose components reach no glyph twice resolves within that bound.
    pub fn try_get_bezier(&self, name: &str) -> (res: Result<Option<Vec<PlacedEl>>, Unresolvable>)
        ensures
            match res {
                Ok(p) => self.resolvable(name@, self.depth_bound()) && placed_option(p)
                    == self.bezier(name@),
                Err(_) => {
                    &&& !self.resolvable(name@, self.depth_bound())
                    &&& self.sessions.len() + ufo_glyphs(self.font.ufo).dom().len() < usize::MAX
                        ==> !exists|f: nat| self.resolvable(name@, f)
                },
            },
    {
        let count = ufo_glyph_count(&self.font.ufo);
        let bound = self.sessions.len().saturating_add(count).saturating_add(1);
        assert(bound == self.depth_bound());
        if self.is_resolvable(name, bound) {
            Ok(self.get_bezier(name))
        } else {
            proof {
                if self.sessions.len() + self.font_glyphs().dom().len() < usize::MAX {
                    assert forall|f: nat| !self.resolvable(name@, f) by {
                        if self.resolvable(name@, f) {
                            self.lemma_bound_suffices(name@, f);
                        }
                    }
                }
            }
            Err(Unresolvable::CyclicOrMalformed)
        }
    }
}

impl GlyphSet {
    /// Once the nesting allowed is enough for a glyph to resolve, allowing
    /// more changes nothing: the resolved outline is the same for every
    /// sufficient nesting.
    pub proof fn lemma_resolution_settles(&self, name: Seq<char>, f1: nat, f2: nat)
        requires
            self.resolvable(name, f1),
            self.resolvable(name, f2),
        ensures
            self.resolved(name, f1) == self.resolved(name, f2),
        decreases f1, 1nat,
    {
        match self.glyph(name) {
            Some(Some(o)) => {
                self.lemma_components_settle(o.components, (f1 - 1) as nat, (f2 - 1) as nat);
            },
            _ => {},
        }
    }

    /// The components' resolved outlines are the same for every sufficient
    /// nesting.
    proof fn lemma_components_settle(&self, comps: Seq<Seq<char>>, f1: nat, f2: nat)
        requires
            forall|k: int| 0 <= k < comps.len() ==> self.resolvable(#[trigger] comps[k], f1),
            forall|k: int| 0 <= k < comps.len() ==> self.resolvable(#[trigger] comps[k], f2),
        ensures
            self.resolved_components(comps, f1) == self.resolved_components(comps, f2),
        decreases f1, comps.len() + 2,
    {
        if comps.len() > 0 {
            let k = comps.len() - 1;
            let rest = comps.drop_last();
            assert forall|j: int| 0 <= j < rest.len() implies self.resolvable(
                #[trigger] rest[j],
                f1,
            ) && self.resolvable(rest[j], f2) by {
                assert(rest[j] == comps[j]);
            }
            self.lemma_components_settle(rest, f1, f2);
            self.lemma_resolution_settles(comps[k], f1, f2);
        }
    }

    /// A resolved outline starts with the commands of the glyph's own
    /// contours, which are placed in the glyph itself, and goes on with those
    /// of its components, each placed under at least one component.
    pub proof fn lemma_own_contours_first(&self, name: Seq<char>, f: nat, o: OutlineModel)
        requires
            self.resolvable(name, f),
            self.glyph(name) == Some(Some(o)),
        ensures
            self.bezier(name) matches Some(p) && p.take(outline_path(o).len() as int) == unplaced(
                outline_path(o),
            ) && forall|i: int|
                outline_path(o).len() <= i < p.len() ==> (#[trigger] p[i]).0.len() > 0,
    {
        self.lemma_bezier_is_resolved(name, f);
        let own = unplaced(outline_path(o));
        let rest = self.resolved_components(o.components, (f - 1) as nat);
        self.lemma_components_nested(o.components, (f - 1) as nat);
        let p = own + rest;
        assert(p.take(outline_path(o).len() as int) =~= own);
        assert forall|i: int| outline_path(o).len() <= i < p.len() implies (#[trigger] p[i]).0.len()
            > 0 by {
            assert(p[i] == rest[i - own.len()]);
        }
    }

    /// Every command contributed by components is placed under at least one
    /// component.
    proof fn lemma_components_nested(&self, comps: Seq<Seq<char>>, f: nat)
        ensures
            forall|i: int|
                0 <= i < self.resolved_components(comps, f).len() ==> (#[trigger] self.resolved_components(
                    comps,
                    f,
                )[i]).0.len() > 0,
        decreases comps.len(),
    {
        if comps.len() > 0 {
            let k = comps.len() - 1;
            self.lemma_components_nested(comps.drop_last(), f);
            let before = self.resolved_components(comps.drop_last(), f);
            let last = match self.resolved(comps[k], f) {
                Some(q) => under_component(q, k),
                None => seq![],
            };
            let all = self.resolved_components(comps, f);
            assert(all == before + last);
            assert forall|i: int| 0 <= i < all.len() implies (#[trigger] all[i]).0.len() > 0 by {
                if i < before.len() {
                    assert(all[i] == before[i]);
                } else {
                    assert(all[i] == last[i - before.len()]);
                }
            }
        }
    }

    /// What component `k` of a glyph adds to the glyph's resolved outline,
    /// given the resolved outline `p` of the component's glyph: that outline
    /// placed under `k`, or nothing when the component's glyph is missing or
    /// has no outline.
    pub open spec fn contribution(p: Option<Seq<(Seq<usize>, PathEl<PointId>)>>, k: int) -> Seq<
        (Seq<usize>, PathEl<PointId>),
    > {
        match p {
            Some(q) => under_component(q, k),
            None => seq![],
        }
    }

    proof fn lemma_components_flatten(&self, comps: Seq<Seq<char>>, g: nat)
        ensures
            self.resolved_components(comps, g) == Seq::new(
                comps.len(),
                |k: int| Self::contribution(self.resolved(comps[k], g), k),
            ).flatten(),
        decreases comps.len(),
    {
        let all = Seq::new(
            comps.len(),
            |k: int| Self::contribution(self.resolved(comps[k], g), k),
        );
        if comps.len() == 0 {
            assert(all.len() == 0);
        } else {
            let rest = comps.drop_last();
            let k = comps.len() - 1;
            self.lemma_components_flatten(rest, g);
            let front = Seq::new(
                rest.len(),
                |j: int| Self::contribution(self.resolved(rest[j], g), j),
            );
            assert(all =~= front.push(Self::contribution(self.resolved(comps[k], g), k)));
            front.lemma_flatten_push(Self::contribution(self.resolved(comps[k], g), k));
        }
    }

    /// Every component contributes: the resolved outline of a glyph is the
    /// commands of its own contours followed, for each component `k` in
    /// order, by the resolved outline of that component's glyph placed under
    /// `k` (nothing for a component whose glyph is missing or has no outline).
    pub proof fn lemma_every_component_contributes(&self, name: Seq<char>, f: nat, o: OutlineModel)
        requires
            self.resolvable(name, f),
            self.glyph(name) == Some(Some(o)),
        ensures
            self.bezier(name) == Some(
                unplaced(outline_path(o)) + Seq::new(
                    o.components.len(),
                    |k: int| Self::contribution(self.bezier(o.components[k]), k),
                ).flatten(),
            ),
    {
        let g = (f - 1) as nat;
        self.lemma_bezier_is_resolved(name, f);
        self.lemma_components_flatten(o.components, g);
        let by_fuel = Seq::new(
            o.components.len(),
            |k: int| Self::contribution(self.resolved(o.components[k], g), k),
        );
        let by_bezier = Seq::new(
            o.components.len(),
            |k: int| Self::contribution(self.bezier(o.components[k]), k),
        );
        assert forall|k: int| 0 <= k < o.components.len() implies by_fuel[k] == by_bezier[k] by {
            assert(self.resolvable(o.components[k], g));
            self.lemma_bezier_is_resolved(o.components[k], g);
        }
        assert(by_fuel =~= by_bezier);
    }

    /// Resolving depends on nothing but the glyph's own outline and its
    /// components: a glyph whose outline can be drawn and each of whose
    /// components (repeated ones included) resolves with one level less
    /// resolves; so does a glyph that is missing or has no outline.
    pub proof fn lemma_resolvable_from_parts(&self, name: Seq<char>, f: nat)
        requires
            f > 0,
            self.glyph(name) matches Some(Some(o)) ==> {
                &&& outline_drawable(o)
                &&& forall|k: int|
                    0 <= k < o.components.len() ==> self.resolvable(
                        #[trigger] o.components[k],
                        (f - 1) as nat,
                    )
            },
        ensures
            self.resolvable(name, f),
    {
    }

    /// The glyph's resolved outline is what resolving with any sufficient
    /// nesting gives.
    pub proof fn lemma_bezier_is_resolved(&self, name: Seq<char>, f: nat)
        requires
            self.resolvable(name, f),
        ensures
            self.bezier(name) == self.resolved(name, f),
    {
        let g = choose|g: nat| self.resolvable(name, g);
        self.lemma_resolution_settles(name, g, f);
    }
}

/// Whether an editor's session must be stored back into the sessions after
/// an edit: `stored_is_same` tells whether the stored session of that name
/// is still the one edited (`None` when there is none). It is stored back
/// exactly when a stored session exists and the edit replaced it.
pub fn needs_write_back(stored_is_same: Option<bool>) -> (res: bool)
    ensures
        res == (stored_is_same == Some(false)),
{
    match stored_is_same {
        Some(same) => !same,
        None => false,
    }
}

/// The names of the sessions, in order.
pub open spec fn session_names(s: Seq<SessionGlyph>) -> Seq<Seq<char>> {
    s.map_values(|g: SessionGlyph| g.name@)
}

/// A name found among the sessions is the name of one of them.
proof fn lemma_session_named(s: Seq<SessionGlyph>, n: Seq<char>, j: int)
    requires
        0 <= j,
        session_from(s, n, j) is Some,
    ensures
        session_names(s).contains(n),
    decreases s.len() - j,
{
    if j < s.len() {
        if s[j].name@ == n {
            assert(session_names(s)[j] == n);
        } else {
            lemma_session_named(s, n, j + 1);
        }
    }
}

impl GlyphSet {
    /// Whether `b` names one of the components of glyph `a`'s outline.
    pub open spec fn uses_component(&self, a: Seq<char>, b: Seq<char>) -> bool {
        self.glyph(a) matches Some(Some(o)) && exists|k: int|
            0 <= k < o.components.len() && o.components[k] == b
    }

    /// A component of glyph `n` that does not resolve with `g` levels of
    /// nesting.
    pub open spec fn stuck_component(&self, n: Seq<char>, g: nat) -> Seq<char> {
        match self.glyph(n) {
            Some(Some(o)) => o.components[choose|k: int|
                0 <= k < o.components.len() && !self.resolvable(#[trigger] o.components[k], g)],
            _ => n,
        }
    }

    /// Starting at `n`, the chain of `len` glyphs in which each next glyph is
    /// a component of the previous one that does not resolve with one level
    /// of nesting less.
    pub open spec fn stuck_chain(&self, n: Seq<char>, g: nat, len: nat) -> Seq<Seq<char>>
        decreases len,
    {
        if len == 0 {
            seq![]
        } else {
            seq![n] + self.stuck_chain(
                self.stuck_component(n, (g - 1) as nat),
                (g - 1) as nat,
                (len - 1) as nat,
            )
        }
    }

    /// Allowing more nesting never stops a glyph from resolving.
    pub proof fn lemma_resolvable_monotone(&self, n: Seq<char>, f: nat, g: nat)
        requires
            self.resolvable(n, f),
            f <= g,
        ensures
            self.resolvable(n, g),
        decreases f,
    {
        match self.glyph(n) {
            Some(Some(o)) => {
                assert forall|k: int| 0 <= k < o.components.len() implies self.resolvable(
                    #[trigger] o.components[k],
                    (g - 1) as nat,
                ) by {
                    self.lemma_resolvable_monotone(o.components[k], (f - 1) as nat, (g - 1) as nat);
                }
            },
            _ => {},
        }
    }

    /// Following components from a glyph that resolves uses one level of
    /// nesting per step.
    proof fn lemma_walk(&self, c: Seq<Seq<char>>, i: int, m: int, g: nat)
        requires
            0 <= i <= m < c.len(),
            forall|k: int| i <= k < m ==> #[trigger] self.uses_component(c[k], c[k + 1]),
            self.resolvable(c[i], g),
        ensures
            g >= m - i,
            self.resolvable(c[m], (g - (m - i)) as nat),
        decreases m - i,
    {
        if i < m {
            self.lemma_walk(c, i, m - 1, g);
            let h = (g - (m - 1 - i)) as nat;
            let p = m - 1;
            assert(self.uses_component(c[p], c[p + 1]));
            assert(c[p + 1] == c[m]);
            let o = self.glyph(c[m - 1])->Some_0->Some_0;
            let k = choose|k: int| 0 <= k < o.components.len() && o.components[k] == c[m];
            assert(self.resolvable(o.components[k], (h - 1) as nat));
        }
    }

    /// A glyph whose components lead back to it resolves with no nesting.
    proof fn lemma_cycle_unresolvable(&self, c: Seq<Seq<char>>, i: int, j: int, g: nat)
        requires
            0 <= i < j < c.len(),
            c[i] == c[j],
            forall|k: int| i <= k < j ==> #[trigger] self.uses_component(c[k], c[k + 1]),
        ensures
            !self.resolvable(c[i], g),
        decreases g,
    {
        if self.resolvable(c[i], g) {
            self.lemma_walk(c, i, j, g);
            self.lemma_cycle_unresolvable(c, i, j, (g - (j - i)) as nat);
        }
    }

    /// The stuck chain from a glyph that resolves with `f` levels but not
    /// with `g < f`: its glyphs are found with outlines, each uses the next
    /// as a component.
    proof fn lemma_stuck_chain(&self, n: Seq<char>, g: nat, f: nat, len: nat)
        requires
            len <= g,
            g < f,
            !self.resolvable(n, g),
            self.resolvable(n, f),
        ensures
            self.stuck_chain(n, g, len).len() == len,
            forall|k: int|
                0 <= k < len ==> #[trigger] self.glyph(self.stuck_chain(n, g, len)[k]) is Some,
            forall|k: int|
                0 <= k < len - 1 ==> #[trigger] self.uses_component(
                    self.stuck_chain(n, g, len)[k],
                    self.stuck_chain(n, g, len)[k + 1],
                ),
            len > 0 ==> self.stuck_chain(n, g, len)[0] == n,
        decreases len,
    {
        if len > 0 {
            let o = self.glyph(n)->Some_0->Some_0;
            assert(self.glyph(n) == Some(Some(o)));
            let next = self.stuck_component(n, (g - 1) as nat);
            assert(exists|k: int|
                0 <= k < o.components.len() && !self.resolvable(
                    #[trigger] o.components[k],
                    (g - 1) as nat,
                ));
            let k = choose|k: int|
                0 <= k < o.components.len() && !self.resolvable(
                    #[trigger] o.components[k],
                    (g - 1) as nat,
                );
            assert(next == o.components[k]);
            assert(self.resolvable(o.components[k], (f - 1) as nat));
            self.lemma_stuck_chain(next, (g - 1) as nat, (f - 1) as nat, (len - 1) as nat);
            let rest = self.stuck_chain(next, (g - 1) as nat, (len - 1) as nat);
            let c = self.stuck_chain(n, g, len);
            assert(c == seq![n] + rest);
            assert forall|j: int| 0 <= j < len implies #[trigger] self.glyph(c[j]) is Some by {
                if j > 0 {
                    assert(c[j] == rest[j - 1]);
                }
            }
            assert forall|j: int| 0 <= j < len - 1 implies #[trigger] self.uses_component(
                c[j],
                c[j + 1],
            ) by {
                if j == 0 {
                    assert(c[0] == n);
                    assert(c[j + 1] == rest[0]);
                    assert(rest[0] == next);
                    assert(self.glyph(c[0]) == Some(Some(o)));
                    assert(o.components[k] == c[j + 1]);
                } else {
                    let q = j - 1;
                    assert(0 <= q < len - 1 - 1);
                    assert(self.uses_component(rest[q], rest[q + 1]));
                    assert(c[j] == rest[q]);
                    assert(c[j + 1] == rest[q + 1]);
                }
            }
        }
    }

    /// Resolution needs no more levels of nesting than the set has glyphs,
    /// and one more: a glyph that resolves with some nesting resolves within
    /// `depth_bound`.
    pub proof fn lemma_bound_suffices(&self, name: Seq<char>, f: nat)
        requires
            self.resolvable(name, f),
            ufo_glyphs(self.font.ufo).dom().finite(),
            self.sessions.len() + ufo_glyphs(self.font.ufo).dom().len() < usize::MAX,
        ensures
            self.resolvable(name, self.depth_bound()),
    {
        broadcast use vstd::seq_lib::seq_to_set_is_finite;

        let b = self.depth_bound();
        if !self.resolvable(name, b) {
            if f <= b {
                self.lemma_resolvable_monotone(name, f, b);
            }
            let c = self.stuck_chain(name, b, b);
            self.lemma_stuck_chain(name, b, f, b);
            let names = session_names(self.sessions@);
            let dom = self.font_glyphs().dom();
            let known = names.to_set().union(dom);
            assert forall|x: Seq<char>| c.to_set().contains(x) implies known.contains(x) by {
                let k = choose|k: int| 0 <= k < c.len() && c[k] == x;
                assert(self.glyph(c[k]) is Some);
                if session_from(self.sessions@, x, 0) is Some {
                    lemma_session_named(self.sessions@, x, 0);
                }
            }
            if c.no_duplicates() {
                c.unique_seq_to_set();
                names.lemma_cardinality_of_set();
                vstd::set_lib::lemma_len_union(names.to_set(), dom);
                vstd::set_lib::lemma_len_subset(c.to_set(), known);
                assert(false);
            } else {
                let (i, j) = choose|i: int, j: int|
                    0 <= i < c.len() && 0 <= j < c.len() && i != j && c[i] == c[j];
                let (lo, hi) = if i < j {
                    (i, j)
                } else {
                    (j, i)
                };
                assert forall|k: int| lo <= k < hi implies #[trigger] self.uses_component(
                    c[k],
                    c[k + 1],
                ) by {}
                assert forall|k: int| 0 <= k < lo implies #[trigger] self.uses_component(
                    c[k],
                    c[k + 1],
                ) by {}
                self.lemma_walk(c, 0, lo, f);
                self.lemma_cycle_unresolvable(c, lo, hi, (f - lo) as nat);
            }
        }
    }
}

/// Two session lists that agree, from index `j` on, on every session of the
/// name `n`, and whose extra sessions have other names, find the same glyph
/// for `n`.
proof fn lemma_sessions_agree(
    before: Seq<SessionGlyph>,
    after: Seq<SessionGlyph>,
    n: Seq<char>,
    j: int,
)
    requires
        0 <= j,
        after.len() >= before.len(),
        forall|k: int|
            j <= k < before.len() ==> after[k] == before[k] || (after[k].name@ != n
                && before[k].name@ != n),
        forall|k: int| before.len() <= k < after.len() ==> after[k].name@ != n,
    ensures
        session_from(after, n, j) == session_from(before, n, j),
    decreases after.len() - j,
{
    if j < after.len() {
        lemma_sessions_agree(before, after, n, j + 1);
    }
}

/// The first session of name `n` from index `j` on is at `i`.
proof fn lemma_session_found(s: Seq<SessionGlyph>, n: Seq<char>, j: int, i: int)
    requires
        0 <= j <= i < s.len(),
        s[i].name@ == n,
        forall|k: int| j <= k < i ==> s[k].name@ != n,
    ensures
        session_from(s, n, j) == Some(outline_model(s[i].outline)),
    decreases i - j,
{
    if j < i {
        lemma_session_found(s, n, j + 1, i);
    }
}

/// When no session from index `j` on has name `n`, none has that name.
proof fn lemma_session_absent(s: Seq<SessionGlyph>, n: Seq<char>, j: int, k: int)
    requires
        0 <= j <= k < s.len(),
        session_from(s, n, j) is None,
    ensures
        s[k].name@ != n,
    decreases k - j,
{
    if j < k {
        lemma_session_absent(s, n, j + 1, k);
    }
}

} // verus!
