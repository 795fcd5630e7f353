use vstd::prelude::*;

use crate::circle::{
    Circle, circle_contains, circle_fields_text, circle_sample_points, lemma_circle_fields_round_trip,
    parse_circle_range, spec_parse_circle,
};
use crate::rect::{
    Rect, lemma_rect_fields_round_trip, parse_rect_range, rect_contains, rect_fields_text,
    rect_sample_points, spec_parse_rect,
};
use crate::text::{ParseError, first_space, lemma_first_space};
use vstd::string::StrSliceExecFns;
use vstd::string::StringExecFns;

verus! {

/// A shape: either a circle or a rectangle, owned by value.
#[derive(Clone, Copy, PartialEq, Eq, Structural, Debug)]
pub enum Shape {
    Circle(Circle),
    Rect(Rect),
}

/// The finite sample of points the shape contributes to the collision
/// heuristic.
pub open spec fn shape_sample_points(sh: Shape) -> Seq<(i64, i64)> {
    match sh {
        Shape::Circle(c) => circle_sample_points(c),
        Shape::Rect(r) => rect_sample_points(r),
    }
}

/// Whether the shape contains the point, by the active variant's predicate.
pub open spec fn shape_contains(sh: Shape, p: (i64, i64)) -> bool {
    match sh {
        Shape::Circle(c) => circle_contains(c, p),
        Shape::Rect(r) => rect_contains(r, p),
    }
}

/// The text a shape renders to: its kind keyword, then its fields.
pub open spec fn spec_display(sh: Shape) -> Seq<char> {
    match sh {
        Shape::Circle(c) => "circle "@ + circle_fields_text(c),
        Shape::Rect(r) => "rect "@ + rect_fields_text(r),
    }
}

/// What parsing a line yields: the word before the first space picks the
/// shape kind, and the rest of the line is handed to that kind's field
/// parser. A line without a space, or with an unrecognized first word, is
/// rejected.
pub open spec fn spec_parse_shape(s: Seq<char>) -> Result<Shape, ParseError> {
    match first_space(s) {
        Option::None => Result::Err(ParseError::UnknownKind),
        Option::Some(i) => {
            let kind = s.subrange(0, i);
            let data = s.subrange(i + 1, s.len() as int);
            if kind == "circle"@ {
                match spec_parse_circle(data) {
                    Result::Ok(c) => Result::Ok(Shape::Circle(c)),
                    Result::Err(e) => Result::Err(e),
                }
            } else if kind == "rect"@ {
                match spec_parse_rect(data) {
                    Result::Ok(r) => Result::Ok(Shape::Rect(r)),
                    Result::Err(e) => Result::Err(e),
                }
            } else {
                Result::Err(ParseError::UnknownKind)
            }
        },
    }
}

/// Whether some sample point of `a` lies inside `b`.
pub open spec fn any_sample_in(a: Shape, b: Shape) -> bool {
    exists|j: int|
        0 <= j < shape_sample_points(a).len() && shape_contains(b, shape_sample_points(a)[j])
}

/// The collision heuristic: the shapes collide when a sample point of either
/// lies inside the other.
pub open spec fn spec_collide(a: Shape, b: Shape) -> bool {
    any_sample_in(a, b) || any_sample_in(b, a)
}

/// The collision heuristic is symmetric: which shape is asked first does not
/// matter.
pub proof fn lemma_collide_symmetric(a: Shape, b: Shape)
    ensures
        spec_collide(a, b) == spec_collide(b, a),
{
}

/// Whether the first `i` characters of `s` are exactly `kind`.
fn kind_matches(s: &str, i: usize, kind: &str) -> (r: bool)
    requires
        i <= s@.len(),
    ensures
        r == (s@.subrange(0, i as int) == kind@),
{
    let k = kind.unicode_len();
    if i != k {
        proof {
            assert(s@.subrange(0, i as int).len() == i);
        }
        return false;
    }
    let mut j: usize = 0;
    while j < i
        invariant
            0 <= j <= i <= s@.len(),
            i == k == kind@.len(),
            forall|t: int| 0 <= t < j ==> (#[trigger] s@[t]) == kind@[t],
        decreases i - j,
    {
        if s.get_char(j) != kind.get_char(j) {
            proof {
                assert(s@.subrange(0, i as int)[j as int] != kind@[j as int]);
            }
            return false;
        }
        j += 1;
    }
    proof {
        assert(s@.subrange(0, i as int) =~= kind@);
    }
    true
}

impl Shape {
    /// Parses a line as a shape: the word before the first space picks the
    /// kind (`circle` or `rect`), and the rest of the line gives the fields.
    pub fn from_str(s: &str) -> (r: Result<Shape, ParseError>)
        ensures
            r == spec_parse_shape(s@),
    {
        match crate::text::find_first_space(s) {
            Option::None => Result::Err(ParseError::UnknownKind),
            Option::Some(i) => {
                proof {
                    lemma_first_space(s@);
                }
                let n = s.unicode_len();
                if kind_matches(s, i, "circle") {
                    match parse_circle_range(s, i + 1, n) {
                        Result::Ok(c) => Result::Ok(Shape::Circle(c)),
                        Result::Err(e) => Result::Err(e),
                    }
                } else if kind_matches(s, i, "rect") {
                    match parse_rect_range(s, i + 1, n) {
                        Result::Ok(r) => Result::Ok(Shape::Rect(r)),
                        Result::Err(e) => Result::Err(e),
                    }
                } else {
                    Result::Err(ParseError::UnknownKind)
                }
            },
        }
    }

    /// The sample points of the active variant.
    pub fn points(&self) -> (r: Vec<(i64, i64)>)
        ensures
            r@ == shape_sample_points(*self),
    {
        match self {
            Shape::Circle(c) => c.points(),
            Shape::Rect(r) => r.points(),
        }
    }

    /// Whether the active variant contains the point.
    pub fn contains_point(&self, point: (i64, i64)) -> (r: bool)
        ensures
            r == shape_contains(*self, point),
    {
        match self {
            Shape::Circle(c) => c.contains_point(point),
            Shape::Rect(r) => r.contains_point(point),
        }
    }

    /// Renders the shape as its kind keyword followed by its fields, the
    /// inverse of [`Shape::from_str`].
    pub fn display(&self) -> (r: String)
        ensures
            r@ == spec_display(*self),
    {
        match self {
            Shape::Circle(c) => {
                let mut out = String::from_str("circle ");
                let fields = c.display();
                out.append(fields.as_str());
                out
            },
            Shape::Rect(r) => {
                let mut out = String::from_str("rect ");
                let fields = r.display();
                out.append(fields.as_str());
                out
            },
        }
    }

    /// Whether the two shapes collide under the sampled-point heuristic: a
    /// sample point of either shape lies inside the other.
    pub fn collide(&self, other: &Shape) -> (r: bool)
        ensures
            r == spec_collide(*self, *other),
    {
        let mine = self.points();
        let theirs = other.points();
        any_point_contained(&mine, other) || any_point_contained(&theirs, self)
    }
}

/// Whether any of the points is contained in the shape.
fn any_point_contained(pts: &Vec<(i64, i64)>, sh: &Shape) -> (r: bool)
    ensures
        r == exists|j: int| 0 <= j < pts@.len() && shape_contains(*sh, pts@[j]),
{
    let mut i: usize = 0;
    while i < pts.len()
        invariant
            0 <= i <= pts@.len(),
            forall|j: int| 0 <= j < i ==> !shape_contains(*sh, #[trigger] pts@[j]),
        decreases pts@.len() - i,
    {
        if sh.contains_point(pts[i]) {
            return true;
        }
        i += 1;
    }
    false
}

/// Round trip for circles: parsing the rendering of any circle gives that
/// circle back.
pub proof fn lemma_parse_display_circle(c: Circle)
    ensures
        spec_parse_shape(spec_display(Shape::Circle(c))) == Result::<Shape, ParseError>::Ok(
            Shape::Circle(c),
        ),
{
    let fields = circle_fields_text(c);
    let s = spec_display(Shape::Circle(c));
    reveal_strlit("circle ");
    reveal_strlit("circle");
    assert(s[6] == ' ');
    assert(forall|j: int| 0 <= j < 6 ==> (#[trigger] s[j]) != ' ');
    lemma_first_space(s);
    match first_space(s) {
        Option::None => {
            assert(false);
        },
        Option::Some(i) => {
            assert(i == 6) by {
                if i < 6 {
                    assert(s[i] != ' ');
                } else if i > 6 {
                    assert(s[6] != ' ');
                }
            }
            assert(s.subrange(0, 6) =~= "circle"@);
            assert(s.subrange(7, s.len() as int) =~= fields);
            lemma_circle_fields_round_trip(c);
        },
    }
}

/// Round trip for rectangles: parsing the rendering of any rectangle gives
/// that rectangle back.
pub proof fn lemma_parse_display_rect(r: Rect)
    ensures
        spec_parse_shape(spec_display(Shape::Rect(r))) == Result::<Shape, ParseError>::Ok(
            Shape::Rect(r),
        ),
{
    let fields = rect_fields_text(r);
    let s = spec_display(Shape::Rect(r));
    reveal_strlit("rect ");
    reveal_strlit("rect");
    reveal_strlit("circle");
    assert(s[4] == ' ');
    assert(forall|j: int| 0 <= j < 4 ==> (#[trigger] s[j]) != ' ');
    lemma_first_space(s);
    match first_space(s) {
        Option::None => {
            assert(false);
        },
        Option::Some(i) => {
            assert(i == 4) by {
                if i < 4 {
                    assert(s[i] != ' ');
                } else if i > 4 {
                    assert(s[4] != ' ');
                }
            }
            assert(s.subrange(0, 4) =~= "rect"@);
            assert(s.subrange(0, 4) != "circle"@) by {
                assert(s.subrange(0, 4).len() == 4);
                assert("circle"@.len() == 6);
            }
            assert(s.subrange(5, s.len() as int) =~= fields);
            lemma_rect_fields_round_trip(r);
        },
    }
}

} // verus!
