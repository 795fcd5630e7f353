use vstd::prelude::*;

use crate::text::{
    ParseError, is_i32_text, text_value, split_on, int_text, parse_i32_range, split_field_ranges,
    push_int_text, lemma_int_text_i32, lemma_split_first_piece, lemma_split_whole_piece,
};

verus! {

/// A circle given by its center `(x, y)` and its `radius`.
///
/// Nothing is demanded of the fields: a zero or negative radius is accepted
/// structurally. The containment test squares the radius, so a negative
/// radius bounds the same disk as its magnitude.
#[derive(Clone, Copy, PartialEq, Eq, Structural, Debug)]
pub struct Circle {
    pub x: i32,
    pub y: i32,
    pub radius: i32,
}

/// The exact analytic point-in-circle predicate: the squared distance from
/// the point to the center is at most the squared radius.
pub open spec fn circle_contains(c: Circle, p: (i64, i64)) -> bool {
    (p.0 - c.x) * (p.0 - c.x) + (p.1 - c.y) * (p.1 - c.y) <= c.radius * c.radius
}

/// The finite sample of points a circle contributes to the collision
/// heuristic: just its center.
pub open spec fn circle_sample_points(c: Circle) -> Seq<(i64, i64)> {
    seq![(c.x as i64, c.y as i64)]
}

proof fn lemma_square_nonneg(a: int)
    ensures
        a * a >= 0,
{
    assert(a * a >= 0) by (nonlinear_arith);
}

proof fn lemma_wide_square_exceeds(a: int, b: int)
    requires
        a > 0x1_0000_0000 || a < -0x1_0000_0000,
        -0x8000_0000 <= b <= 0x7fff_ffff,
    ensures
        a * a > b * b,
{
    assert(a * a > b * b) by (nonlinear_arith)
        requires
            a > 0x1_0000_0000 || a < -0x1_0000_0000,
            -0x8000_0000 <= b <= 0x7fff_ffff,
    ;
}

proof fn lemma_narrow_square_bounded(a: int)
    requires
        -0x1_0000_0000 <= a <= 0x1_0000_0000,
    ensures
        0 <= a * a <= 0x1_0000_0000_0000_0000,
{
    assert(0 <= a * a <= 0x1_0000_0000_0000_0000) by (nonlinear_arith)
        requires
            -0x1_0000_0000 <= a <= 0x1_0000_0000,
    ;
}

impl Circle {
    /// Whether the point lies inside the circle (boundary included), by the
    /// exact Euclidean distance test.
    pub fn contains_point(&self, point: (i64, i64)) -> (r: bool)
        ensures
            r == circle_contains(*self, point),
    {
        let dx: i128 = point.0 as i128 - self.x as i128;
        let dy: i128 = point.1 as i128 - self.y as i128;
        let rad: i128 = self.radius as i128;
        proof {
            lemma_narrow_square_bounded(rad as int);
        }
        let rr: i128 = rad * rad;
        if dx > 0x1_0000_0000 || dx < -0x1_0000_0000 {
            proof {
                lemma_wide_square_exceeds(dx as int, rad as int);
                lemma_square_nonneg(dy as int);
            }
            false
        } else if dy > 0x1_0000_0000 || dy < -0x1_0000_0000 {
            proof {
                lemma_wide_square_exceeds(dy as int, rad as int);
                lemma_square_nonneg(dx as int);
            }
            false
        } else {
            proof {
                lemma_narrow_square_bounded(dx as int);
                lemma_narrow_square_bounded(dy as int);
            }
            dx * dx + dy * dy <= rr
        }
    }

    /// The sample points of the circle, as the collision heuristic sees them.
    pub fn points(&self) -> (r: Vec<(i64, i64)>)
        ensures
            r@ == circle_sample_points(*self),
    {
        let v: Vec<(i64, i64)> = vec![(self.x as i64, self.y as i64)];
        proof {
            assert(v@ =~= circle_sample_points(*self));
        }
        v
    }
}

/// What parsing the data fields of a circle yields: exactly three
/// space-separated integer fields, read as `x y radius`.
pub open spec fn spec_parse_circle(s: Seq<char>) -> Result<Circle, ParseError> {
    let fields = split_on(s, ' ');
    if fields.len() != 3 {
        Result::Err(ParseError::WrongFieldCount)
    } else if !(is_i32_text(fields[0]) && is_i32_text(fields[1]) && is_i32_text(fields[2])) {
        Result::Err(ParseError::InvalidNumber)
    } else {
        Result::Ok(
            Circle {
                x: text_value(fields[0]) as i32,
                y: text_value(fields[1]) as i32,
                radius: text_value(fields[2]) as i32,
            },
        )
    }
}

/// The text of a circle's fields: `x y radius`, space separated.
pub open spec fn circle_fields_text(c: Circle) -> Seq<char> {
    int_text(c.x as int) + seq![' '] + int_text(c.y as int) + seq![' '] + int_text(
        c.radius as int,
    )
}

/// Parses the characters `s[a..b]` as the data fields of a circle.
pub fn parse_circle_range(s: &str, a: usize, b: usize) -> (r: Result<Circle, ParseError>)
    requires
        a <= b <= s@.len(),
    ensures
        r == spec_parse_circle(s@.subrange(a as int, b as int)),
{
    let ranges = split_field_ranges(s, a, b);
    let ghost fields = split_on(s@.subrange(a as int, b as int), ' ');
    if ranges.len() != 3 {
        return Result::Err(ParseError::WrongFieldCount);
    }
    let x = parse_i32_range(s, ranges[0].0, ranges[0].1);
    let y = parse_i32_range(s, ranges[1].0, ranges[1].1);
    let radius = parse_i32_range(s, ranges[2].0, ranges[2].1);
    proof {
        assert(fields[0] == s@.subrange(ranges@[0].0 as int, ranges@[0].1 as int));
        assert(fields[1] == s@.subrange(ranges@[1].0 as int, ranges@[1].1 as int));
        assert(fields[2] == s@.subrange(ranges@[2].0 as int, ranges@[2].1 as int));
    }
    match (x, y, radius) {
        (Option::Some(x), Option::Some(y), Option::Some(radius)) => Result::Ok(
            Circle { x, y, radius },
        ),
        _ => Result::Err(ParseError::InvalidNumber),
    }
}

/// Parsing the field text of any circle gives that circle back.
pub proof fn lemma_circle_fields_round_trip(c: Circle)
    ensures
        spec_parse_circle(circle_fields_text(c)) == Result::<Circle, ParseError>::Ok(c),
{
    lemma_int_text_i32(c.x as int);
    lemma_int_text_i32(c.y as int);
    lemma_int_text_i32(c.radius as int);
    let tx = int_text(c.x as int);
    let ty = int_text(c.y as int);
    let tr = int_text(c.radius as int);
    assert(circle_fields_text(c) =~= tx + seq![' '] + (ty + seq![' '] + tr));
    lemma_split_first_piece(tx, ty + seq![' '] + tr, ' ');
    lemma_split_first_piece(ty, tr, ' ');
    lemma_split_whole_piece(tr, ' ');
    assert(split_on(circle_fields_text(c), ' ') =~~= seq![tx, ty, tr]);
}

impl Circle {
    /// Parses `s` as the data fields of a circle: exactly three
    /// space-separated integers, `x y radius`.
    pub fn from_str(s: &str) -> (r: Result<Circle, ParseError>)
        ensures
            r == spec_parse_circle(s@),
    {
        let n = s.unicode_len();
        let r = parse_circle_range(s, 0, n);
        proof {
            assert(s@.subrange(0, n as int) =~= s@);
        }
        r
    }

    /// Renders the circle's fields as `x y radius`, the inverse of
    /// [`Circle::from_str`].
    pub fn display(&self) -> (r: String)
        ensures
            r@ == circle_fields_text(*self),
    {
        let mut out = String::new();
        push_int_text(&mut out, self.x);
        out.append(" ");
        push_int_text(&mut out, self.y);
        out.append(" ");
        push_int_text(&mut out, self.radius);
        proof {
            reveal_strlit(" ");
            assert(" "@ =~= seq![' ']);
            assert(out@ =~= circle_fields_text(*self));
        }
        out
    }
}

impl Default for Circle {
    /// The unit circle at the origin.
    fn default() -> (c: Circle)
        ensures
            c == (Circle { x: 0, y: 0, radius: 1 }),
    {
        Circle { x: 0, y: 0, radius: 1 }
    }
}

} // verus!
