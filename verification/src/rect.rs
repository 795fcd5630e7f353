use vstd::prelude::*;

use crate::text::{
    ParseError, is_i32_text, text_value, split_on, int_text, parse_i32_range, split_field_ranges,
    push_int_text, lemma_int_text_i32, lemma_split_first_piece, lemma_split_whole_piece,
};

verus! {

/// An axis-aligned rectangle given by its lower corner `(x, y)` and its
/// extent `width` x `height`.
///
/// Nothing is demanded of the fields: a negative extent is accepted
/// structurally and describes a degenerate rectangle that contains nothing.
#[derive(Clone, Copy, PartialEq, Eq, Structural, Debug)]
pub struct Rect {
    pub x: i32,
    pub y: i32,
    pub width: i32,
    pub height: i32,
}

/// The point-in-rectangle predicate: the point lies within the closed bounds
/// `[x, x + width]` and `[y, y + height]` on both axes.
pub open spec fn rect_contains(r: Rect, p: (i64, i64)) -> bool {
    &&& r.x <= p.0 <= r.x + r.width
    &&& r.y <= p.1 <= r.y + r.height
}

/// The finite sample of points a rectangle contributes to the collision
/// heuristic: its four corners.
pub open spec fn rect_sample_points(r: Rect) -> Seq<(i64, i64)> {
    seq![
        (r.x as i64, r.y as i64),
        ((r.x + r.width) as i64, r.y as i64),
        (r.x as i64, (r.y + r.height) as i64),
        ((r.x + r.width) as i64, (r.y + r.height) as i64),
    ]
}

/// What parsing the data fields of a rectangle yields: exactly four
/// space-separated integer fields, read as `x y width height`.
pub open spec fn spec_parse_rect(s: Seq<char>) -> Result<Rect, ParseError> {
    let fields = split_on(s, ' ');
    if fields.len() != 4 {
        Result::Err(ParseError::WrongFieldCount)
    } else if !(is_i32_text(fields[0]) && is_i32_text(fields[1]) && is_i32_text(fields[2])
        && is_i32_text(fields[3])) {
        Result::Err(ParseError::InvalidNumber)
    } else {
        Result::Ok(
            Rect {
                x: text_value(fields[0]) as i32,
                y: text_value(fields[1]) as i32,
                width: text_value(fields[2]) as i32,
                height: text_value(fields[3]) as i32,
            },
        )
    }
}

/// The text of a rectangle's fields: `x y width height`, space separated.
pub open spec fn rect_fields_text(r: Rect) -> Seq<char> {
    int_text(r.x as int) + seq![' '] + int_text(r.y as int) + seq![' '] + int_text(r.width as int)
        + seq![' '] + int_text(r.height as int)
}

/// Parses the characters `s[a..b]` as the data fields of a rectangle.
pub fn parse_rect_range(s: &str, a: usize, b: usize) -> (r: Result<Rect, ParseError>)
    requires
        a <= b <= s@.len(),
    ensures
        r == spec_parse_rect(s@.subrange(a as int, b as int)),
{
    let ranges = split_field_ranges(s, a, b);
    let ghost fields = split_on(s@.subrange(a as int, b as int), ' ');
    if ranges.len() != 4 {
        return Result::Err(ParseError::WrongFieldCount);
    }
    let x = parse_i32_range(s, ranges[0].0, ranges[0].1);
    let y = parse_i32_range(s, ranges[1].0, ranges[1].1);
    let width = parse_i32_range(s, ranges[2].0, ranges[2].1);
    let height = parse_i32_range(s, ranges[3].0, ranges[3].1);
    proof {
        assert(fields[0] == s@.subrange(ranges@[0].0 as int, ranges@[0].1 as int));
        assert(fields[1] == s@.subrange(ranges@[1].0 as int, ranges@[1].1 as int));
        assert(fields[2] == s@.subrange(ranges@[2].0 as int, ranges@[2].1 as int));
        assert(fields[3] == s@.subrange(ranges@[3].0 as int, ranges@[3].1 as int));
    }
    match (x, y, width, height) {
        (Option::Some(x), Option::Some(y), Option::Some(width), Option::Some(height)) => {
            Result::Ok(Rect { x, y, width, height })
        },
        _ => Result::Err(ParseError::InvalidNumber),
    }
}

/// Parsing the field text of any rectangle gives that rectangle back.
pub proof fn lemma_rect_fields_round_trip(r: Rect)
    ensures
        spec_parse_rect(rect_fields_text(r)) == Result::<Rect, ParseError>::Ok(r),
{
    lemma_int_text_i32(r.x as int);
    lemma_int_text_i32(r.y as int);
    lemma_int_text_i32(r.width as int);
    lemma_int_text_i32(r.height as int);
    let tx = int_text(r.x as int);
    let ty = int_text(r.y as int);
    let tw = int_text(r.width as int);
    let th = int_text(r.height as int);
    assert(rect_fields_text(r) =~= tx + seq![' '] + (ty + seq![' '] + (tw + seq![' '] + th)));
    lemma_split_first_piece(tx, ty + seq![' '] + (tw + seq![' '] + th), ' ');
    lemma_split_first_piece(ty, tw + seq![' '] + th, ' ');
    lemma_split_first_piece(tw, th, ' ');
    lemma_split_whole_piece(th, ' ');
    assert(split_on(rect_fields_text(r), ' ') =~~= seq![tx, ty, tw, th]);
}

impl Rect {
    /// Parses `s` as the data fields of a rectangle: exactly four
    /// space-separated integers, `x y width height`.
    pub fn from_str(s: &str) -> (r: Result<Rect, ParseError>)
        ensures
            r == spec_parse_rect(s@),
    {
        let n = s.unicode_len();
        let r = parse_rect_range(s, 0, n);
        proof {
            assert(s@.subrange(0, n as int) =~= s@);
        }
        r
    }

    /// Renders the rectangle's fields as `x y width height`, the inverse of
    /// [`Rect::from_str`].
    pub fn display(&self) -> (r: String)
        ensures
            r@ == rect_fields_text(*self),
    {
        let mut out = String::new();
        push_int_text(&mut out, self.x);
        out.append(" ");
        push_int_text(&mut out, self.y);
        out.append(" ");
        push_int_text(&mut out, self.width);
        out.append(" ");
        push_int_text(&mut out, self.height);
        proof {
            reveal_strlit(" ");
            assert(" "@ =~= seq![' ']);
            assert(out@ =~= rect_fields_text(*self));
        }
        out
    }

    /// Whether the point lies within the rectangle's closed bounds on both
    /// axes.
    pub fn contains_point(&self, point: (i64, i64)) -> (r: bool)
        ensures
            r == rect_contains(*self, point),
    {
        let x = self.x as i64;
        let y = self.y as i64;
        x <= point.0 && point.0 <= x + self.width as i64 && y <= point.1 && point.1 <= y
            + self.height as i64
    }

    /// The sample points of the rectangle: its four corners.
    pub fn points(&self) -> (r: Vec<(i64, i64)>)
        ensures
            r@ == rect_sample_points(*self),
    {
        let x = self.x as i64;
        let y = self.y as i64;
        let xw = x + self.width as i64;
        let yh = y + self.height as i64;
        let v: Vec<(i64, i64)> = vec![(x, y), (xw, y), (x, yh), (xw, yh)];
        proof {
            assert(v@ =~= rect_sample_points(*self));
        }
        v
    }

    /// The exact area of the rectangle, `width * height`.
    pub fn area(&self) -> (a: i64)
        ensures
            a == self.width * self.height,
    {
        proof {
            assert(-0x4000_0000_0000_0000 <= self.width * self.height
                <= 0x4000_0000_0000_0000) by (nonlinear_arith)
                requires
                    -0x8000_0000 <= self.width <= 0x7fff_ffff,
                    -0x8000_0000 <= self.height <= 0x7fff_ffff,
            ;
        }
        self.width as i64 * self.height as i64
    }
}

} // verus!
