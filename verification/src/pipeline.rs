use vstd::prelude::*;

use crate::shape::{Shape, spec_collide, spec_display, spec_parse_shape};
use vstd::string::StringExecFns;

verus! {

/// The shapes a list of lines describes: each line that parses contributes
/// its shape, in order; lines that fail to parse are dropped silently.
pub open spec fn parsed_shapes(lines: Seq<Seq<char>>) -> Seq<Shape>
    decreases lines.len(),
{
    if lines.len() == 0 {
        Seq::empty()
    } else {
        parsed_shapes(lines.drop_last()) + match spec_parse_shape(lines.last()) {
            Result::Ok(sh) => seq![sh],
            Result::Err(_) => Seq::<Shape>::empty(),
        }
    }
}

/// The colliding adjacent pairs of a shape list: for each position `i` from
/// `1` on where `shapes[i]` collides with `shapes[i - 1]`, the pair
/// `(shapes[i], shapes[i - 1])`, in order.
pub open spec fn collision_pairs(shapes: Seq<Shape>) -> Seq<(Shape, Shape)>
    decreases shapes.len(),
{
    if shapes.len() < 2 {
        Seq::empty()
    } else {
        collision_pairs(shapes.drop_last()) + if spec_collide(
            shapes.last(),
            shapes[shapes.len() - 2],
        ) {
            seq![(shapes.last(), shapes[shapes.len() - 2])]
        } else {
            Seq::<(Shape, Shape)>::empty()
        }
    }
}

/// The report line for a colliding pair.
pub open spec fn report_line(a: Shape, b: Shape) -> Seq<char> {
    spec_display(a) + " collides with "@ + spec_display(b)
}

/// The full report a list of lines produces: one line per colliding adjacent
/// pair of the parsed-and-filtered shapes.
pub open spec fn spec_report(lines: Seq<Seq<char>>) -> Seq<Seq<char>> {
    collision_pairs(parsed_shapes(lines)).map_values(|p: (Shape, Shape)| report_line(p.0, p.1))
}

/// A line that fails to parse is excluded before pairing: inserting it
/// anywhere in the list leaves the parsed shape sequence — and with it the
/// report — exactly as it was.
pub proof fn lemma_bad_line_excluded(lines: Seq<Seq<char>>, i: int, bad: Seq<char>)
    requires
        0 <= i <= lines.len(),
        spec_parse_shape(bad) is Err,
    ensures
        parsed_shapes(lines.insert(i, bad)) == parsed_shapes(lines),
    decreases lines.len(),
{
    let grown = lines.insert(i, bad);
    if i == lines.len() {
        assert(grown.drop_last() =~~= lines);
        assert(grown.last() == bad);
    } else {
        assert(grown.last() == lines.last());
        assert(grown.drop_last() =~~= lines.drop_last().insert(i, bad));
        lemma_bad_line_excluded(lines.drop_last(), i, bad);
    }
}

/// Parses each line, keeping the shapes of the lines that parse, in order.
pub fn parse_lines(lines: &Vec<String>) -> (r: Vec<Shape>)
    ensures
        r@ == parsed_shapes(lines@.map_values(|l: String| l@)),
{
    let ghost to_chars = |l: String| l@;
    let mut r: Vec<Shape> = Vec::new();
    let mut i: usize = 0;
    proof {
        assert(lines@.subrange(0, 0).map_values(to_chars) =~~= Seq::<Seq<char>>::empty());
    }
    while i < lines.len()
        invariant
            0 <= i <= lines@.len(),
            to_chars == (|l: String| l@),
            r@ == parsed_shapes(lines@.subrange(0, i as int).map_values(to_chars)),
        decreases lines@.len() - i,
    {
        proof {
            let pre = lines@.subrange(0, i as int).map_values(to_chars);
            let ext = lines@.subrange(0, i + 1).map_values(to_chars);
            assert(ext.drop_last() =~~= pre);
            assert(ext.last() == lines@[i as int]@);
        }
        match Shape::from_str(lines[i].as_str()) {
            Result::Ok(sh) => {
                r.push(sh);
            },
            Result::Err(_) => {},
        }
        i += 1;
    }
    proof {
        assert(lines@.subrange(0, lines@.len() as int) =~= lines@);
    }
    r
}

/// Scans the list and returns each adjacent pair that collides, each pair as
/// (the later shape, the earlier shape).
pub fn adjacent_collisions(shapes: &Vec<Shape>) -> (r: Vec<(Shape, Shape)>)
    ensures
        r@ == collision_pairs(shapes@),
{
    let mut r: Vec<(Shape, Shape)> = Vec::new();
    if shapes.len() < 2 {
        return r;
    }
    let mut i: usize = 1;
    proof {
        assert(r@ =~= collision_pairs(shapes@.subrange(0, 1)));
    }
    while i < shapes.len()
        invariant
            1 <= i <= shapes@.len(),
            r@ == collision_pairs(shapes@.subrange(0, i as int)),
        decreases shapes@.len() - i,
    {
        proof {
            let pre = shapes@.subrange(0, i as int);
            let ext = shapes@.subrange(0, i + 1);
            assert(ext.drop_last() =~= pre);
            assert(ext.last() == shapes@[i as int]);
            assert(ext[ext.len() - 2] == shapes@[i - 1]);
        }
        let a = shapes[i];
        let b = shapes[i - 1];
        if a.collide(&b) {
            r.push((a, b));
        }
        i += 1;
    }
    proof {
        assert(shapes@.subrange(0, shapes@.len() as int) =~= shapes@);
    }
    r
}

/// Renders the report line for a colliding pair.
pub fn format_collision(a: &Shape, b: &Shape) -> (r: String)
    ensures
        r@ == report_line(*a, *b),
{
    let mut out = a.display();
    out.append(" collides with ");
    let second = b.display();
    out.append(second.as_str());
    out
}

/// The whole pipeline: parses the lines, drops the ones that fail, scans the
/// shapes pairwise, and renders one report line per colliding adjacent pair.
pub fn collision_report(lines: &Vec<String>) -> (r: Vec<String>)
    ensures
        r@.map_values(|s: String| s@) == spec_report(lines@.map_values(|l: String| l@)),
{
    let ghost to_chars = |s: String| s@;
    let ghost to_line = |p: (Shape, Shape)| report_line(p.0, p.1);
    let shapes = parse_lines(lines);
    let pairs = adjacent_collisions(&shapes);
    let mut r: Vec<String> = Vec::new();
    let mut i: usize = 0;
    proof {
        assert(r@.map_values(to_chars) =~~= pairs@.subrange(0, 0).map_values(to_line));
    }
    while i < pairs.len()
        invariant
            0 <= i <= pairs@.len(),
            to_chars == (|s: String| s@),
            to_line == (|p: (Shape, Shape)| report_line(p.0, p.1)),
            pairs@ == collision_pairs(parsed_shapes(lines@.map_values(|l: String| l@))),
            r@.map_values(to_chars) == pairs@.subrange(0, i as int).map_values(to_line),
        decreases pairs@.len() - i,
    {
        let pair = pairs[i];
        let line = format_collision(&pair.0, &pair.1);
        proof {
            assert(r@.push(line).map_values(to_chars) =~~= r@.map_values(to_chars) + seq![line@]);
            assert(pairs@.subrange(0, i + 1).map_values(to_line) =~~= pairs@.subrange(
                0,
                i as int,
            ).map_values(to_line) + seq![to_line(pairs@[i as int])]);
        }
        r.push(line);
        i += 1;
    }
    proof {
        assert(pairs@.subrange(0, pairs@.len() as int) =~= pairs@);
    }
    r
}

} // verus!
