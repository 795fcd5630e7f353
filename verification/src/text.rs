use vstd::prelude::*;

verus! {

/// Why a line or a field was rejected by the shape parsers.
#[derive(Clone, Copy, PartialEq, Eq, Structural, Debug)]
pub enum ParseError {
    /// The line's leading word is not a recognized shape kind (a line
    /// without any space falls here too).
    UnknownKind,
    /// The data part does not have exactly the number of fields the shape
    /// kind asks for.
    WrongFieldCount,
    /// A field is not an integer that fits the coordinate type.
    InvalidNumber,
}

// ---------------------------------------------------------------------------
// Decimal digits and integer text
// ---------------------------------------------------------------------------

/// Whether `c` is a decimal digit.
pub open spec fn is_digit(c: char) -> bool {
    '0' <= c && c <= '9'
}

/// The numeric value of a digit character.
pub open spec fn digit_val(c: char) -> int {
    c as u32 - '0' as u32
}

/// The digit character for a value in `0..10`.
pub open spec fn digit_char(d: int) -> char {
    if d == 0 {
        '0'
    } else if d == 1 {
        '1'
    } else if d == 2 {
        '2'
    } else if d == 3 {
        '3'
    } else if d == 4 {
        '4'
    } else if d == 5 {
        '5'
    } else if d == 6 {
        '6'
    } else if d == 7 {
        '7'
    } else if d == 8 {
        '8'
    } else {
        '9'
    }
}

/// Whether every character of `s` is a decimal digit.
pub open spec fn all_digits(s: Seq<char>) -> bool {
    forall|j: int| 0 <= j < s.len() ==> is_digit(#[trigger] s[j])
}

/// The value of a digit string read as a decimal number.
pub open spec fn digits_value(s: Seq<char>) -> int
    decreases s.len(),
{
    if s.len() == 0 {
        0
    } else {
        10 * digits_value(s.drop_last()) + digit_val(s.last())
    }
}

/// The grammar of an `i32` field: an optional minus sign, then one or more
/// decimal digits, whose value fits the type.
pub open spec fn is_i32_text(s: Seq<char>) -> bool {
    if s.len() > 0 && s[0] == '-' {
        let d = s.drop_first();
        d.len() > 0 && all_digits(d) && digits_value(d) <= 0x8000_0000
    } else {
        s.len() > 0 && all_digits(s) && digits_value(s) <= 0x7fff_ffff
    }
}

/// The number an `i32` field denotes.
pub open spec fn text_value(s: Seq<char>) -> int {
    if s.len() > 0 && s[0] == '-' {
        -digits_value(s.drop_first())
    } else {
        digits_value(s)
    }
}

/// The canonical decimal text of a nonnegative number: no sign, no leading
/// zero except for `0` itself.
pub open spec fn nat_text(n: nat) -> Seq<char>
    decreases n,
{
    if n < 10 {
        seq![digit_char(n as int)]
    } else {
        nat_text(n / 10) + seq![digit_char((n % 10) as int)]
    }
}

/// The canonical decimal text of an integer: a minus sign for a negative
/// number, then the digits of its magnitude.
pub open spec fn int_text(v: int) -> Seq<char> {
    if v < 0 {
        seq!['-'] + nat_text((-v) as nat)
    } else {
        nat_text(v as nat)
    }
}

pub proof fn lemma_digits_value_nonneg(s: Seq<char>)
    requires
        all_digits(s),
    ensures
        digits_value(s) >= 0,
    decreases s.len(),
{
    if s.len() > 0 {
        assert(all_digits(s.drop_last()));
        lemma_digits_value_nonneg(s.drop_last());
        assert(is_digit(s.last()));
    }
}

/// Reading more digits can only make the denoted number larger.
pub proof fn lemma_digits_value_prefix_le(s: Seq<char>, k: int)
    requires
        all_digits(s),
        0 <= k <= s.len(),
    ensures
        digits_value(s.subrange(0, k)) <= digits_value(s),
    decreases s.len() - k,
{
    if k == s.len() {
        assert(s.subrange(0, k) =~= s);
    } else {
        let shorter = s.subrange(0, k);
        let longer = s.subrange(0, k + 1);
        assert(longer.drop_last() =~= shorter);
        assert(longer.last() == s[k]);
        assert(all_digits(shorter));
        lemma_digits_value_nonneg(shorter);
        assert(is_digit(s[k]));
        assert(digits_value(longer) == 10 * digits_value(shorter) + digit_val(s[k]));
        lemma_digits_value_prefix_le(s, k + 1);
    }
}

/// The canonical text of a number is made of digits and reads back as that
/// number.
pub proof fn lemma_nat_text(n: nat)
    ensures
        nat_text(n).len() >= 1,
        all_digits(nat_text(n)),
        digits_value(nat_text(n)) == n,
    decreases n,
{
    if n < 10 {
        let t = nat_text(n);
        assert(t.drop_last() =~= Seq::<char>::empty());
        assert(digits_value(Seq::<char>::empty()) == 0);
        assert(t.last() == digit_char(n as int));
        assert(is_digit(digit_char(n as int)));
        assert(digit_val(digit_char(n as int)) == n);
    } else {
        lemma_nat_text(n / 10);
        let head = nat_text(n / 10);
        let d = (n % 10) as int;
        let t = head + seq![digit_char(d)];
        assert(t.drop_last() =~= head);
        assert(t.last() == digit_char(d));
        assert(is_digit(digit_char(d)));
        assert(digit_val(digit_char(d)) == d);
        assert(digits_value(t) == 10 * digits_value(head) + d);
        assert(forall|j: int| 0 <= j < t.len() ==> is_digit(#[trigger] t[j])) by {
            assert(forall|j: int| 0 <= j < head.len() ==> is_digit(#[trigger] head[j]));
        }
    }
}

/// The canonical text of any `i32` value satisfies the field grammar, reads
/// back as that value, and holds no space.
pub proof fn lemma_int_text_i32(v: int)
    requires
        -0x8000_0000 <= v <= 0x7fff_ffff,
    ensures
        is_i32_text(int_text(v)),
        text_value(int_text(v)) == v,
        int_text(v).len() >= 1,
        forall|j: int| 0 <= j < int_text(v).len() ==> (#[trigger] int_text(v)[j]) != ' ',
{
    if v < 0 {
        lemma_nat_text((-v) as nat);
        let m = nat_text((-v) as nat);
        let t = int_text(v);
        assert(t == seq!['-'] + m);
        assert(t[0] == '-');
        assert(t.drop_first() =~= m);
        assert(forall|j: int| 0 <= j < t.len() ==> (#[trigger] t[j]) != ' ') by {
            assert(forall|j: int| 1 <= j < t.len() ==> t[j] == m[j - 1] && is_digit(m[j - 1]));
        }
    } else {
        lemma_nat_text(v as nat);
        let t = int_text(v);
        assert(t == nat_text(v as nat));
        assert(is_digit(t[0]));
        assert(t[0] != '-');
        assert(forall|j: int| 0 <= j < t.len() ==> is_digit(#[trigger] t[j]) && t[j] != ' ');
    }
}

// ---------------------------------------------------------------------------
// Spaces and splitting
// ---------------------------------------------------------------------------

/// The position of the first space in `s`, if any.
pub open spec fn first_space(s: Seq<char>) -> Option<int>
    decreases s.len(),
{
    if s.len() == 0 {
        Option::None
    } else if s[0] == ' ' {
        Option::Some(0int)
    } else {
        match first_space(s.drop_first()) {
            Option::None => Option::None,
            Option::Some(j) => Option::Some(j + 1),
        }
    }
}

/// `first_space` names the first space and nothing else: before it there is
/// no space, and when it is absent there is none at all.
pub proof fn lemma_first_space(s: Seq<char>)
    ensures
        match first_space(s) {
            Option::None => forall|j: int| 0 <= j < s.len() ==> (#[trigger] s[j]) != ' ',
            Option::Some(i) => 0 <= i < s.len() && s[i] == ' ' && (forall|j: int|
                0 <= j < i ==> (#[trigger] s[j]) != ' '),
        },
    decreases s.len(),
{
    if s.len() == 0 {
    } else if s[0] == ' ' {
    } else {
        lemma_first_space(s.drop_first());
        let rest = s.drop_first();
        assert(forall|j: int| 1 <= j < s.len() ==> (#[trigger] s[j]) == rest[j - 1]);
    }
}

/// `s` split on `sep`: the pieces between separators, in order. The empty
/// text yields one empty piece, as `str::split` does.
pub open spec fn split_on(s: Seq<char>, sep: char) -> Seq<Seq<char>>
    decreases s.len(),
{
    if s.len() == 0 {
        seq![Seq::<char>::empty()]
    } else if s[0] == sep {
        seq![Seq::<char>::empty()] + split_on(s.drop_first(), sep)
    } else {
        let rest = split_on(s.drop_first(), sep);
        seq![seq![s[0]] + rest[0]] + rest.skip(1)
    }
}

pub proof fn lemma_split_on_len(s: Seq<char>, sep: char)
    ensures
        split_on(s, sep).len() >= 1,
    decreases s.len(),
{
    if s.len() > 0 {
        lemma_split_on_len(s.drop_first(), sep)
    }
}

/// Splitting, unrolled at the first separator: when the first `k` characters
/// hold no separator and a separator (or the end) follows, the first piece is
/// exactly those `k` characters.
pub proof fn lemma_split_on_step(s: Seq<char>, sep: char, k: int)
    requires
        0 <= k <= s.len(),
        forall|j: int| 0 <= j < k ==> (#[trigger] s[j]) != sep,
        k == s.len() || s[k] == sep,
    ensures
        k == s.len() ==> split_on(s, sep) == seq![s],
        k < s.len() ==> split_on(s, sep) == seq![s.subrange(0, k)] + split_on(
            s.subrange(k + 1, s.len() as int),
            sep,
        ),
    decreases s.len(),
{
    if k == 0 {
        if s.len() == 0 {
            assert(split_on(s, sep) =~~= seq![s]);
        } else {
            assert(s[0] == sep);
            assert(s.subrange(0, 0) =~= Seq::<char>::empty());
            assert(s.drop_first() =~= s.subrange(1, s.len() as int));
            assert(split_on(s, sep) =~~= seq![s.subrange(0, 0)] + split_on(
                s.subrange(1, s.len() as int),
                sep,
            ));
        }
    } else {
        let tail = s.drop_first();
        assert(forall|j: int| 0 <= j < k - 1 ==> #[trigger] tail[j] == s[j + 1] && s[j + 1] != sep);
        lemma_split_on_step(tail, sep, k - 1);
        lemma_split_on_len(tail, sep);
        let rest = split_on(tail, sep);
        if k == s.len() {
            assert(rest == seq![tail]);
            assert(seq![s[0]] + rest[0] =~= s);
            assert(rest.skip(1) =~~= Seq::<Seq<char>>::empty());
            assert(split_on(s, sep) =~~= seq![s]);
        } else {
            assert(tail[k - 1] == s[k]);
            assert(rest == seq![tail.subrange(0, k - 1)] + split_on(
                tail.subrange(k, tail.len() as int),
                sep,
            ));
            assert(seq![s[0]] + rest[0] =~= s.subrange(0, k)) by {
                assert(rest[0] =~= tail.subrange(0, k - 1));
            }
            assert(tail.subrange(k, tail.len() as int) =~= s.subrange(k + 1, s.len() as int));
            assert(rest.skip(1) =~~= split_on(s.subrange(k + 1, s.len() as int), sep));
            assert(split_on(s, sep) =~~= seq![s.subrange(0, k)] + split_on(
                s.subrange(k + 1, s.len() as int),
                sep,
            ));
        }
    }
}

/// Splitting a text that starts with a separator-free piece followed by a
/// separator yields that piece, then the split of the remainder.
pub proof fn lemma_split_first_piece(p: Seq<char>, rest: Seq<char>, sep: char)
    requires
        forall|j: int| 0 <= j < p.len() ==> (#[trigger] p[j]) != sep,
    ensures
        split_on(p + seq![sep] + rest, sep) == seq![p] + split_on(rest, sep),
{
    let s = p + seq![sep] + rest;
    assert(forall|j: int| 0 <= j < p.len() ==> (#[trigger] s[j]) == p[j]);
    assert(s[p.len() as int] == sep);
    lemma_split_on_step(s, sep, p.len() as int);
    assert(s.subrange(0, p.len() as int) =~= p);
    assert(s.subrange(p.len() as int + 1, s.len() as int) =~= rest);
}

/// Splitting a separator-free text yields that one piece.
pub proof fn lemma_split_whole_piece(p: Seq<char>, sep: char)
    requires
        forall|j: int| 0 <= j < p.len() ==> (#[trigger] p[j]) != sep,
    ensures
        split_on(p, sep) == seq![p],
{
    lemma_split_on_step(p, sep, p.len() as int);
}

// ---------------------------------------------------------------------------
// Executable scanning
// ---------------------------------------------------------------------------

/// The position of the first space of `s`, scanning left to right.
pub fn find_first_space(s: &str) -> (r: Option<usize>)
    ensures
        match r {
            Option::None => first_space(s@) is None,
            Option::Some(i) => first_space(s@) == Option::Some(i as int),
        },
{
    let n = s.unicode_len();
    let mut i: usize = 0;
    while i < n
        invariant
            0 <= i <= n == s@.len(),
            forall|j: int| 0 <= j < i ==> (#[trigger] s@[j]) != ' ',
        decreases n - i,
    {
        if s.get_char(i) == ' ' {
            proof {
                lemma_first_space(s@);
            }
            return Option::Some(i);
        }
        i += 1;
    }
    proof {
        lemma_first_space(s@);
    }
    Option::None
}

/// Parses the characters `s[a..b]` as an `i32` field: an optional minus
/// sign, then decimal digits, rejected when the value does not fit.
pub fn parse_i32_range(s: &str, a: usize, b: usize) -> (r: Option<i32>)
    requires
        a <= b <= s@.len(),
    ensures
        ({
            let t = s@.subrange(a as int, b as int);
            if is_i32_text(t) {
                r == Option::Some(text_value(t) as i32)
            } else {
                r is None
            }
        }),
{
    let ghost t = s@.subrange(a as int, b as int);
    if a == b {
        return Option::None;
    }
    let neg = s.get_char(a) == '-';
    let start = if neg {
        a + 1
    } else {
        a
    };
    let ghost d = s@.subrange(start as int, b as int);
    proof {
        if neg {
            assert(t.drop_first() =~= d);
        } else {
            assert(t =~= d);
        }
    }
    if start == b {
        return Option::None;
    }
    let mut acc: i64 = 0;
    let mut i = start;
    while i < b
        invariant
            a <= start <= i <= b <= s@.len(),
            d == s@.subrange(start as int, b as int),
            t == s@.subrange(a as int, b as int),
            neg ==> t.drop_first() == d,
            !neg ==> t == d,
            neg ==> t.len() > 0 && t[0] == '-',
            !neg ==> t.len() > 0 && t[0] != '-',
            forall|j: int| start <= j < i ==> is_digit(#[trigger] s@[j]),
            acc == digits_value(s@.subrange(start as int, i as int)),
            0 <= acc <= 0x8000_0000,
        decreases b - i,
    {
        let c = s.get_char(i);
        if !(c >= '0' && c <= '9') {
            proof {
                assert(d[i - start] == c);
                assert(!all_digits(d));
            }
            return Option::None;
        }
        let dv = (c as u32 - '0' as u32) as i64;
        let acc2 = acc * 10 + dv;
        proof {
            let pre = s@.subrange(start as int, i as int);
            let ext = s@.subrange(start as int, i + 1);
            assert(ext.drop_last() =~= pre);
            assert(ext.last() == s@[i as int]);
            assert(digits_value(ext) == 10 * digits_value(pre) + digit_val(s@[i as int]));
        }
        if acc2 > 0x8000_0000 {
            proof {
                if all_digits(d) {
                    let k = i + 1 - start;
                    assert(d.subrange(0, k) =~= s@.subrange(start as int, i + 1));
                    lemma_digits_value_prefix_le(d, k);
                    assert(digits_value(d) >= acc2);
                }
                assert(!is_i32_text(t));
            }
            return Option::None;
        }
        acc = acc2;
        i += 1;
    }
    proof {
        assert(d =~= s@.subrange(start as int, i as int));
        assert(all_digits(d)) by {
            assert(forall|j: int| 0 <= j < d.len() ==> #[trigger] d[j] == s@[j + start]);
        }
        assert(acc == digits_value(d));
    }
    if neg {
        proof {
            assert(is_i32_text(t));
            assert(text_value(t) == -digits_value(d));
        }
        Option::Some((-acc) as i32)
    } else {
        if acc > 0x7fff_ffff {
            proof {
                assert(!is_i32_text(t));
            }
            Option::None
        } else {
            proof {
                assert(is_i32_text(t));
                assert(text_value(t) == digits_value(d));
            }
            Option::Some(acc as i32)
        }
    }
}

/// Splits the characters `s[a..b]` on single spaces, returning the index
/// range of each piece.
pub fn split_field_ranges(s: &str, a: usize, b: usize) -> (r: Vec<(usize, usize)>)
    requires
        a <= b <= s@.len(),
    ensures
        r@.map_values(|p: (usize, usize)| s@.subrange(p.0 as int, p.1 as int)) == split_on(
            s@.subrange(a as int, b as int),
            ' ',
        ),
        forall|j: int| 0 <= j < r@.len() ==> a <= (#[trigger] r@[j]).0 && r@[j].0 <= r@[j].1 <= b,
{
    let ghost full = s@.subrange(a as int, b as int);
    let ghost to_piece = |p: (usize, usize)| s@.subrange(p.0 as int, p.1 as int);
    let mut r: Vec<(usize, usize)> = Vec::new();
    let mut ws = a;
    let mut i = a;
    proof {
        assert(r@.map_values(to_piece) =~~= Seq::<Seq<char>>::empty());
    }
    while i < b
        invariant
            a <= ws <= i <= b <= s@.len(),
            full == s@.subrange(a as int, b as int),
            forall|j: int| ws <= j < i ==> (#[trigger] s@[j]) != ' ',
            split_on(full, ' ') == r@.map_values(to_piece) + split_on(
                s@.subrange(ws as int, b as int),
                ' ',
            ),
            to_piece == (|p: (usize, usize)| s@.subrange(p.0 as int, p.1 as int)),
            forall|j: int|
                0 <= j < r@.len() ==> a <= (#[trigger] r@[j]).0 && r@[j].0 <= r@[j].1 <= b,
        decreases b - i,
    {
        if s.get_char(i) == ' ' {
            proof {
                let rem = s@.subrange(ws as int, b as int);
                let k = i - ws;
                assert(forall|j: int| 0 <= j < k ==> (#[trigger] rem[j]) == s@[j + ws]);
                lemma_split_on_step(rem, ' ', k);
                assert(rem.subrange(0, k) =~= s@.subrange(ws as int, i as int));
                assert(rem.subrange(k + 1, rem.len() as int) =~= s@.subrange(i + 1, b as int));
                let piece = (ws, i);
                assert(r@.push(piece).map_values(to_piece) =~~= r@.map_values(to_piece) + seq![
                    s@.subrange(ws as int, i as int),
                ]);
                assert(split_on(full, ' ') =~~= r@.push(piece).map_values(to_piece) + split_on(
                    s@.subrange(i + 1, b as int),
                    ' ',
                ));
            }
            r.push((ws, i));
            ws = i + 1;
        }
        i += 1;
    }
    proof {
        let rem = s@.subrange(ws as int, b as int);
        assert(forall|j: int| 0 <= j < rem.len() ==> (#[trigger] rem[j]) == s@[j + ws]);
        lemma_split_on_step(rem, ' ', rem.len() as int);
        let piece = (ws, b);
        assert(r@.push(piece).map_values(to_piece) =~~= r@.map_values(to_piece) + seq![rem]);
        assert(split_on(full, ' ') =~~= r@.push(piece).map_values(to_piece));
    }
    r.push((ws, b));
    r
}

// ---------------------------------------------------------------------------
// Executable rendering
// ---------------------------------------------------------------------------

/// Appends the digit character for `d` to `out`.
pub fn push_digit(out: &mut String, d: u64)
    requires
        d < 10,
    ensures
        final(out)@ == old(out)@ + seq![digit_char(d as int)],
{
    if d == 0 {
        out.append("0");
        proof {
            reveal_strlit("0");
            assert("0"@ =~= seq![digit_char(0)]);
        }
    } else if d == 1 {
        out.append("1");
        proof {
            reveal_strlit("1");
            assert("1"@ =~= seq![digit_char(1)]);
        }
    } else if d == 2 {
        out.append("2");
        proof {
            reveal_strlit("2");
            assert("2"@ =~= seq![digit_char(2)]);
        }
    } else if d == 3 {
        out.append("3");
        proof {
            reveal_strlit("3");
            assert("3"@ =~= seq![digit_char(3)]);
        }
    } else if d == 4 {
        out.append("4");
        proof {
            reveal_strlit("4");
            assert("4"@ =~= seq![digit_char(4)]);
        }
    } else if d == 5 {
        out.append("5");
        proof {
            reveal_strlit("5");
            assert("5"@ =~= seq![digit_char(5)]);
        }
    } else if d == 6 {
        out.append("6");
        proof {
            reveal_strlit("6");
            assert("6"@ =~= seq![digit_char(6)]);
        }
    } else if d == 7 {
        out.append("7");
        proof {
            reveal_strlit("7");
            assert("7"@ =~= seq![digit_char(7)]);
        }
    } else if d == 8 {
        out.append("8");
        proof {
            reveal_strlit("8");
            assert("8"@ =~= seq![digit_char(8)]);
        }
    } else {
        out.append("9");
        proof {
            reveal_strlit("9");
            assert("9"@ =~= seq![digit_char(9)]);
        }
    }
}

/// Appends the canonical decimal text of `n` to `out`.
pub fn push_nat_text(out: &mut String, n: u64)
    ensures
        final(out)@ == old(out)@ + nat_text(n as nat),
    decreases n,
{
    if n < 10 {
        push_digit(out, n);
    } else {
        push_nat_text(out, n / 10);
        push_digit(out, n % 10);
        proof {
            assert(old(out)@ + nat_text((n / 10) as nat) + seq![digit_char((n % 10) as int)]
                =~= old(out)@ + nat_text(n as nat));
        }
    }
}

/// Appends the canonical decimal text of `v` to `out`.
pub fn push_int_text(out: &mut String, v: i32)
    ensures
        final(out)@ == old(out)@ + int_text(v as int),
{
    if v < 0 {
        out.append("-");
        proof {
            reveal_strlit("-");
            assert("-"@ =~= seq!['-']);
        }
        let m = (-(v as i64)) as u64;
        push_nat_text(out, m);
        proof {
            assert(old(out)@ + seq!['-'] + nat_text(m as nat) =~= old(out)@ + int_text(v as int));
        }
    } else {
        push_nat_text(out, v as u64);
    }
}

} // verus!
