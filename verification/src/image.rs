//! Plain-text bitmap decoding.
//!
//! The font atlas ships as a plain-text image: a magic tag line, a
//! dimension line, and sample lines, with comment lines (first non-blank
//! byte `#`) allowed anywhere after the tag. Two sub-formats exist: 1-bit
//! (tag `P1`, samples `0` or `1`, where `0` decodes to the opaque byte 255
//! and `1` to 0) and 8-bit grayscale (tag `P2`, a maximum-value line that
//! is read and discarded, then one decimal sample 0..=255 per line). The
//! decoded rows are flipped vertically, so row 0 of the output is the
//! bottom row of the source image, matching the bottom-left origin of the
//! texture it becomes.

use vstd::prelude::*;

verus! {

/// Line separator.
pub open spec fn is_line_break(b: u8) -> bool {
    b == 10
}

/// Blank bytes inside a line: space, tab, carriage return.
pub open spec fn is_blank(b: u8) -> bool {
    b == 32 || b == 9 || b == 13
}

/// Decimal digit.
pub open spec fn is_ascii_digit(b: u8) -> bool {
    48 <= b <= 57
}

/// Index of the first line break in `d`, or `d.len()` if there is none.
pub open spec fn newline_pos(d: Seq<u8>) -> int
    decreases d.len(),
{
    if d.len() == 0 {
        0
    } else if is_line_break(d[0]) {
        0
    } else {
        1 + newline_pos(d.skip(1))
    }
}

/// What [`newline_pos`] finds: the first line break, within bounds.
proof fn lemma_newline_pos(d: Seq<u8>)
    ensures
        0 <= newline_pos(d) <= d.len(),
        newline_pos(d) < d.len() ==> is_line_break(d[newline_pos(d)]),
        forall|i: int| 0 <= i < newline_pos(d) ==> !is_line_break(d[i]),
    decreases d.len(),
{
    if d.len() == 0 || is_line_break(d[0]) {
    } else {
        lemma_newline_pos(d.skip(1));
        assert forall|i: int| 0 <= i < newline_pos(d) implies !is_line_break(d[i]) by {
            if i >= 1 {
                assert(d[i] == d.skip(1)[i - 1]);
            }
        }
    }
}

/// A scan that saw no line break before `m`, and one at `m` unless `m` is
/// the end, found [`newline_pos`].
proof fn lemma_newline_pos_of_scan(d: Seq<u8>, m: int)
    requires
        0 <= m <= d.len(),
        forall|i: int| 0 <= i < m ==> !is_line_break(d[i]),
        m < d.len() ==> is_line_break(d[m]),
    ensures
        newline_pos(d) == m,
    decreases d.len(),
{
    if d.len() == 0 {
    } else if is_line_break(d[0]) {
        assert(m == 0);
    } else {
        assert(m >= 1);
        assert forall|i: int| 0 <= i < m - 1 implies !is_line_break(d.skip(1)[i]) by {
            assert(d.skip(1)[i] == d[i + 1]);
        }
        assert(m - 1 < d.skip(1).len() ==> is_line_break(d.skip(1)[m - 1]));
        lemma_newline_pos_of_scan(d.skip(1), m - 1);
    }
}

/// The lines of `d`, split on line breaks. A final line break closes the
/// last line without opening an empty one, as text files usually end.
pub open spec fn split_lines(d: Seq<u8>) -> Seq<Seq<u8>>
    decreases d.len(),
    via split_lines_decreases
{
    if d.len() == 0 {
        Seq::empty()
    } else {
        let n = newline_pos(d);
        if n == d.len() {
            seq![d]
        } else {
            seq![d.take(n)] + split_lines(d.skip(n + 1))
        }
    }
}

#[via_fn]
proof fn split_lines_decreases(d: Seq<u8>) {
    lemma_newline_pos(d);
}

/// Index of the first blank in `l`, or `l.len()` if there is none.
pub open spec fn blank_pos(l: Seq<u8>) -> int
    decreases l.len(),
{
    if l.len() == 0 {
        0
    } else if is_blank(l[0]) {
        0
    } else {
        1 + blank_pos(l.skip(1))
    }
}

/// What [`blank_pos`] finds: the first blank, within bounds.
proof fn lemma_blank_pos(l: Seq<u8>)
    ensures
        0 <= blank_pos(l) <= l.len(),
        blank_pos(l) < l.len() ==> is_blank(l[blank_pos(l)]),
        forall|i: int| 0 <= i < blank_pos(l) ==> !is_blank(l[i]),
    decreases l.len(),
{
    if l.len() == 0 || is_blank(l[0]) {
    } else {
        lemma_blank_pos(l.skip(1));
        assert forall|i: int| 0 <= i < blank_pos(l) implies !is_blank(l[i]) by {
            if i >= 1 {
                assert(l[i] == l.skip(1)[i - 1]);
            }
        }
    }
}

/// A scan that saw no blank before `m`, and one at `m` unless `m` is the
/// end, found [`blank_pos`].
proof fn lemma_blank_pos_of_scan(l: Seq<u8>, m: int)
    requires
        0 <= m <= l.len(),
        forall|i: int| 0 <= i < m ==> !is_blank(l[i]),
        m < l.len() ==> is_blank(l[m]),
    ensures
        blank_pos(l) == m,
    decreases l.len(),
{
    if l.len() == 0 {
    } else if is_blank(l[0]) {
        assert(m == 0);
    } else {
        assert(m >= 1);
        assert forall|i: int| 0 <= i < m - 1 implies !is_blank(l.skip(1)[i]) by {
            assert(l.skip(1)[i] == l[i + 1]);
        }
        assert(m - 1 < l.skip(1).len() ==> is_blank(l.skip(1)[m - 1]));
        lemma_blank_pos_of_scan(l.skip(1), m - 1);
    }
}

/// The blank-separated tokens of one line, in order, each nonempty.
pub open spec fn split_tokens(l: Seq<u8>) -> Seq<Seq<u8>>
    decreases l.len(),
    via split_tokens_decreases
{
    if l.len() == 0 {
        Seq::empty()
    } else if is_blank(l[0]) {
        split_tokens(l.skip(1))
    } else {
        seq![l.take(blank_pos(l))] + split_tokens(l.skip(blank_pos(l)))
    }
}

#[via_fn]
proof fn split_tokens_decreases(l: Seq<u8>) {
    lemma_blank_pos(l);
    if l.len() > 0 && !is_blank(l[0]) {
        assert(blank_pos(l) >= 1);
    }
}

/// `l` without its leading blanks.
pub open spec fn skip_blanks(l: Seq<u8>) -> Seq<u8>
    decreases l.len(),
{
    if l.len() > 0 && is_blank(l[0]) {
        skip_blanks(l.skip(1))
    } else {
        l
    }
}

/// A comment line: its first non-blank byte is `#`.
pub open spec fn is_comment(l: Seq<u8>) -> bool {
    skip_blanks(l).len() > 0 && skip_blanks(l)[0] == 35
}

/// `ls` with its comment lines removed.
pub open spec fn strip_comments(ls: Seq<Seq<u8>>) -> Seq<Seq<u8>>
    decreases ls.len(),
{
    if ls.len() == 0 {
        Seq::empty()
    } else if is_comment(ls[0]) {
        strip_comments(ls.skip(1))
    } else {
        seq![ls[0]] + strip_comments(ls.skip(1))
    }
}

/// Splits `d` into its lines; see [`split_lines`].
fn split_lines_vec(d: &[u8]) -> (r: Vec<Vec<u8>>)
    ensures
        r.deep_view() == split_lines(d@),
{
    let mut r: Vec<Vec<u8>> = Vec::new();
    let mut i: usize = 0;
    proof {
        assert(d@.skip(0) =~= d@);
        assert(r.deep_view() + split_lines(d@.skip(0)) =~= split_lines(d@));
    }
    while i < d.len()
        invariant
            i <= d@.len(),
            split_lines(d@) == r.deep_view() + split_lines(d@.skip(i as int)),
        decreases d@.len() - i,
    {
        let mut j: usize = i;
        while j < d.len() && d[j] != 10
            invariant
                i <= j <= d@.len(),
                forall|t: int| i <= t < j ==> !is_line_break(#[trigger] d@[t]),
            decreases d@.len() - j,
        {
            j = j + 1;
        }
        let line: Vec<u8> = vstd::slice::slice_to_vec(vstd::slice::slice_subrange(d, i, j));
        let ghost prev = r.deep_view();
        let ghost tail = d@.skip(i as int);
        r.push(line);
        proof {
            assert forall|t: int| 0 <= t < j - i implies !is_line_break(#[trigger] tail[t]) by {
                assert(tail[t] == d@[i + t]);
            }
            if j < d@.len() {
                assert(tail[j - i] == d@[j as int]);
            }
            lemma_newline_pos_of_scan(tail, j - i);
            assert(r.deep_view() =~~= prev.push(line@));
            assert(tail.take(j - i) =~= line@);
        }
        if j < d.len() {
            proof {
                assert(tail.skip(j - i + 1) =~= d@.skip(j + 1));
                assert(split_lines(tail) == seq![tail.take(j - i)] + split_lines(d@.skip(j + 1)));
                assert(r.deep_view() + split_lines(d@.skip(j + 1)) =~= prev + split_lines(tail));
            }
            i = j + 1;
        } else {
            proof {
                assert(tail =~= line@);
                assert(split_lines(tail) == seq![tail]);
                assert(split_lines(d@.skip(j as int)) =~= Seq::<Seq<u8>>::empty());
                assert(r.deep_view() + split_lines(d@.skip(j as int)) =~= prev + split_lines(tail));
            }
            i = j;
        }
    }
    proof {
        assert(split_lines(d@.skip(i as int)) =~= Seq::<Seq<u8>>::empty());
        assert(r.deep_view() + Seq::<Seq<u8>>::empty() =~= r.deep_view());
    }
    r
}

/// Splits one line into its tokens; see [`split_tokens`].
fn split_tokens_vec(l: &[u8]) -> (r: Vec<Vec<u8>>)
    ensures
        r.deep_view() == split_tokens(l@),
{
    let mut r: Vec<Vec<u8>> = Vec::new();
    let mut i: usize = 0;
    proof {
        assert(l@.skip(0) =~= l@);
        assert(r.deep_view() + split_tokens(l@.skip(0)) =~= split_tokens(l@));
    }
    while i < l.len()
        invariant
            i <= l@.len(),
            split_tokens(l@) == r.deep_view() + split_tokens(l@.skip(i as int)),
        decreases l@.len() - i,
    {
        if is_blank_exec(l[i]) {
            proof {
                assert(l@.skip(i as int).skip(1) =~= l@.skip(i + 1));
            }
            i = i + 1;
        } else {
            let mut j: usize = i;
            while j < l.len() && !is_blank_exec(l[j])
                invariant
                    i <= j <= l@.len(),
                    forall|t: int| i <= t < j ==> !is_blank(#[trigger] l@[t]),
                decreases l@.len() - j,
            {
                j = j + 1;
            }
            let token: Vec<u8> = vstd::slice::slice_to_vec(vstd::slice::slice_subrange(l, i, j));
            let ghost prev = r.deep_view();
            let ghost tail = l@.skip(i as int);
            r.push(token);
            proof {
                assert forall|t: int| 0 <= t < j - i implies !is_blank(#[trigger] tail[t]) by {
                    assert(tail[t] == l@[i + t]);
                }
                if j < l@.len() {
                    assert(tail[j - i] == l@[j as int]);
                }
                lemma_blank_pos_of_scan(tail, j - i);
                assert(r.deep_view() =~~= prev.push(token@));
                assert(tail.take(j - i) =~= token@);
                assert(tail.skip(j - i) =~= l@.skip(j as int));
                assert(split_tokens(tail) == seq![tail.take(j - i)] + split_tokens(
                    l@.skip(j as int),
                ));
                assert(r.deep_view() + split_tokens(l@.skip(j as int)) =~= prev + split_tokens(
                    tail,
                ));
            }
            i = j;
        }
    }
    proof {
        assert(split_tokens(l@.skip(i as int)) =~= Seq::<Seq<u8>>::empty());
        assert(r.deep_view() + Seq::<Seq<u8>>::empty() =~= r.deep_view());
    }
    r
}

/// Whether `b` is a blank byte; see [`is_blank`].
fn is_blank_exec(b: u8) -> (r: bool)
    ensures
        r == is_blank(b),
{
    b == 32 || b == 9 || b == 13
}

/// Whether `l` is a comment line; see [`is_comment`].
fn is_comment_vec(l: &Vec<u8>) -> (r: bool)
    ensures
        r == is_comment(l@),
{
    let mut i: usize = 0;
    proof {
        assert(l@.skip(0) =~= l@);
    }
    while i < l.len() && is_blank_exec(l[i])
        invariant
            i <= l@.len(),
            skip_blanks(l@) == skip_blanks(l@.skip(i as int)),
        decreases l@.len() - i,
    {
        proof {
            assert(l@.skip(i as int).skip(1) =~= l@.skip(i + 1));
        }
        i = i + 1;
    }
    proof {
        assert(skip_blanks(l@) == l@.skip(i as int));
    }
    if i < l.len() {
        l[i] == 35
    } else {
        false
    }
}

/// Value of a digit string read in base ten.
pub open spec fn digits_val(t: Seq<u8>) -> int
    decreases t.len(),
{
    if t.len() == 0 {
        0
    } else {
        digits_val(t.drop_last()) * 10 + (t.last() - 48)
    }
}

/// A nonempty, all-decimal token.
pub open spec fn is_digits(t: Seq<u8>) -> bool {
    t.len() > 0 && forall|i: int| 0 <= i < t.len() ==> is_ascii_digit(#[trigger] t[i])
}

/// The number a token denotes: a nonempty string of decimal digits whose
/// value fits in `u32`; anything else fails.
pub open spec fn token_u32(t: Seq<u8>) -> Option<u32> {
    if is_digits(t) && digits_val(t) <= u32::MAX {
        Some(digits_val(t) as u32)
    } else {
        None
    }
}

/// The dimension line: exactly two tokens, both positive numbers.
pub open spec fn dims_of(l: Seq<u8>) -> Option<(u32, u32)> {
    let ts = split_tokens(l);
    if ts.len() == 2 {
        match (token_u32(ts[0]), token_u32(ts[1])) {
            (Some(w), Some(h)) => if w > 0 && h > 0 {
                Some((w, h))
            } else {
                None
            },
            _ => None,
        }
    } else {
        None
    }
}

/// An 8-bit sample line: exactly one token, a number up to 255.
pub open spec fn line_u8(l: Seq<u8>) -> Option<u8> {
    let ts = split_tokens(l);
    if ts.len() == 1 {
        match token_u32(ts[0]) {
            Some(v) => if v <= 255 {
                Some(v as u8)
            } else {
                None
            },
            None => None,
        }
    } else {
        None
    }
}

/// Prepends `pre` to a sample run that may already have failed.
pub open spec fn opt_prepend(pre: Seq<u8>, o: Option<Seq<u8>>) -> Option<Seq<u8>> {
    match o {
        None => None,
        Some(s) => Some(pre + s),
    }
}

/// Concatenates two sample runs; fails if either failed.
pub open spec fn opt_concat(a: Option<Seq<u8>>, b: Option<Seq<u8>>) -> Option<Seq<u8>> {
    match (a, b) {
        (Some(x), Some(y)) => Some(x + y),
        _ => None,
    }
}

/// The byte a 1-bit sample decodes to: `0` is opaque foreground (255), `1`
/// is background (0); the inversion is part of the format.
pub open spec fn bit_byte(v: u32) -> u8 {
    if v == 0 {
        255
    } else {
        0
    }
}

/// The bytes of a run of 1-bit tokens: every token must denote 0 or 1.
pub open spec fn p1_tokens(ts: Seq<Seq<u8>>) -> Option<Seq<u8>>
    decreases ts.len(),
{
    if ts.len() == 0 {
        Some(Seq::empty())
    } else {
        match token_u32(ts[0]) {
            None => None,
            Some(v) => if v > 1 {
                None
            } else {
                opt_prepend(seq![bit_byte(v)], p1_tokens(ts.skip(1)))
            },
        }
    }
}

/// The sample bytes of the 1-bit data lines: the tokens of every line, in
/// order.
pub open spec fn p1_samples(ls: Seq<Seq<u8>>) -> Option<Seq<u8>>
    decreases ls.len(),
{
    if ls.len() == 0 {
        Some(Seq::empty())
    } else {
        opt_concat(p1_tokens(split_tokens(ls[0])), p1_samples(ls.skip(1)))
    }
}

/// The sample bytes of the 8-bit data lines: one sample per line.
pub open spec fn p2_samples(ls: Seq<Seq<u8>>) -> Option<Seq<u8>>
    decreases ls.len(),
{
    if ls.len() == 0 {
        Some(Seq::empty())
    } else {
        match line_u8(ls[0]) {
            None => None,
            Some(v) => opt_prepend(seq![v], p2_samples(ls.skip(1))),
        }
    }
}

/// Prepending nothing changes nothing.
proof fn lemma_opt_prepend_empty(o: Option<Seq<u8>>)
    ensures
        opt_prepend(Seq::empty(), o) == o,
{
    match o {
        None => {},
        Some(s) => {
            assert(Seq::empty() + s =~= s);
        },
    }
}

/// Prepending twice is prepending the concatenation.
proof fn lemma_opt_prepend_assoc(a: Seq<u8>, b: Seq<u8>, o: Option<Seq<u8>>)
    ensures
        opt_prepend(a, opt_prepend(b, o)) == opt_prepend(a + b, o),
{
    match o {
        None => {},
        Some(s) => {
            assert(a + (b + s) =~= (a + b) + s);
        },
    }
}

/// A prepend on the left argument of a concatenation hoists out.
proof fn lemma_opt_concat_prepend(x: Seq<u8>, a: Option<Seq<u8>>, b: Option<Seq<u8>>)
    ensures
        opt_concat(opt_prepend(x, a), b) == opt_prepend(x, opt_concat(a, b)),
{
    match (a, b) {
        (Some(s), Some(t)) => {
            assert((x + s) + t =~= x + (s + t));
        },
        _ => {},
    }
}

/// Parses one token as a number; see [`token_u32`].
fn parse_u32_token(t: &[u8]) -> (r: Option<u32>)
    ensures
        r == token_u32(t@),
{
    if t.len() == 0 {
        return None;
    }
    let mut acc: u64 = 0;
    let mut overflow = false;
    let mut i: usize = 0;
    proof {
        assert(t@.take(0) =~= Seq::<u8>::empty());
    }
    while i < t.len()
        invariant
            i <= t@.len(),
            forall|q: int| 0 <= q < i ==> is_ascii_digit(#[trigger] t@[q]),
            overflow == (digits_val(t@.take(i as int)) > u32::MAX),
            !overflow ==> acc == digits_val(t@.take(i as int)) && acc <= u32::MAX,
        decreases t@.len() - i,
    {
        let b = t[i];
        if b < 48 || b > 57 {
            return None;
        }
        proof {
            assert(t@.take(i + 1).drop_last() =~= t@.take(i as int));
            assert(t@.take(i + 1).last() == t@[i as int]);
        }
        if overflow {
            proof {
                let v = digits_val(t@.take(i as int));
                assert(digits_val(t@.take(i + 1)) == v * 10 + (b - 48));
            }
        } else {
            acc = acc * 10 + ((b - 48) as u64);
            if acc > 4294967295 {
                overflow = true;
            }
        }
        i = i + 1;
    }
    proof {
        assert(t@.take(t@.len() as int) =~= t@);
    }
    if overflow {
        None
    } else {
        Some(acc as u32)
    }
}

/// Parses the dimension line; see [`dims_of`].
fn parse_dims(l: &Vec<u8>) -> (r: Option<(u32, u32)>)
    ensures
        r == dims_of(l@),
{
    let ts = split_tokens_vec(l.as_slice());
    if ts.len() != 2 {
        return None;
    }
    proof {
        assert(ts.deep_view()[0] =~= ts@[0]@);
        assert(ts.deep_view()[1] =~= ts@[1]@);
    }
    let w = parse_u32_token(ts[0].as_slice());
    let h = parse_u32_token(ts[1].as_slice());
    match (w, h) {
        (Some(w), Some(h)) => if w > 0 && h > 0 {
            Some((w, h))
        } else {
            None
        },
        _ => None,
    }
}

/// Parses one 8-bit sample line; see [`line_u8`].
fn parse_sample_line(l: &Vec<u8>) -> (r: Option<u8>)
    ensures
        r == line_u8(l@),
{
    let ts = split_tokens_vec(l.as_slice());
    if ts.len() != 1 {
        return None;
    }
    proof {
        assert(ts.deep_view()[0] =~= ts@[0]@);
    }
    match parse_u32_token(ts[0].as_slice()) {
        Some(v) => if v <= 255 {
            Some(v as u8)
        } else {
            None
        },
        None => None,
    }
}

/// Whether the first line of the file is exactly the two-byte tag
/// `P<tag>`, as its own single token.
fn check_magic(lines: &Vec<Vec<u8>>, tag: u8) -> (r: bool)
    ensures
        r == (lines.deep_view().len() > 0 && split_tokens(lines.deep_view()[0]) == seq![
            seq![80u8, tag],
        ]),
{
    if lines.len() == 0 {
        return false;
    }
    let ts = split_tokens_vec(lines[0].as_slice());
    proof {
        assert(lines.deep_view()[0] =~= lines@[0]@);
    }
    let ok = ts.len() == 1 && ts[0].len() == 2 && ts[0][0] == 80 && ts[0][1] == tag;
    proof {
        let target: Seq<Seq<u8>> = seq![seq![80u8, tag]];
        let dv = ts.deep_view();
        assert(dv.len() == ts@.len());
        if ok {
            assert(dv =~~= target);
        } else if dv == target {
            assert(ts@.len() == 1);
            assert(ts@[0].deep_view() =~= ts@[0]@);
            assert(ts@[0]@ == target[0]);
            assert(ts@[0]@.len() == 2);
            assert(ts@[0]@[0] == 80 && ts@[0]@[1] == tag);
            assert(false);
        }
    }
    ok
}

/// `ls` from index `from` on, with comment lines removed; see
/// [`strip_comments`].
fn strip_comments_vec(ls: &Vec<Vec<u8>>, from: usize) -> (r: Vec<Vec<u8>>)
    requires
        from <= ls@.len(),
    ensures
        r.deep_view() == strip_comments(ls.deep_view().skip(from as int)),
{
    let mut r: Vec<Vec<u8>> = Vec::new();
    let mut i: usize = from;
    proof {
        assert(r.deep_view() + strip_comments(ls.deep_view().skip(from as int)) =~= strip_comments(
            ls.deep_view().skip(from as int),
        ));
    }
    while i < ls.len()
        invariant
            from <= i <= ls@.len(),
            ls.deep_view().len() == ls@.len(),
            strip_comments(ls.deep_view().skip(from as int)) == r.deep_view() + strip_comments(
                ls.deep_view().skip(i as int),
            ),
        decreases ls@.len() - i,
    {
        let ghost tail = ls.deep_view().skip(i as int);
        proof {
            assert(tail[0] == ls.deep_view()[i as int]);
            assert(ls.deep_view()[i as int] =~= ls@[i as int]@);
            assert(tail.skip(1) =~= ls.deep_view().skip(i + 1));
        }
        let ghost prev = r.deep_view();
        if !is_comment_vec(&ls[i]) {
            r.push(ls[i].clone());
            proof {
                assert(r.deep_view() =~~= prev.push(ls.deep_view()[i as int]));
                assert(r.deep_view() + strip_comments(ls.deep_view().skip(i + 1)) =~= prev
                    + strip_comments(tail));
            }
        }
        i = i + 1;
    }
    proof {
        assert(strip_comments(ls.deep_view().skip(i as int)) =~= Seq::<Seq<u8>>::empty());
        assert(r.deep_view() + Seq::<Seq<u8>>::empty() =~= r.deep_view());
    }
    r
}

/// The decoded pixels with their rows reversed: output row `r` is source
/// row `h - 1 - r`, so row 0 of the result is the bottom row of the image.
pub open spec fn flip_vertical(s: Seq<u8>, w: int, h: int) -> Seq<u8> {
    Seq::new((w * h) as nat, |i: int| s[(h - 1 - i / w) * w + i % w])
}

/// Row `row`, column `col` of the flipped pixels is row `h - 1 - row`,
/// column `col` of the source: the vertical flip, stated per cell. In
/// particular row 0 of the output is the last source row and row `h - 1`
/// the first.
pub proof fn lemma_flip_row_index(s: Seq<u8>, w: int, h: int, row: int, col: int)
    requires
        s.len() == w * h,
        0 <= row < h,
        0 <= col < w,
    ensures
        flip_vertical(s, w, h)[row * w + col] == s[(h - 1 - row) * w + col],
{
    vstd::arithmetic::div_mod::lemma_fundamental_div_mod_converse(row * w + col, w, row, col);
    assert(0 <= row * w + col < w * h) by (nonlinear_arith)
        requires
            0 <= row < h,
            0 <= col < w,
    ;
}

/// The decoded 8-bit grayscale image, if `d` is a well-formed `P2` file:
/// tag line, then ignoring comment lines a dimension line, a maximum-value
/// line that is discarded, and one sample per line, exactly
/// `width * height` of them, flipped vertically.
pub open spec fn pgm_spec(d: Seq<u8>) -> Option<(u32, u32, Seq<u8>)> {
    let ls = split_lines(d);
    if !(ls.len() > 0 && split_tokens(ls[0]) == seq![seq![80u8, 50u8]]) {
        None
    } else {
        let rest = strip_comments(ls.skip(1));
        if rest.len() < 2 {
            None
        } else {
            match dims_of(rest[0]) {
                None => None,
                Some((w, h)) => match p2_samples(rest.skip(2)) {
                    None => None,
                    Some(s) => if s.len() == w * h {
                        Some((w, h, flip_vertical(s, w as int, h as int)))
                    } else {
                        None
                    },
                },
            }
        }
    }
}

/// The decoded 1-bit image, if `d` is a well-formed `P1` file: tag line,
/// then ignoring comment lines a dimension line and blank-separated `0`
/// and `1` samples, exactly `width * height` of them, mapped through
/// [`bit_byte`] and flipped vertically.
pub open spec fn pbm_spec(d: Seq<u8>) -> Option<(u32, u32, Seq<u8>)> {
    let ls = split_lines(d);
    if !(ls.len() > 0 && split_tokens(ls[0]) == seq![seq![80u8, 49u8]]) {
        None
    } else {
        let rest = strip_comments(ls.skip(1));
        if rest.len() < 1 {
            None
        } else {
            match dims_of(rest[0]) {
                None => None,
                Some((w, h)) => match p1_samples(rest.skip(1)) {
                    None => None,
                    Some(s) => if s.len() == w * h {
                        Some((w, h, flip_vertical(s, w as int, h as int)))
                    } else {
                        None
                    },
                },
            }
        }
    }
}

/// What [`decode`] yields: the 1-bit reading where its tag matches, else
/// the 8-bit reading, else nothing. The tags differ, so at most one
/// sub-format accepts any given file.
pub open spec fn decode_spec(d: Seq<u8>) -> Option<(u32, u32, Seq<u8>)> {
    if pbm_spec(d) is Some {
        pbm_spec(d)
    } else {
        pgm_spec(d)
    }
}

/// The raw decode result `r` carries exactly the dimensions and bytes of
/// the specified decoding `s`.
pub open spec fn raw_matches(r: Option<(u32, u32, Vec<u8>)>, s: Option<(u32, u32, Seq<u8>)>) -> bool {
    match (r, s) {
        (Some(a), Some(b)) => a.0 == b.0 && a.1 == b.1 && a.2@ == b.2,
        (None, None) => true,
        _ => false,
    }
}

/// A decoded image: row-major single-channel pixels, row 0 at the visual
/// bottom of the source image.
#[derive(Debug)]
pub struct DecodedImage {
    pub width: u32,
    pub height: u32,
    pub pixels: Vec<u8>,
}

impl DecodedImage {
    /// The pixel buffer covers the stated dimensions exactly.
    pub open spec fn wf(&self) -> bool {
        self.pixels@.len() == self.width * self.height
    }
}

/// The image result `r` carries exactly the dimensions and bytes of the
/// specified decoding `s`.
pub open spec fn image_matches(r: Option<DecodedImage>, s: Option<(u32, u32, Seq<u8>)>) -> bool {
    match (r, s) {
        (Some(img), Some(b)) => img.width == b.0 && img.height == b.1 && img.pixels@ == b.2,
        (None, None) => true,
        _ => false,
    }
}

/// Reverses the rows of a `w x h` pixel buffer; see [`flip_vertical`].
fn flip_vertical_vec(s: &Vec<u8>, w: u32, h: u32) -> (r: Vec<u8>)
    requires
        s@.len() == w as int * h as int,
    ensures
        r@ == flip_vertical(s@, w as int, h as int),
{
    let total = s.len();
    let mut r: Vec<u8> = Vec::new();
    let mut row: u32 = 0;
    while row < h
        invariant
            row <= h,
            total == s@.len(),
            s@.len() == w as int * h as int,
            r@.len() == row as int * w as int,
            forall|i: int|
                0 <= i < r@.len() ==> r@[i] == s@[(h - 1 - i / (w as int)) * w + i % (w as int)],
        decreases h - row,
    {
        let src_row = h - 1 - row;
        let mut col: u32 = 0;
        while col < w
            invariant
                row < h,
                col <= w,
                src_row == h - 1 - row,
                total == s@.len(),
                s@.len() == w as int * h as int,
                r@.len() == row as int * w as int + col as int,
                forall|i: int|
                    0 <= i < r@.len() ==> r@[i] == s@[(h - 1 - i / (w as int)) * w + i % (
                    w as int)],
            decreases w - col,
        {
            proof {
                let sr = src_row as int;
                let ww = w as int;
                let hh = h as int;
                let rr = row as int;
                let cc = col as int;
                assert((0 <= sr * ww) && (sr * ww + cc < ww * hh) && (rr * ww + cc < ww * hh))
                    by (nonlinear_arith)
                    requires
                        sr == hh - 1 - rr,
                        0 <= rr < hh,
                        0 <= cc < ww,
                ;
            }
            let idx = (src_row as usize) * (w as usize) + (col as usize);
            let b = s[idx];
            r.push(b);
            proof {
                let pos = row as int * w as int + col as int;
                vstd::arithmetic::div_mod::lemma_fundamental_div_mod_converse(
                    pos,
                    w as int,
                    row as int,
                    col as int,
                );
                assert(r@[pos] == s@[(h - 1 - pos / (w as int)) * w + pos % (w as int)]);
            }
            col = col + 1;
        }
        proof {
            assert((row as int + 1) * (w as int) == row as int * w as int + w as int)
                by (nonlinear_arith);
        }
        row = row + 1;
    }
    proof {
        assert(row as int * w as int == w as int * h as int) by (nonlinear_arith)
            requires
                row as int == h as int,
        ;
        assert(r@ =~= flip_vertical(s@, w as int, h as int));
    }
    r
}

/// Decodes an 8-bit grayscale `P2` file; see [`pgm_spec`]. The returned
/// pixel count always equals `width * height`, and row 0 of the pixels is
/// the bottom row of the source image.
#[verifier::loop_isolation(false)]
pub fn parse_pgm(data: &[u8]) -> (r: Option<(u32, u32, Vec<u8>)>)
    ensures
        raw_matches(r, pgm_spec(data@)),
        r matches Some(t) ==> t.2@.len() == t.0 as int * t.1 as int,
{
    let lines = split_lines_vec(data);
    if !check_magic(&lines, 50) {
        return None;
    }
    let rest = strip_comments_vec(&lines, 1);
    let ghost rv = rest.deep_view();
    if rest.len() < 2 {
        return None;
    }
    proof {
        assert(rv[0] =~= rest@[0]@);
    }
    let dims = parse_dims(&rest[0]);
    if dims.is_none() {
        return None;
    }
    let (w, h) = dims.unwrap();
    let mut samples: Vec<u8> = Vec::new();
    let mut idx: usize = 2;
    proof {
        lemma_opt_prepend_empty(p2_samples(rv.skip(2)));
        assert(Seq::<u8>::empty() =~= samples@);
    }
    while idx < rest.len()
        invariant
            2 <= idx <= rest@.len(),
            rv == rest.deep_view(),
            rv.len() == rest@.len(),
            p2_samples(rv.skip(2)) == opt_prepend(samples@, p2_samples(rv.skip(idx as int))),
        decreases rest@.len() - idx,
    {
        proof {
            assert(rv.skip(idx as int)[0] == rv[idx as int]);
            assert(rv[idx as int] =~= rest@[idx as int]@);
            assert(rv.skip(idx as int).skip(1) =~= rv.skip(idx + 1));
        }
        match parse_sample_line(&rest[idx]) {
            None => {
                proof {
                    assert(p2_samples(rv.skip(idx as int)) is None);
                }
                return None;
            },
            Some(v) => {
                let ghost sprev = samples@;
                samples.push(v);
                proof {
                    assert(p2_samples(rv.skip(idx as int)) == opt_prepend(
                        seq![v],
                        p2_samples(rv.skip(idx + 1)),
                    ));
                    lemma_opt_prepend_assoc(sprev, seq![v], p2_samples(rv.skip(idx + 1)));
                    assert(samples@ =~= sprev + seq![v]);
                }
                idx = idx + 1;
            },
        }
    }
    proof {
        assert(rv.skip(idx as int) =~= Seq::<Seq<u8>>::empty());
        assert(opt_prepend(samples@, p2_samples(rv.skip(idx as int))) == Some(
            samples@ + Seq::<u8>::empty(),
        ));
        assert(samples@ + Seq::<u8>::empty() =~= samples@);
    }
    proof {
        vstd::arithmetic::mul::lemma_mul_upper_bound(w as int, 4294967295, h as int, 4294967295);
        vstd::arithmetic::mul::lemma_mul_nonnegative(w as int, h as int);
    }
    let expected = (w as u64) * (h as u64);
    if (samples.len() as u64) != expected {
        return None;
    }
    let flipped = flip_vertical_vec(&samples, w, h);
    Some((w, h, flipped))
}

/// Decodes a 1-bit `P1` file; see [`pbm_spec`]. The returned pixel count
/// always equals `width * height`, and row 0 of the pixels is the bottom
/// row of the source image.
#[verifier::loop_isolation(false)]
pub fn parse_pbm(data: &[u8]) -> (r: Option<(u32, u32, Vec<u8>)>)
    ensures
        raw_matches(r, pbm_spec(data@)),
        r matches Some(t) ==> t.2@.len() == t.0 as int * t.1 as int,
{
    let lines = split_lines_vec(data);
    if !check_magic(&lines, 49) {
        return None;
    }
    let rest = strip_comments_vec(&lines, 1);
    let ghost rv = rest.deep_view();
    if rest.len() < 1 {
        return None;
    }
    proof {
        assert(rv[0] =~= rest@[0]@);
    }
    let dims = parse_dims(&rest[0]);
    if dims.is_none() {
        return None;
    }
    let (w, h) = dims.unwrap();
    let mut samples: Vec<u8> = Vec::new();
    let mut idx: usize = 1;
    proof {
        lemma_opt_prepend_empty(p1_samples(rv.skip(1)));
        assert(Seq::<u8>::empty() =~= samples@);
    }
    while idx < rest.len()
        invariant
            1 <= idx <= rest@.len(),
            rv == rest.deep_view(),
            rv.len() == rest@.len(),
            p1_samples(rv.skip(1)) == opt_prepend(samples@, p1_samples(rv.skip(idx as int))),
        decreases rest@.len() - idx,
    {
        proof {
            assert(rv.skip(idx as int)[0] == rv[idx as int]);
            assert(rv[idx as int] =~= rest@[idx as int]@);
            assert(rv.skip(idx as int).skip(1) =~= rv.skip(idx + 1));
        }
        let ts = split_tokens_vec(rest[idx].as_slice());
        let ghost tv = ts.deep_view();
        proof {
            assert(tv.skip(0) =~= tv);
            assert(p1_samples(rv.skip(idx as int)) == opt_concat(
                p1_tokens(tv),
                p1_samples(rv.skip(idx + 1)),
            ));
        }
        let mut ti: usize = 0;
        while ti < ts.len()
            invariant
                ti <= ts@.len(),
                tv == ts.deep_view(),
                tv.len() == ts@.len(),
                rv == rest.deep_view(),
                rv.len() == rest@.len(),
                1 <= idx < rest@.len(),
                p1_samples(rv.skip(1)) == opt_prepend(
                    samples@,
                    opt_concat(p1_tokens(tv.skip(ti as int)), p1_samples(rv.skip(idx + 1))),
                ),
            decreases ts@.len() - ti,
        {
            proof {
                assert(tv.skip(ti as int)[0] == tv[ti as int]);
                assert(tv[ti as int] =~= ts@[ti as int]@);
                assert(tv.skip(ti as int).skip(1) =~= tv.skip(ti + 1));
            }
            match parse_u32_token(ts[ti].as_slice()) {
                None => {
                    proof {
                        assert(p1_tokens(tv.skip(ti as int)) is None);
                    }
                    return None;
                },
                Some(v) => {
                    if v > 1 {
                        proof {
                            assert(p1_tokens(tv.skip(ti as int)) is None);
                        }
                        return None;
                    }
                    let b: u8 = if v == 0 {
                        255
                    } else {
                        0
                    };
                    let ghost sprev = samples@;
                    samples.push(b);
                    proof {
                        assert(p1_tokens(tv.skip(ti as int)) == opt_prepend(
                            seq![bit_byte(v)],
                            p1_tokens(tv.skip(ti + 1)),
                        ));
                        lemma_opt_concat_prepend(
                            seq![bit_byte(v)],
                            p1_tokens(tv.skip(ti + 1)),
                            p1_samples(rv.skip(idx + 1)),
                        );
                        lemma_opt_prepend_assoc(
                            sprev,
                            seq![bit_byte(v)],
                            opt_concat(p1_tokens(tv.skip(ti + 1)), p1_samples(rv.skip(idx + 1))),
                        );
                        assert(samples@ =~= sprev + seq![bit_byte(v)]);
                    }
                    ti = ti + 1;
                },
            }
        }
        proof {
            assert(tv.skip(ti as int) =~= Seq::<Seq<u8>>::empty());
            assert(p1_tokens(Seq::<Seq<u8>>::empty()) == Some(Seq::<u8>::empty()));
            assert(opt_concat(Some(Seq::<u8>::empty()), p1_samples(rv.skip(idx + 1)))
                == opt_prepend(Seq::<u8>::empty(), p1_samples(rv.skip(idx + 1))));
            lemma_opt_prepend_empty(p1_samples(rv.skip(idx + 1)));
        }
        idx = idx + 1;
    }
    proof {
        assert(rv.skip(idx as int) =~= Seq::<Seq<u8>>::empty());
        assert(opt_prepend(samples@, p1_samples(rv.skip(idx as int))) == Some(
            samples@ + Seq::<u8>::empty(),
        ));
        assert(samples@ + Seq::<u8>::empty() =~= samples@);
    }
    proof {
        vstd::arithmetic::mul::lemma_mul_upper_bound(w as int, 4294967295, h as int, 4294967295);
        vstd::arithmetic::mul::lemma_mul_nonnegative(w as int, h as int);
    }
    let expected = (w as u64) * (h as u64);
    if (samples.len() as u64) != expected {
        return None;
    }
    let flipped = flip_vertical_vec(&samples, w, h);
    Some((w, h, flipped))
}

/// Decodes a plain-text bitmap in either sub-format; see [`decode_spec`].
/// The result, when there is one, always satisfies [`DecodedImage::wf`].
pub fn decode(data: &[u8]) -> (r: Option<DecodedImage>)
    ensures
        image_matches(r, decode_spec(data@)),
        r matches Some(img) ==> img.wf(),
{
    match parse_pbm(data) {
        Some((w, h, px)) => Some(DecodedImage { width: w, height: h, pixels: px }),
        None => match parse_pgm(data) {
            Some((w, h, px)) => Some(DecodedImage { width: w, height: h, pixels: px }),
            None => None,
        },
    }
}

} // verus!
