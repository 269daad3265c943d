use vstd::prelude::*;

use crate::color::Color;

verus! {

/// The character of a single decimal digit.
pub open spec fn digit_char(d: int) -> char {
    if d == 0 {
        '0'
    } else if d == 1 {
        '1'
    } else if d == 2 {
        '2'
    } else if d == 3 {
        '3'
    } else if d == 4 {
        '4'
    } else if d == 5 {
        '5'
    } else if d == 6 {
        '6'
    } else if d == 7 {
        '7'
    } else if d == 8 {
        '8'
    } else {
        '9'
    }
}

/// The decimal text of `n`, most significant digit first, no sign and no
/// leading zeros (a plain `0` for zero).
pub open spec fn dec_rep(n: nat) -> Seq<char>
    decreases n,
{
    if n < 10 {
        seq![digit_char(n as int)]
    } else {
        dec_rep(n / 10) + seq![digit_char((n % 10) as int)]
    }
}

/// The serialized text of one pixel: three space-terminated channel values.
pub open spec fn color_text(c: Color) -> Seq<char> {
    dec_rep(c.red as nat) + seq![' '] + dec_rep(c.green as nat) + seq![' '] + dec_rep(
        c.blue as nat,
    ) + seq![' ']
}

/// The serialized text of a pixel sequence, in storage order.
pub open spec fn raster_text(s: Seq<Color>) -> Seq<char>
    decreases s.len(),
{
    if s.len() == 0 {
        Seq::empty()
    } else {
        raster_text(s.drop_last()) + color_text(s.last())
    }
}

/// The plain pixel-triple header: the format name, the declared width and
/// height, and the maximum channel value 255.
pub open spec fn ppm_header(w: nat, h: nat) -> Seq<char> {
    seq!['P', '3', '\n'] + dec_rep(w) + seq![' '] + dec_rep(h) + seq!['\n'] + dec_rep(255) + seq![
        '\n',
    ]
}

/// The full serialized image: header, then every pixel's channels in
/// row-major storage order, top row first.
pub open spec fn ppm_text(w: nat, h: nat, s: Seq<Color>) -> Seq<char> {
    ppm_header(w, h) + raster_text(s)
}

/// How many times `ch` occurs in `s`.
pub open spec fn count_char(s: Seq<char>, ch: char) -> int
    decreases s.len(),
{
    if s.len() == 0 {
        0
    } else {
        count_char(s.drop_last(), ch) + (if s.last() == ch {
            1int
        } else {
            0int
        })
    }
}

/// Occurrences add up over concatenation.
proof fn lemma_count_char_concat(a: Seq<char>, b: Seq<char>, ch: char)
    ensures
        count_char(a + b, ch) == count_char(a, ch) + count_char(b, ch),
    decreases b.len(),
{
    if b.len() == 0 {
        assert(a + b =~= a);
    } else {
        lemma_count_char_concat(a, b.drop_last(), ch);
        assert((a + b).drop_last() =~= a + b.drop_last());
        assert((a + b).last() == b.last());
    }
}

/// Decimal text never contains a space.
proof fn lemma_dec_rep_no_space(n: nat)
    ensures
        count_char(dec_rep(n), ' ') == 0,
    decreases n,
{
    if n < 10 {
        assert(count_char(dec_rep(n), ' ') == 0) by {
            assert(count_char(Seq::<char>::empty(), ' ') == 0);
            assert(dec_rep(n).drop_last() =~= Seq::<char>::empty());
            assert(dec_rep(n).last() == digit_char(n as int));
        }
    } else {
        lemma_dec_rep_no_space(n / 10);
        lemma_dec_rep_no_space(n % 10);
        lemma_count_char_concat(dec_rep(n / 10), seq![digit_char((n % 10) as int)], ' ');
        assert(count_char(seq![digit_char((n % 10) as int)], ' ') == 0) by {
            assert(count_char(Seq::<char>::empty(), ' ') == 0);
            assert(seq![digit_char((n % 10) as int)].drop_last() =~= Seq::<char>::empty());
        }
    }
}

/// One pixel's text holds exactly three spaces: one after each channel.
proof fn lemma_color_text_spaces(c: Color)
    ensures
        count_char(color_text(c), ' ') == 3,
{
    let sp = seq![' '];
    assert(count_char(sp, ' ') == 1) by {
        assert(count_char(Seq::<char>::empty(), ' ') == 0);
        assert(sp.drop_last() =~= Seq::<char>::empty());
    }
    lemma_dec_rep_no_space(c.red as nat);
    lemma_dec_rep_no_space(c.green as nat);
    lemma_dec_rep_no_space(c.blue as nat);
    lemma_count_char_concat(dec_rep(c.red as nat), sp, ' ');
    lemma_count_char_concat(dec_rep(c.red as nat) + sp, dec_rep(c.green as nat), ' ');
    lemma_count_char_concat(dec_rep(c.red as nat) + sp + dec_rep(c.green as nat), sp, ' ');
    lemma_count_char_concat(
        dec_rep(c.red as nat) + sp + dec_rep(c.green as nat) + sp,
        dec_rep(c.blue as nat),
        ' ',
    );
    lemma_count_char_concat(
        dec_rep(c.red as nat) + sp + dec_rep(c.green as nat) + sp + dec_rep(c.blue as nat),
        sp,
        ' ',
    );
}

/// Serialization shape law: the pixel text of a raster holds exactly three
/// space-terminated channel values per pixel, so a `w` by `h` buffer
/// serializes to the header declaring `w` and `h` followed by exactly
/// `w * h` color triples.
pub proof fn lemma_raster_text_triples(s: Seq<Color>)
    ensures
        count_char(raster_text(s), ' ') == 3 * s.len(),
    decreases s.len(),
{
    if s.len() > 0 {
        lemma_raster_text_triples(s.drop_last());
        lemma_color_text_spaces(s.last());
        lemma_count_char_concat(raster_text(s.drop_last()), color_text(s.last()), ' ');
    }
}

/// The digit character of a value below ten.
fn digit_str(d: u8) -> (s: &'static str)
    requires
        d < 10,
    ensures
        s@ == seq![digit_char(d as int)],
{
    proof {
        reveal_strlit("0");
        reveal_strlit("1");
        reveal_strlit("2");
        reveal_strlit("3");
        reveal_strlit("4");
        reveal_strlit("5");
        reveal_strlit("6");
        reveal_strlit("7");
        reveal_strlit("8");
        reveal_strlit("9");
    }
    let s: &'static str = match d {
        0 => "0",
        1 => "1",
        2 => "2",
        3 => "3",
        4 => "4",
        5 => "5",
        6 => "6",
        7 => "7",
        8 => "8",
        _ => "9",
    };
    proof {
        assert(s@ =~= seq![digit_char(d as int)]);
    }
    s
}

/// Appends the decimal text of `n` to `out`.
pub fn push_dec(out: &mut String, n: u64)
    ensures
        final(out)@ == old(out)@ + dec_rep(n as nat),
    decreases n,
{
    if n < 10 {
        out.append(digit_str(n as u8));
    } else {
        push_dec(out, n / 10);
        out.append(digit_str((n % 10) as u8));
        proof {
            assert(old(out)@ + dec_rep((n / 10) as nat) + seq![digit_char((n % 10) as int)]
                =~= old(out)@ + dec_rep(n as nat));
        }
    }
}

/// The decimal text of a signed value: a minus sign for negatives, then the
/// magnitude.
pub open spec fn int_text(v: int) -> Seq<char> {
    if v < 0 {
        seq!['-'] + dec_rep((-v) as nat)
    } else {
        dec_rep(v as nat)
    }
}

/// Appends the decimal text of the signed value `v` to `out`.
pub fn push_int(out: &mut String, v: i64)
    ensures
        final(out)@ == old(out)@ + int_text(v as int),
{
    proof {
        reveal_strlit("-");
    }
    if v < 0 {
        out.append("-");
        let m: u64 = (-(v as i128)) as u64;
        push_dec(out, m);
        proof {
            assert(old(out)@ + "-"@ + dec_rep(m as nat) =~= old(out)@ + int_text(v as int));
        }
    } else {
        push_dec(out, v as u64);
    }
}

/// Appends one pixel's three space-terminated channel values to `out`.
pub fn push_color(out: &mut String, c: Color)
    ensures
        final(out)@ == old(out)@ + color_text(c),
{
    proof {
        reveal_strlit(" ");
    }
    push_dec(out, c.red as u64);
    out.append(" ");
    push_dec(out, c.green as u64);
    out.append(" ");
    push_dec(out, c.blue as u64);
    out.append(" ");
    proof {
        assert(final(out)@ =~= old(out)@ + color_text(c));
    }
}

} // verus!
