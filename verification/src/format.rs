//! Human-readable rendering of a chunk for the diagnostic log: the
//! bytes between double quotes, control and non-ASCII bytes escaped,
//! cut off with an ellipsis once the rendering reaches a fixed width.

use vstd::prelude::*;

verus! {

/// Width (in rendered bytes, opening quote included) at which the
/// rendering stops taking further input bytes.
pub const MAX_WIDTH: usize = 40;

/// The lower-case hexadecimal digit for a value below 16.
pub open spec fn hex_digit_spec(n: u8) -> u8 {
    if n < 10 {
        (n + 48) as u8
    } else {
        (n + 87) as u8
    }
}

fn hex_digit(n: u8) -> (r: u8)
    requires
        n < 16,
    ensures
        r == hex_digit_spec(n),
{
    if n < 10 {
        n + 48
    } else {
        n + 87
    }
}

/// How one byte is rendered: newline, tab, carriage return and
/// backslash as two-character escapes, printable ASCII as itself, and
/// anything else as a two-digit hexadecimal escape.
pub open spec fn esc_byte(b: u8) -> Seq<u8> {
    if b == 10 {
        seq![92u8, 110u8]
    } else if b == 9 {
        seq![92u8, 116u8]
    } else if b == 13 {
        seq![92u8, 114u8]
    } else if b == 92 {
        seq![92u8, 92u8]
    } else if 32 <= b <= 127 {
        seq![b]
    } else {
        seq![92u8, 120u8, hex_digit_spec(b / 16), hex_digit_spec(b % 16)]
    }
}

fn push_escaped(res: &mut Vec<u8>, b: u8)
    ensures
        final(res)@ == old(res)@ + esc_byte(b),
{
    if b == 10 {
        res.push(92);
        res.push(110);
    } else if b == 9 {
        res.push(92);
        res.push(116);
    } else if b == 13 {
        res.push(92);
        res.push(114);
    } else if b == 92 {
        res.push(92);
        res.push(92);
    } else if 32 <= b && b <= 127 {
        res.push(b);
    } else {
        res.push(92);
        res.push(120);
        res.push(hex_digit(b / 16));
        res.push(hex_digit(b % 16));
    }
    proof {
        assert(res@ =~= old(res)@ + esc_byte(b));
    }
}

/// The rendered bytes from position `i` on, starting at an already
/// rendered width of `width`: nothing once the input is exhausted or the
/// width limit is reached, else this byte's escape and the rest.
pub open spec fn fmt_from(data: Seq<u8>, i: int, width: int) -> Seq<u8>
    decreases data.len() - i
        when 0 <= i <= data.len()
{
    if i == data.len() {
        Seq::empty()
    } else if width >= MAX_WIDTH as int {
        Seq::empty()
    } else {
        esc_byte(data[i]) + fmt_from(data, i + 1, width + esc_byte(data[i]).len())
    }
}

/// Whether the rendering from position `i` on hits the width limit with
/// input bytes still left.
pub open spec fn overflows_from(data: Seq<u8>, i: int, width: int) -> bool
    decreases data.len() - i
        when 0 <= i <= data.len()
{
    if i == data.len() {
        false
    } else if width >= MAX_WIDTH as int {
        true
    } else {
        overflows_from(data, i + 1, width + esc_byte(data[i]).len())
    }
}

/// The whole rendering: the escaped bytes between double quotes
/// (the opening quote counts toward the width), and a trailing ellipsis
/// when input bytes were cut off.
pub open spec fn format_spec(data: Seq<u8>) -> Seq<u8> {
    seq![34u8] + fmt_from(data, 0, 1) + seq![34u8] + (if overflows_from(data, 0, 1) {
        seq![46u8, 46u8, 46u8]
    } else {
        Seq::<u8>::empty()
    })
}

/// Renders a chunk for the diagnostic log.  The result is ASCII; the
/// host turns it into text verbatim.
pub fn format_data(data: &Vec<u8>) -> (r: Vec<u8>)
    ensures
        r@ == format_spec(data@),
{
    let mut res: Vec<u8> = Vec::new();
    res.push(34);
    let mut i: usize = 0;
    while i < data.len() && res.len() < MAX_WIDTH
        invariant
            0 <= i <= data@.len(),
            res@.len() >= 1,
            res@[0] == 34u8,
            fmt_from(data@, 0, 1) == res@.skip(1) + fmt_from(data@, i as int, res@.len() as int),
            overflows_from(data@, 0, 1) == overflows_from(data@, i as int, res@.len() as int),
        decreases data@.len() - i,
    {
        let ghost prev: Seq<u8> = res@;
        let b = data[i];
        push_escaped(&mut res, b);
        proof {
            assert(res@.skip(1) =~= prev.skip(1) + esc_byte(b));
        }
        i += 1;
    }
    let overflow = i < data.len();
    proof {
        assert(fmt_from(data@, i as int, res@.len() as int) =~= Seq::<u8>::empty());
        assert(fmt_from(data@, 0, 1) =~= res@.skip(1));
    }
    let ghost body: Seq<u8> = res@;
    res.push(34);
    if overflow {
        res.push(46);
        res.push(46);
        res.push(46);
    }
    proof {
        assert(body =~= seq![34u8] + body.skip(1));
        assert(res@ =~= format_spec(data@));
    }
    res
}

} // verus!
