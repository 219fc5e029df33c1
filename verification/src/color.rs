//! Best-effort stroke-color parser.
//!
//! A color is given as a byte string, either `#rrggbb` (exactly 7 bytes,
//! two hex digits per channel, a malformed channel falls back to 0) or
//! `rgb(r, g, b)` (three comma-separated decimal integers; a malformed
//! channel falls back to 0, a channel count other than 3 makes the whole
//! color black).  Any other input is black.  The parser never fails.
//!
//! The parser works on raw bytes, and the whitespace it strips around a
//! decimal channel is ASCII whitespace only — deliberately so.  A channel
//! padded with a non-ASCII space falls back to 0 like any other malformed
//! channel, which the never-fails policy absorbs.

use vstd::prelude::*;

use crate::bytes::{find_byte, is_ascii_ws, lemma_find_byte, find_byte_index};
use vstd::slice::slice_subrange;

verus! {

pub open spec fn is_hex_digit(b: u8) -> bool {
    (48 <= b <= 57) || (97 <= b <= 102) || (65 <= b <= 70)
}

pub open spec fn hex_digit_value(b: u8) -> int {
    if 48 <= b <= 57 {
        b - 48
    } else if 97 <= b <= 102 {
        b - 97 + 10
    } else {
        b - 65 + 10
    }
}

/// One `#rrggbb` channel: the base-16 value of two hex digits; a channel
/// that is not two hex digits defaults to 0, independently of the others.
pub open spec fn hex_channel(b0: u8, b1: u8) -> u8 {
    if is_hex_digit(b0) && is_hex_digit(b1) {
        (16 * hex_digit_value(b0) + hex_digit_value(b1)) as u8
    } else {
        0
    }
}

pub open spec fn is_digit(b: u8) -> bool {
    48 <= b <= 57
}

pub open spec fn all_digits(s: Seq<u8>) -> bool {
    forall|k: int| 0 <= k < s.len() ==> is_digit(#[trigger] s[k])
}

pub open spec fn digits_val(s: Seq<u8>) -> int
    decreases s.len(),
{
    if s.len() == 0 {
        0
    } else {
        digits_val(s.drop_last()) * 10 + (s.last() - 48)
    }
}

/// One `rgb(...)` channel: an optional leading `+`, then decimal digits
/// whose value fits in a byte; anything else is 0.  The caller strips
/// ASCII whitespace (and no other) around the channel first.
pub open spec fn dec_channel(s: Seq<u8>) -> u8 {
    let t = if s.len() >= 1 && s[0] == 43 {
        s.skip(1)
    } else {
        s
    };
    if t.len() >= 1 && all_digits(t) && digits_val(t) <= 255 {
        digits_val(t) as u8
    } else {
        0
    }
}

pub open spec fn trim_start(s: Seq<u8>) -> Seq<u8>
    decreases s.len(),
{
    if s.len() > 0 && is_ascii_ws(s[0]) {
        trim_start(s.skip(1))
    } else {
        s
    }
}

pub open spec fn trim_end(s: Seq<u8>) -> Seq<u8>
    decreases s.len(),
{
    if s.len() > 0 && is_ascii_ws(s.last()) {
        trim_end(s.drop_last())
    } else {
        s
    }
}

pub open spec fn trim(s: Seq<u8>) -> Seq<u8> {
    trim_end(trim_start(s))
}

pub open spec fn has_rgb_prefix(s: Seq<u8>) -> bool {
    s.len() >= 4 && s[0] == 114 && s[1] == 103 && s[2] == 98 && s[3] == 40
}

/// Every leading `rgb(` is removed, mirroring repeated prefix stripping.
pub open spec fn strip_rgb_prefix(s: Seq<u8>) -> Seq<u8>
    decreases s.len(),
{
    if has_rgb_prefix(s) {
        strip_rgb_prefix(s.skip(4))
    } else {
        s
    }
}

/// Every trailing `)` is removed.
pub open spec fn strip_close(s: Seq<u8>) -> Seq<u8>
    decreases s.len(),
{
    if s.len() > 0 && s.last() == 41 {
        strip_close(s.drop_last())
    } else {
        s
    }
}

/// The three channels of the comma-separated body of an `rgb(...)` color:
/// black unless there are exactly three fields.
pub open spec fn rgb_channels(t: Seq<u8>) -> (u8, u8, u8) {
    match find_byte(t, 44) {
        None => (0u8, 0u8, 0u8),
        Some(c1) => match find_byte(t.skip(c1 + 1), 44) {
            None => (0u8, 0u8, 0u8),
            Some(d) => {
                let c2 = c1 + 1 + d;
                if find_byte(t.skip(c2 + 1), 44) is Some {
                    (0u8, 0u8, 0u8)
                } else {
                    (
                        dec_channel(trim(t.subrange(0, c1))),
                        dec_channel(trim(t.subrange(c1 + 1, c2))),
                        dec_channel(trim(t.skip(c2 + 1))),
                    )
                }
            },
        },
    }
}

/// What `parse_color` returns for any input.
pub open spec fn spec_parse_color(s: Seq<u8>) -> (u8, u8, u8) {
    if s.len() == 7 && s[0] == 35 {
        (hex_channel(s[1], s[2]), hex_channel(s[3], s[4]), hex_channel(s[5], s[6]))
    } else if has_rgb_prefix(s) {
        rgb_channels(strip_close(strip_rgb_prefix(s)))
    } else {
        (0u8, 0u8, 0u8)
    }
}

fn hex_digit(b: u8) -> (r: Option<u8>)
    ensures
        match r {
            Some(v) => is_hex_digit(b) && v == hex_digit_value(b) && v <= 15,
            None => !is_hex_digit(b),
        },
{
    if 48 <= b && b <= 57 {
        Some(b - 48)
    } else if 97 <= b && b <= 102 {
        Some(b - 97 + 10)
    } else if 65 <= b && b <= 70 {
        Some(b - 65 + 10)
    } else {
        None
    }
}

fn hex_channel_exec(b0: u8, b1: u8) -> (r: u8)
    ensures
        r == hex_channel(b0, b1),
{
    match (hex_digit(b0), hex_digit(b1)) {
        (Some(a), Some(c)) => 16 * a + c,
        _ => 0,
    }
}

fn ws(b: u8) -> (r: bool)
    ensures
        r == is_ascii_ws(b),
{
    b == 9 || b == 10 || b == 11 || b == 12 || b == 13 || b == 32
}

/// Narrows `[lo, hi)` to the ASCII-whitespace-trimmed subrange.
fn trim_range(s: &[u8], lo: usize, hi: usize) -> (r: (usize, usize))
    requires
        lo <= hi <= s@.len(),
    ensures
        lo <= r.0 <= r.1 <= hi,
        trim(s@.subrange(lo as int, hi as int)) == s@.subrange(r.0 as int, r.1 as int),
{
    let mut a: usize = lo;
    while a < hi && ws(s[a])
        invariant
            lo <= a <= hi <= s@.len(),
            trim_start(s@.subrange(lo as int, hi as int)) == trim_start(
                s@.subrange(a as int, hi as int),
            ),
        decreases hi - a,
    {
        proof {
            assert(s@.subrange(a as int, hi as int).skip(1) =~= s@.subrange(
                a as int + 1,
                hi as int,
            ));
        }
        a = a + 1;
    }
    assert(trim_start(s@.subrange(lo as int, hi as int)) == s@.subrange(a as int, hi as int));
    let mut b: usize = hi;
    while b > a && ws(s[b - 1])
        invariant
            lo <= a <= b <= hi <= s@.len(),
            trim_end(s@.subrange(a as int, hi as int)) == trim_end(
                s@.subrange(a as int, b as int),
            ),
        decreases b,
    {
        proof {
            assert(s@.subrange(a as int, b as int).drop_last() =~= s@.subrange(
                a as int,
                b as int - 1,
            ));
        }
        b = b - 1;
    }
    assert(trim_end(s@.subrange(a as int, b as int)) == s@.subrange(a as int, b as int));
    (a, b)
}

/// Parses `[lo, hi)` as a decimal byte value, 0 on any failure.
fn parse_dec_range(s: &[u8], lo: usize, hi: usize) -> (r: u8)
    requires
        lo <= hi <= s@.len(),
    ensures
        r == dec_channel(s@.subrange(lo as int, hi as int)),
{
    let ghost t0 = s@.subrange(lo as int, hi as int);
    let start: usize = if lo < hi && s[lo] == 43 {
        lo + 1
    } else {
        lo
    };
    proof {
        if lo < hi && s@[lo as int] == 43 {
            assert(t0.skip(1) =~= s@.subrange(start as int, hi as int));
        } else {
            assert(t0 =~= s@.subrange(start as int, hi as int));
        }
    }
    let ghost t = s@.subrange(start as int, hi as int);
    let mut valid: bool = true;
    let mut acc: u32 = 0;
    let mut j: usize = start;
    while j < hi
        invariant
            start <= j <= hi <= s@.len(),
            t == s@.subrange(start as int, hi as int),
            valid ==> all_digits(s@.subrange(start as int, j as int)) && digits_val(
                s@.subrange(start as int, j as int),
            ) == acc && acc <= 255,
            !valid ==> !(all_digits(s@.subrange(start as int, j as int)) && digits_val(
                s@.subrange(start as int, j as int),
            ) <= 255),
        decreases hi - j,
    {
        let ghost pre = s@.subrange(start as int, j as int);
        let ghost post = s@.subrange(start as int, j as int + 1);
        proof {
            assert(post.drop_last() =~= pre);
            assert(post.last() == s@[j as int]);
            assert(forall|k: int| 0 <= k < pre.len() ==> post[k] == pre[k]);
        }
        let b = s[j];
        if b < 48 || b > 57 {
            proof {
                assert(!is_digit(post[j - start]));
                assert(!all_digits(post));
            }
            valid = false;
        } else if valid {
            let v: u32 = acc * 10 + (b - 48) as u32;
            assert(digits_val(post) == digits_val(pre) * 10 + (b - 48));
            if v > 255 {
                valid = false;
            } else {
                acc = v;
            }
        } else {
            proof {
                if all_digits(post) {
                    assert(all_digits(pre));
                    assert(digits_val(pre) > 255);
                    assert(digits_val(post) == digits_val(pre) * 10 + (b - 48));
                    assert(digits_val(post) > 255);
                }
            }
        }
        j = j + 1;
    }
    assert(s@.subrange(start as int, hi as int) == t);
    if valid && hi > start {
        assert(dec_channel(t0) == digits_val(t) as u8);
        acc as u8
    } else {
        assert(dec_channel(t0) == 0);
        0
    }
}

/// A trimmed decimal channel out of `[lo, hi)`.
fn channel_from_range(s: &[u8], lo: usize, hi: usize) -> (r: u8)
    requires
        lo <= hi <= s@.len(),
    ensures
        r == dec_channel(trim(s@.subrange(lo as int, hi as int))),
{
    let (a, b) = trim_range(s, lo, hi);
    parse_dec_range(s, a, b)
}

/// Parses a color byte string into an `(r, g, b)` triplet.  Invalid input
/// never fails; it degrades to 0 per channel or to black for the whole
/// color, exactly as `spec_parse_color` states.
pub fn parse_color(color: &[u8]) -> (c: (u8, u8, u8))
    ensures
        c == spec_parse_color(color@),
{
    let n: usize = color.len();
    if n == 7 && color[0] == 35 {
        (
            hex_channel_exec(color[1], color[2]),
            hex_channel_exec(color[3], color[4]),
            hex_channel_exec(color[5], color[6]),
        )
    } else if n >= 4 && color[0] == 114 && color[1] == 103 && color[2] == 98 && color[3] == 40 {
        let mut start: usize = 0;
        proof {
            assert(color@.skip(0) =~= color@);
        }
        while n - start >= 4 && color[start] == 114 && color[start + 1] == 103 && color[start + 2]
            == 98 && color[start + 3] == 40
            invariant
                0 <= start <= n,
                n == color@.len(),
                strip_rgb_prefix(color@) == strip_rgb_prefix(color@.skip(start as int)),
            decreases n - start,
        {
            proof {
                assert(has_rgb_prefix(color@.skip(start as int)));
                assert(color@.skip(start as int).skip(4) =~= color@.skip(start as int + 4));
            }
            start = start + 4;
        }
        proof {
            assert(!has_rgb_prefix(color@.skip(start as int)));
            assert(strip_rgb_prefix(color@) == color@.skip(start as int));
        }
        let mut end: usize = n;
        proof {
            assert(color@.skip(start as int) =~= color@.subrange(start as int, n as int));
        }
        while end > start && color[end - 1] == 41
            invariant
                start <= end <= n,
                n == color@.len(),
                strip_close(color@.skip(start as int)) == strip_close(
                    color@.subrange(start as int, end as int),
                ),
            decreases end,
        {
            proof {
                assert(color@.subrange(start as int, end as int).drop_last() =~= color@.subrange(
                    start as int,
                    end as int - 1,
                ));
            }
            end = end - 1;
        }
        proof {
            assert(strip_close(color@.subrange(start as int, end as int)) == color@.subrange(
                start as int,
                end as int,
            ));
        }
        let t_sl: &[u8] = slice_subrange(color, start, end);
        let ghost t = color@.subrange(start as int, end as int);
        assert(t == strip_close(strip_rgb_prefix(color@)));
        let t_len: usize = end - start;
        match find_byte_index(t_sl, 44) {
            None => (0, 0, 0),
            Some(c1) => {
                proof {
                    lemma_find_byte(t, 44);
                }
                assert(c1 < t_len);
                let rest1: &[u8] = slice_subrange(t_sl, c1 + 1, t_len);
                proof {
                    assert(rest1@ =~= t.skip(c1 + 1));
                }
                match find_byte_index(rest1, 44) {
                    None => (0, 0, 0),
                    Some(d) => {
                        proof {
                            lemma_find_byte(t.skip(c1 + 1), 44);
                        }
                        let c2: usize = c1 + 1 + d;
                        assert(c2 < t_len);
                        let rest2: &[u8] = slice_subrange(t_sl, c2 + 1, t_len);
                        proof {
                            assert(rest2@ =~= t.skip(c2 + 1));
                        }
                        match find_byte_index(rest2, 44) {
                            Some(_) => (0, 0, 0),
                            None => {
                                let r = channel_from_range(t_sl, 0, c1);
                                let g = channel_from_range(t_sl, c1 + 1, c2);
                                let b = channel_from_range(t_sl, c2 + 1, t_len);
                                proof {
                                    assert(t_sl@.subrange(0, c1 as int) =~= t.subrange(
                                        0,
                                        c1 as int,
                                    ));
                                    assert(t_sl@.subrange(c1 as int + 1, c2 as int) =~= t.subrange(
                                        c1 as int + 1,
                                        c2 as int,
                                    ));
                                    assert(t_sl@.subrange(c2 as int + 1, t_len as int) =~= t.skip(
                                        c2 as int + 1,
                                    ));
                                }
                                (r, g, b)
                            },
                        }
                    },
                }
            },
        }
    } else {
        (0, 0, 0)
    }
}

} // verus!
