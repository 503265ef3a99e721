//! Hex color literals (`#RRGGBB`, `#RRGGBBAA`) as CSS color functions.
use vstd::prelude::*;
use crate::text::{chars_of, decimal, digit_char, push_decimal};

verus! {

/// `s` with its leading `#` characters removed.
pub open spec fn strip_hashes(s: Seq<char>) -> Seq<char>
    decreases s.len(),
{
    if s.len() > 0 && s[0] == '#' {
        strip_hashes(s.drop_first())
    } else {
        s
    }
}

pub open spec fn is_hex_digit(c: char) -> bool {
    ('0' <= c <= '9') || ('a' <= c <= 'f') || ('A' <= c <= 'F')
}

/// The value of a hex digit character.
pub open spec fn hex_value(c: char) -> nat {
    if '0' <= c <= '9' {
        ((c as u32) - ('0' as u32)) as nat
    } else if 'a' <= c <= 'f' {
        ((c as u32) - ('a' as u32) + 10) as nat
    } else {
        ((c as u32) - ('A' as u32) + 10) as nat
    }
}

/// The byte written by the two hex digits at `2 * k` and `2 * k + 1`.
pub open spec fn hex_byte(h: Seq<char>, k: int) -> nat {
    hex_value(h[2 * k]) * 16 + hex_value(h[2 * k + 1])
}

/// An alpha byte as a fraction of 255, rounded to three decimals
/// (`128` gives `0.502`, `255` gives `1.000`).
pub open spec fn alpha_text(a: nat) -> Seq<char> {
    let k = (a * 2000 + 255) / 510;
    decimal(k / 1000) + "."@ + seq![
        digit_char((k / 100) % 10),
        digit_char((k / 10) % 10),
        digit_char(k % 10),
    ]
}

/// The CSS color that a hex literal names: six digits give `rgb(r,g,b)`,
/// eight give `rgba(r,g,b,alpha)`; any other length, or any character that
/// is not a hex digit, gives nothing.
pub open spec fn color_of_hex(s: Seq<char>) -> Option<Seq<char>> {
    let h = strip_hashes(s);
    if (h.len() == 6 || h.len() == 8) && forall|i: int| 0 <= i < h.len() ==> is_hex_digit(#[trigger] h[i]) {
        let rgb = decimal(hex_byte(h, 0)) + ","@ + decimal(hex_byte(h, 1)) + ","@ + decimal(
            hex_byte(h, 2),
        );
        if h.len() == 6 {
            Some("rgb("@ + rgb + ")"@)
        } else {
            Some("rgba("@ + rgb + ","@ + alpha_text(hex_byte(h, 3)) + ")"@)
        }
    } else {
        None
    }
}

fn hex_digit(c: char) -> (r: Option<u64>)
    ensures
        r == (if is_hex_digit(c) {
            Some(hex_value(c) as u64)
        } else {
            None::<u64>
        }),
{
    if '0' <= c && c <= '9' {
        Some((c as u32 - '0' as u32) as u64)
    } else if 'a' <= c && c <= 'f' {
        Some((c as u32 - 'a' as u32 + 10) as u64)
    } else if 'A' <= c && c <= 'F' {
        Some((c as u32 - 'A' as u32 + 10) as u64)
    } else {
        None
    }
}

/// Appends the alpha fraction of byte `a` to `out`.
fn push_alpha(out: &mut String, a: u64)
    requires
        a < 256,
    ensures
        final(out)@ == old(out)@ + alpha_text(a as nat),
{
    let k: u64 = (a * 2000 + 255) / 510;
    push_decimal(out, k / 1000);
    out.append(".");
    let d1 = (k / 100) % 10;
    let d2 = (k / 10) % 10;
    let d3 = k % 10;
    push_decimal(out, d1);
    push_decimal(out, d2);
    push_decimal(out, d3);
    assert(decimal(d1 as nat) == seq![digit_char(d1 as nat)]);
    assert(decimal(d2 as nat) == seq![digit_char(d2 as nat)]);
    assert(decimal(d3 as nat) == seq![digit_char(d3 as nat)]);
    assert(final(out)@ =~= old(out)@ + alpha_text(a as nat));
}

/// Converts a hex color literal to a CSS color; see `color_of_hex`.
pub fn hex_to_color(hex: &str) -> (r: Option<String>)
    ensures
        match r {
            Some(t) => color_of_hex(hex@) == Some(t@),
            None => color_of_hex(hex@) is None,
        },
{
    let s = chars_of(hex);
    let mut i: usize = 0;
    assert(s@.subrange(0, s.len() as int) =~= s@);
    while i < s.len() && s[i] == '#'
        invariant
            s@ == hex@,
            i <= s.len(),
            strip_hashes(s@) == strip_hashes(s@.subrange(i as int, s.len() as int)),
        decreases s.len() - i,
    {
        let ghost rest = s@.subrange(i as int, s.len() as int);
        assert(rest.drop_first() =~= s@.subrange(i + 1, s.len() as int));
        i = i + 1;
    }
    let n = s.len() - i;
    let ghost h = s@.subrange(i as int, s.len() as int);
    assert(strip_hashes(h) == h);
    if n != 6 && n != 8 {
        return None;
    }
    let mut vals: Vec<u64> = Vec::new();
    let mut j: usize = 0;
    while j < n
        invariant
            n == h.len(),
            i + n == s.len(),
            strip_hashes(hex@) == h,
            h == s@.subrange(i as int, s.len() as int),
            j <= n,
            vals.len() == j,
            forall|k: int| 0 <= k < j ==> is_hex_digit(#[trigger] h[k]),
            forall|k: int| 0 <= k < j ==> vals@[k] == hex_value(#[trigger] h[k]),
            forall|k: int| 0 <= k < j ==> vals@[k] < 16,
        decreases n - j,
    {
        match hex_digit(s[i + j]) {
            Some(v) => {
                vals.push(v);
            },
            None => {
                assert(h[j as int] == s@[i + j]);
                assert(!is_hex_digit(h[j as int]));
                return None;
            },
        }
        j = j + 1;
    }
    let red = vals[0] * 16 + vals[1];
    let green = vals[2] * 16 + vals[3];
    let blue = vals[4] * 16 + vals[5];
    let mut out = if n == 6 {
        "rgb(".to_owned()
    } else {
        "rgba(".to_owned()
    };
    let ghost head = out@;
    push_decimal(&mut out, red);
    out.append(",");
    push_decimal(&mut out, green);
    out.append(",");
    push_decimal(&mut out, blue);
    let ghost rgb = decimal(hex_byte(h, 0)) + ","@ + decimal(hex_byte(h, 1)) + ","@ + decimal(
        hex_byte(h, 2),
    );
    assert(out@ =~= head + rgb);
    if n == 8 {
        let alpha = vals[6] * 16 + vals[7];
        out.append(",");
        push_alpha(&mut out, alpha);
        assert(out@ =~= head + rgb + ","@ + alpha_text(hex_byte(h, 3)));
    }
    out.append(")");
    assert(n == 6 ==> out@ =~= "rgb("@ + rgb + ")"@);
    assert(n == 8 ==> out@ =~= "rgba("@ + rgb + ","@ + alpha_text(hex_byte(h, 3)) + ")"@);
    Some(out)
}

} // verus!
