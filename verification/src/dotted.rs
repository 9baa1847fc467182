//! Rendering a 32-bit address as dotted-decimal text, specified against
//! the canonical decimal spelling of each octet.

use vstd::arithmetic::div_mod::lemma_div_denominator;
use vstd::prelude::*;
use vstd::string::StringExecFns;

verus! {

/// The decimal digit character for a value in [0, 9].
pub open spec fn digit_char(d: int) -> char
    recommends
        0 <= d <= 9,
{
    if d == 0 {
        '0'
    } else if d == 1 {
        '1'
    } else if d == 2 {
        '2'
    } else if d == 3 {
        '3'
    } else if d == 4 {
        '4'
    } else if d == 5 {
        '5'
    } else if d == 6 {
        '6'
    } else if d == 7 {
        '7'
    } else if d == 8 {
        '8'
    } else {
        '9'
    }
}

/// The canonical decimal spelling of a non-negative number: most
/// significant digit first, no leading zeros (zero itself is "0").
pub open spec fn dec_str_of(n: int) -> Seq<char>
    recommends
        n >= 0,
    decreases n,
{
    if n < 10 {
        seq![digit_char(n)]
    } else {
        dec_str_of(n / 10).push(digit_char(n % 10))
    }
}

/// The dotted-decimal spelling of a 32-bit address: the four octets,
/// most significant first, each in canonical decimal, joined by dots.
pub open spec fn dotted_of(ip: u32) -> Seq<char> {
    dec_str_of((ip >> 24u32) as int) + seq!['.'] + dec_str_of(((ip >> 16u32) & 0xFFu32) as int)
        + seq!['.'] + dec_str_of(((ip >> 8u32) & 0xFFu32) as int) + seq!['.'] + dec_str_of(
        (ip & 0xFFu32) as int,
    )
}

fn digit_str(d: u32) -> (r: &'static str)
    requires
        d <= 9,
    ensures
        r@ == seq![digit_char(d as int)],
{
    let r: &'static str = if d == 0 {
        "0"
    } else if d == 1 {
        "1"
    } else if d == 2 {
        "2"
    } else if d == 3 {
        "3"
    } else if d == 4 {
        "4"
    } else if d == 5 {
        "5"
    } else if d == 6 {
        "6"
    } else if d == 7 {
        "7"
    } else if d == 8 {
        "8"
    } else {
        "9"
    };
    proof {
        reveal_strlit("0");
        reveal_strlit("1");
        reveal_strlit("2");
        reveal_strlit("3");
        reveal_strlit("4");
        reveal_strlit("5");
        reveal_strlit("6");
        reveal_strlit("7");
        reveal_strlit("8");
        reveal_strlit("9");
        assert(r@ =~= seq![digit_char(d as int)]);
    }
    r
}

fn append_octet_decimal(out: &mut String, v: u32)
    requires
        v <= 255,
    ensures
        final(out)@ == old(out)@ + dec_str_of(v as int),
{
    if v < 10 {
        out.append(digit_str(v));
        assert(out@ =~= old(out)@ + dec_str_of(v as int));
    } else if v < 100 {
        out.append(digit_str(v / 10));
        out.append(digit_str(v % 10));
        assert(dec_str_of((v / 10) as int) =~= seq![digit_char((v / 10) as int)]);
        assert(out@ =~= old(out)@ + dec_str_of(v as int));
    } else {
        out.append(digit_str(v / 100));
        out.append(digit_str((v / 10) % 10));
        out.append(digit_str(v % 10));
        proof {
            lemma_div_denominator(v as int, 10, 10);
            assert(dec_str_of((v / 100) as int) =~= seq![digit_char((v / 100) as int)]);
            assert(dec_str_of((v / 10) as int) =~= seq![
                digit_char((v / 100) as int),
                digit_char(((v / 10) % 10) as int),
            ]);
            assert(out@ =~= old(out)@ + dec_str_of(v as int));
        }
    }
}

/// The dotted-decimal text of a 32-bit address, octets separated by dots
/// (see [`dotted_of`]).
pub fn u32_to_dotted_decimal(ip: u32) -> (r: String)
    ensures
        r@ == dotted_of(ip),
{
    let o0 = ip >> 24;
    let o1 = (ip >> 16) & 0xFF;
    let o2 = (ip >> 8) & 0xFF;
    let o3 = ip & 0xFF;
    proof {
        assert(ip >> 24 <= 255 && ((ip >> 16) & 0xFF) <= 255 && ((ip >> 8) & 0xFF) <= 255 && (ip
            & 0xFF) <= 255) by (bit_vector);
        reveal_strlit(".");
    }
    let mut out = String::new();
    append_octet_decimal(&mut out, o0);
    out.append(".");
    append_octet_decimal(&mut out, o1);
    out.append(".");
    append_octet_decimal(&mut out, o2);
    out.append(".");
    append_octet_decimal(&mut out, o3);
    proof {
        assert("."@ =~= seq!['.']);
        assert(out@ =~= dotted_of(ip));
    }
    out
}

} // verus!
