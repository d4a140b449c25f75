//! Dotted-quad text for IPv4 addresses.
use vstd::prelude::*;
use vstd::string::*;

verus! {

/// The character for a decimal digit.
pub open spec fn digit_char(d: int) -> char {
    if d == 0 {
        '0'
    } else if d == 1 {
        '1'
    } else if d == 2 {
        '2'
    } else if d == 3 {
        '3'
    } else if d == 4 {
        '4'
    } else if d == 5 {
        '5'
    } else if d == 6 {
        '6'
    } else if d == 7 {
        '7'
    } else if d == 8 {
        '8'
    } else {
        '9'
    }
}

/// The decimal text of `n`, without leading zeros.
pub open spec fn decimal(n: nat) -> Seq<char>
    decreases n,
{
    if n < 10 {
        seq![digit_char(n as int)]
    } else {
        decimal(n / 10).push(digit_char((n % 10) as int))
    }
}

/// "a.b.c.d"
pub open spec fn dotted_quad(a: u8, b: u8, c: u8, d: u8) -> Seq<char> {
    decimal(a as nat) + seq!['.'] + decimal(b as nat) + seq!['.'] + decimal(c as nat) + seq!['.']
        + decimal(d as nat)
}

/// The text used where no address can be read.
pub open spec fn unspecified_text() -> Seq<char> {
    dotted_quad(0, 0, 0, 0)
}

fn digit_str(d: u8) -> (r: &'static str)
    requires
        d < 10,
    ensures
        r@ == seq![digit_char(d as int)],
{
    proof {
        reveal_strlit("0");
        reveal_strlit("1");
        reveal_strlit("2");
        reveal_strlit("3");
        reveal_strlit("4");
        reveal_strlit("5");
        reveal_strlit("6");
        reveal_strlit("7");
        reveal_strlit("8");
        reveal_strlit("9");
    }
    match d {
        0 => "0",
        1 => "1",
        2 => "2",
        3 => "3",
        4 => "4",
        5 => "5",
        6 => "6",
        7 => "7",
        8 => "8",
        _ => "9",
    }
}

fn push_decimal(s: &mut String, n: u8)
    ensures
        final(s)@ == old(s)@ + decimal(n as nat),
{
    let ghost s0 = s@;
    if n >= 100 {
        s.append(digit_str(n / 100));
    }
    if n >= 10 {
        s.append(digit_str((n / 10) % 10));
    }
    s.append(digit_str(n % 10));
    proof {
        let m = n as nat;
        if m >= 100 {
            assert(decimal(m / 10 / 10) == seq![digit_char((m / 100) as int)]);
            assert(decimal(m / 10) == decimal(m / 10 / 10).push(digit_char(((m / 10) % 10) as int)));
            assert(decimal(m) == decimal(m / 10).push(digit_char((m % 10) as int)));
        } else if m >= 10 {
            assert(decimal(m / 10) == seq![digit_char(((m / 10) % 10) as int)]);
            assert(decimal(m) == decimal(m / 10).push(digit_char((m % 10) as int)));
        }
        assert(s@ =~= s0 + decimal(m));
    }
}

fn push_dot(s: &mut String)
    ensures
        final(s)@ == old(s)@ + seq!['.'],
{
    proof {
        reveal_strlit(".");
    }
    s.append(".");
}

/// Formats four address bytes as dotted-quad text.
pub fn format_dotted_quad(a: u8, b: u8, c: u8, d: u8) -> (r: String)
    ensures
        r@ == dotted_quad(a, b, c, d),
{
    let mut s = String::new();
    push_decimal(&mut s, a);
    push_dot(&mut s);
    push_decimal(&mut s, b);
    push_dot(&mut s);
    push_decimal(&mut s, c);
    push_dot(&mut s);
    push_decimal(&mut s, d);
    assert(s@ =~= dotted_quad(a, b, c, d));
    s
}

} // verus!

verus! {

/// An IP address, held as its numeric value.
#[derive(Debug, Clone, Copy, PartialEq, Eq, Hash, Structural)]
pub enum IpAddr {
    V4(u32),
    V6(u128),
}

impl IpAddr {
    /// The IPv4 address `a.b.c.d`.
    pub fn v4(a: u8, b: u8, c: u8, d: u8) -> (r: IpAddr)
        ensures
            r == IpAddr::V4((a as int * 0x1000000 + b as int * 0x10000 + c as int * 0x100
                + d as int) as u32),
    {
        IpAddr::V4((a as u32) * 0x1000000 + (b as u32) * 0x10000 + (c as u32) * 0x100 + d as u32)
    }
}

} // verus!
