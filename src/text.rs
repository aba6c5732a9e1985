use vstd::prelude::*;
use vstd::string::StringExecFns;

verus! {

pub open spec fn digit_char(d: nat) -> char {
    if d == 0 {
        '0'
    } else if d == 1 {
        '1'
    } else if d == 2 {
        '2'
    } else if d == 3 {
        '3'
    } else if d == 4 {
        '4'
    } else if d == 5 {
        '5'
    } else if d == 6 {
        '6'
    } else if d == 7 {
        '7'
    } else if d == 8 {
        '8'
    } else {
        '9'
    }
}

/// The decimal digits of `n`, without leading zeros.
pub open spec fn decimal(n: nat) -> Seq<char>
    decreases n,
{
    if n < 10 {
        seq![digit_char(n)]
    } else {
        decimal(n / 10) + seq![digit_char(n % 10)]
    }
}

/// An IPv4 address in dotted-quad form, such as `10.0.0.1`.
pub open spec fn dotted(a: u32) -> Seq<char> {
    decimal((a / 0x100_0000) as nat) + "."@ + decimal(((a / 0x1_0000) % 256) as nat) + "."@
        + decimal(((a / 0x100) % 256) as nat) + "."@ + decimal((a % 256) as nat)
}

fn digit_str(d: u64) -> (r: &'static str)
    requires
        d < 10,
    ensures
        r@ == seq![digit_char(d as nat)],
{
    proof {
        reveal_strlit("0");
        reveal_strlit("1");
        reveal_strlit("2");
        reveal_strlit("3");
        reveal_strlit("4");
        reveal_strlit("5");
        reveal_strlit("6");
        reveal_strlit("7");
        reveal_strlit("8");
        reveal_strlit("9");
    }
    if d == 0 {
        "0"
    } else if d == 1 {
        "1"
    } else if d == 2 {
        "2"
    } else if d == 3 {
        "3"
    } else if d == 4 {
        "4"
    } else if d == 5 {
        "5"
    } else if d == 6 {
        "6"
    } else if d == 7 {
        "7"
    } else if d == 8 {
        "8"
    } else {
        "9"
    }
}

/// `n` in decimal.
pub fn decimal_text(n: u64) -> (r: String)
    ensures
        r@ == decimal(n as nat),
    decreases n,
{
    if n < 10 {
        String::from_str(digit_str(n))
    } else {
        let mut s = decimal_text(n / 10);
        s.append(digit_str(n % 10));
        s
    }
}

/// `a` in dotted-quad form.
pub fn ipv4_text(a: u32) -> (r: String)
    ensures
        r@ == dotted(a),
{
    let mut s = decimal_text((a / 0x100_0000) as u64);
    s.append(".");
    s.append(decimal_text(((a / 0x1_0000) % 256) as u64).as_str());
    s.append(".");
    s.append(decimal_text(((a / 0x100) % 256) as u64).as_str());
    s.append(".");
    s.append(decimal_text((a % 256) as u64).as_str());
    s
}

/// `http://<a>:<port>`.
pub fn http_url(a: u32, port: u16) -> (r: String)
    ensures
        r@ == "http://"@ + dotted(a) + ":"@ + decimal(port as nat),
{
    let mut s = String::from_str("http://");
    s.append(ipv4_text(a).as_str());
    s.append(":");
    s.append(decimal_text(port as u64).as_str());
    s
}

} // verus!
