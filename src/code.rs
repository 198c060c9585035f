use vstd::prelude::*;

verus! {

/// The character of decimal digit `d`.
pub open spec fn digit_char(d: nat) -> char {
    "0123456789"@[d as int]
}

/// The decimal representation of `n`, most significant digit first,
/// with no leading zeros.
pub open spec fn decimal(n: nat) -> Seq<char>
    decreases n,
{
    if n < 10 {
        seq![digit_char(n)]
    } else {
        decimal(n / 10).push(digit_char(n % 10))
    }
}

/// A reply line: the code in decimal, one space, the message, CRLF.
pub open spec fn reply_line(code: nat, message: Seq<char>) -> Seq<char> {
    decimal(code) + " "@ + message + "\r\n"@
}

fn digit_str(d: u32) -> (r: &'static str)
    requires
        d < 10,
    ensures
        r@ == seq![digit_char(d as nat)],
{
    proof {
        reveal_strlit("0123456789");
    }
    let r = "0123456789".substring_char(d as usize, d as usize + 1);
    assert(r@ =~= seq![digit_char(d as nat)]);
    r
}

/// Appends the decimal representation of `n` to `out`.
pub fn push_decimal(out: &mut String, n: u32)
    ensures
        final(out)@ == old(out)@ + decimal(n as nat),
    decreases n,
{
    if n >= 10 {
        push_decimal(out, n / 10);
    }
    out.append(digit_str(n % 10));
    assert(final(out)@ =~= old(out)@ + decimal(n as nat));
}

/// Formats a reply line `"<code> <message>\r\n"`.
pub fn fmt_msg(code: u32, message: &str) -> (r: String)
    ensures
        r@ == reply_line(code as nat, message@),
{
    let mut out = String::new();
    push_decimal(&mut out, code);
    out.append(" ");
    out.append(message);
    out.append("\r\n");
    assert(out@ =~= reply_line(code as nat, message@));
    out
}

} // verus!
