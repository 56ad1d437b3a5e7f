use vstd::prelude::*;
use vstd::string::StringSliceAdditionalSpecFns;
use vstd::utf8::valid_utf8;

verus! {

/// Relies on `std::str::from_utf8`: it accepts exactly the valid UTF-8 byte
/// sequences and returns them as a `str` over the same bytes.
#[verifier::external_body]
pub(crate) fn str_from_utf8(d: &[u8]) -> (r: Option<&str>)
    ensures
        r is Some <==> valid_utf8(d@),
        r matches Some(s) ==> s.spec_bytes() == d@,
{
    std::str::from_utf8(d).ok()
}

/// Reads bytes as text for diagnostics: the bytes themselves when they are
/// valid UTF-8, and the words "not utf8" otherwise.
pub fn utf8(d: &[u8]) -> (r: &str)
    ensures
        valid_utf8(d@) ==> r.spec_bytes() == d@,
        !valid_utf8(d@) ==> r@ == "not utf8"@,
{
    match str_from_utf8(d) {
        Some(s) => s,
        None => "not utf8",
    }
}

/// Tells whether the bytes are valid UTF-8.
pub fn is_utf8(d: &[u8]) -> (r: bool)
    ensures
        r == valid_utf8(d@),
{
    str_from_utf8(d).is_some()
}

/// The ASCII digit for a value below sixteen, upper case for ten and above.
pub open spec fn hex_digit(d: nat) -> u8 {
    if d < 10 {
        (48 + d) as u8
    } else {
        (55 + d) as u8
    }
}

/// The decimal notation of a number, without leading zeros.
pub open spec fn decimal(n: nat) -> Seq<u8>
    decreases n,
{
    if n < 10 {
        seq![(48 + n) as u8]
    } else {
        decimal(n / 10).push((48 + n % 10) as u8)
    }
}

/// The upper-case hexadecimal notation of a number, without leading zeros.
pub open spec fn hex(n: nat) -> Seq<u8>
    decreases n,
{
    if n < 16 {
        seq![hex_digit(n)]
    } else {
        hex(n / 16).push(hex_digit(n % 16))
    }
}

/// Appends the decimal notation of `n`.
pub fn push_decimal(out: &mut Vec<u8>, n: u64)
    ensures
        final(out)@ == old(out)@ + decimal(n as nat),
    decreases n,
{
    if n >= 10 {
        push_decimal(out, n / 10);
    }
    out.push((48 + n % 10) as u8);
    assert(final(out)@ =~= old(out)@ + decimal(n as nat));
}

/// Appends the upper-case hexadecimal notation of `n`.
pub fn push_hex(out: &mut Vec<u8>, n: usize)
    ensures
        final(out)@ == old(out)@ + hex(n as nat),
    decreases n,
{
    if n >= 16 {
        push_hex(out, n / 16);
    }
    let d = n % 16;
    let c: u8 = if d < 10 { (48 + d) as u8 } else { (55 + d) as u8 };
    out.push(c);
    assert(final(out)@ =~= old(out)@ + hex(n as nat));
}

} // verus!
