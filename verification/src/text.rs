use vstd::prelude::*;
use vstd::utf8::*;

verus! {

/// `std::string::FromUtf8Error`, of which nothing is read but that it is
/// there.
#[verifier::external_type_specification]
#[verifier::external_body]
pub struct ExFromUtf8Error(std::string::FromUtf8Error);

/// `String::from_utf8` succeeds exactly on valid UTF-8, and the string it
/// gives then encodes to the very bytes it was given.
pub assume_specification[ String::from_utf8 ](vec: Vec<u8>) -> (r: Result<
    String,
    std::string::FromUtf8Error,
>)
    ensures
        r is Ok <==> valid_utf8(vec@),
        r matches Ok(s) ==> encode_utf8(s@) == vec@,
;

/// The characters that ASCII bytes stand for.
pub open spec fn ascii_chars(bytes: Seq<u8>) -> Seq<char> {
    Seq::new(bytes.len(), |i: int| bytes[i] as char)
}

/// Bytes below 128 are valid UTF-8 and decode to one character each.
pub proof fn lemma_ascii_is_utf8(bytes: Seq<u8>)
    requires
        forall|i: int| 0 <= i < bytes.len() ==> bytes[i] < 128,
    ensures
        valid_utf8(bytes),
        decode_utf8(bytes) == ascii_chars(bytes),
        encode_utf8(ascii_chars(bytes)) == bytes,
{
    let chars = ascii_chars(bytes);
    assert(is_ascii_chars(chars));
    is_ascii_chars_encode_utf8(chars);
    assert(encode_utf8(chars) =~= bytes);
    encode_utf8_valid_utf8(chars);
    encode_utf8_decode_utf8(chars);
}

/// The decimal digits of `n` as ASCII bytes, most significant first and
/// without leading zeros.
pub open spec fn decimal(n: nat) -> Seq<u8>
    decreases n,
{
    if n < 10 {
        seq![(0x30 + n) as u8]
    } else {
        decimal(n / 10).push((0x30 + n % 10) as u8)
    }
}

/// Decimal digits are ASCII.
pub proof fn lemma_decimal_is_ascii(n: nat)
    ensures
        decimal(n).len() >= 1,
        forall|i: int| 0 <= i < decimal(n).len() ==> 0x30 <= #[trigger] decimal(n)[i] <= 0x39,
    decreases n,
{
    if n >= 10 {
        lemma_decimal_is_ascii(n / 10);
    }
}

/// Appends the decimal digits of `n` to `out`.
pub fn push_decimal(out: &mut Vec<u8>, n: u64)
    ensures
        final(out)@ == old(out)@ + decimal(n as nat),
    decreases n,
{
    if n >= 10 {
        push_decimal(out, n / 10);
    }
    let d: u8 = (n % 10) as u8;
    out.push(0x30 + d);
    assert(out@ =~= old(out)@ + decimal(n as nat));
}

/// `n` in decimal.
pub fn decimal_string(n: u64) -> (r: String)
    ensures
        r@ == ascii_chars(decimal(n as nat)),
{
    let mut digits: Vec<u8> = Vec::new();
    push_decimal(&mut digits, n);
    proof {
        assert(digits@ =~= decimal(n as nat));
        lemma_decimal_is_ascii(n as nat);
        lemma_ascii_is_utf8(digits@);
    }
    match String::from_utf8(digits) {
        Ok(s) => {
            proof {
                encode_utf8_decode_utf8(s@);
            }
            s
        },
        Err(_) => String::new(),
    }
}

} // verus!
