//! Decoding of hexadecimal text into bytes.
use vstd::prelude::*;

verus! {

/// Why a hex string could not be decoded.
#[derive(Debug, Clone, Copy, PartialEq, Eq, Structural)]
pub enum FromHexError {
    OddLength,
    InvalidStringLength,
    InvalidHexCharacter { c: char, index: usize },
}

/// Relies on `String::push`: the character is appended at the end.
#[verifier::external_body]
fn push_char(s: &mut String, c: char)
    ensures
        final(s)@ == old(s)@.push(c),
{
    s.push(c);
}

/// The character of a decimal digit.
pub open spec fn digit_char(d: nat) -> char {
    ((48 + d) as u8) as char
}

/// The decimal digits of `n`, most significant first, with no leading zero.
pub open spec fn decimal(n: nat) -> Seq<char>
    decreases n,
{
    if n < 10 {
        seq![digit_char(n)]
    } else {
        decimal(n / 10).push(digit_char(n % 10))
    }
}

/// Appends the decimal digits of `n`.
fn push_decimal(s: &mut String, n: usize)
    ensures
        final(s)@ == old(s)@ + decimal(n as nat),
    decreases n,
{
    if n >= 10 {
        push_decimal(s, n / 10);
    }
    let d = (n % 10) as u8;
    push_char(s, (48 + d) as char);
    assert(s@ =~= old(s)@ + decimal(n as nat));
}

impl FromHexError {
    /// A message for people; an invalid character is named with its index.
    pub fn to_string(&self) -> (r: String)
        ensures
            *self == FromHexError::OddLength ==> r@ == "hex string has odd length"@,
            *self == FromHexError::InvalidStringLength ==> r@
                == "hex string length does not match output buffer"@,
            *self matches FromHexError::InvalidHexCharacter { c, index } ==> r@
                == "invalid hex character '"@ + seq![c] + "' at index "@ + decimal(index as nat),
    {
        match self {
            FromHexError::OddLength => "hex string has odd length".to_owned(),
            FromHexError::InvalidStringLength => "hex string length does not match output buffer".to_owned(),
            FromHexError::InvalidHexCharacter { c, index } => {
                let mut r = "invalid hex character '".to_owned();
                push_char(&mut r, *c);
                r.append("' at index ");
                push_decimal(&mut r, *index);
                r
            },
        }
    }
}

/// The value of one hex digit, either case.
pub open spec fn hex_digit(c: u8) -> Option<u8> {
    if 0x41 <= c <= 0x46 {
        Some((c - 0x41 + 10) as u8)
    } else if 0x61 <= c <= 0x66 {
        Some((c - 0x61 + 10) as u8)
    } else if 0x30 <= c <= 0x39 {
        Some((c - 0x30) as u8)
    } else {
        None
    }
}

/// The position of the first byte at or after `from` that is no hex digit, or
/// the length when there is none.
pub open spec fn first_non_hex(data: Seq<u8>, from: nat) -> nat
    decreases data.len() - from,
{
    if from >= data.len() {
        data.len()
    } else if hex_digit(data[from as int]) is None {
        from
    } else {
        first_non_hex(data, from + 1)
    }
}

/// The bytes that a string of hex digits stands for, two digits to a byte,
/// high nibble first.
pub open spec fn hex_bytes(data: Seq<u8>) -> Seq<u8> {
    Seq::new(
        data.len() / 2,
        |i: int|
            (hex_digit(data[2 * i]).unwrap() * 16 + hex_digit(data[2 * i + 1]).unwrap()) as u8,
    )
}

/// Decoding `data` into exactly `n` bytes: the length is checked first, then
/// the digits in order.
pub open spec fn hex_decode(data: Seq<u8>, n: nat) -> Result<Seq<u8>, FromHexError> {
    if data.len() % 2 != 0 {
        Err(FromHexError::OddLength)
    } else if data.len() / 2 != n {
        Err(FromHexError::InvalidStringLength)
    } else if first_non_hex(data, 0) < data.len() {
        let i = first_non_hex(data, 0);
        Err(FromHexError::InvalidHexCharacter { c: data[i as int] as char, index: i as usize })
    } else {
        Ok(hex_bytes(data))
    }
}

pub proof fn lemma_first_non_hex(data: Seq<u8>, from: nat)
    requires
        from <= data.len(),
    ensures
        from <= first_non_hex(data, from) <= data.len(),
        forall|k: int| from <= k < first_non_hex(data, from) ==> hex_digit(data[k]) is Some,
        first_non_hex(data, from) < data.len() ==> hex_digit(
            data[first_non_hex(data, from) as int],
        ) is None,
    decreases data.len() - from,
{
    if from < data.len() && hex_digit(data[from as int]) is Some {
        lemma_first_non_hex(data, from + 1);
    }
}

fn val(c: u8, idx: usize) -> (r: Result<u8, FromHexError>)
    ensures
        match hex_digit(c) {
            Some(v) => r == Ok::<u8, FromHexError>(v),
            None => r == Err::<u8, FromHexError>(
                FromHexError::InvalidHexCharacter { c: c as char, index: idx },
            ),
        },
{
    if 0x41u8 <= c && c <= 0x46u8 {
        Ok(c - 0x41u8 + 10)
    } else if 0x61u8 <= c && c <= 0x66u8 {
        Ok(c - 0x61u8 + 10)
    } else if 0x30u8 <= c && c <= 0x39u8 {
        Ok(c - 0x30u8)
    } else {
        Err(FromHexError::InvalidHexCharacter { c: c as char, index: idx })
    }
}

/// Decodes `data` into `out`, which keeps its length: the string must hold
/// exactly two hex digits for each byte of `out`.
pub fn decode_to_slice(data: &[u8], out: &mut Vec<u8>) -> (r: Result<(), FromHexError>)
    ensures
        final(out)@.len() == old(out)@.len(),
        data@.len() % 2 != 0 || data@.len() / 2 != old(out)@.len() ==> final(out)@ == old(out)@,
        match hex_decode(data@, old(out)@.len()) {
            Ok(bytes) => r is Ok && final(out)@ == bytes,
            Err(e) => r == Err::<(), FromHexError>(e),
        },
{
    if data.len() % 2 != 0 {
        return Err(FromHexError::OddLength);
    }
    if data.len() / 2 != out.len() {
        return Err(FromHexError::InvalidStringLength);
    }
    proof {
        lemma_first_non_hex(data@, 0);
    }
    let n = out.len();
    let dlen = data.len();
    let mut i: usize = 0;
    while i < n
        invariant
            n == out@.len(),
            n == old(out)@.len(),
            data@.len() == 2 * n,
            dlen == data@.len(),
            i <= n,
            forall|k: int| 0 <= k < 2 * i ==> hex_digit(data@[k]) is Some,
            forall|k: int| 0 <= k < i ==> out@[k] == hex_bytes(data@)[k],
            2 * i <= first_non_hex(data@, 0),
            first_non_hex(data@, 0) <= data@.len(),
            forall|k: int| 0 <= k < first_non_hex(data@, 0) ==> hex_digit(data@[k]) is Some,
            first_non_hex(data@, 0) < data@.len() ==> hex_digit(
                data@[first_non_hex(data@, 0) as int],
            ) is None,
        decreases n - i,
    {
        let hi = val(data[2 * i], 2 * i);
        match hi {
            Err(e) => {
                return Err(e);
            },
            Ok(_) => {},
        }
        let lo = val(data[2 * i + 1], 2 * i + 1);
        match lo {
            Err(e) => {
                return Err(e);
            },
            Ok(_) => {},
        }
        let h = match hi {
            Ok(v) => v,
            Err(_) => 0,
        };
        let l = match lo {
            Ok(v) => v,
            Err(_) => 0,
        };
        out.set(i, h << 4 | l);
        proof {
            assert((h << 4u8 | l) == h * 16 + l) by (bit_vector)
                requires
                    h < 16,
                    l < 16,
            ;
        }
        i = i + 1;
    }
    assert(out@ =~= hex_bytes(data@));
    Ok(())
}

} // verus!
