//! Hexadecimal text encoding of byte strings, performed by the `hex` crate.
use vstd::prelude::*;

verus! {

/// Why a text is not the hexadecimal encoding of a byte string.
#[derive(Debug, Clone, Copy, PartialEq, Eq)]
pub enum HexError {
    /// A character that is not `0-9`, `a-f` or `A-F`, at the given byte position.
    InvalidHexCharacter { c: char, index: usize },
    /// An odd number of digits.
    OddLength,
    /// The text does not fit the requested fixed size.
    InvalidStringLength,
}

/// The lowercase hexadecimal digit for a value below 16.
pub open spec fn hex_digit(v: u8) -> char {
    if v < 10 {
        (48 + v) as char
    } else {
        (87 + v) as char
    }
}

/// Lowercase hexadecimal text of `data`: two digits per byte, high nibble first.
pub open spec fn hex_lower(data: Seq<u8>) -> Seq<char>
    decreases data.len(),
{
    if data.len() == 0 {
        Seq::empty()
    } else {
        hex_lower(data.drop_last()) + seq![
            hex_digit(data.last() / 16),
            hex_digit(data.last() % 16),
        ]
    }
}

/// The value of one hexadecimal digit byte (either case), if it is one.
pub open spec fn hex_value(c: u8) -> Option<u8> {
    if 48 <= c <= 57 {
        Some((c - 48) as u8)
    } else if 97 <= c <= 102 {
        Some((c - 87) as u8)
    } else if 65 <= c <= 70 {
        Some((c - 55) as u8)
    } else {
        None
    }
}

/// Decodes the digit pairs of `text` from byte position `i` on, reporting the
/// first byte that is not a hexadecimal digit.
pub open spec fn hex_decode_from(text: Seq<u8>, i: nat) -> Result<Seq<u8>, HexError>
    decreases text.len() - i,
{
    if i + 2 > text.len() {
        Ok(Seq::empty())
    } else {
        match hex_value(text[i as int]) {
            None => Err(HexError::InvalidHexCharacter { c: text[i as int] as char, index: i as usize }),
            Some(hi) => match hex_value(text[i as int + 1]) {
                None => Err(
                    HexError::InvalidHexCharacter { c: text[i as int + 1] as char, index: (i + 1) as usize },
                ),
                Some(lo) => match hex_decode_from(text, i + 2) {
                    Ok(rest) => Ok(seq![(hi * 16 + lo) as u8] + rest),
                    Err(e) => Err(e),
                },
            },
        }
    }
}

/// What `hex::decode` gives for the bytes of a text.
pub open spec fn hex_decode_bytes(text: Seq<u8>) -> Result<Seq<u8>, HexError> {
    if text.len() % 2 != 0 {
        Err(HexError::OddLength)
    } else {
        hex_decode_from(text, 0)
    }
}

/// `hex::encode`: renders `data` as lowercase hexadecimal text, two digits per
/// byte, high nibble first (the crate's `HEX_CHARS_LOWER` table).
#[verifier::external_body]
pub(crate) fn hex_encode(data: &[u8]) -> (s: String)
    ensures
        s@ == hex_lower(data@),
{
    ::hex::encode(data)
}

/// `hex::decode`: odd length is `OddLength`; otherwise the digit pairs are
/// decoded in order and the first byte that is no hexadecimal digit (either
/// case) is reported with its position; the crate's error variants are moved
/// one for one into `HexError`.
#[verifier::external_body]
pub(crate) fn hex_decode(text: &[u8]) -> (r: Result<Vec<u8>, HexError>)
    ensures
        match r {
            Ok(v) => hex_decode_bytes(text@) == Ok::<Seq<u8>, HexError>(v@),
            Err(e) => hex_decode_bytes(text@) == Err::<Seq<u8>, HexError>(e),
        },
{
    match ::hex::decode(text) {
        Ok(v) => Ok(v),
        Err(::hex::FromHexError::InvalidHexCharacter { c, index }) => Err(
            HexError::InvalidHexCharacter { c, index },
        ),
        Err(::hex::FromHexError::OddLength) => Err(HexError::OddLength),
        Err(::hex::FromHexError::InvalidStringLength) => Err(HexError::InvalidStringLength),
    }
}

pub proof fn lemma_hex_lower_len(data: Seq<u8>)
    ensures
        hex_lower(data).len() == 2 * data.len(),
    decreases data.len(),
{
    if data.len() > 0 {
        lemma_hex_lower_len(data.drop_last());
    }
}

/// Every character of a hexadecimal rendering is an ASCII hexadecimal digit.
pub proof fn lemma_hex_lower_digits(data: Seq<u8>)
    ensures
        forall|i: int|
            0 <= i < hex_lower(data).len() ==> {
                let c = #[trigger] hex_lower(data)[i];
                ('0' <= c <= '9') || ('a' <= c <= 'f')
            },
    decreases data.len(),
{
    lemma_hex_lower_len(data);
    if data.len() > 0 {
        lemma_hex_lower_digits(data.drop_last());
        lemma_hex_lower_len(data.drop_last());
        let prev = hex_lower(data.drop_last());
        let tail = seq![hex_digit(data.last() / 16), hex_digit(data.last() % 16)];
        assert forall|i: int| 0 <= i < hex_lower(data).len() implies {
            let c = #[trigger] hex_lower(data)[i];
            ('0' <= c <= '9') || ('a' <= c <= 'f')
        } by {
            if i < prev.len() {
                assert(hex_lower(data)[i] == prev[i]);
            } else {
                assert(hex_lower(data)[i] == tail[i - prev.len()]);
            }
        }
    }
}

/// ASCII bytes of a character sequence (the UTF-8 encoding of ASCII text).
pub open spec fn ascii_bytes(chars: Seq<char>) -> Seq<u8> {
    Seq::new(chars.len(), |i: int| chars[i] as u8)
}

proof fn lemma_digit_roundtrip(v: u8)
    requires
        v < 16,
    ensures
        hex_value(hex_digit(v) as u8) == Some(v),
{
}

proof fn lemma_decode_from_shift(a: Seq<u8>, b: Seq<u8>, i: nat)
    requires
        i <= a.len(),
        a.len() % 2 == 0,
        i % 2 == 0,
    ensures
        hex_decode_from(a + b, i) == match hex_decode_from(a, i) {
            Ok(x) => match hex_decode_from(a + b, a.len()) {
                Ok(y) => Ok(x + y),
                Err(e) => Err(e),
            },
            Err(e) => Err(e),
        },
    decreases a.len() - i,
{
    if i + 2 > a.len() {
        assert(i == a.len());
        match hex_decode_from(a + b, a.len()) {
            Ok(y) => {
                assert(Seq::<u8>::empty() + y =~= y);
            },
            Err(e) => {},
        }
    } else {
        lemma_decode_from_shift(a, b, i + 2);
        assert((a + b)[i as int] == a[i as int]);
        assert((a + b)[i as int + 1] == a[i as int + 1]);
        match hex_decode_from(a, i + 2) {
            Ok(x) => match hex_decode_from(a + b, a.len()) {
                Ok(y) => {
                    match hex_value(a[i as int]) {
                        Some(hi) => match hex_value(a[i as int + 1]) {
                            Some(lo) => {
                                assert(seq![(hi * 16 + lo) as u8] + (x + y) =~= (seq![
                                    (hi * 16 + lo) as u8,
                                ] + x) + y);
                            },
                            None => {},
                        },
                        None => {},
                    }
                },
                Err(e) => {},
            },
            Err(e) => {},
        }
    }
}

/// Decoding the hexadecimal rendering of a byte string gives the byte string back.
pub proof fn lemma_hex_roundtrip(data: Seq<u8>)
    ensures
        hex_decode_bytes(ascii_bytes(hex_lower(data))) == Ok::<Seq<u8>, HexError>(data),
    decreases data.len(),
{
    lemma_hex_lower_len(data);
    if data.len() == 0 {
        assert(ascii_bytes(hex_lower(data)).len() == 0);
        assert(data =~= Seq::<u8>::empty());
    } else {
        let init = data.drop_last();
        let b = data.last();
        lemma_hex_roundtrip(init);
        lemma_hex_lower_len(init);
        let a = ascii_bytes(hex_lower(init));
        let hi = hex_digit(b / 16) as u8;
        let lo = hex_digit(b % 16) as u8;
        let t = seq![hi, lo];
        assert(ascii_bytes(hex_lower(data)) =~= a + t);
        lemma_digit_roundtrip(b / 16);
        lemma_digit_roundtrip(b % 16);
        lemma_decode_from_shift(a, t, 0);
        assert((a + t)[a.len() as int] == hi);
        assert((a + t)[a.len() as int + 1] == lo);
        assert(hex_decode_from(a + t, a.len() + 2) == Ok::<Seq<u8>, HexError>(Seq::empty()));
        assert(((b / 16) * 16 + b % 16) as u8 == b);
        assert(hex_decode_from(a + t, a.len()) == Ok::<Seq<u8>, HexError>(
            seq![b] + Seq::<u8>::empty(),
        ));
        assert(init + (seq![b] + Seq::<u8>::empty()) =~= data);
    }
}

} // verus!
