//! Path-safe symbols: a value is written in bincode's fixed-width form and
//! the bytes are rendered as lower-case hexadecimal.

use vstd::prelude::*;

verus! {

/// The error of hex::decode, turned into text where it is reported.
#[verifier::external_type_specification]
#[verifier::external_body]
pub struct ExFromHexError(hex::FromHexError);

/// The error of bincode::deserialize, turned into text where it is reported.
#[verifier::external_type_specification]
#[verifier::external_body]
pub struct ExBincodeErrorKind(bincode::ErrorKind);

/// The hexadecimal digit for a value below sixteen.
pub open spec fn hex_digit(n: int) -> char {
    seq!['0', '1', '2', '3', '4', '5', '6', '7', '8', '9', 'a', 'b', 'c', 'd', 'e', 'f'][n]
}

/// Whether `c` is a hexadecimal digit of either case.
pub open spec fn is_hex_char(c: char) -> bool {
    ('0' <= c && c <= '9') || ('a' <= c && c <= 'f') || ('A' <= c && c <= 'F')
}

/// The value of a hexadecimal digit of either case.
pub open spec fn hex_value(c: char) -> int {
    if '0' <= c && c <= '9' {
        c as int - '0' as int
    } else if 'a' <= c && c <= 'f' {
        c as int - 'a' as int + 10
    } else {
        c as int - 'A' as int + 10
    }
}

/// Two lower-case digits for each byte, high half first.
pub open spec fn hex_of(b: Seq<u8>) -> Seq<char> {
    Seq::new(
        2 * b.len(),
        |i: int|
            if i % 2 == 0 {
                hex_digit(b[i / 2] as int / 16)
            } else {
                hex_digit(b[i / 2] as int % 16)
            },
    )
}

/// Whether `s` can be read back as bytes: an even number of hexadecimal digits.
pub open spec fn is_hex_text(s: Seq<char>) -> bool {
    s.len() % 2 == 0 && forall|i: int| 0 <= i < s.len() ==> is_hex_char(#[trigger] s[i])
}

/// The bytes that a hexadecimal text stands for.
pub open spec fn bytes_of_hex(s: Seq<char>) -> Seq<u8> {
    Seq::new(
        s.len() / 2,
        |i: int| (16 * hex_value(s[2 * i]) + hex_value(s[2 * i + 1])) as u8,
    )
}

/// The eight little-endian bytes of a `u64`.
pub open spec fn le_bytes(x: u64) -> Seq<u8> {
    seq![
        x as u8,
        (x >> 8u64) as u8,
        (x >> 16u64) as u8,
        (x >> 24u64) as u8,
        (x >> 32u64) as u8,
        (x >> 40u64) as u8,
        (x >> 48u64) as u8,
        (x >> 56u64) as u8,
    ]
}

/// The `u64` whose little-endian bytes open `b`.
pub open spec fn le_u64(b: Seq<u8>) -> u64
    recommends
        b.len() >= 8,
{
    (b[0] as u64) | ((b[1] as u64) << 8u64) | ((b[2] as u64) << 16u64) | ((b[3] as u64) << 24u64)
        | ((b[4] as u64) << 32u64) | ((b[5] as u64) << 40u64) | ((b[6] as u64) << 48u64) | ((
    b[7] as u64) << 56u64)
}

/// The symbol of a `u64`.
pub open spec fn u64_symbol(x: u64) -> Seq<char> {
    hex_of(le_bytes(x))
}

/// The value that a symbol decodes to as a `u64`, if it decodes.
pub open spec fn u64_of_symbol(s: Seq<char>) -> Option<u64> {
    if is_hex_text(s) && bytes_of_hex(s).len() >= 8 {
        Some(le_u64(bytes_of_hex(s)))
    } else {
        None
    }
}

/// Why a symbol could not be turned back into a value.
pub enum FromStringError {
    /// The symbol is not an even number of hexadecimal digits.
    FailedToDecodeHex { hex: String, inner_error: String },
    /// The bytes do not hold a value of the requested type.
    FailedToDeserialize { bytes: Vec<u8>, serde_error: String },
}

/// Why the next segment of a path could not be read.
pub enum ParseError {
    /// The segment is not a symbol of the requested type.
    FromStringError(FromStringError),
    /// The path has no segment left.
    NoSymbolsLeft,
}

/// Relies on hex::encode: two lower-case digits per byte, high half first.
#[verifier::external_body]
fn hex_encode(bytes: &[u8]) -> (r: String)
    ensures
        r@ == hex_of(bytes@),
{
    hex::encode(bytes)
}

/// Relies on hex::decode: it accepts an even number of digits of either
/// case and fails on anything else.
#[verifier::external_body]
fn hex_decode(text: &str) -> (r: Result<Vec<u8>, hex::FromHexError>)
    ensures
        r is Ok <==> is_hex_text(text@),
        r matches Ok(b) ==> b@ == bytes_of_hex(text@),
{
    hex::decode(text)
}

/// Relies on bincode::serialize: with its default options a `u64` is eight
/// little-endian bytes, and writing into memory cannot fail.
#[verifier::external_body]
fn bincode_u64_bytes(x: u64) -> (r: Vec<u8>)
    ensures
        r@ == le_bytes(x),
{
    bincode::serialize(&x).unwrap()
}

/// Relies on bincode::deserialize: a `u64` is read from the first eight
/// little-endian bytes; trailing bytes are allowed, fewer bytes fail.
#[verifier::external_body]
fn bincode_u64_value(bytes: &[u8]) -> (r: Result<u64, Box<bincode::ErrorKind>>)
    ensures
        r is Ok <==> bytes@.len() >= 8,
        r matches Ok(v) ==> v == le_u64(bytes@),
{
    bincode::deserialize::<u64>(bytes)
}

/// Encodes bytes as a symbol.
pub fn symbol_from_bytes(bytes: &[u8]) -> (r: String)
    ensures
        r@ == hex_of(bytes@),
{
    hex_encode(bytes)
}

/// Recovers the bytes of a symbol.
pub fn bytes_from_symbol(symbol: &str) -> (r: Result<Vec<u8>, FromStringError>)
    ensures
        r is Ok <==> is_hex_text(symbol@),
        r matches Ok(b) ==> b@ == bytes_of_hex(symbol@),
        r matches Err(e) ==> (e matches FromStringError::FailedToDecodeHex { hex, .. } && hex@
            == symbol@),
{
    match hex_decode(symbol) {
        Ok(bytes) => Ok(bytes),
        Err(e) => Err(
            FromStringError::FailedToDecodeHex { hex: symbol.to_string(), inner_error: e.to_string() },
        ),
    }
}

/// Encodes a `u64` as a symbol.
pub fn encode_u64(value: u64) -> (r: String)
    ensures
        r@ == u64_symbol(value),
{
    let bytes = bincode_u64_bytes(value);
    symbol_from_bytes(bytes.as_slice())
}

/// Decodes a symbol as a `u64`.
pub fn decode_u64(symbol: &str) -> (r: Result<u64, FromStringError>)
    ensures
        r is Ok <==> u64_of_symbol(symbol@) is Some,
        r matches Ok(v) ==> u64_of_symbol(symbol@) == Some(v),
        !is_hex_text(symbol@) ==> (r matches Err(FromStringError::FailedToDecodeHex { hex, .. })
            && hex@ == symbol@),
        is_hex_text(symbol@) && u64_of_symbol(symbol@) is None ==> (r matches Err(
            FromStringError::FailedToDeserialize { bytes, .. },
        ) && bytes@ == bytes_of_hex(symbol@)),
        r matches Err(FromStringError::FailedToDecodeHex { hex, .. }) ==> !is_hex_text(symbol@)
            && hex@ == symbol@,
        r matches Err(FromStringError::FailedToDeserialize { bytes, .. }) ==> is_hex_text(symbol@)
            && bytes@ == bytes_of_hex(symbol@),
{
    let bytes = match bytes_from_symbol(symbol) {
        Ok(b) => b,
        Err(e) => {
            return Err(e);
        },
    };
    match bincode_u64_value(bytes.as_slice()) {
        Ok(v) => Ok(v),
        Err(e) => Err(FromStringError::FailedToDeserialize { bytes, serde_error: e.to_string() }),
    }
}


proof fn lemma_hex_digit(n: int)
    requires
        0 <= n < 16,
    ensures
        is_hex_char(hex_digit(n)),
        hex_value(hex_digit(n)) == n,
{
    let digits = seq!['0', '1', '2', '3', '4', '5', '6', '7', '8', '9', 'a', 'b', 'c', 'd', 'e', 'f'];
    assert(hex_digit(n) == digits[n]);
}

proof fn lemma_hex_round_trip(b: Seq<u8>)
    ensures
        is_hex_text(hex_of(b)),
        bytes_of_hex(hex_of(b)) == b,
{
    let s = hex_of(b);
    assert forall|i: int| 0 <= i < s.len() implies is_hex_char(#[trigger] s[i]) by {
        lemma_hex_digit(b[i / 2] as int / 16);
        lemma_hex_digit(b[i / 2] as int % 16);
    }
    assert forall|i: int| 0 <= i < b.len() implies #[trigger] bytes_of_hex(s)[i] == b[i] by {
        assert((2 * i) / 2 == i);
        assert((2 * i + 1) / 2 == i);
        lemma_hex_digit(b[i] as int / 16);
        lemma_hex_digit(b[i] as int % 16);
    }
    assert(bytes_of_hex(s) =~= b);
}

proof fn lemma_le_round_trip(x: u64)
    ensures
        le_u64(le_bytes(x)) == x,
{
    let b = le_bytes(x);
    assert(x == ((x as u8) as u64) | ((((x >> 8u64) as u8) as u64) << 8u64) | ((((x >> 16u64) as u8)
        as u64) << 16u64) | ((((x >> 24u64) as u8) as u64) << 24u64) | ((((x >> 32u64) as u8) as u64)
        << 32u64) | ((((x >> 40u64) as u8) as u64) << 40u64) | ((((x >> 48u64) as u8) as u64)
        << 48u64) | ((((x >> 56u64) as u8) as u64) << 56u64)) by (bit_vector);
}

/// Decoding the symbol of a `u64` as a `u64` gives the same value back.
pub proof fn lemma_u64_round_trip(x: u64)
    ensures
        u64_of_symbol(u64_symbol(x)) == Some(x),
{
    lemma_hex_round_trip(le_bytes(x));
    lemma_le_round_trip(x);
}

/// Decoding the symbol of any byte string gives the same bytes back.
pub proof fn lemma_bytes_round_trip(b: Seq<u8>)
    ensures
        is_hex_text(hex_of(b)),
        bytes_of_hex(hex_of(b)) == b,
{
    lemma_hex_round_trip(b);
}

/// A value that can stand as one segment of an event path: its bytes,
/// written as lower-case hexadecimal.
pub trait EventSymbol: Sized {
    /// The bytes that this value is written as.
    spec fn symbol_bytes(&self) -> Seq<u8>;

    /// Writes the value as a path segment.
    fn to_string(&self) -> (r: String)
        ensures
            r@ == hex_of(self.symbol_bytes()),
    ;

    /// Reads a value back from a path segment. Text that is not an even
    /// number of hexadecimal digits fails with that text; bytes that do not
    /// hold a value fail with those bytes; the bytes of a value give that
    /// value back.
    fn from_string(string: &str) -> (r: Result<Self, FromStringError>)
        ensures
            !is_hex_text(string@) ==> (r matches Err(FromStringError::FailedToDecodeHex { hex, .. })
                && hex@ == string@),
            r matches Err(FromStringError::FailedToDecodeHex { hex, .. }) ==> !is_hex_text(string@)
                && hex@ == string@,
            r matches Err(FromStringError::FailedToDeserialize { bytes, .. }) ==> is_hex_text(
                string@,
            ) && bytes@ == bytes_of_hex(string@),
            forall|v: Self|
                is_hex_text(string@) && bytes_of_hex(string@) == #[trigger] v.symbol_bytes() ==> (
                r matches Ok(w) && w == v),
    ;
}

/// The path segment of a symbol value.
pub open spec fn symbol_of<S: EventSymbol>(x: S) -> Seq<char> {
    hex_of(x.symbol_bytes())
}

/// Reading back the segment of a value gives the value: the segment is
/// hexadecimal text whose bytes are those of the value.
pub proof fn lemma_symbol_round_trip<S: EventSymbol>(x: S)
    ensures
        is_hex_text(symbol_of(x)),
        bytes_of_hex(symbol_of(x)) == x.symbol_bytes(),
{
    lemma_hex_round_trip(x.symbol_bytes());
}

impl EventSymbol for u64 {
    open spec fn symbol_bytes(&self) -> Seq<u8> {
        le_bytes(*self)
    }

    fn to_string(&self) -> (r: String) {
        encode_u64(*self)
    }

    fn from_string(string: &str) -> (r: Result<u64, FromStringError>) {
        let r = decode_u64(string);
        proof {
            assert forall|v: u64|
                is_hex_text(string@) && bytes_of_hex(string@) == #[trigger] v.symbol_bytes() implies (
                r matches Ok(w) && w == v) by {
                lemma_le_round_trip(v);
            }
        }
        r
    }
}

} // verus!
