//! Sixteen-byte account addresses and their hexadecimal forms.
use vstd::prelude::*;

verus! {

/// The number of bytes in an address.
pub const ADDRESS_LENGTH: usize = 16;

/// The lower-case hexadecimal digit of `n < 16`.
pub open spec fn hex_digit(n: int) -> char {
    if n < 10 {
        (48 + n) as char
    } else {
        (87 + n) as char
    }
}

/// Two lower-case hexadecimal digits for each byte, most significant first.
pub open spec fn hex_of(b: Seq<u8>) -> Seq<char>
    decreases b.len(),
{
    if b.len() == 0 {
        Seq::empty()
    } else {
        seq![hex_digit(b[0] as int / 16), hex_digit(b[0] as int % 16)] + hex_of(b.drop_first())
    }
}

/// `s` without its leading `'0'` characters.
pub open spec fn trim_zeros(s: Seq<char>) -> Seq<char>
    decreases s.len(),
{
    if s.len() > 0 && s[0] == '0' {
        trim_zeros(s.drop_first())
    } else {
        s
    }
}

/// The shortest hexadecimal form of an address: its digits without leading
/// zeros, or `"0"` where every digit is zero.
pub open spec fn short_str_spec(b: Seq<u8>) -> Seq<char> {
    let t = trim_zeros(hex_of(b));
    if t.len() == 0 {
        seq!['0']
    } else {
        t
    }
}

pub open spec fn is_hex_char(c: char) -> bool {
    ('0' <= c && c <= '9') || ('a' <= c && c <= 'f') || ('A' <= c && c <= 'F')
}

/// The value of a hexadecimal digit of either case.
pub open spec fn hex_char_value(c: char) -> int {
    if '0' <= c && c <= '9' {
        c as int - 48
    } else if 'a' <= c && c <= 'f' {
        c as int - 87
    } else {
        c as int - 55
    }
}

/// An even number of hexadecimal digits.
pub open spec fn hex_decodable(s: Seq<char>) -> bool {
    &&& s.len() % 2 == 0
    &&& forall|i: int| 0 <= i < s.len() ==> is_hex_char(#[trigger] s[i])
}

/// The bytes that pairs of hexadecimal digits spell.
pub open spec fn hex_decode(s: Seq<char>) -> Seq<u8> {
    Seq::new(
        (s.len() / 2) as nat,
        |i: int| (16 * hex_char_value(s[2 * i]) + hex_char_value(s[2 * i + 1])) as u8,
    )
}

/// A literal without its `0x` prefix, if it has one.
pub open spec fn strip_0x(s: Seq<char>) -> Seq<char> {
    if s.len() >= 2 && s[0] == '0' && s[1] == 'x' {
        s.subrange(2, s.len() as int)
    } else {
        s
    }
}

/// The digits of a literal, with a `'0'` in front where their number is odd.
pub open spec fn even_digits(s: Seq<char>) -> Seq<char> {
    if s.len() % 2 == 1 {
        seq!['0'] + s
    } else {
        s
    }
}

/// Every character is a hexadecimal digit.
pub open spec fn all_hex(s: Seq<char>) -> bool {
    forall|i: int| 0 <= i < s.len() ==> is_hex_char(#[trigger] s[i])
}

/// The address that a hexadecimal literal denotes: an optional `0x`, then
/// hexadecimal digits for at most sixteen bytes, zero-padded on the left.
pub open spec fn literal_address(lit: Seq<char>) -> Option<Seq<u8>> {
    let digits = strip_0x(lit);
    let decoded = hex_decode(even_digits(digits));
    if !all_hex(digits) {
        None
    } else if decoded.len() > ADDRESS_LENGTH {
        None
    } else {
        Some(Seq::new((ADDRESS_LENGTH - decoded.len()) as nat, |i: int| 0u8) + decoded)
    }
}

/// Relies on hex::encode: two lower-case digits for each byte, most
/// significant first.
#[verifier::external_body]
fn encode_hex(b: &[u8]) -> (r: String)
    ensures
        r@ == hex_of(b@),
{
    hex::encode(b)
}

/// Relies on hex::decode: succeeds exactly on an even number of digits of
/// either case, and decodes each pair to one byte.
#[verifier::external_body]
fn decode_hex(s: &str) -> (r: Option<Vec<u8>>)
    ensures
        r is Some <==> hex_decodable(s@),
        r matches Some(v) ==> v@ == hex_decode(s@),
{
    hex::decode(s).ok()
}

/// Relies on str::trim_start_matches with the pattern `'0'`.
#[verifier::external_body]
fn trim_leading_zeros(s: &str) -> (r: String)
    ensures
        r@ == trim_zeros(s@),
{
    s.trim_start_matches('0').to_string()
}

/// Relies on str::strip_prefix with the pattern `"0x"`.
#[verifier::external_body]
fn strip_hex_prefix(s: &str) -> (r: String)
    ensures
        r@ == strip_0x(s@),
{
    s.strip_prefix("0x").unwrap_or(s).to_string()
}

/// Relies on the `format!` macro: the string `"0"` followed by `s`.
#[verifier::external_body]
fn prepend_zero(s: &str) -> (r: String)
    ensures
        r@ == seq!['0'] + s@,
{
    format!("0{}", s)
}

/// Relies on rand's `Rng::gen` over the operating system's generator.
#[verifier::external_body]
fn random_bytes() -> (r: [u8; 16]) {
    rand::Rng::gen(&mut rand::rngs::OsRng)
}

/// An argument handed to a transaction script.
#[derive(Clone, Hash, Eq, PartialEq, Debug)]
pub enum TransactionArgument {
    U8(u8),
    U64(u64),
    U128(u128),
    Address(AccountAddress),
    U8Vector(Vec<u8>),
    Bool(bool),
}

/// Why a byte string or literal is not an address.
#[derive(Debug, Clone, Copy, PartialEq, Eq, Structural)]
pub enum AddressError {
    /// The literal holds a character that is not a hexadecimal digit.
    InvalidHex,
    /// The bytes are not sixteen.
    InvalidLength,
}

/// A struct that represents an account address.
#[derive(Clone, Copy, PartialEq, Eq, PartialOrd, Ord, Hash, Debug)]
pub struct AccountAddress {
    bytes: [u8; 16],
}

impl View for AccountAddress {
    type V = Seq<u8>;

    closed spec fn view(&self) -> Seq<u8> {
        self.bytes@
    }
}

impl AccountAddress {
    pub fn new(address: [u8; 16]) -> (r: Self)
        ensures
            r@ == address@,
    {
        AccountAddress { bytes: address }
    }

    pub fn random() -> (r: Self)
        ensures
            r@.len() == ADDRESS_LENGTH,
    {
        Self::new(random_bytes())
    }

    pub fn short_str_lossless(&self) -> (r: String)
        ensures
            r@ == short_str_spec(self@),
    {
        let full = encode_hex(&self.bytes);
        let hex_str = trim_leading_zeros(full.as_str());
        if hex_str.as_str().is_empty() {
            proof {
                reveal_strlit("0");
            }
            "0".to_owned()
        } else {
            hex_str
        }
    }

    pub fn to_vec(&self) -> (r: Vec<u8>)
        ensures
            r@ == self@,
    {
        let mut v: Vec<u8> = Vec::new();
        let mut i: usize = 0;
        while i < ADDRESS_LENGTH
            invariant
                i <= ADDRESS_LENGTH,
                v@ == self.bytes@.take(i as int),
            decreases ADDRESS_LENGTH - i,
        {
            v.push(self.bytes[i]);
            i = i + 1;
            assert(v@ =~= self.bytes@.take(i as int));
        }
        assert(self.bytes@.take(16) =~= self.bytes@);
        v
    }

    pub fn to_u8(self) -> (r: [u8; 16])
        ensures
            r@ == self@,
    {
        self.bytes
    }

    /// Tries to convert the provided byte string into an address.
    pub fn try_from(bytes: &[u8]) -> (r: Result<AccountAddress, AddressError>)
        ensures
            r is Ok <==> bytes@.len() == ADDRESS_LENGTH,
            r matches Ok(a) ==> a@ == bytes@,
            r matches Err(e) ==> e == AddressError::InvalidLength,
    {
        if bytes.len() != ADDRESS_LENGTH {
            return Err(AddressError::InvalidLength);
        }
        let mut addr = [0u8; 16];
        let mut i: usize = 0;
        while i < ADDRESS_LENGTH
            invariant
                i <= ADDRESS_LENGTH,
                bytes@.len() == ADDRESS_LENGTH,
                addr@.len() == ADDRESS_LENGTH,
                forall|k: int| 0 <= k < i ==> addr@[k] == bytes@[k],
            decreases ADDRESS_LENGTH - i,
        {
            addr[i] = bytes[i];
            i = i + 1;
        }
        assert(addr@ =~= bytes@);
        Ok(AccountAddress { bytes: addr })
    }

    /// Parses a hexadecimal literal, with or without `0x`, into an address.
    pub fn from_hex_literal(literal: &str) -> (r: Result<AccountAddress, AddressError>)
        ensures
            r is Ok <==> literal_address(literal@) is Some,
            r matches Ok(a) ==> literal_address(literal@) == Some(a@),
    {
        let stripped = strip_hex_prefix(literal);
        let digits = stripped.as_str();
        let ghost d = digits@;
        let decoded = match decode_hex(digits) {
            Some(v) => Some(v),
            None => {
                let padded = prepend_zero(digits);
                proof {
                    let p = padded@;
                    assert(p =~= seq!['0'] + d);
                    if all_hex(d) && d.len() % 2 == 1 {
                        assert forall|i: int| 0 <= i < p.len() implies is_hex_char(#[trigger] p[i]) by {
                            if i > 0 {
                                assert(p[i] == d[i - 1]);
                            }
                        }
                    } else if !all_hex(d) {
                        let i = choose|i: int| 0 <= i < d.len() && !is_hex_char(#[trigger] d[i]);
                        assert(p[i + 1] == d[i]);
                    }
                }
                decode_hex(padded.as_str())
            },
        };
        let mut result = match decoded {
            Some(v) => v,
            None => return Err(AddressError::InvalidHex),
        };
        assert(result@ == hex_decode(even_digits(d)));
        let len = result.len();
        if len > ADDRESS_LENGTH {
            return Err(AddressError::InvalidLength);
        }
        let mut padded: Vec<u8> = Vec::new();
        while padded.len() < ADDRESS_LENGTH - len
            invariant
                padded.len() <= ADDRESS_LENGTH - len,
                forall|k: int| 0 <= k < padded@.len() ==> padded@[k] == 0u8,
            decreases ADDRESS_LENGTH - len - padded.len(),
        {
            padded.push(0u8);
        }
        let ghost tail = result@;
        padded.append(&mut result);
        assert(padded@ =~= Seq::new((ADDRESS_LENGTH - tail.len()) as nat, |i: int| 0u8) + tail);
        AccountAddress::try_from(padded.as_slice())
    }
}

} // verus!
