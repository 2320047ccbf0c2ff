//! A valid Solana address: a Base58 string of at most 44 characters, stored in a
//! fixed, NUL-padded byte buffer.

use core::cmp::Ordering;
use vstd::prelude::*;
use vstd::std_specs::cmp::PartialOrdSpecImpl;
use vstd::slice::slice_subrange;
use vstd::string::*;
use vstd::utf8::*;

use crate::decimal::{decimal, push_decimal};

verus! {

/// The maximum number of data characters of a `SolanaAddress`.
/// Solana addresses are typically 32-44 characters long.
pub const SOLANA_ADDRESS_MAX_CHARS: usize = 44;

/// The length of the byte buffer of a `SolanaAddress` (data plus a NUL terminator).
pub const SOLANA_ADDRESS_BUFFER_LEN: usize = SOLANA_ADDRESS_MAX_CHARS + 1;

/// Whether `b` belongs to the Base58 alphabet
/// `123456789ABCDEFGHJKLMNPQRSTUVWXYZabcdefghijkmnopqrstuvwxyz`
/// (the digits and letters without `0`, `I`, `O` and `l`).
pub open spec fn is_base58(b: u8) -> bool {
    ||| 49 <= b <= 57
    ||| 65 <= b <= 72
    ||| 74 <= b <= 78
    ||| 80 <= b <= 90
    ||| 97 <= b <= 107
    ||| 109 <= b <= 122
}

/// Whether `byte` is a Base58 character.
pub fn is_valid_base58_char(byte: u8) -> (res: bool)
    ensures
        res == is_base58(byte),
{
    (49 <= byte && byte <= 57) || (65 <= byte && byte <= 72) || (74 <= byte && byte <= 78) || (80
        <= byte && byte <= 90) || (97 <= byte && byte <= 107) || (109 <= byte && byte <= 122)
}

/// The index of the first NUL byte of `b` at or after `i`, or `b.len()` when
/// there is none.
pub open spec fn nul_index_from(b: Seq<u8>, i: nat) -> nat
    decreases b.len() - i,
{
    if i >= b.len() {
        b.len()
    } else if b[i as int] == 0 {
        i
    } else {
        nul_index_from(b, i + 1)
    }
}

/// The index of the first NUL byte of `b`, or `b.len()` when it holds none: the
/// length of the data part of `b`.
pub open spec fn effective_len(b: Seq<u8>) -> nat {
    nul_index_from(b, 0)
}

/// Whether the data part of `b` holds a non-Base58 character.
pub open spec fn has_invalid_data_char(b: Seq<u8>) -> bool {
    exists|i: int| 0 <= i < effective_len(b) && !is_base58(b[i])
}

/// The index of the first non-Base58 character of the data part of `b`.
pub open spec fn first_invalid_data_char(b: Seq<u8>) -> nat {
    (choose|i: int|
        0 <= i < effective_len(b) && !is_base58(b[i]) && forall|j: int|
            0 <= j < i ==> is_base58(b[j])) as nat
}

/// Whether a non-NUL byte follows the first NUL byte of `b`. In a string given to
/// `SolanaAddress::new_checked`, that NUL byte then does not terminate the data
/// and counts as a non-Base58 character.
pub open spec fn has_data_after_nul(b: Seq<u8>) -> bool {
    exists|j: int| effective_len(b) < j < b.len() && b[j] != 0
}

/// Why a byte sequence is not a valid Solana address.
#[derive(Clone, Copy, Debug, PartialEq, Eq)]
pub enum SolanaAddressError {
    /// The byte slice was empty.
    EmptyBytes,
    /// A non-Base58 character at `index`.
    InvalidChar { index: usize },
    /// The data part (before the first NUL) was empty.
    EffectivelyEmpty,
    /// The data part has `effective_len` characters, more than the maximum; the
    /// slice, of length `len`, then does not fit the buffer either.
    DataTooLong { effective_len: usize, len: usize },
    /// The slice, of length `len`, does not fit the buffer.
    IncompatibleLength { len: usize },
}

/// What parsing the byte slice `b` as a Solana address gives: the data bytes
/// (those before the first NUL; what follows it is not read), or the first check
/// that fails, in the order empty slice, character content, empty data, data
/// length, slice length.
pub open spec fn parse_address(b: Seq<u8>) -> Result<Seq<u8>, SolanaAddressError> {
    let eff = effective_len(b);
    if b.len() == 0 {
        Err(SolanaAddressError::EmptyBytes)
    } else if has_invalid_data_char(b) {
        Err(SolanaAddressError::InvalidChar { index: first_invalid_data_char(b) as usize })
    } else if eff == 0 {
        Err(SolanaAddressError::EffectivelyEmpty)
    } else if eff > SOLANA_ADDRESS_MAX_CHARS {
        Err(SolanaAddressError::DataTooLong { effective_len: eff as usize, len: b.len() as usize })
    } else if !(b.len() <= SOLANA_ADDRESS_MAX_CHARS || (b.len() == SOLANA_ADDRESS_BUFFER_LEN
        && b.last() == 0)) {
        Err(SolanaAddressError::IncompatibleLength { len: b.len() as usize })
    } else {
        Ok(b.subrange(0, eff as int))
    }
}

/// What parsing the string with UTF-8 bytes `b` gives: as for a byte slice,
/// except that a NUL byte followed by a non-NUL byte is a non-Base58 character
/// at that NUL (reported after the characters before it are checked).
pub open spec fn parse_address_str(b: Seq<u8>) -> Result<Seq<u8>, SolanaAddressError> {
    if b.len() > 0 && !has_invalid_data_char(b) && has_data_after_nul(b) {
        Err(SolanaAddressError::InvalidChar { index: effective_len(b) as usize })
    } else {
        parse_address(b)
    }
}

/// Whether `d` is the data of a valid address: 1 to 44 Base58 characters.
pub open spec fn valid_address_data(d: Seq<u8>) -> bool {
    &&& 1 <= d.len() <= SOLANA_ADDRESS_MAX_CHARS
    &&& forall|i: int| 0 <= i < d.len() ==> is_base58(#[trigger] d[i])
}

/// The buffer that stores the data `d`: `d` followed by NUL bytes.
pub open spec fn address_buffer(d: Seq<u8>) -> Seq<u8> {
    d + Seq::new((SOLANA_ADDRESS_BUFFER_LEN - d.len()) as nat, |i: int| 0u8)
}

/// The characters of an ASCII byte string.
pub open spec fn ascii_chars(d: Seq<u8>) -> Seq<char> {
    d.map_values(|b: u8| b as char)
}

/// The message of an error.
pub open spec fn error_message(e: SolanaAddressError) -> Seq<char> {
    match e {
        SolanaAddressError::EmptyBytes => "the 'bytes' slice `&[u8]` was empty"@,
        SolanaAddressError::InvalidChar { index } => "'bytes' contains non-Base58 characters (at index "@
            + decimal(index as nat) + ")"@,
        SolanaAddressError::EffectivelyEmpty => "'bytes' is effectively empty or contains only null bytes"@,
        SolanaAddressError::DataTooLong { effective_len, len } => "'bytes' effective data length ("@
            + decimal(effective_len as nat) + ") exceeds max chars ("@ + decimal(
            SOLANA_ADDRESS_MAX_CHARS as nat,
        ) + "); "@ + incompatible_length_message(len as nat),
        SolanaAddressError::IncompatibleLength { len } => incompatible_length_message(len as nat),
    }
}

/// The message for a slice of length `len` that does not fit the buffer.
pub open spec fn incompatible_length_message(len: nat) -> Seq<char> {
    "'bytes' length ("@ + decimal(len) + ") is incompatible with storage (max data "@ + decimal(
        SOLANA_ADDRESS_MAX_CHARS as nat,
    ) + " chars, buffer "@ + decimal(SOLANA_ADDRESS_BUFFER_LEN as nat) + ")"@
}

fn push_incompatible_length_message(s: &mut String, len: usize)
    ensures
        final(s)@ == old(s)@ + incompatible_length_message(len as nat),
{
    s.append("'bytes' length (");
    push_decimal(s, len as u64);
    s.append(") is incompatible with storage (max data ");
    push_decimal(s, SOLANA_ADDRESS_MAX_CHARS as u64);
    s.append(" chars, buffer ");
    push_decimal(s, SOLANA_ADDRESS_BUFFER_LEN as u64);
    s.append(")");
    assert(s@ =~= old(s)@ + incompatible_length_message(len as nat));
}

impl SolanaAddressError {
    /// The human-readable message of the error.
    pub fn message(&self) -> (res: String)
        ensures
            res@ == error_message(*self),
    {
        let mut s = String::new();
        match *self {
            SolanaAddressError::EmptyBytes => {
                s.append("the 'bytes' slice `&[u8]` was empty");
            },
            SolanaAddressError::InvalidChar { index } => {
                s.append("'bytes' contains non-Base58 characters (at index ");
                push_decimal(&mut s, index as u64);
                s.append(")");
            },
            SolanaAddressError::EffectivelyEmpty => {
                s.append("'bytes' is effectively empty or contains only null bytes");
            },
            SolanaAddressError::DataTooLong { effective_len, len } => {
                s.append("'bytes' effective data length (");
                push_decimal(&mut s, effective_len as u64);
                s.append(") exceeds max chars (");
                push_decimal(&mut s, SOLANA_ADDRESS_MAX_CHARS as u64);
                s.append("); ");
                push_incompatible_length_message(&mut s, len);
            },
            SolanaAddressError::IncompatibleLength { len } => {
                push_incompatible_length_message(&mut s, len);
            },
        }
        assert(s@ =~= error_message(*self));
        s
    }
}

/// A valid Solana address.
#[derive(Clone, Copy, Debug, Hash, PartialEq, Eq, Ord)]
pub struct SolanaAddress {
    value: [u8; SOLANA_ADDRESS_BUFFER_LEN],
}

impl View for SolanaAddress {
    type V = Seq<u8>;

    /// The data bytes of the address: those before the first NUL of its buffer.
    closed spec fn view(&self) -> Seq<u8> {
        self.value@.subrange(0, effective_len(self.value@) as int)
    }
}

impl SolanaAddress {
    /// The buffer holds valid data followed by NUL bytes only. Every address
    /// value satisfies it (`use_type_invariant` gives it for any address at hand).
    #[verifier::type_invariant]
    pub closed spec fn well_formed(self) -> bool {
        &&& valid_address_data(self@)
        &&& self.value@ == address_buffer(self@)
    }

    /// Two addresses with the same characters are the same address.
    pub proof fn lemma_eq_from_data(a: SolanaAddress, b: SolanaAddress)
        requires
            a.well_formed(),
            b.well_formed(),
            a@ == b@,
        ensures
            a == b,
    {
        assert(a.value@ == b.value@);
        assert(a.value =~= b.value);
    }
}

/// `nul_index_from(b, i)` is the first NUL at or after `i`.
pub proof fn lemma_nul_index_from(b: Seq<u8>, i: nat)
    requires
        i <= b.len(),
    ensures
        i <= nul_index_from(b, i) <= b.len(),
        forall|j: int| i <= j < nul_index_from(b, i) ==> b[j] != 0,
        nul_index_from(b, i) < b.len() ==> b[nul_index_from(b, i) as int] == 0,
    decreases b.len() - i,
{
    if i < b.len() && b[i as int] != 0 {
        lemma_nul_index_from(b, i + 1);
    }
}

/// The first NUL of `b` is at `i` (or there is none and `i == b.len()`).
pub proof fn lemma_effective_len_at(b: Seq<u8>, i: int)
    requires
        0 <= i <= b.len(),
        forall|j: int| 0 <= j < i ==> b[j] != 0,
        i == b.len() || b[i] == 0,
    ensures
        effective_len(b) == i,
{
    lemma_nul_index_from(b, 0);
    let e = effective_len(b) as int;
    if e < i {
        assert(b[e] != 0);
    } else if e > i {
        assert(b[i] != 0);
    }
}

/// The data part of `b` lies before its first NUL.
pub proof fn lemma_effective_len(b: Seq<u8>)
    ensures
        effective_len(b) <= b.len(),
        forall|j: int| 0 <= j < effective_len(b) ==> b[j] != 0,
        effective_len(b) < b.len() ==> b[effective_len(b) as int] == 0,
{
    lemma_nul_index_from(b, 0);
}

/// The index of the first NUL byte of `bytes` (its length when there is none).
fn first_nul(bytes: &[u8]) -> (res: usize)
    ensures
        res == effective_len(bytes@),
{
    let mut i: usize = 0;
    while i < bytes.len() && bytes[i] != 0
        invariant
            0 <= i <= bytes@.len(),
            forall|j: int| 0 <= j < i ==> bytes@[j] != 0,
        decreases bytes@.len() - i,
    {
        i = i + 1;
    }
    proof {
        lemma_effective_len_at(bytes@, i as int);
    }
    i
}

/// Whether a non-NUL byte follows the first NUL byte of `bytes`, found at `eff`.
fn data_after_nul(bytes: &[u8], eff: usize) -> (res: bool)
    requires
        eff == effective_len(bytes@),
    ensures
        res == has_data_after_nul(bytes@),
{
    proof {
        lemma_effective_len(bytes@);
    }
    if eff >= bytes.len() {
        return false;
    }
    let mut j: usize = eff + 1;
    while j < bytes.len()
        invariant
            eff < j,
            eff == effective_len(bytes@),
            forall|k: int| eff < k < j && k < bytes@.len() ==> bytes@[k] == 0,
        decreases bytes@.len() - j,
    {
        if bytes[j] != 0 {
            return true;
        }
        j = j + 1;
    }
    false
}

impl SolanaAddress {
    /// Creates an address from a byte slice, which may be NUL-terminated. Only the
    /// data part, the bytes before the first NUL, is checked: it must be 1 to 44
    /// Base58 characters; and the slice must fit the 45-byte buffer: at most 44
    /// bytes, or 45 ending with a NUL. The address keeps the data only (its buffer
    /// is the data followed by NULs). Data longer than 44 characters never fits the
    /// buffer, and its error says both.
    pub fn from_bytes(bytes: &[u8]) -> (res: Result<Self, SolanaAddressError>)
        ensures
            match parse_address(bytes@) {
                Ok(d) => res matches Ok(a) && a@ == d,
                Err(e) => res == Err::<Self, SolanaAddressError>(e),
            },
    {
        let len = bytes.len();
        if len == 0 {
            return Err(SolanaAddressError::EmptyBytes);
        }
        let ghost b = bytes@;
        let mut i: usize = 0;
        while i < len && bytes[i] != 0
            invariant
                0 <= i <= len,
                effective_len(b) == nul_index_from(b, i as nat),
                len == b.len(),
                b == bytes@,
                forall|j: int| 0 <= j < i ==> b[j] != 0 && is_base58(b[j]),
            decreases len - i,
        {
            if !is_valid_base58_char(bytes[i]) {
                proof {
                    lemma_effective_len(b);
                    if effective_len(b) <= i {
                        assert(b[effective_len(b) as int] != 0);
                    }
                    let w = i as int;
                    assert(0 <= w < effective_len(b) && !is_base58(b[w]) && forall|j: int|
                        0 <= j < w ==> is_base58(b[j]));
                    let c = first_invalid_data_char(b) as int;
                    if c < w {
                        assert(is_base58(b[c]));
                    } else if c > w {
                        assert(is_base58(b[w]));
                    }
                }
                return Err(SolanaAddressError::InvalidChar { index: i });
            }
            i = i + 1;
        }
        let eff = i;
        proof {
            lemma_effective_len_at(b, eff as int);
            assert(!has_invalid_data_char(b));
        }
        if eff == 0 {
            return Err(SolanaAddressError::EffectivelyEmpty);
        }
        if eff > SOLANA_ADDRESS_MAX_CHARS {
            return Err(SolanaAddressError::DataTooLong { effective_len: eff, len });
        }
        if !(len <= SOLANA_ADDRESS_MAX_CHARS || (len == SOLANA_ADDRESS_BUFFER_LEN && bytes[len
            - 1] == 0)) {
            return Err(SolanaAddressError::IncompatibleLength { len });
        }
        let ghost d = b.subrange(0, eff as int);
        let mut buf = [0u8; SOLANA_ADDRESS_BUFFER_LEN];
        let mut k: usize = 0;
        while k < eff
            invariant
                0 <= k <= eff <= SOLANA_ADDRESS_MAX_CHARS,
                eff <= len == b.len(),
                b == bytes@,
                d == b.subrange(0, eff as int),
                forall|m: int| 0 <= m < k ==> buf@[m] == b[m],
                forall|m: int| k <= m < SOLANA_ADDRESS_BUFFER_LEN ==> buf@[m] == 0,
            decreases eff - k,
        {
            buf[k] = bytes[k];
            k = k + 1;
        }
        proof {
            assert(buf@ =~= address_buffer(d));
            assert forall|m: int| 0 <= m < eff implies buf@[m] != 0 by {
                assert(is_base58(b[m]));
            }
            lemma_effective_len_at(buf@, eff as int);
            assert(buf@.subrange(0, eff as int) =~= d);
        }
        let a = SolanaAddress { value: buf };
        Ok(a)
    }
}

/// Calls `std::str::from_utf8` on ASCII bytes. Its documentation says that it
/// returns `Ok` with a string slice of those same bytes when they are valid UTF-8,
/// which ASCII bytes are; the claim here is that the returned slice holds exactly
/// `bytes`.
#[verifier::external_body]
fn ascii_bytes_as_str(bytes: &[u8]) -> (res: &str)
    requires
        forall|i: int| 0 <= i < bytes@.len() ==> bytes@[i] < 128,
    ensures
        res.spec_bytes() == bytes@,
{
    std::str::from_utf8(bytes).unwrap()
}

/// The characters of ASCII bytes encode back to those bytes.
proof fn lemma_ascii_chars_encode(d: Seq<u8>)
    requires
        forall|i: int| 0 <= i < d.len() ==> d[i] < 128,
    ensures
        is_ascii_chars(ascii_chars(d)),
        encode_utf8(ascii_chars(d)) == d,
{
    let c = ascii_chars(d);
    assert forall|i: int| 0 <= i < c.len() implies '\0' <= #[trigger] c[i] <= '\u{7f}' by {
        let b = d[i];
        assert(c[i] == b as char);
        assert((b as char) as u32 == b as u32);
    }
    assert(is_ascii_chars(c));
    is_ascii_chars_encode_utf8(c);
    assert forall|i: int| 0 <= i < d.len() implies encode_utf8(c)[i] == d[i] by {
        let b = d[i];
        assert(c[i] as u8 == encode_utf8(c)[i]);
        assert((b as char) as u8 == b);
    }
    assert(encode_utf8(c) =~= d);
}

impl SolanaAddress {
    /// Creates an address from a string, with the checks of `from_bytes` on its
    /// UTF-8 bytes; in a string, a NUL byte may only be followed by NUL bytes.
    pub fn new_checked(value: &str) -> (res: Result<Self, SolanaAddressError>)
        ensures
            match parse_address_str(value.spec_bytes()) {
                Ok(d) => res matches Ok(a) && a@ == d,
                Err(e) => res == Err::<Self, SolanaAddressError>(e),
            },
    {
        let bytes = value.as_bytes();
        let r = Self::from_bytes(bytes);
        match r {
            Err(SolanaAddressError::EmptyBytes) => r,
            Err(SolanaAddressError::InvalidChar { .. }) => r,
            _ => {
                let eff = first_nul(bytes);
                if data_after_nul(bytes, eff) {
                    Err(SolanaAddressError::InvalidChar { index: eff })
                } else {
                    r
                }
            },
        }
    }

    /// Creates an address from a string that is known to be valid.
    pub fn new(value: &str) -> (res: Self)
        requires
            parse_address_str(value.spec_bytes()) is Ok,
        ensures
            res@ == parse_address_str(value.spec_bytes())->Ok_0,
    {
        Self::new_checked(value).unwrap()
    }

    /// The number of data characters of the address.
    fn data_len(&self) -> (res: usize)
        ensures
            res == self@.len(),
            1 <= res <= SOLANA_ADDRESS_MAX_CHARS,
    {
        proof {
            use_type_invariant(self);
        }
        let ghost d = self@;
        let mut i: usize = 0;
        while i < SOLANA_ADDRESS_BUFFER_LEN && self.value[i] != 0
            invariant
                0 <= i <= d.len(),
                valid_address_data(d),
                self.value@ == address_buffer(d),
            decreases SOLANA_ADDRESS_BUFFER_LEN - i,
        {
            proof {
                if i == d.len() {
                    assert(self.value@[i as int] == 0);
                }
            }
            i = i + 1;
        }
        proof {
            if i < d.len() {
                assert(is_base58(d[i as int]));
                assert(self.value@[i as int] == d[i as int]);
            }
        }
        i
    }

    /// The address as a string slice.
    pub fn as_str(&self) -> (res: &str)
        ensures
            res@ == ascii_chars(self@),
    {
        proof {
            use_type_invariant(self);
        }
        let n = self.data_len();
        let data = slice_subrange(self.value.as_slice(), 0, n);
        assert(data@ =~= self@);
        proof {
            assert forall|i: int| 0 <= i < data@.len() implies data@[i] < 128 by {
                assert(is_base58(self@[i]));
            }
            lemma_ascii_chars_encode(data@);
        }
        let s = ascii_bytes_as_str(data);
        proof {
            encode_utf8_decode_utf8(s@);
            encode_utf8_decode_utf8(ascii_chars(self@));
        }
        s
    }

    /// The address as an owned string (its `Display` form).
    pub fn to_string(&self) -> (res: String)
        ensures
            res@ == ascii_chars(self@),
    {
        self.as_str().to_owned()
    }

    /// The `Debug` form of the address: `SolanaAddress('<address>')`.
    pub fn debug_string(&self) -> (res: String)
        ensures
            res@ == "SolanaAddress('"@ + ascii_chars(self@) + "')"@,
    {
        let mut s = String::new();
        s.append("SolanaAddress('");
        s.append(self.as_str());
        s.append("')");
        assert(s@ =~= "SolanaAddress('"@ + ascii_chars(self@) + "')"@);
        s
    }

    /// The 45-byte buffer of the address: its data followed by NUL bytes.
    pub fn buffer(&self) -> (res: &[u8; SOLANA_ADDRESS_BUFFER_LEN])
        ensures
            res@ == address_buffer(self@),
    {
        proof {
            use_type_invariant(self);
        }
        &self.value
    }
}

/// Every address that parsing yields is valid: 1 to 44 Base58 characters.
pub proof fn lemma_parse_yields_valid(b: Seq<u8>)
    ensures
        parse_address(b) matches Ok(d) ==> valid_address_data(d),
{
    lemma_effective_len(b);
    if parse_address(b) is Ok {
        let d = parse_address(b)->Ok_0;
        assert forall|i: int| 0 <= i < d.len() implies is_base58(#[trigger] d[i]) by {
            assert(d[i] == b[i]);
        }
    }
}

/// A valid address reads back from its characters, from its characters followed
/// by a NUL terminator, and from its whole NUL-padded buffer.
pub proof fn lemma_parse_round_trip(d: Seq<u8>)
    requires
        valid_address_data(d),
    ensures
        parse_address(d) == Ok::<Seq<u8>, SolanaAddressError>(d),
        parse_address(encode_utf8(ascii_chars(d))) == Ok::<Seq<u8>, SolanaAddressError>(d),
        parse_address_str(encode_utf8(ascii_chars(d))) == Ok::<Seq<u8>, SolanaAddressError>(d),
        parse_address_str(d.push(0)) == Ok::<Seq<u8>, SolanaAddressError>(d),
        parse_address(d.push(0)) == Ok::<Seq<u8>, SolanaAddressError>(d),
        parse_address(address_buffer(d)) == Ok::<Seq<u8>, SolanaAddressError>(d),
{
    assert forall|j: int| 0 <= j < d.len() implies d[j] != 0 by {
        assert(is_base58(d[j]));
    }
    assert forall|j: int| 0 <= j < d.len() implies d[j] < 128 by {
        assert(is_base58(d[j]));
    }
    lemma_ascii_chars_encode(d);
    lemma_effective_len_at(d, d.len() as int);
    assert(d.subrange(0, d.len() as int) =~= d);
    let p = d.push(0);
    assert forall|j: int| 0 <= j < d.len() implies p[j] != 0 && is_base58(p[j]) by {
        assert(p[j] == d[j]);
        assert(is_base58(d[j]));
    }
    lemma_effective_len_at(p, d.len() as int);
    assert(p.subrange(0, d.len() as int) =~= d);
    let buf = address_buffer(d);
    assert forall|j: int| 0 <= j < d.len() implies buf[j] != 0 && is_base58(buf[j]) by {
        assert(buf[j] == d[j]);
        assert(is_base58(d[j]));
    }
    lemma_effective_len_at(buf, d.len() as int);
    assert(buf.subrange(0, d.len() as int) =~= d);
    assert(!has_invalid_data_char(d));
    assert(!has_invalid_data_char(p));
    assert(!has_invalid_data_char(buf));
}

/// Two valid addresses have the same buffer exactly when they have the same data,
/// so an address is determined by its characters.
pub proof fn lemma_buffer_determined_by_data(d1: Seq<u8>, d2: Seq<u8>)
    requires
        valid_address_data(d1),
        valid_address_data(d2),
    ensures
        (address_buffer(d1) == address_buffer(d2)) == (d1 == d2),
{
    if address_buffer(d1) == address_buffer(d2) {
        let b = address_buffer(d1);
        assert forall|j: int| 0 <= j < d1.len() implies b[j] != 0 by {
            assert(b[j] == d1[j]);
            assert(is_base58(d1[j]));
        }
        lemma_effective_len_at(b, d1.len() as int);
        let b2 = address_buffer(d2);
        assert forall|j: int| 0 <= j < d2.len() implies b2[j] != 0 by {
            assert(b2[j] == d2[j]);
            assert(is_base58(d2[j]));
        }
        lemma_effective_len_at(b2, d2.len() as int);
        assert(d1 =~= b.subrange(0, d1.len() as int));
        assert(d2 =~= b2.subrange(0, d2.len() as int));
    }
}

/// `a` and `b` agree before index `i`, where `a` ends while `b` goes on, or both
/// go on and `a` has the smaller byte.
pub open spec fn lex_less_at(a: Seq<u8>, b: Seq<u8>, i: int) -> bool {
    &&& 0 <= i <= a.len()
    &&& i <= b.len()
    &&& forall|j: int| 0 <= j < i ==> a[j] == b[j]
    &&& (i == a.len() && i < b.len()) || (i < a.len() && i < b.len() && a[i] < b[i])
}

/// `a` comes before `b` in lexicographic byte order.
pub open spec fn lex_less(a: Seq<u8>, b: Seq<u8>) -> bool {
    exists|i: int| #[trigger] lex_less_at(a, b, i)
}

/// The first index where two buffers differ, if any.
fn first_difference(
    a: &[u8; SOLANA_ADDRESS_BUFFER_LEN],
    b: &[u8; SOLANA_ADDRESS_BUFFER_LEN],
) -> (res: Option<usize>)
    ensures
        match res {
            Some(i) => i < SOLANA_ADDRESS_BUFFER_LEN && a@[i as int] != b@[i as int] && forall|
                j: int,
            | 0 <= j < i ==> a@[j] == b@[j],
            None => a@ == b@,
        },
{
    let mut i: usize = 0;
    while i < SOLANA_ADDRESS_BUFFER_LEN
        invariant
            0 <= i <= SOLANA_ADDRESS_BUFFER_LEN,
            forall|j: int| 0 <= j < i ==> a@[j] == b@[j],
        decreases SOLANA_ADDRESS_BUFFER_LEN - i,
    {
        if a[i] != b[i] {
            return Some(i);
        }
        i = i + 1;
    }
    assert(a@ =~= b@);
    None
}

/// When the buffers of two valid addresses first differ at `i`, with the smaller
/// byte in the first, the first address's data comes strictly first.
proof fn lemma_buffer_difference(d1: Seq<u8>, d2: Seq<u8>, n: usize)
    requires
        valid_address_data(d1),
        valid_address_data(d2),
        n < SOLANA_ADDRESS_BUFFER_LEN,
        forall|j: int| 0 <= j < n ==> address_buffer(d1)[j] == address_buffer(d2)[j],
        address_buffer(d1)[n as int] < address_buffer(d2)[n as int],
    ensures
        d1 != d2,
        lex_less(d1, d2),
        !lex_less(d2, d1),
{
    let i = n as int;
    let b1 = address_buffer(d1);
    let b2 = address_buffer(d2);
    if i < d1.len() {
        assert(is_base58(d1[i]));
    }
    if i >= d2.len() {
        assert(b2[i] == 0);
    }
    assert(i < d2.len());
    if i > d1.len() {
        let l = d1.len() as int;
        assert(b1[l] == 0);
        assert(b2[l] == b1[l]);
        assert(b2[l] == d2[l]);
        assert(is_base58(d2[l]));
    }
    assert(i <= d1.len());
    assert forall|j: int| 0 <= j < i implies d1[j] == d2[j] by {
        assert(b1[j] == d1[j]);
        assert(b2[j] == d2[j]);
    }
    assert(lex_less_at(d1, d2, i));
    if lex_less(d2, d1) {
        let k = choose|k: int| #[trigger] lex_less_at(d2, d1, k);
        if k < i {
            assert(d2[k] == d1[k]);
        } else if k > i {
            assert(d2[i] == d1[i]);
            assert(b1[i] == d1[i]);
            assert(b2[i] == d2[i]);
        } else {
            assert(b1[i] == d1[i]);
            assert(b2[i] == d2[i]);
        }
    }
    if d1 == d2 {
        assert(b1[i] == b2[i]);
    }
}

impl PartialOrd for SolanaAddress {
    fn partial_cmp(&self, other: &Self) -> (res: Option<Ordering>) {
        proof {
            use_type_invariant(self);
            use_type_invariant(other);
        }
        match first_difference(&self.value, &other.value) {
            None => {
                proof {
                    lemma_buffer_determined_by_data(self@, other@);
                }
                Some(Ordering::Equal)
            },
            Some(i) => {
                if self.value[i] < other.value[i] {
                    proof {
                        lemma_buffer_difference(self@, other@, i);
                    }
                    Some(Ordering::Less)
                } else {
                    proof {
                        lemma_buffer_difference(other@, self@, i);
                    }
                    Some(Ordering::Greater)
                }
            },
        }
    }
}

impl PartialOrdSpecImpl for SolanaAddress {
    open spec fn obeys_partial_cmp_spec() -> bool {
        true
    }

    /// Addresses are ordered as their characters are, lexicographically.
    open spec fn partial_cmp_spec(&self, other: &Self) -> Option<Ordering> {
        if self@ == other@ {
            Some(Ordering::Equal)
        } else if lex_less(self@, other@) {
            Some(Ordering::Less)
        } else {
            Some(Ordering::Greater)
        }
    }
}

} // verus!
