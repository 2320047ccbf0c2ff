use nautilus_mint::solana_address::{
    is_valid_base58_char, SolanaAddress, SolanaAddressError, SOLANA_ADDRESS_BUFFER_LEN,
    SOLANA_ADDRESS_MAX_CHARS,
};

const VALID_ADDR_S1: &str = "So11111111111111111111111111111111111111112";
const VALID_ADDR_S2: &str = "metaqbxxUerdq28cj1RbAWkYQm3ybzjb6a8bt518x1s";
const VALID_ADDR_S3: &str = "Vote111111111111111111111111111111111111111";
const VALID_ADDR_SHORT: &str = "12345";

#[test]
fn test_new_checked_valid() {
    for val in [VALID_ADDR_S1, VALID_ADDR_S2, VALID_ADDR_S3, VALID_ADDR_SHORT] {
        let addr = SolanaAddress::new_checked(val);
        assert!(addr.is_ok());
        assert_eq!(addr.unwrap().as_str(), val);
    }
}

#[test]
fn test_new_valid() {
    for val in [VALID_ADDR_S1, VALID_ADDR_S2, VALID_ADDR_S3, VALID_ADDR_SHORT] {
        let addr = SolanaAddress::new(val);
        assert_eq!(addr.as_str(), val);
    }
}

#[test]
fn test_new_checked_empty_string() {
    assert!(SolanaAddress::new_checked("").is_err());
}

#[test]
fn test_empty_string_error_message() {
    let err = SolanaAddress::new_checked("").unwrap_err();
    assert_eq!(err, SolanaAddressError::EmptyBytes);
    assert_eq!(err.message(), "the 'bytes' slice `&[u8]` was empty");
}

#[test]
fn test_new_checked_effectively_empty_null_byte() {
    let err = SolanaAddress::new_checked("\0").unwrap_err();
    assert!(err
        .message()
        .contains("'bytes' is effectively empty or contains only null bytes"));
}

#[test]
fn test_new_checked_invalid_chars() {
    let cases = [
        ("12345!", "non-Base58 characters (at index 5)"),
        ("123\0ABC", "non-Base58 characters (at index 3)"),
        ("Test_Addr", "non-Base58 characters (at index 4)"),
    ];
    for (val, expected_err_msg) in cases {
        let result = SolanaAddress::new_checked(val);
        assert!(result.is_err());
        assert!(
            result.unwrap_err().message().contains(expected_err_msg),
            "Error message mismatch for input: {}",
            val
        );
    }
}

#[test]
fn test_invalid_char_error_values() {
    assert_eq!(
        SolanaAddress::new_checked("12345!").unwrap_err(),
        SolanaAddressError::InvalidChar { index: 5 }
    );
    assert_eq!(
        SolanaAddress::new_checked("0abc").unwrap_err(),
        SolanaAddressError::InvalidChar { index: 0 }
    );
    assert_eq!(
        SolanaAddress::new_checked("\0A").unwrap_err(),
        SolanaAddressError::InvalidChar { index: 0 }
    );
}

#[test]
fn test_from_bytes_reads_only_before_first_nul() {
    let addr = SolanaAddress::from_bytes(b"123\0ABC").unwrap();
    assert_eq!(addr.as_str(), "123");
    assert_eq!(addr, SolanaAddress::new("123"));
    assert_eq!(
        SolanaAddress::from_bytes(b"\0A").unwrap_err(),
        SolanaAddressError::EffectivelyEmpty
    );
    assert_eq!(
        SolanaAddress::from_bytes(b"12!\0").unwrap_err(),
        SolanaAddressError::InvalidChar { index: 2 }
    );
}

#[test]
fn test_new_checked_too_long() {
    let too_long_str = "1".repeat(SOLANA_ADDRESS_MAX_CHARS + 1);
    let result = SolanaAddress::new_checked(&too_long_str);
    assert!(result.is_err());
    assert!(result.unwrap_err().message().contains(&format!(
        "'bytes' effective data length ({}) exceeds max chars ({})",
        SOLANA_ADDRESS_MAX_CHARS + 1,
        SOLANA_ADDRESS_MAX_CHARS
    )));
}

#[test]
fn test_from_bytes_valid_with_null_terminator() {
    let bytes_with_null = format!("{}\0", VALID_ADDR_SHORT).into_bytes();
    let addr = SolanaAddress::from_bytes(&bytes_with_null).unwrap();
    assert_eq!(addr.as_str(), VALID_ADDR_SHORT);
}

#[test]
fn test_from_bytes_max_len_data_with_null_terminator() {
    let mut val = "1".repeat(SOLANA_ADDRESS_MAX_CHARS);
    let bytes_val = val.clone().into_bytes();
    let addr1 = SolanaAddress::from_bytes(&bytes_val).unwrap();
    assert_eq!(addr1.as_str(), val);

    val.push('\0');
    let bytes_with_null = val.into_bytes();
    assert_eq!(bytes_with_null.len(), SOLANA_ADDRESS_BUFFER_LEN);
    let addr2 = SolanaAddress::from_bytes(&bytes_with_null).unwrap();
    assert_eq!(addr2.as_str(), "1".repeat(SOLANA_ADDRESS_MAX_CHARS));
}

#[test]
fn test_from_bytes_too_long_no_null_terminator_at_buffer_len() {
    let bytes = "1".repeat(SOLANA_ADDRESS_BUFFER_LEN).into_bytes();
    let result = SolanaAddress::from_bytes(&bytes);
    assert!(result.is_err());
    assert!(result.unwrap_err().message().contains(&format!(
        "'bytes' length ({}) is incompatible with storage",
        SOLANA_ADDRESS_BUFFER_LEN
    )));
}

#[test]
fn test_from_bytes_too_long_overall() {
    let bytes = "1".repeat(SOLANA_ADDRESS_BUFFER_LEN + 1).into_bytes();
    let result = SolanaAddress::from_bytes(&bytes);
    assert!(result.is_err());
    assert!(result.unwrap_err().message().contains(&format!(
        "'bytes' length ({}) is incompatible with storage",
        SOLANA_ADDRESS_BUFFER_LEN + 1
    )));
}

#[test]
fn test_too_long_error_values_and_full_message() {
    let bytes = "1".repeat(SOLANA_ADDRESS_BUFFER_LEN).into_bytes();
    let err = SolanaAddress::from_bytes(&bytes).unwrap_err();
    assert_eq!(err, SolanaAddressError::DataTooLong { effective_len: 45, len: 45 });
    assert_eq!(
        err.message(),
        "'bytes' effective data length (45) exceeds max chars (44); 'bytes' length (45) is incompatible with storage (max data 44 chars, buffer 45)"
    );
}

#[test]
fn test_incompatible_length_with_short_data() {
    // Five characters followed by 41 NUL bytes: the data fits, the slice does not.
    let mut bytes = b"12345".to_vec();
    bytes.extend(std::iter::repeat(0u8).take(41));
    let err = SolanaAddress::from_bytes(&bytes).unwrap_err();
    assert_eq!(err, SolanaAddressError::IncompatibleLength { len: 46 });
    assert_eq!(
        err.message(),
        "'bytes' length (46) is incompatible with storage (max data 44 chars, buffer 45)"
    );
}

#[test]
fn test_nul_padding_accepted() {
    let addr = SolanaAddress::from_bytes(b"12345\0\0\0").unwrap();
    assert_eq!(addr.as_str(), "12345");
    assert_eq!(addr, SolanaAddress::new("12345"));
}

#[test]
fn test_string_reprs() {
    let addr = SolanaAddress::new(VALID_ADDR_S1);
    assert_eq!(addr.as_str(), VALID_ADDR_S1);
    assert_eq!(addr.to_string(), VALID_ADDR_S1);
    assert_eq!(
        addr.debug_string(),
        format!("SolanaAddress('{}')", VALID_ADDR_S1)
    );
}

#[test]
fn test_as_cstr() {
    let addr = SolanaAddress::new(VALID_ADDR_SHORT);
    // The C string is the buffer up to its first NUL byte.
    let buf = addr.buffer();
    let nul = buf.iter().position(|&b| b == 0).unwrap();
    assert_eq!(std::str::from_utf8(&buf[..nul]).unwrap(), VALID_ADDR_SHORT);
}

#[test]
fn test_buffer_is_nul_padded() {
    let addr = SolanaAddress::new(VALID_ADDR_SHORT);
    let buf = addr.buffer();
    assert_eq!(&buf[..5], b"12345");
    assert!(buf[5..].iter().all(|&b| b == 0));
}

#[test]
fn test_equality_and_ordering() {
    let addr1 = SolanaAddress::new(VALID_ADDR_S3);
    let addr2 = SolanaAddress::new(VALID_ADDR_S3);
    let addr3 = SolanaAddress::new(VALID_ADDR_S1);

    assert_eq!(addr1, addr2);
    assert_ne!(addr1, addr3);
    assert!(addr3 < addr1);
}

#[test]
fn test_ordering_is_lexicographic() {
    let a = SolanaAddress::new("123");
    let b = SolanaAddress::new("1234");
    let c = SolanaAddress::new("124");
    assert!(a < b);
    assert!(b < c);
    assert!(a < c);
    assert!(c > a);
    assert_eq!(a.partial_cmp(&SolanaAddress::new("123")), Some(std::cmp::Ordering::Equal));
    assert_eq!(a.cmp(&b), std::cmp::Ordering::Less);
}

#[test]
fn test_round_trip_through_string_and_buffer() {
    for val in [VALID_ADDR_S1, VALID_ADDR_S2, VALID_ADDR_S3, VALID_ADDR_SHORT] {
        let addr = SolanaAddress::new(val);
        assert_eq!(SolanaAddress::new_checked(addr.as_str()), Ok(addr));
        assert_eq!(SolanaAddress::from_bytes(addr.buffer()), Ok(addr));
    }
}

#[test]
fn test_base58_alphabet() {
    let alphabet = b"123456789ABCDEFGHJKLMNPQRSTUVWXYZabcdefghijkmnopqrstuvwxyz";
    let accepted: Vec<u8> = (0u8..=255).filter(|&b| is_valid_base58_char(b)).collect();
    assert_eq!(accepted.len(), 58);
    assert_eq!(accepted, alphabet.to_vec());
}
