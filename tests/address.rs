use hex::FromHex;
use pow_chain::account_address::{AccountAddress, AddressError, TransactionArgument};

#[test]
fn test_short_str_lossless() {
    let hex = Vec::from_hex("00c0f1f95c5b1c5f0eda533eff269000")
        .expect("You must provide a valid Hex format");

    let address: AccountAddress = AccountAddress::try_from(&hex[..]).unwrap_or_else(|_| {
        panic!(
            "The address {:?} is of invalid length. Addresses must be 16-bytes long",
            &hex
        )
    });

    let string_lossless = address.short_str_lossless();

    assert_eq!(
        "c0f1f95c5b1c5f0eda533eff269000".to_string(),
        string_lossless
    );
}

#[test]
fn test_short_str_lossless_zero() {
    let hex = Vec::from_hex("00000000000000000000000000000000")
        .expect("You must provide a valid Hex format");

    let address: AccountAddress = AccountAddress::try_from(&hex[..]).unwrap_or_else(|_| {
        panic!(
            "The address {:?} is of invalid length. Addresses must be 16-bytes long",
            &hex
        )
    });

    let string_lossless = address.short_str_lossless();

    assert_eq!("0".to_string(), string_lossless);
}

#[test]
fn short_str_keeps_inner_zeros() {
    let mut bytes = [0u8; 16];
    bytes[15] = 0x10;
    assert_eq!(AccountAddress::new(bytes).short_str_lossless(), "10");
    bytes[0] = 0xab;
    assert_eq!(
        AccountAddress::new(bytes).short_str_lossless(),
        "ab000000000000000000000000000010"
    );
}

#[test]
fn try_from_needs_sixteen_bytes() {
    assert_eq!(AccountAddress::try_from(&[1u8; 15][..]), Err(AddressError::InvalidLength));
    assert_eq!(AccountAddress::try_from(&[1u8; 17][..]), Err(AddressError::InvalidLength));
    let a = AccountAddress::try_from(&[5u8; 16][..]).unwrap();
    assert_eq!(a.to_vec(), vec![5u8; 16]);
    assert_eq!(a.to_u8(), [5u8; 16]);
}

#[test]
fn hex_literal_is_left_padded() {
    let a = AccountAddress::from_hex_literal("0x1").unwrap();
    let mut expected = [0u8; 16];
    expected[15] = 1;
    assert_eq!(a.to_u8(), expected);
    let b = AccountAddress::from_hex_literal("A0b").unwrap();
    expected[14] = 0x0a;
    expected[15] = 0x0b;
    assert_eq!(b.to_u8(), expected);
    let full = AccountAddress::from_hex_literal("0x00c0f1f95c5b1c5f0eda533eff269000").unwrap();
    assert_eq!(full.short_str_lossless(), "c0f1f95c5b1c5f0eda533eff269000");
}

#[test]
fn hex_literal_errors() {
    assert_eq!(AccountAddress::from_hex_literal("0xg1"), Err(AddressError::InvalidHex));
    assert_eq!(AccountAddress::from_hex_literal("0x1g1"), Err(AddressError::InvalidHex));
    assert_eq!(
        AccountAddress::from_hex_literal("0x100000000000000000000000000000000"),
        Err(AddressError::InvalidLength)
    );
}

#[test]
fn random_addresses_differ() {
    let a = AccountAddress::random();
    let b = AccountAddress::random();
    assert_eq!(a.to_vec().len(), 16);
    assert_ne!(a, b);
}

#[test]
fn transaction_arguments_compare_by_value() {
    let a = TransactionArgument::U8Vector(vec![0xde, 0xad]);
    assert_eq!(a.clone(), a);
    assert_ne!(TransactionArgument::U64(1), TransactionArgument::U128(1));
    assert_eq!(
        TransactionArgument::Address(AccountAddress::new([1; 16])),
        TransactionArgument::Address(AccountAddress::new([1; 16]))
    );
}
