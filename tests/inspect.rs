use deposit_loan::inspect::{BlockAddress, ExtrinsicAddress};

fn hash() -> Vec<u8> {
    vec![
        0x3b, 0xfc, 0x20, 0xf0, 0xb9, 0xaf, 0xca, 0xce, 0x80, 0x0d, 0x73, 0xd2, 0x19, 0x11, 0x66,
        0xff, 0x16, 0x54, 0x02, 0x58,
    ]
}

#[test]
fn should_parse_block_strings() {
    let b0 = BlockAddress::from_str("3BfC20f0B9aFcAcE800D73D2191166FF16540258");
    let b1 = BlockAddress::from_str("1234");
    let b2 = BlockAddress::from_str("0");
    let b3 = BlockAddress::from_str("0x0012345f");

    assert_eq!(b0, Ok(BlockAddress::Hash(hash())));
    assert_eq!(b1, Ok(BlockAddress::Number(1234)));
    assert_eq!(b2, Ok(BlockAddress::Number(0)));
    assert_eq!(b3, Ok(BlockAddress::Bytes(vec![0, 0x12, 0x34, 0x5f])));
}

#[test]
fn should_parse_extrinsic_address() {
    let e0 = ExtrinsicAddress::from_str("1234");
    let b0 = ExtrinsicAddress::from_str("3BfC20f0B9aFcAcE800D73D2191166FF16540258:5");
    let b1 = ExtrinsicAddress::from_str("1234:0");
    let b2 = ExtrinsicAddress::from_str("0 0");
    let b3 = ExtrinsicAddress::from_str("0x0012345f");

    assert_eq!(e0, Err("Extrinsic index missing: example \"5:0\"".to_string()));
    assert_eq!(b0, Ok(ExtrinsicAddress::Block(BlockAddress::Hash(hash()), 5)));
    assert_eq!(b1, Ok(ExtrinsicAddress::Block(BlockAddress::Number(1234), 0)));
    assert_eq!(b2, Ok(ExtrinsicAddress::Block(BlockAddress::Number(0), 0)));
    assert_eq!(b3, Ok(ExtrinsicAddress::Bytes(vec![0, 0x12, 0x34, 0x5f])));
}

#[test]
fn block_number_accepts_plus_sign() {
    assert_eq!(BlockAddress::from_str("+42"), Ok(BlockAddress::Number(42)));
}

#[test]
fn block_number_at_largest_value() {
    assert_eq!(
        BlockAddress::from_str("18446744073709551615"),
        Ok(BlockAddress::Number(u64::MAX))
    );
}

#[test]
fn odd_hex_digits_lead_with_a_single_nibble() {
    assert_eq!(BlockAddress::from_str("0x123"), Ok(BlockAddress::Bytes(vec![0x01, 0x23])));
    assert_eq!(BlockAddress::from_str("0x"), Ok(BlockAddress::Bytes(vec![])));
}

#[test]
fn block_without_prefix_is_refused() {
    assert_eq!(
        BlockAddress::from_str("xyz"),
        Err("Given string does not look like hash or number. It could not be parsed as bytes either: 0x prefix is missing".to_string())
    );
}

#[test]
fn block_with_bad_hex_is_refused() {
    assert_eq!(
        BlockAddress::from_str("0xzz"),
        Err("Given string does not look like hash or number. It could not be parsed as bytes either: invalid hex character".to_string())
    );
}

#[test]
fn extrinsic_index_errors() {
    assert_eq!(
        ExtrinsicAddress::from_str("5:x"),
        Err("Invalid index format: invalid digit found in string".to_string())
    );
    assert_eq!(
        ExtrinsicAddress::from_str("5:"),
        Err("Invalid index format: cannot parse integer from empty string".to_string())
    );
    assert_eq!(
        ExtrinsicAddress::from_str("5.99999999999999999999999"),
        Err("Invalid index format: number too large to fit in target type".to_string())
    );
}

#[test]
fn extrinsic_separators() {
    assert_eq!(
        ExtrinsicAddress::from_str("7.3:1"),
        Ok(ExtrinsicAddress::Block(BlockAddress::Number(7), 3))
    );
}
