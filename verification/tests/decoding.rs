use mpt_trace::bignat::is_binary_text;
use mpt_trace::hash::HexDecodeError;
use mpt_trace::record::decode_hash_field;
use mpt_trace::record::decode_number_field;
use mpt_trace::record::decode_rows;
use mpt_trace::BigNat;
use mpt_trace::HashType;
use mpt_trace::Row;
use mpt_trace::RowDe;
use mpt_trace::RowDeError;
use std::cmp::Ordering;

const ZEROS: &str = "0000000000000000000000000000000000000000000000000000000000000000";
const COUNT_UP: &str = "000102030405060708090a0b0c0d0e0f101112131415161718191a1b1c1d1e1f";
const MIXED_CASE: &str = "000102030405060708090A0b0C0d0E0f101112131415161718191a1B1c1D1e1F";

fn count_up() -> mpt_trace::Hash {
    let mut bytes = [0u8; 32];
    for (i, byte) in bytes.iter_mut().enumerate() {
        *byte = i as u8;
    }
    mpt_trace::Hash::new(bytes)
}

fn written_row() -> RowDe {
    RowDe {
        is_first: true,
        sib: COUNT_UP.to_string(),
        depth: 3,
        path: "1".to_string(),
        path_acc: "1011".to_string(),
        old_hash_type: HashType::LeafExt,
        old_hash: ZEROS.to_string(),
        old_value: COUNT_UP.to_string(),
        new_hash_type: HashType::Middle,
        new_hash: MIXED_CASE.to_string(),
        new_value: ZEROS.to_string(),
        key: COUNT_UP.to_string(),
        new_root: ZEROS.to_string(),
    }
}

#[test]
fn hash_hex_is_lower_case_two_digits_per_byte() {
    assert_eq!(count_up().hex(), COUNT_UP);
    assert_eq!(mpt_trace::Hash::zero().hex(), ZEROS);
    assert_eq!(
        mpt_trace::Hash::new([0xf9; 32]).hex(),
        "f9f9f9f9f9f9f9f9f9f9f9f9f9f9f9f9f9f9f9f9f9f9f9f9f9f9f9f9f9f9f9f9"
    );
}

#[test]
fn hash_is_shown_with_prefix() {
    assert_eq!(count_up().to_string(), format!("0x{}", COUNT_UP));
}

#[test]
fn hash_decodes_from_either_case() {
    assert_eq!(mpt_trace::Hash::try_from(COUNT_UP), Ok(count_up()));
    assert_eq!(mpt_trace::Hash::try_from(MIXED_CASE), Ok(count_up()));
    assert_eq!(
        mpt_trace::Hash::try_from(ZEROS),
        Ok(mpt_trace::Hash::zero())
    );
}

#[test]
fn hash_round_trip() {
    let hash = mpt_trace::Hash::new([0xc3; 32]);
    assert_eq!(mpt_trace::Hash::try_from(hash.hex().as_str()), Ok(hash));
    assert_eq!(
        mpt_trace::Hash::try_from(count_up().hex().as_str()),
        Ok(count_up())
    );
}

#[test]
fn hash_decode_agrees_with_hex_crate() {
    let mut expected = [0u8; 32];
    hex::decode_to_slice(MIXED_CASE, &mut expected).unwrap();
    let decoded = mpt_trace::Hash::try_from(MIXED_CASE).unwrap();
    assert_eq!(decoded.as_bytes(), &expected[..]);
}

#[test]
fn hex_of_odd_length_is_refused() {
    assert_eq!(
        mpt_trace::Hash::try_from("123"),
        Err(HexDecodeError::OddLength)
    );
    assert_eq!(
        mpt_trace::Hash::try_from(&COUNT_UP[..63]),
        Err(HexDecodeError::OddLength)
    );
    assert_eq!(
        mpt_trace::Hash::try_from("zzz"),
        Err(HexDecodeError::OddLength)
    );
}

#[test]
fn hex_of_wrong_length_is_refused() {
    assert_eq!(
        mpt_trace::Hash::try_from(""),
        Err(HexDecodeError::InvalidStringLength)
    );
    assert_eq!(
        mpt_trace::Hash::try_from(&COUNT_UP[..62]),
        Err(HexDecodeError::InvalidStringLength)
    );
    let long = format!("{}00", COUNT_UP);
    assert_eq!(
        mpt_trace::Hash::try_from(long.as_str()),
        Err(HexDecodeError::InvalidStringLength)
    );
    let prefixed = format!("0x{}", COUNT_UP);
    assert_eq!(
        mpt_trace::Hash::try_from(prefixed.as_str()),
        Err(HexDecodeError::InvalidStringLength)
    );
}

#[test]
fn hex_with_a_foreign_character_is_refused_at_the_first_one() {
    let mut text = COUNT_UP.to_string();
    text.replace_range(10..11, "g");
    text.replace_range(40..41, "-");
    assert_eq!(
        mpt_trace::Hash::try_from(text.as_str()),
        Err(HexDecodeError::InvalidHexCharacter { c: 'g', index: 10 })
    );
    let mut text = COUNT_UP.to_string();
    text.replace_range(63..64, " ");
    assert_eq!(
        mpt_trace::Hash::try_from(text.as_str()),
        Err(HexDecodeError::InvalidHexCharacter { c: ' ', index: 63 })
    );
}

#[test]
fn hex_with_a_wide_character_is_refused() {
    let mut text = COUNT_UP.to_string();
    text.replace_range(0..2, "é");
    assert_eq!(text.len(), 64);
    assert_eq!(
        mpt_trace::Hash::try_from(text.as_str()),
        Err(HexDecodeError::InvalidHexCharacter { c: '\u{c3}', index: 0 })
    );
    let mut text = COUNT_UP.to_string();
    text.replace_range(0..1, "é");
    assert_eq!(text.chars().count(), 64);
    assert_eq!(
        mpt_trace::Hash::try_from(text.as_str()),
        Err(HexDecodeError::OddLength)
    );
}

#[test]
fn hash_accessors() {
    let mut hash = count_up();
    assert_eq!(hash.as_ref()[31], 31);
    assert_eq!(hash.as_bytes().len(), 32);
    hash.as_mut()[0] = 0xaa;
    assert_eq!(hash.as_ref()[0], 0xaa);
    assert_eq!(mpt_trace::Hash::default(), mpt_trace::Hash::zero());
    assert_eq!(mpt_trace::Hash::zero().as_ref(), &[0u8; 32]);
    assert_ne!(hash, count_up());
    assert!(mpt_trace::Hash::zero() < count_up());
}

#[test]
fn binary_digits_are_read_most_significant_first() {
    assert_eq!(BigNat::parse_binary(b"0"), Some(BigNat::from_bytes_le(&[0])));
    assert_eq!(BigNat::parse_binary(b"1"), Some(BigNat::from_bytes_le(&[1])));
    assert_eq!(BigNat::parse_binary(b"1011"), Some(BigNat::from_bytes_le(&[11])));
    assert_eq!(
        BigNat::parse_binary(b"100000001"),
        Some(BigNat::from_bytes_le(&[1, 1]))
    );
    assert_eq!(BigNat::parse_binary(b"0001"), Some(BigNat::from_bytes_le(&[1])));
    assert_eq!(BigNat::parse_binary(b"1011").unwrap().to_bytes_le(), vec![11]);
}

#[test]
fn binary_digits_agree_with_num_bigint() {
    let text = "1101000000000000000000000000000000000000000000000000000000000000000000001";
    let ours = BigNat::parse_binary(text.as_bytes()).unwrap();
    let theirs = num_bigint::BigUint::parse_bytes(text.as_bytes(), 2).unwrap();
    assert_eq!(ours.to_bytes_le(), theirs.to_bytes_le());
    assert_eq!(ours.to_binary(), theirs.to_str_radix(2));
    assert_eq!(ours.to_binary(), text);
}

#[test]
fn text_that_is_no_run_of_binary_digits_is_refused() {
    assert_eq!(BigNat::parse_binary(b""), None);
    assert_eq!(BigNat::parse_binary(b"2"), None);
    assert_eq!(BigNat::parse_binary(b"10a1"), None);
    assert_eq!(BigNat::parse_binary(b"+1"), None);
    assert_eq!(BigNat::parse_binary(b"1_0"), None);
    assert_eq!(BigNat::parse_binary(b" 1"), None);
    assert_eq!(BigNat::parse_binary(b"0b1"), None);
    assert_eq!(BigNat::parse_binary("１".as_bytes()), None);
    assert!(is_binary_text(b"0110"));
    assert!(!is_binary_text(b""));
    assert!(!is_binary_text(b"01 "));
}

#[test]
fn numbers_have_one_spelling() {
    let short = BigNat::from_bytes_le(&[7]);
    let padded = BigNat::from_bytes_le(&[7, 0, 0, 0]);
    assert_eq!(short, padded);
    assert_eq!(padded.to_bytes_le(), vec![7]);
    assert_eq!(BigNat::from_bytes_le(&[]).to_bytes_le(), vec![0]);
    assert_eq!(BigNat::from_bytes_le(&[0, 0]).to_bytes_le(), vec![0]);
    assert_eq!(BigNat::from_bytes_le(&[0, 1]).to_bytes_le(), vec![0, 1]);
    assert_ne!(BigNat::from_bytes_le(&[0, 1]), BigNat::from_bytes_le(&[1]));
    assert_eq!(short.clone(), short);
}

#[test]
fn zero_and_one() {
    assert!(BigNat::from_bytes_le(&[]).is_zero());
    assert!(BigNat::from_bytes_le(&[0, 0, 0]).is_zero());
    assert!(!BigNat::from_bytes_le(&[1]).is_zero());
    assert!(BigNat::from_bytes_le(&[1]).is_one());
    assert!(BigNat::from_bytes_le(&[1, 0]).is_one());
    assert!(!BigNat::from_bytes_le(&[0]).is_one());
    assert!(!BigNat::from_bytes_le(&[1, 1]).is_one());
    assert!(!BigNat::from_bytes_le(&[0, 1]).is_zero());
}

#[test]
fn number_in_binary_digits() {
    assert_eq!(BigNat::from_bytes_le(&[]).to_binary(), "0");
    assert_eq!(BigNat::from_bytes_le(&[1]).to_binary(), "1");
    assert_eq!(BigNat::from_bytes_le(&[6]).to_binary(), "110");
    assert_eq!(BigNat::from_bytes_le(&[0, 1]).to_binary(), "100000000");
}

#[test]
fn number_of_a_hash_is_little_endian() {
    let mut bytes = [0u8; 32];
    bytes[0] = 5;
    bytes[2] = 1;
    let number = BigNat::from(mpt_trace::Hash::new(bytes));
    assert_eq!(number.to_bytes_le(), vec![5, 0, 1]);
    assert_eq!(number.to_binary(), "10000000000000101");
    assert!(BigNat::from(mpt_trace::Hash::zero()).is_zero());
}

#[test]
fn role_tokens() {
    assert_eq!(HashType::Empty.token(), "empty");
    assert_eq!(HashType::Middle.token(), "middle");
    assert_eq!(HashType::LeafExt.token(), "leafExt");
    assert_eq!(HashType::LeafExtFinal.token(), "leafExtFinal");
    assert_eq!(HashType::Leaf.token(), "leaf");
    for role in [
        HashType::Empty,
        HashType::Middle,
        HashType::LeafExt,
        HashType::LeafExtFinal,
        HashType::Leaf,
    ] {
        assert_eq!(HashType::from_token(role.token()), Some(role));
    }
    assert_eq!(HashType::from_token("Leaf"), None);
    assert_eq!(HashType::from_token("leaf_ext"), None);
    assert_eq!(HashType::from_token("leafExtFinal "), None);
    assert_eq!(HashType::from_token(""), None);
}

#[test]
fn fields_decode() {
    assert_eq!(decode_hash_field(COUNT_UP), Ok(count_up()));
    assert_eq!(
        decode_hash_field("abc"),
        Err(RowDeError::Hex(HexDecodeError::OddLength))
    );
    assert_eq!(decode_number_field("101"), Ok(BigNat::from_bytes_le(&[5])));
    assert_eq!(decode_number_field(""), Err(RowDeError::BigInt));
    assert_eq!(decode_number_field("12"), Err(RowDeError::BigInt));
    assert_eq!(
        RowDeError::from(HexDecodeError::InvalidStringLength),
        RowDeError::Hex(HexDecodeError::InvalidStringLength)
    );
}

#[test]
fn written_row_decodes_field_by_field() {
    let row = Row::try_from(&written_row()).unwrap();
    assert!(row.is_first);
    assert_eq!(row.sib, count_up());
    assert_eq!(row.depth, 3);
    assert_eq!(row.path, BigNat::from_bytes_le(&[1]));
    assert_eq!(row.path_acc, BigNat::from_bytes_le(&[11]));
    assert_eq!(row.old_hash_type, HashType::LeafExt);
    assert_eq!(row.old_hash, mpt_trace::Hash::zero());
    assert_eq!(row.old_value, count_up());
    assert_eq!(row.new_hash_type, HashType::Middle);
    assert_eq!(row.new_hash, count_up());
    assert_eq!(row.new_value, mpt_trace::Hash::zero());
    assert_eq!(row.key, count_up());
    assert_eq!(row.new_root, mpt_trace::Hash::zero());
}

#[test]
fn first_bad_field_gives_the_error() {
    let mut written = written_row();
    written.path_acc = "x".to_string();
    written.key = "00".to_string();
    assert_eq!(Row::try_from(&written), Err(RowDeError::BigInt));
    written.sib = "0".to_string();
    assert_eq!(
        Row::try_from(&written),
        Err(RowDeError::Hex(HexDecodeError::OddLength))
    );
    let mut written = written_row();
    written.new_root = "00".to_string();
    assert_eq!(
        Row::try_from(&written),
        Err(RowDeError::Hex(HexDecodeError::InvalidStringLength))
    );
    let mut written = written_row();
    written.path = String::new();
    assert_eq!(Row::try_from(&written), Err(RowDeError::BigInt));
}

#[test]
fn decode_is_left_inverse_of_encode() {
    let mut key = [0u8; 32];
    key[31] = 0x80;
    key[0] = 0x01;
    for role in [
        HashType::Empty,
        HashType::Middle,
        HashType::LeafExt,
        HashType::LeafExtFinal,
        HashType::Leaf,
    ] {
        let row = Row {
            is_first: false,
            sib: count_up(),
            depth: 17,
            path: BigNat::from_bytes_le(&[0]),
            path_acc: BigNat::from_bytes_le(&key),
            old_hash_type: role,
            old_hash: mpt_trace::Hash::zero(),
            old_value: mpt_trace::Hash::new([0xfe; 32]),
            new_hash_type: HashType::Leaf,
            new_hash: mpt_trace::Hash::new(key),
            new_value: count_up(),
            key: mpt_trace::Hash::new(key),
            new_root: mpt_trace::Hash::new([0x10; 32]),
        };
        let written = RowDe::encode(&row);
        assert_eq!(written.sib, COUNT_UP);
        assert_eq!(written.path, "0");
        assert_eq!(written.path_acc.len(), 256);
        assert_eq!(written.old_hash_type, role);
        assert_eq!(Row::try_from(&written), Ok(row));
    }
}

#[test]
fn trace_decodes_in_order_and_stops_at_the_first_bad_row() {
    let good = written_row();
    let mut other = written_row();
    other.depth = 4;
    other.is_first = false;
    let rows = decode_rows(&vec![good.clone(), other.clone()]).unwrap();
    assert_eq!(rows.len(), 2);
    assert_eq!(rows[0], Row::try_from(&good).unwrap());
    assert_eq!(rows[1].depth, 4);
    let mut bad_number = written_row();
    bad_number.path = "+1".to_string();
    let mut bad_hash = written_row();
    bad_hash.key = "00".to_string();
    assert_eq!(
        decode_rows(&vec![good.clone(), bad_number.clone(), bad_hash.clone()]),
        Err(RowDeError::BigInt)
    );
    assert_eq!(
        decode_rows(&vec![bad_hash, good, bad_number]),
        Err(RowDeError::Hex(HexDecodeError::InvalidStringLength))
    );
    assert_eq!(decode_rows(&Vec::new()), Ok(Vec::new()));
}

#[test]
fn hashes_are_ordered_byte_by_byte() {
    let low = mpt_trace::Hash::new([1; 32]);
    let mut bytes = [1u8; 32];
    bytes[31] = 2;
    let last_differs = mpt_trace::Hash::new(bytes);
    let mut bytes = [0u8; 32];
    bytes[0] = 2;
    let first_differs = mpt_trace::Hash::new(bytes);
    assert_eq!(low.partial_cmp(&low), Some(Ordering::Equal));
    assert_eq!(low.partial_cmp(&last_differs), Some(Ordering::Less));
    assert_eq!(last_differs.partial_cmp(&low), Some(Ordering::Greater));
    assert_eq!(first_differs.partial_cmp(&last_differs), Some(Ordering::Greater));
    assert!(low < last_differs);
    assert!(last_differs < first_differs);
    assert!(mpt_trace::Hash::zero() <= low);
    for (a, b) in [(low, last_differs), (first_differs, low), (low, low)] {
        assert_eq!(a.partial_cmp(&b), Some(a.cmp(&b)));
        assert_eq!(a.cmp(&b), a.as_ref().cmp(b.as_ref()));
    }
}
