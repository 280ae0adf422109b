use radicle_context_cob::{Author, ObjectId, PublicKey, Timestamp};

const ISSUE: &str = "d96f02665bf896324e2f0a4c18d08a768135ef2e";
const ISSUE_BYTES: [u8; 20] = [
    0xd9, 0x6f, 0x02, 0x66, 0x5b, 0xf8, 0x96, 0x32, 0x4e, 0x2f, 0x0a, 0x4c, 0x18, 0xd0, 0x8a, 0x76,
    0x81, 0x35, 0xef, 0x2e,
];

#[test]
fn parses_forty_hex_digits() {
    let id = ObjectId::from_str(ISSUE).unwrap();
    assert_eq!(id.to_bytes(), ISSUE_BYTES);
}

#[test]
fn parses_uppercase_hex_digits() {
    let id = ObjectId::from_str(&ISSUE.to_uppercase()).unwrap();
    assert_eq!(id.to_bytes(), ISSUE_BYTES);
}

#[test]
fn reads_a_plus_sign_before_one_digit() {
    let text = "+f".repeat(20);
    let id = ObjectId::from_str(&text).unwrap();
    assert_eq!(id.to_bytes(), [0x0f; 20]);
}

#[test]
fn refuses_wrong_lengths_and_non_digits() {
    assert!(ObjectId::from_str("abc1234").is_err());
    assert!(ObjectId::from_str(&format!("{ISSUE}0")).is_err());
    assert!(ObjectId::from_str(&"g0".repeat(20)).is_err());
    assert!(ObjectId::from_str(&"-1".repeat(20)).is_err());
    assert!(ObjectId::from_str(&"++".repeat(20)).is_err());
}

#[test]
fn hex_text_of_an_id() {
    let id = ObjectId::from_bytes(ISSUE_BYTES);
    assert_eq!(id.to_hex(), ISSUE);
    let zero = ObjectId::from_bytes([0u8; 20]);
    assert_eq!(zero.to_hex(), "0".repeat(40));
}

#[test]
fn ids_compare_by_bytes() {
    let a = ObjectId::from_bytes(ISSUE_BYTES);
    let b = ObjectId::from_str(ISSUE).unwrap();
    let c = ObjectId::from_bytes([0u8; 20]);
    assert!(a.same_as(&b));
    assert!(!a.same_as(&c));
}

#[test]
fn did_key_text_of_a_public_key() {
    let key = PublicKey::from_bytes([
        46, 111, 204, 227, 103, 1, 220, 121, 20, 136, 224, 208, 177, 116, 92, 193, 227, 58, 76, 28,
        159, 204, 65, 198, 59, 211, 67, 219, 190, 9, 112, 230,
    ]);
    assert_eq!(
        key.to_did(),
        "did:key:z6MkhaXgBZDvotDkL5257faiztiGiC2QtKLGpbnnEGta2doK"
    );
}

#[test]
fn keys_authors_and_timestamps_keep_their_values() {
    let k = PublicKey::from_bytes([7u8; 32]);
    assert_eq!(k.to_bytes(), [7u8; 32]);
    assert!(k.same_as(&PublicKey::from_bytes([7u8; 32])));
    assert!(!k.same_as(&PublicKey::from_bytes([8u8; 32])));
    let a = Author::new(k);
    assert_eq!(a.id().to_bytes(), [7u8; 32]);
    assert_eq!(Timestamp::from_millis(1234).as_millis(), 1234);
}

#[test]
fn hex_text_parses_back_to_the_id() {
    let mut bytes = [0u8; 20];
    for (i, b) in bytes.iter_mut().enumerate() {
        *b = (i as u8) * 13 + 7;
    }
    let id = ObjectId::from_bytes(bytes);
    let back = ObjectId::from_str(&id.to_hex()).unwrap();
    assert_eq!(back.to_bytes(), bytes);
}
