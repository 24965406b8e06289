use base64::Engine;
use sui_sdk_types::{
    Address, Base64Failure, BytesDeserialize, Digest, Error, MoveStruct, NumberContent,
    NumberDeserialize, Object, ObjectData, ObjectQuery, Owner, StructTag, TypeTag, Identifier,
};

/// A small linear congruential generator, so that the byte strings vary
/// from round to round without any outside source of randomness.
struct Lcg(u64);

impl Lcg {
    fn next(&mut self) -> u64 {
        self.0 = self.0.wrapping_mul(6364136223846793005).wrapping_add(1442695040888963407);
        self.0 >> 33
    }
}

#[test]
fn test_bytes() {
    let mut rng = Lcg(20);
    for _ in 0..20 {
        let len = 50 + (rng.next() % 50) as usize;
        let raw: Vec<u8> = (0..len).map(|_| rng.next() as u8).collect();

        for config in [
            base64::engine::general_purpose::STANDARD,
            base64::engine::general_purpose::STANDARD_NO_PAD,
            base64::engine::general_purpose::URL_SAFE,
            base64::engine::general_purpose::URL_SAFE_NO_PAD,
        ] {
            let encoded = config.encode(&raw);
            let a: Vec<u8> = BytesDeserialize::from_base64(&encoded).unwrap().0;
            let b: Vec<u8> = BytesDeserialize::from_base64(&encoded).unwrap().0;

            assert_eq!(raw.as_slice(), &a);
            assert_eq!(raw.as_slice(), &b);
        }
    }
}

#[test]
fn all_four_alphabets_agree() {
    // bytes chosen so that both `+`/`/` and `-`/`_` symbols appear
    let raw: Vec<u8> = vec![0xfb, 0xff, 0xbf, 0xfe, 0x00, 0x01, 0xf8];
    let standard = base64::engine::general_purpose::STANDARD.encode(&raw);
    let url = base64::engine::general_purpose::URL_SAFE_NO_PAD.encode(&raw);
    assert!(standard.contains('+') || standard.contains('/'));
    assert!(url.contains('-') || url.contains('_'));
    assert_eq!(BytesDeserialize::from_base64(&standard).unwrap().0, raw);
    assert_eq!(BytesDeserialize::from_base64(&url).unwrap().0, raw);
}

#[test]
fn base64_text_decodes_to_its_bytes() {
    assert_eq!(BytesDeserialize::from_base64("aGVsbG8=").unwrap().0, b"hello".to_vec());
    assert_eq!(BytesDeserialize::from_base64("aGVsbG8").unwrap().0, b"hello".to_vec());
    assert_eq!(BytesDeserialize::from_base64("").unwrap().0, Vec::<u8>::new());
}

#[test]
fn invalid_base64_is_refused() {
    assert_eq!(BytesDeserialize::from_base64("ab$d").err(), Some(Error::InvalidByteString));
    // mixes both alphabets: the URL-safe retry fails on `+`
    assert_eq!(BytesDeserialize::from_base64("a-b+").err(), Some(Error::InvalidByteString));
    assert_eq!(BytesDeserialize::from_base64("a").err(), Some(Error::InvalidByteString));
}

#[test]
fn combine_takes_url_safe_only_after_a_url_symbol() {
    let std_ok = sui_sdk_types::text::combine_decodings(Ok(vec![1, 2]), Ok(vec![9]));
    assert_eq!(std_ok, Ok(vec![1, 2]));
    let retried = sui_sdk_types::text::combine_decodings(Err(Base64Failure::InvalidByte(3, b'-')), Ok(vec![9]));
    assert_eq!(retried, Ok(vec![9]));
    let underscore = sui_sdk_types::text::combine_decodings(Err(Base64Failure::InvalidByte(0, b'_')), Err(Base64Failure::InvalidPadding));
    assert_eq!(underscore, Err(Error::InvalidByteString));
    let other = sui_sdk_types::text::combine_decodings(Err(Base64Failure::InvalidByte(0, b'$')), Ok(vec![9]));
    assert_eq!(other, Err(Error::InvalidByteString));
    assert!(!sui_sdk_types::text::retry_url_safe(&Base64Failure::InvalidLength(5)));
    assert!(sui_sdk_types::text::retry_url_safe(&Base64Failure::InvalidByte(1, b'_')));
}

#[test]
fn numbers_come_as_strings_or_numbers() {
    assert_eq!(NumberDeserialize::from_content(NumberContent::Str("123".to_string())), Ok(NumberDeserialize(123u64)));
    assert_eq!(NumberDeserialize::from_content(NumberContent::Number(123)), Ok(NumberDeserialize(123u64)));
    assert_eq!(NumberDeserialize::from_content(NumberContent::Str("abc".to_string())), Err(Error::InvalidNumberLiteral));
}

#[test]
fn number_text_edges() {
    assert_eq!(NumberDeserialize::from_text("18446744073709551615"), Ok(NumberDeserialize(u64::MAX)));
    assert_eq!(NumberDeserialize::from_text("18446744073709551616"), Err(Error::InvalidNumberLiteral));
    assert_eq!(NumberDeserialize::from_text("+7"), Ok(NumberDeserialize(7)));
    assert_eq!(NumberDeserialize::from_text(""), Err(Error::InvalidNumberLiteral));
    assert_eq!(NumberDeserialize::from_text("-1"), Err(Error::InvalidNumberLiteral));
    assert_eq!(NumberDeserialize::from_text(" 1"), Err(Error::InvalidNumberLiteral));
}

#[test]
fn query_answer_carries_an_object() {
    let t = StructTag::new(
        Address::new([0u8; 32]),
        Identifier::new(b"m".to_vec()).unwrap(),
        Identifier::new(b"S".to_vec()).unwrap(),
        vec![TypeTag::U8],
    );
    let s = MoveStruct::new(t, true, 3, vec![4u8; 36]).unwrap();
    let o = Object::new(ObjectData::Struct(s), Owner::Immutable, Digest::new([5u8; 32]), 6);
    let bytes = o.to_bytes();
    let text = base64::engine::general_purpose::URL_SAFE_NO_PAD.encode(&bytes);
    let answer = sui_sdk_types::query::Object { bcs: Some(text) };
    let back = answer.to_object().unwrap().unwrap();
    assert_eq!(back.to_bytes(), bytes);
    let q = ObjectQuery { object: Some(sui_sdk_types::query::Object { bcs: None }) };
    assert!(q.object.unwrap().to_object().unwrap().is_none());
    let bad = sui_sdk_types::query::Object { bcs: Some("AAAA".to_string()) };
    assert_eq!(bad.to_object().err(), Some(Error::MalformedEncoding));
}
