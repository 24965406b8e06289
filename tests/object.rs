use sui_sdk_types::{
    Address, Digest, Error, GenesisObject, Identifier, MovePackage, MoveStruct, MoveStructType,
    Object, ObjectData, ObjectReference, ObjectType, Owner, StructTag, TypeOrigin, TypeTag,
    UpgradeInfo, WellKnownTypes,
};

const SUI_COIN: &[u8] = &[
    0, 1, 1, 32, 79, 43, 0, 0, 0, 0, 0, 40, 35, 95, 175, 213, 151, 87, 206, 190, 35,
    131, 79, 35, 254, 22, 15, 181, 40, 108, 28, 77, 68, 229, 107, 254, 191, 160, 196,
    186, 42, 2, 122, 53, 52, 133, 199, 58, 0, 0, 0, 0, 0, 79, 255, 208, 0, 85, 34, 190,
    75, 192, 41, 114, 76, 127, 15, 110, 215, 9, 58, 107, 243, 160, 155, 144, 230, 47,
    97, 220, 21, 24, 30, 26, 62, 32, 17, 197, 192, 38, 64, 173, 142, 143, 49, 111, 15,
    211, 92, 84, 48, 160, 243, 102, 229, 253, 251, 137, 210, 101, 119, 173, 228, 51,
    141, 20, 15, 85, 96, 19, 15, 0, 0, 0, 0, 0,
];

const SUI_STAKE: &[u8] = &[
    0, 2, 1, 154, 1, 52, 5, 0, 0, 0, 0, 80, 3, 112, 71, 231, 166, 234, 205, 164, 99,
    237, 29, 56, 97, 170, 21, 96, 105, 158, 227, 122, 22, 251, 60, 162, 12, 97, 151,
    218, 71, 253, 231, 239, 116, 138, 12, 233, 128, 195, 128, 77, 33, 38, 122, 77, 53,
    154, 197, 198, 75, 212, 12, 182, 163, 224, 42, 82, 123, 69, 248, 40, 207, 143, 211,
    13, 106, 1, 0, 0, 0, 0, 0, 0, 59, 81, 183, 246, 112, 0, 0, 0, 0, 79, 255, 208, 0,
    85, 34, 190, 75, 192, 41, 114, 76, 127, 15, 110, 215, 9, 58, 107, 243, 160, 155,
    144, 230, 47, 97, 220, 21, 24, 30, 26, 62, 32, 247, 239, 248, 71, 247, 102, 190,
    149, 232, 153, 138, 67, 169, 209, 203, 29, 255, 215, 223, 57, 159, 44, 40, 218,
    166, 13, 80, 71, 14, 188, 232, 68, 0, 0, 0, 0, 0, 0, 0, 0,
];

const NFT: &[u8] = &[
    0, 0, 97, 201, 195, 159, 216, 97, 133, 173, 96, 215, 56, 212, 229, 43, 208, 139,
    218, 7, 29, 54, 106, 205, 224, 126, 7, 195, 145, 106, 45, 117, 168, 22, 12, 100,
    105, 115, 116, 114, 105, 98, 117, 116, 105, 111, 110, 11, 68, 69, 69, 80, 87, 114,
    97, 112, 112, 101, 114, 0, 0, 124, 24, 223, 4, 0, 0, 0, 0, 40, 31, 8, 18, 84, 38,
    164, 252, 84, 115, 250, 246, 137, 132, 128, 186, 156, 36, 62, 18, 140, 21, 4, 90,
    209, 105, 85, 84, 92, 214, 97, 81, 207, 64, 194, 198, 208, 21, 0, 0, 0, 0, 79, 255,
    208, 0, 85, 34, 190, 75, 192, 41, 114, 76, 127, 15, 110, 215, 9, 58, 107, 243, 160,
    155, 144, 230, 47, 97, 220, 21, 24, 30, 26, 62, 32, 170, 4, 94, 114, 207, 155, 31,
    80, 62, 254, 220, 206, 240, 218, 83, 54, 204, 197, 255, 239, 41, 66, 199, 150, 56,
    189, 86, 217, 166, 216, 128, 241, 64, 205, 21, 0, 0, 0, 0, 0,
];

const FUD_COIN: &[u8] = &[
    0, 3, 7, 118, 203, 129, 155, 1, 171, 237, 80, 43, 238, 138, 112, 43, 76, 45, 84,
    117, 50, 193, 47, 37, 0, 28, 157, 234, 121, 90, 94, 99, 28, 38, 241, 3, 102, 117,
    100, 3, 70, 85, 68, 0, 1, 193, 89, 252, 3, 0, 0, 0, 0, 40, 33, 214, 90, 11, 56,
    243, 115, 10, 250, 121, 250, 28, 34, 237, 104, 130, 148, 40, 130, 29, 248, 137,
    244, 27, 138, 94, 150, 28, 182, 104, 162, 185, 0, 152, 247, 62, 93, 1, 0, 0, 0, 42,
    95, 32, 226, 13, 31, 128, 91, 188, 127, 235, 12, 75, 73, 116, 112, 3, 227, 244,
    126, 59, 81, 214, 118, 144, 243, 195, 17, 82, 216, 119, 170, 32, 239, 247, 71, 249,
    241, 98, 133, 53, 46, 37, 100, 242, 94, 231, 241, 184, 8, 69, 192, 69, 67, 1, 116,
    251, 229, 226, 99, 119, 79, 255, 71, 43, 64, 242, 19, 0, 0, 0, 0, 0,
];

const BULLSHARK_PACKAGE: &[u8] = &[
    1, 135, 35, 29, 28, 138, 126, 114, 145, 204, 122, 145, 8, 244, 199, 188, 26, 10,
    28, 14, 182, 55, 91, 91, 97, 10, 245, 202, 35, 223, 14, 140, 86, 1, 0, 0, 0, 0, 0,
    0, 0, 1, 9, 98, 117, 108, 108, 115, 104, 97, 114, 107, 162, 6, 161, 28, 235, 11, 6,
    0, 0, 0, 10, 1, 0, 12, 2, 12, 36, 3, 48, 61, 4, 109, 12, 5, 121, 137, 1, 7, 130, 2,
    239, 1, 8, 241, 3, 96, 6, 209, 4, 82, 10, 163, 5, 5, 12, 168, 5, 75, 0, 7, 1, 16,
    2, 9, 2, 21, 2, 22, 2, 23, 0, 0, 2, 0, 1, 3, 7, 1, 0, 0, 2, 1, 12, 1, 0, 1, 2, 2,
    12, 1, 0, 1, 2, 4, 12, 1, 0, 1, 4, 5, 2, 0, 5, 6, 7, 0, 0, 12, 0, 1, 0, 0, 13, 2,
    1, 0, 0, 8, 3, 1, 0, 1, 20, 7, 8, 1, 0, 2, 8, 18, 19, 1, 0, 2, 10, 10, 11, 1, 2, 2,
    14, 17, 1, 1, 0, 3, 17, 7, 1, 1, 12, 3, 18, 16, 1, 1, 12, 4, 19, 13, 14, 0, 5, 15,
    5, 6, 0, 3, 6, 5, 9, 7, 12, 8, 15, 6, 9, 4, 9, 2, 8, 0, 7, 8, 5, 0, 4, 7, 11, 4, 1,
    8, 0, 3, 5, 7, 8, 5, 2, 7, 11, 4, 1, 8, 0, 11, 2, 1, 8, 0, 2, 11, 3, 1, 8, 0, 11,
    4, 1, 8, 0, 1, 10, 2, 1, 8, 6, 1, 9, 0, 1, 11, 1, 1, 9, 0, 1, 8, 0, 7, 9, 0, 2, 10,
    2, 10, 2, 10, 2, 11, 1, 1, 8, 6, 7, 8, 5, 2, 11, 4, 1, 9, 0, 11, 3, 1, 9, 0, 1, 11,
    3, 1, 8, 0, 1, 6, 8, 5, 1, 5, 1, 11, 4, 1, 8, 0, 2, 9, 0, 5, 4, 7, 11, 4, 1, 9, 0,
    3, 5, 7, 8, 5, 2, 7, 11, 4, 1, 9, 0, 11, 2, 1, 9, 0, 1, 3, 9, 66, 85, 76, 76, 83,
    72, 65, 82, 75, 4, 67, 111, 105, 110, 12, 67, 111, 105, 110, 77, 101, 116, 97, 100,
    97, 116, 97, 6, 79, 112, 116, 105, 111, 110, 11, 84, 114, 101, 97, 115, 117, 114,
    121, 67, 97, 112, 9, 84, 120, 67, 111, 110, 116, 101, 120, 116, 3, 85, 114, 108, 9,
    98, 117, 108, 108, 115, 104, 97, 114, 107, 4, 98, 117, 114, 110, 4, 99, 111, 105,
    110, 15, 99, 114, 101, 97, 116, 101, 95, 99, 117, 114, 114, 101, 110, 99, 121, 11,
    100, 117, 109, 109, 121, 95, 102, 105, 101, 108, 100, 4, 105, 110, 105, 116, 4,
    109, 105, 110, 116, 17, 109, 105, 110, 116, 95, 97, 110, 100, 95, 116, 114, 97,
    110, 115, 102, 101, 114, 21, 110, 101, 119, 95, 117, 110, 115, 97, 102, 101, 95,
    102, 114, 111, 109, 95, 98, 121, 116, 101, 115, 6, 111, 112, 116, 105, 111, 110,
    20, 112, 117, 98, 108, 105, 99, 95, 102, 114, 101, 101, 122, 101, 95, 111, 98, 106,
    101, 99, 116, 15, 112, 117, 98, 108, 105, 99, 95, 116, 114, 97, 110, 115, 102, 101,
    114, 6, 115, 101, 110, 100, 101, 114, 4, 115, 111, 109, 101, 8, 116, 114, 97, 110,
    115, 102, 101, 114, 10, 116, 120, 95, 99, 111, 110, 116, 101, 120, 116, 3, 117,
    114, 108, 135, 35, 29, 28, 138, 126, 114, 145, 204, 122, 145, 8, 244, 199, 188, 26,
    10, 28, 14, 182, 55, 91, 91, 97, 10, 245, 202, 35, 223, 14, 140, 86, 0, 0, 0, 0, 0,
    0, 0, 0, 0, 0, 0, 0, 0, 0, 0, 0, 0, 0, 0, 0, 0, 0, 0, 0, 0, 0, 0, 0, 0, 0, 0, 1, 0,
    0, 0, 0, 0, 0, 0, 0, 0, 0, 0, 0, 0, 0, 0, 0, 0, 0, 0, 0, 0, 0, 0, 0, 0, 0, 0, 0, 0,
    0, 0, 2, 10, 2, 10, 9, 66, 85, 76, 76, 83, 72, 65, 82, 75, 10, 2, 20, 19, 66, 117,
    108, 108, 32, 83, 104, 97, 114, 107, 32, 83, 117, 105, 70, 114, 101, 110, 115, 10,
    2, 1, 0, 10, 2, 39, 38, 104, 116, 116, 112, 115, 58, 47, 47, 105, 46, 105, 98, 98,
    46, 99, 111, 47, 104, 87, 89, 50, 87, 53, 120, 47, 98, 117, 108, 108, 115, 104, 97,
    114, 107, 46, 112, 110, 103, 0, 2, 1, 11, 1, 0, 0, 0, 0, 4, 20, 11, 0, 49, 6, 7, 0,
    7, 1, 7, 2, 7, 3, 17, 10, 56, 0, 10, 1, 56, 1, 12, 2, 12, 3, 11, 2, 56, 2, 11, 3,
    11, 1, 46, 17, 9, 56, 3, 2, 1, 1, 4, 0, 1, 6, 11, 0, 11, 1, 11, 2, 11, 3, 56, 4, 2,
    2, 1, 4, 0, 1, 5, 11, 0, 11, 1, 56, 5, 1, 2, 0, 1, 9, 98, 117, 108, 108, 115, 104,
    97, 114, 107, 9, 66, 85, 76, 76, 83, 72, 65, 82, 75, 135, 35, 29, 28, 138, 126,
    114, 145, 204, 122, 145, 8, 244, 199, 188, 26, 10, 28, 14, 182, 55, 91, 91, 97, 10,
    245, 202, 35, 223, 14, 140, 86, 2, 0, 0, 0, 0, 0, 0, 0, 0, 0, 0, 0, 0, 0, 0, 0, 0,
    0, 0, 0, 0, 0, 0, 0, 0, 0, 0, 0, 0, 0, 0, 0, 1, 0, 0, 0, 0, 0, 0, 0, 0, 0, 0, 0, 0,
    0, 0, 0, 0, 0, 0, 0, 0, 0, 0, 0, 0, 0, 0, 0, 0, 0, 0, 0, 1, 1, 0, 0, 0, 0, 0, 0, 0,
    0, 0, 0, 0, 0, 0, 0, 0, 0, 0, 0, 0, 0, 0, 0, 0, 0, 0, 0, 0, 0, 0, 0, 0, 0, 0, 0, 0,
    0, 0, 0, 2, 0, 0, 0, 0, 0, 0, 0, 0, 0, 0, 0, 0, 0, 0, 0, 0, 0, 0, 0, 0, 0, 0, 0, 0,
    0, 0, 0, 0, 0, 0, 0, 2, 4, 0, 0, 0, 0, 0, 0, 0, 3, 32, 87, 145, 191, 231, 147, 185,
    46, 159, 240, 181, 95, 126, 236, 65, 154, 55, 16, 196, 229, 218, 47, 59, 99, 197,
    13, 89, 18, 159, 205, 129, 112, 131, 112, 192, 126, 0, 0, 0, 0, 0,
];

#[test]
fn object_fixture() {
    for fixture in [SUI_COIN, SUI_STAKE, NFT, FUD_COIN, BULLSHARK_PACKAGE] {
        let object = Object::from_bytes(fixture).unwrap();
        assert_eq!(object.to_bytes(), fixture);
    }
}

fn ident(s: &str) -> Identifier {
    Identifier::new(s.as_bytes().to_vec()).unwrap()
}

fn addr(last: u8) -> Address {
    let mut b = [0u8; 32];
    b[31] = last;
    Address::new(b)
}

fn tag(a: u8, module: &str, name: &str, params: Vec<TypeTag>) -> StructTag {
    StructTag::new(addr(a), ident(module), ident(name), params)
}

fn contents(first: u8, len: usize) -> Vec<u8> {
    let mut c = vec![first; 32];
    c.resize(len, 7);
    c
}

fn struct_object(t: StructTag) -> Object {
    let s = MoveStruct::new(t, true, 9, contents(5, 40)).unwrap();
    Object::new(ObjectData::Struct(s), Owner::Immutable, Digest::new([3u8; 32]), 11)
}

#[test]
fn fixtures_report_ids_versions_and_types() {
    let coin = Object::from_bytes(SUI_COIN).unwrap();
    assert_eq!(coin.version(), u64::from_le_bytes([32, 79, 43, 0, 0, 0, 0, 0]));
    let s = coin.as_struct().unwrap();
    assert_eq!(s.contents().len(), 40);
    assert_eq!(coin.object_id().as_bytes()[..], s.contents()[..32]);
    match coin.object_type() {
        ObjectType::Struct(t) => {
            assert_eq!(t.module.as_bytes(), b"coin");
            assert_eq!(t.name.as_bytes(), b"Coin");
            assert_eq!(t.type_params.len(), 1);
        }
        ObjectType::Package => panic!("a coin is a struct"),
    }
    let package = Object::from_bytes(BULLSHARK_PACKAGE).unwrap();
    assert!(package.as_struct().is_none());
    assert!(matches!(package.object_type(), ObjectType::Package));
    assert_eq!(package.version(), 1);
    assert_eq!(package.object_id().as_bytes()[..], BULLSHARK_PACKAGE[1..33]);
}

#[test]
fn gas_coin_is_written_in_one_byte() {
    let native = TypeTag::Struct(Box::new(tag(2, "bfc", "BFC", vec![])));
    let o = struct_object(tag(2, "coin", "Coin", vec![native]));
    let bytes = o.to_bytes();
    assert_eq!(&bytes[..3], &[0u8, 1, 1]);
    let back = Object::from_bytes(&bytes).unwrap();
    assert_eq!(back.to_bytes(), bytes);
    match back.object_type() {
        ObjectType::Struct(t) => assert_eq!(t, tag(2, "coin", "Coin", vec![TypeTag::Struct(Box::new(tag(2, "bfc", "BFC", vec![])))])),
        ObjectType::Package => panic!("a coin is a struct"),
    }
}

#[test]
fn compress_then_decompress_gives_the_tag_back() {
    let known = WellKnownTypes::chain();
    let cases = vec![
        tag(2, "coin", "Coin", vec![TypeTag::Struct(Box::new(tag(2, "bfc", "BFC", vec![])))]),
        tag(2, "coin", "Coin", vec![TypeTag::U64]),
        tag(3, "staking_pool", "StakedBfc", vec![]),
        tag(9, "nft", "Nft", vec![TypeTag::Vector(Box::new(TypeTag::U8))]),
        tag(2, "coin", "Coin", vec![TypeTag::U8, TypeTag::U8]),
    ];
    let expected_kinds = [1u8, 3, 2, 0, 0];
    for (t, kind) in cases.into_iter().zip(expected_kinds) {
        let c = MoveStructType::from_struct_tag(&t, &known);
        let k = match &c {
            MoveStructType::Other(_) => 0u8,
            MoveStructType::GasCoin => 1,
            MoveStructType::StakedSui => 2,
            MoveStructType::Coin(_) => 3,
        };
        assert_eq!(k, kind);
        assert_eq!(c.into_struct_tag(&known), t);
    }
}

#[test]
fn full_form_of_a_shorthand_type_is_still_read() {
    // A staked record written in full rather than by its one-byte tag.
    let t = tag(3, "staking_pool", "StakedBfc", vec![]);
    let compact = struct_object(tag(3, "staking_pool", "StakedBfc", vec![])).to_bytes();
    assert_eq!(compact[1], 2);
    let mut full = vec![0u8, 0u8];
    full.extend_from_slice(addr(3).as_bytes());
    full.push(12);
    full.extend_from_slice(b"staking_pool");
    full.push(9);
    full.extend_from_slice(b"StakedBfc");
    full.push(0);
    full.extend_from_slice(&compact[2..]);
    let o = Object::from_bytes(&full).unwrap();
    match o.object_type() {
        ObjectType::Struct(s) => assert_eq!(s, t),
        ObjectType::Package => panic!("a struct was written"),
    }
    assert_eq!(o.to_bytes(), compact);
}

#[test]
fn move_struct_needs_an_id_prefix() {
    let t = tag(9, "m", "S", vec![]);
    assert_eq!(MoveStruct::new(t, false, 1, vec![1u8; 31]).err(), Some(Error::InvalidObjectContents));
    let mut c = vec![0u8; 32];
    for (i, b) in c.iter_mut().enumerate() {
        *b = i as u8;
    }
    c.extend_from_slice(&[9, 9, 9]);
    let s = MoveStruct::new(tag(9, "m", "S", vec![]), false, 1, c.clone()).unwrap();
    assert_eq!(s.object_id().as_bytes()[..], c[..32]);
    assert_eq!(s.contents(), &c[..]);
    assert_eq!(s.version(), 1);
    assert!(!s.has_public_transfer());
    assert_eq!(sui_sdk_types::id_opt(&c[..31]), None);
    assert_eq!(sui_sdk_types::id_opt(&c).unwrap().as_bytes()[..], c[..32]);
}

fn package(modules: Vec<(Identifier, Vec<u8>)>, links: Vec<(Address, UpgradeInfo)>) -> MovePackage {
    let origins = vec![TypeOrigin { module_name: ident("a"), struct_name: ident("S"), package: addr(7) }];
    MovePackage::new(addr(7), 1, modules, origins, links)
}

#[test]
fn package_encoding_ignores_insertion_order() {
    let info = |v: u64| UpgradeInfo { upgraded_id: addr(8), upgraded_version: v };
    let p1 = package(
        vec![(ident("zeta"), vec![1]), (ident("alpha"), vec![2, 2]), (ident("mid"), vec![3])],
        vec![(addr(5), info(1)), (addr(4), info(2))],
    );
    let p2 = package(
        vec![(ident("mid"), vec![3]), (ident("zeta"), vec![1]), (ident("alpha"), vec![2, 2])],
        vec![(addr(4), info(2)), (addr(5), info(1))],
    );
    let o1 = Object::new(ObjectData::Package(p1), Owner::Immutable, Digest::new([1u8; 32]), 0);
    let o2 = Object::new(ObjectData::Package(p2), Owner::Immutable, Digest::new([1u8; 32]), 0);
    let b1 = o1.to_bytes();
    assert_eq!(b1, o2.to_bytes());
    // modules come out in ascending name order
    let alpha = b1.iter().position(|&b| b == b'a' ).unwrap();
    let zeta = b1.windows(4).position(|w| w == b"zeta").unwrap();
    assert!(alpha < zeta);
    assert_eq!(Object::from_bytes(&b1).unwrap().to_bytes(), b1);
}

#[test]
fn later_module_entry_wins() {
    let p = package(vec![(ident("m"), vec![1]), (ident("m"), vec![2])], vec![]);
    assert_eq!(p.modules().len(), 1);
    assert_eq!(p.modules()[0].1, vec![2u8]);
}

#[test]
fn unsorted_package_map_is_refused() {
    let p = package(vec![(ident("b"), vec![1]), (ident("c"), vec![2])], vec![]);
    let o = Object::new(ObjectData::Package(p), Owner::Immutable, Digest::new([1u8; 32]), 0);
    let mut bytes = o.to_bytes();
    // swap the two module names, "b" and "c"
    let i = bytes.iter().position(|&x| x == b'b').unwrap();
    let j = bytes.iter().position(|&x| x == b'c').unwrap();
    bytes.swap(i, j);
    assert_eq!(Object::from_bytes(&bytes).err(), Some(Error::MalformedEncoding));
}

#[test]
fn owners_encode_with_their_tags() {
    let base = struct_object(tag(9, "m", "S", vec![]));
    let owners = [
        (Owner::Address(addr(1)), 0u8, 33usize),
        (Owner::Object(addr(1)), 1, 33),
        (Owner::Shared(5), 2, 9),
        (Owner::Immutable, 3, 1),
        (Owner::ConsensusAddress { start_version: 6, owner: addr(1) }, 4, 41),
    ];
    let data_len = base.to_bytes().len() - 1 - 33 - 8;
    for (owner, t, len) in owners {
        let s = MoveStruct::new(tag(9, "m", "S", vec![]), true, 9, contents(5, 40)).unwrap();
        let o = Object::new(ObjectData::Struct(s), owner, Digest::new([3u8; 32]), 11);
        let bytes = o.to_bytes();
        assert_eq!(bytes[data_len], t);
        assert_eq!(bytes.len(), data_len + len + 33 + 8);
        let back = Object::from_bytes(&bytes).unwrap();
        assert_eq!(*back.owner(), owner);
        assert_eq!(back.storage_rebate(), 11);
        assert_eq!(back.previous_transaction(), Digest::new([3u8; 32]));
    }
}

#[test]
fn malformed_buffers_are_refused() {
    let bytes = FUD_COIN.to_vec();
    for cut in [0usize, 1, 10, bytes.len() - 1] {
        assert_eq!(Object::from_bytes(&bytes[..cut]).err(), Some(Error::MalformedEncoding));
    }
    let mut trailing = bytes.clone();
    trailing.push(0);
    assert_eq!(Object::from_bytes(&trailing).err(), Some(Error::MalformedEncoding));
    let mut bad_tag = bytes.clone();
    bad_tag[0] = 2;
    assert_eq!(Object::from_bytes(&bad_tag).err(), Some(Error::MalformedEncoding));
    let mut bad_kind = bytes.clone();
    bad_kind[1] = 4;
    assert_eq!(Object::from_bytes(&bad_kind).err(), Some(Error::MalformedEncoding));
    let full = struct_object(tag(9, "m", "S", vec![])).to_bytes();
    // contents of 40 bytes cut down to 31, the rest kept
    let at = full.iter().position(|&b| b == 40).unwrap();
    let mut short = full[..at].to_vec();
    short.push(31);
    short.extend_from_slice(&full[at + 1..at + 1 + 31]);
    short.extend_from_slice(&full[at + 1 + 40..]);
    assert_eq!(Object::from_bytes(&short).err(), Some(Error::InvalidObjectContents));
}

#[test]
fn object_round_trips() {
    let nested = TypeTag::Vector(Box::new(TypeTag::Struct(Box::new(tag(1, "a", "B", vec![TypeTag::U256, TypeTag::Signer])))));
    for t in [tag(4, "x", "Y", vec![nested, TypeTag::Bool, TypeTag::U16, TypeTag::U32, TypeTag::U128, TypeTag::Address]), tag(2, "coin", "Coin", vec![TypeTag::U64])] {
        let o = struct_object(t);
        let bytes = o.to_bytes();
        let back = Object::from_bytes(&bytes).unwrap();
        assert_eq!(back.to_bytes(), bytes);
        assert_eq!(back.object_id(), o.object_id());
        assert_eq!(back.version(), 9);
    }
}

#[test]
fn genesis_object_has_no_trailer() {
    let s = MoveStruct::new(tag(9, "m", "S", vec![]), false, 2, contents(1, 32)).unwrap();
    let g = GenesisObject::new(ObjectData::Struct(s), Owner::Shared(1));
    let bytes = g.to_bytes();
    let back = GenesisObject::from_bytes(&bytes).unwrap();
    assert_eq!(back.to_bytes(), bytes);
    assert_eq!(back.version(), 2);
    assert_eq!(*back.owner(), Owner::Shared(1));
    assert_eq!(back.object_id(), Address::new([1u8; 32]));
    let mut longer = bytes.clone();
    longer.extend_from_slice(&[0u8; 8]);
    assert!(GenesisObject::from_bytes(&longer).is_err());
}

#[test]
fn object_reference_round_trips() {
    let r = ObjectReference::new(addr(1), 77, Digest::new([2u8; 32]));
    let bytes = r.to_bytes();
    assert_eq!(bytes.len(), 32 + 8 + 1 + 32);
    assert_eq!(bytes[40], 32);
    let back = ObjectReference::from_bytes(&bytes).unwrap();
    assert_eq!(back, r);
    assert_eq!(back.into_parts(), (addr(1), 77, Digest::new([2u8; 32])));
    assert_eq!(*r.object_id(), addr(1));
    assert_eq!(r.version(), 77);
    assert_eq!(*r.digest(), Digest::new([2u8; 32]));
    assert_eq!(ObjectReference::from_bytes(&bytes[..72]).err(), Some(Error::MalformedEncoding));
}
