//! One-byte shorthands for well-known struct types.
//!
//! A `Coin<T>` struct type is written as its type argument alone, and the
//! native coin and the staked-coin record take no bytes beyond their tag.
//! Any other struct type is written in full, and a full form stays accepted
//! for every type, so that bytes stored before a shorthand existed keep
//! their meaning.
use vstd::prelude::*;

use crate::types::{
    low_byte_address, struct_tag_wf, type_tag_wf, valid_identifier, Address, Identifier,
    StructTag, StructTagModel, TypeTag, TypeTagModel,
};
use crate::tags::{
    enc_struct_tag, enc_type_tag, lemma_struct_tag, lemma_type_tag, parse_struct_tag,
    parse_type_tag, read_struct_tag, read_type_tag, tag_byte, write_struct_tag, write_type_tag,
};
use crate::wire::{at, lemma_at_byte, lemma_at_split, parse_byte, read_byte};

verus! {

broadcast use vstd::std_specs::vec::group_vec_axioms, vstd::seq::group_seq_axioms;

/// The wire form of a struct type: in full, or by a shorthand.
pub enum MoveStructType {
    /// A struct type written in full.
    Other(StructTag),
    /// `Coin` of the native coin.
    GasCoin,
    /// The staked native coin record.
    StakedSui,
    /// `Coin` of another type.
    Coin(TypeTag),
}

pub enum MoveStructTypeModel {
    Other(StructTagModel),
    GasCoin,
    StakedSui,
    Coin(TypeTagModel),
}

impl MoveStructType {
    pub open spec fn model(&self) -> MoveStructTypeModel {
        match self {
            MoveStructType::Other(s) => MoveStructTypeModel::Other(s.model()),
            MoveStructType::GasCoin => MoveStructTypeModel::GasCoin,
            MoveStructType::StakedSui => MoveStructTypeModel::StakedSui,
            MoveStructType::Coin(t) => MoveStructTypeModel::Coin(t.model()),
        }
    }
}

/// The struct types that have a shorthand of their own.
pub struct WellKnownTypes {
    /// The native coin type; `Coin` of it is written as `GasCoin`.
    pub native_coin: StructTag,
    /// The staked-coin record, written as `StakedSui`.
    pub staked_coin: StructTag,
}

pub struct WellKnownModel {
    pub native_coin: StructTagModel,
    pub staked_coin: StructTagModel,
}

impl WellKnownTypes {
    pub open spec fn model(&self) -> WellKnownModel {
        WellKnownModel { native_coin: self.native_coin.model(), staked_coin: self.staked_coin.model() }
    }
}

pub open spec fn coin_module() -> Seq<u8> {
    seq![99u8, 111u8, 105u8, 110u8]
}

pub open spec fn coin_name() -> Seq<u8> {
    seq![67u8, 111u8, 105u8, 110u8]
}

/// `0x2::coin::Coin<t>`.
pub open spec fn coin_of(t: TypeTagModel) -> StructTagModel {
    StructTagModel {
        address: low_byte_address(2),
        module: coin_module(),
        name: coin_name(),
        type_params: seq![t],
    }
}

/// The type argument of a `0x2::coin::Coin<T>` struct type.
pub open spec fn coin_inner(s: StructTagModel) -> Option<TypeTagModel> {
    if s.address == low_byte_address(2) && s.module == coin_module() && s.name == coin_name()
        && s.type_params.len() == 1 {
        Some(s.type_params[0])
    } else {
        None
    }
}

/// How a struct type is written: a coin by its argument (`GasCoin` for the
/// native coin), the staked record by its tag, anything else in full.
pub open spec fn compress(k: WellKnownModel, s: StructTagModel) -> MoveStructTypeModel {
    match coin_inner(s) {
        Some(inner) => if inner == TypeTagModel::Struct(k.native_coin) {
            MoveStructTypeModel::GasCoin
        } else {
            MoveStructTypeModel::Coin(inner)
        },
        None => if s == k.staked_coin {
            MoveStructTypeModel::StakedSui
        } else {
            MoveStructTypeModel::Other(s)
        },
    }
}

/// The struct type that a wire form stands for.
pub open spec fn decompress(k: WellKnownModel, c: MoveStructTypeModel) -> StructTagModel {
    match c {
        MoveStructTypeModel::Other(s) => s,
        MoveStructTypeModel::GasCoin => coin_of(TypeTagModel::Struct(k.native_coin)),
        MoveStructTypeModel::StakedSui => k.staked_coin,
        MoveStructTypeModel::Coin(t) => coin_of(t),
    }
}

/// Decompressing what compression wrote gives back the struct type, whatever
/// the table of well-known types.
pub proof fn lemma_decompress_compress(k: WellKnownModel, s: StructTagModel)
    ensures
        decompress(k, compress(k, s)) == s,
{
    if let Some(inner) = coin_inner(s) {
        assert(s.type_params =~= seq![inner]);
    }
}

pub open spec fn move_struct_type_wf(c: MoveStructTypeModel) -> bool {
    match c {
        MoveStructTypeModel::Other(s) => struct_tag_wf(s),
        MoveStructTypeModel::Coin(t) => type_tag_wf(t),
        _ => true,
    }
}

pub proof fn lemma_compress_wf(k: WellKnownModel, s: StructTagModel)
    requires
        struct_tag_wf(s),
    ensures
        move_struct_type_wf(compress(k, s)),
{
}

proof fn lemma_coin_names_valid()
    ensures
        valid_identifier(coin_module()),
        valid_identifier(coin_name()),
{
    assert forall|i: int| 1 <= i < coin_module().len() implies #[trigger] crate::types::is_ident_char(
        coin_module()[i],
    ) by {
        if i == 1 {
        } else if i == 2 {
        } else {
        }
    }
    assert forall|i: int| 1 <= i < coin_name().len() implies #[trigger] crate::types::is_ident_char(
        coin_name()[i],
    ) by {
        if i == 1 {
        } else if i == 2 {
        } else {
        }
    }
}

pub open spec fn enc_move_struct_type(c: MoveStructTypeModel) -> Seq<u8> {
    match c {
        MoveStructTypeModel::Other(s) => tag_byte(0) + enc_struct_tag(s),
        MoveStructTypeModel::GasCoin => tag_byte(1),
        MoveStructTypeModel::StakedSui => tag_byte(2),
        MoveStructTypeModel::Coin(t) => tag_byte(3) + enc_type_tag(t),
    }
}

pub open spec fn parse_move_struct_type(s: Seq<u8>, pos: int) -> Option<(MoveStructTypeModel, int)> {
    match parse_byte(s, pos) {
        Some((b, p)) => if b == 0 {
            match parse_struct_tag(s, p) {
                Some((t, e)) => Some((MoveStructTypeModel::Other(t), e)),
                None => None,
            }
        } else if b == 1 {
            Some((MoveStructTypeModel::GasCoin, p))
        } else if b == 2 {
            Some((MoveStructTypeModel::StakedSui, p))
        } else if b == 3 {
            match parse_type_tag(s, p) {
                Some((t, e)) => Some((MoveStructTypeModel::Coin(t), e)),
                None => None,
            }
        } else {
            None
        },
        None => None,
    }
}

pub proof fn lemma_move_struct_type(s: Seq<u8>, pos: int, c: MoveStructTypeModel)
    requires
        move_struct_type_wf(c),
        at(s, pos, enc_move_struct_type(c)),
    ensures
        parse_move_struct_type(s, pos) == Some((c, pos + enc_move_struct_type(c).len())),
{
    lemma_at_byte(s, pos, enc_move_struct_type(c));
    assert(s[pos + 0] == enc_move_struct_type(c)[0]);
    match c {
        MoveStructTypeModel::Other(t) => {
            lemma_at_split(s, pos, tag_byte(0), enc_struct_tag(t));
            lemma_struct_tag(s, pos + 1, t);
        },
        MoveStructTypeModel::Coin(t) => {
            lemma_at_split(s, pos, tag_byte(3), enc_type_tag(t));
            lemma_type_tag(s, pos + 1, t);
        },
        _ => {},
    }
}

fn coin_tag(t: TypeTag) -> (r: StructTag)
    ensures
        r.model() == coin_of(t.model()),
{
    proof {
        lemma_coin_names_valid();
    }
    let mut params: Vec<TypeTag> = Vec::new();
    params.push(t);
    let r = StructTag {
        address: Address::from_low_byte(2),
        module: Identifier::from_valid(vec![99u8, 111u8, 105u8, 110u8]),
        name: Identifier::from_valid(vec![67u8, 111u8, 105u8, 110u8]),
        type_params: params,
    };
    assert(r.model().type_params =~= seq![t.model()]);
    r
}

/// The type argument of `s` when `s` is `0x2::coin::Coin<T>`.
pub fn is_coin(s: &StructTag) -> (r: Option<&TypeTag>)
    ensures
        match r {
            Some(t) => coin_inner(s.model()) == Some(t.model()),
            None => coin_inner(s.model()) is None,
        },
{
    let two = Address::from_low_byte(2);
    let module: [u8; 4] = [99u8, 111u8, 105u8, 110u8];
    let name: [u8; 4] = [67u8, 111u8, 105u8, 110u8];
    if s.address.equals(&two) && s.module.is(module.as_slice()) && s.name.is(name.as_slice())
        && s.type_params.len() == 1 {
        proof {
            assert(module@ =~= coin_module());
            assert(name@ =~= coin_name());
        }
        Some(&s.type_params[0])
    } else {
        proof {
            if s.module@ == coin_module() {
                assert(module@ =~= coin_module());
            }
            if s.name@ == coin_name() {
                assert(name@ =~= coin_name());
            }
        }
        None
    }
}

impl MoveStructType {
    /// The wire form of `s`.
    pub fn from_struct_tag(s: &StructTag, known: &WellKnownTypes) -> (r: MoveStructType)
        ensures
            r.model() == compress(known.model(), s.model()),
    {
        match is_coin(s) {
            Some(inner) => {
                let is_native = match inner {
                    TypeTag::Struct(b) => (**b).equals(&known.native_coin),
                    _ => false,
                };
                proof {
                    reveal_with_fuel(TypeTag::model, 1);
                }
                if is_native {
                    MoveStructType::GasCoin
                } else {
                    MoveStructType::Coin(inner.duplicate())
                }
            },
            None => {
                if s.equals(&known.staked_coin) {
                    MoveStructType::StakedSui
                } else {
                    MoveStructType::Other(s.duplicate())
                }
            },
        }
    }

    /// The struct type that this wire form stands for.
    pub fn into_struct_tag(self, known: &WellKnownTypes) -> (r: StructTag)
        ensures
            r.model() == decompress(known.model(), self.model()),
    {
        match self {
            MoveStructType::Other(s) => s,
            MoveStructType::GasCoin => coin_tag(TypeTag::Struct(Box::new(known.native_coin.duplicate()))),
            MoveStructType::StakedSui => known.staked_coin.duplicate(),
            MoveStructType::Coin(t) => coin_tag(t),
        }
    }
}

pub fn write_move_struct_type(out: &mut Vec<u8>, c: &MoveStructType)
    ensures
        final(out)@ == old(out)@ + enc_move_struct_type(c.model()),
{
    let ghost start = old(out)@;
    match c {
        MoveStructType::Other(s) => {
            out.push(0u8);
            write_struct_tag(out, s);
        },
        MoveStructType::GasCoin => out.push(1u8),
        MoveStructType::StakedSui => out.push(2u8),
        MoveStructType::Coin(t) => {
            out.push(3u8);
            write_type_tag(out, t);
        },
    }
    assert(out@ =~= start + enc_move_struct_type(c.model()));
}

pub fn read_move_struct_type(s: &[u8], pos: usize) -> (r: Option<(MoveStructType, usize)>)
    ensures
        match r {
            Some((v, e)) => parse_move_struct_type(s@, pos as int) == Some((v.model(), e as int)),
            None => parse_move_struct_type(s@, pos as int) is None,
        },
{
    match read_byte(s, pos) {
        Some((b, p)) => if b == 0 {
            match read_struct_tag(s, p) {
                Some((t, e)) => Some((MoveStructType::Other(t), e)),
                None => None,
            }
        } else if b == 1 {
            Some((MoveStructType::GasCoin, p))
        } else if b == 2 {
            Some((MoveStructType::StakedSui, p))
        } else if b == 3 {
            match read_type_tag(s, p) {
                Some((t, e)) => Some((MoveStructType::Coin(t), e)),
                None => None,
            }
        } else {
            None
        },
        None => None,
    }
}

pub open spec fn bfc_module() -> Seq<u8> {
    seq![98u8, 102u8, 99u8]
}

pub open spec fn bfc_name() -> Seq<u8> {
    seq![66u8, 70u8, 67u8]
}

pub open spec fn staking_pool_module() -> Seq<u8> {
    seq![115u8, 116u8, 97u8, 107u8, 105u8, 110u8, 103u8, 95u8, 112u8, 111u8, 111u8, 108u8]
}

pub open spec fn staked_bfc_name() -> Seq<u8> {
    seq![83u8, 116u8, 97u8, 107u8, 101u8, 100u8, 66u8, 102u8, 99u8]
}

/// The chain's table: `0x2::bfc::BFC` and `0x3::staking_pool::StakedBfc`.
pub open spec fn chain_well_known() -> WellKnownModel {
    WellKnownModel {
        native_coin: StructTagModel {
            address: low_byte_address(2),
            module: bfc_module(),
            name: bfc_name(),
            type_params: Seq::empty(),
        },
        staked_coin: StructTagModel {
            address: low_byte_address(3),
            module: staking_pool_module(),
            name: staked_bfc_name(),
            type_params: Seq::empty(),
        },
    }
}

proof fn lemma_chain_names_valid()
    ensures
        valid_identifier(bfc_module()),
        valid_identifier(bfc_name()),
        valid_identifier(staking_pool_module()),
        valid_identifier(staked_bfc_name()),
{
    assert forall|i: int| 1 <= i < bfc_module().len() implies #[trigger] crate::types::is_ident_char(
        bfc_module()[i],
    ) by {
        if i == 1 {
        } else {
        }
    }
    assert forall|i: int| 1 <= i < bfc_name().len() implies #[trigger] crate::types::is_ident_char(
        bfc_name()[i],
    ) by {
        if i == 1 {
        } else {
        }
    }
    assert forall|i: int|
        1 <= i < staking_pool_module().len() implies #[trigger] crate::types::is_ident_char(
        staking_pool_module()[i],
    ) by {
        let m = staking_pool_module();
        if i == 1 {
        } else if i == 2 {
        } else if i == 3 {
        } else if i == 4 {
        } else if i == 5 {
        } else if i == 6 {
        } else if i == 7 {
        } else if i == 8 {
        } else if i == 9 {
        } else if i == 10 {
        } else {
        }
    }
    assert forall|i: int| 1 <= i < staked_bfc_name().len() implies #[trigger] crate::types::is_ident_char(
        staked_bfc_name()[i],
    ) by {
        if i == 1 {
        } else if i == 2 {
        } else if i == 3 {
        } else if i == 4 {
        } else if i == 5 {
        } else if i == 6 {
        } else if i == 7 {
        } else {
        }
    }
}

impl WellKnownTypes {
    /// The chain's table of well-known struct types.
    pub fn chain() -> (r: WellKnownTypes)
        ensures
            r.model() == chain_well_known(),
    {
        proof {
            lemma_chain_names_valid();
        }
        let native_coin = StructTag {
            address: Address::from_low_byte(2),
            module: Identifier::from_valid(vec![98u8, 102u8, 99u8]),
            name: Identifier::from_valid(vec![66u8, 70u8, 67u8]),
            type_params: Vec::new(),
        };
        let staked_coin = StructTag {
            address: Address::from_low_byte(3),
            module: Identifier::from_valid(
                vec![115u8, 116u8, 97u8, 107u8, 105u8, 110u8, 103u8, 95u8, 112u8, 111u8, 111u8, 108u8],
            ),
            name: Identifier::from_valid(
                vec![83u8, 116u8, 97u8, 107u8, 101u8, 100u8, 66u8, 102u8, 99u8],
            ),
            type_params: Vec::new(),
        };
        let r = WellKnownTypes { native_coin, staked_coin };
        assert(r.model().native_coin.type_params =~= Seq::<TypeTagModel>::empty());
        assert(r.model().staked_coin.type_params =~= Seq::<TypeTagModel>::empty());
        r
    }
}

} // verus!
