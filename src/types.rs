use vstd::prelude::*;

verus! {

broadcast use vstd::std_specs::vec::group_vec_axioms, vstd::seq::group_seq_axioms;

/// Longest identifier that the chain accepts.
pub const MAX_IDENTIFIER_LENGTH: usize = 128;

/// Largest element count of a vector or map on the wire.
pub const MAX_SEQUENCE_LENGTH: usize = 2147483647;

/// A 32-byte chain address.
#[derive(Clone, Copy, Debug, PartialEq, Eq, Hash)]
pub struct Address {
    pub bytes: [u8; 32],
}

/// Object identifiers share the shape of addresses.
pub type ObjectId = Address;

/// A 32-byte content hash.
#[derive(Clone, Copy, Debug, PartialEq, Eq, Hash)]
pub struct Digest {
    pub bytes: [u8; 32],
}

pub type ObjectDigest = Digest;

pub type TransactionDigest = Digest;

/// Lamport version of an object.
pub type Version = u64;

impl Address {
    pub fn new(bytes: [u8; 32]) -> (r: Address)
        ensures
            r.bytes == bytes,
    {
        Address { bytes }
    }

    /// The address whose last byte is `last` and all others zero.
    pub fn from_low_byte(last: u8) -> (r: Address)
        ensures
            r@ == low_byte_address(last),
    {
        let mut bytes = [0u8; 32];
        bytes[31] = last;
        let r = Address { bytes };
        assert(r@ =~= low_byte_address(last));
        r
    }

    /// Exactly the first 32 bytes of `b`, or `None` when `b` is shorter.
    pub fn from_bytes(b: &[u8]) -> (r: Option<Address>)
        ensures
            b@.len() < 32 <==> r is None,
            r matches Some(a) ==> a@ == b@.subrange(0, 32),
    {
        if b.len() < 32 {
            return None;
        }
        let mut bytes = [0u8; 32];
        let mut i: usize = 0;
        while i < 32
            invariant
                0 <= i <= 32,
                b@.len() >= 32,
                bytes@.len() == 32,
                forall|j: int| 0 <= j < i ==> bytes@[j] == b@[j],
            decreases 32 - i,
        {
            bytes[i] = b[i];
            i = i + 1;
        }
        let a = Address { bytes };
        assert(a@ =~= b@.subrange(0, 32));
        Some(a)
    }

    pub fn as_bytes(&self) -> (r: &[u8; 32])
        ensures
            r@ == self@,
    {
        &self.bytes
    }

    /// Byte-wise equality.
    pub fn equals(&self, other: &Address) -> (r: bool)
        ensures
            r == (self@ == other@),
    {
        let mut i: usize = 0;
        while i < 32
            invariant
                0 <= i <= 32,
                self@.len() == 32,
                other@.len() == 32,
                forall|j: int| 0 <= j < i ==> self@[j] == other@[j],
            decreases 32 - i,
        {
            if self.bytes[i] != other.bytes[i] {
                return false;
            }
            i = i + 1;
        }
        assert(self@ =~= other@);
        true
    }
}

impl View for Address {
    type V = Seq<u8>;

    open spec fn view(&self) -> Seq<u8> {
        self.bytes@
    }
}

impl Digest {
    pub fn new(bytes: [u8; 32]) -> (r: Digest)
        ensures
            r.bytes == bytes,
    {
        Digest { bytes }
    }
}

impl View for Digest {
    type V = Seq<u8>;

    open spec fn view(&self) -> Seq<u8> {
        self.bytes@
    }
}

/// The 32 bytes of an address that is zero but for its last byte.
pub open spec fn low_byte_address(last: u8) -> Seq<u8> {
    Seq::new(32, |i: int| if i == 31 { last } else { 0u8 })
}

pub open spec fn is_ident_start(b: u8) -> bool {
    (97 <= b <= 122) || (65 <= b <= 90)
}

pub open spec fn is_ident_char(b: u8) -> bool {
    is_ident_start(b) || (48 <= b <= 57) || b == 95
}

/// A Move identifier: a letter then letters, digits and underscores, or an
/// underscore followed by at least one such character; at most 128 bytes.
pub open spec fn valid_identifier(s: Seq<u8>) -> bool {
    &&& 0 < s.len() <= MAX_IDENTIFIER_LENGTH
    &&& (is_ident_start(s[0]) || (s[0] == 95 && s.len() > 1))
    &&& forall|i: int| 1 <= i < s.len() ==> is_ident_char(#[trigger] s[i])
}

/// A validated module, type or field name, held as its ASCII bytes.
#[derive(Clone, Debug, PartialEq, Eq, Hash)]
pub struct Identifier {
    bytes: Vec<u8>,
}

impl View for Identifier {
    type V = Seq<u8>;

    closed spec fn view(&self) -> Seq<u8> {
        self.bytes@
    }
}

pub fn is_valid_identifier(s: &[u8]) -> (r: bool)
    ensures
        r == valid_identifier(s@),
{
    let n = s.len();
    if n == 0 || n > MAX_IDENTIFIER_LENGTH {
        return false;
    }
    let c0 = s[0];
    let start_ok = (97 <= c0 && c0 <= 122) || (65 <= c0 && c0 <= 90) || (c0 == 95 && n > 1);
    if !start_ok {
        return false;
    }
    let mut i: usize = 1;
    while i < n
        invariant
            1 <= i <= n,
            n == s@.len(),
            forall|j: int| 1 <= j < i ==> is_ident_char(#[trigger] s@[j]),
        decreases n - i,
    {
        let c = s[i];
        if !((97 <= c && c <= 122) || (65 <= c && c <= 90) || (48 <= c && c <= 57) || c == 95) {
            return false;
        }
        i = i + 1;
    }
    true
}

impl Identifier {
    /// The identifier spelled by `bytes`, or `None` when they do not form one.
    pub fn new(bytes: Vec<u8>) -> (r: Option<Identifier>)
        ensures
            valid_identifier(bytes@) <==> r is Some,
            r matches Some(id) ==> id@ == bytes@,
    {
        if is_valid_identifier(bytes.as_slice()) {
            Some(Identifier { bytes })
        } else {
            None
        }
    }

    /// The identifier spelled by `bytes`, which are known to form one.
    pub fn from_valid(bytes: Vec<u8>) -> (r: Identifier)
        requires
            valid_identifier(bytes@),
        ensures
            r@ == bytes@,
    {
        Identifier { bytes }
    }

    pub fn as_bytes(&self) -> (r: &[u8])
        ensures
            r@ == self@,
    {
        self.bytes.as_slice()
    }

    pub fn duplicate(&self) -> (r: Identifier)
        ensures
            r@ == self@,
    {
        Identifier { bytes: vstd::slice::slice_to_vec(self.bytes.as_slice()) }
    }

    /// Whether the identifier is spelled by exactly `s`.
    pub fn is(&self, s: &[u8]) -> (r: bool)
        ensures
            r == (self@ == s@),
    {
        if self.bytes.len() != s.len() {
            return false;
        }
        let mut i: usize = 0;
        while i < s.len()
            invariant
                0 <= i <= s@.len(),
                self@.len() == s@.len(),
                forall|j: int| 0 <= j < i ==> self@[j] == s@[j],
            decreases s@.len() - i,
        {
            if self.bytes[i] != s[i] {
                return false;
            }
            i = i + 1;
        }
        assert(self@ =~= s@);
        true
    }
}

/// The fully qualified name of a Move struct type, with its type arguments.
#[derive(Debug, PartialEq, Eq, Hash)]
pub struct StructTag {
    pub address: Address,
    pub module: Identifier,
    pub name: Identifier,
    pub type_params: Vec<TypeTag>,
}

/// A Move type.
#[derive(Debug, PartialEq, Eq, Hash)]
pub enum TypeTag {
    Bool,
    U8,
    U64,
    U128,
    Address,
    Signer,
    Vector(Box<TypeTag>),
    Struct(Box<StructTag>),
    U16,
    U32,
    U256,
}

/// What a `StructTag` denotes.
pub struct StructTagModel {
    pub address: Seq<u8>,
    pub module: Seq<u8>,
    pub name: Seq<u8>,
    pub type_params: Seq<TypeTagModel>,
}

/// What a `TypeTag` denotes.
pub enum TypeTagModel {
    Bool,
    U8,
    U64,
    U128,
    Address,
    Signer,
    Vector(Box<TypeTagModel>),
    Struct(StructTagModel),
    U16,
    U32,
    U256,
}

impl TypeTag {
    pub open spec fn model(&self) -> TypeTagModel
        decreases self, 0nat,
    {
        match self {
            TypeTag::Bool => TypeTagModel::Bool,
            TypeTag::U8 => TypeTagModel::U8,
            TypeTag::U64 => TypeTagModel::U64,
            TypeTag::U128 => TypeTagModel::U128,
            TypeTag::Address => TypeTagModel::Address,
            TypeTag::Signer => TypeTagModel::Signer,
            TypeTag::Vector(b) => TypeTagModel::Vector(Box::new(b.model())),
            TypeTag::Struct(s) => TypeTagModel::Struct(s.model()),
            TypeTag::U16 => TypeTagModel::U16,
            TypeTag::U32 => TypeTagModel::U32,
            TypeTag::U256 => TypeTagModel::U256,
        }
    }
}

impl StructTag {
    pub open spec fn model(&self) -> StructTagModel
        decreases self, 1nat,
    {
        StructTagModel {
            address: self.address@,
            module: self.module@,
            name: self.name@,
            type_params: Seq::new(
                self.type_params.len() as nat,
                |i: int|
                    if 0 <= i < self.type_params.len() {
                        self.type_params@[i].model()
                    } else {
                        TypeTagModel::Bool
                    },
            ),
        }
    }
}

/// Every name in the type is a valid identifier and every argument list fits the wire.
pub open spec fn type_tag_wf(t: TypeTagModel) -> bool
    decreases t, 0nat,
{
    match t {
        TypeTagModel::Vector(b) => type_tag_wf(*b),
        TypeTagModel::Struct(s) => struct_tag_wf(s),
        _ => true,
    }
}

pub open spec fn struct_tag_wf(s: StructTagModel) -> bool
    decreases s, 1nat,
{
    &&& s.address.len() == 32
    &&& valid_identifier(s.module)
    &&& valid_identifier(s.name)
    &&& s.type_params.len() <= MAX_SEQUENCE_LENGTH
    &&& forall|i: int| 0 <= i < s.type_params.len() ==> type_tag_wf(#[trigger] s.type_params[i])
}

impl StructTag {
    /// Builds a tag from its parts.
    pub fn new(address: Address, module: Identifier, name: Identifier, type_params: Vec<TypeTag>) -> (r: StructTag)
        ensures
            r.address == address,
            r.module == module,
            r.name == name,
            r.type_params == type_params,
    {
        StructTag { address, module, name, type_params }
    }

    pub fn duplicate(&self) -> (r: StructTag)
        ensures
            r.model() == self.model(),
        decreases self, 1nat,
    {
        let mut params: Vec<TypeTag> = Vec::new();
        let mut i: usize = 0;
        while i < self.type_params.len()
            invariant
                0 <= i <= self.type_params.len(),
                params.len() == i,
                forall|j: int| 0 <= j < i ==> (#[trigger] params@[j]).model() == self.type_params@[j].model(),
            decreases self.type_params.len() - i,
        {
            proof {
                assert(decreases_to!(self => self.type_params@[i as int]));
            }
            params.push(self.type_params[i].duplicate());
            i = i + 1;
        }
        let r = StructTag {
            address: self.address,
            module: self.module.duplicate(),
            name: self.name.duplicate(),
            type_params: params,
        };
        assert(r.model().type_params =~= self.model().type_params);
        r
    }

    /// Structural equality of the denoted types.
    pub fn equals(&self, other: &StructTag) -> (r: bool)
        ensures
            r == (self.model() == other.model()),
        decreases self, 1nat,
    {
        if !self.address.equals(&other.address) || !self.module.is(other.module.as_bytes())
            || !self.name.is(other.name.as_bytes()) || self.type_params.len()
            != other.type_params.len() {
            proof {
                if self.model() == other.model() {
                    assert(self.model().type_params.len() == other.model().type_params.len());
                }
            }
            return false;
        }
        let mut i: usize = 0;
        while i < self.type_params.len()
            invariant
                0 <= i <= self.type_params.len(),
                self.type_params.len() == other.type_params.len(),
                forall|j: int|
                    0 <= j < i ==> (#[trigger] self.type_params@[j]).model()
                        == other.type_params@[j].model(),
            decreases self.type_params.len() - i,
        {
            proof {
                assert(decreases_to!(self => self.type_params@[i as int]));
            }
            if !self.type_params[i].equals(&other.type_params[i]) {
                proof {
                    if self.model() == other.model() {
                        assert(self.model().type_params[i as int] == other.model().type_params[i as int]);
                    }
                }
                return false;
            }
            i = i + 1;
        }
        assert(self.model().type_params =~= other.model().type_params);
        true
    }
}

impl TypeTag {
    pub fn duplicate(&self) -> (r: TypeTag)
        ensures
            r.model() == self.model(),
        decreases self, 0nat,
    {
        match self {
            TypeTag::Bool => TypeTag::Bool,
            TypeTag::U8 => TypeTag::U8,
            TypeTag::U64 => TypeTag::U64,
            TypeTag::U128 => TypeTag::U128,
            TypeTag::Address => TypeTag::Address,
            TypeTag::Signer => TypeTag::Signer,
            TypeTag::Vector(b) => TypeTag::Vector(Box::new((**b).duplicate())),
            TypeTag::Struct(s) => TypeTag::Struct(Box::new((**s).duplicate())),
            TypeTag::U16 => TypeTag::U16,
            TypeTag::U32 => TypeTag::U32,
            TypeTag::U256 => TypeTag::U256,
        }
    }

    /// Structural equality of the denoted types.
    pub fn equals(&self, other: &TypeTag) -> (r: bool)
        ensures
            r == (self.model() == other.model()),
        decreases self, 0nat,
    {
        match (self, other) {
            (TypeTag::Bool, TypeTag::Bool) => true,
            (TypeTag::U8, TypeTag::U8) => true,
            (TypeTag::U64, TypeTag::U64) => true,
            (TypeTag::U128, TypeTag::U128) => true,
            (TypeTag::Address, TypeTag::Address) => true,
            (TypeTag::Signer, TypeTag::Signer) => true,
            (TypeTag::U16, TypeTag::U16) => true,
            (TypeTag::U32, TypeTag::U32) => true,
            (TypeTag::U256, TypeTag::U256) => true,
            (TypeTag::Vector(a), TypeTag::Vector(b)) => (**a).equals(&**b),
            (TypeTag::Struct(a), TypeTag::Struct(b)) => (**a).equals(&**b),
            _ => false,
        }
    }
}

} // verus!
