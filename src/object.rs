//! On-chain objects: ownership, struct and package payloads, and the values
//! derived from them.
use vstd::prelude::*;

use crate::order::{
    bytes_equal, entries_after_insert, last_wins, lemma_insert_at, lemma_lex_total,
    lemma_replace_at, lex_less, lex_lt, strictly_sorted,
};
use crate::types::{
    Address, Identifier, ObjectDigest, ObjectId, StructTag, StructTagModel,
    TransactionDigest, Version,
};

verus! {

broadcast use vstd::std_specs::vec::group_vec_axioms, vstd::seq::group_seq_axioms;

/// Pins one version of one object.
#[derive(Clone, Copy, Debug, PartialEq, Eq)]
pub struct ObjectReference {
    object_id: ObjectId,
    version: Version,
    digest: ObjectDigest,
}

impl ObjectReference {
    pub closed spec fn model(&self) -> (Seq<u8>, u64, Seq<u8>) {
        (self.object_id@, self.version, self.digest@)
    }

    /// Creates a new object reference from the object's id, version, and digest.
    pub fn new(object_id: ObjectId, version: Version, digest: ObjectDigest) -> (r: ObjectReference)
        ensures
            r.model() == (object_id@, version, digest@),
    {
        ObjectReference { object_id, version, digest }
    }

    pub fn object_id(&self) -> (r: &ObjectId)
        ensures
            r@ == self.model().0,
    {
        &self.object_id
    }

    pub fn version(&self) -> (r: Version)
        ensures
            r == self.model().1,
    {
        self.version
    }

    pub fn digest(&self) -> (r: &ObjectDigest)
        ensures
            r@ == self.model().2,
    {
        &self.digest
    }

    /// The object id, version, and digest.
    pub fn into_parts(self) -> (r: (ObjectId, Version, ObjectDigest))
        ensures
            (r.0@, r.1, r.2@) == self.model(),
    {
        let ObjectReference { object_id, version, digest } = self;
        (object_id, version, digest)
    }
}

/// Who may use and mutate an object.
#[derive(Clone, Copy, Debug, PartialEq, Eq, Hash)]
pub enum Owner {
    /// Exclusively owned by a single address, and mutable.
    Address(Address),
    /// Exclusively owned by a single object, and mutable.
    Object(ObjectId),
    /// Shared, usable by any address, and mutable; holds the version at
    /// which it became shared.
    Shared(Version),
    /// Immutable; ownership does not matter.
    Immutable,
    /// Exclusively owned by a single address and sequenced via consensus.
    ConsensusAddress {
        /// The version at which the object most recently became a consensus object.
        start_version: Version,
        /// The owner of the object.
        owner: Address,
    },
}

pub enum OwnerModel {
    Address(Seq<u8>),
    Object(Seq<u8>),
    Shared(u64),
    Immutable,
    ConsensusAddress(u64, Seq<u8>),
}

impl Owner {
    pub open spec fn model(&self) -> OwnerModel {
        match *self {
            Owner::Address(a) => OwnerModel::Address(a@),
            Owner::Object(a) => OwnerModel::Object(a@),
            Owner::Shared(v) => OwnerModel::Shared(v),
            Owner::Immutable => OwnerModel::Immutable,
            Owner::ConsensusAddress { start_version, owner } => OwnerModel::ConsensusAddress(
                start_version,
                owner@,
            ),
        }
    }
}

/// Records which package version first defined a type.
#[derive(Clone, Debug, PartialEq, Eq, Hash)]
pub struct TypeOrigin {
    pub module_name: Identifier,
    pub struct_name: Identifier,
    pub package: ObjectId,
}

pub struct TypeOriginModel {
    pub module_name: Seq<u8>,
    pub struct_name: Seq<u8>,
    pub package: Seq<u8>,
}

impl TypeOrigin {
    pub open spec fn model(&self) -> TypeOriginModel {
        TypeOriginModel {
            module_name: self.module_name@,
            struct_name: self.struct_name@,
            package: self.package@,
        }
    }

}

/// The package that a dependency was upgraded to.
#[derive(Clone, Copy, Debug, PartialEq, Eq, Hash)]
pub struct UpgradeInfo {
    pub upgraded_id: ObjectId,
    pub upgraded_version: Version,
}

impl UpgradeInfo {
    pub open spec fn model(&self) -> (Seq<u8>, u64) {
        (self.upgraded_id@, self.upgraded_version)
    }
}

/// Module name to module bytes, and the id each dependency was first
/// published at to the upgrade it is used at,
/// each kept in ascending key order with every key once.
#[derive(Debug, PartialEq, Eq)]
pub struct MovePackage {
    id: ObjectId,
    version: Version,
    modules: Vec<(Identifier, Vec<u8>)>,
    type_origin_table: Vec<TypeOrigin>,
    linkage_table: Vec<(ObjectId, UpgradeInfo)>,
}

pub struct PackageModel {
    pub id: Seq<u8>,
    pub version: u64,
    pub modules: Seq<(Seq<u8>, Seq<u8>)>,
    pub type_origin_table: Seq<TypeOriginModel>,
    pub linkage_table: Seq<(Seq<u8>, (Seq<u8>, u64))>,
}

pub open spec fn modules_model(v: Seq<(Identifier, Vec<u8>)>) -> Seq<(Seq<u8>, Seq<u8>)> {
    Seq::new(v.len(), |i: int| (v[i].0@, v[i].1@))
}

pub open spec fn origins_model(v: Seq<TypeOrigin>) -> Seq<TypeOriginModel> {
    Seq::new(v.len(), |i: int| v[i].model())
}

pub open spec fn linkage_model(v: Seq<(ObjectId, UpgradeInfo)>) -> Seq<(Seq<u8>, (Seq<u8>, u64))> {
    Seq::new(v.len(), |i: int| (v[i].0@, v[i].1.model()))
}

/// Puts module `name` into a name-sorted list, replacing the bytes it had.
fn put_module(v: &mut Vec<(Identifier, Vec<u8>)>, name: Identifier, bytes: Vec<u8>)
    requires
        strictly_sorted(modules_model(old(v)@)),
    ensures
        strictly_sorted(modules_model(final(v)@)),
        modules_model(final(v)@).to_set() == entries_after_insert(
            modules_model(old(v)@),
            name@,
            bytes@,
        ),
{
    let ghost m = modules_model(v@);
    let ghost k = name@;
    let mut i: usize = 0;
    while i < v.len()
        invariant
            0 <= i <= v.len(),
            m == modules_model(v@),
            k == name@,
            forall|j: int| 0 <= j < i ==> lex_lt(#[trigger] m[j].0, k),
        ensures
            0 <= i <= v.len(),
            forall|j: int| 0 <= j < i ==> lex_lt(#[trigger] m[j].0, k),
            i < v.len() ==> !lex_lt(m[i as int].0, k),
        decreases v.len() - i,
    {
        assert(m[i as int].0 == v@[i as int].0@);
        let less = lex_less(v[i].0.as_bytes(), name.as_bytes());
        if !less {
            assert(!lex_lt(m[i as int].0, k));
            break;
        }
        assert(lex_lt(m[i as int].0, k));
        i = i + 1;
    }
    proof {
        if i < v.len() {
            assert(m[i as int].0 == v@[i as int].0@);
        }
    }
    if i < v.len() && bytes_equal(v[i].0.as_bytes(), name.as_bytes()) {
        proof {
            lemma_replace_at(m, i as int, k, bytes@);
        }
        v.set(i, (name, bytes));
        assert(modules_model(v@) =~= m.update(i as int, (k, bytes@)));
    } else {
        proof {
            if i < m.len() {
                lemma_lex_total(m[i as int].0, k);
            }
            lemma_insert_at(m, i as int, k, bytes@);
        }
        v.insert(i, (name, bytes));
        assert(modules_model(v@) =~= m.insert(i as int, (k, bytes@)));
    }
}

/// Puts the entry of dependency `id` into an id-sorted list, replacing the one it had.
fn put_linkage(v: &mut Vec<(ObjectId, UpgradeInfo)>, id: ObjectId, info: UpgradeInfo)
    requires
        strictly_sorted(linkage_model(old(v)@)),
    ensures
        strictly_sorted(linkage_model(final(v)@)),
        linkage_model(final(v)@).to_set() == entries_after_insert(
            linkage_model(old(v)@),
            id@,
            info.model(),
        ),
{
    let ghost m = linkage_model(v@);
    let ghost k = id@;
    let mut i: usize = 0;
    while i < v.len()
        invariant
            0 <= i <= v.len(),
            m == linkage_model(v@),
            k == id@,
            forall|j: int| 0 <= j < i ==> lex_lt(#[trigger] m[j].0, k),
        ensures
            0 <= i <= v.len(),
            forall|j: int| 0 <= j < i ==> lex_lt(#[trigger] m[j].0, k),
            i < v.len() ==> !lex_lt(m[i as int].0, k),
        decreases v.len() - i,
    {
        assert(m[i as int].0 == v@[i as int].0@);
        let less = lex_less(v[i].0.as_bytes().as_slice(), id.as_bytes().as_slice());
        if !less {
            assert(!lex_lt(m[i as int].0, k));
            break;
        }
        assert(lex_lt(m[i as int].0, k));
        i = i + 1;
    }
    proof {
        if i < v.len() {
            assert(m[i as int].0 == v@[i as int].0@);
        }
    }
    if i < v.len() && v[i].0.equals(&id) {
        proof {
            lemma_replace_at(m, i as int, k, info.model());
        }
        v.set(i, (id, info));
        assert(linkage_model(v@) =~= m.update(i as int, (k, info.model())));
    } else {
        proof {
            if i < m.len() {
                lemma_lex_total(m[i as int].0, k);
            }
            lemma_insert_at(m, i as int, k, info.model());
        }
        v.insert(i, (id, info));
        assert(linkage_model(v@) =~= m.insert(i as int, (k, info.model())));
    }
}

impl MovePackage {
    #[verifier::type_invariant]
    spec fn sorted(self) -> bool {
        &&& strictly_sorted(modules_model(self.modules@))
        &&& strictly_sorted(linkage_model(self.linkage_table@))
    }

    pub closed spec fn model(&self) -> PackageModel {
        PackageModel {
            id: self.id@,
            version: self.version,
            modules: modules_model(self.modules@),
            type_origin_table: origins_model(self.type_origin_table@),
            linkage_table: linkage_model(self.linkage_table@),
        }
    }

    /// A package of the given modules and dependencies. Each table keeps one
    /// entry per key, the last one given, in ascending key order.
    pub fn new(
        id: ObjectId,
        version: Version,
        modules: Vec<(Identifier, Vec<u8>)>,
        type_origin_table: Vec<TypeOrigin>,
        linkage_table: Vec<(ObjectId, UpgradeInfo)>,
    ) -> (r: MovePackage)
        ensures
            r.model().id == id@,
            r.model().version == version,
            r.model().modules.to_set() == last_wins(modules_model(modules@)),
            r.model().type_origin_table == origins_model(type_origin_table@),
            r.model().linkage_table.to_set() == last_wins(linkage_model(linkage_table@)),
            strictly_sorted(r.model().modules),
            strictly_sorted(r.model().linkage_table),
    {
        let ghost input_m = modules_model(modules@);
        let mut sorted_modules: Vec<(Identifier, Vec<u8>)> = Vec::new();
        let mut rest = modules;
        let total: usize = rest.len();
        let mut n: usize = 0;
        assert(modules_model(sorted_modules@).to_set() =~= Set::empty());
        assert(input_m.subrange(0, 0) =~= Seq::empty());
        while rest.len() > 0
            invariant
                n + rest.len() == input_m.len(),
                input_m.len() == total,
                forall|j: int| 0 <= j < rest.len() ==> input_m[n + j] == ((#[trigger] rest@[j]).0@, rest@[j].1@),
                strictly_sorted(modules_model(sorted_modules@)),
                modules_model(sorted_modules@).to_set() == last_wins(input_m.subrange(0, n as int)),
            decreases rest.len(),
        {
            let ghost before = rest@;
            let (name, bytes) = rest.remove(0);
            proof {
                assert((name@, bytes@) == input_m[n as int]) by {
                    assert(before[0] == (name, bytes));
                    assert(input_m[n + 0] == ((before[0]).0@, before[0].1@));
                }
                assert forall|j: int| 0 <= j < rest.len() implies input_m[n + 1 + j] == ((#[trigger] rest@[j]).0@, rest@[j].1@) by {
                    assert(rest@[j] == before[j + 1]);
                    assert(input_m[n + (j + 1)] == ((before[j + 1]).0@, before[j + 1].1@));
                }
                let pre = input_m.subrange(0, n as int + 1);
                assert(pre.drop_last() =~= input_m.subrange(0, n as int));
                assert(pre.last() == input_m[n as int]);
            }
            put_module(&mut sorted_modules, name, bytes);
            n = n + 1;
        }
        let ghost input_l = linkage_model(linkage_table@);
        let mut sorted_linkage: Vec<(ObjectId, UpgradeInfo)> = Vec::new();
        let mut rest = linkage_table;
        let total: usize = rest.len();
        let mut n: usize = 0;
        assert(linkage_model(sorted_linkage@).to_set() =~= Set::empty());
        while rest.len() > 0
            invariant
                n + rest.len() == input_l.len(),
                input_l.len() == total,
                forall|j: int| 0 <= j < rest.len() ==> input_l[n + j] == ((#[trigger] rest@[j]).0@, rest@[j].1.model()),
                strictly_sorted(linkage_model(sorted_linkage@)),
                linkage_model(sorted_linkage@).to_set() == last_wins(input_l.subrange(0, n as int)),
            decreases rest.len(),
        {
            let ghost before = rest@;
            let (pid, info) = rest.remove(0);
            proof {
                assert((pid@, info.model()) == input_l[n as int]) by {
                    assert(before[0] == (pid, info));
                    assert(input_l[n + 0] == ((before[0]).0@, before[0].1.model()));
                }
                assert forall|j: int| 0 <= j < rest.len() implies input_l[n + 1 + j] == ((#[trigger] rest@[j]).0@, rest@[j].1.model()) by {
                    assert(rest@[j] == before[j + 1]);
                }
                let pre = input_l.subrange(0, n as int + 1);
                assert(pre.drop_last() =~= input_l.subrange(0, n as int));
                assert(pre.last() == input_l[n as int]);
            }
            put_linkage(&mut sorted_linkage, pid, info);
            n = n + 1;
        }
        assert(input_m.subrange(0, input_m.len() as int) =~= input_m);
        assert(input_l.subrange(0, input_l.len() as int) =~= input_l);
        MovePackage {
            id,
            version,
            modules: sorted_modules,
            type_origin_table,
            linkage_table: sorted_linkage,
        }
    }

    /// A package from tables that are already in ascending key order.
    pub(crate) fn from_sorted(
        id: ObjectId,
        version: Version,
        modules: Vec<(Identifier, Vec<u8>)>,
        type_origin_table: Vec<TypeOrigin>,
        linkage_table: Vec<(ObjectId, UpgradeInfo)>,
    ) -> (r: MovePackage)
        requires
            strictly_sorted(modules_model(modules@)),
            strictly_sorted(linkage_model(linkage_table@)),
        ensures
            r.model() == (PackageModel {
                id: id@,
                version,
                modules: modules_model(modules@),
                type_origin_table: origins_model(type_origin_table@),
                linkage_table: linkage_model(linkage_table@),
            }),
    {
        MovePackage { id, version, modules, type_origin_table, linkage_table }
    }

    pub fn id(&self) -> (r: ObjectId)
        ensures
            r@ == self.model().id,
    {
        self.id
    }

    pub fn version(&self) -> (r: Version)
        ensures
            r == self.model().version,
    {
        self.version
    }

    pub fn modules(&self) -> (r: &Vec<(Identifier, Vec<u8>)>)
        ensures
            modules_model(r@) == self.model().modules,
            strictly_sorted(self.model().modules),
    {
        proof {
            use_type_invariant(self);
        }
        &self.modules
    }

    pub fn type_origin_table(&self) -> (r: &Vec<TypeOrigin>)
        ensures
            origins_model(r@) == self.model().type_origin_table,
    {
        &self.type_origin_table
    }

    pub fn linkage_table(&self) -> (r: &Vec<(ObjectId, UpgradeInfo)>)
        ensures
            linkage_model(r@) == self.model().linkage_table,
            strictly_sorted(self.model().linkage_table),
    {
        proof {
            use_type_invariant(self);
        }
        &self.linkage_table
    }

}

/// The identifier held in the first 32 bytes of a struct's contents, or
/// `None` when the contents are shorter.
pub fn id_opt(contents: &[u8]) -> (r: Option<ObjectId>)
    ensures
        contents@.len() < 32 <==> r is None,
        r matches Some(a) ==> a@ == contents@.subrange(0, 32),
{
    Address::from_bytes(contents)
}

/// A Move struct value and its type. The contents start with the object's id.
#[derive(Debug, PartialEq, Eq)]
pub struct MoveStruct {
    type_: StructTag,
    has_public_transfer: bool,
    version: Version,
    contents: Vec<u8>,
}

pub struct MoveStructModel {
    pub type_: StructTagModel,
    pub has_public_transfer: bool,
    pub version: u64,
    pub contents: Seq<u8>,
}

/// Why a value could not be built or read.
#[derive(Clone, Copy, Debug, PartialEq, Eq)]
pub enum Error {
    /// Invalid tag, truncated buffer, or bytes left after a complete value.
    MalformedEncoding,
    /// Struct contents too short to start with an object id.
    InvalidObjectContents,
    /// A textual number that does not parse as the target type.
    InvalidNumberLiteral,
    /// Text that is valid under neither base64 alphabet.
    InvalidByteString,
}

impl MoveStruct {
    #[verifier::type_invariant]
    spec fn holds_id(self) -> bool {
        self.contents.len() >= 32
    }

    pub closed spec fn model(&self) -> MoveStructModel {
        MoveStructModel {
            type_: self.type_.model(),
            has_public_transfer: self.has_public_transfer,
            version: self.version,
            contents: self.contents@,
        }
    }

    /// A struct of these parts; contents shorter than an object id are refused.
    pub fn new(type_: StructTag, has_public_transfer: bool, version: Version, contents: Vec<u8>) -> (r:
        Result<MoveStruct, Error>)
        ensures
            contents@.len() < 32 <==> r is Err,
            r matches Err(e) ==> e == Error::InvalidObjectContents,
            r matches Ok(m) ==> m.model() == (MoveStructModel {
                type_: type_.model(),
                has_public_transfer,
                version,
                contents: contents@,
            }),
    {
        match id_opt(contents.as_slice()) {
            Some(_) => Ok(MoveStruct { type_, has_public_transfer, version, contents }),
            None => Err(Error::InvalidObjectContents),
        }
    }

    /// The type of the struct.
    pub fn object_type(&self) -> (r: &StructTag)
        ensures
            r.model() == self.model().type_,
    {
        &self.type_
    }

    /// Kept for the wire format only; decides nothing.
    pub fn has_public_transfer(&self) -> (r: bool)
        ensures
            r == self.model().has_public_transfer,
    {
        self.has_public_transfer
    }

    pub fn version(&self) -> (r: Version)
        ensures
            r == self.model().version,
    {
        self.version
    }

    /// The raw contents of the struct.
    pub fn contents(&self) -> (r: &[u8])
        ensures
            r@ == self.model().contents,
    {
        self.contents.as_slice()
    }

    /// The object id: the first 32 bytes of the contents.
    pub fn object_id(&self) -> (r: ObjectId)
        ensures
            r@ == self.model().contents.subrange(0, 32),
    {
        proof {
            use_type_invariant(self);
        }
        id_opt(self.contents.as_slice()).unwrap()
    }

}

/// Object data: a struct or a package.
#[derive(Debug, PartialEq, Eq)]
pub enum ObjectData {
    /// An object whose governing logic lives in a published Move module.
    Struct(MoveStruct),
    /// Modules and their dependencies.
    Package(MovePackage),
}

pub enum ObjectDataModel {
    Struct(MoveStructModel),
    Package(PackageModel),
}

impl ObjectData {
    pub open spec fn model(&self) -> ObjectDataModel {
        match self {
            ObjectData::Struct(s) => ObjectDataModel::Struct(s.model()),
            ObjectData::Package(p) => ObjectDataModel::Package(p.model()),
        }
    }

    pub fn object_id(&self) -> (r: ObjectId)
        ensures
            r@ == data_object_id(self.model()),
    {
        match self {
            ObjectData::Struct(s) => s.object_id(),
            ObjectData::Package(p) => p.id(),
        }
    }

    pub fn version(&self) -> (r: Version)
        ensures
            r == data_version(self.model()),
    {
        match self {
            ObjectData::Struct(s) => s.version(),
            ObjectData::Package(p) => p.version(),
        }
    }

    pub fn object_type(&self) -> (r: ObjectType)
        ensures
            r.model() == data_object_type(self.model()),
    {
        match self {
            ObjectData::Struct(s) => ObjectType::Struct(s.object_type().duplicate()),
            ObjectData::Package(_) => ObjectType::Package,
        }
    }
}

/// The id of an object: the contents' first 32 bytes, or the package id.
pub open spec fn data_object_id(d: ObjectDataModel) -> Seq<u8> {
    match d {
        ObjectDataModel::Struct(s) => s.contents.subrange(0, 32),
        ObjectDataModel::Package(p) => p.id,
    }
}

pub open spec fn data_version(d: ObjectDataModel) -> u64 {
    match d {
        ObjectDataModel::Struct(s) => s.version,
        ObjectDataModel::Package(p) => p.version,
    }
}

pub open spec fn data_object_type(d: ObjectDataModel) -> ObjectTypeModel {
    match d {
        ObjectDataModel::Struct(s) => ObjectTypeModel::Struct(s.type_),
        ObjectDataModel::Package(_) => ObjectTypeModel::Package,
    }
}

/// The type of an object.
#[derive(Debug, PartialEq, Eq)]
pub enum ObjectType {
    /// A package of one or more modules.
    Package,
    /// A struct of the given type.
    Struct(StructTag),
}

pub enum ObjectTypeModel {
    Package,
    Struct(StructTagModel),
}

impl ObjectType {
    pub open spec fn model(&self) -> ObjectTypeModel {
        match self {
            ObjectType::Package => ObjectTypeModel::Package,
            ObjectType::Struct(s) => ObjectTypeModel::Struct(s.model()),
        }
    }
}

/// An object: its data, its owner, the transaction that last changed it,
/// and the storage rebate it holds.
#[derive(Debug, PartialEq, Eq)]
pub struct Object {
    data: ObjectData,
    owner: Owner,
    previous_transaction: TransactionDigest,
    storage_rebate: u64,
}

pub struct ObjectModel {
    pub data: ObjectDataModel,
    pub owner: OwnerModel,
    pub previous_transaction: Seq<u8>,
    pub storage_rebate: u64,
}

impl Object {
    pub closed spec fn model(&self) -> ObjectModel {
        ObjectModel {
            data: self.data.model(),
            owner: self.owner.model(),
            previous_transaction: self.previous_transaction@,
            storage_rebate: self.storage_rebate,
        }
    }

    /// Build an object.
    pub fn new(data: ObjectData, owner: Owner, previous_transaction: TransactionDigest, storage_rebate: u64) -> (r:
        Object)
        ensures
            r.model() == (ObjectModel {
                data: data.model(),
                owner: owner.model(),
                previous_transaction: previous_transaction@,
                storage_rebate,
            }),
    {
        Object { data, owner, previous_transaction, storage_rebate }
    }

    /// This object's id.
    pub fn object_id(&self) -> (r: ObjectId)
        ensures
            r@ == data_object_id(self.model().data),
    {
        self.data.object_id()
    }

    /// This object's version.
    pub fn version(&self) -> (r: Version)
        ensures
            r == data_version(self.model().data),
    {
        self.data.version()
    }

    /// This object's type.
    pub fn object_type(&self) -> (r: ObjectType)
        ensures
            r.model() == data_object_type(self.model().data),
    {
        self.data.object_type()
    }

    /// The struct, when the object is one.
    pub fn as_struct(&self) -> (r: Option<&MoveStruct>)
        ensures
            match self.model().data {
                ObjectDataModel::Struct(m) => r matches Some(s) && s.model() == m,
                ObjectDataModel::Package(_) => r is None,
            },
    {
        match &self.data {
            ObjectData::Struct(s) => Some(s),
            _ => None,
        }
    }

    pub fn owner(&self) -> (r: &Owner)
        ensures
            r.model() == self.model().owner,
    {
        &self.owner
    }

    pub fn data(&self) -> (r: &ObjectData)
        ensures
            r.model() == self.model().data,
    {
        &self.data
    }

    /// The digest of the transaction that last modified this object.
    pub fn previous_transaction(&self) -> (r: TransactionDigest)
        ensures
            r@ == self.model().previous_transaction,
    {
        self.previous_transaction
    }

    /// The storage rebate locked in this object.
    pub fn storage_rebate(&self) -> (r: u64)
        ensures
            r == self.model().storage_rebate,
    {
        self.storage_rebate
    }
}

/// An object of the chain's initial state: data and owner only.
#[derive(Debug, PartialEq, Eq)]
pub struct GenesisObject {
    data: ObjectData,
    owner: Owner,
}

pub struct GenesisModel {
    pub data: ObjectDataModel,
    pub owner: OwnerModel,
}

impl GenesisObject {
    pub closed spec fn model(&self) -> GenesisModel {
        GenesisModel { data: self.data.model(), owner: self.owner.model() }
    }

    pub fn new(data: ObjectData, owner: Owner) -> (r: GenesisObject)
        ensures
            r.model() == (GenesisModel { data: data.model(), owner: owner.model() }),
    {
        GenesisObject { data, owner }
    }

    pub fn object_id(&self) -> (r: ObjectId)
        ensures
            r@ == data_object_id(self.model().data),
    {
        self.data.object_id()
    }

    pub fn version(&self) -> (r: Version)
        ensures
            r == data_version(self.model().data),
    {
        self.data.version()
    }

    pub fn object_type(&self) -> (r: ObjectType)
        ensures
            r.model() == data_object_type(self.model().data),
    {
        self.data.object_type()
    }

    pub fn owner(&self) -> (r: &Owner)
        ensures
            r.model() == self.model().owner,
    {
        &self.owner
    }

    pub fn data(&self) -> (r: &ObjectData)
        ensures
            r.model() == self.model().data,
    {
        &self.data
    }
}

} // verus!
