//! Canonical binary encoding of on-chain objects, compact struct-type
//! compression, and lenient decoders for text transports.
pub mod types;
pub mod order;
pub mod wire;
pub mod tags;
pub mod compress;
pub mod object;
pub mod codec;
pub mod text;
pub mod query;

pub use compress::{MoveStructType, WellKnownTypes};
pub use object::{
    id_opt, Error, GenesisObject, MovePackage, MoveStruct, Object, ObjectData, ObjectReference,
    ObjectType, Owner, TypeOrigin, UpgradeInfo,
};
pub use query::{
    ObjectConnection, ObjectFilter, ObjectKey, ObjectQuery, ObjectQueryArgs, ObjectsQuery,
    ObjectsQueryArgs, PageInfo,
};
pub use text::{Base64Failure, BytesDeserialize, NumberContent, NumberDeserialize};
pub use types::{
    Address, Digest, Identifier, ObjectDigest, ObjectId, StructTag, TransactionDigest, TypeTag,
    Version,
};
