//! The shapes of the remote object queries and their answers. An answer
//! carries an object as base64 text of its canonical bytes.
use vstd::prelude::*;

use crate::codec::decode_object;
use crate::compress::chain_well_known;
use crate::object::{Error, Object as ChainObject};
use crate::text::{lenient_base64, standard_base64, url_safe_base64, BytesDeserialize};
use crate::types::Address;

verus! {

/// Asks for one object, at its latest version or at a given one.
pub struct ObjectQuery {
    pub object: Option<Object>,
}

/// Asks for a page of objects.
pub struct ObjectsQuery {
    pub objects: ObjectConnection,
}

pub struct ObjectQueryArgs {
    pub address: Address,
    pub version: Option<u64>,
}

pub struct ObjectsQueryArgs {
    pub after: Option<String>,
    pub before: Option<String>,
    pub filter: Option<ObjectFilter>,
    pub first: Option<i32>,
    pub last: Option<i32>,
}

/// An object as the query layer returns it: base64 text of its bytes.
pub struct Object {
    pub bcs: Option<String>,
}

pub struct ObjectFilter {
    pub type_: Option<String>,
    pub owner: Option<Address>,
    pub object_ids: Option<Vec<Address>>,
    pub object_keys: Option<Vec<ObjectKey>>,
}

pub struct ObjectKey {
    pub object_id: Address,
    pub version: u64,
}

pub struct PageInfo {
    pub has_previous_page: bool,
    pub has_next_page: bool,
    pub start_cursor: Option<String>,
    pub end_cursor: Option<String>,
}

pub struct ObjectConnection {
    pub page_info: PageInfo,
    pub nodes: Vec<Object>,
}

impl Object {
    /// The object that the answer carries: `None` when it carries no bytes,
    /// `InvalidByteString` when the text is not base64, and the decoder's
    /// error when the bytes are not an object.
    pub fn to_object(&self) -> (r: Result<Option<ChainObject>, Error>)
        ensures
            match &self.bcs {
                None => r matches Ok(None),
                Some(t) => match lenient_base64(standard_base64(t@), url_safe_base64(t@)) {
                    Err(_) => r matches Err(Error::InvalidByteString),
                    Ok(b) => match decode_object(chain_well_known(), b) {
                        Ok(o) => r matches Ok(Some(v)) && v.model() == o,
                        Err(x) => r == Err::<Option<ChainObject>, Error>(x),
                    },
                },
            },
    {
        match &self.bcs {
            None => Ok(None),
            Some(t) => {
                let bytes = match BytesDeserialize::from_base64(t.as_str()) {
                    Ok(b) => b.0,
                    Err(e) => return Err(e),
                };
                match ChainObject::from_bytes(bytes.as_slice()) {
                    Ok(o) => Ok(Some(o)),
                    Err(e) => Err(e),
                }
            },
        }
    }
}

} // verus!
