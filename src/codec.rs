//! The canonical binary form of objects: exactly one byte string per value,
//! map entries in ascending key order, and decoders that refuse unknown
//! tags, truncated input and trailing bytes.
use vstd::prelude::*;

use crate::compress::{
    compress, decompress, enc_move_struct_type, lemma_compress_wf, lemma_decompress_compress,
    lemma_move_struct_type, parse_move_struct_type, read_move_struct_type, write_move_struct_type,
    chain_well_known, MoveStructType, WellKnownModel, WellKnownTypes,
};
use crate::object::{
    linkage_model, modules_model, origins_model, Error, GenesisModel, GenesisObject, MovePackage,
    MoveStruct, MoveStructModel, Object, ObjectData, ObjectDataModel, ObjectModel,
    ObjectReference, Owner, OwnerModel, PackageModel, TypeOrigin, TypeOriginModel, UpgradeInfo,
};
use crate::order::{lemma_lex_transitive, lex_less, lex_lt, strictly_sorted};
use crate::tags::{lemma_identifier, parse_identifier, read_identifier, tag_byte, write_identifier};
use crate::types::{
    struct_tag_wf, valid_identifier, Address, Identifier, ObjectId, MAX_SEQUENCE_LENGTH,
};
use crate::wire::{
    at, enc_bool, enc_bytes, enc_digest, le_u64, lemma_address, lemma_at_byte, lemma_at_split,
    lemma_bool, lemma_bytes, lemma_digest, lemma_len, lemma_u64, parse_address, parse_bool,
    parse_byte, parse_bytes, parse_digest, parse_len, parse_u64, read_address, read_bool,
    read_byte, read_bytes, read_digest, read_len, read_u64, uleb, write_address,
    write_bytes, write_digest, write_u64, write_uleb,
};

verus! {

broadcast use vstd::std_specs::vec::group_vec_axioms, vstd::seq::group_seq_axioms,
    vstd::array::group_array_axioms;

// ---------------------------------------------------------------------------
// Lists
/// The wire forms of the elements one after another.
pub open spec fn enc_list<E>(es: Seq<E>, enc: spec_fn(E) -> Seq<u8>) -> Seq<u8>
    decreases es.len(),
{
    if es.len() == 0 {
        Seq::empty()
    } else {
        enc(es[0]) + enc_list(es.subrange(1, es.len() as int), enc)
    }
}

/// `n` elements read one after another.
pub open spec fn parse_list<E>(
    s: Seq<u8>,
    pos: int,
    n: nat,
    p: spec_fn(Seq<u8>, int) -> Option<(E, int)>,
) -> Option<(Seq<E>, int)>
    decreases n,
{
    if n == 0 {
        Some((Seq::empty(), pos))
    } else {
        match p(s, pos) {
            Some((e, q)) => match parse_list(s, q, (n - 1) as nat, p) {
                Some((es, r)) => Some((seq![e] + es, r)),
                None => None,
            },
            None => None,
        }
    }
}

pub proof fn lemma_list<E>(
    s: Seq<u8>,
    pos: int,
    es: Seq<E>,
    enc: spec_fn(E) -> Seq<u8>,
    p: spec_fn(Seq<u8>, int) -> Option<(E, int)>,
    wf: spec_fn(E) -> bool,
)
    requires
        forall|i: int| 0 <= i < es.len() ==> wf(#[trigger] es[i]),
        forall|q: int, e: E|
            wf(e) && #[trigger] at(s, q, enc(e)) ==> p(s, q) == Some((e, q + enc(e).len())),
        at(s, pos, enc_list(es, enc)),
    ensures
        parse_list(s, pos, es.len(), p) == Some((es, pos + enc_list(es, enc).len())),
    decreases es.len(),
{
    if es.len() > 0 {
        let rest = es.subrange(1, es.len() as int);
        lemma_at_split(s, pos, enc(es[0]), enc_list(rest, enc));
        assert(wf(es[0]));
        assert forall|i: int| 0 <= i < rest.len() implies wf(#[trigger] rest[i]) by {
            assert(rest[i] == es[i + 1]);
        }
        lemma_list(s, pos + enc(es[0]).len(), rest, enc, p, wf);
        assert(seq![es[0]] + rest =~= es);
        assert((es.len() - 1) as nat == rest.len());
    }
}

// ---------------------------------------------------------------------------
// Owner
pub open spec fn enc_owner(o: OwnerModel) -> Seq<u8> {
    match o {
        OwnerModel::Address(a) => tag_byte(0) + a,
        OwnerModel::Object(a) => tag_byte(1) + a,
        OwnerModel::Shared(v) => tag_byte(2) + le_u64(v),
        OwnerModel::Immutable => tag_byte(3),
        OwnerModel::ConsensusAddress(v, a) => tag_byte(4) + le_u64(v) + a,
    }
}

pub open spec fn owner_wf(o: OwnerModel) -> bool {
    match o {
        OwnerModel::Address(a) => a.len() == 32,
        OwnerModel::Object(a) => a.len() == 32,
        OwnerModel::ConsensusAddress(_, a) => a.len() == 32,
        _ => true,
    }
}

pub open spec fn parse_owner(s: Seq<u8>, pos: int) -> Option<(OwnerModel, int)> {
    match parse_byte(s, pos) {
        Some((b, p)) => if b == 0 {
            match parse_address(s, p) {
                Some((a, e)) => Some((OwnerModel::Address(a), e)),
                None => None,
            }
        } else if b == 1 {
            match parse_address(s, p) {
                Some((a, e)) => Some((OwnerModel::Object(a), e)),
                None => None,
            }
        } else if b == 2 {
            match parse_u64(s, p) {
                Some((v, e)) => Some((OwnerModel::Shared(v), e)),
                None => None,
            }
        } else if b == 3 {
            Some((OwnerModel::Immutable, p))
        } else if b == 4 {
            match parse_u64(s, p) {
                Some((v, q)) => match parse_address(s, q) {
                    Some((a, e)) => Some((OwnerModel::ConsensusAddress(v, a), e)),
                    None => None,
                },
                None => None,
            }
        } else {
            None
        },
        None => None,
    }
}

pub proof fn lemma_owner(s: Seq<u8>, pos: int, o: OwnerModel)
    requires
        owner_wf(o),
        at(s, pos, enc_owner(o)),
    ensures
        parse_owner(s, pos) == Some((o, pos + enc_owner(o).len())),
{
    lemma_at_byte(s, pos, enc_owner(o));
    assert(s[pos + 0] == enc_owner(o)[0]);
    match o {
        OwnerModel::Address(a) => {
            lemma_at_split(s, pos, tag_byte(0), a);
        },
        OwnerModel::Object(a) => {
            lemma_at_split(s, pos, tag_byte(1), a);
        },
        OwnerModel::Shared(v) => {
            lemma_at_split(s, pos, tag_byte(2), le_u64(v));
            lemma_u64(s, pos + 1, v);
        },
        OwnerModel::Immutable => {},
        OwnerModel::ConsensusAddress(v, a) => {
            lemma_at_split(s, pos, tag_byte(4) + le_u64(v), a);
            lemma_at_split(s, pos, tag_byte(4), le_u64(v));
            lemma_u64(s, pos + 1, v);
        },
    }
}

pub fn write_owner(out: &mut Vec<u8>, o: &Owner)
    ensures
        final(out)@ == old(out)@ + enc_owner(o.model()),
{
    let ghost start = old(out)@;
    match o {
        Owner::Address(a) => {
            out.push(0u8);
            write_address(out, a);
        },
        Owner::Object(a) => {
            out.push(1u8);
            write_address(out, a);
        },
        Owner::Shared(v) => {
            out.push(2u8);
            write_u64(out, *v);
        },
        Owner::Immutable => {
            out.push(3u8);
        },
        Owner::ConsensusAddress { start_version, owner } => {
            out.push(4u8);
            write_u64(out, *start_version);
            write_address(out, owner);
        },
    }
    assert(out@ =~= start + enc_owner(o.model()));
}

pub fn read_owner(s: &[u8], pos: usize) -> (r: Option<(Owner, usize)>)
    ensures
        match r {
            Some((v, e)) => parse_owner(s@, pos as int) == Some((v.model(), e as int)),
            None => parse_owner(s@, pos as int) is None,
        },
{
    match read_byte(s, pos) {
        Some((b, p)) => if b == 0 {
            match read_address(s, p) {
                Some((a, e)) => Some((Owner::Address(a), e)),
                None => None,
            }
        } else if b == 1 {
            match read_address(s, p) {
                Some((a, e)) => Some((Owner::Object(a), e)),
                None => None,
            }
        } else if b == 2 {
            match read_u64(s, p) {
                Some((v, e)) => Some((Owner::Shared(v), e)),
                None => None,
            }
        } else if b == 3 {
            Some((Owner::Immutable, p))
        } else if b == 4 {
            match read_u64(s, p) {
                Some((v, q)) => match read_address(s, q) {
                    Some((a, e)) => Some((Owner::ConsensusAddress { start_version: v, owner: a }, e)),
                    None => None,
                },
                None => None,
            }
        } else {
            None
        },
        None => None,
    }
}

// ---------------------------------------------------------------------------
// Package tables
pub open spec fn enc_module(e: (Seq<u8>, Seq<u8>)) -> Seq<u8> {
    enc_bytes(e.0) + enc_bytes(e.1)
}

pub open spec fn module_wf(e: (Seq<u8>, Seq<u8>)) -> bool {
    valid_identifier(e.0) && e.1.len() <= MAX_SEQUENCE_LENGTH
}

pub open spec fn parse_module(s: Seq<u8>, pos: int) -> Option<((Seq<u8>, Seq<u8>), int)> {
    match parse_identifier(s, pos) {
        Some((n, p)) => match parse_bytes(s, p) {
            Some((b, e)) => Some(((n, b), e)),
            None => None,
        },
        None => None,
    }
}

pub open spec fn module_encoder() -> spec_fn((Seq<u8>, Seq<u8>)) -> Seq<u8> {
    |e: (Seq<u8>, Seq<u8>)| enc_module(e)
}

pub open spec fn module_parser() -> spec_fn(Seq<u8>, int) -> Option<((Seq<u8>, Seq<u8>), int)> {
    |s: Seq<u8>, q: int| parse_module(s, q)
}

pub open spec fn module_checker() -> spec_fn((Seq<u8>, Seq<u8>)) -> bool {
    |e: (Seq<u8>, Seq<u8>)| module_wf(e)
}

pub proof fn lemma_module(s: Seq<u8>, pos: int, e: (Seq<u8>, Seq<u8>))
    requires
        module_wf(e),
        at(s, pos, enc_module(e)),
    ensures
        parse_module(s, pos) == Some((e, pos + enc_module(e).len())),
{
    lemma_at_split(s, pos, enc_bytes(e.0), enc_bytes(e.1));
    lemma_identifier(s, pos, e.0);
    lemma_bytes(s, pos + enc_bytes(e.0).len(), e.1);
}

pub open spec fn enc_origin(o: TypeOriginModel) -> Seq<u8> {
    enc_bytes(o.module_name) + enc_bytes(o.struct_name) + o.package
}

pub open spec fn origin_wf(o: TypeOriginModel) -> bool {
    valid_identifier(o.module_name) && valid_identifier(o.struct_name) && o.package.len() == 32
}

pub open spec fn parse_origin(s: Seq<u8>, pos: int) -> Option<(TypeOriginModel, int)> {
    match parse_identifier(s, pos) {
        Some((m, p)) => match parse_identifier(s, p) {
            Some((n, q)) => match parse_address(s, q) {
                Some((a, e)) => Some((TypeOriginModel { module_name: m, struct_name: n, package: a }, e)),
                None => None,
            },
            None => None,
        },
        None => None,
    }
}

pub open spec fn origin_encoder() -> spec_fn(TypeOriginModel) -> Seq<u8> {
    |o: TypeOriginModel| enc_origin(o)
}

pub open spec fn origin_parser() -> spec_fn(Seq<u8>, int) -> Option<(TypeOriginModel, int)> {
    |s: Seq<u8>, q: int| parse_origin(s, q)
}

pub open spec fn origin_checker() -> spec_fn(TypeOriginModel) -> bool {
    |o: TypeOriginModel| origin_wf(o)
}

pub proof fn lemma_origin(s: Seq<u8>, pos: int, o: TypeOriginModel)
    requires
        origin_wf(o),
        at(s, pos, enc_origin(o)),
    ensures
        parse_origin(s, pos) == Some((o, pos + enc_origin(o).len())),
{
    let a = enc_bytes(o.module_name);
    let b = enc_bytes(o.struct_name);
    lemma_at_split(s, pos, a + b, o.package);
    lemma_at_split(s, pos, a, b);
    lemma_identifier(s, pos, o.module_name);
    lemma_identifier(s, pos + a.len(), o.struct_name);
}

pub open spec fn enc_link(e: (Seq<u8>, (Seq<u8>, u64))) -> Seq<u8> {
    e.0 + e.1.0 + le_u64(e.1.1)
}

pub open spec fn link_wf(e: (Seq<u8>, (Seq<u8>, u64))) -> bool {
    e.0.len() == 32 && e.1.0.len() == 32
}

pub open spec fn parse_link(s: Seq<u8>, pos: int) -> Option<((Seq<u8>, (Seq<u8>, u64)), int)> {
    match parse_address(s, pos) {
        Some((k, p)) => match parse_address(s, p) {
            Some((a, q)) => match parse_u64(s, q) {
                Some((v, e)) => Some(((k, (a, v)), e)),
                None => None,
            },
            None => None,
        },
        None => None,
    }
}

pub open spec fn link_encoder() -> spec_fn((Seq<u8>, (Seq<u8>, u64))) -> Seq<u8> {
    |e: (Seq<u8>, (Seq<u8>, u64))| enc_link(e)
}

pub open spec fn link_parser() -> spec_fn(Seq<u8>, int) -> Option<((Seq<u8>, (Seq<u8>, u64)), int)> {
    |s: Seq<u8>, q: int| parse_link(s, q)
}

pub open spec fn link_checker() -> spec_fn((Seq<u8>, (Seq<u8>, u64))) -> bool {
    |e: (Seq<u8>, (Seq<u8>, u64))| link_wf(e)
}

pub proof fn lemma_link(s: Seq<u8>, pos: int, e: (Seq<u8>, (Seq<u8>, u64)))
    requires
        link_wf(e),
        at(s, pos, enc_link(e)),
    ensures
        parse_link(s, pos) == Some((e, pos + enc_link(e).len())),
{
    lemma_at_split(s, pos, e.0 + e.1.0, le_u64(e.1.1));
    lemma_at_split(s, pos, e.0, e.1.0);
    lemma_u64(s, pos + 64, e.1.1);
}

/// Id, version, then the module table, the type origins and the linkage
/// table, each preceded by its length.
pub open spec fn enc_package(p: PackageModel) -> Seq<u8> {
    p.id + le_u64(p.version) + uleb(p.modules.len()) + enc_list(p.modules, module_encoder())
        + uleb(p.type_origin_table.len()) + enc_list(p.type_origin_table, origin_encoder())
        + uleb(p.linkage_table.len()) + enc_list(p.linkage_table, link_encoder())
}

pub open spec fn package_wf(p: PackageModel) -> bool {
    &&& p.id.len() == 32
    &&& p.modules.len() <= MAX_SEQUENCE_LENGTH
    &&& p.type_origin_table.len() <= MAX_SEQUENCE_LENGTH
    &&& p.linkage_table.len() <= MAX_SEQUENCE_LENGTH
    &&& strictly_sorted(p.modules)
    &&& strictly_sorted(p.linkage_table)
    &&& forall|i: int| 0 <= i < p.modules.len() ==> module_wf(#[trigger] p.modules[i])
    &&& forall|i: int| 0 <= i < p.type_origin_table.len() ==> origin_wf(
        #[trigger] p.type_origin_table[i],
    )
    &&& forall|i: int| 0 <= i < p.linkage_table.len() ==> link_wf(#[trigger] p.linkage_table[i])
}

pub open spec fn parse_package(s: Seq<u8>, pos: int) -> Option<(PackageModel, int)> {
    match parse_address(s, pos) {
        Some((id, q1)) => match parse_u64(s, q1) {
            Some((version, q2)) => match parse_len(s, q2) {
                Some((n1, q3)) => match parse_list(s, q3, n1, module_parser()) {
                    Some((modules, q4)) => match parse_len(s, q4) {
                        Some((n2, q5)) => match parse_list(s, q5, n2, origin_parser()) {
                            Some((origins, q6)) => match parse_len(s, q6) {
                                Some((n3, q7)) => match parse_list(s, q7, n3, link_parser()) {
                                    Some((links, e)) => if strictly_sorted(modules)
                                        && strictly_sorted(links) {
                                        Some(
                                            (
                                                PackageModel {
                                                    id,
                                                    version,
                                                    modules,
                                                    type_origin_table: origins,
                                                    linkage_table: links,
                                                },
                                                e,
                                            ),
                                        )
                                    } else {
                                        None
                                    },
                                    None => None,
                                },
                                None => None,
                            },
                            None => None,
                        },
                        None => None,
                    },
                    None => None,
                },
                None => None,
            },
            None => None,
        },
        None => None,
    }
}

pub proof fn lemma_package(s: Seq<u8>, pos: int, p: PackageModel)
    requires
        package_wf(p),
        at(s, pos, enc_package(p)),
    ensures
        parse_package(s, pos) == Some((p, pos + enc_package(p).len())),
{
    let a = p.id;
    let b = le_u64(p.version);
    let c = uleb(p.modules.len());
    let d = enc_list(p.modules, module_encoder());
    let e = uleb(p.type_origin_table.len());
    let f = enc_list(p.type_origin_table, origin_encoder());
    let g = uleb(p.linkage_table.len());
    let h = enc_list(p.linkage_table, link_encoder());
    assert(enc_package(p) == a + b + c + d + e + f + g + h);
    lemma_at_split(s, pos, a + b + c + d + e + f + g, h);
    lemma_at_split(s, pos, a + b + c + d + e + f, g);
    lemma_at_split(s, pos, a + b + c + d + e, f);
    lemma_at_split(s, pos, a + b + c + d, e);
    lemma_at_split(s, pos, a + b + c, d);
    lemma_at_split(s, pos, a + b, c);
    lemma_at_split(s, pos, a, b);
    lemma_address(s, pos, a);
    lemma_u64(s, pos + 32, p.version);
    let q3 = pos + 40 + c.len();
    lemma_len(s, pos + 40, p.modules.len());
    assert forall|q: int, x: (Seq<u8>, Seq<u8>)|
        module_checker()(x) && #[trigger] at(s, q, module_encoder()(x)) implies module_parser()(
        s,
        q,
    ) == Some((x, q + module_encoder()(x).len())) by {
        lemma_module(s, q, x);
    }
    lemma_list(s, q3, p.modules, module_encoder(), module_parser(), module_checker());
    let q5 = q3 + d.len() + e.len();
    lemma_len(s, q3 + d.len(), p.type_origin_table.len());
    assert forall|q: int, x: TypeOriginModel|
        origin_checker()(x) && #[trigger] at(s, q, origin_encoder()(x)) implies origin_parser()(
        s,
        q,
    ) == Some((x, q + origin_encoder()(x).len())) by {
        lemma_origin(s, q, x);
    }
    lemma_list(s, q5, p.type_origin_table, origin_encoder(), origin_parser(), origin_checker());
    let q7 = q5 + f.len() + g.len();
    lemma_len(s, q5 + f.len(), p.linkage_table.len());
    assert forall|q: int, x: (Seq<u8>, (Seq<u8>, u64))|
        link_checker()(x) && #[trigger] at(s, q, link_encoder()(x)) implies link_parser()(s, q)
        == Some((x, q + link_encoder()(x).len())) by {
        lemma_link(s, q, x);
    }
    lemma_list(s, q7, p.linkage_table, link_encoder(), link_parser(), link_checker());
}

fn write_modules(out: &mut Vec<u8>, v: &Vec<(Identifier, Vec<u8>)>, i: usize)
    requires
        i <= v.len(),
    ensures
        final(out)@ == old(out)@ + enc_list(
            modules_model(v@).subrange(i as int, v.len() as int),
            module_encoder(),
        ),
    decreases v.len() - i,
{
    let ghost ms = modules_model(v@);
    let ghost rest = ms.subrange(i as int, ms.len() as int);
    let ghost start = old(out)@;
    if i == v.len() {
        assert(out@ =~= start + enc_list(rest, module_encoder()));
        return;
    }
    write_identifier(out, &v[i].0);
    write_bytes(out, v[i].1.as_slice());
    write_modules(out, v, i + 1);
    assert(rest.subrange(1, rest.len() as int) =~= ms.subrange(i + 1, ms.len() as int));
    assert(rest[0] == ms[i as int]);
    assert(out@ =~= start + enc_list(rest, module_encoder()));
}

fn read_modules(s: &[u8], pos: usize, n: usize) -> (r: Option<(Vec<(Identifier, Vec<u8>)>, usize)>)
    ensures
        match r {
            Some((v, e)) => parse_list(s@, pos as int, n as nat, module_parser()) == Some(
                (modules_model(v@), e as int),
            ),
            None => parse_list(s@, pos as int, n as nat, module_parser()) is None,
        },
    decreases n,
{
    if n == 0 {
        let v: Vec<(Identifier, Vec<u8>)> = Vec::new();
        assert(modules_model(v@) =~= Seq::empty());
        return Some((v, pos));
    }
    let (name, p) = match read_identifier(s, pos) {
        Some(x) => x,
        None => return None,
    };
    let (bytes, q) = match read_bytes(s, p) {
        Some(x) => x,
        None => return None,
    };
    match read_modules(s, q, n - 1) {
        Some((rest, e)) => {
            let mut v = rest;
            let ghost old_v = v@;
            v.insert(0, (name, bytes));
            assert(modules_model(v@) =~= seq![(name@, bytes@)] + modules_model(old_v));
            Some((v, e))
        },
        None => None,
    }
}

fn write_origins(out: &mut Vec<u8>, v: &Vec<TypeOrigin>, i: usize)
    requires
        i <= v.len(),
    ensures
        final(out)@ == old(out)@ + enc_list(
            origins_model(v@).subrange(i as int, v.len() as int),
            origin_encoder(),
        ),
    decreases v.len() - i,
{
    let ghost ms = origins_model(v@);
    let ghost rest = ms.subrange(i as int, ms.len() as int);
    let ghost start = old(out)@;
    if i == v.len() {
        assert(out@ =~= start + enc_list(rest, origin_encoder()));
        return;
    }
    write_identifier(out, &v[i].module_name);
    write_identifier(out, &v[i].struct_name);
    write_address(out, &v[i].package);
    write_origins(out, v, i + 1);
    assert(rest.subrange(1, rest.len() as int) =~= ms.subrange(i + 1, ms.len() as int));
    assert(rest[0] == ms[i as int]);
    assert(out@ =~= start + enc_list(rest, origin_encoder()));
}

fn read_origins(s: &[u8], pos: usize, n: usize) -> (r: Option<(Vec<TypeOrigin>, usize)>)
    ensures
        match r {
            Some((v, e)) => parse_list(s@, pos as int, n as nat, origin_parser()) == Some(
                (origins_model(v@), e as int),
            ),
            None => parse_list(s@, pos as int, n as nat, origin_parser()) is None,
        },
    decreases n,
{
    if n == 0 {
        let v: Vec<TypeOrigin> = Vec::new();
        assert(origins_model(v@) =~= Seq::empty());
        return Some((v, pos));
    }
    let (module_name, p) = match read_identifier(s, pos) {
        Some(x) => x,
        None => return None,
    };
    let (struct_name, q) = match read_identifier(s, p) {
        Some(x) => x,
        None => return None,
    };
    let (package, t) = match read_address(s, q) {
        Some(x) => x,
        None => return None,
    };
    match read_origins(s, t, n - 1) {
        Some((rest, e)) => {
            let mut v = rest;
            let ghost old_v = v@;
            let o = TypeOrigin { module_name, struct_name, package };
            v.insert(0, o);
            assert(origins_model(v@) =~= seq![o.model()] + origins_model(old_v));
            Some((v, e))
        },
        None => None,
    }
}

fn write_links(out: &mut Vec<u8>, v: &Vec<(ObjectId, UpgradeInfo)>, i: usize)
    requires
        i <= v.len(),
    ensures
        final(out)@ == old(out)@ + enc_list(
            linkage_model(v@).subrange(i as int, v.len() as int),
            link_encoder(),
        ),
    decreases v.len() - i,
{
    let ghost ms = linkage_model(v@);
    let ghost rest = ms.subrange(i as int, ms.len() as int);
    let ghost start = old(out)@;
    if i == v.len() {
        assert(out@ =~= start + enc_list(rest, link_encoder()));
        return;
    }
    write_address(out, &v[i].0);
    write_address(out, &v[i].1.upgraded_id);
    write_u64(out, v[i].1.upgraded_version);
    write_links(out, v, i + 1);
    assert(rest.subrange(1, rest.len() as int) =~= ms.subrange(i + 1, ms.len() as int));
    assert(rest[0] == ms[i as int]);
    assert(out@ =~= start + enc_list(rest, link_encoder()));
}

fn read_links(s: &[u8], pos: usize, n: usize) -> (r: Option<(Vec<(ObjectId, UpgradeInfo)>, usize)>)
    ensures
        match r {
            Some((v, e)) => parse_list(s@, pos as int, n as nat, link_parser()) == Some(
                (linkage_model(v@), e as int),
            ),
            None => parse_list(s@, pos as int, n as nat, link_parser()) is None,
        },
    decreases n,
{
    if n == 0 {
        let v: Vec<(ObjectId, UpgradeInfo)> = Vec::new();
        assert(linkage_model(v@) =~= Seq::empty());
        return Some((v, pos));
    }
    let (key, p) = match read_address(s, pos) {
        Some(x) => x,
        None => return None,
    };
    let (upgraded_id, q) = match read_address(s, p) {
        Some(x) => x,
        None => return None,
    };
    let (upgraded_version, t) = match read_u64(s, q) {
        Some(x) => x,
        None => return None,
    };
    match read_links(s, t, n - 1) {
        Some((rest, e)) => {
            let mut v = rest;
            let ghost old_v = v@;
            let info = UpgradeInfo { upgraded_id, upgraded_version };
            v.insert(0, (key, info));
            assert(linkage_model(v@) =~= seq![(key@, info.model())] + linkage_model(old_v));
            Some((v, e))
        },
        None => None,
    }
}

/// Each key below the next means each key below every later one.
proof fn lemma_adjacent_sorted<V>(s: Seq<(Seq<u8>, V)>, i: int)
    requires
        0 < i < s.len(),
        strictly_sorted(s.subrange(0, i)),
        lex_lt(s[i - 1].0, s[i].0),
    ensures
        strictly_sorted(s.subrange(0, i + 1)),
{
    let t = s.subrange(0, i + 1);
    assert forall|a: int, b: int| 0 <= a < b < t.len() implies lex_lt(#[trigger] t[a].0, #[trigger] t[b].0) by {
        if b < i {
            assert(s.subrange(0, i)[a] == t[a]);
            assert(s.subrange(0, i)[b] == t[b]);
        } else if a < i - 1 {
            assert(s.subrange(0, i)[a] == t[a]);
            assert(s.subrange(0, i)[i - 1] == t[i - 1]);
            lemma_lex_transitive(t[a].0, t[i - 1].0, t[b].0);
        }
    }
}

fn modules_sorted(v: &Vec<(Identifier, Vec<u8>)>) -> (r: bool)
    ensures
        r == strictly_sorted(modules_model(v@)),
{
    let ghost m = modules_model(v@);
    if v.len() == 0 {
        return true;
    }
    let mut i: usize = 1;
    assert(strictly_sorted(m.subrange(0, 1)));
    while i < v.len()
        invariant
            1 <= i <= v.len(),
            m == modules_model(v@),
            strictly_sorted(m.subrange(0, i as int)),
        decreases v.len() - i,
    {
        let less = lex_less(v[i - 1].0.as_bytes(), v[i].0.as_bytes());
        assert(m[i - 1].0 == v@[i - 1].0@);
        assert(m[i as int].0 == v@[i as int].0@);
        if !less {
            return false;
        }
        proof {
            lemma_adjacent_sorted(m, i as int);
        }
        i = i + 1;
    }
    assert(m.subrange(0, i as int) =~= m);
    true
}

fn links_sorted(v: &Vec<(ObjectId, UpgradeInfo)>) -> (r: bool)
    ensures
        r == strictly_sorted(linkage_model(v@)),
{
    let ghost m = linkage_model(v@);
    if v.len() == 0 {
        return true;
    }
    let mut i: usize = 1;
    assert(strictly_sorted(m.subrange(0, 1)));
    while i < v.len()
        invariant
            1 <= i <= v.len(),
            m == linkage_model(v@),
            strictly_sorted(m.subrange(0, i as int)),
        decreases v.len() - i,
    {
        let less = lex_less(v[i - 1].0.as_bytes().as_slice(), v[i].0.as_bytes().as_slice());
        assert(m[i - 1].0 == v@[i - 1].0@);
        assert(m[i as int].0 == v@[i as int].0@);
        if !less {
            return false;
        }
        proof {
            lemma_adjacent_sorted(m, i as int);
        }
        i = i + 1;
    }
    assert(m.subrange(0, i as int) =~= m);
    true
}

pub fn write_package(out: &mut Vec<u8>, p: &MovePackage)
    ensures
        final(out)@ == old(out)@ + enc_package(p.model()),
{
    let ghost start = old(out)@;
    write_address(out, &p.id());
    write_u64(out, p.version());
    let modules = p.modules();
    write_uleb(out, modules.len());
    write_modules(out, modules, 0);
    let origins = p.type_origin_table();
    write_uleb(out, origins.len());
    write_origins(out, origins, 0);
    let links = p.linkage_table();
    write_uleb(out, links.len());
    write_links(out, links, 0);
    assert(modules_model(modules@).subrange(0, modules.len() as int) =~= modules_model(modules@));
    assert(origins_model(origins@).subrange(0, origins.len() as int) =~= origins_model(origins@));
    assert(linkage_model(links@).subrange(0, links.len() as int) =~= linkage_model(links@));
    assert(out@ =~= start + enc_package(p.model()));
}

pub fn read_package(s: &[u8], pos: usize) -> (r: Option<(MovePackage, usize)>)
    ensures
        match r {
            Some((v, e)) => parse_package(s@, pos as int) == Some((v.model(), e as int)),
            None => parse_package(s@, pos as int) is None,
        },
{
    let (id, q1) = match read_address(s, pos) {
        Some(x) => x,
        None => return None,
    };
    let (version, q2) = match read_u64(s, q1) {
        Some(x) => x,
        None => return None,
    };
    let (n1, q3) = match read_len(s, q2) {
        Some(x) => x,
        None => return None,
    };
    let (modules, q4) = match read_modules(s, q3, n1) {
        Some(x) => x,
        None => return None,
    };
    let (n2, q5) = match read_len(s, q4) {
        Some(x) => x,
        None => return None,
    };
    let (origins, q6) = match read_origins(s, q5, n2) {
        Some(x) => x,
        None => return None,
    };
    let (n3, q7) = match read_len(s, q6) {
        Some(x) => x,
        None => return None,
    };
    let (links, e) = match read_links(s, q7, n3) {
        Some(x) => x,
        None => return None,
    };
    if !modules_sorted(&modules) || !links_sorted(&links) {
        return None;
    }
    Some((MovePackage::from_sorted(id, version, modules, origins, links), e))
}

// ---------------------------------------------------------------------------
// Structs, object data and objects
/// The compact form of the type, the deprecated transfer flag, the version,
/// then the contents as a byte string.
pub open spec fn enc_move_struct(k: WellKnownModel, m: MoveStructModel) -> Seq<u8> {
    enc_move_struct_type(compress(k, m.type_)) + enc_bool(m.has_public_transfer) + le_u64(m.version)
        + enc_bytes(m.contents)
}

pub open spec fn move_struct_wf(m: MoveStructModel) -> bool {
    &&& struct_tag_wf(m.type_)
    &&& 32 <= m.contents.len() <= MAX_SEQUENCE_LENGTH
}

/// Reads a struct; the type is expanded from its compact form, and contents
/// too short to hold an object id are refused.
pub open spec fn parse_move_struct(k: WellKnownModel, s: Seq<u8>, pos: int) -> Result<
    (MoveStructModel, int),
    Error,
> {
    match parse_move_struct_type(s, pos) {
        Some((c, q1)) => match parse_bool(s, q1) {
            Some((t, q2)) => match parse_u64(s, q2) {
                Some((v, q3)) => match parse_bytes(s, q3) {
                    Some((b, e)) => if b.len() >= 32 {
                        Ok(
                            (
                                MoveStructModel {
                                    type_: decompress(k, c),
                                    has_public_transfer: t,
                                    version: v,
                                    contents: b,
                                },
                                e,
                            ),
                        )
                    } else {
                        Err(Error::InvalidObjectContents)
                    },
                    None => Err(Error::MalformedEncoding),
                },
                None => Err(Error::MalformedEncoding),
            },
            None => Err(Error::MalformedEncoding),
        },
        None => Err(Error::MalformedEncoding),
    }
}

pub proof fn lemma_move_struct(k: WellKnownModel, s: Seq<u8>, pos: int, m: MoveStructModel)
    requires
        move_struct_wf(m),
        at(s, pos, enc_move_struct(k, m)),
    ensures
        parse_move_struct(k, s, pos) == Ok::<(MoveStructModel, int), Error>((m, pos + enc_move_struct(k, m).len())),
{
    let c = compress(k, m.type_);
    let a = enc_move_struct_type(c);
    let b = enc_bool(m.has_public_transfer);
    let v = le_u64(m.version);
    let d = enc_bytes(m.contents);
    lemma_at_split(s, pos, a + b + v, d);
    lemma_at_split(s, pos, a + b, v);
    lemma_at_split(s, pos, a, b);
    lemma_compress_wf(k, m.type_);
    lemma_move_struct_type(s, pos, c);
    lemma_bool(s, pos + a.len(), m.has_public_transfer);
    lemma_u64(s, pos + a.len() + 1, m.version);
    lemma_bytes(s, pos + a.len() + 9, m.contents);
    lemma_decompress_compress(k, m.type_);
}

pub fn write_move_struct(out: &mut Vec<u8>, m: &MoveStruct, known: &WellKnownTypes)
    ensures
        final(out)@ == old(out)@ + enc_move_struct(known.model(), m.model()),
{
    let ghost start = old(out)@;
    let c = MoveStructType::from_struct_tag(m.object_type(), known);
    write_move_struct_type(out, &c);
    if m.has_public_transfer() {
        out.push(1u8);
    } else {
        out.push(0u8);
    }
    write_u64(out, m.version());
    write_bytes(out, m.contents());
    assert(out@ =~= start + enc_move_struct(known.model(), m.model()));
}

pub fn read_move_struct(s: &[u8], pos: usize, known: &WellKnownTypes) -> (r: Result<
    (MoveStruct, usize),
    Error,
>)
    ensures
        match r {
            Ok((v, e)) => parse_move_struct(known.model(), s@, pos as int) == Ok::<
                (MoveStructModel, int),
                Error,
            >((v.model(), e as int)),
            Err(x) => parse_move_struct(known.model(), s@, pos as int) == Err::<
                (MoveStructModel, int),
                Error,
            >(x),
        },
{
    let (c, q1) = match read_move_struct_type(s, pos) {
        Some(x) => x,
        None => return Err(Error::MalformedEncoding),
    };
    let (t, q2) = match read_bool(s, q1) {
        Some(x) => x,
        None => return Err(Error::MalformedEncoding),
    };
    let (v, q3) = match read_u64(s, q2) {
        Some(x) => x,
        None => return Err(Error::MalformedEncoding),
    };
    let (b, e) = match read_bytes(s, q3) {
        Some(x) => x,
        None => return Err(Error::MalformedEncoding),
    };
    match MoveStruct::new(c.into_struct_tag(known), t, v, b) {
        Ok(m) => Ok((m, e)),
        Err(x) => Err(x),
    }
}

pub open spec fn enc_data(k: WellKnownModel, d: ObjectDataModel) -> Seq<u8> {
    match d {
        ObjectDataModel::Struct(m) => tag_byte(0) + enc_move_struct(k, m),
        ObjectDataModel::Package(p) => tag_byte(1) + enc_package(p),
    }
}

pub open spec fn data_wf(d: ObjectDataModel) -> bool {
    match d {
        ObjectDataModel::Struct(m) => move_struct_wf(m),
        ObjectDataModel::Package(p) => package_wf(p),
    }
}

pub open spec fn parse_data(k: WellKnownModel, s: Seq<u8>, pos: int) -> Result<
    (ObjectDataModel, int),
    Error,
> {
    match parse_byte(s, pos) {
        Some((b, p)) => if b == 0 {
            match parse_move_struct(k, s, p) {
                Ok((m, e)) => Ok((ObjectDataModel::Struct(m), e)),
                Err(x) => Err(x),
            }
        } else if b == 1 {
            match parse_package(s, p) {
                Some((m, e)) => Ok((ObjectDataModel::Package(m), e)),
                None => Err(Error::MalformedEncoding),
            }
        } else {
            Err(Error::MalformedEncoding)
        },
        None => Err(Error::MalformedEncoding),
    }
}

pub proof fn lemma_data(k: WellKnownModel, s: Seq<u8>, pos: int, d: ObjectDataModel)
    requires
        data_wf(d),
        at(s, pos, enc_data(k, d)),
    ensures
        parse_data(k, s, pos) == Ok::<(ObjectDataModel, int), Error>((d, pos + enc_data(k, d).len())),
{
    lemma_at_byte(s, pos, enc_data(k, d));
    assert(s[pos + 0] == enc_data(k, d)[0]);
    match d {
        ObjectDataModel::Struct(m) => {
            lemma_at_split(s, pos, tag_byte(0), enc_move_struct(k, m));
            lemma_move_struct(k, s, pos + 1, m);
        },
        ObjectDataModel::Package(p) => {
            lemma_at_split(s, pos, tag_byte(1), enc_package(p));
            lemma_package(s, pos + 1, p);
        },
    }
}

pub fn write_data(out: &mut Vec<u8>, d: &ObjectData, known: &WellKnownTypes)
    ensures
        final(out)@ == old(out)@ + enc_data(known.model(), d.model()),
{
    let ghost start = old(out)@;
    match d {
        ObjectData::Struct(m) => {
            out.push(0u8);
            write_move_struct(out, m, known);
        },
        ObjectData::Package(p) => {
            out.push(1u8);
            write_package(out, p);
        },
    }
    assert(out@ =~= start + enc_data(known.model(), d.model()));
}

pub fn read_data(s: &[u8], pos: usize, known: &WellKnownTypes) -> (r: Result<(ObjectData, usize), Error>)
    ensures
        match r {
            Ok((v, e)) => parse_data(known.model(), s@, pos as int) == Ok::<
                (ObjectDataModel, int),
                Error,
            >((v.model(), e as int)),
            Err(x) => parse_data(known.model(), s@, pos as int) == Err::<
                (ObjectDataModel, int),
                Error,
            >(x),
        },
{
    match read_byte(s, pos) {
        Some((b, p)) => if b == 0 {
            match read_move_struct(s, p, known) {
                Ok((m, e)) => Ok((ObjectData::Struct(m), e)),
                Err(x) => Err(x),
            }
        } else if b == 1 {
            match read_package(s, p) {
                Some((m, e)) => Ok((ObjectData::Package(m), e)),
                None => Err(Error::MalformedEncoding),
            }
        } else {
            Err(Error::MalformedEncoding)
        },
        None => Err(Error::MalformedEncoding),
    }
}

/// Data, owner, the previous transaction's digest, then the storage rebate.
pub open spec fn enc_object(k: WellKnownModel, o: ObjectModel) -> Seq<u8> {
    enc_data(k, o.data) + enc_owner(o.owner) + enc_digest(o.previous_transaction) + le_u64(
        o.storage_rebate,
    )
}

/// What an object built by this library's constructors satisfies.
pub open spec fn object_wf(o: ObjectModel) -> bool {
    &&& data_wf(o.data)
    &&& owner_wf(o.owner)
    &&& o.previous_transaction.len() == 32
}

pub open spec fn parse_object(k: WellKnownModel, s: Seq<u8>, pos: int) -> Result<
    (ObjectModel, int),
    Error,
> {
    match parse_data(k, s, pos) {
        Ok((d, q1)) => match parse_owner(s, q1) {
            Some((o, q2)) => match parse_digest(s, q2) {
                Some((t, q3)) => match parse_u64(s, q3) {
                    Some((r, e)) => Ok(
                        (
                            ObjectModel {
                                data: d,
                                owner: o,
                                previous_transaction: t,
                                storage_rebate: r,
                            },
                            e,
                        ),
                    ),
                    None => Err(Error::MalformedEncoding),
                },
                None => Err(Error::MalformedEncoding),
            },
            None => Err(Error::MalformedEncoding),
        },
        Err(x) => Err(x),
    }
}

/// The object that makes up the whole of `s`: `InvalidObjectContents` when
/// a struct's contents are too short to hold an id, `MalformedEncoding` for
/// any other fault, bytes left over included.
pub open spec fn decode_object(k: WellKnownModel, s: Seq<u8>) -> Result<ObjectModel, Error> {
    match parse_object(k, s, 0) {
        Ok((o, e)) => if e == s.len() {
            Ok(o)
        } else {
            Err(Error::MalformedEncoding)
        },
        Err(x) => Err(x),
    }
}

proof fn lemma_object(k: WellKnownModel, s: Seq<u8>, pos: int, o: ObjectModel)
    requires
        object_wf(o),
        at(s, pos, enc_object(k, o)),
    ensures
        parse_object(k, s, pos) == Ok::<(ObjectModel, int), Error>((o, pos + enc_object(k, o).len())),
{
    let a = enc_data(k, o.data);
    let b = enc_owner(o.owner);
    let c = enc_digest(o.previous_transaction);
    let d = le_u64(o.storage_rebate);
    lemma_at_split(s, pos, a + b + c, d);
    lemma_at_split(s, pos, a + b, c);
    lemma_at_split(s, pos, a, b);
    lemma_data(k, s, pos, o.data);
    lemma_owner(s, pos + a.len(), o.owner);
    lemma_digest(s, pos + a.len() + b.len(), o.previous_transaction);
    lemma_u64(s, pos + a.len() + b.len() + c.len(), o.storage_rebate);
}

/// Decoding an encoded object gives the object back, and encoding that
/// again gives the same bytes, for every table of well-known types.
pub proof fn lemma_object_round_trip(k: WellKnownModel, o: ObjectModel)
    requires
        object_wf(o),
    ensures
        decode_object(k, enc_object(k, o)) == Ok::<ObjectModel, Error>(o),
        enc_object(k, decode_object(k, enc_object(k, o))->Ok_0) == enc_object(k, o),
{
    let s = enc_object(k, o);
    assert(s.subrange(0, s.len() as int) =~= s);
    lemma_object(k, s, 0, o);
}

pub fn encode_object(o: &Object, known: &WellKnownTypes) -> (r: Vec<u8>)
    ensures
        r@ == enc_object(known.model(), o.model()),
{
    let mut out: Vec<u8> = Vec::new();
    write_data(&mut out, o.data(), known);
    write_owner(&mut out, o.owner());
    write_digest(&mut out, &o.previous_transaction());
    write_u64(&mut out, o.storage_rebate());
    assert(out@ =~= enc_object(known.model(), o.model()));
    out
}

pub fn decode_object_with(s: &[u8], known: &WellKnownTypes) -> (r: Result<Object, Error>)
    ensures
        match r {
            Ok(o) => decode_object(known.model(), s@) == Ok::<ObjectModel, Error>(o.model()),
            Err(x) => decode_object(known.model(), s@) == Err::<ObjectModel, Error>(x),
        },
{
    let (data, q1) = match read_data(s, 0, known) {
        Ok(x) => x,
        Err(x) => return Err(x),
    };
    let (owner, q2) = match read_owner(s, q1) {
        Some(x) => x,
        None => return Err(Error::MalformedEncoding),
    };
    let (prev, q3) = match read_digest(s, q2) {
        Some(x) => x,
        None => return Err(Error::MalformedEncoding),
    };
    let (rebate, e) = match read_u64(s, q3) {
        Some(x) => x,
        None => return Err(Error::MalformedEncoding),
    };
    if e != s.len() {
        return Err(Error::MalformedEncoding);
    }
    Ok(Object::new(data, owner, prev, rebate))
}

impl Object {
    /// The canonical bytes of this object, with the chain's well-known types.
    pub fn to_bytes(&self) -> (r: Vec<u8>)
        ensures
            r@ == enc_object(chain_well_known(), self.model()),
    {
        encode_object(self, &WellKnownTypes::chain())
    }

    /// The object that `s` encodes, with the chain's well-known types.
    pub fn from_bytes(s: &[u8]) -> (r: Result<Object, Error>)
        ensures
            match r {
                Ok(o) => decode_object(chain_well_known(), s@) == Ok::<ObjectModel, Error>(o.model()),
                Err(x) => decode_object(chain_well_known(), s@) == Err::<ObjectModel, Error>(x),
            },
    {
        decode_object_with(s, &WellKnownTypes::chain())
    }
}

/// Data then owner, with nothing after them.
pub open spec fn enc_genesis(k: WellKnownModel, g: GenesisModel) -> Seq<u8> {
    enc_data(k, g.data) + enc_owner(g.owner)
}

pub open spec fn decode_genesis(k: WellKnownModel, s: Seq<u8>) -> Result<GenesisModel, Error> {
    match parse_data(k, s, 0) {
        Ok((d, p)) => match parse_owner(s, p) {
            Some((o, e)) => if e == s.len() {
                Ok(GenesisModel { data: d, owner: o })
            } else {
                Err(Error::MalformedEncoding)
            },
            None => Err(Error::MalformedEncoding),
        },
        Err(x) => Err(x),
    }
}

/// Decoding an encoded genesis object gives it back.
pub proof fn lemma_genesis_round_trip(k: WellKnownModel, g: GenesisModel)
    requires
        data_wf(g.data),
        owner_wf(g.owner),
    ensures
        decode_genesis(k, enc_genesis(k, g)) == Ok::<GenesisModel, Error>(g),
{
    let s = enc_genesis(k, g);
    assert(s.subrange(0, s.len() as int) =~= s);
    lemma_at_split(s, 0, enc_data(k, g.data), enc_owner(g.owner));
    lemma_data(k, s, 0, g.data);
    lemma_owner(s, enc_data(k, g.data).len() as int, g.owner);
}

impl GenesisObject {
    /// The canonical bytes of this genesis object, with the chain's well-known types.
    pub fn to_bytes(&self) -> (r: Vec<u8>)
        ensures
            r@ == enc_genesis(chain_well_known(), self.model()),
    {
        let known = WellKnownTypes::chain();
        let mut out: Vec<u8> = Vec::new();
        write_data(&mut out, self.data(), &known);
        write_owner(&mut out, self.owner());
        assert(out@ =~= enc_genesis(chain_well_known(), self.model()));
        out
    }

    /// The genesis object that `s` encodes, with the chain's well-known types.
    pub fn from_bytes(s: &[u8]) -> (r: Result<GenesisObject, Error>)
        ensures
            match r {
                Ok(g) => decode_genesis(chain_well_known(), s@) == Ok::<GenesisModel, Error>(g.model()),
                Err(x) => decode_genesis(chain_well_known(), s@) == Err::<GenesisModel, Error>(x),
            },
    {
        let known = WellKnownTypes::chain();
        let (data, p) = match read_data(s, 0, &known) {
            Ok(x) => x,
            Err(x) => return Err(x),
        };
        let (owner, e) = match read_owner(s, p) {
            Some(x) => x,
            None => return Err(Error::MalformedEncoding),
        };
        if e != s.len() {
            return Err(Error::MalformedEncoding);
        }
        Ok(GenesisObject::new(data, owner))
    }
}

/// Object id, version, then digest.
pub open spec fn enc_object_reference(r: (Seq<u8>, u64, Seq<u8>)) -> Seq<u8> {
    r.0 + le_u64(r.1) + enc_digest(r.2)
}

pub open spec fn decode_object_reference(s: Seq<u8>) -> Option<(Seq<u8>, u64, Seq<u8>)> {
    match parse_address(s, 0) {
        Some((id, q1)) => match parse_u64(s, q1) {
            Some((v, q2)) => match parse_digest(s, q2) {
                Some((d, e)) => if e == s.len() {
                    Some((id, v, d))
                } else {
                    None
                },
                None => None,
            },
            None => None,
        },
        None => None,
    }
}

/// Decoding an encoded object reference gives it back.
pub proof fn lemma_object_reference_round_trip(r: (Seq<u8>, u64, Seq<u8>))
    requires
        r.0.len() == 32,
        r.2.len() == 32,
    ensures
        decode_object_reference(enc_object_reference(r)) == Some(r),
{
    let s = enc_object_reference(r);
    assert(s.subrange(0, s.len() as int) =~= s);
    lemma_at_split(s, 0, r.0 + le_u64(r.1), enc_digest(r.2));
    lemma_at_split(s, 0, r.0, le_u64(r.1));
    lemma_u64(s, 32, r.1);
    lemma_digest(s, 40, r.2);
}

impl ObjectReference {
    pub fn to_bytes(&self) -> (r: Vec<u8>)
        ensures
            r@ == enc_object_reference(self.model()),
    {
        let mut out: Vec<u8> = Vec::new();
        write_address(&mut out, self.object_id());
        write_u64(&mut out, self.version());
        write_digest(&mut out, self.digest());
        assert(out@ =~= enc_object_reference(self.model()));
        out
    }

    pub fn from_bytes(s: &[u8]) -> (r: Result<ObjectReference, Error>)
        ensures
            match r {
                Ok(v) => decode_object_reference(s@) == Some(v.model()),
                Err(e) => e == Error::MalformedEncoding && decode_object_reference(s@) is None,
            },
    {
        let (id, q1) = match read_address(s, 0) {
            Some(x) => x,
            None => return Err(Error::MalformedEncoding),
        };
        let (v, q2) = match read_u64(s, q1) {
            Some(x) => x,
            None => return Err(Error::MalformedEncoding),
        };
        let (d, e) = match read_digest(s, q2) {
            Some(x) => x,
            None => return Err(Error::MalformedEncoding),
        };
        if e != s.len() {
            return Err(Error::MalformedEncoding);
        }
        Ok(ObjectReference::new(id, v, d))
    }
}

/// Packages that hold the same entries encode alike, whatever order the
/// entries were given in.
pub proof fn lemma_package_encoding_ignores_order(p: PackageModel, q: PackageModel)
    requires
        strictly_sorted(p.modules),
        strictly_sorted(q.modules),
        strictly_sorted(p.linkage_table),
        strictly_sorted(q.linkage_table),
        p.id == q.id,
        p.version == q.version,
        p.modules.to_set() == q.modules.to_set(),
        p.type_origin_table == q.type_origin_table,
        p.linkage_table.to_set() == q.linkage_table.to_set(),
    ensures
        enc_package(p) == enc_package(q),
{
    crate::order::lemma_sorted_same_entries(p.modules, q.modules);
    crate::order::lemma_sorted_same_entries(p.linkage_table, q.linkage_table);
}

} // verus!
