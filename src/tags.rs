//! Wire form of Move types: identifiers, struct tags and type tags.
use vstd::prelude::*;

use crate::types::{
    Identifier, StructTag, StructTagModel, TypeTag, TypeTagModel, struct_tag_wf, type_tag_wf,
    valid_identifier,
};
use crate::wire::{
    at, lemma_address, lemma_at_split, lemma_bytes, lemma_len, parse_address, parse_byte,
    parse_bytes, parse_len, read_address, read_byte, read_bytes, read_len, uleb, enc_bytes,
    write_address, write_bytes, write_uleb, lemma_at_byte,
};

verus! {

broadcast use vstd::std_specs::vec::group_vec_axioms, vstd::seq::group_seq_axioms;

pub open spec fn tag_byte(b: u8) -> Seq<u8> {
    seq![b]
}

pub open spec fn enc_type_tag(t: TypeTagModel) -> Seq<u8>
    decreases t, 0nat,
{
    match t {
        TypeTagModel::Bool => tag_byte(0),
        TypeTagModel::U8 => tag_byte(1),
        TypeTagModel::U64 => tag_byte(2),
        TypeTagModel::U128 => tag_byte(3),
        TypeTagModel::Address => tag_byte(4),
        TypeTagModel::Signer => tag_byte(5),
        TypeTagModel::Vector(b) => tag_byte(6) + enc_type_tag(*b),
        TypeTagModel::Struct(s) => tag_byte(7) + enc_struct_tag(s),
        TypeTagModel::U16 => tag_byte(8),
        TypeTagModel::U32 => tag_byte(9),
        TypeTagModel::U256 => tag_byte(10),
    }
}

/// Address, module, name, then the count and wire forms of the type arguments.
pub open spec fn enc_struct_tag(s: StructTagModel) -> Seq<u8>
    decreases s, 2nat,
{
    s.address + enc_bytes(s.module) + enc_bytes(s.name) + uleb(s.type_params.len())
        + enc_type_tags(s.type_params)
}

pub open spec fn enc_type_tags(ts: Seq<TypeTagModel>) -> Seq<u8>
    decreases ts, 1nat,
{
    if ts.len() == 0 {
        Seq::empty()
    } else {
        enc_type_tag(ts[0]) + enc_type_tags(ts.subrange(1, ts.len() as int))
    }
}

pub open spec fn parse_identifier(s: Seq<u8>, pos: int) -> Option<(Seq<u8>, int)> {
    match parse_bytes(s, pos) {
        Some((b, e)) => if valid_identifier(b) {
            Some((b, e))
        } else {
            None
        },
        None => None,
    }
}

pub open spec fn parse_type_tag(s: Seq<u8>, pos: int) -> Option<(TypeTagModel, int)>
    decreases s.len() - pos, 0nat, 0nat,
{
    match parse_byte(s, pos) {
        Some((b, p)) => if b == 0 {
            Some((TypeTagModel::Bool, p))
        } else if b == 1 {
            Some((TypeTagModel::U8, p))
        } else if b == 2 {
            Some((TypeTagModel::U64, p))
        } else if b == 3 {
            Some((TypeTagModel::U128, p))
        } else if b == 4 {
            Some((TypeTagModel::Address, p))
        } else if b == 5 {
            Some((TypeTagModel::Signer, p))
        } else if b == 6 {
            match parse_type_tag(s, pos + 1) {
                Some((t, e)) => Some((TypeTagModel::Vector(Box::new(t)), e)),
                None => None,
            }
        } else if b == 7 {
            match parse_struct_tag(s, pos + 1) {
                Some((t, e)) => Some((TypeTagModel::Struct(t), e)),
                None => None,
            }
        } else if b == 8 {
            Some((TypeTagModel::U16, p))
        } else if b == 9 {
            Some((TypeTagModel::U32, p))
        } else if b == 10 {
            Some((TypeTagModel::U256, p))
        } else {
            None
        },
        None => None,
    }
}

pub open spec fn parse_struct_tag(s: Seq<u8>, pos: int) -> Option<(StructTagModel, int)>
    decreases s.len() - pos, 2nat, 0nat,
{
    match parse_address(s, pos) {
        Some((a, q1)) => match parse_identifier(s, q1) {
            Some((m, q2)) => match parse_identifier(s, q2) {
                Some((n, q3)) => match parse_len(s, q3) {
                    Some((k, q4)) => if pos < q4 <= s.len() {
                        match parse_type_tags(s, q4, k) {
                            Some((ts, e)) => Some(
                                (StructTagModel { address: a, module: m, name: n, type_params: ts }, e),
                            ),
                            None => None,
                        }
                    } else {
                        None
                    },
                    None => None,
                },
                None => None,
            },
            None => None,
        },
        None => None,
    }
}

/// `k` type tags one after another.
pub open spec fn parse_type_tags(s: Seq<u8>, pos: int, k: nat) -> Option<(Seq<TypeTagModel>, int)>
    decreases s.len() - pos, 1nat, k,
{
    if k == 0 {
        Some((Seq::empty(), pos))
    } else if pos >= s.len() {
        None
    } else {
        match parse_type_tag(s, pos) {
            Some((t, p)) => if pos < p <= s.len() {
                match parse_type_tags(s, p, (k - 1) as nat) {
                    Some((ts, e)) => Some((seq![t] + ts, e)),
                    None => None,
                }
            } else {
                None
            },
            None => None,
        }
    }
}

pub proof fn lemma_identifier(s: Seq<u8>, pos: int, b: Seq<u8>)
    requires
        valid_identifier(b),
        at(s, pos, enc_bytes(b)),
    ensures
        parse_identifier(s, pos) == Some((b, pos + enc_bytes(b).len())),
{
    lemma_bytes(s, pos, b);
}

/// A well-formed type tag reads back from its wire form.
pub proof fn lemma_type_tag(s: Seq<u8>, pos: int, t: TypeTagModel)
    requires
        type_tag_wf(t),
        at(s, pos, enc_type_tag(t)),
    ensures
        parse_type_tag(s, pos) == Some((t, pos + enc_type_tag(t).len())),
    decreases t, 0nat,
{
    lemma_at_byte(s, pos, enc_type_tag(t));
    assert(s[pos + 0] == enc_type_tag(t)[0]);
    match t {
        TypeTagModel::Vector(b) => {
            lemma_at_split(s, pos, tag_byte(6), enc_type_tag(*b));
            lemma_type_tag(s, pos + 1, *b);
        },
        TypeTagModel::Struct(st) => {
            lemma_at_split(s, pos, tag_byte(7), enc_struct_tag(st));
            lemma_struct_tag(s, pos + 1, st);
        },
        _ => {},
    }
}

pub proof fn lemma_struct_tag(s: Seq<u8>, pos: int, st: StructTagModel)
    requires
        struct_tag_wf(st),
        at(s, pos, enc_struct_tag(st)),
    ensures
        parse_struct_tag(s, pos) == Some((st, pos + enc_struct_tag(st).len())),
    decreases st, 2nat,
{
    let a = st.address;
    let m = enc_bytes(st.module);
    let n = enc_bytes(st.name);
    let l = uleb(st.type_params.len());
    let ps = enc_type_tags(st.type_params);
    assert(enc_struct_tag(st) == a + m + n + l + ps);
    lemma_at_split(s, pos, a + m + n + l, ps);
    lemma_at_split(s, pos, a + m + n, l);
    lemma_at_split(s, pos, a + m, n);
    lemma_at_split(s, pos, a, m);
    lemma_address(s, pos, a);
    lemma_identifier(s, pos + 32, st.module);
    lemma_identifier(s, pos + 32 + m.len(), st.name);
    lemma_len(s, pos + 32 + m.len() + n.len(), st.type_params.len());
    lemma_type_tags(s, pos + 32 + m.len() + n.len() + l.len(), st.type_params);
    let r = parse_struct_tag(s, pos);
    assert(r == Some(
        (
            StructTagModel {
                address: a,
                module: st.module,
                name: st.name,
                type_params: st.type_params,
            },
            pos + enc_struct_tag(st).len(),
        ),
    ));
}

pub proof fn lemma_type_tags(s: Seq<u8>, pos: int, ts: Seq<TypeTagModel>)
    requires
        forall|i: int| 0 <= i < ts.len() ==> type_tag_wf(#[trigger] ts[i]),
        at(s, pos, enc_type_tags(ts)),
    ensures
        parse_type_tags(s, pos, ts.len()) == Some((ts, pos + enc_type_tags(ts).len())),
    decreases ts, 1nat,
{
    if ts.len() > 0 {
        let rest = ts.subrange(1, ts.len() as int);
        lemma_at_split(s, pos, enc_type_tag(ts[0]), enc_type_tags(rest));
        lemma_type_tag(s, pos, ts[0]);
        assert forall|i: int| 0 <= i < rest.len() implies type_tag_wf(#[trigger] rest[i]) by {
            assert(rest[i] == ts[i + 1]);
        }
        lemma_type_tags(s, pos + enc_type_tag(ts[0]).len(), rest);
        assert(enc_type_tag(ts[0]).len() > 0) by {
            reveal_with_fuel(enc_type_tag, 1);
        }
        assert(seq![ts[0]] + rest =~= ts);
        assert((ts.len() - 1) as nat == rest.len());
    }
}

pub fn write_identifier(out: &mut Vec<u8>, id: &Identifier)
    ensures
        final(out)@ == old(out)@ + enc_bytes(id@),
{
    write_bytes(out, id.as_bytes());
}

pub fn read_identifier(s: &[u8], pos: usize) -> (r: Option<(Identifier, usize)>)
    ensures
        match r {
            Some((v, e)) => parse_identifier(s@, pos as int) == Some((v@, e as int)),
            None => parse_identifier(s@, pos as int) is None,
        },
{
    match read_bytes(s, pos) {
        Some((b, e)) => match Identifier::new(b) {
            Some(id) => Some((id, e)),
            None => None,
        },
        None => None,
    }
}

pub fn write_type_tag(out: &mut Vec<u8>, t: &TypeTag)
    ensures
        final(out)@ == old(out)@ + enc_type_tag(t.model()),
    decreases t, 0nat, 0nat,
{
    let ghost start = old(out)@;
    match t {
        TypeTag::Bool => out.push(0u8),
        TypeTag::U8 => out.push(1u8),
        TypeTag::U64 => out.push(2u8),
        TypeTag::U128 => out.push(3u8),
        TypeTag::Address => out.push(4u8),
        TypeTag::Signer => out.push(5u8),
        TypeTag::Vector(b) => {
            out.push(6u8);
            write_type_tag(out, &**b);
        },
        TypeTag::Struct(st) => {
            out.push(7u8);
            write_struct_tag(out, &**st);
        },
        TypeTag::U16 => out.push(8u8),
        TypeTag::U32 => out.push(9u8),
        TypeTag::U256 => out.push(10u8),
    }
    assert(out@ =~= start + enc_type_tag(t.model()));
}

pub fn write_struct_tag(out: &mut Vec<u8>, st: &StructTag)
    ensures
        final(out)@ == old(out)@ + enc_struct_tag(st.model()),
    decreases st, 3nat, 0nat,
{
    let ghost start = old(out)@;
    write_address(out, &st.address);
    write_identifier(out, &st.module);
    write_identifier(out, &st.name);
    write_uleb(out, st.type_params.len());
    write_type_params(out, st, 0);
    let ghost m = st.model();
    assert(m.type_params.subrange(0, m.type_params.len() as int) =~= m.type_params);
    assert(out@ =~= start + enc_struct_tag(st.model()));
}

/// Writes the type arguments of `st` from the `i`-th on.
fn write_type_params(out: &mut Vec<u8>, st: &StructTag, i: usize)
    requires
        i <= st.type_params.len(),
    ensures
        final(out)@ == old(out)@ + enc_type_tags(
            st.model().type_params.subrange(i as int, st.type_params.len() as int),
        ),
    decreases st, 2nat, st.type_params.len() - i,
{
    let ghost ms = st.model().type_params;
    let ghost rest = ms.subrange(i as int, ms.len() as int);
    if i == st.type_params.len() {
        assert(rest.len() == 0);
        assert(out@ =~= old(out)@ + enc_type_tags(rest));
        return;
    }
    let ghost start = old(out)@;
    proof {
        assert(decreases_to!(st => st.type_params@[i as int]));
    }
    write_type_tag(out, &st.type_params[i]);
    write_type_params(out, st, i + 1);
    assert(rest.subrange(1, rest.len() as int) =~= ms.subrange(i + 1, ms.len() as int));
    assert(rest[0] == st.type_params@[i as int].model());
    assert(out@ =~= start + enc_type_tags(rest));
}

pub fn read_type_tag(s: &[u8], pos: usize) -> (r: Option<(TypeTag, usize)>)
    ensures
        match r {
            Some((v, e)) => parse_type_tag(s@, pos as int) == Some((v.model(), e as int)),
            None => parse_type_tag(s@, pos as int) is None,
        },
    decreases s.len() - pos, 0nat, 0nat,
{
    match read_byte(s, pos) {
        Some((b, p)) => if b == 0 {
            Some((TypeTag::Bool, p))
        } else if b == 1 {
            Some((TypeTag::U8, p))
        } else if b == 2 {
            Some((TypeTag::U64, p))
        } else if b == 3 {
            Some((TypeTag::U128, p))
        } else if b == 4 {
            Some((TypeTag::Address, p))
        } else if b == 5 {
            Some((TypeTag::Signer, p))
        } else if b == 6 {
            match read_type_tag(s, pos + 1) {
                Some((t, e)) => Some((TypeTag::Vector(Box::new(t)), e)),
                None => None,
            }
        } else if b == 7 {
            match read_struct_tag(s, pos + 1) {
                Some((t, e)) => Some((TypeTag::Struct(Box::new(t)), e)),
                None => None,
            }
        } else if b == 8 {
            Some((TypeTag::U16, p))
        } else if b == 9 {
            Some((TypeTag::U32, p))
        } else if b == 10 {
            Some((TypeTag::U256, p))
        } else {
            None
        },
        None => None,
    }
}

pub fn read_struct_tag(s: &[u8], pos: usize) -> (r: Option<(StructTag, usize)>)
    ensures
        match r {
            Some((v, e)) => parse_struct_tag(s@, pos as int) == Some((v.model(), e as int)),
            None => parse_struct_tag(s@, pos as int) is None,
        },
    decreases s.len() - pos, 2nat, 0nat,
{
    let (address, q1) = match read_address(s, pos) {
        Some(x) => x,
        None => return None,
    };
    let (module, q2) = match read_identifier(s, q1) {
        Some(x) => x,
        None => return None,
    };
    let (name, q3) = match read_identifier(s, q2) {
        Some(x) => x,
        None => return None,
    };
    let (k, q4) = match read_len(s, q3) {
        Some(x) => x,
        None => return None,
    };
    if !(pos < q4 && q4 <= s.len()) {
        return None;
    }
    match read_type_tags(s, q4, k) {
        Some((ts, e)) => {
            let st = StructTag { address, module, name, type_params: ts };
            proof {
                let want = parse_type_tags(s@, q4 as int, k as nat);
                assert(st.model().type_params =~= want->Some_0.0);
            }
            Some((st, e))
        },
        None => None,
    }
}

fn read_type_tags(s: &[u8], pos: usize, k: usize) -> (r: Option<(Vec<TypeTag>, usize)>)
    ensures
        match r {
            Some((v, e)) => parse_type_tags(s@, pos as int, k as nat) matches Some((ts, e2)) && e2
                == e as int && ts.len() == v.len() && forall|i: int|
                0 <= i < v.len() ==> (#[trigger] v@[i]).model() == ts[i],
            None => parse_type_tags(s@, pos as int, k as nat) is None,
        },
    decreases s.len() - pos, 1nat, k,
{
    if k == 0 {
        return Some((Vec::new(), pos));
    }
    if pos >= s.len() {
        return None;
    }
    match read_type_tag(s, pos) {
        Some((t, p)) => {
            if !(pos < p && p <= s.len()) {
                return None;
            }
            match read_type_tags(s, p, k - 1) {
                Some((rest, e)) => {
                    let mut v = rest;
                    let ghost old_v = v@;
                    v.insert(0, t);
                    proof {
                        let (ts, _) = parse_type_tags(s@, p as int, (k - 1) as nat)->Some_0;
                        assert forall|i: int| 0 <= i < v.len() implies (#[trigger] v@[i]).model()
                            == (seq![t.model()] + ts)[i] by {
                            if i > 0 {
                                assert(v@[i] == old_v[i - 1]);
                            }
                        }
                    }
                    Some((v, e))
                },
                None => None,
            }
        },
        None => None,
    }
}

} // verus!
