//! Primitive pieces of the canonical binary format: fixed-width integers,
//! ULEB128 lengths, byte strings, addresses and digests.
use vstd::prelude::*;

use crate::types::{Address, Digest, MAX_SEQUENCE_LENGTH};

verus! {

/// `e` stands in `s` from `pos` on.
pub open spec fn at(s: Seq<u8>, pos: int, e: Seq<u8>) -> bool {
    &&& 0 <= pos
    &&& pos + e.len() <= s.len()
    &&& s.subrange(pos, pos + e.len()) == e
}

pub proof fn lemma_at_split(s: Seq<u8>, pos: int, a: Seq<u8>, b: Seq<u8>)
    requires
        at(s, pos, a + b),
    ensures
        at(s, pos, a),
        at(s, pos + a.len(), b),
{
    let whole = s.subrange(pos, pos + a.len() + b.len());
    assert(whole == a + b);
    assert(s.subrange(pos, pos + a.len()) =~= whole.subrange(0, a.len() as int));
    assert(whole.subrange(0, a.len() as int) =~= a);
    assert(s.subrange(pos + a.len(), pos + a.len() + b.len()) =~= whole.subrange(
        a.len() as int,
        whole.len() as int,
    ));
    assert(whole.subrange(a.len() as int, whole.len() as int) =~= b);
}

pub proof fn lemma_at_byte(s: Seq<u8>, pos: int, e: Seq<u8>)
    requires
        at(s, pos, e),
    ensures
        forall|i: int| 0 <= i < e.len() ==> s[pos + i] == #[trigger] e[i],
{
    assert forall|i: int| 0 <= i < e.len() implies s[pos + i] == #[trigger] e[i] by {
        assert(s.subrange(pos, pos + e.len())[i] == s[pos + i]);
    }
}

/// Little-endian bytes of a 64-bit integer.
pub open spec fn le_u64(v: u64) -> Seq<u8> {
    seq![
        v as u8,
        (v >> 8u64) as u8,
        (v >> 16u64) as u8,
        (v >> 24u64) as u8,
        (v >> 32u64) as u8,
        (v >> 40u64) as u8,
        (v >> 48u64) as u8,
        (v >> 56u64) as u8,
    ]
}

pub open spec fn u64_of(b0: u8, b1: u8, b2: u8, b3: u8, b4: u8, b5: u8, b6: u8, b7: u8) -> u64 {
    (b0 as u64) | ((b1 as u64) << 8u64) | ((b2 as u64) << 16u64) | ((b3 as u64) << 24u64) | ((
    b4 as u64) << 32u64) | ((b5 as u64) << 40u64) | ((b6 as u64) << 48u64) | ((b7 as u64)
        << 56u64)
}

pub open spec fn parse_u64(s: Seq<u8>, pos: int) -> Option<(u64, int)> {
    if 0 <= pos && pos + 8 <= s.len() {
        Some(
            (
                u64_of(
                    s[pos],
                    s[pos + 1],
                    s[pos + 2],
                    s[pos + 3],
                    s[pos + 4],
                    s[pos + 5],
                    s[pos + 6],
                    s[pos + 7],
                ),
                pos + 8,
            ),
        )
    } else {
        None
    }
}

pub proof fn lemma_u64_bits(v: u64)
    ensures
        u64_of(
            v as u8,
            (v >> 8u64) as u8,
            (v >> 16u64) as u8,
            (v >> 24u64) as u8,
            (v >> 32u64) as u8,
            (v >> 40u64) as u8,
            (v >> 48u64) as u8,
            (v >> 56u64) as u8,
        ) == v,
{
    assert((v as u8 as u64) | (((v >> 8u64) as u8 as u64) << 8u64) | (((v >> 16u64) as u8 as u64)
        << 16u64) | (((v >> 24u64) as u8 as u64) << 24u64) | (((v >> 32u64) as u8 as u64)
        << 32u64) | (((v >> 40u64) as u8 as u64) << 40u64) | (((v >> 48u64) as u8 as u64)
        << 48u64) | (((v >> 56u64) as u8 as u64) << 56u64) == v) by (bit_vector);
}

pub proof fn lemma_u64(s: Seq<u8>, pos: int, v: u64)
    requires
        at(s, pos, le_u64(v)),
    ensures
        parse_u64(s, pos) == Some((v, pos + 8)),
{
    lemma_at_byte(s, pos, le_u64(v));
    assert(le_u64(v)[1] == (v >> 8u64) as u8);
    assert(s[pos + 1] == le_u64(v)[1]);
    assert(s[pos + 2] == le_u64(v)[2]);
    assert(s[pos + 3] == le_u64(v)[3]);
    assert(s[pos + 4] == le_u64(v)[4]);
    assert(s[pos + 5] == le_u64(v)[5]);
    assert(s[pos + 6] == le_u64(v)[6]);
    assert(s[pos + 7] == le_u64(v)[7]);
    assert(s[pos + 0] == le_u64(v)[0]);
    lemma_u64_bits(v);
}

pub fn write_u64(out: &mut Vec<u8>, v: u64)
    ensures
        final(out)@ == old(out)@ + le_u64(v),
{
    out.push(v as u8);
    out.push((v >> 8u64) as u8);
    out.push((v >> 16u64) as u8);
    out.push((v >> 24u64) as u8);
    out.push((v >> 32u64) as u8);
    out.push((v >> 40u64) as u8);
    out.push((v >> 48u64) as u8);
    out.push((v >> 56u64) as u8);
    assert(final(out)@ =~= old(out)@ + le_u64(v));
}

pub fn read_u64(s: &[u8], pos: usize) -> (r: Option<(u64, usize)>)
    ensures
        match r {
            Some((v, e)) => parse_u64(s@, pos as int) == Some((v, e as int)),
            None => parse_u64(s@, pos as int) is None,
        },
{
    if pos > s.len() || s.len() - pos < 8 {
        return None;
    }
    let v = (s[pos] as u64) | ((s[pos + 1] as u64) << 8u64) | ((s[pos + 2] as u64) << 16u64) | ((
    s[pos + 3] as u64) << 24u64) | ((s[pos + 4] as u64) << 32u64) | ((s[pos + 5] as u64)
        << 40u64) | ((s[pos + 6] as u64) << 48u64) | ((s[pos + 7] as u64) << 56u64);
    Some((v, pos + 8))
}

/// A single byte: a variant tag or a boolean.
pub open spec fn parse_byte(s: Seq<u8>, pos: int) -> Option<(u8, int)> {
    if 0 <= pos < s.len() {
        Some((s[pos], pos + 1))
    } else {
        None
    }
}

pub fn read_byte(s: &[u8], pos: usize) -> (r: Option<(u8, usize)>)
    ensures
        match r {
            Some((v, e)) => parse_byte(s@, pos as int) == Some((v, e as int)),
            None => parse_byte(s@, pos as int) is None,
        },
{
    if pos < s.len() {
        Some((s[pos], pos + 1))
    } else {
        None
    }
}

pub open spec fn enc_bool(b: bool) -> Seq<u8> {
    if b {
        seq![1u8]
    } else {
        seq![0u8]
    }
}

pub open spec fn parse_bool(s: Seq<u8>, pos: int) -> Option<(bool, int)> {
    match parse_byte(s, pos) {
        Some((b, e)) => if b == 0 {
            Some((false, e))
        } else if b == 1 {
            Some((true, e))
        } else {
            None
        },
        None => None,
    }
}

pub fn read_bool(s: &[u8], pos: usize) -> (r: Option<(bool, usize)>)
    ensures
        match r {
            Some((v, e)) => parse_bool(s@, pos as int) == Some((v, e as int)),
            None => parse_bool(s@, pos as int) is None,
        },
{
    match read_byte(s, pos) {
        Some((b, e)) => if b == 0 {
            Some((false, e))
        } else if b == 1 {
            Some((true, e))
        } else {
            None
        },
        None => None,
    }
}

pub proof fn lemma_bool(s: Seq<u8>, pos: int, b: bool)
    requires
        at(s, pos, enc_bool(b)),
    ensures
        parse_bool(s, pos) == Some((b, pos + 1)),
{
    lemma_at_byte(s, pos, enc_bool(b));
    assert(s[pos + 0] == enc_bool(b)[0]);
}

/// ULEB128 form of a natural number: seven bits per byte, low bits first,
/// the high bit set on every byte but the last.
pub open spec fn uleb(n: nat) -> Seq<u8>
    decreases n,
{
    if n < 128 {
        seq![n as u8]
    } else {
        seq![(n % 128 + 128) as u8] + uleb(n / 128)
    }
}

/// Numbers that fit in the bytes left after `k` bytes of a ULEB128 value.
pub open spec fn uleb_cap(k: nat) -> nat
    decreases 5 - k,
{
    if k >= 5 {
        1
    } else {
        128 * uleb_cap(k + 1)
    }
}

/// Reads the rest of a ULEB128 value of at most five bytes, `k` of which are
/// read already. A last byte of zero after others is not canonical.
pub open spec fn parse_uleb_from(s: Seq<u8>, pos: int, k: nat) -> Option<(nat, int)>
    decreases 5 - k,
{
    if k >= 5 || pos < 0 || pos >= s.len() {
        None
    } else if s[pos] < 128 {
        if k > 0 && s[pos] == 0 {
            None
        } else {
            Some((s[pos] as nat, pos + 1))
        }
    } else {
        match parse_uleb_from(s, pos + 1, k + 1) {
            Some((v, e)) => Some(((s[pos] - 128) as nat + 128 * v, e)),
            None => None,
        }
    }
}

/// An element count: a canonical ULEB128 value of at most `MAX_SEQUENCE_LENGTH`.
pub open spec fn parse_len(s: Seq<u8>, pos: int) -> Option<(nat, int)> {
    match parse_uleb_from(s, pos, 0) {
        Some((v, e)) => if v <= MAX_SEQUENCE_LENGTH {
            Some((v, e))
        } else {
            None
        },
        None => None,
    }
}

pub proof fn lemma_uleb_cap(k: nat)
    requires
        k <= 5,
    ensures
        1 <= uleb_cap(k) <= 34359738368,
        k < 5 ==> uleb_cap(k) == 128 * uleb_cap(k + 1),
        uleb_cap(0) == 34359738368,
    decreases 5 - k,
{
    reveal_with_fuel(uleb_cap, 6);
    if k < 5 {
        lemma_uleb_cap(k + 1);
    }
}

proof fn lemma_uleb_from_bound(s: Seq<u8>, pos: int, k: nat)
    requires
        k <= 5,
    ensures
        parse_uleb_from(s, pos, k) matches Some((v, e)) ==> v < uleb_cap(k) && pos < e <= s.len(),
    decreases 5 - k,
{
    lemma_uleb_cap(k);
    if k < 5 && 0 <= pos < s.len() && s[pos] >= 128 {
        lemma_uleb_from_bound(s, pos + 1, k + 1);
        if let Some((v, e)) = parse_uleb_from(s, pos + 1, k + 1) {
            let b = (s[pos] - 128) as nat;
            assert(b + 128 * v < 128 * uleb_cap(k + 1)) by (nonlinear_arith)
                requires
                    b < 128,
                    v < uleb_cap(k + 1),
            ;
        }
    }
}

proof fn lemma_uleb_from(s: Seq<u8>, pos: int, n: nat, k: nat)
    requires
        k < 5,
        n < uleb_cap(k),
        k > 0 ==> n > 0,
        at(s, pos, uleb(n)),
    ensures
        parse_uleb_from(s, pos, k) == Some((n, pos + uleb(n).len())),
    decreases 5 - k,
{
    lemma_uleb_cap(k);
    lemma_at_byte(s, pos, uleb(n));
    assert(s[pos + 0] == uleb(n)[0]);
    if n >= 128 {
        let rest = uleb(n / 128);
        lemma_at_split(s, pos, seq![(n % 128 + 128) as u8], rest);
        assert(n == 128 * (n / 128) + n % 128) by (nonlinear_arith);
        if k + 1 >= 5 {
            lemma_uleb_cap(k + 1);
            assert(false) by (nonlinear_arith)
                requires
                    n < 128 * uleb_cap(k + 1),
                    uleb_cap(k + 1) == 1,
                    n >= 128,
            ;
        }
        assert(n / 128 < uleb_cap(k + 1)) by (nonlinear_arith)
            requires
                n < 128 * uleb_cap(k + 1),
        ;
        assert(n / 128 > 0) by (nonlinear_arith)
            requires
                n >= 128,
        ;
        lemma_uleb_from(s, pos + 1, n / 128, k + 1);
        assert(uleb(n)[0] == (n % 128 + 128) as u8);
    }
}

/// What `uleb` writes reads back, for every count that the wire allows.
pub proof fn lemma_len(s: Seq<u8>, pos: int, n: nat)
    requires
        n <= MAX_SEQUENCE_LENGTH,
        at(s, pos, uleb(n)),
    ensures
        parse_len(s, pos) == Some((n, pos + uleb(n).len())),
{
    lemma_uleb_cap(0);
    lemma_uleb_from(s, pos, n, 0);
}

pub fn write_uleb(out: &mut Vec<u8>, n: usize)
    ensures
        final(out)@ == old(out)@ + uleb(n as nat),
    decreases n,
{
    if n < 128 {
        out.push(n as u8);
        assert(final(out)@ =~= old(out)@ + uleb(n as nat));
    } else {
        out.push((n % 128 + 128) as u8);
        write_uleb(out, n / 128);
        assert(final(out)@ =~= old(out)@ + uleb(n as nat));
    }
}

fn read_uleb_from(s: &[u8], pos: usize, k: usize) -> (r: Option<(u64, usize)>)
    requires
        k <= 5,
    ensures
        match r {
            Some((v, e)) => parse_uleb_from(s@, pos as int, k as nat) == Some((v as nat, e as int)),
            None => parse_uleb_from(s@, pos as int, k as nat) is None,
        },
    decreases 5 - k,
{
    if k >= 5 || pos >= s.len() {
        return None;
    }
    let b = s[pos];
    if b < 128 {
        if k > 0 && b == 0 {
            None
        } else {
            Some((b as u64, pos + 1))
        }
    } else {
        proof {
            lemma_uleb_from_bound(s@, pos as int + 1, (k + 1) as nat);
            lemma_uleb_cap((k + 1) as nat);
        }
        match read_uleb_from(s, pos + 1, k + 1) {
            Some((v, e)) => Some(((b - 128) as u64 + 128 * v, e)),
            None => None,
        }
    }
}

pub fn read_len(s: &[u8], pos: usize) -> (r: Option<(usize, usize)>)
    ensures
        match r {
            Some((v, e)) => parse_len(s@, pos as int) == Some((v as nat, e as int)),
            None => parse_len(s@, pos as int) is None,
        },
{
    match read_uleb_from(s, pos, 0) {
        Some((v, e)) => if v <= MAX_SEQUENCE_LENGTH as u64 {
            Some((v as usize, e))
        } else {
            None
        },
        None => None,
    }
}

/// A byte string: its length, then its bytes.
pub open spec fn enc_bytes(b: Seq<u8>) -> Seq<u8> {
    uleb(b.len()) + b
}

pub open spec fn parse_bytes(s: Seq<u8>, pos: int) -> Option<(Seq<u8>, int)> {
    match parse_len(s, pos) {
        Some((n, p)) => if p + n <= s.len() {
            Some((s.subrange(p, p + n), p + n))
        } else {
            None
        },
        None => None,
    }
}

pub proof fn lemma_bytes(s: Seq<u8>, pos: int, b: Seq<u8>)
    requires
        b.len() <= MAX_SEQUENCE_LENGTH,
        at(s, pos, enc_bytes(b)),
    ensures
        parse_bytes(s, pos) == Some((b, pos + enc_bytes(b).len())),
{
    lemma_at_split(s, pos, uleb(b.len()), b);
    lemma_len(s, pos, b.len());
}

/// Appends `b` to `out`.
pub fn write_raw(out: &mut Vec<u8>, b: &[u8])
    ensures
        final(out)@ == old(out)@ + b@,
{
    let ghost start = old(out)@;
    let mut i: usize = 0;
    while i < b.len()
        invariant
            0 <= i <= b@.len(),
            out@ == start + b@.subrange(0, i as int),
        decreases b@.len() - i,
    {
        out.push(b[i]);
        i = i + 1;
        assert(out@ =~= start + b@.subrange(0, i as int));
    }
    assert(b@.subrange(0, b@.len() as int) =~= b@);
}

pub fn write_bytes(out: &mut Vec<u8>, b: &[u8])
    ensures
        final(out)@ == old(out)@ + enc_bytes(b@),
{
    write_uleb(out, b.len());
    write_raw(out, b);
    assert(final(out)@ =~= old(out)@ + enc_bytes(b@));
}

/// The `n` bytes of `s` from `pos`, when there are so many.
pub fn take(s: &[u8], pos: usize, n: usize) -> (r: Option<(Vec<u8>, usize)>)
    ensures
        match r {
            Some((v, e)) => pos + n <= s@.len() && v@ == s@.subrange(pos as int, pos + n) && e
                == pos + n,
            None => pos + n > s@.len(),
        },
{
    if pos > s.len() || s.len() - pos < n {
        return None;
    }
    let v = vstd::slice::slice_to_vec(vstd::slice::slice_subrange(s, pos, pos + n));
    Some((v, pos + n))
}

pub fn read_bytes(s: &[u8], pos: usize) -> (r: Option<(Vec<u8>, usize)>)
    ensures
        match r {
            Some((v, e)) => parse_bytes(s@, pos as int) == Some((v@, e as int)),
            None => parse_bytes(s@, pos as int) is None,
        },
{
    match read_len(s, pos) {
        Some((n, p)) => take(s, p, n),
        None => None,
    }
}

/// An address: its 32 bytes as they are.
pub open spec fn parse_address(s: Seq<u8>, pos: int) -> Option<(Seq<u8>, int)> {
    if 0 <= pos && pos + 32 <= s.len() {
        Some((s.subrange(pos, pos + 32), pos + 32))
    } else {
        None
    }
}

pub proof fn lemma_address(s: Seq<u8>, pos: int, a: Seq<u8>)
    requires
        a.len() == 32,
        at(s, pos, a),
    ensures
        parse_address(s, pos) == Some((a, pos + 32)),
{
}

pub fn write_address(out: &mut Vec<u8>, a: &Address)
    ensures
        final(out)@ == old(out)@ + a@,
{
    write_raw(out, a.as_bytes().as_slice());
}

pub fn read_address(s: &[u8], pos: usize) -> (r: Option<(Address, usize)>)
    ensures
        match r {
            Some((v, e)) => parse_address(s@, pos as int) == Some((v@, e as int)),
            None => parse_address(s@, pos as int) is None,
        },
{
    if pos > s.len() || s.len() - pos < 32 {
        return None;
    }
    let a = Address::from_bytes(vstd::slice::slice_subrange(s, pos, s.len()));
    match a {
        Some(a) => {
            assert(s@.subrange(pos as int, s@.len() as int).subrange(0, 32) =~= s@.subrange(
                pos as int,
                pos + 32,
            ));
            Some((a, pos + 32))
        },
        None => None,
    }
}

/// A digest: the length 32, then its 32 bytes.
pub open spec fn enc_digest(d: Seq<u8>) -> Seq<u8> {
    enc_bytes(d)
}

pub open spec fn parse_digest(s: Seq<u8>, pos: int) -> Option<(Seq<u8>, int)> {
    match parse_bytes(s, pos) {
        Some((b, e)) => if b.len() == 32 {
            Some((b, e))
        } else {
            None
        },
        None => None,
    }
}

pub fn write_digest(out: &mut Vec<u8>, d: &Digest)
    ensures
        final(out)@ == old(out)@ + enc_digest(d@),
{
    write_bytes(out, d.bytes.as_slice());
}

pub fn read_digest(s: &[u8], pos: usize) -> (r: Option<(Digest, usize)>)
    ensures
        match r {
            Some((v, e)) => parse_digest(s@, pos as int) == Some((v@, e as int)),
            None => parse_digest(s@, pos as int) is None,
        },
{
    match read_bytes(s, pos) {
        Some((b, e)) => {
            if b.len() != 32 {
                return None;
            }
            let mut bytes = [0u8; 32];
            let mut i: usize = 0;
            while i < 32
                invariant
                    0 <= i <= 32,
                    b@.len() == 32,
                    bytes@.len() == 32,
                    forall|j: int| 0 <= j < i ==> bytes@[j] == b@[j],
                decreases 32 - i,
            {
                bytes[i] = b[i];
                i = i + 1;
            }
            let d = Digest { bytes };
            assert(d@ =~= b@);
            Some((d, e))
        },
        None => None,
    }
}

pub proof fn lemma_digest(s: Seq<u8>, pos: int, d: Seq<u8>)
    requires
        d.len() == 32,
        at(s, pos, enc_digest(d)),
    ensures
        parse_digest(s, pos) == Some((d, pos + enc_digest(d).len())),
{
    lemma_bytes(s, pos, d);
}

} // verus!
