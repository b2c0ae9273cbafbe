use vstd::prelude::*;
use vstd::arithmetic::div_mod::{
    lemma_breakdown, lemma_div_basics, lemma_div_denominator, lemma_fundamental_div_mod,
    lemma_mod_division_less_than_divisor, lemma_small_mod,
};
use crate::PlayerId;
use crate::server::ServerError;

verus! {

/// Bytes of the fixed wire header: 16 for the sender identity, 2 for the
/// content-type discriminant, 2 for the body length.
pub const HEADER_SIZE: usize = 20;

/// The fixed-size frame in front of every body: who sent the packet,
/// which content kind follows, and how many body bytes to read.
#[derive(Clone, Copy, PartialEq, Eq, Structural, Debug)]
pub struct Header {
    pub id: PlayerId,
    pub kind: u16,
    pub body_len: u16,
}

pub open spec fn pow256(n: nat) -> nat
    decreases n,
{
    if n == 0 {
        1
    } else {
        256 * pow256((n - 1) as nat)
    }
}

/// Value of a big-endian byte run.
pub open spec fn be_val(s: Seq<u8>) -> nat
    decreases s.len(),
{
    if s.len() == 0 {
        0
    } else {
        (be_val(s.drop_last()) * 256 + s.last()) as nat
    }
}

/// Value of a two-byte little-endian run.
pub open spec fn le16(lo: u8, hi: u8) -> u16 {
    (lo + hi * 256) as u16
}

pub proof fn lemma_pow256_value()
    ensures
        pow256(16) == 0x100000000000000000000000000000000,
{
    reveal_with_fuel(pow256, 17);
}

pub proof fn lemma_pow256_pos(n: nat)
    ensures
        pow256(n) >= 1,
    decreases n,
{
    if n > 0 {
        lemma_pow256_pos((n - 1) as nat);
    }
}

pub proof fn lemma_pow256_increases(i: nat, j: nat)
    requires
        i <= j,
    ensures
        pow256(i) <= pow256(j),
        pow256(i) >= 1,
    decreases j,
{
    lemma_pow256_pos(i);
    if i < j {
        lemma_pow256_increases(i, (j - 1) as nat);
        lemma_pow256_pos((j - 1) as nat);
    }
}

pub proof fn lemma_be_val_bound(s: Seq<u8>)
    ensures
        be_val(s) < pow256(s.len()),
    decreases s.len(),
{
    if s.len() > 0 {
        lemma_be_val_bound(s.drop_last());
    }
}

impl Header {
    /// Reads the fixed frame in front of a body. Exactly the buffers of
    /// the wrong size are refused; framing errors are protocol
    /// violations.
    pub fn from_bytes(bytes: &Vec<u8>) -> (r: Result<Header, ServerError>)
        ensures
            bytes@.len() != HEADER_SIZE ==> r == Result::<Header, ServerError>::Err(
                ServerError::ProtocolViolation,
            ),
            bytes@.len() == HEADER_SIZE ==> (r matches Result::Ok(h) && {
                &&& h.id as nat == be_val(bytes@.subrange(0, 16))
                &&& h.kind == le16(bytes@[16], bytes@[17])
                &&& h.body_len == le16(bytes@[18], bytes@[19])
            }),
    {
        if bytes.len() != HEADER_SIZE {
            return Result::Err(ServerError::ProtocolViolation);
        }
        let mut id: u128 = 0;
        let mut i: usize = 0;
        proof {
            assert(bytes@.subrange(0, 0) =~= Seq::<u8>::empty());
        }
        while i < 16
            invariant
                bytes@.len() == HEADER_SIZE,
                i <= 16,
                id as nat == be_val(bytes@.subrange(0, i as int)),
            decreases 16 - i,
        {
            proof {
                lemma_be_val_bound(bytes@.subrange(0, i as int));
                lemma_pow256_increases(i as nat, 15);
                lemma_pow256_value();
                assert(bytes@.subrange(0, i as int + 1).drop_last() =~= bytes@.subrange(
                    0,
                    i as int,
                ));
                assert(bytes@.subrange(0, i as int + 1).last() == bytes@[i as int]);
            }
            id = id * 256 + (bytes[i] as u128);
            i = i + 1;
        }
        let kind: u16 = (bytes[16] as u16) + (bytes[17] as u16) * 256;
        let body_len: u16 = (bytes[18] as u16) + (bytes[19] as u16) * 256;
        Result::Ok(Header { id, kind, body_len })
    }

    /// Writes the fixed frame: the inverse of `from_bytes` on well-sized
    /// buffers.
    pub fn to_bytes(&self) -> (r: Vec<u8>)
        ensures
            r@.len() == HEADER_SIZE,
            be_val(r@.subrange(0, 16)) == self.id as nat,
            le16(r@[16], r@[17]) == self.kind,
            le16(r@[18], r@[19]) == self.body_len,
    {
        let mut out: Vec<u8> = vec![0u8; HEADER_SIZE];
        let mut cur: u128 = self.id;
        let mut k: usize = 0;
        proof {
            assert(out@.subrange(16, 16) =~= Seq::<u8>::empty());
            lemma_pow256_value();
            lemma_div_basics(self.id as int);
            lemma_mod_division_less_than_divisor(self.id as int, 1);
            assert(pow256(0) == 1);
        }
        while k < 16
            invariant
                out@.len() == HEADER_SIZE,
                k <= 16,
                cur as nat == self.id as nat / pow256(k as nat),
                be_val(out@.subrange(16 - k as int, 16)) == self.id as nat % pow256(k as nat),
                forall|j: int| 16 <= j < HEADER_SIZE ==> out@[j] == 0u8,
            decreases 16 - k,
        {
            let ghost s0 = out@;
            let ghost pk = pow256(k as nat);
            let b: u8 = (cur % 256) as u8;
            out[15 - k] = b;
            cur = cur / 256;
            proof {
                lemma_pow256_pos(k as nat);
                lemma_div_denominator(self.id as int, pk as int, 256);
                lemma_breakdown(self.id as int, pk as int, 256);
                lemma_pow256_mul_step(k as nat);
                let newblock = out@.subrange(16 - (k as int + 1), 16);
                assert(newblock[0] == b);
                assert(newblock.drop_first() =~= s0.subrange(16 - k as int, 16));
                lemma_be_val_first(newblock);
                assert(b as int == (self.id as int / pk as int) % 256);
                assert(be_val(newblock) == (b as int) * (pk as int) + (self.id as nat % pk));
                assert((b as int) * (pk as int) == (pk as int) * (b as int));
                assert(be_val(newblock) == self.id as int % (pk as int * 256));
                assert(cur as nat == self.id as nat / pow256(k as nat + 1));
            }
            k = k + 1;
        }
        proof {
            lemma_be_val_bound(out@.subrange(0, 16));
            lemma_small_mod(self.id as nat, pow256(16));
        }
        let lo_kind: u8 = (self.kind % 256) as u8;
        let hi_kind: u8 = (self.kind / 256) as u8;
        let lo_len: u8 = (self.body_len % 256) as u8;
        let hi_len: u8 = (self.body_len / 256) as u8;
        let ghost before = out@;
        out[16] = lo_kind;
        out[17] = hi_kind;
        out[18] = lo_len;
        out[19] = hi_len;
        proof {
            assert(out@.subrange(0, 16) =~= before.subrange(0, 16));
            lemma_fundamental_div_mod(self.kind as int, 256);
            lemma_fundamental_div_mod(self.body_len as int, 256);
        }
        out
    }
}

/// A big-endian run is its first byte weighted by the width of the rest,
/// plus the rest.
pub proof fn lemma_be_val_first(s: Seq<u8>)
    requires
        s.len() > 0,
    ensures
        be_val(s) == s[0] * pow256((s.len() - 1) as nat) + be_val(s.drop_first()),
    decreases s.len(),
{
    if s.len() == 1 {
        assert(s.drop_first() =~= Seq::<u8>::empty());
        assert(s.drop_last() =~= Seq::<u8>::empty());
        assert(be_val(Seq::<u8>::empty()) == 0);
        assert(s.last() == s[0]);
        assert(be_val(s) == s[0]);
        assert(pow256(0) == 1);
    } else {
        let d = s.drop_last();
        let a = s[0] as int;
        let p1 = pow256((s.len() - 1) as nat) as int;
        let p2 = pow256((s.len() - 2) as nat) as int;
        lemma_be_val_first(d);
        assert(d.drop_first() =~= s.drop_first().drop_last());
        assert(s.drop_first().last() == s.last());
        assert(d[0] == s[0]);
        assert(p1 == 256 * p2);
        assert(be_val(s) == be_val(d) * 256 + s.last());
        assert(be_val(d) == a * p2 + be_val(d.drop_first()));
        assert(be_val(s.drop_first()) == be_val(s.drop_first().drop_last()) * 256 + s.last());
        assert((a * p2 + be_val(d.drop_first())) * 256 == a * p2 * 256 + be_val(d.drop_first())
            * 256) by (nonlinear_arith);
        assert(a * p2 * 256 == a * p1) by (nonlinear_arith)
            requires
                p1 == 256 * p2,
        ;
    }
}

pub proof fn lemma_pow256_mul_step(k: nat)
    ensures
        pow256(k + 1) == pow256(k) * 256,
{
}

} // verus!
