//! Envelope extraction from raw transport messages. Proving that a message
//! really originated on the foreign chain is an external collaborator's job,
//! specified only at this boundary; the mock verifier stands in for it by
//! accepting every well-formed message. Its canonical layout is twenty bytes
//! of source address, eight bytes of nonce (both big endian), then the
//! payload.

use vstd::prelude::*;
use crate::types::{Address, Envelope};

verus! {

/// A raw transport message as submitted by a relayer, not yet verified.
#[derive(PartialEq, Eq, Debug)]
pub struct Message {
    pub data: Vec<u8>,
}

/// Verification failure: the message cannot yield an envelope.
#[derive(Clone, Copy, PartialEq, Eq, Structural, Debug)]
pub enum VerificationError {
    InvalidMessage,
}

/// The value of a big-endian byte string.
pub open spec fn be_val(s: Seq<u8>) -> nat
    decreases s.len(),
{
    if s.len() == 0 {
        0
    } else {
        (be_val(s.drop_last()) * 256 + s.last()) as nat
    }
}

/// `256^n`, the number of values `n` bytes can take.
pub open spec fn pow256(n: nat) -> nat
    decreases n,
{
    if n == 0 {
        1
    } else {
        256 * pow256((n - 1) as nat)
    }
}

proof fn lemma_pow256_pos(n: nat)
    ensures
        pow256(n) >= 1,
    decreases n,
{
    if n > 0 {
        lemma_pow256_pos((n - 1) as nat);
    }
}

proof fn lemma_pow256_le(i: nat, j: nat)
    requires
        i <= j,
    ensures
        pow256(i) <= pow256(j),
    decreases j,
{
    if i < j {
        lemma_pow256_le(i, (j - 1) as nat);
        lemma_pow256_pos((j - 1) as nat);
    }
}

proof fn lemma_pow256_values()
    ensures
        pow256(4) == 0x1_0000_0000,
        pow256(8) == 0x1_0000_0000_0000_0000,
        pow256(16) == u128::MAX + 1,
{
    assert(pow256(0) == 1);
    assert(pow256(1) == 0x100);
    assert(pow256(2) == 0x1_0000);
    assert(pow256(3) == 0x100_0000);
    assert(pow256(4) == 0x1_0000_0000);
    assert(pow256(5) == 0x100_0000_0000);
    assert(pow256(6) == 0x1_0000_0000_0000);
    assert(pow256(7) == 0x100_0000_0000_0000);
    assert(pow256(8) == 0x1_0000_0000_0000_0000);
    assert(pow256(9) == 0x100_0000_0000_0000_0000);
    assert(pow256(10) == 0x1_0000_0000_0000_0000_0000);
    assert(pow256(11) == 0x100_0000_0000_0000_0000_0000);
    assert(pow256(12) == 0x1_0000_0000_0000_0000_0000_0000);
    assert(pow256(13) == 0x100_0000_0000_0000_0000_0000_0000);
    assert(pow256(14) == 0x1_0000_0000_0000_0000_0000_0000_0000);
    assert(pow256(15) == 0x100_0000_0000_0000_0000_0000_0000_0000);
    assert(pow256(16) == 256 * pow256(15));
}

proof fn lemma_be_val_bound(s: Seq<u8>)
    ensures
        be_val(s) < pow256(s.len()),
    decreases s.len(),
{
    if s.len() == 0 {
    } else {
        lemma_be_val_bound(s.drop_last());
    }
}

/// Read `count` big-endian bytes starting at `start` as one value.
fn read_be(data: &Vec<u8>, start: usize, count: usize) -> (r: u128)
    requires
        count <= 16,
        start + count <= data@.len(),
    ensures
        r == be_val(data@.subrange(start as int, start + count)),
        r < pow256(count as nat),
{
    let n = data.len();
    let mut acc: u128 = 0;
    let mut i: usize = 0;
    while i < count
        invariant
            i <= count,
            count <= 16,
            n == data@.len(),
            start + count <= n,
            acc == be_val(data@.subrange(start as int, start + i)),
            acc < pow256(i as nat),
        decreases count - i,
    {
        proof {
            lemma_pow256_le((i + 1) as nat, 16);
            lemma_pow256_values();
            assert(acc * 256 + 256 <= pow256((i + 1) as nat)) by (nonlinear_arith)
                requires
                    acc < pow256(i as nat),
                    pow256((i + 1) as nat) == 256 * pow256(i as nat),
            ;
        }
        acc = acc * 256 + (data[start + i] as u128);
        i = i + 1;
        proof {
            let sub = data@.subrange(start as int, start + i);
            assert(sub.drop_last() =~= data@.subrange(start as int, start + i - 1));
            assert(sub.last() == data@[start + i - 1]);
        }
    }
    proof {
        lemma_be_val_bound(data@.subrange(start as int, start + count));
    }
    acc
}

/// A verifier stand-in that treats every well-formed message as authentic.
/// A message of at least 28 bytes yields an envelope with the decoded source
/// address, nonce and payload, and empty metadata; a shorter one is refused.
pub struct MockVerifier;

impl MockVerifier {
    pub fn verify(message: &Message) -> (r: Result<Envelope, VerificationError>)
        ensures
            match r {
                Ok(env) => {
                    &&& message.data@.len() >= 28
                    &&& env.source.hi == be_val(message.data@.subrange(0, 4))
                    &&& env.source.lo == be_val(message.data@.subrange(4, 20))
                    &&& env.nonce == be_val(message.data@.subrange(20, 28))
                    &&& env.payload@ == message.data@.subrange(28, message.data@.len() as int)
                    &&& env.metadata@ == Seq::<u8>::empty()
                },
                Err(e) => {
                    &&& message.data@.len() < 28
                    &&& e == VerificationError::InvalidMessage
                },
            },
    {
        if message.data.len() < 28 {
            return Err(VerificationError::InvalidMessage);
        }
        proof {
            lemma_pow256_values();
        }
        let hi_wide = read_be(&message.data, 0, 4);
        let hi = hi_wide as u32;
        let lo = read_be(&message.data, 4, 16);
        let nonce_wide = read_be(&message.data, 20, 8);
        let nonce = nonce_wide as u64;
        let mut payload: Vec<u8> = Vec::new();
        let mut i: usize = 28;
        while i < message.data.len()
            invariant
                28 <= i <= message.data@.len(),
                payload@ == message.data@.subrange(28, i as int),
            decreases message.data@.len() - i,
        {
            payload.push(message.data[i]);
            i = i + 1;
            proof {
                assert(payload@ =~= message.data@.subrange(28, i as int));
            }
        }
        proof {
            assert(payload@ =~= message.data@.subrange(28, message.data@.len() as int));
        }
        Ok(Envelope { source: Address { hi, lo }, nonce, payload, metadata: Vec::new() })
    }
}

} // verus!
