use vstd::prelude::*;
use vstd::arithmetic::div_mod::lemma_div_denominator;

verus! {

/// 256 to the `k`-th power: the weight of byte `k` in a little-endian
/// encoding.
pub open spec fn pow256(k: nat) -> nat
    decreases k,
{
    if k == 0 {
        1
    } else {
        256 * pow256((k - 1) as nat)
    }
}

/// Every byte weight is positive.
pub proof fn lemma_pow256_pos(k: nat)
    ensures
        pow256(k) > 0,
    decreases k,
{
    if k > 0 {
        lemma_pow256_pos((k - 1) as nat);
    }
}

/// The `n`-byte little-endian encoding of `x`; bytes beyond `x`'s
/// magnitude are zero.
pub open spec fn le_bytes(x: nat, n: nat) -> Seq<u8> {
    Seq::new(n, |k: int| ((x / pow256(k as nat)) % 256) as u8)
}

/// Appends the `n`-byte little-endian encoding of `x` to `out`.
#[verifier::loop_isolation(false)]
pub fn push_le_bytes(out: &mut Vec<u8>, x: usize, n: usize)
    ensures
        final(out)@ == old(out)@ + le_bytes(x as nat, n as nat),
{
    let mut v: usize = x;
    let mut i: usize = 0;
    proof {
        assert(pow256(0) == 1);
        assert(x as nat / pow256(0) == x as nat);
    }
    while i < n
        invariant
            i <= n,
            out@.len() == old(out)@.len() + i,
            forall|j: int| 0 <= j < old(out)@.len() ==> out@[j] == old(out)@[j],
            forall|k: int|
                0 <= k < i ==> out@[old(out)@.len() + k] == ((x as nat / #[trigger] pow256(
                    k as nat,
                )) % 256) as u8,
            v == x as nat / pow256(i as nat),
        decreases n - i,
    {
        proof {
            lemma_pow256_pos(i as nat);
        }
        out.push((v % 256) as u8);
        proof {
            lemma_div_denominator(x as int, pow256(i as nat) as int, 256);
            assert(pow256((i + 1) as nat) == 256 * pow256(i as nat));
        }
        v = v / 256;
        i += 1;
    }
    proof {
        assert(out@ =~= old(out)@ + le_bytes(x as nat, n as nat));
    }
}

} // verus!
