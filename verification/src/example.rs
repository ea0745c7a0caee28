//! A workload to track.
use vstd::prelude::*;

verus! {

/// A space, doubled 22 times.
pub fn test() -> (s: String)
    ensures
        s@ == Seq::new(4_194_304, |i: int| ' '),
{
    let mut s: String = " ".to_owned();
    proof {
        reveal_strlit(" ");
        vstd::arithmetic::power2::lemma2_to64();
    }
    let mut length: u64 = 1;
    let mut round: u64 = 0;
    while round < 22
        invariant
            round <= 22,
            length == vstd::arithmetic::power2::pow2(round as nat),
            s@ == Seq::new(length as nat, |i: int| ' '),
        decreases 22 - round,
    {
        let copy: String = s.clone();
        s.append(copy.as_str());
        proof {
            vstd::arithmetic::power2::lemma_pow2_unfold((round + 1) as nat);
            vstd::arithmetic::power2::lemma2_to64();
            vstd::arithmetic::power2::lemma_pow2_strictly_increases(round as nat, 22);
            assert(s@ =~= Seq::new((2 * length) as nat, |i: int| ' '));
        }
        length = 2 * length;
        round += 1;
    }
    proof {
        vstd::arithmetic::power2::lemma2_to64();
    }
    s
}

} // verus!
