use vstd::prelude::*;

verus! {

/// Modular increment: the successor of `i` in the ring of size `m`.
///
/// For `i` in `[0, m)` this is `(i + 1) % m`; a successor that reaches or
/// passes `m` wraps to zero.
pub fn mod_inc(i: usize, m: usize) -> (n: usize)
    requires
        i < usize::MAX,
    ensures
        n == if i + 1 >= m { 0 } else { i + 1 },
        i < m ==> n == (i + 1) % (m as int),
{
    let mut n: usize = i + 1;
    if n >= m {
        n = 0;
    }
    proof {
        if i < m {
            if i + 1 == m {
                assert((i + 1) % (m as int) == 0) by (nonlinear_arith)
                    requires
                        i + 1 == m,
                        m > 0,
                ;
            } else {
                assert((i + 1) % (m as int) == i + 1) by (nonlinear_arith)
                    requires
                        0 <= i + 1 < m,
                ;
            }
        }
    }
    n
}

/// Modular addition: `(i + j) % m`, computed by repeated subtraction.
pub fn mod_add(i: usize, j: usize, m: usize) -> (n: usize)
    requires
        m > 0,
        i + j <= usize::MAX,
    ensures
        n == (i + j) % (m as int),
{
    let mut n: usize = i + j;
    while n >= m
        invariant
            m > 0,
            n <= i + j,
            (n as int) % (m as int) == (i + j) % (m as int),
        decreases n,
    {
        proof {
            vstd::arithmetic::div_mod::lemma_mod_sub_multiples_vanish(n as int, m as int);
        }
        n -= m;
    }
    proof {
        vstd::arithmetic::div_mod::lemma_small_mod(n as nat, m as nat);
    }
    n
}

} // verus!
