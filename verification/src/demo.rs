//! The work the boot demo does on the heap: the squares the kernel prints
//! once the heap is up, and the per-beat sum of the two demo threads.

use vstd::prelude::*;

verus! {

/// `0 + 1 + ... + (n - 1)`.
pub open spec fn sum_below(n: nat) -> nat
    decreases n,
{
    if n == 0 {
        0
    } else {
        sum_below((n - 1) as nat) + (n - 1) as nat
    }
}

proof fn lemma_sum_below(n: nat)
    ensures
        2 * sum_below(n) == n * (n - 1),
    decreases n,
{
    if n > 0 {
        let m = (n - 1) as nat;
        lemma_sum_below(m);
        assert(n * (n - 1) == m * (m - 1) + 2 * m) by (nonlinear_arith)
            requires
                m == n - 1,
        ;
        assert(sum_below(n) == sum_below(m) + m);
    } else {
        assert(n * (n - 1) == 0) by (nonlinear_arith)
            requires
                n == 0,
        ;
    }
}

proof fn lemma_sum_below_monotonic(i: nat, n: nat)
    requires
        i <= n,
    ensures
        sum_below(i) <= sum_below(n),
    decreases n - i,
{
    if i < n {
        lemma_sum_below_monotonic(i, (n - 1) as nat);
    }
}

/// A demo thread's beat: collect `0..n` on the heap and sum it, which is
/// `n * (n - 1) / 2` (beat 24 prints 276, beat 25 prints 300).
pub fn beat_sum(n: u64) -> (r: u64)
    requires
        n * (n - 1) / 2 <= u64::MAX,
    ensures
        r == n * (n - 1) / 2,
{
    proof {
        lemma_sum_below(n as nat);
    }
    let mut v: Vec<u64> = Vec::new();
    let mut i: u64 = 0;
    while i < n
        invariant
            i <= n,
            v@.len() == i,
            forall|j: int| 0 <= j < i ==> v@[j] == j,
        decreases n - i,
    {
        v.push(i);
        i = i + 1;
    }
    let mut sum: u64 = 0;
    let mut k: usize = 0;
    while k < v.len()
        invariant
            v@.len() == n,
            forall|j: int| 0 <= j < n ==> v@[j] == j,
            k <= n,
            sum == sum_below(k as nat),
            sum_below(n as nat) <= u64::MAX,
        decreases v@.len() - k,
    {
        proof {
            lemma_sum_below_monotonic((k + 1) as nat, n as nat);
        }
        sum = sum + v[k];
        k = k + 1;
    }
    sum
}

/// The squares `0, 1, 4, ..., (n - 1)^2` in a heap vector.
pub fn squares(n: u32) -> (r: Vec<u32>)
    requires
        (n - 1) * (n - 1) <= u32::MAX,
    ensures
        r@.len() == n,
        forall|i: int| 0 <= i < n ==> r@[i] == i * i,
{
    let mut v: Vec<u32> = Vec::new();
    let mut i: u32 = 0;
    while i < n
        invariant
            i <= n,
            (n - 1) * (n - 1) <= u32::MAX,
            v@.len() == i,
            forall|j: int| 0 <= j < i ==> v@[j] == j * j,
        decreases n - i,
    {
        assert(i * i <= (n - 1) * (n - 1)) by (nonlinear_arith)
            requires
                i < n,
        ;
        v.push(i * i);
        i = i + 1;
    }
    v
}

} // verus!
