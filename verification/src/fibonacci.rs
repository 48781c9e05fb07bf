//! Fibonacci numbers, computed iteratively and by tail recursion.

use vstd::prelude::*;

verus! {

/// The Fibonacci numbers: 0, 1, 1, 2, 3, 5, ...
pub open spec fn fib(n: nat) -> nat
    decreases n,
{
    if n == 0 {
        0
    } else if n == 1 {
        1
    } else {
        fib((n - 2) as nat) + fib((n - 1) as nat)
    }
}


/// The sequence that starts with `a`, `b` and continues by the Fibonacci
/// rule, indexed so that `fib_from(1, a, b) == b`.
pub open spec fn fib_from(n: nat, a: int, b: int) -> int
    decreases n,
{
    if n <= 1 {
        b
    } else {
        fib_from((n - 1) as nat, b, a + b)
    }
}

/// Fibonacci numbers never decrease.
pub proof fn lemma_fib_monotonic(i: nat, j: nat)
    requires
        i <= j,
    ensures
        fib(i) <= fib(j),
    decreases j - i,
{
    if i < j {
        lemma_fib_monotonic(i, (j - 1) as nat);
        if j >= 2 {
            assert(fib(j) == fib((j - 2) as nat) + fib((j - 1) as nat));
        }
    }
}

/// The sequence started from `a`, `b` is `a * fib(n - 1) + b * fib(n)`.
pub proof fn lemma_fib_from_closed_form(n: nat, a: int, b: int)
    requires
        n >= 1,
    ensures
        fib_from(n, a, b) == a * fib((n - 1) as nat) + b * fib(n),
    decreases n,
{
    if n >= 2 {
        lemma_fib_from_closed_form((n - 1) as nat, b, a + b);
        let f1 = fib((n - 2) as nat) as int;
        let f2 = fib((n - 1) as nat) as int;
        assert(fib(n) == f1 + f2);
        assert(fib_from(n, a, b) == fib_from((n - 1) as nat, b, a + b));
        assert(b * f1 + (a + b) * f2 == a * f2 + b * (f1 + f2)) by (nonlinear_arith);
    } else {
        assert(fib(0) == 0);
        assert(fib(1) == 1);
        assert(a * 0 + b * 1 == b) by (nonlinear_arith);
    }
}

/// Iterative Fibonacci: `fibonacci_sequence(n)` is the `n`-th Fibonacci
/// number for `n >= 1` (and 1 for `n == 0`, where the loop does not run).
pub fn fibonacci_sequence(num_iter: u16) -> (r: u16)
    requires
        fib(num_iter as nat) <= u16::MAX,
    ensures
        num_iter >= 1 ==> r == fib(num_iter as nat),
        num_iter == 0 ==> r == 1,
{
    let mut after: u16 = 0;
    let mut next: u16 = 1;
    let mut i: u16 = 1;
    while i < num_iter
        invariant
            1 <= i,
            i <= num_iter || i == 1,
            after == fib((i - 1) as nat),
            next == fib(i as nat),
            fib(num_iter as nat) <= u16::MAX,
        decreases num_iter - i,
    {
        proof {
            lemma_fib_monotonic((i + 1) as nat, num_iter as nat);
            assert(fib((i + 1) as nat) == fib((i - 1) as nat) + fib(i as nat));
        }
        let buff_next: u16 = after + next;
        after = next;
        next = buff_next;
        i = i + 1;
    }
    next
}

/// Tail-recursive Fibonacci: after `num_iter - 1` steps of
/// `(start, next) -> (next, start + next)` it returns `next`.
pub fn fibonacci_sequence_recursive(num_iter: u32, start: u32, next: u32) -> (r: u32)
    requires
        num_iter >= 1,
        fib_from(num_iter as nat, start as int, next as int) <= u32::MAX,
    ensures
        r == fib_from(num_iter as nat, start as int, next as int),
        r == start * fib((num_iter - 1) as nat) + next * fib(num_iter as nat),
    decreases num_iter,
{
    proof {
        lemma_fib_from_closed_form(num_iter as nat, start as int, next as int);
    }
    if num_iter == 1 {
        return next;
    }
    proof {
        lemma_fib_from_ge_second((num_iter - 1) as nat, next as int, (start + next) as int);
    }
    fibonacci_sequence_recursive(num_iter - 1, next, start + next)
}

/// With non-negative seeds the sequence never drops below its second seed.
pub proof fn lemma_fib_from_ge_second(n: nat, a: int, b: int)
    requires
        n >= 1,
        a >= 0,
        b >= 0,
    ensures
        fib_from(n, a, b) >= b,
    decreases n,
{
    if n >= 2 {
        lemma_fib_from_ge_second((n - 1) as nat, b, a + b);
    }
}

/// Both routines compute the same Fibonacci number: the tail-recursive one
/// seeded with 0 and 1 agrees with the iterative one and with `fib`.
pub proof fn lemma_fibonacci_routines_agree(n: nat)
    requires
        n >= 1,
    ensures
        fib_from(n, 0, 1) == fib(n),
{
    lemma_fib_from_closed_form(n, 0, 1);
}

} // verus!
