//! Fibonacci numbers, three ways: plain recursion, memoized recursion,
//! and iteration. All three return the mathematical Fibonacci number
//! `fib(n)` for every `n` on which the computation fits in a `u64`.

use vstd::prelude::*;

verus! {

/// The Fibonacci sequence: 0, 1, 1, 2, 3, 5, ...
pub open spec fn fib(n: nat) -> nat
    decreases n,
{
    if n == 0 {
        0
    } else if n == 1 {
        1
    } else {
        fib((n - 2) as nat) + fib((n - 1) as nat)
    }
}

/// The sequence never decreases.
pub proof fn lemma_fib_monotone(i: nat, j: nat)
    requires
        i <= j,
    ensures
        fib(i) <= fib(j),
    decreases j - i,
{
    if i < j {
        lemma_fib_monotone(i, (j - 1) as nat);
        if j >= 2 {
            assert(fib(j) == fib((j - 2) as nat) + fib((j - 1) as nat));
        }
    }
}

/// `fib(93)` is the largest Fibonacci number a `u64` can hold.
pub proof fn lemma_fib_fits_u64(n: nat)
    requires
        n <= 93,
    ensures
        fib(n) <= u64::MAX,
{
    assert(fib(0) == 0);
    assert(fib(1) == 1);
    assert(fib(2) == 1);
    assert(fib(3) == 2);
    assert(fib(4) == 3);
    assert(fib(5) == 5);
    assert(fib(6) == 8);
    assert(fib(7) == 13);
    assert(fib(8) == 21);
    assert(fib(9) == 34);
    assert(fib(10) == 55);
    assert(fib(11) == 89);
    assert(fib(12) == 144);
    assert(fib(13) == 233);
    assert(fib(14) == 377);
    assert(fib(15) == 610);
    assert(fib(16) == 987);
    assert(fib(17) == 1597);
    assert(fib(18) == 2584);
    assert(fib(19) == 4181);
    assert(fib(20) == 6765);
    assert(fib(21) == 10946);
    assert(fib(22) == 17711);
    assert(fib(23) == 28657);
    assert(fib(24) == 46368);
    assert(fib(25) == 75025);
    assert(fib(26) == 121393);
    assert(fib(27) == 196418);
    assert(fib(28) == 317811);
    assert(fib(29) == 514229);
    assert(fib(30) == 832040);
    assert(fib(31) == 1346269);
    assert(fib(32) == 2178309);
    assert(fib(33) == 3524578);
    assert(fib(34) == 5702887);
    assert(fib(35) == 9227465);
    assert(fib(36) == 14930352);
    assert(fib(37) == 24157817);
    assert(fib(38) == 39088169);
    assert(fib(39) == 63245986);
    assert(fib(40) == 102334155);
    assert(fib(41) == 165580141);
    assert(fib(42) == 267914296);
    assert(fib(43) == 433494437);
    assert(fib(44) == 701408733);
    assert(fib(45) == 1134903170);
    assert(fib(46) == 1836311903);
    assert(fib(47) == 2971215073);
    assert(fib(48) == 4807526976);
    assert(fib(49) == 7778742049);
    assert(fib(50) == 12586269025);
    assert(fib(51) == 20365011074);
    assert(fib(52) == 32951280099);
    assert(fib(53) == 53316291173);
    assert(fib(54) == 86267571272);
    assert(fib(55) == 139583862445);
    assert(fib(56) == 225851433717);
    assert(fib(57) == 365435296162);
    assert(fib(58) == 591286729879);
    assert(fib(59) == 956722026041);
    assert(fib(60) == 1548008755920);
    assert(fib(61) == 2504730781961);
    assert(fib(62) == 4052739537881);
    assert(fib(63) == 6557470319842);
    assert(fib(64) == 10610209857723);
    assert(fib(65) == 17167680177565);
    assert(fib(66) == 27777890035288);
    assert(fib(67) == 44945570212853);
    assert(fib(68) == 72723460248141);
    assert(fib(69) == 117669030460994);
    assert(fib(70) == 190392490709135);
    assert(fib(71) == 308061521170129);
    assert(fib(72) == 498454011879264);
    assert(fib(73) == 806515533049393);
    assert(fib(74) == 1304969544928657);
    assert(fib(75) == 2111485077978050);
    assert(fib(76) == 3416454622906707);
    assert(fib(77) == 5527939700884757);
    assert(fib(78) == 8944394323791464);
    assert(fib(79) == 14472334024676221);
    assert(fib(80) == 23416728348467685);
    assert(fib(81) == 37889062373143906);
    assert(fib(82) == 61305790721611591);
    assert(fib(83) == 99194853094755497);
    assert(fib(84) == 160500643816367088);
    assert(fib(85) == 259695496911122585);
    assert(fib(86) == 420196140727489673);
    assert(fib(87) == 679891637638612258);
    assert(fib(88) == 1100087778366101931);
    assert(fib(89) == 1779979416004714189);
    assert(fib(90) == 2880067194370816120);
    assert(fib(91) == 4660046610375530309);
    assert(fib(92) == 7540113804746346429);
    assert(fib(93) == 12200160415121876738);
    lemma_fib_monotone(n, 93);
}

/// Plain recursion. `fib(93)` is the last value a `u64` holds.
pub fn fib_recursive(n: u64) -> (r: u64)
    requires
        n <= 93,
    ensures
        r == fib(n as nat),
    decreases n,
{
    if n <= 1 {
        return n;
    }
    let a = fib_recursive(n - 1);
    let b = fib_recursive(n - 2);
    proof {
        lemma_fib_fits_u64(n as nat);
    }
    a + b
}

/// Recursive worker for [`fib_memoization`]. A cache slot holds either 0
/// (not yet computed) or the Fibonacci number of its index; 0 doubles as
/// the value of `fib(0)`, which is never looked up since `n <= 1` returns
/// directly.
fn fib_memo_rec(n: u64, cache: &mut Vec<u64>) -> (r: u64)
    requires
        n <= 93,
        n < old(cache)@.len(),
        forall|k: int|
            0 <= k < old(cache)@.len() ==> old(cache)@[k] == 0 || old(cache)@[k] == fib(k as nat),
    ensures
        r == fib(n as nat),
        final(cache)@.len() == old(cache)@.len(),
        forall|k: int|
            0 <= k < final(cache)@.len() ==> final(cache)@[k] == 0 || final(cache)@[k] == fib(
                k as nat,
            ),
    decreases n,
{
    if n <= 1 {
        return n;
    }
    if cache[n as usize] == 0 {
        let a = fib_memo_rec(n - 1, cache);
        let b = fib_memo_rec(n - 2, cache);
        proof {
            lemma_fib_fits_u64(n as nat);
        }
        let result = a + b;
        cache[n as usize] = result;
        proof {
            lemma_fib_monotone(1, n as nat);
        }
    }
    cache[n as usize]
}

/// Memoized recursion over a cache indexed by `n`.
pub fn fib_memoization(n: u64) -> (r: u64)
    requires
        n <= 93,
    ensures
        r == fib(n as nat),
{
    let mut cache: Vec<u64> = Vec::new();
    let mut i: u64 = 0;
    while i < n + 1
        invariant
            n <= 93,
            i <= n + 1,
            cache@.len() == i,
            forall|k: int| 0 <= k < cache@.len() ==> cache@[k] == 0,
        decreases n + 1 - i,
    {
        cache.push(0);
        i = i + 1;
    }
    fib_memo_rec(n, &mut cache)
}

/// Iteration. The loop also carries `fib(n + 1)`, so it stops one
/// value earlier than the recursive forms: at `n == 93` the carried
/// successor `fib(94)` would overflow even though `fib(93)` fits.
pub fn fib_iterative(n: u64) -> (r: u64)
    requires
        n <= 92,
    ensures
        r == fib(n as nat),
{
    let mut current: u64 = 0;
    let mut next: u64 = 1;
    let mut i: u64 = 0;
    while i < n
        invariant
            i <= n <= 92,
            current == fib(i as nat),
            next == fib((i + 1) as nat),
        decreases n - i,
    {
        proof {
            lemma_fib_fits_u64((i + 2) as nat);
        }
        let prev = current;
        current = next;
        next = prev + next;
        i = i + 1;
    }
    current
}

} // verus!
