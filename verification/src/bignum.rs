//! Natural numbers of any size, as little-endian limbs of 32 bits.

use vstd::arithmetic::div_mod::*;
use vstd::arithmetic::mul::*;
use vstd::arithmetic::power2::*;
use vstd::prelude::*;

verus! {

/// The number that the limbs stand for.
pub open spec fn big(v: Seq<u32>) -> nat
    decreases v.len(),
{
    if v.len() == 0 {
        0
    } else {
        v[0] as nat + 0x1_0000_0000 * big(v.drop_first())
    }
}

/// The weight of the limb `n`.
pub open spec fn weight(n: nat) -> nat
    decreases n,
{
    if n == 0 {
        1
    } else {
        0x1_0000_0000 * weight((n - 1) as nat)
    }
}

/// The limb `i`, zero past the end.
pub open spec fn limb(v: Seq<u32>, i: int) -> nat {
    if 0 <= i < v.len() {
        v[i] as nat
    } else {
        0
    }
}

/// The number that the lowest `n` limbs stand for.
pub open spec fn low(v: Seq<u32>, n: nat) -> nat
    decreases n,
{
    if n == 0 {
        0
    } else {
        low(v, (n - 1) as nat) + limb(v, n - 1) * weight((n - 1) as nat)
    }
}

proof fn weight_pos(n: nat)
    ensures
        weight(n) > 0,
    decreases n,
{
    if n > 0 {
        weight_pos((n - 1) as nat);
    }
}

proof fn low_shift(v: Seq<u32>, n: nat)
    requires
        v.len() > 0,
    ensures
        low(v, n + 1) == v[0] as nat + 0x1_0000_0000 * low(v.drop_first(), n),
    decreases n,
{
    let w = v.drop_first();
    if n == 0 {
        assert(low(v, 1) == low(v, 0) + limb(v, 0) * weight(0));
        assert(limb(v, 0) * 1 == v[0]);
        assert(low(w, 0) == 0);
    } else {
        let m = (n - 1) as nat;
        low_shift(v, m);
        assert(limb(w, m as int) == limb(v, n as int));
        let (l, x) = (limb(v, n as int), weight(m));
        assert(l * (0x1_0000_0000 * x) == 0x1_0000_0000 * (l * x)) by (nonlinear_arith);
        assert(low(v, n + 1) == low(v, n) + l * weight(n));
        assert(low(w, n) == low(w, m) + l * x);
    }
}

/// Limbs past the end do not count.
proof fn low_is_big(v: Seq<u32>, n: nat)
    requires
        n >= v.len(),
    ensures
        low(v, n) == big(v),
    decreases v.len(), n,
{
    if v.len() == 0 {
        if n > 0 {
            low_is_big(v, (n - 1) as nat);
            assert(limb(v, n - 1) * weight((n - 1) as nat) == 0) by (nonlinear_arith)
                requires
                    limb(v, n - 1) == 0,
            ;
        }
    } else {
        low_shift(v, (n - 1) as nat);
        low_is_big(v.drop_first(), (n - 1) as nat);
    }
}

proof fn low_bound(v: Seq<u32>, n: nat)
    ensures
        low(v, n) < weight(n),
    decreases n,
{
    if n > 0 {
        let m = (n - 1) as nat;
        low_bound(v, m);
        let (l, x) = (limb(v, m as int), weight(m));
        assert(l * x + x <= 0x1_0000_0000 * x) by (nonlinear_arith)
            requires
                l + 1 <= 0x1_0000_0000,
                x > 0,
        ;
    }
}

proof fn low_agrees(v: Seq<u32>, w: Seq<u32>, n: nat)
    requires
        forall|i: int| 0 <= i < n ==> limb(v, i) == limb(w, i),
    ensures
        low(v, n) == low(w, n),
    decreases n,
{
    if n > 0 {
        low_agrees(v, w, (n - 1) as nat);
    }
}

/// `v * k + c`, in place.
pub fn mul_add(v: &mut Vec<u32>, k: u32, c: u32)
    ensures
        big(final(v)@) == big(old(v)@) * k + c,
{
    let ghost v0 = v@;
    let n: usize = v.len();
    let mut carry: u64 = c as u64;
    assert(weight(0) == 1);
    assert(carry * 1 == carry && 0 * k == 0) by (nonlinear_arith);
    for i in 0..n
        invariant
            n == v0.len() == v@.len(),
            forall|j: int| i <= j < n ==> v@[j] == v0[j],
            low(v@, i as nat) + carry * weight(i as nat) == low(v0, i as nat) * k + c,
            carry <= 0xffff_ffff,
    {
        let ghost v1 = v@;
        let x: u32 = v[i];
        assert(x * k <= 0xffff_ffff * 0xffff_ffff) by (nonlinear_arith)
            requires
                0 <= x <= 0xffff_ffff,
                0 <= k <= 0xffff_ffff,
        ;
        let t: u64 = x as u64 * k as u64 + carry;
        let d: u32 = (t % 0x1_0000_0000) as u32;
        v[i] = d;
        proof {
            low_agrees(v@, v1, i as nat);
            let w = weight(i as nat);
            let q = t / 0x1_0000_0000;
            assert(d * w + q * (0x1_0000_0000 * w) == t * w) by (nonlinear_arith)
                requires
                    t == q * 0x1_0000_0000 + d,
            ;
            assert((x * k + carry) * w == (x * w) * k + carry * w) by (nonlinear_arith);
            assert((low(v0, i as nat) + x * w) * k == low(v0, i as nat) * k + (x * w) * k)
                by (nonlinear_arith);
            assert(low(v@, (i + 1) as nat) == low(v@, i as nat) + d * w);
            assert(low(v0, (i + 1) as nat) == low(v0, i as nat) + x * w);
            assert(weight((i + 1) as nat) == 0x1_0000_0000 * w);
            assert(q <= 0xffff_ffff);
        }
        carry = t / 0x1_0000_0000;
    }
    let ghost v1 = v@;
    proof {
        low_is_big(v0, n as nat);
        low_is_big(v1, n as nat);
    }
    if carry > 0 {
        v.push(carry as u32);
        proof {
            low_agrees(v@, v1, n as nat);
            low_is_big(v@, (n + 1) as nat);
        }
    } else {
        assert(0 * weight(n as nat) == 0) by (nonlinear_arith);
    }
}

/// Whether `a < b`.
pub fn less(a: &Vec<u32>, b: &Vec<u32>) -> (r: bool)
    ensures
        r == (big(a@) < big(b@)),
{
    let n: usize = if a.len() > b.len() {
        a.len()
    } else {
        b.len()
    };
    proof {
        low_is_big(a@, n as nat);
        low_is_big(b@, n as nat);
    }
    let mut i: usize = n;
    while i > 0
        invariant
            i <= n,
            n >= a@.len(),
            n >= b@.len(),
            forall|j: int| i <= j < n ==> limb(a@, j) == limb(b@, j),
            low(a@, n as nat) - low(b@, n as nat) == low(a@, i as nat) - low(b@, i as nat),
            low(a@, n as nat) == big(a@),
            low(b@, n as nat) == big(b@),
        decreases i,
    {
        let x: u32 = if i - 1 < a.len() {
            a[i - 1]
        } else {
            0
        };
        let y: u32 = if i - 1 < b.len() {
            b[i - 1]
        } else {
            0
        };
        assert(x == limb(a@, i - 1) && y == limb(b@, i - 1));
        if x != y {
            proof {
                let m = (i - 1) as nat;
                low_bound(a@, m);
                low_bound(b@, m);
                let w = weight(m);
                weight_pos(m);
                if x < y {
                    assert(x * w + w <= y * w) by (nonlinear_arith)
                        requires
                            x + 1 <= y,
                            w > 0,
                    ;
                } else {
                    assert(y * w + w <= x * w) by (nonlinear_arith)
                        requires
                            y + 1 <= x,
                            w > 0,
                    ;
                }
            }
            return x < y;
        }
        i = i - 1;
    }
    false
}

/// `a - b`, in place.
pub fn subtract(a: &mut Vec<u32>, b: &Vec<u32>)
    requires
        big(old(a)@) >= big(b@),
    ensures
        big(final(a)@) == big(old(a)@) - big(b@),
{
    let ghost a0 = a@;
    let n: usize = a.len();
    let mut borrow: u64 = 0;
    for i in 0..n
        invariant
            n == a0.len() == a@.len(),
            forall|j: int| i <= j < n ==> a@[j] == a0[j],
            low(a@, i as nat) + low(b@, i as nat) == low(a0, i as nat) + borrow * weight(i as nat),
            borrow <= 1,
    {
        let ghost a1 = a@;
        let x: u64 = a[i] as u64;
        let y: u64 = if i < b.len() {
            b[i] as u64
        } else {
            0
        };
        assert(y == limb(b@, i as int));
        let t: u64 = x + 0x1_0000_0000 - y - borrow;
        let d: u32 = (t % 0x1_0000_0000) as u32;
        a[i] = d;
        let next: u64 = if t >= 0x1_0000_0000 {
            0
        } else {
            1
        };
        proof {
            low_agrees(a@, a1, i as nat);
            let w = weight(i as nat);
            assert(d + y + borrow == x + next * 0x1_0000_0000);
            assert(d * w + y * w + borrow * w == x * w + next * (0x1_0000_0000 * w))
                by (nonlinear_arith)
                requires
                    d + y + borrow == x + next * 0x1_0000_0000,
            ;
            assert(low(a@, (i + 1) as nat) == low(a@, i as nat) + d * w);
            assert(low(a0, (i + 1) as nat) == low(a0, i as nat) + x * w);
            assert(low(b@, (i + 1) as nat) == low(b@, i as nat) + y * w);
            assert(weight((i + 1) as nat) == 0x1_0000_0000 * w);
        }
        borrow = next;
    }
    proof {
        low_is_big(a0, n as nat);
        low_is_big(a@, n as nat);
        let m = if n >= b@.len() {
            n as nat
        } else {
            b@.len()
        };
        low_is_big(b@, m);
        low_monotone(b@, n as nat, m);
        low_bound(a@, n as nat);
        if borrow == 1 {
            assert(1 * weight(n as nat) == weight(n as nat));
            assert(false);
        }
        assert(0 * weight(n as nat) == 0) by (nonlinear_arith);
        // No borrow is left and the difference is not negative, so the limbs of
        // `b` past those of `a` are zero.
        assert(big(a@) + low(b@, n as nat) == big(a0));
        if low(b@, n as nat) < big(b@) {
            high_part(b@, n as nat, m);
            assert(big(b@) >= weight(n as nat));
            low_bound(a0, n as nat);
            assert(false);
        }
    }
}

proof fn low_monotone(v: Seq<u32>, n: nat, m: nat)
    requires
        n <= m,
    ensures
        low(v, n) <= low(v, m),
    decreases m - n,
{
    if n < m {
        low_monotone(v, n, (m - 1) as nat);
        weight_pos((m - 1) as nat);
        assert(limb(v, m - 1) * weight((m - 1) as nat) >= 0) by (nonlinear_arith)
            requires
                limb(v, m - 1) >= 0,
                weight((m - 1) as nat) >= 0,
        ;
    }
}

proof fn high_part(v: Seq<u32>, n: nat, m: nat)
    requires
        n <= m,
        low(v, n) < low(v, m),
    ensures
        low(v, m) >= weight(n),
    decreases m - n,
{
    let k = (m - 1) as nat;
    let l = limb(v, k as int);
    let w = weight(k);
    if low(v, n) < low(v, k) && n <= k {
        high_part(v, n, k);
        assert(l * w >= 0) by (nonlinear_arith)
            requires
                l >= 0,
                w >= 0,
        ;
    } else {
        assert(n <= k);
        low_monotone(v, n, k);
        assert(l * w > 0);
        assert(l >= 1) by (nonlinear_arith)
            requires
                l * w > 0,
                l >= 0,
        ;
        assert(l * w >= w) by (nonlinear_arith)
            requires
                l >= 1,
                w >= 0,
        ;
        weight_monotone(n, k);
    }
}

proof fn weight_monotone(n: nat, m: nat)
    requires
        n <= m,
    ensures
        weight(n) <= weight(m),
    decreases m - n,
{
    if n < m {
        weight_monotone(n, (m - 1) as nat);
    }
}

/// Whether `a` is zero.
pub fn is_zero(a: &Vec<u32>) -> (r: bool)
    ensures
        r == (big(a@) == 0),
{
    let z: Vec<u32> = Vec::new();
    !less(&z, a)
}

/// `v / 10` in place; the remainder.
pub fn div_ten(v: &mut Vec<u32>) -> (r: u32)
    ensures
        big(final(v)@) == big(old(v)@) / 10,
        r == big(old(v)@) % 10,
        final(v)@.len() == old(v)@.len(),
{
    let ghost v0 = v@;
    let n: usize = v.len();
    let mut rem: u64 = 0;
    let mut i: usize = n;
    // The limbs from `i` up have been divided.
    while i > 0
        invariant
            i <= n == v0.len() == v@.len(),
            rem < 10,
            forall|j: int| 0 <= j < i ==> v@[j] == v0[j],
            low(v0, n as nat) == 10 * (low(v@, n as nat) - low(v@, i as nat)) + low(v0, i as nat) + rem * weight(i as nat),
        decreases i,
    {
        let ghost v1 = v@;
        let k: usize = i - 1;
        let t: u64 = rem * 0x1_0000_0000 + v[k] as u64;
        let q: u32 = (t / 10) as u32;
        v[k] = q;
        proof {
            let w = weight(k as nat);
            let x = v0[k as int];
            let r2 = t % 10;
            low_agrees(v@, v1, k as nat);
            high_agrees(v@, v1, i as nat, n as nat);
            assert(low(v@, i as nat) == low(v@, k as nat) + q * w);
            assert(low(v1, i as nat) == low(v1, k as nat) + x * w);
            assert(low(v0, i as nat) == low(v0, k as nat) + x * w);
            assert(weight(i as nat) == 0x1_0000_0000 * w);
            assert(x * w + rem * (0x1_0000_0000 * w) == 10 * (q * w) + r2 * w) by (nonlinear_arith)
                requires
                    rem * 0x1_0000_0000 + x == 10 * q + r2,
            ;
            low_agrees(v1, v0, k as nat);
        }
        rem = t % 10;
        i = k;
    }
    proof {
        low_is_big(v0, n as nat);
        low_is_big(v@, n as nat);
        assert(weight(0) == 1);
        assert(rem * weight(0) == rem) by (nonlinear_arith)
            requires
                weight(0) == 1,
        ;
        lemma_fundamental_div_mod_converse(big(v0) as int, 10, big(v@) as int, rem as int);
    }
    rem as u32
}

proof fn high_agrees(v: Seq<u32>, w: Seq<u32>, n: nat, m: nat)
    requires
        n <= m,
        forall|i: int| n <= i < m ==> limb(v, i) == limb(w, i),
    ensures
        low(v, m) - low(v, n) == low(w, m) - low(w, n),
    decreases m - n,
{
    if n < m {
        high_agrees(v, w, n, (m - 1) as nat);
    }
}

} // verus!
