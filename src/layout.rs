//! Sizes, alignments and the padding arithmetic of the arena.
use vstd::arithmetic::div_mod::{lemma_fundamental_div_mod, lemma_mod_multiples_basic};
use vstd::prelude::*;

verus! {

/// Largest size in bytes that an element or the arena may have.
pub const MAX_BYTES: usize = usize::MAX / 2;

/// `n` is a power of two (1, 2, 4, ...).
pub open spec fn is_pow2(n: int) -> bool
    decreases n,
{
    if n <= 0 {
        false
    } else if n == 1 {
        true
    } else {
        n % 2 == 0 && is_pow2(n / 2)
    }
}

/// The least multiple of `m` that is at least `n`; `n` itself when `m` is zero.
pub open spec fn round_up_spec(n: int, m: int) -> int {
    if m == 0 {
        n
    } else if n % m == 0 {
        n
    } else {
        n + m - n % m
    }
}

/// Rounding up lands on a multiple of `m`, at or past `n`, less than `m` bytes later.
pub proof fn lemma_round_up(n: int, m: int)
    requires
        n >= 0,
        m > 0,
    ensures
        round_up_spec(n, m) % m == 0,
        n <= round_up_spec(n, m) < n + m,
        n % m == 0 ==> round_up_spec(n, m) == n,
{
    lemma_fundamental_div_mod(n, m);
    let q = n / m;
    if n % m != 0 {
        assert(round_up_spec(n, m) == (q + 1) * m) by (nonlinear_arith)
            requires
                n == m * q + n % m,
                round_up_spec(n, m) == n + m - n % m,
        ;
        lemma_mod_multiples_basic(q + 1, m);
    }
}

/// A power of two divides every power of two that is at least as large.
pub proof fn lemma_pow2_divides(a: int, b: int)
    requires
        is_pow2(a),
        is_pow2(b),
        a <= b,
    ensures
        b % a == 0,
    decreases a,
{
    if a == 1 {
    } else {
        let a2 = a / 2;
        let b2 = b / 2;
        lemma_pow2_divides(a2, b2);
        lemma_fundamental_div_mod(b2, a2);
        let k = b2 / a2;
        assert(b == k * a) by (nonlinear_arith)
            requires
                b2 == a2 * k + b2 % a2,
                b2 % a2 == 0,
                b == 2 * b2,
                a == 2 * a2,
        ;
        lemma_mod_multiples_basic(k, a);
    }
}

/// Returns the least multiple of `m` that is at least `n` (`n` when `m` is zero).
pub fn round_up(n: usize, m: usize) -> (r: usize)
    requires
        round_up_spec(n as int, m as int) <= usize::MAX,
    ensures
        r == round_up_spec(n as int, m as int),
{
    if m == 0 {
        n
    } else {
        let rem = n % m;
        if rem == 0 {
            n
        } else {
            n + (m - rem)
        }
    }
}

/// Tells whether `n` is a power of two.
pub fn is_power_of_two(n: usize) -> (r: bool)
    ensures
        r == is_pow2(n as int),
{
    if n == 0 {
        return false;
    }
    let mut k: usize = n;
    while k > 1 && k % 2 == 0
        invariant
            k >= 1,
            is_pow2(n as int) == is_pow2(k as int),
        decreases k,
    {
        k = k / 2;
    }
    k == 1
}

/// The size and alignment of a stored element, as std's `Layout` has them:
/// the alignment is a power of two, and neither it nor the size rounded up to
/// it exceeds `MAX_BYTES`.
#[derive(Clone, Copy, Debug)]
pub struct ElemLayout {
    size: usize,
    align: usize,
}

impl ElemLayout {
    #[verifier::type_invariant]
    spec fn valid(self) -> bool {
        &&& is_pow2(self.align as int)
        &&& self.align <= MAX_BYTES
        &&& round_up_spec(self.size as int, self.align as int) <= MAX_BYTES
    }

    /// The size in bytes.
    pub closed spec fn size_spec(self) -> nat {
        self.size as nat
    }

    /// The required alignment in bytes.
    pub closed spec fn align_spec(self) -> nat {
        self.align as nat
    }

    /// Makes a layout; `None` unless `align` is a power of two and neither it
    /// nor `size` rounded up to it exceeds `MAX_BYTES`.
    pub fn from_size_align(size: usize, align: usize) -> (r: Option<ElemLayout>)
        ensures
            r.is_some() <==> (is_pow2(align as int) && align <= MAX_BYTES && round_up_spec(
                size as int,
                align as int,
            ) <= MAX_BYTES),
            r matches Some(l) ==> l.size_spec() == size && l.align_spec() == align,
    {
        if !is_power_of_two(align) {
            return None;
        }
        if size > MAX_BYTES || align > MAX_BYTES {
            return None;
        }
        proof {
            lemma_round_up(size as int, align as int);
        }
        if round_up(size, align) > MAX_BYTES {
            return None;
        }
        Some(ElemLayout { size, align })
    }

    /// The size in bytes; the layout's rules hold of it.
    pub fn size(&self) -> (r: usize)
        ensures
            r == self.size_spec(),
            r <= MAX_BYTES,
            round_up_spec(r as int, self.align_spec() as int) <= MAX_BYTES,
            is_pow2(self.align_spec() as int),
    {
        proof {
            use_type_invariant(self);
            lemma_round_up(self.size as int, self.align as int);
        }
        self.size
    }

    /// The required alignment in bytes, a power of two.
    pub fn align(&self) -> (r: usize)
        ensures
            r == self.align_spec(),
            1 <= r <= MAX_BYTES,
            is_pow2(r as int),
    {
        proof {
            use_type_invariant(self);
        }
        self.align
    }
}

} // verus!
