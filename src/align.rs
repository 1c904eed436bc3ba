//! Rounding addresses up to power-of-two boundaries.
use vstd::prelude::*;

verus! {

/// `n` is a power of two: exactly one bit of it is set.
pub open spec fn is_pow2(n: usize) -> bool {
    n > 0 && n & ((n - 1) as usize) == 0
}

/// The smallest multiple of `align` that is at least `addr`.
pub open spec fn align_up_spec(addr: int, align: int) -> int {
    ((addr + align - 1) / align) * align
}

/// A value whose bits below the power of two `a` are all clear is a multiple of `a`.
proof fn lemma_clear_low_bits_is_multiple(x: usize, a: usize)
    requires
        is_pow2(a),
        x & ((a - 1) as usize) == 0,
    ensures
        x % a == 0,
    decreases a,
{
    if a > 1 {
        let h: usize = a / 2;
        let y: usize = x / 2;
        assert(x % 2 == 0 && y & ((h - 1) as usize) == 0 && h > 0 && h & ((h - 1) as usize) == 0
            && a == 2 * h) by (bit_vector)
            requires
                a > 1,
                a & ((a - 1) as usize) == 0,
                x & ((a - 1) as usize) == 0,
                h == a / 2,
                y == x / 2,
        ;
        lemma_clear_low_bits_is_multiple(y, h);
        let k = y as int / h as int;
        vstd::arithmetic::div_mod::lemma_fundamental_div_mod(y as int, h as int);
        assert(x as int == k * a) by (nonlinear_arith)
            requires
                y as int == h * k + (y as int) % (h as int),
                (y as int) % (h as int) == 0,
                x as int == 2 * y,
                a as int == 2 * h,
        ;
        vstd::arithmetic::div_mod::lemma_mod_multiples_basic(k, a as int);
    }
}

/// Rounding `addr` up to a power of two stays within `usize` exactly when
/// `addr + align - 1` does.
pub proof fn lemma_align_up_fits(addr: usize, align: usize)
    requires
        is_pow2(align),
    ensures
        align_up_spec(addr as int, align as int) <= usize::MAX <==> addr + align - 1 <= usize::MAX,
        addr <= align_up_spec(addr as int, align as int) < addr + align,
{
    let x = addr + align - 1;
    let q = x / align as int;
    let v = align_up_spec(addr as int, align as int);
    vstd::arithmetic::div_mod::lemma_fundamental_div_mod(x, align as int);
    assert(v == x - x % (align as int)) by (nonlinear_arith)
        requires
            v == q * align,
            x == align * q + x % (align as int),
    ;
    // the largest multiple of `align` in `usize`
    let m: usize = !((align - 1) as usize);
    let top: usize = usize::MAX as usize;
    assert(top <= !0usize) by (bit_vector);
    assert(m & ((align - 1) as usize) == 0 && m == ((!0usize) - ((align - 1) as usize)) as usize)
        by (bit_vector)
        requires
            align > 0,
            align & ((align - 1) as usize) == 0,
            m == !((align - 1) as usize),
    ;
    lemma_clear_low_bits_is_multiple(m, align);
    let j = m as int / align as int;
    vstd::arithmetic::div_mod::lemma_fundamental_div_mod(m as int, align as int);
    if v <= usize::MAX {
        assert(v <= m) by (nonlinear_arith)
            requires
                v == q * align,
                m == align * j,
                v < m + align,
                align > 0,
        ;
    }
}

/// Rounds `addr` up to the next multiple of `align` (a power of two), by adding
/// `align - 1` and clearing the low bits.
pub fn align_up(addr: usize, align: usize) -> (r: usize)
    requires
        is_pow2(align),
        addr + align - 1 <= usize::MAX,
    ensures
        r % align == 0,
        addr <= r,
        r - addr < align,
        r == align_up_spec(addr as int, align as int),
{
    let x: usize = addr + (align - 1);
    let r: usize = x & !(align - 1);
    assert(r & ((align - 1) as usize) == 0 && r <= x && x - r < align) by (bit_vector)
        requires
            align > 0,
            align & ((align - 1) as usize) == 0,
            r == x & !((align - 1) as usize),
    ;
    proof {
        lemma_clear_low_bits_is_multiple(r, align);
    }
    proof {
        let q = x as int / align as int;
        vstd::arithmetic::div_mod::lemma_fundamental_div_mod(x as int, align as int);
        vstd::arithmetic::div_mod::lemma_fundamental_div_mod(r as int, align as int);
        // r is a multiple of align within align of x, so it is x rounded down
        assert(r as int == q * align) by (nonlinear_arith)
            requires
                r as int == (r as int / align as int) * align,
                x as int == q * align + (x as int) % (align as int),
                0 <= (x as int) % (align as int) < align,
                r <= x,
                x - r < align,
                align > 0,
        ;
    }
    r
}

} // verus!
