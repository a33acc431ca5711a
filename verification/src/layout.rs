use vstd::prelude::*;

verus! {

/// `a` is a power of two, as a bit pattern: exactly one bit is set.
pub open spec fn is_power_of_two(a: usize) -> bool {
    a != 0 && a & ((a - 1) as usize) == 0
}

/// `x` rounded up to the next multiple of `a`.
pub open spec fn round_up(x: int, a: int) -> int {
    ((x + a - 1) / a) * a
}

/// Clearing the bits below a power of two rounds down to a multiple of it.
pub proof fn lemma_mask_rounds_down(y: usize, a: usize)
    requires
        is_power_of_two(a),
    ensures
        y & !((a - 1) as usize) == (y / a) * a,
    decreases a,
{
    if a == 1 {
        assert(y & !((1 - 1) as usize) == y) by (bit_vector);
    } else {
        let h: usize = a >> 1;
        let z: usize = y >> 1;
        assert(h != 0 && h & ((h - 1) as usize) == 0 && a == 2 * h) by (bit_vector)
            requires
                a != 0usize,
                a & ((a - 1) as usize) == 0usize,
                a != 1usize,
                h == a >> 1,
        ;
        assert(z == y / 2) by (bit_vector)
            requires
                z == y >> 1,
        ;
        lemma_mask_rounds_down(z, h);
        assert(y & !((a - 1) as usize) == 2 * (z & !((h - 1) as usize))) by (bit_vector)
            requires
                a != 0usize,
                a & ((a - 1) as usize) == 0usize,
                a != 1usize,
                h == a >> 1,
                z == y >> 1,
        ;
        vstd::arithmetic::div_mod::lemma_div_denominator(y as int, 2, h as int);
        assert((y / a) * a == 2 * ((z / h) * h)) by (nonlinear_arith)
            requires
                a == 2 * h,
                y / a == (y / 2) / h,
                z == y / 2,
        ;
    }
}

/// Rounds `offset` up to a multiple of `align`, which must be a power of two.
pub fn align_up(offset: usize, align: usize) -> (r: usize)
    requires
        is_power_of_two(align),
        offset + align - 1 <= usize::MAX,
    ensures
        r == round_up(offset as int, align as int),
{
    let y = offset + (align - 1);
    proof {
        lemma_mask_rounds_down(y, align);
    }
    y & !(align - 1)
}

/// A power of two that fits in a `usize` is at most `isize::MAX + 1`.
pub proof fn lemma_power_of_two_bounded(a: usize)
    requires
        is_power_of_two(a),
    ensures
        a <= isize::MAX + 1,
{
    let b: u64 = a as u64;
    assert(b != 0 && b & ((b - 1) as u64) == 0) by (bit_vector)
        requires
            a != 0usize,
            a & ((a - 1) as usize) == 0usize,
            b == a as u64,
    ;
    assert(isize::MAX as int * 2 + 1 == usize::MAX as int);
    if usize::MAX as int == 0xffff_ffff {
        assert(b <= 0xffff_ffffu64);
        assert(b <= 0x8000_0000u64) by (bit_vector)
            requires
                b != 0u64,
                b & ((b - 1) as u64) == 0u64,
                b <= 0xffff_ffffu64,
        ;
    } else {
        assert(b <= 0x8000_0000_0000_0000u64) by (bit_vector)
            requires
                b != 0u64,
                b & ((b - 1) as u64) == 0u64,
        ;
    }
}

/// `isize::MAX + 1` is a multiple of every power of two that fits in a `usize`.
pub proof fn lemma_power_of_two_divides_limit(a: usize)
    requires
        is_power_of_two(a),
    ensures
        (isize::MAX + 1) % (a as int) == 0,
{
    lemma_power_of_two_bounded(a);
    assert(isize::MAX as int * 2 + 1 == usize::MAX as int);
    let y: usize = (isize::MAX + 1) as usize;
    let b: u64 = a as u64;
    let c: u64 = y as u64;
    assert(b != 0 && b & ((b - 1) as u64) == 0) by (bit_vector)
        requires
            a != 0usize,
            a & ((a - 1) as usize) == 0usize,
            b == a as u64,
    ;
    if usize::MAX as int == 0xffff_ffff {
        assert(c == 0x8000_0000u64);
        assert(c & ((b - 1) as u64) == 0) by (bit_vector)
            requires
                b != 0u64,
                b & ((b - 1) as u64) == 0u64,
                b <= 0x8000_0000u64,
                c == 0x8000_0000u64,
        ;
    } else {
        assert(c == 0x8000_0000_0000_0000u64);
        assert(c & ((b - 1) as u64) == 0) by (bit_vector)
            requires
                b != 0u64,
                b & ((b - 1) as u64) == 0u64,
                c == 0x8000_0000_0000_0000u64,
        ;
    }
    assert(y & !((a - 1) as usize) == y) by (bit_vector)
        requires
            a != 0usize,
            b == a as u64,
            c == y as u64,
            c & ((b - 1) as u64) == 0u64,
    ;
    lemma_mask_rounds_down(y, a);
    vstd::arithmetic::div_mod::lemma_fundamental_div_mod(y as int, a as int);
    let yi = y as int;
    let ai = a as int;
    assert(yi % ai == 0) by (nonlinear_arith)
        requires
            yi == (yi / ai) * ai,
            yi == ai * (yi / ai) + yi % ai,
            0 <= yi % ai < ai,
    ;
}

/// Basic facts about rounding up to a multiple.
pub proof fn lemma_round_up(x: int, a: int)
    requires
        x >= 0,
        a > 0,
    ensures
        x <= round_up(x, a) < x + a,
        round_up(x, a) % a == 0,
        x % a == 0 ==> round_up(x, a) == x,
        x > 0 ==> round_up(x, a) >= a,
{
    let y = x + a - 1;
    let q = y / a;
    let r = y % a;
    vstd::arithmetic::div_mod::lemma_fundamental_div_mod(y, a);
    assert(0 <= r < a);
    assert(round_up(x, a) == q * a);
    assert(q * a == y - r) by (nonlinear_arith)
        requires
            y == a * q + r,
    ;
    vstd::arithmetic::div_mod::lemma_mod_multiples_basic(q, a);
    if x % a == 0 {
        vstd::arithmetic::div_mod::lemma_fundamental_div_mod(x, a);
        assert(r == a - 1) by {
            vstd::arithmetic::div_mod::lemma_mod_multiples_vanish(x / a, a - 1, a);
            vstd::arithmetic::div_mod::lemma_small_mod((a - 1) as nat, a as nat);
            assert(a * (x / a) == x);
        }
    }
    if x > 0 {
        assert(q >= 1) by (nonlinear_arith)
            requires
                q * a == y - r,
                y >= a,
                r < a,
                a > 0,
        ;
        assert(q * a >= a) by (nonlinear_arith)
            requires
                q >= 1,
                a > 0,
        ;
    }
}

/// What `Layout::from_size_align` accepts: a power-of-two alignment, and a size that,
/// rounded up to that alignment, still fits in an `isize`.
pub open spec fn valid_layout(size: int, align: usize) -> bool {
    is_power_of_two(align) && size <= isize::MAX - (align - 1)
}

/// The layout rule stated as in the documentation of `Layout`: rounding up keeps the size
/// within `isize::MAX`.
pub proof fn lemma_valid_layout_rounds(size: int, align: usize)
    requires
        is_power_of_two(align),
        size >= 0,
    ensures
        valid_layout(size, align) <==> round_up(size, align as int) <= isize::MAX,
{
    lemma_power_of_two_divides_limit(align);
    lemma_round_up(size, align as int);
    let a = align as int;
    let m = isize::MAX + 1;
    let k = m / a;
    vstd::arithmetic::div_mod::lemma_fundamental_div_mod(m, a);
    assert(m == k * a) by (nonlinear_arith)
        requires
            m == a * k + m % a,
            m % a == 0,
    ;
    let r = round_up(size, a);
    let q = r / a;
    vstd::arithmetic::div_mod::lemma_fundamental_div_mod(r, a);
    assert(r == q * a) by (nonlinear_arith)
        requires
            r == a * q + r % a,
            r % a == 0,
    ;
    if size <= isize::MAX - (a - 1) {
        // r < size + a <= m, and both r and m are multiples of a, so r <= m - a.
        assert(q < k) by (nonlinear_arith)
            requires
                r == q * a,
                m == k * a,
                r < m,
                a > 0,
        ;
        assert(q * a <= k * a - a) by (nonlinear_arith)
            requires
                q <= k - 1,
                a > 0,
        ;
    }
    if r <= isize::MAX {
        assert(q < k) by (nonlinear_arith)
            requires
                r == q * a,
                m == k * a,
                r < m,
                a > 0,
        ;
        assert(q * a <= k * a - a) by (nonlinear_arith)
            requires
                q <= k - 1,
                a > 0,
        ;
    }
}

/// The size and alignment of a block of memory, as `std::alloc::Layout` describes one.
#[derive(Clone, Copy, Debug)]
pub struct FieldLayout {
    size: usize,
    align: usize,
}

/// The layout that a constructor or `extend` was asked for is not a valid layout.
#[derive(Clone, Copy, Debug, PartialEq, Eq, Structural)]
pub struct LayoutError;

pub open spec fn max_usize(a: usize, b: usize) -> usize {
    if a >= b {
        a
    } else {
        b
    }
}

impl FieldLayout {
    pub closed spec fn size_spec(self) -> usize {
        self.size
    }

    pub closed spec fn align_spec(self) -> usize {
        self.align
    }

    pub open spec fn wf(self) -> bool {
        valid_layout(self.size_spec() as int, self.align_spec())
    }

    /// The size of the block in bytes.
    pub fn size(&self) -> (r: usize)
        ensures
            r == self.size_spec(),
    {
        self.size
    }

    /// The alignment of the block in bytes.
    pub fn align(&self) -> (r: usize)
        ensures
            r == self.align_spec(),
    {
        self.align
    }

    /// Builds a layout, refusing it exactly when `valid_layout` does not hold.
    pub fn from_size_align(size: usize, align: usize) -> (r: Result<FieldLayout, LayoutError>)
        ensures
            r is Ok <==> valid_layout(size as int, align),
            r matches Ok(l) ==> l.size_spec() == size && l.align_spec() == align && l.wf(),
    {
        if align == 0 || align & (align - 1) != 0 {
            return Err(LayoutError);
        }
        proof {
            lemma_power_of_two_bounded(align);
        }
        if size > isize::MAX as usize - (align - 1) {
            return Err(LayoutError);
        }
        Ok(FieldLayout { size, align })
    }

    /// Builds a layout from a size and alignment that are already known to be valid.
    pub fn from_valid(size: usize, align: usize) -> (r: FieldLayout)
        requires
            valid_layout(size as int, align),
        ensures
            r.size_spec() == size,
            r.align_spec() == align,
            r.wf(),
    {
        FieldLayout { size, align }
    }

    /// Appends `next` after `self`, padding so that `next` starts at a multiple of its
    /// alignment. Returns the combined layout and the offset at which `next` starts.
    pub fn extend(&self, next: FieldLayout) -> (r: Result<(FieldLayout, usize), LayoutError>)
        requires
            self.wf(),
            next.wf(),
        ensures
            r is Ok <==> valid_layout(
                round_up(self.size_spec() as int, next.align_spec() as int) + next.size_spec(),
                max_usize(self.align_spec(), next.align_spec()),
            ),
            r matches Ok((l, offset)) ==> {
                &&& offset == round_up(self.size_spec() as int, next.align_spec() as int)
                &&& l.size_spec() == offset + next.size_spec()
                &&& l.align_spec() == max_usize(self.align_spec(), next.align_spec())
                &&& l.wf()
            },
    {
        let new_align = if self.align >= next.align {
            self.align
        } else {
            next.align
        };
        proof {
            lemma_power_of_two_bounded(next.align);
            assert(isize::MAX as int * 2 + 1 == usize::MAX as int);
        }
        let offset = align_up(self.size, next.align);
        if offset > usize::MAX - next.size {
            proof {
                lemma_power_of_two_bounded(new_align);
            }
            return Err(LayoutError);
        }
        let new_size = offset + next.size;
        match FieldLayout::from_size_align(new_size, new_align) {
            Ok(l) => Ok((l, offset)),
            Err(e) => Err(e),
        }
    }

    /// Rounds the size up to a multiple of the alignment.
    pub fn pad_to_align(&self) -> (r: FieldLayout)
        requires
            self.wf(),
        ensures
            r.size_spec() == round_up(self.size_spec() as int, self.align_spec() as int),
            r.align_spec() == self.align_spec(),
            r.size_spec() % r.align_spec() == 0,
            r.wf(),
    {
        proof {
            lemma_power_of_two_bounded(self.align);
            assert(isize::MAX as int * 2 + 1 == usize::MAX as int);
            lemma_valid_layout_rounds(self.size as int, self.align);
            lemma_round_up(self.size as int, self.align as int);
            let r = round_up(self.size as int, self.align as int);
            lemma_round_up(r, self.align as int);
            lemma_valid_layout_rounds(r, self.align);
        }
        let new_size = align_up(self.size, self.align);
        FieldLayout { size: new_size, align: self.align }
    }
}

}
