use vstd::arithmetic::power2::{is_pow2, pow2};
use vstd::bits::low_bits_mask;
use vstd::layout::{align_of, size_of};
use vstd::prelude::*;

use crate::errors::{new_layout_err, LayoutErr};

verus! {

/// Bytes that must follow a block of `size` bytes so that the next block
/// starts at a multiple of `align`.
pub open spec fn padding_to(size: nat, align: nat) -> nat
    recommends
        align > 0,
{
    if size % align == 0 {
        0
    } else {
        (align - size % align) as nat
    }
}

/// `size` rounded up to the next multiple of `align`.
pub open spec fn round_up(size: nat, align: nat) -> nat
    recommends
        align > 0,
{
    size + padding_to(size, align)
}

/// A size and an alignment that describe a block: the alignment is a power of
/// two and the size, rounded up to it, fits in a machine word.
pub open spec fn valid_size_align(size: nat, align: nat) -> bool {
    is_pow2(align as int) && round_up(size, align) <= usize::MAX
}

/// A power of two has exactly one bit set.
proof fn lemma_pow2_single_bit(a: usize)
    requires
        is_pow2(a as int),
    ensures
        a > 0,
        a & ((a - 1) as usize) == 0,
    decreases a,
{
    reveal(is_pow2);
    if a == 1 {
        assert(1usize & 0usize == 0) by (bit_vector);
    } else {
        let b: usize = a / 2;
        lemma_pow2_single_bit(b);
        assert(a == 2 * b);
        assert(a & ((a - 1) as usize) == 0) by (bit_vector)
            requires
                b > 0,
                b & ((b - 1) as usize) == 0,
                a == 2 * b,
        ;
    }
}


/// A word with exactly one bit set is a power of two.
proof fn lemma_single_bit_pow2(a: usize)
    requires
        a > 0,
        a & ((a - 1) as usize) == 0,
    ensures
        is_pow2(a as int),
    decreases a,
{
    reveal(is_pow2);
    if a > 1 {
        let b: usize = a / 2;
        assert(a % 2 == 0 && b > 0 && b & ((b - 1) as usize) == 0) by (bit_vector)
            requires
                a > 1,
                a & ((a - 1) as usize) == 0,
                b == a / 2,
        ;
        lemma_single_bit_pow2(b);
    }
}

/// A power of two that fits in a word is `2^k` for some `k` below the word's
/// bit width.
proof fn lemma_pow2_exponent(a: usize) -> (k: nat)
    requires
        is_pow2(a as int),
    ensures
        pow2(k) == a,
        k < usize::BITS,
{
    vstd::layout::unsigned_int_max_values();
    vstd::arithmetic::power2::is_pow2_equiv(a as int);
    let k: nat = choose|i: nat| vstd::arithmetic::power::pow(2, i) == a;
    let w: nat = usize::BITS as nat;
    vstd::arithmetic::power2::lemma_pow2(k);
    if k >= w {
        if k > w {
            vstd::arithmetic::power2::lemma_pow2_strictly_increases(w, k);
        }
        assert(false);
    }
    k
}

/// A power of two that fits in a word divides the word's range.
proof fn lemma_pow2_divides_word(a: usize)
    requires
        is_pow2(a as int),
    ensures
        (usize::MAX + 1) % (a as int) == 0,
{
    vstd::layout::unsigned_int_max_values();
    let k = lemma_pow2_exponent(a);
    let w: nat = usize::BITS as nat;
    let e: nat = (w - k) as nat;
    vstd::arithmetic::power2::lemma_pow2_adds(k, e);
    assert(k + e == w);
    vstd::arithmetic::power2::lemma_pow2_pos(e);
    vstd::arithmetic::power2::lemma_pow2_pos(k);
    assert(usize::MAX + 1 == pow2(e) * a) by (nonlinear_arith)
        requires
            usize::MAX + 1 == pow2(w),
            pow2(w) == pow2(k) * pow2(e),
            pow2(k) == a,
    ;
    vstd::arithmetic::div_mod::lemma_mod_multiples_basic(pow2(e) as int, a as int);
}

/// Masking off the low bits of `len + align - 1` rounds `len` up to `align`,
/// and that sum fits in a word exactly when the rounded size does.
proof fn lemma_mask_rounds_up(len: usize, a: usize)
    requires
        is_pow2(a as int),
    ensures
        a > 0,
        len + (a - 1) <= usize::MAX <==> round_up(len as nat, a as nat) <= usize::MAX,
        len + (a - 1) <= usize::MAX ==> (((len + (a - 1)) as usize) & !((a - 1) as usize))
            == round_up(len as nat, a as nat),
{
    lemma_pow2_single_bit(a);
    lemma_round_up_aligned(len as nat, a as nat);
    let m: usize = (a - 1) as usize;
    if len + m <= usize::MAX {
        let w: usize = (len + m) as usize;
        let k = lemma_pow2_exponent(a);
        vstd::bits::lemma_usize_low_bits_mask_is_mod(len, k);
        assert(low_bits_mask(k) == m);
        let q: usize = len & m;
        assert(q == len % a);
        assert(q == 0 ==> (w & !m) == len) by (bit_vector)
            requires
                a > 0,
                a & m == 0,
                m == a - 1,
                w == len + m,
                q == len & m,
        ;
        assert(q != 0 ==> (w & !m) == len + (a - q)) by (bit_vector)
            requires
                a > 0,
                a & m == 0,
                m == a - 1,
                w == len + m,
                q == len & m,
        ;
    } else {
        let r = round_up(len as nat, a as nat);
        if r <= usize::MAX {
            lemma_pow2_divides_word(a);
            let top: int = usize::MAX + 1;
            vstd::arithmetic::div_mod::lemma_fundamental_div_mod(r as int, a as int);
            vstd::arithmetic::div_mod::lemma_fundamental_div_mod(top, a as int);
            let j = r as int / a as int;
            let i = top / a as int;
            assert(r + a <= top) by (nonlinear_arith)
                requires
                    r == a * j,
                    top == a * i,
                    r < top,
                    a > 0,
            ;
        }
    }
}

/// A value below a power of two vanishes under the mask of its high bits.
proof fn lemma_mask_small(t: usize, a: usize)
    requires
        is_pow2(a as int),
        t < a,
    ensures
        t & !((a - 1) as usize) == 0,
{
    lemma_pow2_single_bit(a);
    let m: usize = (a - 1) as usize;
    assert(t & !m == 0) by (bit_vector)
        requires
            a > 0,
            a & m == 0,
            m == a - 1,
            t < a,
    ;
}

/// The padding after a block is less than the alignment, and the padded size
/// is a multiple of the alignment, at least the size and less than a whole
/// alignment above it.
pub proof fn lemma_round_up_aligned(size: nat, align: nat)
    requires
        align > 0,
    ensures
        padding_to(size, align) < align,
        (size + padding_to(size, align)) % align == 0,
        round_up(size, align) % align == 0,
        round_up(size, align) >= size,
        round_up(size, align) < size + align,
{
    let q = size / align;
    let r = size % align;
    vstd::arithmetic::div_mod::lemma_fundamental_div_mod(size as int, align as int);
    if r == 0 {
        vstd::arithmetic::div_mod::lemma_mod_multiples_basic(q as int, align as int);
    } else {
        assert(round_up(size, align) == (q + 1) * align) by (nonlinear_arith)
            requires
                size == align * q + r,
                round_up(size, align) == size + (align - r),
        ;
        vstd::arithmetic::div_mod::lemma_mod_multiples_basic((q + 1) as int, align as int);
    }
}

/// A multiple of the alignment is its own rounded-up size.
proof fn lemma_round_up_of_multiple(k: nat, n: nat, align: nat)
    requires
        align > 0,
        k % align == 0,
    ensures
        round_up(k * n, align) == k * n,
{
    vstd::arithmetic::div_mod::lemma_fundamental_div_mod(k as int, align as int);
    let q = k / align;
    assert(k * n == (q * n) * align) by (nonlinear_arith)
        requires
            k == align * q,
    ;
    vstd::arithmetic::div_mod::lemma_mod_multiples_basic((q * n) as int, align as int);
}

/// The size and alignment of a block of memory.
#[derive(Clone, Copy, PartialEq, Eq, Debug)]
pub struct Layout {
    size: usize,
    align: usize,
}

impl Layout {
    #[verifier::type_invariant]
    spec fn well_formed(self) -> bool {
        valid_size_align(self.size as nat, self.align as nat)
    }

    /// The size in bytes, as a number.
    pub closed spec fn size_spec(self) -> nat {
        self.size as nat
    }

    /// The alignment in bytes, as a number.
    pub closed spec fn align_spec(self) -> nat {
        self.align as nat
    }

    /// The layout of `size` bytes at alignment `align`, if the pair is valid.
    pub fn from_size_align(size: usize, align: usize) -> (r: Result<Layout, LayoutErr>)
        ensures
            r is Ok <==> valid_size_align(size as nat, align as nat),
            r matches Ok(l) ==> l.size_spec() == size && l.align_spec() == align,
    {
        if align == 0 {
            proof {
                reveal(is_pow2);
            }
            return Err(new_layout_err());
        }
        if align & (align - 1) != 0 {
            proof {
                if is_pow2(align as int) {
                    lemma_pow2_single_bit(align);
                }
            }
            return Err(new_layout_err());
        }
        proof {
            lemma_single_bit_pow2(align);
            lemma_mask_rounds_up(size, align);
        }
        if size > usize::MAX - (align - 1) {
            return Err(new_layout_err());
        }
        Ok(Layout { size, align })
    }

    /// The natural layout of a value of type `T`.
    pub fn new<T>() -> (l: Layout)
        ensures
            l.size_spec() == size_of::<T>(),
            l.align_spec() == align_of::<T>(),
    {
        vstd::layout::layout_for_type_is_valid::<T>();
        let (size, align) = size_align::<T>();
        proof {
            lemma_round_up_of_multiple(size as nat, 1, align as nat);
        }
        Layout { size, align }
    }

    /// The size in bytes.
    pub fn size(&self) -> (r: usize)
        ensures
            r == self.size_spec(),
    {
        self.size
    }

    /// The alignment in bytes.
    pub fn align(&self) -> (r: usize)
        ensures
            r == self.align_spec(),
            valid_size_align(self.size_spec(), self.align_spec()),
    {
        proof {
            use_type_invariant(self);
        }
        self.align
    }
}

/// The natural size and alignment of type `T`.
fn size_align<T>() -> (r: (usize, usize))
    ensures
        r.0 == size_of::<T>(),
        r.1 == align_of::<T>(),
{
    (core::mem::size_of::<T>(), core::mem::align_of::<T>())
}

/// Layout computations on top of the basic size and alignment of a block.
pub trait UnstableLayoutMethods: Sized {
    /// The layout that this value describes.
    spec fn layout_spec(&self) -> Layout;

    /// The bytes to append after this block so that the next one is aligned to
    /// `align`. Computed with wrapping arithmetic: where the rounded size does
    /// not fit in a word, the result is the one that wraps `size + padding`
    /// to zero.
    fn padding_needed_for(&self, align: usize) -> (r: usize)
        requires
            is_pow2(align as int),
        ensures
            round_up(self.layout_spec().size_spec(), align as nat) <= usize::MAX ==> r == padding_to(
                self.layout_spec().size_spec(),
                align as nat,
            ),
            round_up(self.layout_spec().size_spec(), align as nat) > usize::MAX ==> self.layout_spec().size_spec() + r
                == usize::MAX + 1,
    ;

    /// The layout of `n` copies of this block, each aligned, with the stride
    /// between the starts of consecutive copies.
    fn repeat(&self, n: usize) -> (r: Result<(Layout, usize), LayoutErr>)
        ensures
            r is Ok <==> round_up(self.layout_spec().size_spec(), self.layout_spec().align_spec()) * n <= usize::MAX,
            r matches Ok((l, stride)) ==> {
                &&& stride == round_up(self.layout_spec().size_spec(), self.layout_spec().align_spec())
                &&& l.size_spec() == stride * n
                &&& l.align_spec() == self.layout_spec().align_spec()
            },
    ;

    /// The layout of an array of `n` values of type `T`.
    fn array<T>(n: usize) -> (r: Result<Layout, LayoutErr>)
        ensures
            r is Ok <==> size_of::<T>() * n <= usize::MAX,
            r matches Ok(l) ==> {
                &&& l.size_spec() == size_of::<T>() * n
                &&& l.align_spec() == align_of::<T>()
            },
    ;
}

impl UnstableLayoutMethods for Layout {
    open spec fn layout_spec(&self) -> Layout {
        *self
    }

    fn padding_needed_for(&self, align: usize) -> (r: usize) {
        let len = self.size;
        proof {
            lemma_mask_rounds_up(len, align);
        }
        // Rounded up with modular arithmetic: where `len + align - 1`
        // overflows, it wraps to a value below `align` and the mask clears it.
        let len_rounded_up = len.wrapping_add(align - 1) & !(align - 1);
        proof {
            if len + (align - 1) > usize::MAX {
                lemma_mask_small(len.wrapping_add((align - 1) as usize), align);
            }
        }
        len_rounded_up.wrapping_sub(len)
    }

    fn repeat(&self, n: usize) -> (r: Result<(Layout, usize), LayoutErr>) {
        proof {
            use_type_invariant(self);
        }
        let padded_size = match self.size.checked_add(self.padding_needed_for(self.align)) {
            Some(s) => s,
            None => return Err(new_layout_err()),
        };
        let alloc_size = match padded_size.checked_mul(n) {
            Some(s) => s,
            None => return Err(new_layout_err()),
        };
        proof {
            lemma_pow2_single_bit(self.align);
            lemma_round_up_aligned(self.size as nat, self.align as nat);
            lemma_round_up_of_multiple(padded_size as nat, n as nat, self.align as nat);
        }
        Ok((Layout { size: alloc_size, align: self.align }, padded_size))
    }

    fn array<T>(n: usize) -> (r: Result<Layout, LayoutErr>) {
        vstd::layout::layout_for_type_is_valid::<T>();
        let base = Layout::new::<T>();
        match base.repeat(n) {
            Ok((k, offs)) => {
                assert(offs == size_of::<T>());
                Ok(k)
            },
            Err(e) => Err(e),
        }
    }
}

} // verus!
