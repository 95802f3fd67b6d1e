//! The scratch buffer payload reads are done through: a zeroed buffer of a
//! requested size, created only for a size and alignment that form a valid
//! memory layout.

use vstd::prelude::*;

verus! {

pub open spec fn is_power_of_two(a: nat) -> bool
    decreases a,
{
    if a == 1 {
        true
    } else if a >= 2 && a % 2 == 0 {
        is_power_of_two(a / 2)
    } else {
        false
    }
}

/// `Layout::from_size_align` accepts the pair: the alignment is a power of
/// two, and the size rounded up to it stays within `isize::MAX`.
pub open spec fn valid_layout(size: nat, align: nat) -> bool {
    is_power_of_two(align) && size <= isize::MAX - (align - 1)
}

fn power_of_two(a: usize) -> (r: bool)
    ensures
        r == is_power_of_two(a as nat),
{
    let mut x = a;
    while x >= 2 && x % 2 == 0
        invariant
            is_power_of_two(x as nat) == is_power_of_two(a as nat),
        decreases x,
    {
        x = x / 2;
    }
    x == 1
}

/// A zeroed byte buffer of a fixed size.
pub struct AlignedBuffer {
    buf: Vec<u8>,
}

impl AlignedBuffer {
    pub closed spec fn size(&self) -> nat {
        self.buf@.len()
    }

    pub closed spec fn contents(&self) -> Seq<u8> {
        self.buf@
    }

    /// A zeroed buffer of `size` bytes; `None` when `size` and `align` do
    /// not form a valid layout.
    pub fn new(size: usize, align: usize) -> (r: Option<Self>)
        ensures
            r is Some <==> valid_layout(size as nat, align as nat),
            r matches Some(b) ==> b.size() == size && b.contents() == Seq::new(size as nat, |i: int| 0u8),
    {
        if !power_of_two(align) {
            return None;
        }
        let limit = isize::MAX as usize;
        if align - 1 > limit || size > limit - (align - 1) {
            return None;
        }
        let buf = vec![0u8; size];
        assert(buf@ =~= Seq::new(size as nat, |i: int| 0u8));
        Some(AlignedBuffer { buf })
    }

    /// The whole buffer, writable.
    pub fn as_mut_slice(&mut self) -> (r: &mut [u8])
        ensures
            r@ == old(self).contents(),
            r@.len() == old(self).size(),
    {
        self.buf.as_mut_slice()
    }
}

} // verus!
