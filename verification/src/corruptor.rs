//! A value held by its bytes, whose bytes can be inverted one by one when
//! corruption is switched on. Which bytes are hit is chosen by the caller
//! (the demo draws a random number per byte against a probability).

use vstd::prelude::*;

verus! {

/// `data` with every byte whose flag in `flips` is set inverted; bytes
/// without a flag stay as they are.
pub open spec fn flipped(data: Seq<u8>, flips: Seq<bool>) -> Seq<u8> {
    Seq::new(data.len(), |i: int| if i < flips.len() && flips[i] { !data[i] } else { data[i] })
}

/// A value's bytes, with a switch for corruption.
pub struct MemoryCorruptor {
    data: Vec<u8>,
    corruption_enabled: bool,
}

impl MemoryCorruptor {
    /// The bytes held now.
    pub closed spec fn bytes(&self) -> Seq<u8> {
        self.data@
    }

    /// Whether corruption is switched on.
    pub closed spec fn enabled(&self) -> bool {
        self.corruption_enabled
    }

    /// Holds `data`, with corruption off.
    pub fn new(data: Vec<u8>) -> (c: Self)
        ensures
            c.bytes() == data@,
            !c.enabled(),
    {
        MemoryCorruptor { data, corruption_enabled: false }
    }

    /// Switches corruption on or off.
    pub fn set_corruption_enabled(&mut self, on: bool)
        ensures
            final(self).bytes() == old(self).bytes(),
            final(self).enabled() == on,
    {
        self.corruption_enabled = on;
    }

    /// Whether corruption is switched on.
    pub fn corruption_enabled(&self) -> (b: bool)
        ensures
            b == self.enabled(),
    {
        self.corruption_enabled
    }

    /// The number of bytes held.
    pub fn len(&self) -> (n: usize)
        ensures
            n == self.bytes().len(),
    {
        self.data.len()
    }

    /// With corruption on, inverts every held byte whose flag is set and
    /// returns a copy of the result; with it off, changes nothing and
    /// returns `None`.
    pub fn corrupt(&mut self, flips: &Vec<bool>) -> (r: Option<Vec<u8>>)
        ensures
            final(self).enabled() == old(self).enabled(),
            old(self).enabled() ==> final(self).bytes() == flipped(old(self).bytes(), flips@),
            !old(self).enabled() ==> final(self).bytes() == old(self).bytes(),
            match r {
                Some(v) => old(self).enabled() && v@ == final(self).bytes(),
                None => !old(self).enabled(),
            },
            final(self).bytes().len() == old(self).bytes().len(),
            old(self).enabled() ==> forall|i: int|
                0 <= i < old(self).bytes().len() ==> (#[trigger] final(self).bytes()[i] == if i
                    < flips@.len() && flips@[i] {
                    !old(self).bytes()[i]
                } else {
                    old(self).bytes()[i]
                }),
    {
        proof {
            lemma_flip_bytes(self.data@, flips@);
        }
        if !self.corruption_enabled {
            return None;
        }
        let ghost original = self.data@;
        let mut i: usize = 0;
        while i < self.data.len()
            invariant
                0 <= i <= self.data@.len(),
                self.data@.len() == original.len(),
                self.corruption_enabled,
                forall|k: int|
                    0 <= k < original.len() ==> #[trigger] self.data@[k] == if k < i {
                        flipped(original, flips@)[k]
                    } else {
                        original[k]
                    },
            decreases self.data@.len() - i,
        {
            if i < flips.len() && flips[i] {
                let b = self.data[i];
                self.data.set(i, !b);
            }
            i = i + 1;
        }
        assert(self.data@ =~= flipped(original, flips@));
        Some(self.data.clone())
    }
}

/// Corruption keeps the length, and byte `i` changes exactly when flag
/// `i` is set, in which case it is inverted.
pub proof fn lemma_flip_bytes(data: Seq<u8>, flips: Seq<bool>)
    ensures
        flipped(data, flips).len() == data.len(),
        forall|i: int|
            0 <= i < data.len() ==> (#[trigger] flipped(data, flips)[i] == if i < flips.len()
                && flips[i] {
                !data[i]
            } else {
                data[i]
            }),
        forall|i: int|
            0 <= i < data.len() ==> (#[trigger] flipped(data, flips)[i] != data[i] <==> (i
                < flips.len() && flips[i])),
{
    assert forall|i: int| 0 <= i < data.len() implies (#[trigger] flipped(data, flips)[i]
        != data[i] <==> (i < flips.len() && flips[i])) by {
        let b = data[i];
        assert(!b != b) by (bit_vector);
    }
}

/// Inverting the same bytes twice gives the original bytes back.
pub proof fn lemma_flip_twice(data: Seq<u8>, flips: Seq<bool>)
    ensures
        flipped(flipped(data, flips), flips) == data,
{
    assert forall|i: int| 0 <= i < data.len() implies #[trigger] flipped(
        flipped(data, flips),
        flips,
    )[i] == data[i] by {
        let b = data[i];
        assert(!(!b) == b) by (bit_vector);
    }
    assert(flipped(flipped(data, flips), flips) =~= data);
}

/// With no flag set, corruption leaves every byte as it was.
pub proof fn lemma_no_flips(data: Seq<u8>, flips: Seq<bool>)
    requires
        forall|i: int| 0 <= i < flips.len() ==> !#[trigger] flips[i],
    ensures
        flipped(data, flips) == data,
{
    assert(flipped(data, flips) =~= data);
}

} // verus!
