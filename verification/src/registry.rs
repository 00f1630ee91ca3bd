use vstd::prelude::*;

use crate::codec::ByteString;
use crate::error::BoundaryError;

verus! {

/// The registry of owned allocations: the model of the native side's heap
/// of null-terminated byte sequences.
///
/// Every value that crosses the boundary with transfer-to-caller ownership
/// is an allocation here, named by a non-zero handle (the model of a
/// pointer; handle `0` is the null pointer). Releasing an allocation
/// poisons its handle: the slot stays behind, empty, so that a second
/// release or a read through the stale handle is rejected instead of being
/// undefined behaviour.
pub struct Registry {
    slots: Vec<Option<ByteString>>,
}

/// What a registry looks like in contracts: slot `h - 1` holds the content
/// (terminator excluded) of the allocation with handle `h`, or `None` once
/// that allocation has been released.
impl View for Registry {
    type V = Seq<Option<Seq<u8>>>;

    closed spec fn view(&self) -> Seq<Option<Seq<u8>>> {
        self.slots@.map(
            |i: int, s: Option<ByteString>|
                match s {
                    Some(b) => Some(b.content()),
                    None => None,
                },
        )
    }
}

/// True when `h` names an allocation of `m` that has not been released.
pub open spec fn live(m: Seq<Option<Seq<u8>>>, h: u64) -> bool {
    &&& 1 <= h <= m.len()
    &&& m[h as int - 1] is Some
}

/// The content of the live allocation named by `h`.
pub open spec fn value_of(m: Seq<Option<Seq<u8>>>, h: u64) -> Seq<u8>
    recommends
        live(m, h),
{
    m[h as int - 1]->0
}

/// The registry after the allocation named by `h` has been released.
pub open spec fn released(m: Seq<Option<Seq<u8>>>, h: u64) -> Seq<Option<Seq<u8>>>
    recommends
        live(m, h),
{
    m.update(h as int - 1, None)
}

impl Registry {
    /// A registry with no allocations.
    pub fn new() -> (r: Registry)
        ensures
            r@ == Seq::<Option<Seq<u8>>>::empty(),
    {
        let r = Registry { slots: Vec::new() };
        proof {
            assert(r@ =~= Seq::<Option<Seq<u8>>>::empty());
        }
        r
    }

    /// Takes ownership of `b` and returns the fresh handle that now names
    /// it. Every existing allocation is left untouched.
    pub fn allocate(&mut self, b: ByteString) -> (h: u64)
        ensures
            final(self)@ == old(self)@.push(Some(b.content())),
            h as int == old(self)@.len() + 1,
            live(final(self)@, h),
            value_of(final(self)@, h) == b.content(),
    {
        let ghost content = b.content();
        self.slots.push(Some(b));
        let h = self.slots.len() as u64;
        proof {
            assert(final(self)@ =~= old(self)@.push(Some(content)));
        }
        h
    }

    /// Borrows the allocation named by `h` without taking ownership of it.
    pub fn read(&self, h: u64) -> (r: Result<&ByteString, BoundaryError>)
        ensures
            match r {
                Ok(b) => live(self@, h) && b.content() == value_of(self@, h),
                Err(e) => !live(self@, h) && e == (if h == 0 {
                    BoundaryError::NullPointer
                } else {
                    BoundaryError::UseAfterRelease
                }),
            },
    {
        if h == 0 {
            return Err(BoundaryError::NullPointer);
        }
        if h > self.slots.len() as u64 {
            return Err(BoundaryError::UseAfterRelease);
        }
        let idx = (h - 1) as usize;
        match &self.slots[idx] {
            Some(b) => Ok(b),
            None => Err(BoundaryError::UseAfterRelease),
        }
    }

    /// Releases the allocation named by `h`, poisoning the handle: the
    /// first release of a live handle succeeds and empties its slot; a
    /// null handle, a handle never returned by `allocate`, or a handle
    /// already released is rejected.
    pub fn release(&mut self, h: u64) -> (r: Result<(), BoundaryError>)
        ensures
            match r {
                Ok(()) => live(old(self)@, h) && final(self)@ == released(old(self)@, h),
                Err(e) => {
                    &&& final(self)@ == old(self)@
                    &&& !live(old(self)@, h)
                    &&& e == (if h == 0 {
                        BoundaryError::NullPointer
                    } else {
                        BoundaryError::DoubleRelease
                    })
                },
            },
    {
        if h == 0 {
            return Err(BoundaryError::NullPointer);
        }
        if h > self.slots.len() as u64 {
            return Err(BoundaryError::DoubleRelease);
        }
        let idx = (h - 1) as usize;
        if self.slots[idx].is_some() {
            self.slots[idx] = None;
            proof {
                assert(final(self)@ =~= released(old(self)@, h));
            }
            Ok(())
        } else {
            Err(BoundaryError::DoubleRelease)
        }
    }
}

/// Ownership law: once an allocation has been released, its handle is
/// poisoned — it is no longer live, so a read through it or a second
/// release is rejected — while every other allocation is untouched.
pub proof fn lemma_release_poisons_handle(m: Seq<Option<Seq<u8>>>, h: u64)
    requires
        live(m, h),
    ensures
        !live(released(m, h), h),
        released(m, h).len() == m.len(),
        forall|g: u64| g != h && live(m, g) ==> live(#[trigger] released(m, h), g)
            && value_of(released(m, h), g) == value_of(m, g),
{
}

} // verus!
