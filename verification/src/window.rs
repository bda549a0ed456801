use crate::error::BlobError;
use std::rc::Rc;
use vstd::prelude::*;
use vstd::slice::slice_subrange;

verus! {

/// A second handle on a shared arena, made with `Rc::clone`: the new handle
/// points at the same allocation, so it holds the same bytes. No byte is
/// copied.
#[verifier::external_body]
fn share_arena(arena: &Rc<Vec<u8>>) -> (r: Rc<Vec<u8>>)
    ensures
        r == *arena,
{
    Rc::clone(arena)
}

/// A range `[from, to)` into an immutable, shared byte arena.
///
/// Windows cut from one another share the arena: narrowing a window copies
/// no bytes. The arena lives as long as its longest-lived window.
#[derive(Debug)]
pub struct BufferWindow {
    arena: Rc<Vec<u8>>,
    from: usize,
    to: usize,
}

impl View for BufferWindow {
    type V = Seq<u8>;

    /// The bytes that the window shows.
    open spec fn view(&self) -> Seq<u8> {
        self.arena().subrange(self.from_index(), self.to_index())
    }
}

impl BufferWindow {
    /// All the bytes of the arena that the window looks into.
    pub closed spec fn arena(&self) -> Seq<u8> {
        self.arena@
    }

    /// Where the window starts, as an offset into the arena.
    pub closed spec fn from_index(&self) -> int {
        self.from as int
    }

    /// Where the window ends (exclusive), as an offset into the arena.
    pub closed spec fn to_index(&self) -> int {
        self.to as int
    }

    /// The window lies inside its arena, which fits into memory.
    #[verifier::type_invariant]
    pub open spec fn wf(&self) -> bool {
        0 <= self.from_index() <= self.to_index() <= self.arena().len() <= usize::MAX
    }

    /// The window over all of `bytes`, which become the arena.
    pub fn new(bytes: Vec<u8>) -> (r: Self)
        ensures
            r.wf(),
            r.arena() == bytes@,
            r.from_index() == 0,
            r.to_index() == bytes@.len(),
            r@ == bytes@,
    {
        let to = bytes.len();
        let r = BufferWindow { arena: Rc::new(bytes), from: 0, to };
        assert(r.arena().len() == to);
        assert(r@ =~= bytes@);
        r
    }

    /// The window `[from, to)` of the same arena.
    ///
    /// Both offsets count from the start of the arena, not from the start of
    /// this window. The range must not be empty and must lie inside this
    /// window; any other range is refused with `OutOfRange`.
    pub fn slice(&self, from: usize, to: usize) -> (r: Result<BufferWindow, BlobError>)
        ensures
            self.wf(),
            r is Ok <==> self.from_index() <= from < to <= self.to_index(),
            r matches Ok(w) ==> {
                &&& w.wf()
                &&& w.arena() == self.arena()
                &&& w.from_index() == from
                &&& w.to_index() == to
                &&& w@ == self.arena().subrange(from as int, to as int)
                &&& w@.len() == to - from
            },
            r matches Err(e) ==> e == BlobError::OutOfRange,
    {
        proof {
            use_type_invariant(self);
        }
        if from < to && self.from <= from && to <= self.to {
            Ok(BufferWindow { arena: share_arena(&self.arena), from, to })
        } else {
            Err(BlobError::OutOfRange)
        }
    }

    /// Borrows the bytes that the window shows, without copying them.
    pub fn as_bytes(&self) -> (r: &[u8])
        ensures
            r@ == self@,
    {
        proof {
            use_type_invariant(self);
        }
        slice_subrange(self.arena.as_slice(), self.from, self.to)
    }

    /// The number of bytes that the window shows.
    pub fn len(&self) -> (r: usize)
        ensures
            self.wf(),
            r == self@.len(),
            r == self.to_index() - self.from_index(),
    {
        proof {
            use_type_invariant(self);
        }
        self.to - self.from
    }
}

} // verus!
