use vstd::prelude::*;
use vstd::slice::slice_subrange;

verus! {

pub const MAX_SIZE: usize = 1024;

/// A byte string of at most `MAX_SIZE` bytes held inline, with no allocation.
pub struct String {
    data: [u8; MAX_SIZE],
    len: usize,
}

impl View for String {
    type V = Seq<u8>;

    closed spec fn view(&self) -> Seq<u8> {
        self.data@.subrange(0, self.len as int)
    }
}

impl String {
    /// The length never passes the capacity.
    pub closed spec fn wf(&self) -> bool {
        self.len <= MAX_SIZE
    }

    pub fn new() -> (r: String)
        ensures
            r.wf(),
            r@ == Seq::<u8>::empty(),
    {
        let r = String { data: [0u8; MAX_SIZE], len: 0 };
        assert(r@ =~= Seq::<u8>::empty());
        r
    }

    pub fn len(&self) -> (r: usize)
        requires
            self.wf(),
        ensures
            r == self@.len(),
    {
        self.len
    }

    /// Appends one byte; the string must not be full.
    pub fn push(&mut self, c: u8)
        requires
            old(self).wf(),
            old(self)@.len() < MAX_SIZE,
        ensures
            final(self).wf(),
            final(self)@ == old(self)@.push(c),
    {
        self.data[self.len] = c;
        self.len = self.len + 1;
        assert(self@ =~= old(self)@.push(c));
    }

    /// The bytes pushed so far, in order.
    pub fn as_slice(&self) -> (r: &[u8])
        requires
            self.wf(),
        ensures
            r@ == self@,
    {
        slice_subrange(self.data.as_slice(), 0, self.len)
    }
}

} // verus!
