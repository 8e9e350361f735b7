//! Bounded-length result strings.
//!
//! Region results are short digit/slash strings of at most eight bytes, held
//! inline in a fixed-size buffer with an explicit length, so producing one
//! never allocates beyond its fixed capacity.

use vstd::prelude::*;

verus! {

/// Capacity of a region result string, in bytes.
pub const STR8_CAPACITY: usize = 8;

/// A short recognition result: at most [`STR8_CAPACITY`] bytes, stored inline.
#[derive(Debug, Clone, Copy)]
pub struct Str8 {
    buf: [u8; 8],
    len: usize,
}

impl View for Str8 {
    type V = Seq<u8>;

    /// The string is the sequence of its first `len` buffer bytes.
    closed spec fn view(&self) -> Seq<u8> {
        self.buf@.take(self.len as int)
    }
}

impl Str8 {
    #[verifier::type_invariant]
    closed spec fn inv(self) -> bool {
        self.len <= STR8_CAPACITY
    }

    /// The empty string.
    pub fn new() -> (r: Str8)
        ensures
            r@ == Seq::<u8>::empty(),
    {
        let r = Str8 { buf: [0u8; 8], len: 0 };
        proof {
            assert(r@ =~= Seq::<u8>::empty());
        }
        r
    }

    /// Number of bytes held.
    pub fn len(&self) -> (r: usize)
        ensures
            r == self@.len(),
    {
        proof {
            use_type_invariant(self);
        }
        self.len
    }

    /// True iff no bytes are held.
    pub fn is_empty(&self) -> (r: bool)
        ensures
            r == (self@.len() == 0),
    {
        proof {
            use_type_invariant(self);
        }
        self.len == 0
    }

    /// The byte at position `i`.
    pub fn byte_at(&self, i: usize) -> (r: u8)
        requires
            i < self@.len(),
        ensures
            r == self@[i as int],
    {
        proof {
            use_type_invariant(self);
        }
        self.buf[i]
    }

    /// Appends one byte; a string already at capacity is left unchanged.
    pub fn push(&mut self, b: u8)
        ensures
            old(self)@.len() < STR8_CAPACITY ==> final(self)@ == old(self)@.push(b),
            old(self)@.len() >= STR8_CAPACITY ==> final(self)@ == old(self)@,
    {
        proof {
            use_type_invariant(&*self);
        }
        if self.len < STR8_CAPACITY {
            self.buf[self.len] = b;
            self.len = self.len + 1;
            proof {
                assert(self@ =~= old(self)@.push(b));
            }
        }
    }

    /// The held bytes as a fresh vector.
    pub fn bytes(&self) -> (r: Vec<u8>)
        ensures
            r@ == self@,
    {
        proof {
            use_type_invariant(self);
        }
        let mut v: Vec<u8> = Vec::new();
        let mut i: usize = 0;
        while i < self.len
            invariant
                i <= self.len,
                self.len <= STR8_CAPACITY,
                v@ == self.buf@.take(i as int),
            decreases self.len - i,
        {
            v.push(self.buf[i]);
            proof {
                assert(v@ =~= self.buf@.take(i + 1 as int));
            }
            i = i + 1;
        }
        v
    }

    /// Builds a string from the first eight bytes of `bytes`, truncating the
    /// rest.
    pub fn from_prefix(bytes: &Vec<u8>) -> (r: Str8)
        ensures
            bytes@.len() <= STR8_CAPACITY ==> r@ == bytes@,
            bytes@.len() > STR8_CAPACITY ==> r@ == bytes@.take(STR8_CAPACITY as int),
    {
        let mut r = Str8::new();
        let mut i: usize = 0;
        let n = if bytes.len() < STR8_CAPACITY {
            bytes.len()
        } else {
            STR8_CAPACITY
        };
        while i < n
            invariant
                i <= n,
                n <= bytes@.len(),
                n <= STR8_CAPACITY,
                r@ == bytes@.take(i as int),
            decreases n - i,
        {
            r.push(bytes[i]);
            proof {
                assert(r@ =~= bytes@.take(i + 1 as int));
            }
            i = i + 1;
        }
        proof {
            if bytes@.len() <= STR8_CAPACITY {
                assert(r@ =~= bytes@);
            }
        }
        r
    }
}

} // verus!
