use vstd::prelude::*;
use vstd::pervasive::VecAdditionalExecFns;
use vstd::utf8::encode_utf8;

verus! {

/// Owns bytes of key or plaintext material.
///
/// Release is explicit: [`CryptoBuffer::erase`] overwrites the whole
/// byte range with zero, provably, and [`CryptoBuffer::destroy`] erases
/// and releases in one step. There is no destructor that erases
/// implicitly: a verified destructor may only call functions that open
/// no invariants, and no verified byte store is available under that
/// restriction, so owners erase before letting a buffer go out of
/// scope.
pub struct CryptoBuffer {
    /// Raw internal data.
    data: Vec<u8>,
}

impl View for CryptoBuffer {
    type V = Seq<u8>;

    closed spec fn view(&self) -> Seq<u8> {
        self.data@
    }
}

impl CryptoBuffer {
    /// Creates an empty buffer.
    pub fn new() -> (r: Self)
        ensures
            r@ == Seq::<u8>::empty(),
    {
        CryptoBuffer { data: Vec::new() }
    }

    /// Creates a buffer holding the specified amount of zeros.
    pub fn new_with_size(size: usize) -> (r: Self)
        ensures
            r@.len() == size,
            forall|i: int| 0 <= i < size ==> r@[i] == 0u8,
    {
        CryptoBuffer { data: vec![0u8; size] }
    }

    /// Appends another buffer to this one and returns the concatenation.
    ///
    /// Takes ownership of both buffers.
    pub fn append(self, buffer: CryptoBuffer) -> (r: CryptoBuffer)
        ensures
            r@ == self@ + buffer@,
    {
        let mut out = self;
        let ghost orig: Seq<u8> = out@;
        let mut i: usize = 0;
        let n: usize = buffer.data.len();
        while i < n
            invariant
                i <= n,
                n == buffer@.len(),
                out@ == orig + buffer@.take(i as int),
            decreases n - i,
        {
            out.data.push(buffer.data[i]);
            i = i + 1;
            proof {
                assert(buffer@.take(i as int) == buffer@.take(i - 1).push(buffer@[i - 1]));
            }
        }
        proof {
            assert(buffer@.take(n as int) == buffer@);
        }
        out
    }

    /// Returns read-only raw bytes of the stored data.
    pub fn as_bytes(&self) -> (r: &[u8])
        ensures
            r@ == self@,
    {
        self.data.as_slice()
    }

    /// Replaces the byte at the given position.
    pub fn set_byte(&mut self, i: usize, value: u8)
        requires
            i < old(self)@.len(),
        ensures
            final(self)@ == old(self)@.update(i as int, value),
    {
        self.data.set(i, value);
    }

    /// Checks if the buffer is empty.
    pub fn is_empty(&self) -> (r: bool)
        ensures
            r == (self@.len() == 0),
    {
        self.data.is_empty()
    }

    /// Overwrites every byte of the given vector with zero.
    fn destroy_data(data: &mut Vec<u8>)
        ensures
            final(data)@.len() == old(data)@.len(),
            forall|i: int| 0 <= i < final(data)@.len() ==> final(data)@[i] == 0u8,
    {
        let mut i: usize = 0;
        let n: usize = data.len();
        while i < n
            invariant
                i <= n,
                n == data@.len(),
                forall|j: int| 0 <= j < i ==> data@[j] == 0u8,
            decreases n - i,
        {
            data.set(i, 0u8);
            i = i + 1;
        }
    }

    /// Overwrites every byte of this buffer with zero, keeping its length.
    ///
    /// Release path for secret material: erase a buffer before letting it
    /// go out of scope, so that the returned memory holds only zeros.
    pub fn erase(&mut self)
        ensures
            final(self)@.len() == old(self)@.len(),
            forall|i: int| 0 <= i < final(self)@.len() ==> final(self)@[i] == 0u8,
    {
        Self::destroy_data(&mut self.data);
    }

    /// Erases the buffer and releases it.
    pub fn destroy(self) {
        let mut buffer = self;
        buffer.erase();
    }
}

impl CryptoBuffer {
    /// Moves the bytes out of a caller-owned string, leaving it empty.
    ///
    /// The string's backing storage is transferred into the buffer, so
    /// no copy of the secret text remains behind in the source.
    pub fn destructive_from(source: &mut String) -> (r: CryptoBuffer)
        ensures
            r@ == encode_utf8(old(source)@),
            final(source)@ == Seq::<char>::empty(),
    {
        let mut taken = String::new();
        core::mem::swap(source, &mut taken);
        CryptoBuffer { data: string_into_bytes(taken) }
    }
}

/// Relies on String::into_bytes: returns exactly the string's UTF-8
/// bytes, consuming the string without copying its storage.
#[verifier::external_body]
fn string_into_bytes(s: String) -> (r: Vec<u8>)
    ensures
        r@ == encode_utf8(s@),
{
    s.into_bytes()
}

impl Default for CryptoBuffer {
    /// An empty buffer.
    fn default() -> (r: Self)
        ensures
            r@ == Seq::<u8>::empty(),
    {
        Self::new()
    }
}

impl CryptoBuffer {
    /// Wraps an owned byte vector without copying it.
    pub fn from_vec(value: Vec<u8>) -> (r: Self)
        ensures
            r@ == value@,
    {
        CryptoBuffer { data: value }
    }

    /// Copies the given bytes into a fresh buffer.
    pub fn from_slice(value: &[u8]) -> (r: Self)
        ensures
            r@ == value@,
    {
        CryptoBuffer { data: vstd::slice::slice_to_vec(value) }
    }
}

} // verus!
