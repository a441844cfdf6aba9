use vstd::prelude::*;
use vstd::string::StringSliceAdditionalSpecFns;

verus! {

/// Byte value written over a buffer's contents when it is erased.
pub const ERASE_PATTERN: u8 = 0;

/// Sensitive bytes (a passphrase, a password) that can be overwritten in place.
pub struct SecretBuffer {
    bytes: Vec<u8>,
}

/// True when every byte of `s` is the erase pattern.
pub open spec fn is_erased(s: Seq<u8>) -> bool {
    forall|i: int| 0 <= i < s.len() ==> s[i] == ERASE_PATTERN
}

impl View for SecretBuffer {
    type V = Seq<u8>;

    closed spec fn view(&self) -> Seq<u8> {
        self.bytes@
    }
}

impl SecretBuffer {
    /// Takes ownership of `bytes` as secret material.
    pub fn new(bytes: Vec<u8>) -> (r: SecretBuffer)
        ensures
            r@ == bytes@,
    {
        SecretBuffer { bytes }
    }

    /// Copies the bytes of `s` into a new buffer.
    pub fn from_str(s: &str) -> (r: SecretBuffer)
        ensures
            r@ == s.spec_bytes(),
    {
        let b = s.as_bytes();
        let mut bytes: Vec<u8> = Vec::new();
        let mut i: usize = 0;
        while i < b.len()
            invariant
                i <= b@.len(),
                b@ == s.spec_bytes(),
                bytes@ == b@.subrange(0, i as int),
            decreases b@.len() - i,
        {
            bytes.push(b[i]);
            i = i + 1;
        }
        assert(bytes@ == b@);
        SecretBuffer { bytes }
    }

    /// Read access to the contents.
    pub fn as_bytes(&self) -> (r: &[u8])
        ensures
            r@ == self@,
    {
        self.bytes.as_slice()
    }

    pub fn len(&self) -> (r: usize)
        ensures
            r == self@.len(),
    {
        self.bytes.len()
    }

    /// A second buffer with the same contents.
    pub fn duplicate(&self) -> (r: SecretBuffer)
        ensures
            r@ == self@,
    {
        let mut bytes: Vec<u8> = Vec::new();
        let mut i: usize = 0;
        while i < self.bytes.len()
            invariant
                i <= self.bytes@.len(),
                bytes@ == self.bytes@.subrange(0, i as int),
            decreases self.bytes@.len() - i,
        {
            bytes.push(self.bytes[i]);
            i = i + 1;
        }
        assert(bytes@ == self.bytes@);
        SecretBuffer { bytes }
    }

    /// Byte-for-byte comparison of two secrets.
    pub fn equals(&self, other: &SecretBuffer) -> (r: bool)
        ensures
            r == (self@ == other@),
    {
        if self.bytes.len() != other.bytes.len() {
            return false;
        }
        let mut i: usize = 0;
        while i < self.bytes.len()
            invariant
                i <= self.bytes@.len(),
                self.bytes@.len() == other.bytes@.len(),
                self.bytes@.subrange(0, i as int) == other.bytes@.subrange(0, i as int),
            decreases self.bytes@.len() - i,
        {
            if self.bytes[i] != other.bytes[i] {
                assert(self.bytes@[i as int] != other.bytes@[i as int]);
                return false;
            }
            assert(self.bytes@.subrange(0, i + 1) == self.bytes@.subrange(0, i as int).push(
                self.bytes@[i as int],
            ));
            assert(other.bytes@.subrange(0, i + 1) == other.bytes@.subrange(0, i as int).push(
                other.bytes@[i as int],
            ));
            i = i + 1;
        }
        assert(self.bytes@ == self.bytes@.subrange(0, i as int));
        assert(other.bytes@ == other.bytes@.subrange(0, i as int));
        true
    }

    /// Overwrites every byte in place with the erase pattern; the length is kept.
    pub fn erase(&mut self)
        ensures
            final(self)@.len() == old(self)@.len(),
            is_erased(final(self)@),
    {
        let n = self.bytes.len();
        let mut i: usize = 0;
        while i < n
            invariant
                n == old(self)@.len(),
                self.bytes@.len() == n,
                i <= n,
                forall|j: int| 0 <= j < i ==> self.bytes@[j] == ERASE_PATTERN,
            decreases n - i,
        {
            self.bytes.set(i, ERASE_PATTERN);
            i = i + 1;
        }
    }
}

/// After erasure, a secret that held any byte other than the erase pattern can no
/// longer be read back: the erased contents differ from the original.
pub proof fn lemma_erased_differs(original: Seq<u8>, erased: Seq<u8>, i: int)
    requires
        0 <= i < original.len(),
        original[i] != ERASE_PATTERN,
        erased.len() == original.len(),
        is_erased(erased),
    ensures
        erased != original,
{
    assert(erased[i] == ERASE_PATTERN);
}

} // verus!
