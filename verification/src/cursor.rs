use vstd::prelude::*;
use vstd::utf8::{decode_utf8, valid_utf8};

use crate::errors::RevisionError;
use crate::revision_checker::{WizIntegration, FOOD_HEADER};

verus! {

/// The number that `bytes` spell in little-endian order: the first byte is the
/// least significant one.
pub open spec fn le_value(bytes: Seq<u8>) -> nat
    decreases bytes.len(),
{
    if bytes.len() == 0 {
        0
    } else {
        bytes[0] as nat + 256 * le_value(bytes.skip(1))
    }
}

/// `256` to the power of `n`.
pub open spec fn pow256(n: nat) -> nat
    decreases n,
{
    if n == 0 {
        1
    } else {
        256 * pow256((n - 1) as nat)
    }
}

/// A little-endian number of `n` bytes is below `256^n`.
pub proof fn lemma_le_value_bound(bytes: Seq<u8>)
    ensures
        le_value(bytes) < pow256(bytes.len()),
    decreases bytes.len(),
{
    if bytes.len() > 0 {
        lemma_le_value_bound(bytes.skip(1));
    }
}

proof fn lemma_pow256_values()
    ensures
        pow256(1) == 0x100,
        pow256(2) == 0x1_0000,
        pow256(4) == 0x1_0000_0000,
        pow256(16) == 0x1_0000_0000_0000_0000_0000_0000_0000_0000,
{
    reveal_with_fuel(pow256, 17);
}

proof fn lemma_pow256_monotonic(a: nat, b: nat)
    requires
        a <= b,
    ensures
        pow256(a) <= pow256(b),
    decreases b,
{
    if a < b {
        lemma_pow256_monotonic(a, (b - 1) as nat);
    }
}

/// The text that lossy UTF-8 decoding makes of `bytes`.
pub uninterp spec fn lossy_text(bytes: Seq<u8>) -> Seq<char>;

/// Calls `String::from_utf8_lossy`. The result is a function of the bytes
/// alone; on well-formed UTF-8 it is the text that the bytes encode, and
/// malformed parts are replaced, never refused.
#[verifier::external_body]
fn decode_lossy(bytes: &[u8]) -> (text: String)
    ensures
        text@ == lossy_text(bytes@),
        valid_utf8(bytes@) ==> text@ == decode_utf8(bytes@),
{
    String::from_utf8_lossy(bytes).into_owned()
}

/// A read position in an in-memory buffer.
pub struct Cursor {
    buffer: Vec<u8>,
    position: usize,
}

impl Cursor {
    #[verifier::type_invariant]
    spec fn in_bounds(&self) -> bool {
        self.position <= self.buffer.len()
    }

    /// The whole buffer.
    pub closed spec fn bytes(&self) -> Seq<u8> {
        self.buffer@
    }

    /// How many bytes have been consumed.
    pub closed spec fn position(&self) -> nat {
        self.position as nat
    }

    /// The bytes that have not been consumed yet.
    pub open spec fn remaining(&self) -> Seq<u8> {
        self.bytes().skip(self.position() as int)
    }

    /// Whether a read of `width` bytes succeeded on `before` and left `self`.
    pub open spec fn advanced(&self, before: &Cursor, width: nat) -> bool {
        &&& before.remaining().len() >= width
        &&& self.remaining() == before.remaining().skip(width as int)
        &&& self.bytes() == before.bytes()
        &&& self.position() == before.position() + width
    }

    /// A cursor at the start of `buffer`.
    pub fn new(buffer: Vec<u8>) -> (cursor: Cursor)
        ensures
            cursor.bytes() == buffer@,
            cursor.position() == 0,
            cursor.remaining() == buffer@,
    {
        let cursor = Cursor { buffer, position: 0 };
        assert(cursor.remaining() == cursor.bytes());
        cursor
    }

    /// Number of bytes left to read.
    pub fn remaining_len(&self) -> (n: usize)
        ensures
            n == self.remaining().len(),
    {
        proof {
            use_type_invariant(self);
        }
        self.buffer.len() - self.position
    }

    /// Reads `width` bytes as one little-endian number.
    fn read_le(&mut self, width: usize) -> (r: Result<u128, RevisionError>)
        requires
            width <= 16,
        ensures
            match r {
                Ok(v) => final(self).advanced(old(self), width as nat) && v == le_value(
                    old(self).remaining().take(width as int),
                ),
                Err(e) => e == RevisionError::TruncatedBuffer && old(self).remaining().len() < width
                    && *final(self) == *old(self),
            },
    {
        proof {
            use_type_invariant(&*self);
        }
        if self.buffer.len() - self.position < width {
            return Err(RevisionError::TruncatedBuffer);
        }
        let start = self.position;
        let ghost window = self.buffer@.skip(start as int).take(width as int);
        let mut value: u128 = 0;
        let mut i: usize = width;
        while i > 0
            invariant
                i <= width <= 16,
                start + width <= self.buffer.len(),
                window == self.buffer@.skip(start as int).take(width as int),
                value == le_value(window.skip(i as int)),
            decreases i,
        {
            i = i - 1;
            let byte = self.buffer[start + i];
            proof {
                let tail = window.skip(i as int);
                assert(tail[0] == byte);
                assert(tail.skip(1) == window.skip(i + 1));
                lemma_le_value_bound(tail.skip(1));
                lemma_pow256_monotonic(tail.skip(1).len(), 15);
                lemma_pow256_monotonic(tail.len(), 16);
                lemma_le_value_bound(tail);
                lemma_pow256_values();
                reveal_with_fuel(pow256, 2);
            }
            value = value * 256 + byte as u128;
        }
        assert(window.skip(0) == window);
        self.position = start + width;
        assert(self.remaining() == old(self).remaining().skip(width as int));
        Ok(value)
    }

    /// Reads one byte.
    pub fn read_u8(&mut self) -> (r: Result<u8, RevisionError>)
        ensures
            match r {
                Ok(v) => final(self).advanced(old(self), 1) && v == old(self).remaining()[0],
                Err(e) => e == RevisionError::TruncatedBuffer && old(self).remaining().len() < 1
                    && *final(self) == *old(self),
            },
    {
        let ghost window = self.remaining().take(1);
        match self.read_le(1) {
            Ok(v) => {
                proof {
                    reveal_with_fuel(le_value, 2);
                    assert(window.skip(1).len() == 0);
                }
                Ok(v as u8)
            },
            Err(e) => Err(e),
        }
    }

    /// Reads two bytes as a little-endian number.
    pub fn read_u16_le(&mut self) -> (r: Result<u16, RevisionError>)
        ensures
            match r {
                Ok(v) => final(self).advanced(old(self), 2) && v == le_value(
                    old(self).remaining().take(2),
                ),
                Err(e) => e == RevisionError::TruncatedBuffer && old(self).remaining().len() < 2
                    && *final(self) == *old(self),
            },
    {
        let ghost window = self.remaining().take(2);
        match self.read_le(2) {
            Ok(v) => {
                proof {
                    lemma_le_value_bound(window);
                    lemma_pow256_values();
                }
                Ok(v as u16)
            },
            Err(e) => Err(e),
        }
    }

    /// Reads four bytes as a little-endian number.
    pub fn read_u32_le(&mut self) -> (r: Result<u32, RevisionError>)
        ensures
            match r {
                Ok(v) => final(self).advanced(old(self), 4) && v == le_value(
                    old(self).remaining().take(4),
                ),
                Err(e) => e == RevisionError::TruncatedBuffer && old(self).remaining().len() < 4
                    && *final(self) == *old(self),
            },
    {
        let ghost window = self.remaining().take(4);
        match self.read_le(4) {
            Ok(v) => {
                proof {
                    lemma_le_value_bound(window);
                    lemma_pow256_values();
                }
                Ok(v as u32)
            },
            Err(e) => Err(e),
        }
    }

    /// Reads sixteen bytes as a little-endian number.
    pub fn read_u128_le(&mut self) -> (r: Result<u128, RevisionError>)
        ensures
            match r {
                Ok(v) => final(self).advanced(old(self), 16) && v == le_value(
                    old(self).remaining().take(16),
                ),
                Err(e) => e == RevisionError::TruncatedBuffer && old(self).remaining().len() < 16
                    && *final(self) == *old(self),
            },
    {
        self.read_le(16)
    }
}

impl WizIntegration for Cursor {
    open spec fn unread(&self) -> Seq<u8> {
        self.remaining()
    }

    fn read_bytestring(&mut self) -> (r: Result<String, RevisionError>) {
        proof {
            use_type_invariant(&*self);
            reveal_with_fuel(le_value, 3);
        }
        let start = self.position;
        let available = self.buffer.len() - start;
        if available < 2 {
            return Err(RevisionError::TruncatedBuffer);
        }
        let low = self.buffer[start] as usize;
        let high = self.buffer[start + 1] as usize;
        let length = low + high * 256;
        let ghost prefix = self.remaining().take(2);
        assert(prefix.skip(1).skip(1).len() == 0);
        assert(prefix.skip(1)[0] == self.buffer@[start + 1]);
        assert(length == le_value(prefix));
        if available - 2 < length {
            return Err(RevisionError::TruncatedBuffer);
        }
        let body = vstd::slice::slice_subrange(
            self.buffer.as_slice(),
            start + 2,
            start + 2 + length,
        );
        assert(body@ == self.remaining().subrange(2, 2 + length));
        let text = decode_lossy(body);
        self.position = start + 2 + length;
        assert(self.remaining() == old(self).remaining().skip(2 + length));
        Ok(text)
    }

    fn is_food_header(&mut self) -> (r: Result<bool, RevisionError>) {
        proof {
            use_type_invariant(&*self);
        }
        let start = self.position;
        if self.buffer.len() - start < 2 {
            return Err(RevisionError::TruncatedBuffer);
        }
        let first = self.buffer[start];
        let second = self.buffer[start + 1];
        self.position = start + 2;
        assert(self.remaining() == old(self).remaining().skip(2));
        Ok(first == FOOD_HEADER[0] && second == FOOD_HEADER[1])
    }
}

} // verus!
