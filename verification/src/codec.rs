use vstd::prelude::*;
use vstd::slice::slice_to_vec;
use vstd::utf8::*;

use crate::error::BoundaryError;
use crate::registry::{live, value_of, Registry};

verus! {

/// Well-formed text, as the boundary carries it: a valid UTF-8 byte
/// sequence with no zero byte, so that a zero terminator can delimit it.
pub open spec fn is_text(s: Seq<u8>) -> bool {
    &&& valid_utf8(s)
    &&& !s.contains(0u8)
}

/// A native null-terminated byte sequence: the universal representation of
/// text crossing the boundary.
pub struct ByteString {
    bytes: Vec<u8>,
}

impl ByteString {
    /// Exactly one zero byte, at the end.
    #[verifier::type_invariant]
    pub closed spec fn terminated(self) -> bool {
        &&& self.bytes@.len() >= 1
        &&& self.bytes@.last() == 0u8
        &&& forall|i: int| 0 <= i < self.bytes@.len() - 1 ==> self.bytes@[i] != 0u8
    }

    /// The bytes before the terminator.
    pub closed spec fn content(self) -> Seq<u8> {
        self.bytes@.take(self.bytes@.len() - 1)
    }

    /// Wraps raw caller bytes as a terminated sequence, rejecting bytes
    /// that no terminator could delimit. The bytes need not be valid
    /// encoded text: whether they are is decided on decode, not here.
    pub fn from_bytes(data: Vec<u8>) -> (r: Option<ByteString>)
        ensures
            match r {
                Some(b) => !data@.contains(0u8) && b.content() == data@,
                None => data@.contains(0u8),
            },
    {
        let n = data.len();
        let mut i: usize = 0;
        while i < n
            invariant
                i <= n,
                n == data@.len(),
                forall|j: int| 0 <= j < i ==> data@[j] != 0u8,
            decreases n - i,
        {
            if data[i] == 0 {
                return None;
            }
            i = i + 1;
        }
        let mut bytes = data;
        let ghost content = bytes@;
        bytes.push(0);
        let b = ByteString { bytes };
        proof {
            assert(b.content() =~= content);
        }
        Some(b)
    }

    /// Allocates a terminated sequence holding the given well-formed text.
    pub fn from_text(text: &Vec<u8>) -> (b: ByteString)
        requires
            is_text(text@),
        ensures
            b.content() == text@,
    {
        let mut bytes = slice_to_vec(text.as_slice());
        bytes.push(0);
        let b = ByteString { bytes };
        proof {
            assert(b.content() =~= text@);
        }
        b
    }

    /// Copies the content — every byte before the terminator — back out.
    pub fn content_bytes(&self) -> (t: Vec<u8>)
        ensures
            t@ == self.content(),
            !t@.contains(0u8),
    {
        proof {
            use_type_invariant(self);
        }
        let n = self.bytes.len();
        let mut t: Vec<u8> = Vec::new();
        let mut i: usize = 0;
        while i < n - 1
            invariant
                self.terminated(),
                i <= n - 1,
                n == self.bytes@.len(),
                n >= 1,
                t@ == self.content().take(i as int),
            decreases n - 1 - i,
        {
            let byte = self.bytes[i];
            t.push(byte);
            proof {
                assert(t@ =~= self.content().take(i + 1));
            }
            i = i + 1;
        }
        proof {
            assert(t@ =~= self.content());
        }
        t
    }
}

/// Decides in one left-to-right pass whether `bytes` is a valid UTF-8
/// encoding: each scalar must carry a well-formed leading byte, the right
/// number of continuation bytes, and a codepoint that is neither an
/// overlong encoding nor a surrogate.
pub fn utf8_valid(bytes: &Vec<u8>) -> (ok: bool)
    ensures
        ok == valid_utf8(bytes@),
{
    let n = bytes.len();
    let mut i: usize = 0;
    while i < n
        invariant
            i <= n,
            n == bytes@.len(),
            partial_valid_utf8(bytes@, i as int),
        decreases n - i,
    {
        let ghost suffix = bytes@.subrange(i as int, n as int);
        proof {
            assert(suffix.len() == n - i);
            assert(forall|k: int| 0 <= k < suffix.len() ==> suffix[k] == bytes@[i + k]);
        }
        let rem = n - i;
        let b0 = bytes[i];
        let width: usize;
        if b0 < 0x80 {
            // A one-byte scalar; no overlong form exists at this width and
            // the codepoint is far below the surrogate range.
            proof {
                assert(decode_first_codepoint(suffix) == (b0 & 0x7f) as u32);
                assert(b0 & 0x7f < 0x80) by (bit_vector)
                    requires
                        b0 < 0x80,
                ;
                assert(valid_first_scalar(suffix));
            }
            width = 1;
        } else if b0 < 0xc0 {
            // A continuation byte where a leading byte is required.
            proof {
                assert(!valid_leading_and_continuation_bytes_first_codepoint(suffix));
                assert(!valid_utf8(suffix));
                partial_valid_partial_invalid_utf8(bytes@, i as int);
            }
            return false;
        } else if b0 < 0xe0 {
            if rem < 2 {
                proof {
                    assert(!valid_leading_and_continuation_bytes_first_codepoint(suffix));
                    assert(!valid_utf8(suffix));
                    partial_valid_partial_invalid_utf8(bytes@, i as int);
                }
                return false;
            }
            let b1 = bytes[i + 1];
            if !(0x80 <= b1 && b1 < 0xc0) {
                proof {
                    assert(!valid_leading_and_continuation_bytes_first_codepoint(suffix));
                    assert(!valid_utf8(suffix));
                    partial_valid_partial_invalid_utf8(bytes@, i as int);
                }
                return false;
            }
            let cp = (((b0 & 0x1f) as u32) << 6) | ((b1 & 0x3f) as u32);
            proof {
                assert(decode_first_codepoint(suffix) == cp);
                assert(length_of_first_codepoint(suffix) == 2);
            }
            if cp < 0x80 {
                // Overlong: two bytes spent on a one-byte codepoint.
                proof {
                    assert(!valid_first_scalar(suffix));
                    assert(!valid_utf8(suffix));
                    partial_valid_partial_invalid_utf8(bytes@, i as int);
                }
                return false;
            }
            if 0xd800 <= cp && cp <= 0xdfff {
                proof {
                    assert(!valid_first_scalar(suffix));
                    assert(!valid_utf8(suffix));
                    partial_valid_partial_invalid_utf8(bytes@, i as int);
                }
                return false;
            }
            proof {
                assert(valid_first_scalar(suffix));
            }
            width = 2;
        } else if b0 < 0xf0 {
            if rem < 3 {
                proof {
                    assert(!valid_leading_and_continuation_bytes_first_codepoint(suffix));
                    assert(!valid_utf8(suffix));
                    partial_valid_partial_invalid_utf8(bytes@, i as int);
                }
                return false;
            }
            let b1 = bytes[i + 1];
            let b2 = bytes[i + 2];
            if !(0x80 <= b1 && b1 < 0xc0) || !(0x80 <= b2 && b2 < 0xc0) {
                proof {
                    assert(!valid_leading_and_continuation_bytes_first_codepoint(suffix));
                    assert(!valid_utf8(suffix));
                    partial_valid_partial_invalid_utf8(bytes@, i as int);
                }
                return false;
            }
            let cp = (((b0 & 0x0f) as u32) << 12) | (((b1 & 0x3f) as u32) << 6) | ((b2
                & 0x3f) as u32);
            proof {
                assert(decode_first_codepoint(suffix) == cp);
                assert(length_of_first_codepoint(suffix) == 3);
            }
            if cp < 0x800 {
                proof {
                    assert(!valid_first_scalar(suffix));
                    assert(!valid_utf8(suffix));
                    partial_valid_partial_invalid_utf8(bytes@, i as int);
                }
                return false;
            }
            if 0xd800 <= cp && cp <= 0xdfff {
                proof {
                    assert(!valid_first_scalar(suffix));
                    assert(!valid_utf8(suffix));
                    partial_valid_partial_invalid_utf8(bytes@, i as int);
                }
                return false;
            }
            proof {
                assert(valid_first_scalar(suffix));
            }
            width = 3;
        } else if b0 < 0xf8 {
            if rem < 4 {
                proof {
                    assert(!valid_leading_and_continuation_bytes_first_codepoint(suffix));
                    assert(!valid_utf8(suffix));
                    partial_valid_partial_invalid_utf8(bytes@, i as int);
                }
                return false;
            }
            let b1 = bytes[i + 1];
            let b2 = bytes[i + 2];
            let b3 = bytes[i + 3];
            if !(0x80 <= b1 && b1 < 0xc0) || !(0x80 <= b2 && b2 < 0xc0) || !(0x80 <= b3 && b3
                < 0xc0) {
                proof {
                    assert(!valid_leading_and_continuation_bytes_first_codepoint(suffix));
                    assert(!valid_utf8(suffix));
                    partial_valid_partial_invalid_utf8(bytes@, i as int);
                }
                return false;
            }
            let cp = (((b0 & 0x07) as u32) << 18) | (((b1 & 0x3f) as u32) << 12) | (((b2
                & 0x3f) as u32) << 6) | ((b3 & 0x3f) as u32);
            proof {
                assert(decode_first_codepoint(suffix) == cp);
                assert(length_of_first_codepoint(suffix) == 4);
            }
            if cp < 0x10000 || cp > 0x10ffff {
                proof {
                    assert(!valid_first_scalar(suffix));
                    assert(!valid_utf8(suffix));
                    partial_valid_partial_invalid_utf8(bytes@, i as int);
                }
                return false;
            }
            proof {
                assert(valid_first_scalar(suffix));
            }
            width = 4;
        } else {
            // 0xf8 and above fits no leading byte pattern.
            proof {
                assert(!valid_leading_and_continuation_bytes_first_codepoint(suffix));
                assert(!valid_utf8(suffix));
                partial_valid_partial_invalid_utf8(bytes@, i as int);
            }
            return false;
        }
        proof {
            assert(length_of_first_scalar(suffix) == width);
            partial_valid_utf8_extend(bytes@, i as int);
        }
        i = i + width;
    }
    proof {
        assert(bytes@.subrange(0, n as int) =~= bytes@);
    }
    true
}

/// Decides whether `t` is well-formed text: valid UTF-8 with no zero byte.
pub fn is_well_formed_text(t: &Vec<u8>) -> (b: bool)
    ensures
        b == is_text(t@),
{
    if !utf8_valid(t) {
        return false;
    }
    let n = t.len();
    let mut i: usize = 0;
    while i < n
        invariant
            i <= n,
            n == t@.len(),
            forall|j: int| 0 <= j < i ==> t@[j] != 0u8,
        decreases n - i,
    {
        if t[i] == 0 {
            return false;
        }
        i = i + 1;
    }
    true
}

/// What decoding the allocation named by `ptr` out of registry model `m`
/// yields: the content of a live allocation holding valid encoded text,
/// and the precise failure otherwise.
pub open spec fn spec_decode(m: Seq<Option<Seq<u8>>>, ptr: u64) -> Result<Seq<u8>, BoundaryError> {
    if ptr == 0 {
        Err(BoundaryError::NullPointer)
    } else if !live(m, ptr) {
        Err(BoundaryError::UseAfterRelease)
    } else if !valid_utf8(value_of(m, ptr)) {
        Err(BoundaryError::InvalidEncoding)
    } else {
        Ok(value_of(m, ptr))
    }
}

/// Reads the null-terminated byte sequence named by the borrowed pointer
/// `ptr` and recovers its text. The codec takes no ownership: the registry
/// is only borrowed, and nothing in it changes. Fails with `NullPointer`
/// when `ptr` is null and with `InvalidEncoding` when the bytes are not
/// valid encoded text.
pub fn decode(reg: &Registry, ptr: u64) -> (r: Result<Vec<u8>, BoundaryError>)
    ensures
        match r {
            Ok(t) => spec_decode(reg@, ptr) == Ok::<Seq<u8>, BoundaryError>(t@) && is_text(t@),
            Err(e) => spec_decode(reg@, ptr) == Err::<Seq<u8>, BoundaryError>(e),
        },
{
    match reg.read(ptr) {
        Err(e) => Err(e),
        Ok(b) => {
            let t = b.content_bytes();
            if utf8_valid(&t) {
                Ok(t)
            } else {
                Err(BoundaryError::InvalidEncoding)
            }
        },
    }
}

/// Allocates a new null-terminated byte sequence holding `text`'s bytes
/// and hands its handle to the caller, who becomes solely responsible for
/// releasing it exactly once. Never fails: the text is well formed by the
/// time it reaches the codec.
pub fn encode(reg: &mut Registry, text: &Vec<u8>) -> (h: u64)
    requires
        is_text(text@),
    ensures
        final(reg)@ == old(reg)@.push(Some(text@)),
        h as int == old(reg)@.len() + 1,
        live(final(reg)@, h),
        value_of(final(reg)@, h) == text@,
{
    let b = ByteString::from_text(text);
    reg.allocate(b)
}

/// Round trip: decoding a freshly encoded well-formed text recovers that
/// text exactly, whatever the registry held before.
pub proof fn lemma_decode_encode(m: Seq<Option<Seq<u8>>>, t: Seq<u8>)
    requires
        is_text(t),
        m.len() < u64::MAX,
    ensures
        spec_decode(m.push(Some(t)), (m.len() + 1) as u64) == Ok::<Seq<u8>, BoundaryError>(t),
{
    let m2 = m.push(Some(t));
    let h = (m.len() + 1) as u64;
    assert(m2[h as int - 1] == Some(t));
}

} // verus!
