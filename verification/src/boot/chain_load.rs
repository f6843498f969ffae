//! Chain-loading EFI loaders: the load options handed to them.

use crate::text::chars_of;
use vstd::prelude::*;
use vstd::string::StringSliceAdditionalSpecFns;

verus! {

/// Why load options could not be built.
#[derive(Debug, Clone, Copy, PartialEq, Eq, Structural)]
pub enum LoadOptionsError {
    /// The options hold a NUL byte, which would end them early.
    InvalidParameter,
    /// No room for them, or more bytes than the protocol can describe.
    OutOfResources,
}

/// The UTF-16 code units of `c`: one below `0x10000`, else a surrogate pair.
pub open spec fn utf16_of(c: char) -> Seq<u16> {
    let v = c as u32;
    if v < 0x10000 {
        seq![v as u16]
    } else {
        let w = (v - 0x10000) as u32;
        seq![(0xd800 + (w >> 10u32)) as u16, (0xdc00 + (w & 0x3ff)) as u16]
    }
}

/// The UTF-16 encoding of `s`.
pub open spec fn utf16_seq(s: Seq<char>) -> Seq<u16>
    decreases s.len(),
{
    if s.len() == 0 {
        Seq::empty()
    } else {
        utf16_seq(s.drop_last()) + utf16_of(s.last())
    }
}

/// Load options as the firmware takes them: UTF-16 with a terminating NUL.
pub struct LoadOptionsBuffer {
    data: Vec<u16>,
}

impl View for LoadOptionsBuffer {
    type V = Seq<u16>;

    closed spec fn view(&self) -> Seq<u16> {
        self.data@
    }
}

impl LoadOptionsBuffer {
    /// Their size in bytes fits the protocol's 32-bit field.
    #[verifier::type_invariant]
    closed spec fn fits(self) -> bool {
        self.data@.len() * 2 <= u32::MAX
    }

    /// Encodes `options`. A NUL byte in them is refused; when no room can be
    /// reserved for them, `OutOfResources`; otherwise `encode_into` encodes
    /// them.
    pub fn new(options: &str) -> (r: Result<LoadOptionsBuffer, LoadOptionsError>)
        ensures
            r == Err::<LoadOptionsBuffer, LoadOptionsError>(LoadOptionsError::InvalidParameter) <==> options.spec_bytes().contains(0u8),
            r matches Ok(b) ==> b@ == utf16_seq(options@).push(0u16),
            !options.spec_bytes().contains(0u8) && (utf16_seq(options@).len() + 1) * 2 > u32::MAX ==> r is Err,
    {
        let bytes = options.as_bytes();
        let mut i: usize = 0;
        while i < bytes.len()
            invariant
                i <= bytes@.len(),
                bytes@ == options.spec_bytes(),
                forall|j: int| 0 <= j < i ==> bytes@[j] != 0,
            decreases bytes@.len() - i,
        {
            if bytes[i] == 0 {
                assert(options.spec_bytes()[i as int] == 0);
                return Err(LoadOptionsError::InvalidParameter);
            }
            i += 1;
        }
        assert(!options.spec_bytes().contains(0u8));
        let mut data: Vec<u16> = Vec::new();
        if data.try_reserve(options.len().saturating_add(1)).is_err() {
            return Err(LoadOptionsError::OutOfResources);
        }
        Self::encode_into(data, options)
    }

    /// Encodes `options`, which hold no NUL, into `data`, an empty buffer with
    /// room reserved for them: the UTF-16 units and a terminating NUL, or
    /// `OutOfResources` when their size in bytes does not fit 32 bits.
    pub fn encode_into(data: Vec<u16>, options: &str) -> (r: Result<LoadOptionsBuffer, LoadOptionsError>)
        requires
            data@.len() == 0,
        ensures
            (utf16_seq(options@).len() + 1) * 2 > u32::MAX <==> r == Err::<LoadOptionsBuffer, LoadOptionsError>(
                LoadOptionsError::OutOfResources,
            ),
            r matches Ok(b) ==> b@ == utf16_seq(options@).push(0u16),
            r is Ok || r == Err::<LoadOptionsBuffer, LoadOptionsError>(LoadOptionsError::OutOfResources),
    {
        let mut data = data;
        let chars = chars_of(options);
        assert(chars@.take(0) =~= Seq::<char>::empty());
        let mut k: usize = 0;
        while k < chars.len()
            invariant
                k <= chars@.len(),
                chars@ == options@,
                data@ == utf16_seq(chars@.take(k as int)),
            decreases chars@.len() - k,
        {
            let c = chars[k];
            let v = c as u32;
            proof {
                vstd::utf8::char_is_scalar(c);
            }
            if v < 0x10000 {
                data.push(v as u16);
            } else {
                assert(v <= 0x10ffff);
                let w = v - 0x10000;
                assert((w >> 10u32) < 0x400 && (w & 0x3ff) < 0x400) by (bit_vector)
                    requires
                        w < 0x100000,
                ;
                data.push((0xd800 + (w >> 10u32)) as u16);
                data.push((0xdc00 + (w & 0x3ff)) as u16);
            }
            let ghost prefix = chars@.take(k + 1);
            assert(prefix.drop_last() =~= chars@.take(k as int));
            k += 1;
            assert(data@ =~= utf16_seq(chars@.take(k as int)));
        }
        assert(chars@.take(k as int) =~= chars@);
        data.push(0);
        if data.len() > 0x7fff_ffff {
            return Err(LoadOptionsError::OutOfResources);
        }
        Ok(LoadOptionsBuffer { data })
    }

    /// Size of the options in bytes, the NUL included.
    pub fn size_bytes(&self) -> (r: u32)
        ensures
            r == self@.len() * 2,
    {
        proof {
            use_type_invariant(self);
        }
        (self.data.len() * 2) as u32
    }

    /// The code units, the NUL included.
    pub fn units(&self) -> (r: &[u16])
        ensures
            r@ == self@,
    {
        self.data.as_slice()
    }
}

} // verus!
