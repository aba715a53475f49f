//! Latin-1 text: a single-byte-per-character encoding. Every byte value is a
//! valid character, so decoding raw bytes can never fail; only the conversion
//! from UTF-8 can, when a character lies outside the 8-bit range.

use vstd::prelude::*;

verus! {

use vstd::std_specs::iter::IteratorSpec;

/// A string of Latin-1 characters, one byte each.
#[derive(Debug)]
pub struct Latin1String {
    pub bytes: Vec<u8>,
}

impl View for Latin1String {
    type V = Seq<u8>;

    open spec fn view(&self) -> Seq<u8> {
        self.bytes@
    }
}

/// The character a Latin-1 byte stands for: byte values coincide with the
/// first 256 Unicode code points.
pub open spec fn l1_char(b: u8) -> char {
    b as char
}

/// Whether every character of a text can be carried by one Latin-1 byte.
pub open spec fn latin1_encodable(s: Seq<char>) -> bool {
    forall|i: int| 0 <= i < s.len() ==> (#[trigger] s[i]) as u32 <= 255
}

/// The Latin-1 bytes of a text whose characters all fit in one byte.
pub open spec fn latin1_of(s: Seq<char>) -> Seq<u8> {
    s.map_values(|c: char| c as u8)
}

/// A character that cannot be carried by Latin-1, together with the index at
/// which it was met.
#[derive(Debug, PartialEq, Eq, Structural, Clone, Copy)]
pub struct Utf8ToLatin1Error {
    pub index: usize,
    pub value: char,
}

impl Latin1String {
    pub fn empty() -> (r: Latin1String)
        ensures
            r@ == Seq::<u8>::empty(),
    {
        Latin1String { bytes: Vec::new() }
    }

    pub fn new(bytes: Vec<u8>) -> (r: Latin1String)
        ensures
            r@ == bytes@,
    {
        Latin1String { bytes }
    }

    pub fn len(&self) -> (n: usize)
        ensures
            n == self@.len(),
    {
        self.bytes.len()
    }

    pub fn clone(&self) -> (r: Latin1String)
        ensures
            r@ == self@,
    {
        let mut bytes: Vec<u8> = Vec::new();
        let mut i: usize = 0;
        while i < self.bytes.len()
            invariant
                i <= self.bytes@.len(),
                bytes@ == self.bytes@.take(i as int),
            decreases self.bytes@.len() - i,
        {
            bytes.push(self.bytes[i]);
            i = i + 1;
            proof {
                assert(bytes@ =~= self.bytes@.take(i as int));
            }
        }
        proof {
            assert(bytes@ =~= self.bytes@);
        }
        Latin1String { bytes }
    }

    /// Convert a UTF-8 text to Latin-1. Fails at the first character outside
    /// the 8-bit range, reporting that character and its index.
    pub fn from_utf8(s: &str) -> (r: Result<Latin1String, Utf8ToLatin1Error>)
        ensures
            match r {
                Ok(l) => latin1_encodable(s@) && l@ == latin1_of(s@),
                Err(e) => {
                    &&& !latin1_encodable(s@)
                    &&& 0 <= e.index < s@.len()
                    &&& s@[e.index as int] == e.value
                    &&& e.value as u32 > 255
                    &&& forall|i: int| 0 <= i < e.index ==> (#[trigger] s@[i]) as u32 <= 255
                },
            },
    {
        let mut bytes: Vec<u8> = Vec::new();
        let mut it = s.chars();
        let ghost mut i: int = 0;
        loop
            invariant
                it.obeys_prophetic_iter_laws(),
                it.remaining() =~= s@.skip(i),
                0 <= i <= s@.len(),
                i == bytes@.len(),
                bytes@ == latin1_of(s@.take(i)),
                forall|j: int| 0 <= j < i ==> (#[trigger] s@[j]) as u32 <= 255,
            decreases s@.len() - i,
        {
            match it.next() {
                None => {
                    proof {
                        assert(s@.skip(i).len() == 0);
                        assert(i == s@.len());
                        assert(s@.take(i) =~= s@);
                    }
                    return Ok(Latin1String { bytes });
                },
                Some(c) => {
                    proof {
                        assert(s@.skip(i).len() > 0);
                        assert(s@.skip(i)[0] == s@[i]);
                    }
                    let code: u32 = c as u32;
                    if code > 255 {
                        return Err(Utf8ToLatin1Error { index: bytes.len(), value: c });
                    }
                    bytes.push(c as u8);
                    proof {
                        i = i + 1;
                        assert(bytes@ =~= latin1_of(s@.take(i)));
                        assert(s@.skip(i - 1).drop_first() =~= s@.skip(i));
                    }
                },
            }
        }
    }
}

} // verus!
