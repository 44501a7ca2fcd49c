//! Reading the primitive values of FDS binary files from a buffer of bytes: little-endian
//! integers, length-prefixed strings, Fortran records and variable-length integers.
use vstd::prelude::*;
use vstd::utf8::{decode_utf8, valid_utf8};

use crate::text::{trim, trim_spec};

verus! {

/// The error that `std::string::String::from_utf8` reports for bytes that are not UTF-8.
#[verifier::external_type_specification]
#[verifier::external_body]
pub struct ExFromUtf8Error(std::string::FromUtf8Error);

/// What can go wrong when reading from a buffer.
#[derive(Debug, Clone, Copy, PartialEq, Eq)]
pub enum IoError {
    /// The buffer ended before the value did.
    UnexpectedEof,
}

/// Errors of reading a length-prefixed string.
#[derive(Debug)]
pub enum ReadStrErr {
    /// The length prefix could not be read.
    Io(IoError),
    /// The string's bytes could not be read; holds the length that was expected.
    IoBuf(IoError, usize),
    /// The string's bytes are not UTF-8.
    Utf8(std::string::FromUtf8Error),
    /// The length does not fit in a `usize`.
    InvalidLength(u32),
    /// The length after a Fortran record differs from the one before it (before, after).
    MismatchedPostfixLength(usize, usize),
}

/// Errors of reading a value that must equal a known constant.
#[derive(Debug, Clone, Copy, PartialEq, Eq)]
pub enum ReadValErr {
    /// The value could not be read.
    Io(IoError),
    /// The value read differs from the expected one.
    Mismatch { read: u32, expected: u32 },
}

/// The unsigned integer stored little-endian in the first four bytes.
pub open spec fn u32_le(b: Seq<u8>) -> int {
    b[0] + 0x100 * b[1] + 0x1_0000 * b[2] + 0x100_0000 * b[3]
}

/// The signed (two's complement) integer stored little-endian in the first four bytes.
pub open spec fn i32_le(b: Seq<u8>) -> int {
    if u32_le(b) >= 0x8000_0000 {
        u32_le(b) - 0x1_0000_0000
    } else {
        u32_le(b)
    }
}

/// Reads the first four bytes as a little-endian `u32`, through `byteorder::LittleEndian::read_u32`,
/// which decodes `buf[..4]` with `u32::from_le_bytes` and panics for fewer than four bytes.
#[verifier::external_body]
fn le_u32(buf: &[u8]) -> (r: u32)
    requires
        buf@.len() >= 4,
    ensures
        r == u32_le(buf@),
{
    <byteorder::LittleEndian as byteorder::ByteOrder>::read_u32(buf)
}

/// Reads the first four bytes as a little-endian `i32`, through `byteorder::LittleEndian::read_i32`,
/// which reinterprets the little-endian `u32` of `buf[..4]` and panics for fewer than four bytes.
#[verifier::external_body]
fn le_i32(buf: &[u8]) -> (r: i32)
    requires
        buf@.len() >= 4,
    ensures
        r == i32_le(buf@),
{
    <byteorder::LittleEndian as byteorder::ByteOrder>::read_i32(buf)
}

/// Decodes bytes as UTF-8 through `String::from_utf8`, which succeeds exactly on valid UTF-8
/// and then holds the decoded characters.
#[verifier::external_body]
pub(crate) fn string_from_utf8(bytes: Vec<u8>) -> (r: Result<String, std::string::FromUtf8Error>)
    ensures
        r is Ok <==> valid_utf8(bytes@),
        r matches Ok(s) ==> s@ == decode_utf8(bytes@),
{
    String::from_utf8(bytes)
}

/// The sum of the 7-bit groups of a variable-length integer: group `k` weighs `128^k`.
pub open spec fn vlq_sum(groups: Seq<u8>) -> int
    decreases groups.len(),
{
    if groups.len() == 0 {
        0
    } else {
        vlq_sum(groups.drop_last()) + (groups.last() % 128) * pow128(groups.len() - 1)
    }
}

/// `128` to the power `k`.
pub open spec fn pow128(k: int) -> int
    decreases k,
{
    if k <= 0 {
        1
    } else {
        128 * pow128(k - 1)
    }
}

/// The number of bytes of the variable-length integer at the start of `s`: up to and with the
/// first byte below 128, or `None` when every byte has its high bit set.
pub open spec fn vlq_len(s: Seq<u8>) -> Option<int>
    decreases s.len(),
{
    if s.len() == 0 {
        None
    } else if s[0] < 128 {
        Some(1)
    } else {
        match vlq_len(s.drop_first()) {
            Some(n) => Some(n + 1),
            None => None,
        }
    }
}

/// Whether reading a variable-length integer from `s` would shift a group by 32 bits or more:
/// five leading bytes with the high bit set followed by a sixth byte.
pub open spec fn vlq_overflows(s: Seq<u8>) -> bool {
    &&& s.len() >= 6
    &&& forall|k: int| 0 <= k < 5 ==> s[k] >= 128
}

/// A cursor over a buffer of bytes.
pub struct ByteReader {
    data: Vec<u8>,
    pos: usize,
}

impl ByteReader {
    #[verifier::type_invariant]
    spec fn inv(self) -> bool {
        self.pos <= self.data@.len()
    }


    /// All the bytes of the buffer.
    pub closed spec fn bytes(self) -> Seq<u8> {
        self.data@
    }

    /// How many bytes have been consumed.
    pub closed spec fn position(self) -> nat {
        self.pos as nat
    }

    /// The bytes not yet consumed.
    pub open spec fn rest(self) -> Seq<u8> {
        self.bytes().skip(self.position() as int)
    }

    /// The reader is positioned somewhere within its buffer.
    pub open spec fn wf(self) -> bool {
        self.position() <= self.bytes().len()
    }

    /// A reader at the start of a copy of `data`.
    pub fn new(data: &[u8]) -> (r: Self)
        ensures
            r.bytes() == data@,
            r.position() == 0,
            r.wf(),
    {
        let mut v: Vec<u8> = Vec::new();
        let mut i: usize = 0;
        while i < data.len()
            invariant
                i <= data@.len(),
                v@ == data@.take(i as int),
            decreases data@.len() - i,
        {
            v.push(data[i]);
            i = i + 1;
            assert(v@ =~= data@.take(i as int));
        }
        assert(data@.take(i as int) =~= data@);
        ByteReader { data: v, pos: 0 }
    }

    /// The number of bytes not yet consumed.
    pub fn remaining(&self) -> (r: usize)
        ensures
            r == self.rest().len(),
    {
        proof {
            use_type_invariant(self);
        }
        self.data.len() - self.pos
    }

    /// Consumes `n` bytes and returns them; on too few bytes consumes all that are left and
    /// reports the end of the buffer.
    pub fn read_bytes(&mut self, n: usize) -> (r: Result<Vec<u8>, IoError>)
        ensures
            final(self).wf(),
            final(self).bytes() == old(self).bytes(),
            n <= old(self).rest().len() ==> (r matches Ok(v) && v@ == old(self).rest().take(
                n as int,
            )) && final(self).position() == old(self).position() + n,
            n > old(self).rest().len() ==> r == Err::<Vec<u8>, IoError>(IoError::UnexpectedEof)
                && final(self).position() == old(self).bytes().len(),
    {
        proof {
            use_type_invariant(&*self);
        }
        if n > self.data.len() - self.pos {
            self.pos = self.data.len();
            return Err(IoError::UnexpectedEof);
        }
        let mut v: Vec<u8> = Vec::new();
        let mut i: usize = 0;
        let start = self.pos;
        let d = &self.data;
        let len = d.len();
        while i < n
            invariant
                i <= n,
                len == d@.len(),
                start + n <= len,
                v@ == d@.subrange(start as int, start + i),
            decreases n - i,
        {
            v.push(d[start + i]);
            i = i + 1;
            assert(v@ =~= d@.subrange(start as int, start + i));
        }
        self.pos = start + n;
        assert(v@ =~= self.data@.skip(start as int).take(n as int));
        Ok(v)
    }

    /// Consumes one byte.
    pub fn read_u8(&mut self) -> (r: Result<u8, IoError>)
        ensures
            final(self).wf(),
            final(self).bytes() == old(self).bytes(),
            old(self).rest().len() >= 1 ==> r == Ok::<u8, IoError>(old(self).rest()[0])
                && final(self).position() == old(self).position() + 1,
            old(self).rest().len() == 0 ==> r == Err::<u8, IoError>(IoError::UnexpectedEof)
                && final(self).position() == old(self).position(),
    {
        proof {
            use_type_invariant(&*self);
        }
        if self.pos < self.data.len() {
            let b = self.data[self.pos];
            self.pos = self.pos + 1;
            Ok(b)
        } else {
            Err(IoError::UnexpectedEof)
        }
    }

    /// Consumes four bytes and decodes them as a little-endian `u32`.
    pub fn read_u32_le(&mut self) -> (r: Result<u32, IoError>)
        ensures
            final(self).wf(),
            final(self).bytes() == old(self).bytes(),
            old(self).rest().len() >= 4 ==> (r matches Ok(v) && v == u32_le(old(self).rest()))
                && final(self).position() == old(self).position() + 4,
            old(self).rest().len() < 4 ==> r == Err::<u32, IoError>(IoError::UnexpectedEof)
                && final(self).position() == old(self).bytes().len(),
    {
        let b = self.read_bytes(4)?;
        Ok(le_u32(b.as_slice()))
    }

    /// Consumes four bytes and decodes them as a little-endian `i32`.
    pub fn read_i32_le(&mut self) -> (r: Result<i32, IoError>)
        ensures
            final(self).wf(),
            final(self).bytes() == old(self).bytes(),
            old(self).rest().len() >= 4 ==> (r matches Ok(v) && v == i32_le(old(self).rest()))
                && final(self).position() == old(self).position() + 4,
            old(self).rest().len() < 4 ==> r == Err::<i32, IoError>(IoError::UnexpectedEof)
                && final(self).position() == old(self).bytes().len(),
    {
        let b = self.read_bytes(4)?;
        Ok(le_i32(b.as_slice()))
    }

    /// Consumes a little-endian `u32` that must equal `expected`.
    pub fn read_fixed_u32(&mut self, expected: u32) -> (r: Result<(), ReadValErr>)
        ensures
            final(self).wf(),
            final(self).bytes() == old(self).bytes(),
            old(self).rest().len() >= 4 ==> final(self).position() == old(self).position() + 4
                && (r is Ok <==> u32_le(old(self).rest()) == expected) && (r is Err ==> r
                == Err::<(), ReadValErr>(
                ReadValErr::Mismatch { read: u32_le(old(self).rest()) as u32, expected },
            )),
            old(self).rest().len() < 4 ==> r == Err::<(), ReadValErr>(
                ReadValErr::Io(IoError::UnexpectedEof),
            ) && final(self).position() == old(self).bytes().len(),
    {
        match self.read_u32_le() {
            Err(e) => Err(ReadValErr::Io(e)),
            Ok(v) => {
                if v == expected {
                    Ok(())
                } else {
                    Err(ReadValErr::Mismatch { read: v, expected })
                }
            },
        }
    }

    /// Consumes `n` bytes; on too few bytes consumes all that are left and reports the end of the
    /// buffer.
    pub fn skip_bytes(&mut self, n: usize) -> (r: Result<(), IoError>)
        ensures
            final(self).wf(),
            final(self).bytes() == old(self).bytes(),
            n <= old(self).rest().len() ==> r is Ok && final(self).position() == old(
                self,
            ).position() + n,
            n > old(self).rest().len() ==> r == Err::<(), IoError>(IoError::UnexpectedEof)
                && final(self).position() == old(self).bytes().len(),
    {
        proof {
            use_type_invariant(&*self);
        }
        if n > self.data.len() - self.pos {
            self.pos = self.data.len();
            Err(IoError::UnexpectedEof)
        } else {
            self.pos = self.pos + n;
            Ok(())
        }
    }

    /// Reads a string stored as a little-endian `u32` byte count followed by that many UTF-8
    /// bytes; returns the string and its byte count.
    pub fn read_string_len(&mut self) -> (r: Result<(String, usize), ReadStrErr>)
        ensures
            final(self).wf(),
            final(self).bytes() == old(self).bytes(),
            string_read_outcome(old(self).rest(), r),
            r is Ok ==> final(self).position() == old(self).position() + 4 + u32_le(
                old(self).rest(),
            ),
            r matches Err(ReadStrErr::Utf8(_)) ==> final(self).position() == old(self).position()
                + 4 + u32_le(old(self).rest()),
            r matches Err(ReadStrErr::Io(_)) ==> final(self).position() == old(self).bytes().len(),
            r matches Err(ReadStrErr::IoBuf(_, _)) ==> final(self).position() == old(
                self,
            ).bytes().len(),
    {
        proof {
            use_type_invariant(&*self);
        }
        let ghost rest = self.rest();
        let len = match self.read_u32_le() {
            Ok(v) => v,
            Err(e) => return Err(ReadStrErr::Io(e)),
        };
        let len = len as usize;
        assert(self.rest() =~= rest.skip(4));
        let buf = match self.read_bytes(len) {
            Ok(b) => b,
            Err(e) => return Err(ReadStrErr::IoBuf(e, len)),
        };
        assert(buf@ =~= string_bytes(rest));
        match string_from_utf8(buf) {
            Ok(s) => Ok((s, len)),
            Err(e) => Err(ReadStrErr::Utf8(e)),
        }
    }

    /// Reads a Fortran record holding a string: a length-prefixed string followed by its length
    /// again.
    pub fn read_string_fortran_impl(&mut self) -> (r: Result<String, ReadStrErr>)
        ensures
            final(self).wf(),
            final(self).bytes() == old(self).bytes(),
            fortran_string_outcome(old(self).rest(), r),
            r is Ok ==> final(self).position() == old(self).position() + 8 + u32_le(
                old(self).rest(),
            ),
    {
        let (s, len) = self.read_string_len()?;
        let postfix_len = match self.read_u32_le() {
            Ok(v) => v,
            Err(e) => return Err(ReadStrErr::Io(e)),
        };
        let postfix_len = postfix_len as usize;
        if postfix_len != len {
            return Err(ReadStrErr::MismatchedPostfixLength(len, postfix_len));
        }
        Ok(s)
    }

    /// Reads a Fortran string record and removes leading and trailing white space.
    pub fn read_fortran_string(&mut self) -> (r: Result<String, ReadStrErr>)
        ensures
            final(self).wf(),
            final(self).bytes() == old(self).bytes(),
            r is Ok <==> fortran_string_ok(old(self).rest()),
            r matches Ok(s) ==> s@ == trim_spec(fortran_string_text(old(self).rest())),
            r matches Err(e) ==> fortran_string_outcome(old(self).rest(), Err(e)),
            r is Ok ==> final(self).position() == old(self).position() + 8 + u32_le(
                old(self).rest(),
            ),
    {
        let s = self.read_string_fortran_impl()?;
        Ok(trim(s.as_str()))
    }

    /// Reads a variable-length unsigned integer: little-endian groups of 7 bits, each byte
    /// with its high bit set when another group follows. Groups beyond 32 bits are dropped.
    pub fn read_vlq_u32_impl(&mut self) -> (r: Result<u32, IoError>)
        requires
            !vlq_overflows(old(self).rest()),
        ensures
            final(self).wf(),
            final(self).bytes() == old(self).bytes(),
            vlq_len(old(self).rest()) matches Some(k) ==> r == Ok::<u32, IoError>(
                (vlq_sum(old(self).rest().take(k)) % 0x1_0000_0000) as u32,
            ) && final(self).position() == old(self).position() + k,
            vlq_len(old(self).rest()) is None ==> r == Err::<u32, IoError>(IoError::UnexpectedEof)
                && final(self).position() == old(self).bytes().len(),
    {
        proof {
            use_type_invariant(&*self);
        }
        let ghost rest = self.rest();
        let ghost start = self.position();
        let mut acc: u64 = 0;
        let mut weight: u64 = 1;
        let mut k: usize = 0;
        assert(rest.take(0) =~= Seq::<u8>::empty());
        loop
            invariant
                self.wf(),
                self.bytes() == old(self).bytes(),
                rest == old(self).rest(),
                start == old(self).position(),
                !vlq_overflows(rest),
                k <= 5,
                k <= rest.len(),
                self.position() == start + k,
                self.rest() == rest.skip(k as int),
                forall|j: int| 0 <= j < k ==> rest[j] >= 128,
                acc == vlq_sum(rest.take(k as int)),
                weight == pow128(k as int),
                acc < pow128(k as int),
            decreases 6 - k,
        {
            let b = match self.read_u8() {
                Ok(b) => b,
                Err(e) => {
                    proof {
                        lemma_vlq_len_none(rest, k as int);
                    }
                    return Err(e);
                },
            };
            assert(b == rest[k as int]);
            proof {
                if k == 5 {
                    assert(vlq_overflows(rest));
                }
                assert(rest.take(k + 1).drop_last() =~= rest.take(k as int));
                assert(pow128(k + 1) == 128 * pow128(k as int));
                assert(pow128(k as int) <= 0x1000_0000) by {
                    reveal_with_fuel(pow128, 5);
                }
                assert((b % 128) * pow128(k as int) <= 127 * pow128(k as int)) by (nonlinear_arith)
                    requires
                        b % 128 <= 127,
                        pow128(k as int) >= 0,
                ;
            }
            acc = acc + ((b % 128) as u64) * weight;
            if b < 128 {
                proof {
                    lemma_vlq_len_some(rest, k as int);
                }
                return Ok((acc % 0x1_0000_0000) as u32);
            }
            k = k + 1;
            weight = weight * 128;
            assert(self.rest() =~= rest.skip(k as int));
        }
    }
}

/// The bytes of the length-prefixed string at the start of `rest`.
pub open spec fn string_bytes(rest: Seq<u8>) -> Seq<u8> {
    rest.subrange(4, 4 + u32_le(rest))
}

/// What reading a length-prefixed string from `rest` gives.
pub open spec fn string_read_outcome(rest: Seq<u8>, r: Result<(String, usize), ReadStrErr>) -> bool {
    if rest.len() < 4 {
        r matches Err(ReadStrErr::Io(IoError::UnexpectedEof))
    } else if rest.len() < 4 + u32_le(rest) {
        r matches Err(ReadStrErr::IoBuf(IoError::UnexpectedEof, n)) && n == u32_le(rest)
    } else if !valid_utf8(string_bytes(rest)) {
        r matches Err(ReadStrErr::Utf8(_))
    } else {
        r matches Ok((s, n)) && s@ == decode_utf8(string_bytes(rest)) && n == u32_le(rest)
    }
}

/// Whether a Fortran string record can be read from `rest`.
pub open spec fn fortran_string_ok(rest: Seq<u8>) -> bool {
    let n = u32_le(rest);
    &&& rest.len() >= 8 + n
    &&& valid_utf8(string_bytes(rest))
    &&& u32_le(rest.skip(4 + n)) == n
}

/// The text of the Fortran string record at the start of `rest`.
pub open spec fn fortran_string_text(rest: Seq<u8>) -> Seq<char> {
    decode_utf8(string_bytes(rest))
}

/// What reading a Fortran string record from `rest` gives.
pub open spec fn fortran_string_outcome(rest: Seq<u8>, r: Result<String, ReadStrErr>) -> bool {
    let n = u32_le(rest);
    if rest.len() < 4 {
        r matches Err(ReadStrErr::Io(IoError::UnexpectedEof))
    } else if rest.len() < 4 + n {
        r matches Err(ReadStrErr::IoBuf(IoError::UnexpectedEof, m)) && m == n
    } else if !valid_utf8(string_bytes(rest)) {
        r matches Err(ReadStrErr::Utf8(_))
    } else if rest.len() < 8 + n {
        r matches Err(ReadStrErr::Io(IoError::UnexpectedEof))
    } else if u32_le(rest.skip(4 + n)) != n {
        r matches Err(ReadStrErr::MismatchedPostfixLength(a, b)) && a == n && b == u32_le(
            rest.skip(4 + n),
        )
    } else {
        r matches Ok(s) && s@ == fortran_string_text(rest)
    }
}

proof fn lemma_vlq_len_none(s: Seq<u8>, k: int)
    requires
        k == s.len(),
        forall|j: int| 0 <= j < k ==> s[j] >= 128,
    ensures
        vlq_len(s) is None,
    decreases k,
{
    if k > 0 {
        lemma_vlq_len_none(s.drop_first(), k - 1);
    }
}

proof fn lemma_vlq_len_some(s: Seq<u8>, k: int)
    requires
        0 <= k < s.len(),
        forall|j: int| 0 <= j < k ==> s[j] >= 128,
        s[k] < 128,
    ensures
        vlq_len(s) == Some(k + 1),
    decreases k,
{
    if k > 0 {
        lemma_vlq_len_some(s.drop_first(), k - 1);
    }
}

/// Reading the values of FDS binary files.
pub trait ReadExt {
    /// Whether the next variable-length integer ends within its first five bytes or before
    /// the data does.
    spec fn vlq_fits(&self) -> bool;

    /// Reads a length-prefixed UTF-8 string.
    fn read_string(&mut self) -> Result<String, ReadStrErr>;

    /// Reads a Fortran string record: a length-prefixed string followed by its length again.
    fn read_string_fortran(&mut self) -> Result<String, ReadStrErr>;

    /// Reads a variable-length unsigned integer of 7-bit groups.
    fn read_vlq_u32(&mut self) -> Result<u32, IoError>
        requires
            old(self).vlq_fits(),
    ;

    /// Skips `n` bytes.
    fn skip(&mut self, n: usize) -> Result<(), IoError>;
}

impl ReadExt for ByteReader {
    open spec fn vlq_fits(&self) -> bool {
        !vlq_overflows(self.rest())
    }

    fn read_string(&mut self) -> (r: Result<String, ReadStrErr>)
        ensures
            final(self).wf(),
            final(self).bytes() == old(self).bytes(),
            r is Ok <==> old(self).rest().len() >= 4 + u32_le(old(self).rest()) && valid_utf8(
                string_bytes(old(self).rest()),
            ),
            r matches Ok(s) ==> s@ == decode_utf8(string_bytes(old(self).rest())),
            r is Ok ==> final(self).position() == old(self).position() + 4 + u32_le(
                old(self).rest(),
            ),
    {
        Ok(self.read_string_len()?.0)
    }

    fn read_string_fortran(&mut self) -> (r: Result<String, ReadStrErr>)
        ensures
            final(self).wf(),
            final(self).bytes() == old(self).bytes(),
            fortran_string_outcome(old(self).rest(), r),
            r is Ok ==> final(self).position() == old(self).position() + 8 + u32_le(
                old(self).rest(),
            ),
    {
        self.read_string_fortran_impl()
    }

    fn read_vlq_u32(&mut self) -> (r: Result<u32, IoError>)
        ensures
            final(self).wf(),
            final(self).bytes() == old(self).bytes(),
            vlq_len(old(self).rest()) matches Some(k) ==> r == Ok::<u32, IoError>(
                (vlq_sum(old(self).rest().take(k)) % 0x1_0000_0000) as u32,
            ) && final(self).position() == old(self).position() + k,
            vlq_len(old(self).rest()) is None ==> r == Err::<u32, IoError>(IoError::UnexpectedEof)
                && final(self).position() == old(self).bytes().len(),
    {
        self.read_vlq_u32_impl()
    }

    fn skip(&mut self, n: usize) -> (r: Result<(), IoError>)
        ensures
            final(self).wf(),
            final(self).bytes() == old(self).bytes(),
            n <= old(self).rest().len() ==> r is Ok && final(self).position() == old(
                self,
            ).position() + n,
            n > old(self).rest().len() ==> r == Err::<(), IoError>(IoError::UnexpectedEof)
                && final(self).position() == old(self).bytes().len(),
    {
        self.skip_bytes(n)
    }
}

} // verus!
