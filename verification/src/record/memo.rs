//! Memo files (`.dbt`, `.fpt`): a header, then blocks of a fixed size, each
//! holding the text of one memo field.

use crate::endian::{read_u16_be, read_u16_le, read_u32_be, read_u32_le, spec_u16_from_be_bytes, spec_u32_from_be_bytes};
use crate::error::{Error, IoErrorKind};
use crate::reader::{can_read_at, fill_at, peek_at, pos_after_at, remaining_at, ByteReader};
use vstd::bytes::*;
use vstd::prelude::*;
use vstd::slice::{slice_subrange, slice_to_vec};

verus! {

/// The three layouts of memo files.
#[derive(Debug, PartialEq, Eq, Copy, Clone, Structural)]
pub enum MemoFileType {
    /// dBase III: each memo ends with the byte 0x1A.
    DbaseMemo,
    /// dBase IV: each memo starts with its length and ends with the byte 0x1F.
    DbaseMemo4,
    /// FoxPro: each memo starts with its type and its length, both big-endian.
    FoxBaseMemo,
}

/// The header of a memo file.
#[derive(Debug, Copy, Clone, PartialEq, Eq, Structural)]
pub struct MemoHeader {
    pub next_available_block_index: u32,
    pub block_size: u32,
}

/// The number of header bytes that are read for a memo file type.
pub open spec fn header_len(memo_type: MemoFileType) -> nat {
    match memo_type {
        MemoFileType::FoxBaseMemo => 8,
        _ => 6,
    }
}

/// The header that the first bytes `b` of a memo file hold: the index of the next
/// free block as a little-endian `u32`, then the block size, a little-endian `u16`
/// for dBase (0 standing for 512), or the big-endian `u16` at bytes 6..8 for FoxPro.
pub open spec fn header_from_bytes(b: Seq<u8>, memo_type: MemoFileType) -> MemoHeader {
    MemoHeader {
        next_available_block_index: spec_u32_from_le_bytes(b.subrange(0, 4)),
        block_size: match memo_type {
            MemoFileType::FoxBaseMemo => spec_u16_from_be_bytes(b.subrange(6, 8)) as u32,
            _ => {
                let v = spec_u16_from_le_bytes(b.subrange(4, 6));
                if v == 0 {
                    512
                } else {
                    v as u32
                }
            },
        },
    }
}

impl MemoHeader {
    /// Reads the header of a memo file of the given type.
    pub fn read_from(src: &mut ByteReader, memo_type: MemoFileType) -> (r: Result<Self, Error>)
        ensures
            final(src).bytes() == old(src).bytes(),
            final(src).pos() == old(src).pos_after(header_len(memo_type)),
            match r {
                Ok(h) => old(src).can_read(header_len(memo_type)) && h == header_from_bytes(
                    old(src).peek(header_len(memo_type)),
                    memo_type,
                ),
                Err(e) => !old(src).can_read(header_len(memo_type)) && e == Error::IoError(
                    IoErrorKind::UnexpectedEof,
                ),
            },
    {
        let ghost src0 = *src;
        let ghost n = header_len(memo_type);
        let first = src.read_exact(4)?;
        let next_available_block_index = read_u32_le(first.as_slice());
        let block_size = match memo_type {
            MemoFileType::DbaseMemo | MemoFileType::DbaseMemo4 => {
                let b = src.read_exact(2)?;
                proof {
                    assert(src0.can_read(n));
                    assert(b@ =~= src0.peek(n).subrange(4, 6));
                    assert(b@.subrange(0, 2) =~= b@);
                }
                match read_u16_le(b.as_slice()) {
                    0 => 512,
                    v => v as u32,
                }
            },
            MemoFileType::FoxBaseMemo => {
                let _ = src.read_exact(2);
                let b = src.read_exact(2)?;
                proof {
                    assert(src0.can_read(n));
                    assert(b@ =~= src0.peek(n).subrange(6, 8));
                }
                read_u16_be(b.as_slice()) as u32
            },
        };
        proof {
            assert(src0.can_read(n));
            let all = src0.peek(n);
            assert(first@ =~= all.subrange(0, 4));
            assert(first@.subrange(0, 4) =~= first@);
        }
        Ok(Self { next_available_block_index, block_size })
    }
}

/// The index of the first byte `b` in `s`.
pub open spec fn first_index(s: Seq<u8>, b: u8) -> Option<int>
    decreases s.len(),
{
    if s.len() == 0 {
        None
    } else if s[0] == b {
        Some(0)
    } else {
        match first_index(s.drop_first(), b) {
            Some(i) => Some(i + 1),
            None => None,
        }
    }
}

/// [`first_index`] gives the smallest index of `b`, or nothing when `b` does not
/// occur.
pub proof fn lemma_first_index(s: Seq<u8>, b: u8)
    ensures
        match first_index(s, b) {
            Some(i) => 0 <= i < s.len() && s[i] == b && forall|j: int| 0 <= j < i ==> s[j] != b,
            None => forall|j: int| 0 <= j < s.len() ==> s[j] != b,
        },
    decreases s.len(),
{
    if s.len() > 0 && s[0] != b {
        lemma_first_index(s.drop_first(), b);
        match first_index(s.drop_first(), b) {
            Some(i) => {
                assert forall|j: int| 0 <= j < i + 1 implies s[j] != b by {
                    if j > 0 {
                        assert(s[j] == s.drop_first()[j - 1]);
                    }
                }
            },
            None => {
                assert forall|j: int| 0 <= j < s.len() implies s[j] != b by {
                    if j > 0 {
                        assert(s[j] == s.drop_first()[j - 1]);
                    }
                }
            },
        }
    }
}

/// The index of the last byte of `s` that is not zero.
pub open spec fn last_nonzero(s: Seq<u8>) -> Option<int>
    decreases s.len(),
{
    if s.len() == 0 {
        None
    } else if s.last() != 0 {
        Some(s.len() - 1)
    } else {
        last_nonzero(s.drop_last())
    }
}

/// [`last_nonzero`] gives the largest index of a non-zero byte, or nothing when all
/// bytes are zero.
pub proof fn lemma_last_nonzero(s: Seq<u8>)
    ensures
        match last_nonzero(s) {
            Some(i) => 0 <= i < s.len() && s[i] != 0 && forall|j: int| i < j < s.len() ==> s[j] == 0,
            None => forall|j: int| 0 <= j < s.len() ==> s[j] == 0,
        },
    decreases s.len(),
{
    if s.len() > 0 && s.last() == 0 {
        lemma_last_nonzero(s.drop_last());
        match last_nonzero(s.drop_last()) {
            Some(i) => {
                assert forall|j: int| i < j < s.len() implies s[j] == 0 by {
                    if j < s.len() - 1 {
                        assert(s[j] == s.drop_last()[j]);
                    }
                }
            },
            None => {
                assert forall|j: int| 0 <= j < s.len() implies s[j] == 0 by {
                    if j < s.len() - 1 {
                        assert(s[j] == s.drop_last()[j]);
                    }
                }
            },
        }
    }
}

/// The position of the first `b` in `s`.
fn position_of(s: &[u8], b: u8) -> (r: Option<usize>)
    ensures
        r == (match first_index(s@, b) {
            Some(i) => Some(i as usize),
            None => None::<usize>,
        }),
{
    proof {
        lemma_first_index(s@, b);
    }
    let mut i: usize = 0;
    while i < s.len()
        invariant
            i <= s@.len(),
            forall|j: int| 0 <= j < i ==> s@[j] != b,
            match first_index(s@, b) {
                Some(k) => 0 <= k < s@.len() && s@[k] == b && forall|j: int| 0 <= j < k ==> s@[j] != b,
                None => forall|j: int| 0 <= j < s@.len() ==> s@[j] != b,
            },
        decreases s@.len() - i,
    {
        if s[i] == b {
            return Some(i);
        }
        i = i + 1;
    }
    None
}

/// The position of the last non-zero byte of `s`.
fn rposition_nonzero(s: &[u8]) -> (r: Option<usize>)
    ensures
        r == (match last_nonzero(s@) {
            Some(i) => Some(i as usize),
            None => None::<usize>,
        }),
{
    proof {
        lemma_last_nonzero(s@);
    }
    let mut i: usize = s.len();
    while i > 0
        invariant
            i <= s@.len(),
            forall|j: int| i <= j < s@.len() ==> s@[j] == 0,
            match last_nonzero(s@) {
                Some(k) => 0 <= k < s@.len() && s@[k] != 0 && forall|j: int| k < j < s@.len() ==> s@[j] == 0,
                None => forall|j: int| 0 <= j < s@.len() ==> s@[j] == 0,
            },
        decreases i,
    {
        if s[i - 1] != 0 {
            return Some(i - 1);
        }
        i = i - 1;
    }
    None
}


/// A memo file held in memory, with the buffer into which blocks are read.
pub struct MemoReader {
    memo_file_type: MemoFileType,
    header: MemoHeader,
    source: ByteReader,
    internal_buffer: Vec<u8>,
}

/// The state of a [`MemoReader`]: its type and header, the bytes of the file with
/// the read position, and the contents of the block buffer.
pub struct MemoReaderView {
    pub memo_file_type: MemoFileType,
    pub header: MemoHeader,
    pub data: Seq<u8>,
    pub pos: nat,
    pub buffer: Seq<u8>,
}

impl View for MemoReader {
    type V = MemoReaderView;

    closed spec fn view(&self) -> MemoReaderView {
        MemoReaderView {
            memo_file_type: self.memo_file_type,
            header: self.header,
            data: self.source.bytes(),
            pos: self.source.pos(),
            buffer: self.internal_buffer@,
        }
    }
}

/// The text of a FoxPro memo: its data up to the last byte that is not zero.
pub open spec fn fox_memo_text(data: Seq<u8>) -> Seq<u8> {
    match last_nonzero(data) {
        Some(p) => data.subrange(0, p + 1),
        None => Seq::empty(),
    }
}

/// The text of a dBase memo in the buffer `buf`: the bytes before the first
/// terminator `t` among the first `search_len` bytes, or the whole buffer when
/// there is none.
pub open spec fn text_before(buf: Seq<u8>, search_len: int, t: u8) -> Seq<u8> {
    match first_index(buf.subrange(0, search_len), t) {
        Some(i) => buf.subrange(0, i),
        None => buf,
    }
}

/// The byte offset of the block `index`.
pub open spec fn block_offset(v: MemoReaderView, index: u32) -> nat {
    (index * v.header.block_size) as nat
}

/// The length stored in the eight-byte block header `b` of a memo of type `t`:
/// big-endian for FoxPro, little-endian for dBase IV, in bytes 4..8.
pub open spec fn memo_length(b: Seq<u8>, t: MemoFileType) -> nat {
    match t {
        MemoFileType::FoxBaseMemo => spec_u32_from_be_bytes(b.subrange(4, 8)) as nat,
        _ => spec_u32_from_le_bytes(b.subrange(4, 8)) as nat,
    }
}

/// Whether reading the memo at block `index` stays clear of what panics: the block
/// offset must fit in a `u32`; a dBase IV length must fit the buffer; a dBase III
/// block that cannot be read whole must not come with a next free block of 0.
pub open spec fn memo_read_in_range(v: MemoReaderView, index: u32) -> bool {
    let off = block_offset(v, index);
    &&& index * v.header.block_size <= u32::MAX
    &&& v.memo_file_type == MemoFileType::DbaseMemo4 && can_read_at(v.data, off, 8) ==> memo_length(
        peek_at(v.data, off, 8),
        v.memo_file_type,
    ) <= v.buffer.len()
    &&& v.memo_file_type == MemoFileType::DbaseMemo && v.header.next_available_block_index == 0
        ==> can_read_at(v.data, off, v.buffer.len())
}

/// The state of a memo reader with the read position and buffer replaced.
pub open spec fn with_pos_buffer(v: MemoReaderView, pos: nat, buffer: Seq<u8>) -> MemoReaderView {
    MemoReaderView {
        memo_file_type: v.memo_file_type,
        header: v.header,
        data: v.data,
        pos,
        buffer,
    }
}

/// The state after reading the memo at block `index`, and what the read gives.
///
/// - FoxPro: the block starts with eight bytes, the length in 4..8 (big-endian);
///   the buffer grows to the length if it is shorter, the data is read into it, and
///   the memo is the data up to its last non-zero byte.
/// - dBase IV: the same with a little-endian length and a buffer that does not
///   grow; the memo is what comes before the first 0x1F within the length, or the
///   whole buffer.
/// - dBase III: a whole buffer is read (a short read is not an error here); the memo
///   is what comes before the first 0x1A, or the whole buffer.
pub open spec fn memo_read(v: MemoReaderView, index: u32) -> (MemoReaderView, Result<Seq<u8>, Error>) {
    let off = block_offset(v, index);
    let eof = Error::IoError(IoErrorKind::UnexpectedEof);
    match v.memo_file_type {
        MemoFileType::DbaseMemo => {
            let n = v.buffer.len();
            let filled = fill_at(v.buffer, 0, n, v.data, off);
            let after = with_pos_buffer(v, pos_after_at(v.data, off, n), filled);
            (after, Ok(text_before(filled, n as int, 0x1A)))
        },
        _ => {
            if !can_read_at(v.data, off, 8) {
                (with_pos_buffer(v, pos_after_at(v.data, off, 8), v.buffer), Err(eof))
            } else {
                let len = memo_length(peek_at(v.data, off, 8), v.memo_file_type);
                let grown = if v.memo_file_type == MemoFileType::FoxBaseMemo && len > v.buffer.len() {
                    v.buffer + Seq::new((len - v.buffer.len()) as nat, |i: int| 0u8)
                } else {
                    v.buffer
                };
                let p = off + 8;
                let filled = fill_at(grown, 0, len, v.data, p);
                let after = with_pos_buffer(v, pos_after_at(v.data, p, len), filled);
                if !can_read_at(v.data, p, len) {
                    (after, Err(eof))
                } else if v.memo_file_type == MemoFileType::FoxBaseMemo {
                    (after, Ok(fox_memo_text(filled.subrange(0, len as int))))
                } else {
                    (after, Ok(text_before(filled, len as int, 0x1F)))
                }
            }
        },
    }
}

/// The reader state after [`MemoReader::new`] on a source whose header was read.
pub open spec fn memo_reader_after_header(src: ByteReader, memo_type: MemoFileType) -> MemoReaderView {
    let header = header_from_bytes(src.peek(header_len(memo_type)), memo_type);
    MemoReaderView {
        memo_file_type: memo_type,
        header,
        data: src.bytes(),
        pos: src.pos() + header_len(memo_type),
        buffer: Seq::new(header.block_size as nat, |i: int| 0u8),
    }
}

impl MemoReader {
    /// Reads the header of a memo file and prepares a buffer of one block.
    pub fn new(memo_type: MemoFileType, src: ByteReader) -> (r: Result<Self, Error>)
        ensures
            match r {
                Ok(m) => src.can_read(header_len(memo_type)) && m@ == memo_reader_after_header(
                    src,
                    memo_type,
                ),
                Err(e) => !src.can_read(header_len(memo_type)) && e == Error::IoError(
                    IoErrorKind::UnexpectedEof,
                ),
            },
    {
        let mut src = src;
        let header = MemoHeader::read_from(&mut src, memo_type)?;
        let internal_buffer = vec![0u8; header.block_size as usize];
        assert(internal_buffer@ =~= Seq::new(header.block_size as nat, |i: int| 0u8));
        Ok(Self { memo_file_type: memo_type, header, source: src, internal_buffer })
    }

    /// The type of the memo file.
    pub fn memo_file_type(&self) -> (r: MemoFileType)
        ensures
            r == self@.memo_file_type,
    {
        self.memo_file_type
    }

    /// The header of the memo file.
    pub fn header(&self) -> (r: MemoHeader)
        ensures
            r == self@.header,
    {
        self.header
    }

    /// Whether reading the memo at block `index` stays clear of what panics.
    pub fn data_at_in_range(&self, index: u32) -> (r: bool)
        ensures
            r == memo_read_in_range(self@, index),
    {
        let a = index as u64;
        let b = self.header.block_size as u64;
        assert(a * b <= u32::MAX as u64 * u32::MAX as u64) by (nonlinear_arith)
            requires
                a <= u32::MAX,
                b <= u32::MAX,
        ;
        let product = a * b;
        if product > u32::MAX as u64 {
            return false;
        }
        let off = product;
        assert(off == block_offset(self@, index));
        match self.memo_file_type {
            MemoFileType::DbaseMemo4 => match self.source.peek_exact_at(off, 8) {
                Some(b) => {
                    proof {
                        assert(b@.subrange(4, 8).subrange(0, 4) =~= b@.subrange(4, 8));
                    }
                    let length = read_u32_le(slice_subrange(b.as_slice(), 4, 8));
                    length as usize <= self.internal_buffer.len()
                },
                None => true,
            },
            MemoFileType::DbaseMemo => {
                if self.header.next_available_block_index == 0 {
                    self.source.peek_exact_at(off, self.internal_buffer.len()).is_some()
                } else {
                    true
                }
            },
            MemoFileType::FoxBaseMemo => true,
        }
    }

    /// Reads the memo stored at block `index`.
    pub fn read_data_at(&mut self, index: u32) -> (r: Result<Vec<u8>, Error>)
        requires
            memo_read_in_range(old(self)@, index),
        ensures
            final(self)@ == memo_read(old(self)@, index).0,
            match memo_read(old(self)@, index).1 {
                Ok(t) => r matches Ok(v) && v@ == t,
                Err(e) => r == Err::<Vec<u8>, Error>(e),
            },
    {
        let ghost v0 = self@;
        let byte_offset = index * self.header.block_size;
        self.source.set_position(byte_offset as u64);
        assert(self@ == with_pos_buffer(v0, block_offset(v0, index), v0.buffer));
        match self.memo_file_type {
            MemoFileType::FoxBaseMemo => {
                let _type = self.source.read_exact(4)?;
                let l = self.source.read_exact(4)?;
                let length = read_u32_be(l.as_slice());
                proof {
                    let b = peek_at(v0.data, block_offset(v0, index), 8);
                    assert(l@ =~= b.subrange(4, 8));
                }
                let ghost off = block_offset(v0, index);
                let ghost len = memo_length(peek_at(v0.data, off, 8), v0.memo_file_type);
                assert(can_read_at(v0.data, off, 8));
                assert(length as nat == len);
                assert(self.source.pos() == off + 8);
                if length as usize > self.internal_buffer.len() {
                    self.internal_buffer.resize(length as usize, 0);
                    assert(self.internal_buffer@ =~= v0.buffer + Seq::new((len - v0.buffer.len()) as nat, |i: int| 0u8));
                }
                let ghost grown = self.internal_buffer@;
                let mut buffer = Vec::new();
                std::mem::swap(&mut buffer, &mut self.internal_buffer);
                let res = self.source.read_exact_into(&mut buffer, 0, length as usize);
                std::mem::swap(&mut buffer, &mut self.internal_buffer);
                assert(self.internal_buffer@ == fill_at(grown, 0, len, v0.data, off + 8));
                assert(self@ == memo_read(v0, index).0);
                res?;
                let buf_slice = slice_subrange(self.internal_buffer.as_slice(), 0, length as usize);
                proof {
                    lemma_last_nonzero(buf_slice@);
                }
                match rposition_nonzero(buf_slice) {
                    Some(pos) => Ok(slice_to_vec(slice_subrange(buf_slice, 0, pos + 1))),
                    None => Ok(Vec::new()),
                }
            },
            MemoFileType::DbaseMemo4 => {
                let _ = self.source.read_exact(4)?;
                let l = self.source.read_exact(4)?;
                let length = read_u32_le(l.as_slice());
                proof {
                    let b = peek_at(v0.data, block_offset(v0, index), 8);
                    assert(l@ =~= b.subrange(4, 8));
                    assert(l@.subrange(0, 4) =~= l@);
                }
                let mut buffer = Vec::new();
                std::mem::swap(&mut buffer, &mut self.internal_buffer);
                let res = self.source.read_exact_into(&mut buffer, 0, length as usize);
                std::mem::swap(&mut buffer, &mut self.internal_buffer);
                res?;
                let searched = slice_subrange(self.internal_buffer.as_slice(), 0, length as usize);
                proof {
                    lemma_first_index(searched@, 0x1F);
                }
                match position_of(searched, 0x1F) {
                    Some(pos) => Ok(slice_to_vec(slice_subrange(self.internal_buffer.as_slice(), 0, pos))),
                    None => Ok(slice_to_vec(self.internal_buffer.as_slice())),
                }
            },
            MemoFileType::DbaseMemo => {
                let n = self.internal_buffer.len();
                let mut buffer = Vec::new();
                std::mem::swap(&mut buffer, &mut self.internal_buffer);
                let res = self.source.read_exact_into(&mut buffer, 0, n);
                std::mem::swap(&mut buffer, &mut self.internal_buffer);
                if let Err(e) = res {
                    if index != self.header.next_available_block_index - 1 && e != Error::IoError(
                        IoErrorKind::UnexpectedEof,
                    ) {
                        return Err(e);
                    }
                }
                proof {
                    lemma_first_index(self.internal_buffer@, 0x1A);
                    assert(self.internal_buffer@.subrange(0, n as int) =~= self.internal_buffer@);
                }
                match position_of(self.internal_buffer.as_slice(), 0x1A) {
                    Some(pos) => Ok(slice_to_vec(slice_subrange(self.internal_buffer.as_slice(), 0, pos))),
                    None => Ok(slice_to_vec(self.internal_buffer.as_slice())),
                }
            },
        }
    }
}


/// The bytes of a header are read as what the format stores there: the next free
/// block is the `u32` whose little-endian bytes are bytes 0..4; a FoxPro block size
/// is the big-endian `u16` in bytes 6..8; a dBase block size is the `u16` whose
/// little-endian bytes are bytes 4..6, or 512 when those bytes are zero.
pub proof fn lemma_memo_header_fields(b: Seq<u8>, t: MemoFileType)
    requires
        b.len() >= header_len(t),
    ensures
        spec_u32_to_le_bytes(header_from_bytes(b, t).next_available_block_index) == b.subrange(0, 4),
        t == MemoFileType::FoxBaseMemo ==> header_from_bytes(b, t).block_size == b[6] * 0x100 + b[7],
        t != MemoFileType::FoxBaseMemo && b.subrange(4, 6) == spec_u16_to_le_bytes(0) ==> header_from_bytes(
            b,
            t,
        ).block_size == 512,
        t != MemoFileType::FoxBaseMemo && b.subrange(4, 6) != spec_u16_to_le_bytes(0) ==> {
            &&& header_from_bytes(b, t).block_size < 0x10000
            &&& spec_u16_to_le_bytes(header_from_bytes(b, t).block_size as u16) == b.subrange(4, 6)
        },
{
    lemma_auto_spec_u32_to_from_le_bytes();
    lemma_auto_spec_u16_to_from_le_bytes();
    let w = b.subrange(4, 6);
    assert(w.len() == 2);
    assert(spec_u16_to_le_bytes(spec_u16_from_le_bytes(w)) == w);
    assert(spec_u16_to_le_bytes(0u16).len() == 2);
    assert(spec_u16_from_le_bytes(spec_u16_to_le_bytes(0u16)) == 0);
    if t == MemoFileType::FoxBaseMemo {
        assert(b.subrange(6, 8)[0] == b[6] && b.subrange(6, 8)[1] == b[7]);
    }
}

/// A FoxPro memo at block `index` is read from the eight bytes after the start of
/// the block, as many as the big-endian length in bytes 4..8 of the block says,
/// whatever the block size: the memo is those bytes up to the last one that is
/// not zero, and only zeros follow it.
pub proof fn lemma_fox_memo_read(v: MemoReaderView, index: u32)
    requires
        v.memo_file_type == MemoFileType::FoxBaseMemo,
        index * v.header.block_size + 8 <= v.data.len(),
        ({
            let p = index * v.header.block_size + 4;
            let len = v.data[p] * 0x1000000 + v.data[p + 1] * 0x10000 + v.data[p + 2] * 0x100
                + v.data[p + 3];
            index * v.header.block_size + 8 + len <= v.data.len()
        }),
    ensures
        ({
            let off = index * v.header.block_size;
            let p = off + 4;
            let len = v.data[p] * 0x1000000 + v.data[p + 1] * 0x10000 + v.data[p + 2] * 0x100
                + v.data[p + 3];
            let m = v.data.subrange(off + 8, off + 8 + len);
            &&& memo_read(v, index).1 matches Ok(t)
            &&& t.len() <= len
            &&& t == m.subrange(0, t.len() as int)
            &&& forall|j: int| t.len() <= j < len ==> #[trigger] m[j] == 0
            &&& t.len() > 0 ==> t.last() != 0
        }),
{
    let off = index * v.header.block_size;
    let p = off + 4;
    let len = v.data[p] * 0x1000000 + v.data[p + 1] * 0x10000 + v.data[p + 2] * 0x100 + v.data[p
        + 3];
    let m = v.data.subrange(off + 8, off + 8 + len);
    let h = peek_at(v.data, off as nat, 8);
    assert(h.subrange(4, 8)[0] == v.data[p]);
    assert(h.subrange(4, 8)[1] == v.data[p + 1]);
    assert(h.subrange(4, 8)[2] == v.data[p + 2]);
    assert(h.subrange(4, 8)[3] == v.data[p + 3]);
    assert(memo_length(h, v.memo_file_type) == len);
    let grown = if len > v.buffer.len() {
        v.buffer + Seq::new((len - v.buffer.len()) as nat, |i: int| 0u8)
    } else {
        v.buffer
    };
    let filled = fill_at(grown, 0, len as nat, v.data, (off + 8) as nat);
    assert(filled.subrange(0, len) =~= m);
    lemma_last_nonzero(m);
}

/// A dBase IV memo at block `index`, whose length `l` (little-endian in bytes 4..8
/// of the block) fits the buffer, is read from the bytes after the block's eight
/// header bytes: the memo is what comes before the first 0x1F among those `l`
/// bytes; without one, it is the `l` bytes followed by the rest of the buffer.
pub proof fn lemma_dbase4_memo_read(v: MemoReaderView, index: u32, l: u32)
    requires
        v.memo_file_type == MemoFileType::DbaseMemo4,
        index * v.header.block_size + 8 + l <= v.data.len(),
        spec_u32_to_le_bytes(l) == v.data.subrange(
            index * v.header.block_size + 4,
            index * v.header.block_size + 8,
        ),
        l <= v.buffer.len(),
    ensures
        ({
            let start = index * v.header.block_size + 8;
            let m = v.data.subrange(start, start + l);
            &&& memo_read(v, index).1 matches Ok(t)
            &&& forall|q: int|
                0 <= q < l && #[trigger] m[q] == 0x1F && (forall|j: int| 0 <= j < q ==> m[j] != 0x1F)
                    ==> t == m.subrange(0, q)
            &&& (forall|j: int| 0 <= j < l ==> m[j] != 0x1F) ==> t == m + v.buffer.subrange(
                l as int,
                v.buffer.len() as int,
            )
        }),
{
    lemma_auto_spec_u32_to_from_le_bytes();
    let off = index * v.header.block_size;
    let start = off + 8;
    let m = v.data.subrange(start, start + l);
    let h = peek_at(v.data, off as nat, 8);
    assert(h.subrange(4, 8) =~= v.data.subrange(off + 4, off + 8));
    assert(memo_length(h, v.memo_file_type) == l);
    let filled = fill_at(v.buffer, 0, l as nat, v.data, start as nat);
    assert(filled.subrange(0, l as int) =~= m);
    lemma_first_index(m, 0x1F);
    match first_index(m, 0x1F) {
        Some(k) => {
            assert(filled.subrange(0, k) =~= m.subrange(0, k));
        },
        None => {
            assert(filled =~= m + v.buffer.subrange(l as int, v.buffer.len() as int));
        },
    }
}

/// A dBase III memo at block `index` whose whole block can be read is the block up
/// to its first 0x1A, or the whole block when it has none.
pub proof fn lemma_dbase3_memo_read(v: MemoReaderView, index: u32)
    requires
        v.memo_file_type == MemoFileType::DbaseMemo,
        index * v.header.block_size + v.buffer.len() <= v.data.len(),
    ensures
        ({
            let off = index * v.header.block_size;
            let m = v.data.subrange(off, off + v.buffer.len());
            &&& memo_read(v, index).1 matches Ok(t)
            &&& forall|q: int|
                0 <= q < m.len() && #[trigger] m[q] == 0x1A && (forall|j: int|
                    0 <= j < q ==> m[j] != 0x1A) ==> t == m.subrange(0, q)
            &&& (forall|j: int| 0 <= j < m.len() ==> m[j] != 0x1A) ==> t == m
        }),
{
    let off = index * v.header.block_size;
    let n = v.buffer.len();
    let m = v.data.subrange(off, off + n);
    let filled = fill_at(v.buffer, 0, n, v.data, off as nat);
    assert(filled =~= m);
    assert(filled.subrange(0, n as int) =~= m);
    lemma_first_index(m, 0x1A);
}
} // verus!
