//! An in-memory source of bytes with a read position, from which records and
//! memo blocks are read.

use crate::error::{Error, IoErrorKind};
use vstd::prelude::*;
use vstd::slice::*;

verus! {

/// The number of bytes of `data` from `pos` to the end (zero past the end).
pub open spec fn remaining_at(data: Seq<u8>, pos: nat) -> nat {
    if pos < data.len() {
        (data.len() - pos) as nat
    } else {
        0
    }
}

/// Whether `n` bytes of `data` can be read from `pos`.
pub open spec fn can_read_at(data: Seq<u8>, pos: nat, n: nat) -> bool {
    n == 0 || pos + n <= data.len()
}

/// The `n` bytes of `data` that start at `pos`.
pub open spec fn peek_at(data: Seq<u8>, pos: nat, n: nat) -> Seq<u8> {
    if n == 0 {
        Seq::empty()
    } else {
        data.subrange(pos as int, (pos + n) as int)
    }
}

/// The position after a read of `n` bytes of `data` from `pos`, whether it
/// succeeds or not: past the bytes read, or at the end when too few remain.
pub open spec fn pos_after_at(data: Seq<u8>, pos: nat, n: nat) -> nat {
    if can_read_at(data, pos, n) {
        pos + n
    } else if pos < data.len() {
        data.len()
    } else {
        pos
    }
}

/// `buf` after a read of `buf[start..end]` from `pos` of `data`: the bytes that
/// remain are copied into the range, as many as fit.
pub open spec fn fill_at(buf: Seq<u8>, start: nat, end: nat, data: Seq<u8>, pos: nat) -> Seq<u8> {
    let n = (end - start) as nat;
    let k = if can_read_at(data, pos, n) {
        n
    } else {
        remaining_at(data, pos)
    };
    buf.subrange(0, start as int) + peek_at(data, pos, k) + buf.subrange((start + k) as int, buf.len() as int)
}

/// Bytes held in memory together with the position of the next read.
///
/// Reads behave as those of a file: a read that asks for more bytes than
/// remain takes what remains, leaves the position at the end and fails with
/// [`IoErrorKind::UnexpectedEof`]. The position may be set past the end, where
/// every read fails.
pub struct ByteReader {
    data: Vec<u8>,
    pos: u64,
}

impl ByteReader {
    /// The bytes of the source.
    pub closed spec fn bytes(&self) -> Seq<u8> {
        self.data@
    }

    /// The position of the next read.
    pub closed spec fn pos(&self) -> nat {
        self.pos as nat
    }

    /// The number of bytes from the position to the end (zero past the end).
    pub open spec fn remaining(&self) -> nat {
        remaining_at(self.bytes(), self.pos())
    }

    /// Whether `n` bytes can be read from the position.
    pub open spec fn can_read(&self, n: nat) -> bool {
        can_read_at(self.bytes(), self.pos(), n)
    }

    /// The `n` bytes that start at the position.
    pub open spec fn peek(&self, n: nat) -> Seq<u8> {
        peek_at(self.bytes(), self.pos(), n)
    }

    /// The position after a read of `n` bytes, whether it succeeds or not.
    pub open spec fn pos_after(&self, n: nat) -> nat {
        pos_after_at(self.bytes(), self.pos(), n)
    }

    /// A source over `data`, positioned at its start.
    pub fn new(data: Vec<u8>) -> (r: Self)
        ensures
            r.bytes() == data@,
            r.pos() == 0,
    {
        ByteReader { data, pos: 0 }
    }

    /// The position of the next read.
    pub fn position(&self) -> (r: u64)
        ensures
            r == self.pos(),
    {
        self.pos
    }

    /// Moves the position to `pos`, counted from the start of the bytes.
    pub fn set_position(&mut self, pos: u64)
        ensures
            final(self).bytes() == old(self).bytes(),
            final(self).pos() == pos,
    {
        self.pos = pos;
    }

    /// The bytes of the source, given back.
    pub fn into_inner(self) -> (r: Vec<u8>)
        ensures
            r@ == self.bytes(),
    {
        self.data
    }

    /// The `n` bytes that start at `pos`, when that many are there; the position
    /// does not move.
    pub fn peek_exact_at(&self, pos: u64, n: usize) -> (r: Option<Vec<u8>>)
        ensures
            match r {
                Some(v) => can_read_at(self.bytes(), pos as nat, n as nat) && v@ == peek_at(
                    self.bytes(),
                    pos as nat,
                    n as nat,
                ),
                None => !can_read_at(self.bytes(), pos as nat, n as nat),
            },
    {
        if n == 0 {
            return Some(Vec::new());
        }
        let len64 = self.data.len() as u64;
        if pos <= len64 && (n as u64) <= len64 - pos {
            let start = pos as usize;
            let sub = slice_subrange(self.data.as_slice(), start, start + n);
            Some(slice_to_vec(sub))
        } else {
            None
        }
    }

    /// The `n` bytes that start at the position, when that many are there; the
    /// position does not move.
    pub fn peek_exact(&self, n: usize) -> (r: Option<Vec<u8>>)
        ensures
            match r {
                Some(v) => self.can_read(n as nat) && v@ == self.peek(n as nat),
                None => !self.can_read(n as nat),
            },
    {
        self.peek_exact_at(self.pos, n)
    }

    /// Reads exactly `n` bytes from the position.
    pub fn read_exact(&mut self, n: usize) -> (r: Result<Vec<u8>, Error>)
        ensures
            final(self).bytes() == old(self).bytes(),
            final(self).pos() == old(self).pos_after(n as nat),
            match r {
                Ok(v) => old(self).can_read(n as nat) && v@ == old(self).peek(n as nat),
                Err(e) => !old(self).can_read(n as nat) && e == Error::IoError(
                    IoErrorKind::UnexpectedEof,
                ),
            },
    {
        let len = self.data.len();
        let len64 = len as u64;
        if n == 0 {
            return Ok(Vec::new());
        }
        if self.pos <= len64 && (n as u64) <= len64 - self.pos {
            let start = self.pos as usize;
            let sub = slice_subrange(self.data.as_slice(), start, start + n);
            let v = slice_to_vec(sub);
            self.pos = self.pos + n as u64;
            Ok(v)
        } else {
            if self.pos < len64 {
                self.pos = len64;
            }
            Err(Error::IoError(IoErrorKind::UnexpectedEof))
        }
    }

    /// Reads one byte.
    pub fn read_u8(&mut self) -> (r: Result<u8, Error>)
        ensures
            final(self).bytes() == old(self).bytes(),
            final(self).pos() == old(self).pos_after(1),
            match r {
                Ok(b) => old(self).can_read(1) && b == old(self).bytes()[old(self).pos() as int],
                Err(e) => !old(self).can_read(1) && e == Error::IoError(IoErrorKind::UnexpectedEof),
            },
    {
        let len64 = self.data.len() as u64;
        if self.pos < len64 {
            let b = self.data[self.pos as usize];
            self.pos = self.pos + 1;
            Ok(b)
        } else {
            Err(Error::IoError(IoErrorKind::UnexpectedEof))
        }
    }

    /// Reads into `buf[start..end]`: the bytes that remain are copied there, as many
    /// as fit, and the read succeeds when they fill the whole range.
    pub fn read_exact_into(&mut self, buf: &mut Vec<u8>, start: usize, end: usize) -> (r: Result<
        (),
        Error,
    >)
        requires
            start <= end <= old(buf)@.len(),
        ensures
            final(self).bytes() == old(self).bytes(),
            final(self).pos() == old(self).pos_after((end - start) as nat),
            final(buf)@ == fill_at(old(buf)@, start as nat, end as nat, old(self).bytes(), old(self).pos()),
            match r {
                Ok(_) => old(self).can_read((end - start) as nat),
                Err(e) => !old(self).can_read((end - start) as nat) && e == Error::IoError(
                    IoErrorKind::UnexpectedEof,
                ),
            },
    {
        let len = self.data.len();
        let len64 = len as u64;
        let n = end - start;
        let avail: usize = if self.pos < len64 {
            (len64 - self.pos) as usize
        } else {
            0
        };
        let k: usize = if n <= avail {
            n
        } else {
            avail
        };
        let from: usize = if k > 0 {
            self.pos as usize
        } else {
            0
        };
        let ghost old_buf = buf@;
        let mut i: usize = 0;
        while i < k
            invariant
                i <= k,
                k <= end - start,
                end <= buf@.len(),
                buf@.len() == old_buf.len(),
                k > 0 ==> from == self.pos,
                from + k <= self.data@.len(),
                self.data@.len() <= usize::MAX,
                forall|j: int| 0 <= j < start || start + i <= j < buf@.len() ==> buf@[j] == old_buf[j],
                forall|j: int| start <= j < start + i ==> #[trigger] buf@[j] == self.data@[from + j - start],
            decreases k - i,
        {
            let b = self.data[from + i];
            buf.set(start + i, b);
            i = i + 1;
        }
        proof {
            assert(buf@ =~= old_buf.subrange(0, start as int) + self.data@.subrange(
                from as int,
                from + k,
            ) + old_buf.subrange(start + k, old_buf.len() as int));
        }
        if k == n {
            self.pos = self.pos + n as u64;
            Ok(())
        } else {
            if self.pos < len64 {
                self.pos = len64;
            }
            Err(Error::IoError(IoErrorKind::UnexpectedEof))
        }
    }
}


/// A read of `n` bytes from `pos` that can be made gives `n` bytes, the `k`-th of
/// which is the byte at `pos + k`, and moves the position by `n`.
pub proof fn lemma_read_gives_bytes_at_position(data: Seq<u8>, pos: nat, n: nat)
    requires
        can_read_at(data, pos, n),
    ensures
        peek_at(data, pos, n).len() == n,
        forall|k: int| 0 <= k < n ==> #[trigger] peek_at(data, pos, n)[k] == data[pos + k],
        pos_after_at(data, pos, n) == pos + n,
{
}

/// A read of `n` bytes from `pos` that cannot be made leaves the position at the
/// end of the bytes, or where it was when it was already past the end.
pub proof fn lemma_short_read_moves_to_end(data: Seq<u8>, pos: nat, n: nat)
    requires
        !can_read_at(data, pos, n),
    ensures
        n > 0,
        pos + n > data.len(),
        pos_after_at(data, pos, n) == if pos < data.len() { data.len() } else { pos },
{
}
} // verus!
