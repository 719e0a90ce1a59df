//! An in-memory container image: a byte buffer with a write cursor that can
//! seek, so that blocks land at their computed positions.  Holes left by
//! seeking past the end read as zero bytes, as they do in a sparse file.

use vstd::prelude::*;

verus! {

/// The bytes after writing `data` at `pos`: the region is overwritten, the
/// rest kept, and any gap up to `pos` filled with zeroes.
pub open spec fn spec_write_at(bytes: Seq<u8>, pos: int, data: Seq<u8>) -> Seq<u8> {
    let end = if bytes.len() > pos + data.len() {
        bytes.len() as int
    } else {
        pos + data.len()
    };
    Seq::new(
        end as nat,
        |i: int|
            if pos <= i < pos + data.len() {
                data[i - pos]
            } else if i < bytes.len() {
                bytes[i]
            } else {
                0u8
            },
    )
}

pub struct ContainerBuf {
    bytes: Vec<u8>,
    pos: usize,
}

impl ContainerBuf {
    pub closed spec fn spec_bytes(self) -> Seq<u8> {
        self.bytes@
    }

    pub closed spec fn spec_pos(self) -> int {
        self.pos as int
    }

    pub fn new() -> (r: ContainerBuf)
        ensures
            r.spec_bytes() == Seq::<u8>::empty(),
            r.spec_pos() == 0,
    {
        ContainerBuf { bytes: Vec::new(), pos: 0 }
    }

    pub fn from_bytes(bytes: Vec<u8>) -> (r: ContainerBuf)
        ensures
            r.spec_bytes() == bytes@,
            r.spec_pos() == 0,
    {
        ContainerBuf { bytes, pos: 0 }
    }

    pub fn into_bytes(self) -> (r: Vec<u8>)
        ensures
            r@ == self.spec_bytes(),
    {
        self.bytes
    }

    pub fn len(&self) -> (r: usize)
        ensures
            r == self.spec_bytes().len(),
    {
        self.bytes.len()
    }

    pub fn cur_pos(&self) -> (r: u64)
        ensures
            r == self.spec_pos(),
    {
        self.pos as u64
    }

    pub fn seek_to(&mut self, pos: u64)
        requires
            pos <= usize::MAX,
        ensures
            final(self).spec_bytes() == old(self).spec_bytes(),
            final(self).spec_pos() == pos,
    {
        self.pos = pos as usize;
    }

    /// Read `len` bytes at the cursor without moving it; `None` when the
    /// cursor is at or past the end (end of file), otherwise the available
    /// bytes, zero-extended only in length actually present.
    pub fn read_at_cursor(&self, len: usize) -> (r: Option<Vec<u8>>)
        ensures
            match r {
                None => self.spec_pos() >= self.spec_bytes().len(),
                Some(v) => self.spec_pos() < self.spec_bytes().len() && v@
                    == self.spec_bytes().subrange(
                    self.spec_pos(),
                    if self.spec_pos() + len <= self.spec_bytes().len() {
                        self.spec_pos() + len
                    } else {
                        self.spec_bytes().len() as int
                    },
                ),
            },
    {
        if self.pos >= self.bytes.len() {
            return None;
        }
        let end = if len <= self.bytes.len() - self.pos {
            self.pos + len
        } else {
            self.bytes.len()
        };
        let mut v: Vec<u8> = Vec::new();
        let mut i = self.pos;
        while i < end
            invariant
                self.pos <= i <= end <= self.bytes.len(),
                v@ == self.spec_bytes().subrange(self.spec_pos(), i as int),
            decreases end - i,
        {
            v.push(self.bytes[i]);
            proof {
                assert(self.spec_bytes().subrange(self.spec_pos(), i + 1) =~= self.spec_bytes()
                    .subrange(self.spec_pos(), i as int).push(self.spec_bytes()[i as int]));
            }
            i = i + 1;
        }
        Some(v)
    }

    /// Write `data[from..to]` at the cursor and advance it.
    pub fn write_range(&mut self, data: &Vec<u8>, from: usize, to: usize)
        requires
            from <= to <= data.len(),
            old(self).spec_pos() + (to - from) <= usize::MAX,
        ensures
            final(self).spec_bytes() == spec_write_at(
                old(self).spec_bytes(),
                old(self).spec_pos(),
                data@.subrange(from as int, to as int),
            ),
            final(self).spec_pos() == old(self).spec_pos() + (to - from),
    {
        let ghost orig = self.bytes@;
        let ghost wpos = self.pos as int;
        let ghost wdata = data@.subrange(from as int, to as int);
        while self.bytes.len() < self.pos
            invariant
                self.pos == wpos,
                orig.len() <= self.bytes.len() <= wpos || self.bytes@ == orig,
                self.bytes@ == Seq::new(
                    self.bytes@.len(),
                    |i: int|
                        if i < orig.len() {
                            orig[i]
                        } else {
                            0u8
                        },
                ),
            decreases wpos - self.bytes.len(),
        {
            self.bytes.push(0);
            proof {
                assert(self.bytes@ =~= Seq::new(
                    self.bytes@.len(),
                    |i: int|
                        if i < orig.len() {
                            orig[i]
                        } else {
                            0u8
                        },
                ));
            }
        }
        let mut k = from;
        while k < to
            invariant
                from <= k <= to <= data.len(),
                self.pos == wpos + (k - from),
                self.pos <= self.bytes.len(),
                wpos + (to - from) <= usize::MAX,
                wdata == data@.subrange(from as int, to as int),
                self.bytes@ == Seq::new(
                    if orig.len() > wpos + (k - from) {
                        orig.len()
                    } else {
                        (wpos + (k - from)) as nat
                    },
                    |i: int|
                        if wpos <= i < wpos + (k - from) {
                            wdata[i - wpos]
                        } else if i < orig.len() {
                            orig[i]
                        } else {
                            0u8
                        },
                ),
            decreases to - k,
        {
            let ghost pre = self.bytes@;
            if self.pos < self.bytes.len() {
                self.bytes.set(self.pos, data[k]);
            } else {
                self.bytes.push(data[k]);
            }
            self.pos = self.pos + 1;
            k = k + 1;
            proof {
                assert(self.bytes@ =~= Seq::new(
                    if orig.len() > wpos + (k - from) {
                        orig.len()
                    } else {
                        (wpos + (k - from)) as nat
                    },
                    |i: int|
                        if wpos <= i < wpos + (k - from) {
                            wdata[i - wpos]
                        } else if i < orig.len() {
                            orig[i]
                        } else {
                            0u8
                        },
                ));
            }
        }
        proof {
            assert(self.bytes@ =~= spec_write_at(orig, wpos, wdata));
        }
    }

    /// Write a whole buffer at the cursor and advance it.
    pub fn write(&mut self, data: &Vec<u8>)
        requires
            old(self).spec_pos() + data.len() <= usize::MAX,
        ensures
            final(self).spec_bytes() == spec_write_at(
                old(self).spec_bytes(),
                old(self).spec_pos(),
                data@,
            ),
            final(self).spec_pos() == old(self).spec_pos() + data.len(),
    {
        let len = data.len();
        self.write_range(data, 0, len);
        proof {
            assert(data@.subrange(0, data@.len() as int) =~= data@);
        }
    }
}

/// The bytes after writing the same data at each of the first `n`
/// positions, in order.
pub open spec fn spec_write_fold_at(bytes: Seq<u8>, data: Seq<u8>, ps: Seq<u64>, n: int) -> Seq<u8>
    decreases n,
{
    if n <= 0 {
        bytes
    } else {
        spec_write_at(spec_write_fold_at(bytes, data, ps, n - 1), ps[n - 1] as int, data)
    }
}

/// When the positions leave room for the data between them, every written
/// region of the fold holds the data.
pub proof fn lemma_write_fold_regions(bytes: Seq<u8>, data: Seq<u8>, ps: Seq<u64>, n: int)
    requires
        0 <= n <= ps.len(),
        forall|i: int, j: int|
            0 <= i < j < n ==> #[trigger] ps[i] + data.len() <= #[trigger] ps[j],
    ensures
        forall|i: int|
            0 <= i < n ==> spec_write_fold_at(bytes, data, ps, n).len() >= #[trigger] ps[i]
                + data.len(),
        forall|i: int|
            0 <= i < n ==> #[trigger] spec_write_fold_at(bytes, data, ps, n).subrange(
                ps[i] as int,
                ps[i] + data.len(),
            ) == data,
        spec_write_fold_at(bytes, data, ps, n).len() >= bytes.len(),
    decreases n,
{
    if n > 0 {
        lemma_write_fold_regions(bytes, data, ps, n - 1);
        let prev = spec_write_fold_at(bytes, data, ps, n - 1);
        let cur = spec_write_fold_at(bytes, data, ps, n);
        assert(cur == spec_write_at(prev, ps[n - 1] as int, data));
        assert(cur.subrange(ps[n - 1] as int, ps[n - 1] + data.len()) =~= data);
        assert forall|i: int| 0 <= i < n - 1 implies #[trigger] cur.subrange(
            ps[i] as int,
            ps[i] + data.len(),
        ) == data by {
            assert(ps[i] + data.len() <= ps[n - 1]);
            assert(cur.subrange(ps[i] as int, ps[i] + data.len()) =~= prev.subrange(
                ps[i] as int,
                ps[i] + data.len(),
            ));
        }
    }
}

} // verus!
