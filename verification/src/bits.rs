//! Palette indexes packed into the bytes of one pixel row.

use vstd::prelude::*;

verus! {

/// The number of bits in a byte.
pub const BITS: usize = 8;

/// Whether indexes of `nbits` bits can be unpacked: the width divides a byte,
/// so that no index lies across two bytes.
pub open spec fn packable(nbits: int) -> bool {
    nbits == 1 || nbits == 2 || nbits == 4 || nbits == 8
}

/// The index of `nbits` bits that starts `bit_pos` bits below the most
/// significant bit of `block`.
pub open spec fn index_value(block: u8, nbits: u8, bit_pos: u8) -> u8 {
    (block >> ((8 - nbits - bit_pos) as u8)) & (0xffu8 >> ((8 - nbits) as u8))
}

/// The `k`-th index of `nbits` bits in a row of packed bytes.
pub open spec fn index_at(bytes: Seq<u8>, nbits: int, k: int) -> int {
    index_value(bytes[k * nbits / 8], nbits as u8, ((k * nbits) % 8) as u8) as int
}

/// An index of `nbits` bits is below two to the power `nbits`.
pub proof fn lemma_index_value_bounded(block: u8, nbits: u8, bit_pos: u8)
    requires
        packable(nbits as int),
        bit_pos + nbits <= 8,
    ensures
        nbits == 1 ==> index_value(block, nbits, bit_pos) < 2,
        nbits == 2 ==> index_value(block, nbits, bit_pos) < 4,
        nbits == 4 ==> index_value(block, nbits, bit_pos) < 16,
        nbits == 8 ==> index_value(block, nbits, bit_pos) == block,
{
    let s: u8 = (8 - nbits - bit_pos) as u8;
    let m: u8 = (8 - nbits) as u8;
    assert(m == 7 ==> (block >> s) & (0xffu8 >> m) < 2) by (bit_vector);
    assert(m == 6 ==> (block >> s) & (0xffu8 >> m) < 4) by (bit_vector);
    assert(m == 4 ==> (block >> s) & (0xffu8 >> m) < 16) by (bit_vector);
    assert(m == 0 && s == 0 ==> (block >> s) & (0xffu8 >> m) == block) by (bit_vector);
}

/// Where a cursor stands that is `p` bits into byte `n` of a row: on the
/// first bit of the index whose number is the quotient of the bits before it
/// by `nbits`, and with room in that byte for the whole index.
pub proof fn lemma_cursor_position(n: int, p: int, nbits: int)
    requires
        packable(nbits),
        0 <= n,
        0 <= p < 8,
        p % nbits == 0,
    ensures
        p + nbits <= 8,
        (p + nbits) % nbits == 0,
        (8 * n + p) % nbits == 0,
        ((8 * n + p) / nbits) * nbits == 8 * n + p,
        (((8 * n + p) / nbits) * nbits) / 8 == n,
        (((8 * n + p) / nbits) * nbits) % 8 == p,
        (8 * n + p) / 8 == n,
{
    let c = 8 * n + p;
    if nbits == 1 {
        assert(p % 1 == 0 && (p + 1) % 1 == 0 && c % 1 == 0 && (c / 1) * 1 == c);
    } else if nbits == 2 {
        assert(p % nbits == p % 2);
        assert(p % 2 == 0 && (p + 2) % 2 == 0 && c % 2 == 0 && (c / 2) * 2 == c);
    } else if nbits == 4 {
        assert(p % nbits == p % 4);
        assert(p % 4 == 0 && (p + 4) % 4 == 0 && c % 4 == 0 && (c / 4) * 4 == c);
    } else {
        assert(p % nbits == p % 8);
        assert(p == 0 && (p + 8) % 8 == 0 && c % 8 == 0 && (c / 8) * 8 == c);
    }
    assert((c / nbits) * nbits == c);
}

/// A cursor over the indexes packed into one row of bytes, from the most
/// significant bits of the first byte on.
#[derive(Debug)]
pub struct BitIndex<'a> {
    size: usize,
    nbits: usize,
    bits_left: u8,
    mask: u8,
    bytes: &'a [u8],
    byte_pos: usize,
    bit_pos: u8,
}

impl<'a> BitIndex<'a> {
    /// The invariant of the cursor: the width divides a byte, the mask
    /// selects that many low bits, and the cursor stands on an index's first
    /// bit, at most one byte behind the row's end.
    pub closed spec fn wf(&self) -> bool {
        &&& packable(self.nbits as int)
        &&& self.bits_left == 8 - self.nbits
        &&& self.mask == 0xffu8 >> self.bits_left
        &&& self.bit_pos as int % self.nbits as int == 0
        &&& self.bit_pos < 8
        &&& self.byte_pos <= self.bytes@.len()
        &&& self.byte_pos == self.bytes@.len() ==> self.bit_pos == 0
    }

    /// The row's bytes.
    pub closed spec fn bytes(&self) -> Seq<u8> {
        self.bytes@
    }

    /// The width in bits of one index.
    pub closed spec fn nbits(&self) -> int {
        self.nbits as int
    }

    /// The number of indexes that are still asked for.
    pub closed spec fn remaining(&self) -> int {
        self.size as int
    }

    /// The cursor: the number of bits that lie before the next index.
    pub closed spec fn cursor(&self) -> int {
        8 * self.byte_pos + self.bit_pos
    }

    /// The number of indexes that the cursor has passed.
    pub open spec fn passed(&self) -> int {
        self.cursor() / self.nbits()
    }

    /// The cursor stands on the first bit of an index, and behind the row's
    /// last byte exactly if it has passed every index of the row.
    pub proof fn lemma_cursor_aligned(&self)
        requires
            self.wf(),
        ensures
            packable(self.nbits()),
            self.cursor() == self.passed() * self.nbits(),
            0 <= self.passed() <= self.bytes().len() * (8int / self.nbits()),
            self.at_end() <==> self.passed() == self.bytes().len() * (8int / self.nbits()),
    {
        let n = self.byte_pos as int;
        let p = self.bit_pos as int;
        let len = self.bytes@.len() as int;
        lemma_cursor_position(n, p, self.nbits as int);
        let nbits = self.nbits as int;
        let per = 8int / nbits;
        let q = (8 * n + p) / nbits;
        assert(q * nbits == 8 * n + p);
        if nbits == 1 {
            assert(per == 8);
            assert(q * 1 == 8 * n + p);
            assert(len * per == len * 8);
        } else if nbits == 2 {
            assert(per == 4);
            assert(q * 2 == 8 * n + p);
            assert(len * per == len * 4);
        } else if nbits == 4 {
            assert(per == 2);
            assert(q * 4 == 8 * n + p);
            assert(len * per == len * 2);
        } else {
            assert(per == 1);
            assert(q * 8 == 8 * n + p);
            assert(len * per == len * 1);
        }
    }

    /// Whether the cursor stands behind the row's last byte.
    pub open spec fn at_end(&self) -> bool {
        self.cursor() / 8 >= self.bytes().len()
    }

    /// Yields the next index and moves the cursor behind it. Nothing is
    /// yielded once as many indexes as were asked for have been taken, or
    /// when the cursor stands behind the row's last byte; either way one
    /// fewer index remains to be asked for, down to none.
    pub fn next(&mut self) -> (item: Option<usize>)
        requires
            old(self).wf(),
        ensures
            final(self).wf(),
            final(self).bytes() == old(self).bytes(),
            final(self).nbits() == old(self).nbits(),
            final(self).remaining() == if old(self).remaining() == 0 {
                0
            } else {
                old(self).remaining() - 1
            },
            old(self).remaining() > 0 && !old(self).at_end() ==> {
                &&& item == Some(
                    index_at(old(self).bytes(), old(self).nbits(), old(self).cursor() / old(
                        self,
                    ).nbits()) as usize,
                )
                &&& final(self).cursor() == old(self).cursor() + old(self).nbits()
            },
            old(self).remaining() == 0 || old(self).at_end() ==> {
                &&& item is None
                &&& final(self).cursor() == old(self).cursor()
            },
    {
        let n: usize = self.byte_pos;
        proof {
            lemma_cursor_position(n as int, self.bit_pos as int, self.nbits as int);
        }
        let offset: u8 = self.bits_left - self.bit_pos;
        if self.size == 0 {
            None
        } else {
            self.size -= 1;
            if n < self.bytes.len() {
                let block: u8 = self.bytes[n];
                let mask: u8 = self.mask;
                let value: u8 = (block & (mask << offset)) >> offset;
                proof {
                    assert(((block & (mask << offset)) >> offset) == ((block >> offset) & mask))
                        by (bit_vector)
                        requires
                            offset < 8,
                    ;
                }
                if self.bit_pos as usize + self.nbits == BITS {
                    self.bit_pos = 0;
                    self.byte_pos = n + 1;
                } else {
                    self.bit_pos = self.bit_pos + (self.nbits as u8);
                }
                Some(value as usize)
            } else {
                None
            }
        }
    }
}

/// How indexes are counted in bits: index `j` starts `j * nbits` bits into
/// the row, and the next one `nbits` bits further on.
pub proof fn lemma_index_start(nbits: int, j: int)
    requires
        packable(nbits),
    ensures
        (j * nbits) / nbits == j,
        (j + 1) * nbits == j * nbits + nbits,
{
    if nbits == 1 {
        assert((j * 1) / 1 == j);
    } else if nbits == 2 {
        assert((j * 2) / 2 == j);
    } else if nbits == 4 {
        assert((j * 4) / 4 == j);
    } else {
        assert((j * 8) / 8 == j);
    }
}

impl<'a> BitIndex<'a> {
    /// The number of indexes that the cursor will yield yet: as many as are
    /// still asked for, or those between it and the row's end where they are
    /// fewer.
    pub open spec fn pending(&self) -> int {
        let in_row = self.bytes().len() * (8int / self.nbits()) - self.passed();
        if self.remaining() <= in_row {
            self.remaining()
        } else {
            in_row
        }
    }

    /// Returns the indexes that the cursor has not passed yet, in their
    /// order.
    pub fn to_vec(self) -> (indexes: Vec<usize>)
        requires
            self.wf(),
        ensures
            indexes@ == Seq::new(
                self.pending() as nat,
                |i: int| index_at(self.bytes(), self.nbits(), self.passed() + i) as usize,
            ),
    {
        let ghost goal = Seq::new(
            self.pending() as nat,
            |i: int| index_at(self.bytes(), self.nbits(), self.passed() + i) as usize,
        );
        let ghost start = self.passed();
        let ghost asked = self.remaining();
        let ghost pending = self.pending();
        let mut it = self;
        let mut indexes: Vec<usize> = Vec::new();
        proof {
            self.lemma_cursor_aligned();
        }
        loop
            invariant_except_break
                it.remaining() == asked - indexes@.len(),
            invariant
                it.wf(),
                it.bytes() == self.bytes(),
                it.nbits() == self.nbits(),
                packable(self.nbits()),
                it.passed() == start + indexes@.len(),
                0 <= indexes@.len() <= pending,
                0 <= asked,
                pending == (if asked <= self.bytes().len() * (8int / self.nbits()) - start {
                    asked
                } else {
                    self.bytes().len() * (8int / self.nbits()) - start
                }),
                goal.len() == pending,
                forall|i: int| 0 <= i < indexes@.len() ==> indexes@[i] == goal[i],
                forall|i: int|
                    0 <= i < goal.len() ==> goal[i] == index_at(
                        self.bytes(),
                        self.nbits(),
                        start + i,
                    ) as usize,
            ensures
                indexes@.len() == pending,
            decreases it.remaining(),
        {
            proof {
                it.lemma_cursor_aligned();
                lemma_index_start(it.nbits(), it.passed());
            }
            match it.next() {
                Some(i) => {
                    proof {
                        it.lemma_cursor_aligned();
                        lemma_index_start(it.nbits(), start + indexes@.len() + 1);
                    }
                    indexes.push(i);
                },
                None => {
                    break ;
                },
            }
        }
        assert(indexes@ =~= goal);
        indexes
    }
}

/// Creates a cursor over the first `size` indexes of `nbits` bits each that
/// are packed into `bytes`.
pub fn bit_index<'a>(bytes: &'a [u8], nbits: usize, size: usize) -> (it: BitIndex<'a>)
    requires
        packable(nbits as int),
    ensures
        it.wf(),
        it.bytes() == bytes@,
        it.nbits() == nbits,
        it.remaining() == size,
        it.cursor() == 0,
{
    let bits_left: u8 = (BITS - nbits) as u8;
    BitIndex { size, nbits, bits_left, mask: 0xffu8 >> bits_left, bytes, byte_pos: 0, bit_pos: 0 }
}

} // verus!
