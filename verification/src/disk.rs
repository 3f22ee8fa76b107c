//! Disk compaction: moving file blocks from the tail of the disk into the
//! leftmost free slots, and checksumming the compacted prefix.

use vstd::prelude::*;

use crate::scan::{digit_val, is_ascii_digit_char};

verus! {

/// One block of the disk: part of the file with the given id, or free.
#[derive(Clone, Copy, Debug, PartialEq, Eq, Structural)]
pub enum Block {
    File { id: usize },
    Free,
}

/// The id a block contributes to the checksum: a free block contributes
/// nothing.
pub open spec fn block_id(b: Block) -> int {
    match b {
        Block::File { id } => id as int,
        Block::Free => 0,
    }
}

/// How many of the blocks `s[a..b]` equal `v`.
pub open spec fn count_val(s: Seq<Block>, a: int, b: int, v: Block) -> nat
    decreases b - a,
{
    if a >= b {
        0
    } else {
        count_val(s, a, b - 1, v) + (if s[b - 1] == v {
            1nat
        } else {
            0nat
        })
    }
}

/// The checksum of the first `n` blocks: the sum of each position times the
/// id of the block stored there.
pub open spec fn prefix_checksum(s: Seq<Block>, n: int) -> int
    decreases n,
{
    if n <= 0 {
        0
    } else {
        prefix_checksum(s, n - 1) + (n - 1) * block_id(s[n - 1])
    }
}

/// A disk: its blocks, and the number of file blocks among them.
#[derive(Clone, Debug)]
pub struct Disk {
    pub blocks: Vec<Block>,
    pub size: usize,
}

/// Compaction cannot happen on a broken disk.
#[derive(Clone, Copy, Debug, PartialEq, Eq, Structural)]
pub enum DiskError {
    /// A free block stood where a file block had just been moved.
    InvalidBlock,
}

impl Disk {
    /// Well-formedness: the disk is non-empty, `size` counts its file
    /// blocks, and every file id is below `size`.
    pub open spec fn wf(self) -> bool {
        &&& 1 <= self.blocks@.len()
        &&& self.size <= self.blocks@.len()
        &&& count_val(self.blocks@, 0, self.blocks@.len() as int, Block::Free) == self.blocks@.len()
            - self.size
        &&& (forall|j: int|
            0 <= j < self.blocks@.len() ==> block_id(#[trigger] self.blocks@[j]) < self.size)
    }
}

proof fn lemma_count_val_le(s: Seq<Block>, a: int, b: int, v: Block)
    requires
        a <= b,
    ensures
        count_val(s, a, b, v) <= b - a,
    decreases b - a,
{
    if a < b {
        lemma_count_val_le(s, a, b - 1, v);
    }
}

proof fn lemma_count_val_split(s: Seq<Block>, a: int, b: int, c: int, v: Block)
    requires
        a <= b <= c,
    ensures
        count_val(s, a, c, v) == count_val(s, a, b, v) + count_val(s, b, c, v),
    decreases c - b,
{
    if b < c {
        lemma_count_val_split(s, a, b, c - 1, v);
    }
}

proof fn lemma_count_val_update(s: Seq<Block>, i: int, w: Block, a: int, b: int, v: Block)
    requires
        0 <= i < s.len(),
        0 <= a <= b <= s.len(),
    ensures
        a <= i < b ==> count_val(s.update(i, w), a, b, v) == count_val(s, a, b, v) - (if s[i] == v {
            1int
        } else {
            0int
        }) + (if w == v {
            1int
        } else {
            0int
        }),
        !(a <= i < b) ==> count_val(s.update(i, w), a, b, v) == count_val(s, a, b, v),
    decreases b - a,
{
    if a < b {
        lemma_count_val_update(s, i, w, a, b - 1, v);
    }
}

/// The checksum of a prefix depends on that prefix alone.
proof fn lemma_prefix_checksum_congruence(s: Seq<Block>, t: Seq<Block>, n: int)
    requires
        forall|j: int| 0 <= j < n ==> s[j] == t[j],
    ensures
        prefix_checksum(s, n) == prefix_checksum(t, n),
    decreases n,
{
    if n > 0 {
        lemma_prefix_checksum_congruence(s, t, n - 1);
    }
}

proof fn lemma_prefix_checksum_bound(s: Seq<Block>, n: int, k: int)
    requires
        0 <= n <= s.len(),
        forall|j: int| 0 <= j < s.len() ==> block_id(#[trigger] s[j]) < k,
        0 < k,
    ensures
        0 <= prefix_checksum(s, n) <= n * n * k,
    decreases n,
{
    if n > 0 {
        lemma_prefix_checksum_bound(s, n - 1, k);
        assert((n - 1) * block_id(s[n - 1]) <= (n - 1) * (k - 1)) by (nonlinear_arith)
            requires
                0 <= n - 1,
                block_id(s[n - 1]) <= k - 1,
        ;
        assert((n - 1) * (n - 1) * k + (n - 1) * (k - 1) <= n * n * k) by (nonlinear_arith)
            requires
                0 <= n - 1,
                0 < k,
        ;
    }
}

/// A disk layout could not be read.
#[derive(Clone, Copy, Debug, PartialEq, Eq, Structural)]
pub enum DiskFormatError {
    /// A character of the layout is not a decimal digit.
    NonDigit,
    /// A file run has length zero.
    EmptyFile,
}

/// The blocks one layout digit stands for: at even positions a run of file
/// blocks — the file's id is the count of file runs before it — and at odd
/// positions a run of free blocks.
pub open spec fn run_blocks(d: int, k: int) -> Seq<Block> {
    if k % 2 == 0 {
        Seq::new(d as nat, |j: int| Block::File { id: (k / 2) as usize })
    } else {
        Seq::new(d as nat, |j: int| Block::Free)
    }
}

/// The blocks of the layout digits from position `k` on.
pub open spec fn layout_blocks(s: Seq<char>, k: int) -> Seq<Block>
    decreases s.len() - k,
{
    if !(0 <= k < s.len()) {
        Seq::empty()
    } else {
        run_blocks(digit_val(s[k]), k) + layout_blocks(s, k + 1)
    }
}

/// The number of file blocks the layout digits from position `k` describe.
pub open spec fn layout_size(s: Seq<char>, k: int) -> int
    decreases s.len() - k,
{
    if !(0 <= k < s.len()) {
        0
    } else {
        (if k % 2 == 0 {
            digit_val(s[k])
        } else {
            0
        }) + layout_size(s, k + 1)
    }
}

/// The first offense in the layout digits from position `k` on, if any.
pub open spec fn layout_error(s: Seq<char>, k: int) -> Option<DiskFormatError>
    decreases s.len() - k,
{
    if !(0 <= k < s.len()) {
        None
    } else if !is_ascii_digit_char(s[k]) {
        Some(DiskFormatError::NonDigit)
    } else if k % 2 == 0 && s[k] == '0' {
        Some(DiskFormatError::EmptyFile)
    } else {
        layout_error(s, k + 1)
    }
}

proof fn lemma_count_val_congruent(s: Seq<Block>, t: Seq<Block>, a: int, b: int, v: Block)
    requires
        forall|j: int| a <= j < b ==> s[j] == t[j],
    ensures
        count_val(s, a, b, v) == count_val(t, a, b, v),
    decreases b - a,
{
    if a < b {
        lemma_count_val_congruent(s, t, a, b - 1, v);
    }
}

proof fn lemma_count_val_concat(a: Seq<Block>, b: Seq<Block>, v: Block)
    ensures
        count_val(a + b, 0, a.len() as int + b.len() as int, v) == count_val(
            a,
            0,
            a.len() as int,
            v,
        ) + count_val(b, 0, b.len() as int, v),
    decreases b.len(),
{
    if b.len() == 0 {
        assert(a + b =~= a);
    } else {
        lemma_count_val_concat(a, b.drop_last(), v);
        lemma_count_val_congruent(
            a + b,
            a + b.drop_last(),
            0,
            a.len() + b.len() - 1,
            v,
        );
        lemma_count_val_congruent(b, b.drop_last(), 0, b.len() - 1, v);
    }
}

proof fn lemma_count_val_constant(n: nat, w: Block, v: Block)
    ensures
        count_val(Seq::new(n, |j: int| w), 0, n as int, v) == (if w == v {
            n as int
        } else {
            0
        }),
    decreases n,
{
    if n > 0 {
        lemma_count_val_constant((n - 1) as nat, w, v);
        lemma_count_val_congruent(
            Seq::new(n, |j: int| w),
            Seq::new((n - 1) as nat, |j: int| w),
            0,
            n - 1,
            v,
        );
    }
}

/// Reading a well-formed layout from position `k` yields as many free
/// blocks as its non-file digits say, and every file id stays below the
/// total file-block count seen from position 0 — each earlier file run
/// contributes at least one block.
proof fn lemma_layout_props(s: Seq<char>, k: int)
    requires
        0 <= k <= s.len(),
        layout_error(s, 0) is None,
    ensures
        layout_blocks(s, k).len() >= layout_size(s, k) >= 0,
        count_val(layout_blocks(s, k), 0, layout_blocks(s, k).len() as int, Block::Free)
            == layout_blocks(s, k).len() - layout_size(s, k),
        forall|j: int|
            0 <= j < layout_blocks(s, k).len() ==> block_id(#[trigger] layout_blocks(s, k)[j])
                < (k + 1) / 2 + layout_size(s, k),
    decreases s.len() - k,
{
    lemma_layout_error_scan(s, 0, k);
    if k < s.len() {
        lemma_layout_props(s, k + 1);
        let d = digit_val(s[k]);
        let run = run_blocks(d, k);
        let rest = layout_blocks(s, k + 1);
        assert(is_ascii_digit_char(s[k]));
        lemma_count_val_concat(run, rest, Block::Free);
        if k % 2 == 0 {
            lemma_count_val_constant(d as nat, Block::File { id: (k / 2) as usize }, Block::Free);
            assert(s[k] != '0');
        } else {
            lemma_count_val_constant(d as nat, Block::Free, Block::Free);
        }
    }
}

/// A clean layout is clean from every position.
proof fn lemma_layout_error_scan(s: Seq<char>, m: int, k: int)
    requires
        0 <= m <= k,
        layout_error(s, m) is None,
    ensures
        layout_error(s, k) is None,
    decreases k - m,
{
    if m < k {
        lemma_layout_error_scan(s, m + 1, k);
    }
}

impl Disk {
    /// Reads a disk from its layout digits: file and free run lengths
    /// alternate, starting with a file run, and files are numbered in
    /// order.  A zero-length free run is allowed; a zero-length file run is
    /// not.
    #[verifier::loop_isolation(false)]
    pub fn from_digits(digits: &Vec<char>) -> (r: Result<Disk, DiskFormatError>)
        ensures
            r is Ok <==> layout_error(digits@, 0) is None,
            r matches Err(e) ==> layout_error(digits@, 0) == Some(e),
            r matches Ok(d) ==> d.blocks@ == layout_blocks(digits@, 0) && d.size == layout_size(
                digits@,
                0,
            ) && (digits@.len() > 0 ==> d.wf()),
    {
        let n = digits.len();
        let mut blocks: Vec<Block> = Vec::new();
        let mut size: usize = 0;
        let mut file_id: usize = 0;
        let mut k: usize = 0;
        proof {
            assert(blocks@ + layout_blocks(digits@, 0) =~= layout_blocks(digits@, 0));
        }
        while k < n
            invariant
                k <= n,
                n == digits@.len(),
                layout_error(digits@, k as int) == layout_error(digits@, 0),
                blocks@ + layout_blocks(digits@, k as int) == layout_blocks(digits@, 0),
                size + layout_size(digits@, k as int) == layout_size(digits@, 0),
                size <= blocks@.len(),
                file_id == (k + 1) / 2,
            decreases n - k,
        {
            let c = digits[k];
            if !(c >= '0' && c <= '9') {
                return Err(DiskFormatError::NonDigit);
            }
            let is_file = k % 2 == 0;
            if is_file && c == '0' {
                return Err(DiskFormatError::EmptyFile);
            }
            let d = ((c as u32) - 48) as usize;
            let ghost before = blocks@;
            let block = if is_file {
                Block::File { id: file_id }
            } else {
                Block::Free
            };
            let mut j: usize = 0;
            while j < d
                invariant
                    j <= d,
                    blocks@ =~= before + Seq::new(j as nat, |i: int| block),
                decreases d - j,
            {
                blocks.push(block);
                j += 1;
                proof {
                    assert(blocks@ =~= before + Seq::new(j as nat, |i: int| block));
                }
            }
            proof {
                assert(Seq::new(d as nat, |i: int| block) =~= run_blocks(
                    digit_val(digits@[k as int]),
                    k as int,
                ));
                assert(blocks@ + layout_blocks(digits@, k as int + 1) =~= (before + run_blocks(
                    digit_val(digits@[k as int]),
                    k as int,
                )) + layout_blocks(digits@, k as int + 1));
                assert((before + run_blocks(digit_val(digits@[k as int]), k as int))
                    + layout_blocks(digits@, k as int + 1) =~= before + layout_blocks(
                    digits@,
                    k as int,
                ));
            }
            if is_file {
                let cur_len = blocks.len();
                proof {
                    assert(size + d <= cur_len);
                }
                size += d;
                file_id += 1;
            }
            k += 1;
        }
        let disk = Disk { blocks, size };
        proof {
            assert(disk.blocks@ =~= layout_blocks(digits@, 0));
            lemma_layout_props(digits@, 0);
        }
        Ok(disk)
    }

    /// Moves the rightmost file blocks into the leftmost free slots until
    /// the first `size` blocks are all file blocks, and returns the checksum
    /// of that compacted prefix.  The blocks are only ever swapped: the disk
    /// afterwards holds exactly the same blocks, rearranged.
    #[verifier::loop_isolation(false)]
    pub fn defragment(&mut self) -> (r: Result<usize, DiskError>)
        requires
            old(self).wf(),
            old(self).size * old(self).size * old(self).size <= usize::MAX,
        ensures
            r is Ok,
            final(self).size == old(self).size,
            final(self).blocks@.len() == old(self).blocks@.len(),
            forall|v: Block|
                count_val(final(self).blocks@, 0, final(self).blocks@.len() as int, v) == count_val(
                    old(self).blocks@,
                    0,
                    old(self).blocks@.len() as int,
                    v,
                ),
            forall|j: int| 0 <= j < old(self).size ==> (#[trigger] final(self).blocks@[j]) is File,
            r matches Ok(c) ==> c == prefix_checksum(final(self).blocks@, old(self).size as int),
    {
        let ghost n = self.blocks@.len() as int;
        let ghost size0 = self.size as int;
        let ghost blocks0 = self.blocks@;
        let mut checksum: usize = 0;
        let mut head_index: usize = 0;
        let mut tail_index: usize = self.blocks.len() - 1;
        proof {
            if size0 == 0 {
            } else {
                assert(size0 * size0 * size0 >= size0 * size0) by (nonlinear_arith)
                    requires
                        size0 >= 1,
                ;
            }
        }
        while head_index < self.size
            invariant
                self.size == size0,
                self.blocks@.len() == n,
                head_index <= self.size,
                tail_index < n,
                head_index <= tail_index + 1,
                forall|v: Block| count_val(self.blocks@, 0, n, v) == count_val(blocks0, 0, n, v),
                count_val(self.blocks@, 0, head_index as int, Block::Free) == 0,
                count_val(self.blocks@, tail_index + 1, n, Block::Free) == n - tail_index - 1,
                forall|j: int|
                    0 <= j < n ==> block_id(#[trigger] self.blocks@[j]) < size0,
                checksum == prefix_checksum(self.blocks@, head_index as int),
            decreases self.size - head_index,
        {
            let ghost pre = self.blocks@;
            proof {
                // The file blocks to the left of `head_index` and the free
                // blocks to the right of `tail_index` account for part of
                // the disk; a file block must still stand in between.
                lemma_count_val_split(pre, 0, head_index as int, n, Block::Free);
                lemma_count_val_split(pre, head_index as int, tail_index + 1, n, Block::Free);
                lemma_count_val_le(pre, head_index as int, tail_index + 1, Block::Free);
            }
            let id = match self.blocks[head_index] {
                Block::File { id } => id,
                Block::Free => {
                    // Scan for the rightmost remaining file block.
                    while self.blocks[tail_index] == Block::Free
                        invariant
                            head_index <= tail_index < n,
                            self.blocks@ == pre,
                            count_val(self.blocks@, tail_index + 1, n, Block::Free) == n
                                - tail_index - 1,
                            count_val(
                                self.blocks@,
                                head_index as int,
                                tail_index + 1,
                                Block::Free,
                            ) < tail_index + 1 - head_index,
                        decreases tail_index,
                    {
                        proof {
                            lemma_count_val_le(
                                self.blocks@,
                                head_index as int,
                                tail_index as int,
                                Block::Free,
                            );
                            lemma_count_val_split(
                                self.blocks@,
                                tail_index as int,
                                tail_index as int + 1,
                                n,
                                Block::Free,
                            );
                            assert(count_val(
                                self.blocks@,
                                tail_index as int,
                                tail_index as int,
                                Block::Free,
                            ) == 0);
                            assert(count_val(
                                self.blocks@,
                                tail_index as int,
                                tail_index as int + 1,
                                Block::Free,
                            ) == 1);
                        }
                        tail_index -= 1;
                    }
                    let moved = self.blocks[tail_index];
                    let freed = self.blocks[head_index];
                    self.blocks[head_index] = moved;
                    self.blocks[tail_index] = freed;
                    proof {
                        let mid = pre.update(head_index as int, moved);
                        assert(self.blocks@ == mid.update(tail_index as int, freed));
                        assert forall|v: Block| count_val(self.blocks@, 0, n, v) == count_val(
                            pre,
                            0,
                            n,
                            v,
                        ) by {
                            lemma_count_val_update(pre, head_index as int, moved, 0, n, v);
                            lemma_count_val_update(mid, tail_index as int, freed, 0, n, v);
                        }
                        lemma_count_val_update(
                            pre,
                            head_index as int,
                            moved,
                            0,
                            head_index as int,
                            Block::Free,
                        );
                        lemma_count_val_update(
                            mid,
                            tail_index as int,
                            freed,
                            0,
                            head_index as int,
                            Block::Free,
                        );
                        lemma_count_val_update(
                            pre,
                            head_index as int,
                            moved,
                            tail_index + 1,
                            n,
                            Block::Free,
                        );
                        lemma_count_val_update(
                            mid,
                            tail_index as int,
                            freed,
                            tail_index + 1,
                            n,
                            Block::Free,
                        );
                        lemma_prefix_checksum_congruence(self.blocks@, pre, head_index as int);
                    }
                    match self.blocks[head_index] {
                        Block::File { id } => id,
                        Block::Free => {
                            proof {
                                assert(false);
                            }
                            return Err(DiskError::InvalidBlock);
                        },
                    }
                },
            };
            proof {
                lemma_prefix_checksum_bound(self.blocks@, head_index as int + 1, size0);
                assert((head_index as int + 1) * (head_index as int + 1) * size0 <= size0 * size0
                    * size0) by (nonlinear_arith)
                    requires
                        0 <= head_index as int + 1 <= size0,
                ;
                lemma_count_val_update(
                    self.blocks@,
                    head_index as int,
                    self.blocks@[head_index as int],
                    0,
                    head_index as int + 1,
                    Block::Free,
                );
                assert(self.blocks@.update(head_index as int, self.blocks@[head_index as int])
                    =~= self.blocks@);
            }
            checksum = checksum + head_index * id;
            head_index += 1;
        }
        proof {
            assert forall|j: int| 0 <= j < size0 implies (#[trigger] self.blocks@[j]) is File by {
                lemma_count_val_split(self.blocks@, 0, j, size0, Block::Free);
                lemma_count_val_split(self.blocks@, 0, j + 1, size0, Block::Free);
            }
        }
        Ok(checksum)
    }
}

} // verus!
