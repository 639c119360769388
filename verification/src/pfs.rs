//! Block-addressable partial file over its own backing byte storage.
//! The content region holds `size` bytes in fixed blocks; while the
//! file is partial, a little-endian footer after the content records
//! the logical size and the known-good block ranges. Missing blocks
//! are filled on demand by a pluggable filler; completion truncates
//! the storage to exactly `size` and is one-way.

use vstd::prelude::*;
use crate::bytes::{le64_bytes, le64_val, push_le64, read_le64};
use crate::range::{ranges_cover, ranges_wf, lemma_endpoints_covered, lemma_ranges_span, RangeVec};

verus! {

/// Block size for partial files.
pub const BLOCK_LEN: usize = 4096;

/// A partial-file failure.
#[derive(Clone, Copy, PartialEq, Eq, Structural, Debug)]
pub enum FileError {
    /// The data under the cursor is not valid: a block fill came up
    /// short or the block was already marked invalid.
    InvalidData,
    /// A seek landed outside the representable range.
    InvalidSeek,
    /// A filler could not provide the block at all.
    FillFailed,
}

/// State for the current block, only used in partial mode.
#[derive(Clone, Copy, PartialEq, Eq, Structural, Debug)]
pub enum BlockState {
    /// Unknown state, to check on next data read.
    Unknown,
    /// The current block has been fetched but is invalid.
    Invalid,
    /// The current block is present and serves reads.
    Valid,
}

/// The internal mode of a partial file.
pub enum PartialMode {
    /// The file is partially filled.
    Partial {
        /// Ranges of filled blocks in this partial file.
        blocks: RangeVec,
        /// State of the block under the read cursor.
        block_state: BlockState,
        /// Length of the block under the read cursor.
        block_len: usize,
        /// Index of the block the cache state speaks of.
        block: u64,
    },
    /// The file is fully filled: reads pass straight through.
    Full,
}

impl PartialMode {
    pub fn new_partial(blocks: RangeVec) -> (r: PartialMode)
        ensures
            r is Partial,
            r->Partial_blocks == blocks,
            r->Partial_block_state == BlockState::Unknown,
            r->Partial_block_len == 0usize,
            r->Partial_block == 0u64,
    {
        PartialMode::Partial { blocks, block_state: BlockState::Unknown, block_len: 0, block: 0 }
    }

    pub fn is_partial(&self) -> (r: bool)
        ensures
            r == (*self is Partial),
    {
        matches!(self, PartialMode::Partial { .. })
    }

    pub fn is_full(&self) -> (r: bool)
        ensures
            r == (*self is Full),
    {
        matches!(self, PartialMode::Full)
    }
}

/// A block provider used to complete missing blocks of a partial
/// file. `provide` is handed an empty buffer and must append exactly
/// `block_len` bytes to succeed; appending any other count is a soft
/// failure that marks the block invalid, and an error is passed back
/// to the reader. The file survives any behavior of the filler.
pub trait PartialFiller {
    fn provide(&self, block_index: u64, block_len: usize, dest: &mut Vec<u8>) -> Result<
        (),
        FileError,
    >;
}

/// The placeholder filler: provides zero bytes for every block.
impl PartialFiller for () {
    fn provide(&self, _block_index: u64, block_len: usize, dest: &mut Vec<u8>) -> Result<
        (),
        FileError,
    > {
        let mut k: usize = 0;
        while k < block_len
            invariant
                k <= block_len,
                dest@.len() == old(dest)@.len() + k,
            decreases block_len - k,
        {
            dest.push(0);
            k += 1;
        }
        Ok(())
    }
}

/// Length of the block `block` in a file of `size` bytes: a full
/// block inside the content, the remainder for the last block, zero
/// past the end.
pub open spec fn spec_block_len(size: int, block: int) -> int {
    if block * 4096 < size {
        if size - block * 4096 < 4096 {
            size - block * 4096
        } else {
            4096
        }
    } else {
        0
    }
}

/// The bytes of one `(from, to)` range list, sixteen bytes per entry.
pub open spec fn ranges_bytes(rs: Seq<(i64, i64)>) -> Seq<u8>
    decreases rs.len(),
{
    if rs.len() == 0 {
        Seq::empty()
    } else {
        ranges_bytes(rs.drop_last()) + le64_bytes(rs.last().0 as u64) + le64_bytes(
            rs.last().1 as u64,
        )
    }
}

pub proof fn lemma_ranges_bytes_len(rs: Seq<(i64, i64)>)
    ensures
        ranges_bytes(rs).len() == 16 * rs.len(),
    decreases rs.len(),
{
    if rs.len() > 0 {
        lemma_ranges_bytes_len(rs.drop_last());
    }
}

/// The footer written after the content region, all fields
/// little-endian: the size, the range count, the ranges, and the
/// total footer length (from the size field through itself).
pub open spec fn footer_bytes(size: u64, rs: Seq<(i64, i64)>) -> Seq<u8> {
    le64_bytes(size) + le64_bytes(rs.len() as u64) + ranges_bytes(rs) + le64_bytes(
        (24 + 16 * rs.len()) as u64,
    )
}

/// A partial file, used to store a file block by block.
pub struct PartialFile {
    /// Backing storage: the content region, then the footer while the
    /// file is partial.
    data: Vec<u8>,
    /// Set once the tracker has changed and the footer on storage no
    /// longer matches it.
    dirty: bool,
    /// Real size of this file, partial or not.
    size: u64,
    /// The read cursor.
    cursor: u64,
    /// Internal mode of this file.
    mode: PartialMode,
}

impl PartialFile {
    /// The backing bytes.
    pub closed spec fn storage_view(self) -> Seq<u8> {
        self.data@
    }

    /// The logical file size.
    pub closed spec fn size_spec(self) -> u64 {
        self.size
    }

    /// The read cursor.
    pub closed spec fn cursor_spec(self) -> u64 {
        self.cursor
    }

    /// The footer on storage is stale.
    pub closed spec fn dirty_spec(self) -> bool {
        self.dirty
    }

    pub closed spec fn mode_spec(self) -> PartialMode {
        self.mode
    }

    pub open spec fn is_partial_spec(self) -> bool {
        self.mode_spec() is Partial
    }

    pub open spec fn is_full_spec(self) -> bool {
        self.mode_spec() is Full
    }

    /// The content region: the first `size` bytes of storage.
    pub open spec fn content_view(self) -> Seq<u8> {
        self.storage_view().take(self.size_spec() as int)
    }

    /// The tracker's intervals (empty in full mode).
    pub open spec fn tracker_ranges(self) -> Seq<(i64, i64)> {
        match self.mode_spec() {
            PartialMode::Partial { blocks, .. } => blocks.ranges(),
            PartialMode::Full => Seq::empty(),
        }
    }

    /// A block index the tracker records as known-good.
    pub open spec fn tracker_covers(self, v: int) -> bool {
        ranges_cover(self.tracker_ranges(), v)
    }

    /// The cache state of the block under the cursor.
    pub open spec fn cache_state(self) -> BlockState {
        match self.mode_spec() {
            PartialMode::Partial { block_state, .. } => block_state,
            PartialMode::Full => BlockState::Valid,
        }
    }

    /// Structural invariant. In full mode the storage is exactly the
    /// content. In partial mode the content region fits the storage,
    /// the cursor stays inside the content, the tracker is well-formed
    /// and only records block indices of this file, and a `Valid`
    /// cache state correctly describes the block under the cursor.
    pub open spec fn wf(self) -> bool {
        match self.mode_spec() {
            PartialMode::Full => self.size_spec() == self.storage_view().len(),
            PartialMode::Partial { blocks, block_state, block_len, block } => {
                &&& self.size_spec() <= self.storage_view().len()
                &&& self.cursor_spec() <= self.size_spec()
                &&& blocks.wf()
                &&& forall|v: int|
                    blocks.covers(v) ==> 0 <= v <= self.size_spec() as int / 4096
                &&& (block_state is Valid ==> {
                    &&& block_len == spec_block_len(self.size_spec() as int, block as int)
                    &&& block * 4096 <= self.cursor_spec() <= block * 4096 + block_len
                    &&& block * 4096 + block_len <= self.size_spec()
                })
            },
        }
    }

    #[inline]
    pub fn is_partial(&self) -> (r: bool)
        ensures
            r == self.is_partial_spec(),
    {
        self.mode.is_partial()
    }

    #[inline]
    pub fn is_full(&self) -> (r: bool)
        ensures
            r == self.is_full_spec(),
    {
        self.mode.is_full()
    }

    /// The tracker of filled blocks, while the file is partial.
    #[inline]
    pub fn get_partial_blocks(&self) -> (r: Option<&RangeVec>)
        ensures
            r is Some <==> self.is_partial_spec(),
            r is Some ==> r->0.ranges() == self.tracker_ranges(),
    {
        match self.mode {
            PartialMode::Partial { ref blocks, .. } => Some(blocks),
            _ => None,
        }
    }

    /// The logical size.
    pub fn size(&self) -> (r: u64)
        ensures
            r == self.size_spec(),
    {
        self.size
    }

    /// Whether the footer on storage is stale and should be flushed.
    pub fn is_dirty(&self) -> (r: bool)
        ensures
            r == self.dirty_spec(),
    {
        self.dirty
    }

    /// The backing bytes, for the storage layer to persist.
    pub fn storage(&self) -> (r: &Vec<u8>)
        ensures
            r@ == self.storage_view(),
    {
        &self.data
    }

    /// Consumes the file, handing the backing bytes out.
    pub fn into_storage(self) -> (r: Vec<u8>)
        ensures
            r@ == self.storage_view(),
    {
        self.data
    }

    /// Length of the given block under this file's size.
    pub fn calc_block_len(size: u64, block: u64) -> (r: usize)
        ensures
            r == spec_block_len(size as int, block as int),
    {
        if block <= u64::MAX / 4096 && block * 4096 < size {
            let remaining = size - block * 4096;
            if remaining < 4096 {
                remaining as usize
            } else {
                4096
            }
        } else {
            proof {
                if block as int * 4096 < size as int {
                    assert(block <= u64::MAX / 4096) by (nonlinear_arith)
                        requires
                            block as int * 4096 < size as int,
                            size <= u64::MAX,
                    ;
                }
            }
            0
        }
    }

    /// Index one past the last content block.
    pub fn calc_last_block_index(size: u64) -> (r: u64)
        ensures
            r as int == (size as int + 4095) / 4096,
    {
        size / 4096 + if size % 4096 != 0 {
            1
        } else {
            0
        }
    }

    /// Byte offset of the given block.
    pub fn calc_block_offset(block: u64) -> (r: u64)
        requires
            block * 4096 <= u64::MAX,
        ensures
            r == block * 4096,
    {
        block * 4096
    }

    /// Allocates the backing storage for a new partial file of the
    /// given logical size — all zeroes, no block known-good — and
    /// writes the footer immediately.
    pub fn create(size: u64) -> (r: PartialFile)
        requires
            size + 24 <= usize::MAX,
        ensures
            r.wf(),
            r.is_partial_spec(),
            r.size_spec() == size,
            r.cursor_spec() == 0,
            r.tracker_ranges() == Seq::<(i64, i64)>::empty(),
            r.cache_state() == BlockState::Unknown,
            !r.dirty_spec(),
            r.storage_view() == Seq::new(size as nat, |i: int| 0u8) + footer_bytes(
                size,
                Seq::empty(),
            ),
    {
        let data = vec![0u8; size as usize];
        let blocks = RangeVec::new();
        let mut f = PartialFile {
            data,
            dirty: true,
            size,
            cursor: 0,
            mode: PartialMode::new_partial(blocks),
        };
        proof {
            assert(f.content_view() =~= Seq::new(size as nat, |i: int| 0u8));
        }
        f.flush_partial();
        f
    }

    /// Opens a byte image: reads the trailing footer and, when it is
    /// self-consistent, rebuilds the tracker from its ranges; any
    /// inconsistency is resolved deterministically by treating the
    /// whole image as a full file — never an error.
    pub fn open(data: Vec<u8>) -> (r: PartialFile)
        ensures
            r.wf(),
            r.storage_view() == data@,
            r.cursor_spec() == 0,
            !r.dirty_spec(),
            r.is_partial_spec() == spec_open(data@).0,
            r.size_spec() == spec_open(data@).1,
            r.tracker_ranges() == spec_open(data@).2,
            r.is_partial_spec() ==> r.cache_state() is Unknown,
    {
        let n = data.len();
        if n < 8 {
            return Self::open_full(data);
        }
        let fl64 = read_le64(data.as_slice(), n - 8);
        if fl64 < 24 || fl64 > n as u64 {
            return Self::open_full(data);
        }
        let fl = fl64 as usize;
        let size_v = read_le64(data.as_slice(), n - fl);
        if size_v != (n - fl) as u64 {
            return Self::open_full(data);
        }
        let count64 = read_le64(data.as_slice(), n - fl + 8);
        let body = fl - 24;
        if body % 16 != 0 || count64 != (body / 16) as u64 {
            proof {
                assert(16 * (count64 as int) != fl as int - 24);
            }
            return Self::open_full(data);
        }
        let count = body / 16;
        let base = n - fl + 16;
        let bound = size_v / 4096;
        let ghost bytes = data@;
        let mut pairs: Vec<(i64, i64)> = Vec::new();
        let mut k: usize = 0;
        while k < count
            invariant
                bytes == data@,
                n == bytes.len(),
                24 <= fl <= n,
                base == n - fl + 16,
                16 * count == fl - 24,
                bound == size_v / 4096,
                k <= count,
                fl64 == le64_val(bytes.subrange(n as int - 8, n as int)),
                fl == fl64 as usize,
                size_v == le64_val(
                    bytes.subrange(n as int - fl as int, n as int - fl as int + 8),
                ),
                size_v as int == n as int - fl as int,
                count64 == le64_val(
                    bytes.subrange(n as int - fl as int + 8, n as int - fl as int + 16),
                ),
                count as u64 == count64,
                pairs@ == spec_pairs_as_ranges(spec_parse_pairs(bytes, base as int, k as int)),
                forall|i: int|
                    0 <= i < k ==> (#[trigger] spec_parse_pairs(
                        bytes,
                        base as int,
                        count as int,
                    )[i]).0 <= i64::MAX as u64 && spec_parse_pairs(
                        bytes,
                        base as int,
                        count as int,
                    )[i].1 <= i64::MAX as u64 && spec_parse_pairs(
                        bytes,
                        base as int,
                        count as int,
                    )[i].1 as int <= size_v as int / 4096 + 1,
            decreases count - k,
        {
            let from64 = read_le64(data.as_slice(), base + 16 * k);
            let to64 = read_le64(data.as_slice(), base + 16 * k + 8);
            proof {
                lemma_parse_pairs_prefix(bytes, base as int, k as int + 1, count as int);
                let pk1 = spec_parse_pairs(bytes, base as int, k as int + 1);
                let ps = spec_parse_pairs(bytes, base as int, count as int);
                assert(pk1 == spec_parse_pairs(bytes, base as int, k as int) + seq![
                    (from64, to64),
                ]);
                assert(pk1 == ps.subrange(0, k as int + 1));
                assert(ps.subrange(0, k as int + 1)[k as int] == ps[k as int]);
                assert(ps[k as int] == (from64, to64));
            }
            if from64 > i64::MAX as u64 || to64 > i64::MAX as u64 || to64 > bound + 1 {
                proof {
                    let ps = spec_parse_pairs(bytes, base as int, count as int);
                    assert(ps[k as int] == (from64, to64));
                    assert(!spec_pairs_ok(ps, size_v));
                }
                return Self::open_full(data);
            }
            pairs.push((from64 as i64, to64 as i64));
            proof {
                let ps1 = spec_parse_pairs(bytes, base as int, k as int + 1);
                assert(pairs@ =~= spec_pairs_as_ranges(ps1));
                let ps = spec_parse_pairs(bytes, base as int, count as int);
                assert(ps[k as int] == (from64, to64));
            }
            k += 1;
        }
        proof {
            assert(spec_parse_pairs(bytes, base as int, count as int) == spec_parse_pairs(
                bytes,
                base as int,
                k as int,
            ));
            lemma_parse_pairs_prefix(bytes, base as int, count as int, count as int);
        }
        let ghost ps = spec_parse_pairs(bytes, base as int, count as int);
        match RangeVec::from_raw(pairs) {
            Some(blocks) => {
                proof {
                    assert(spec_pairs_ok(ps, size_v));
                    assert(spec_open(bytes).0 == true && spec_open(bytes).1 == size_v
                        && spec_open(bytes).2 == spec_pairs_as_ranges(ps));
                    assert forall|v: int| blocks.covers(v) implies 0 <= v
                        <= size_v as int / 4096 by {
                        let i = choose|i: int|
                            0 <= i < blocks.ranges().len() && (#[trigger] blocks.ranges()[i]).0
                                <= v < blocks.ranges()[i].1;
                        assert(ps[i] == (ps[i].0, ps[i].1));
                    }
                }
                PartialFile {
                    data,
                    dirty: false,
                    size: size_v,
                    cursor: 0,
                    mode: PartialMode::new_partial(blocks),
                }
            }
            None => {
                proof {
                    assert(!ranges_wf(spec_pairs_as_ranges(ps)));
                    assert(!spec_pairs_ok(ps, size_v));
                }
                Self::open_full(data)
            }
        }
    }

    /// The deterministic fallback of `open`: the whole image is a
    /// full file.
    fn open_full(data: Vec<u8>) -> (r: PartialFile)
        ensures
            r.wf(),
            r.is_full_spec(),
            r.storage_view() == data@,
            r.size_spec() == data@.len(),
            r.cursor_spec() == 0,
            !r.dirty_spec(),
            r.tracker_ranges() == Seq::<(i64, i64)>::empty(),
    {
        let n = data.len();
        PartialFile { data, dirty: false, size: n as u64, cursor: 0, mode: PartialMode::Full }
    }

    /// Rewrites the footer after the content region so that storage
    /// again records the logical size and the tracker's ranges.
    pub fn flush_partial(&mut self)
        requires
            old(self).wf(),
            old(self).is_partial_spec(),
        ensures
            final(self).wf(),
            final(self).is_partial_spec(),
            final(self).size_spec() == old(self).size_spec(),
            final(self).cursor_spec() == old(self).cursor_spec(),
            final(self).mode_spec() == old(self).mode_spec(),
            !final(self).dirty_spec(),
            final(self).storage_view() == old(self).content_view() + footer_bytes(
                old(self).size_spec(),
                old(self).tracker_ranges(),
            ),
    {
        let dlen: usize = self.data.len();
        proof {
            assert(self.size <= dlen as u64);
        }
        self.data.truncate(self.size as usize);
        proof {
            assert(self.data@ =~= old(self).content_view());
        }
        match &self.mode {
            PartialMode::Partial { blocks, .. } => {
                append_footer(&mut self.data, self.size, blocks);
            }
            PartialMode::Full => {}
        }
        self.dirty = false;
    }

    /// Completion: truncates storage to exactly `size` and switches to
    /// full mode permanently. Explicit and caller-driven; one-way.
    pub fn complete_partial(&mut self)
        requires
            old(self).wf(),
        ensures
            final(self).wf(),
            final(self).is_full_spec(),
            final(self).size_spec() == old(self).size_spec(),
            final(self).cursor_spec() == old(self).cursor_spec(),
            final(self).storage_view() == old(self).storage_view().take(
                old(self).size_spec() as int,
            ),
    {
        let dlen: usize = self.data.len();
        proof {
            assert(self.size <= dlen as u64);
        }
        self.mode = PartialMode::Full;
        self.data.truncate(self.size as usize);
        proof {
            assert(self.data@ =~= old(self).storage_view().take(old(self).size_spec() as int));
        }
    }

    /// Reads up to `len` bytes at the cursor. In full mode this is a
    /// plain storage read. In partial mode, when the block under the
    /// cursor is in an unknown state, it is resolved first: a block
    /// the tracker records is served as it stands; otherwise the
    /// filler is asked for exactly the block's length, and only an
    /// exact answer makes the block valid, writes it to storage,
    /// records it in the tracker and marks the footer dirty. Any
    /// short or failed fill marks the block invalid and fails the
    /// read, touching neither storage nor tracker; the block stays
    /// invalid, with no automatic retry, until a seek resets it. A
    /// read never crosses the end of the resolved block.
    pub fn read<F: PartialFiller>(&mut self, filler: &F, len: usize) -> (r: Result<
        Vec<u8>,
        FileError,
    >)
        requires
            old(self).wf(),
        ensures
            final(self).wf(),
            old(self).is_full_spec() ==> r is Ok && read_full_effect(
                *old(self),
                *final(self),
                r->Ok_0@,
                len as int,
            ),
            old(self).is_partial_spec() ==> match r {
                Ok(out) => read_ok_effect(*old(self), *final(self), out@, len as int),
                Err(_) => read_err_effect(*old(self), *final(self)),
            },
            old(self).is_partial_spec() && old(self).cache_state() is Valid ==> r is Ok,
            old(self).is_partial_spec() && old(self).cache_state() is Invalid ==> r == Err::<
                Vec<u8>,
                FileError,
            >(FileError::InvalidData),
            old(self).is_partial_spec() && old(self).cache_state() is Unknown
                && old(self).tracker_covers(old(self).cursor_spec() as int / 4096) ==> r is Ok
                && tracker_same(*old(self), *final(self)) && final(self).storage_view() == old(
                self,
            ).storage_view(),
            old(self).is_partial_spec() && old(self).cache_state() is Unknown && r is Ok
                ==> final(self).tracker_covers(old(self).cursor_spec() as int / 4096),
            old(self).is_partial_spec() && old(self).cache_state() is Unknown && r is Ok ==> r
                ->Ok_0@.len() == served_len(
                old(self).cursor_spec() as int,
                old(self).cursor_spec() as int / 4096,
                spec_block_len(
                    old(self).size_spec() as int,
                    old(self).cursor_spec() as int / 4096,
                ),
                len as int,
            ),
            old(self).is_partial_spec() && old(self).cache_state() is Valid ==> r
                ->Ok_0@.len() == served_len(
                old(self).cursor_spec() as int,
                old(self).mode_spec()->Partial_block as int,
                old(self).mode_spec()->Partial_block_len as int,
                len as int,
            ),
    {
        let dlen: usize = self.data.len();
        if self.mode.is_full() {
            if self.cursor < dlen as u64 {
                let avail = dlen - self.cursor as usize;
                let n: usize = if len < avail {
                    len
                } else {
                    avail
                };
                let out = copy_out(&self.data, self.cursor as usize, n);
                self.cursor = self.cursor + n as u64;
                return Ok(out);
            } else {
                let out: Vec<u8> = Vec::new();
                return Ok(out);
            }
        }
        let st: BlockState = match &self.mode {
            PartialMode::Partial { block_state, .. } => *block_state,
            PartialMode::Full => BlockState::Valid,
        };
        if matches!(st, BlockState::Invalid) {
            return Err(FileError::InvalidData);
        }
        if matches!(st, BlockState::Unknown) {
            match self.resolve_block(filler) {
                Ok(()) => {}
                Err(e) => {
                    return Err(e);
                }
            }
        }
        // The cache state is now `Valid`: serve bytes up to the end of
        // the resolved block.
        let (blk, bl) = match &self.mode {
            PartialMode::Partial { block, block_len, .. } => (*block, *block_len),
            PartialMode::Full => (0, 0),
        };
        let end: u64 = blk * 4096 + bl as u64;
        let avail: u64 = end - self.cursor;
        let n: usize = if (len as u64) < avail {
            len
        } else {
            avail as usize
        };
        let out = copy_out(&self.data, self.cursor as usize, n);
        self.cursor = self.cursor + n as u64;
        Ok(out)
    }

    /// Resolves an unknown block under the cursor: a tracked block is
    /// served as it stands; otherwise the filler is asked, and only an
    /// answer of exactly the block's length makes the block valid.
    fn resolve_block<F: PartialFiller>(&mut self, filler: &F) -> (r: Result<(), FileError>)
        requires
            old(self).wf(),
            old(self).is_partial_spec(),
            old(self).cache_state() is Unknown,
        ensures
            final(self).wf(),
            final(self).is_partial_spec(),
            final(self).size_spec() == old(self).size_spec(),
            final(self).cursor_spec() == old(self).cursor_spec(),
            final(self).storage_view().len() == old(self).storage_view().len(),
            ({
                let blk = old(self).cursor_spec() as int / 4096;
                let bl = spec_block_len(old(self).size_spec() as int, blk);
                &&& forall|j: int|
                    0 <= j < final(self).storage_view().len() && !(blk * 4096 <= j < blk * 4096
                        + bl) ==> final(self).storage_view()[j] == old(self).storage_view()[j]
                &&& (r is Ok ==> final(self).cache_state() is Valid
                    && final(self).mode_spec()->Partial_block == blk
                    && final(self).mode_spec()->Partial_block_len == bl
                    && final(self).tracker_covers(blk)
                    && (tracker_same(*old(self), *final(self))
                        || tracker_gained(*old(self), *final(self), blk)))
                &&& (r is Err ==> final(self).storage_view() == old(self).storage_view()
                    && tracker_same(*old(self), *final(self)) && final(self).cache_state()
                    is Invalid)
                &&& (old(self).tracker_covers(blk) ==> r is Ok && tracker_same(
                    *old(self),
                    *final(self),
                ) && final(self).storage_view() == old(self).storage_view())
            }),
    {
        let size = self.size;
        let cursor = self.cursor;
        let dlen: usize = self.data.len();
        let blk = cursor / 4096;
        proof {
            assert(cursor as int / 4096 <= u64::MAX as int / 4096) by {
                vstd::arithmetic::div_mod::lemma_div_is_ordered(
                    cursor as int,
                    u64::MAX as int,
                    4096,
                );
            }
        }
        let bl = Self::calc_block_len(size, blk);
        let covered = match &self.mode {
            PartialMode::Partial { blocks, .. } => blocks.contains(blk as i64),
            PartialMode::Full => true,
        };
        proof {
            vstd::arithmetic::div_mod::lemma_fundamental_div_mod(cursor as int, 4096);
            vstd::arithmetic::div_mod::lemma_div_is_ordered(cursor as int, size as int, 4096);
        }
        if covered {
            match &mut self.mode {
                PartialMode::Partial { block_state, block_len, block, .. } => {
                    *block = blk;
                    *block_len = bl;
                    *block_state = BlockState::Valid;
                }
                PartialMode::Full => {}
            }
            proof {
                assert(tracker_same(*old(self), *self));
            }
            return Ok(());
        }
        let mut buf: Vec<u8> = Vec::new();
        match filler.provide(blk, bl, &mut buf) {
            Err(e) => {
                match &mut self.mode {
                    PartialMode::Partial { block_state, block_len, block, .. } => {
                        *block = blk;
                        *block_len = bl;
                        *block_state = BlockState::Invalid;
                    }
                    PartialMode::Full => {}
                }
                proof {
                    assert(tracker_same(*old(self), *self));
                }
                Err(e)
            }
            Ok(()) => {
                if buf.len() != bl {
                    match &mut self.mode {
                        PartialMode::Partial { block_state, block_len, block, .. } => {
                            *block = blk;
                            *block_len = bl;
                            *block_state = BlockState::Invalid;
                        }
                        PartialMode::Full => {}
                    }
                    proof {
                        assert(tracker_same(*old(self), *self));
                    }
                    return Err(FileError::InvalidData);
                }
                let off: usize = (blk * 4096) as usize;
                write_block(&mut self.data, off, &buf);
                self.dirty = true;
                match &mut self.mode {
                    PartialMode::Partial { blocks, block_state, block_len, block } => {
                        *block = blk;
                        *block_len = bl;
                        *block_state = BlockState::Valid;
                        blocks.push(blk as i64, blk as i64 + 1);
                    }
                    PartialMode::Full => {}
                }
                proof {
                    let pre = *old(self);
                    let b0 = pre.cursor_spec() as int / 4096;
                    let bpre = pre.mode_spec()->Partial_blocks;
                    let bpost = self.mode_spec()->Partial_blocks;
                    assert(tracker_gained(pre, *self, b0)) by {
                        assert(crate::range::push_covers(bpre, bpost, blk as i64, (blk as i64 + 1) as i64));
                        assert forall|v: int|
                            self.tracker_covers(v) <==> pre.tracker_covers(v) || v == b0 by {
                            assert(bpost.covers(v) <==> bpre.covers(v) || (blk as i64) as int
                                <= v < (blk as i64 + 1) as int);
                            assert(self.tracker_covers(v) == bpost.covers(v));
                            assert(pre.tracker_covers(v) == bpre.covers(v));
                            assert(b0 == blk as int);
                        }
                    }
                }
                Ok(())
            }
        }
    }

    /// Moves the read cursor. In partial mode the target is clamped
    /// into the content region and the block cache state resets to
    /// `Unknown`; in full mode the position passes through unclamped,
    /// rejecting only targets outside the representable range.
    pub fn seek(&mut self, pos: SeekFrom) -> (r: Result<u64, FileError>)
        requires
            old(self).wf(),
        ensures
            final(self).wf(),
            final(self).storage_view() == old(self).storage_view(),
            final(self).size_spec() == old(self).size_spec(),
            final(self).tracker_ranges() == old(self).tracker_ranges(),
            final(self).dirty_spec() == old(self).dirty_spec(),
            final(self).is_partial_spec() == old(self).is_partial_spec(),
            old(self).is_partial_spec() ==> {
                let raw = seek_raw(pos, old(self).cursor_spec() as int, old(self).size_spec() as int);
                let target = if raw < 0 {
                    0
                } else if raw > old(self).size_spec() as int {
                    old(self).size_spec() as int
                } else {
                    raw
                };
                &&& final(self).cursor_spec() == target
                &&& final(self).cache_state() == BlockState::Unknown
                &&& r == Ok::<u64, FileError>(target as u64)
            },
            old(self).is_full_spec() ==> {
                let raw = seek_raw(pos, old(self).cursor_spec() as int, old(self).size_spec() as int);
                &&& (0 <= raw <= u64::MAX ==> final(self).cursor_spec() == raw && r == Ok::<
                    u64,
                    FileError,
                >(raw as u64))
                &&& (!(0 <= raw <= u64::MAX) ==> final(self).cursor_spec() == old(
                    self,
                ).cursor_spec() && r == Err::<u64, FileError>(FileError::InvalidSeek))
            },
    {
        let raw: i128 = match pos {
            SeekFrom::Start(p) => p as i128,
            SeekFrom::End(d) => self.size as i128 + d as i128,
            SeekFrom::Current(d) => self.cursor as i128 + d as i128,
        };
        let size = self.size;
        match &mut self.mode {
            PartialMode::Partial { block_state, .. } => {
                let target: u64 = if raw < 0 {
                    0
                } else if raw > size as i128 {
                    size
                } else {
                    raw as u64
                };
                *block_state = BlockState::Unknown;
                self.cursor = target;
                Ok(target)
            }
            PartialMode::Full => {
                if raw < 0 || raw > u64::MAX as i128 {
                    Err(FileError::InvalidSeek)
                } else {
                    self.cursor = raw as u64;
                    Ok(self.cursor)
                }
            }
        }
    }
}

/// The raw `(from, to)` pairs of a footer, sixteen bytes each,
/// starting at `off`.
pub open spec fn spec_parse_pairs(bytes: Seq<u8>, off: int, k: int) -> Seq<(u64, u64)>
    decreases k,
{
    if k <= 0 {
        Seq::empty()
    } else {
        spec_parse_pairs(bytes, off, k - 1) + seq![
            (
                le64_val(bytes.subrange(off + 16 * (k - 1), off + 16 * (k - 1) + 8)),
                le64_val(bytes.subrange(off + 16 * (k - 1) + 8, off + 16 * (k - 1) + 16)),
            ),
        ]
    }
}

/// Parsing more pairs only appends: the first `k` of `m` pairs are
/// the same pairs the shorter parse yields.
pub proof fn lemma_parse_pairs_prefix(bytes: Seq<u8>, off: int, k: int, m: int)
    requires
        0 <= k <= m,
    ensures
        spec_parse_pairs(bytes, off, m).len() == m,
        spec_parse_pairs(bytes, off, k) == spec_parse_pairs(bytes, off, m).subrange(0, k),
    decreases m,
{
    if m == 0 {
        assert(spec_parse_pairs(bytes, off, k) =~= spec_parse_pairs(bytes, off, m).subrange(
            0,
            k,
        ));
    } else if k == m {
        lemma_parse_pairs_prefix(bytes, off, k - 1, m - 1);
        assert(spec_parse_pairs(bytes, off, k) =~= spec_parse_pairs(bytes, off, m).subrange(
            0,
            k,
        ));
    } else {
        lemma_parse_pairs_prefix(bytes, off, k, m - 1);
        assert(spec_parse_pairs(bytes, off, k) =~= spec_parse_pairs(bytes, off, m).subrange(
            0,
            k,
        ));
    }
}

/// The raw pairs as tracker intervals.
pub open spec fn spec_pairs_as_ranges(ps: Seq<(u64, u64)>) -> Seq<(i64, i64)> {
    Seq::new(ps.len(), |i: int| (ps[i].0 as i64, ps[i].1 as i64))
}

/// The raw pairs are acceptable for a file of this size: every bound
/// fits the tracker's domain, no pair reaches past the last block,
/// and together they already form a well-formed interval list.
pub open spec fn spec_pairs_ok(ps: Seq<(u64, u64)>, size: u64) -> bool {
    &&& forall|i: int|
        0 <= i < ps.len() ==> (#[trigger] ps[i]).0 <= i64::MAX as u64 && ps[i].1
            <= i64::MAX as u64 && ps[i].1 as int <= size as int / 4096 + 1
    &&& ranges_wf(spec_pairs_as_ranges(ps))
}

/// What opening a byte image yields: whether the image is a partial
/// file, its logical size, and its tracker intervals. The image is
/// partial exactly when the trailing footer length points at a size
/// field that closes the arithmetic `size + footer_length == length`,
/// the declared range-byte length matches the remaining footer bytes,
/// and the ranges themselves are acceptable; any other image is a
/// full file of its whole length. Deterministic, never an error.
pub open spec fn spec_open(bytes: Seq<u8>) -> (bool, u64, Seq<(i64, i64)>) {
    let full = (false, bytes.len() as u64, Seq::<(i64, i64)>::empty());
    let n = bytes.len() as int;
    if n < 8 {
        full
    } else {
        let fl = le64_val(bytes.subrange(n - 8, n)) as int;
        if fl < 24 || fl > n {
            full
        } else {
            let size_v = le64_val(bytes.subrange(n - fl, n - fl + 8));
            if size_v as int != n - fl {
                full
            } else {
                let count = le64_val(bytes.subrange(n - fl + 8, n - fl + 16)) as int;
                if 16 * count != fl - 24 {
                    full
                } else {
                    let ps = spec_parse_pairs(bytes, n - fl + 16, count);
                    if spec_pairs_ok(ps, size_v) {
                        (true, size_v, spec_pairs_as_ranges(ps))
                    } else {
                        full
                    }
                }
            }
        }
    }
}

/// Bytes laid down by `ranges_bytes` parse back to the same pairs.
proof fn lemma_parse_ranges_bytes(bytes: Seq<u8>, off: int, rs: Seq<(i64, i64)>)
    requires
        0 <= off,
        off + 16 * rs.len() <= bytes.len(),
        bytes.subrange(off, off + 16 * rs.len()) == ranges_bytes(rs),
        forall|i: int| 0 <= i < rs.len() ==> 0 <= (#[trigger] rs[i]).0 && 0 <= rs[i].1,
    ensures
        spec_parse_pairs(bytes, off, rs.len() as int) == Seq::new(
            rs.len(),
            |i: int| (rs[i].0 as u64, rs[i].1 as u64),
        ),
    decreases rs.len(),
{
    lemma_ranges_bytes_len(rs);
    if rs.len() == 0 {
        assert(spec_parse_pairs(bytes, off, 0) =~= Seq::new(
            rs.len(),
            |i: int| (rs[i].0 as u64, rs[i].1 as u64),
        ));
    } else {
        let m = rs.len() - 1;
        let rest = rs.drop_last();
        lemma_ranges_bytes_len(rest);
        assert(bytes.subrange(off, off + 16 * m) =~= ranges_bytes(rest)) by {
            assert forall|j: int| 0 <= j < 16 * m implies bytes.subrange(off, off + 16 * m)[j]
                == ranges_bytes(rest)[j] by {
                assert(bytes.subrange(off, off + 16 * rs.len())[j] == ranges_bytes(rs)[j]);
                assert(ranges_bytes(rs)[j] == ranges_bytes(rest)[j]);
            }
        }
        lemma_parse_ranges_bytes(bytes, off, rest);
        let last = rs.last();
        assert(bytes.subrange(off + 16 * m, off + 16 * m + 8) =~= le64_bytes(last.0 as u64)) by {
            assert forall|j: int| 0 <= j < 8 implies bytes.subrange(
                off + 16 * m,
                off + 16 * m + 8,
            )[j] == (#[trigger] le64_bytes(last.0 as u64)[j]) by {
                assert(bytes.subrange(off, off + 16 * rs.len())[16 * m + j] == ranges_bytes(
                    rs,
                )[16 * m + j]);
            }
        }
        assert(bytes.subrange(off + 16 * m + 8, off + 16 * m + 16) =~= le64_bytes(
            last.1 as u64,
        )) by {
            assert forall|j: int| 0 <= j < 8 implies bytes.subrange(
                off + 16 * m + 8,
                off + 16 * m + 16,
            )[j] == (#[trigger] le64_bytes(last.1 as u64)[j]) by {
                assert(bytes.subrange(off, off + 16 * rs.len())[16 * m + 8 + j] == ranges_bytes(
                    rs,
                )[16 * m + 8 + j]);
            }
        }
        crate::bytes::lemma_le64_round_trip(last.0 as u64);
        crate::bytes::lemma_le64_round_trip(last.1 as u64);
        assert(spec_parse_pairs(bytes, off, rs.len() as int) =~= Seq::new(
            rs.len(),
            |i: int| (rs[i].0 as u64, rs[i].1 as u64),
        ));
    }
}

/// The footer format round-trips: a content region of the declared
/// size followed by the footer for a well-formed tracker opens as a
/// partial file with exactly that size and those ranges.
pub proof fn lemma_footer_round_trip(content: Seq<u8>, size: u64, rs: Seq<(i64, i64)>)
    requires
        content.len() == size,
        ranges_wf(rs),
        forall|i: int|
            0 <= i < rs.len() ==> 0 <= (#[trigger] rs[i]).0 && rs[i].1 as int <= size as int
                / 4096 + 1,
        size + 24 + 16 * rs.len() <= u64::MAX,
    ensures
        spec_open(content + footer_bytes(size, rs)) == (true, size, rs),
{
    let fb = footer_bytes(size, rs);
    let bytes = content + fb;
    lemma_ranges_bytes_len(rs);
    let flv = (24 + 16 * rs.len()) as u64;
    let n = bytes.len() as int;
    assert(fb.len() == 24 + 16 * rs.len());
    assert(n == size + 24 + 16 * rs.len());
    // the trailing footer length field
    assert(bytes.subrange(n - 8, n) =~= le64_bytes(flv));
    crate::bytes::lemma_le64_round_trip(flv);
    let fl = flv as int;
    assert(le64_val(bytes.subrange(n - 8, n)) as int == fl);
    assert(24 <= fl <= n);
    // the size field
    assert(bytes.subrange(n - fl, n - fl + 8) =~= le64_bytes(size));
    crate::bytes::lemma_le64_round_trip(size);
    assert(le64_val(bytes.subrange(n - fl, n - fl + 8)) == size);
    assert(size as int == n - fl);
    // the count field
    assert(bytes.subrange(n - fl + 8, n - fl + 16) =~= le64_bytes(rs.len() as u64));
    crate::bytes::lemma_le64_round_trip(rs.len() as u64);
    let count = le64_val(bytes.subrange(n - fl + 8, n - fl + 16)) as int;
    assert(count == rs.len());
    assert(16 * count == fl - 24);
    // the range pairs
    assert forall|i: int| 0 <= i < rs.len() implies 0 <= (#[trigger] rs[i]).0
        && 0 <= rs[i].1 by {
        assert(rs[i].0 < rs[i].1);
    }
    let base = n - fl + 16;
    assert(bytes.subrange(base, base + 16 * rs.len()) =~= ranges_bytes(rs));
    lemma_parse_ranges_bytes(bytes, base, rs);
    let ps = spec_parse_pairs(bytes, base, count);
    assert(ps == Seq::new(rs.len(), |i: int| (rs[i].0 as u64, rs[i].1 as u64)));
    assert(spec_pairs_as_ranges(ps) =~= rs);
    assert(spec_pairs_ok(ps, size)) by {
        assert forall|i: int| 0 <= i < ps.len() implies (#[trigger] ps[i]).0 <= i64::MAX as u64
            && ps[i].1 <= i64::MAX as u64 && ps[i].1 as int <= size as int / 4096 + 1 by {
            assert(ps[i] == (rs[i].0 as u64, rs[i].1 as u64));
            assert(0 <= rs[i].0 && 0 <= rs[i].1);
        }
    }
    assert(spec_open(bytes).0 == true && spec_open(bytes).1 == size && spec_open(bytes).2 == rs);
}

/// A freshly flushed partial file reopens as itself: storage that is
/// the content region followed by the footer for the file's own size
/// and tracker parses back to partial with that same size and those
/// same ranges. Together with `flush_partial`'s contract this is the
/// create/flush-then-open round trip.
#[verifier::spinoff_prover]
#[verifier::rlimit(60)]
pub proof fn lemma_flushed_storage_reopens(f: PartialFile)
    requires
        f.wf(),
        f.is_partial_spec(),
        f.storage_view() == f.content_view() + footer_bytes(f.size_spec(), f.tracker_ranges()),
        f.size_spec() + 24 + 16 * f.tracker_ranges().len() <= u64::MAX,
    ensures
        spec_open(f.storage_view()) == (true, f.size_spec(), f.tracker_ranges()),
{
    let rs = f.tracker_ranges();
    let size = f.size_spec();
    let blocks = f.mode_spec()->Partial_blocks;
    assert(rs == blocks.ranges());
    assert(f.content_view().len() == size);
    assert forall|i: int| 0 <= i < rs.len() implies 0 <= (#[trigger] rs[i]).0 && rs[i].1 as int
        <= size as int / 4096 + 1 by {
        lemma_endpoints_covered(rs, i);
        assert(blocks.covers(rs[i].0 as int) && blocks.covers(rs[i].1 - 1));
    }
    lemma_footer_round_trip(f.content_view(), size, rs);
}

/// How many bytes a partial-mode read hands out: the caller's wish,
/// capped by what is left of the resolved block before the cursor
/// reaches its end.
pub open spec fn served_len(cursor: int, block: int, block_len: int, len: int) -> int {
    let end = block * 4096 + block_len;
    let avail = if cursor < end {
        end - cursor
    } else {
        0
    };
    if len < avail {
        len
    } else {
        avail
    }
}

/// The tracker covers the same block indices before and after.
pub open spec fn tracker_same(pre: PartialFile, post: PartialFile) -> bool {
    forall|v: int| post.tracker_covers(v) <==> pre.tracker_covers(v)
}

/// The tracker gained exactly the block `blk`.
pub open spec fn tracker_gained(pre: PartialFile, post: PartialFile, blk: int) -> bool {
    forall|v: int| post.tracker_covers(v) <==> pre.tracker_covers(v) || v == blk
}

/// A successful partial-mode read: at most `len` bytes come straight
/// out of storage at the old cursor, the cursor advances past them,
/// only the block under the old cursor can have been (re)written, and
/// the tracker either stands as it was or gained exactly that block.
pub open spec fn read_ok_effect(pre: PartialFile, post: PartialFile, out: Seq<u8>, len: int) -> bool {
    let blk = pre.cursor_spec() as int / 4096;
    let bl = spec_block_len(pre.size_spec() as int, blk);
    &&& post.size_spec() == pre.size_spec()
    &&& post.is_partial_spec()
    &&& post.storage_view().len() == pre.storage_view().len()
    &&& forall|j: int|
        0 <= j < post.storage_view().len() && !(blk * 4096 <= j < blk * 4096 + bl)
            ==> post.storage_view()[j] == pre.storage_view()[j]
    &&& out.len() <= len
    &&& out == post.storage_view().subrange(
        pre.cursor_spec() as int,
        pre.cursor_spec() + out.len(),
    )
    &&& post.cursor_spec() == pre.cursor_spec() + out.len()
    &&& post.cursor_spec() <= post.size_spec()
    &&& (tracker_same(pre, post) || tracker_gained(pre, post, blk))
}

/// A failed partial-mode read: nothing observable moved — storage,
/// cursor and tracker stand exactly as before — and the block under
/// the cursor is marked invalid until a seek resets it.
pub open spec fn read_err_effect(pre: PartialFile, post: PartialFile) -> bool {
    &&& post.storage_view() == pre.storage_view()
    &&& post.cursor_spec() == pre.cursor_spec()
    &&& post.size_spec() == pre.size_spec()
    &&& post.is_partial_spec() == pre.is_partial_spec()
    &&& tracker_same(pre, post)
    &&& post.cache_state() == BlockState::Invalid
}

/// A full-mode read: a plain read from storage at the cursor, capped
/// by the end of storage; no filler is consulted, nothing else moves.
pub open spec fn read_full_effect(pre: PartialFile, post: PartialFile, out: Seq<u8>, len: int) -> bool {
    let avail = if (pre.cursor_spec() as int) < pre.storage_view().len() {
        pre.storage_view().len() - pre.cursor_spec() as int
    } else {
        0
    };
    let n = if len < avail {
        len
    } else {
        avail
    };
    &&& post.storage_view() == pre.storage_view()
    &&& post.size_spec() == pre.size_spec()
    &&& post.is_full_spec()
    &&& (avail > 0 ==> out == pre.storage_view().subrange(
        pre.cursor_spec() as int,
        pre.cursor_spec() as int + n,
    ))
    &&& out.len() == n
    &&& post.cursor_spec() == pre.cursor_spec() + n
}

/// Where a seek points before clamping, relative to the cursor and
/// the logical size.
pub open spec fn seek_raw(pos: SeekFrom, cursor: int, size: int) -> int {
    match pos {
        SeekFrom::Start(p) => p as int,
        SeekFrom::End(d) => size + d,
        SeekFrom::Current(d) => cursor + d,
    }
}

/// A seek target, as the standard library states it.
#[derive(Clone, Copy, PartialEq, Eq, Structural, Debug)]
pub enum SeekFrom {
    /// An absolute offset.
    Start(u64),
    /// Relative to the end of the content region.
    End(i64),
    /// Relative to the current cursor.
    Current(i64),
}

/// Overwrites `data[off..off + buf.len())` with `buf`.
fn write_block(data: &mut Vec<u8>, off: usize, buf: &Vec<u8>)
    requires
        off + buf@.len() <= old(data)@.len(),
    ensures
        final(data)@.len() == old(data)@.len(),
        forall|j: int|
            0 <= j < old(data)@.len() && !(off <= j < off + buf@.len())
                ==> final(data)@[j] == old(data)@[j],
        forall|j: int| 0 <= j < buf@.len() ==> final(data)@[off + j] == buf@[j],
{
    let n = buf.len();
    let dl: usize = data.len();
    let mut k: usize = 0;
    while k < n
        invariant
            n == buf@.len(),
            off + n <= dl,
            dl == data@.len(),
            data@.len() == old(data)@.len(),
            k <= n,
            forall|j: int|
                0 <= j < data@.len() && !(off <= j < off + k) ==> data@[j] == old(data)@[j],
            forall|j: int| 0 <= j < k ==> data@[off + j] == buf@[j],
        decreases n - k,
    {
        data.set(off + k, buf[k]);
        k += 1;
    }
}

/// Copies `data[off..off + n)` out into a fresh vector.
fn copy_out(data: &Vec<u8>, off: usize, n: usize) -> (r: Vec<u8>)
    requires
        off + n <= data@.len(),
    ensures
        r@ == data@.subrange(off as int, off as int + n),
{
    let dl: usize = data.len();
    let mut r: Vec<u8> = Vec::new();
    let mut k: usize = 0;
    while k < n
        invariant
            off + n <= dl,
            dl == data@.len(),
            k <= n,
            r@.len() == k,
            forall|j: int| 0 <= j < k ==> r@[j] == data@[off + j],
        decreases n - k,
    {
        r.push(data[off + k]);
        k += 1;
    }
    proof {
        assert(r@ =~= data@.subrange(off as int, off as int + n));
    }
    r
}

/// Appends the footer for the given size and tracker.
fn append_footer(data: &mut Vec<u8>, size: u64, blocks: &RangeVec)
    requires
        blocks.wf(),
        forall|v: int| blocks.covers(v) ==> 0 <= v <= size as int / 4096,
    ensures
        final(data)@ == old(data)@ + footer_bytes(size, blocks.ranges()),
{
    let count = blocks.len();
    proof {
        assert forall|v: int| ranges_cover(blocks.ranges(), v) implies 0 <= v <= size as int
            / 4096 by {
            assert(blocks.covers(v) == ranges_cover(blocks.ranges(), v));
        }
        lemma_tracker_count_bound(blocks.ranges(), size as int / 4096);
    }
    push_le64(data, size);
    push_le64(data, count as u64);
    let ghost mid = old(data)@ + le64_bytes(size) + le64_bytes(count as u64);
    let mut k: usize = 0;
    while k < count
        invariant
            blocks.wf(),
            forall|v: int| blocks.covers(v) ==> 0 <= v <= size as int / 4096,
            count == blocks.ranges().len(),
            k <= count,
            data@ == mid + ranges_bytes(blocks.ranges().take(k as int)),
        decreases count - k,
    {
        let (f, t) = blocks.get_pair(k);
        proof {
            lemma_endpoints_covered(blocks.ranges(), k as int);
        }
        push_le64(data, f as u64);
        push_le64(data, t as u64);
        proof {
            let taken = blocks.ranges().take(k + 1);
            assert(taken.drop_last() =~= blocks.ranges().take(k as int));
            assert(taken.last() == blocks.ranges()[k as int]);
            assert(data@ =~= mid + ranges_bytes(taken));
        }
        k += 1;
    }
    proof {
        assert(blocks.ranges().take(count as int) =~= blocks.ranges());
    }
    let footer_len: u64 = 24 + 16 * (count as u64);
    push_le64(data, footer_len);
    proof {
        assert(data@ =~= old(data)@ + footer_bytes(size, blocks.ranges()));
    }
}

/// A tracker whose covered points all lie in `[0, bound]` cannot hold
/// more than about half that many intervals, so the footer length
/// arithmetic never overflows.
proof fn lemma_tracker_count_bound(rs: Seq<(i64, i64)>, bound: int)
    requires
        ranges_wf(rs),
        forall|v: int| ranges_cover(rs, v) ==> 0 <= v <= bound,
        0 <= bound,
    ensures
        2 * rs.len() <= bound + 2,
{
    if rs.len() > 0 {
        lemma_ranges_span(rs);
        lemma_endpoints_covered(rs, 0);
        lemma_endpoints_covered(rs, rs.len() - 1);
        assert(rs[0].0 >= 0);
        assert(rs[rs.len() - 1].1 - 1 <= bound);
    }
}

} // verus!
