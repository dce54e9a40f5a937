//! References to merged rows, and the spool that keeps them out of memory.
use crate::bytes::from_le32;
use crate::bytes::from_le64;
use crate::bytes::le32;
use crate::bytes::le32_bytes;
use crate::bytes::le64;
use crate::bytes::le64_bytes;
use crate::bytes::lemma_le32;
use crate::bytes::lemma_le64;
use crate::bytes::read_le32;
use crate::bytes::read_le64;
use crate::error::refusal;
use crate::error::Error;
use crate::error::ErrorView;
use crate::text::decimal;
use crate::text::decimal_digits;
use vstd::array::array_as_slice;
use vstd::prelude::*;
use vstd::slice::slice_subrange;
use vstd::string::StringExecFns;

verus! {

/// Bytes of one encoded row reference.
pub const COMPACTION_ROW_REF_ENCODED_LEN: usize = 16;

/// Buffered bytes at which the spool hands out a write.
pub const COMPACTION_SPOOL_APPEND_BYTES: usize = 65_536;

/// Rows that one spool read brings in.
pub const ROW_GROUP_SIZE: usize = 65_536;

/// Where the surviving copy of a merged row lives.
#[derive(Clone, Copy, Debug, PartialEq, Eq, Structural)]
pub struct CompactionRowRef {
    pub row_id: i64,
    pub volume: u32,
    pub row: u32,
}

pub open spec fn encoded_row_ref(r: CompactionRowRef) -> Seq<u8> {
    le64(r.row_id as u64) + le32(r.volume) + le32(
        r.row,
    )
}

pub open spec fn decoded_row_ref(bytes: Seq<u8>) -> CompactionRowRef {
    CompactionRowRef {
        row_id: from_le64(bytes.subrange(0, 8)) as i64,
        volume: from_le32(bytes.subrange(8, 12)),
        row: from_le32(bytes.subrange(12, 16)),
    }
}

/// Decoding gives back what was encoded, in exactly sixteen bytes.
pub proof fn law_row_ref_round_trip(r: CompactionRowRef)
    ensures
        encoded_row_ref(r).len() == COMPACTION_ROW_REF_ENCODED_LEN,
        decoded_row_ref(encoded_row_ref(r)) == r,
{
    lemma_le64();
    lemma_le32();
    let bytes = encoded_row_ref(r);
    assert(bytes.subrange(0, 8) =~= le64(r.row_id as u64));
    assert(bytes.subrange(8, 12) =~= le32(r.volume));
    assert(bytes.subrange(12, 16) =~= le32(r.row));
    let x = r.row_id;
    assert((x as u64) as i64 == x) by (bit_vector);
}

/// Encoding gives back the sixteen bytes that were decoded.
pub proof fn law_row_ref_bytes_round_trip(bytes: Seq<u8>)
    requires
        bytes.len() == COMPACTION_ROW_REF_ENCODED_LEN,
    ensures
        encoded_row_ref(decoded_row_ref(bytes)) == bytes,
{
    lemma_le64();
    lemma_le32();
    let x = from_le64(bytes.subrange(0, 8));
    assert((x as i64) as u64 == x) by (bit_vector);
    assert(bytes =~= bytes.subrange(0, 8) + bytes.subrange(8, 12) + bytes.subrange(12, 16));
}

/// Refusal of a position that does not fit an encoded reference.
pub open spec fn unencodable_error(vol_idx: int, row_idx: int) -> ErrorView {
    if vol_idx > u32::MAX {
        ErrorView::Internal(
            "compaction volume index "@ + decimal_digits(vol_idx as nat)
                + " exceeds artifact-backed metadata limit "@ + decimal_digits(u32::MAX as nat),
        )
    } else {
        ErrorView::Internal(
            "compaction row index "@ + decimal_digits(row_idx as nat)
                + " exceeds artifact-backed metadata limit "@ + decimal_digits(u32::MAX as nat),
        )
    }
}

impl CompactionRowRef {
    /// Fails where an index does not fit the encoded reference.
    pub fn new(row_id: i64, vol_idx: usize, row_idx: usize) -> (r: Result<Self, Error>)
        ensures
            match r {
                Ok(x) => x == (CompactionRowRef {
                    row_id,
                    volume: vol_idx as u32,
                    row: row_idx as u32,
                }),
                Err(e) => e@ == unencodable_error(vol_idx as int, row_idx as int),
            },
            r is Ok <==> vol_idx <= u32::MAX && row_idx <= u32::MAX,
    {
        let limit: u64 = u32::MAX as u64;
        if vol_idx as u64 > limit {
            let message: String = String::from_str("compaction volume index ").concat(
                decimal(vol_idx as u64).as_str(),
            ).concat(" exceeds artifact-backed metadata limit ").concat(decimal(limit).as_str());
            return Err(Error::Internal { message });
        }
        if row_idx as u64 > limit {
            let message: String = String::from_str("compaction row index ").concat(
                decimal(row_idx as u64).as_str(),
            ).concat(" exceeds artifact-backed metadata limit ").concat(decimal(limit).as_str());
            return Err(Error::Internal { message });
        }
        Ok(CompactionRowRef { row_id, volume: vol_idx as u32, row: row_idx as u32 })
    }

    pub fn vol_idx(&self) -> (r: usize)
        ensures
            r == self.volume,
    {
        self.volume as usize
    }

    pub fn row_idx(&self) -> (r: usize)
        ensures
            r == self.row,
    {
        self.row as usize
    }

    /// Little-endian row identity, volume and row, in that order.
    pub fn encode(self) -> (out: [u8; 16])
        ensures
            out@ == encoded_row_ref(self),
    {
        let id: Vec<u8> = le64_bytes(self.row_id as u64);
        let volume: Vec<u8> = le32_bytes(self.volume);
        let row: Vec<u8> = le32_bytes(self.row);
        let out: [u8; 16] = [
            id[0],
            id[1],
            id[2],
            id[3],
            id[4],
            id[5],
            id[6],
            id[7],
            volume[0],
            volume[1],
            volume[2],
            volume[3],
            row[0],
            row[1],
            row[2],
            row[3],
        ];
        assert(out@ =~= encoded_row_ref(self));
        out
    }

    pub fn decode(bytes: &[u8; 16]) -> (r: Self)
        ensures
            r == decoded_row_ref(bytes@),
    {
        let all: &[u8] = array_as_slice(bytes);
        CompactionRowRef {
            row_id: read_le64(slice_subrange(all, 0, 8)) as i64,
            volume: read_le32(slice_subrange(all, 8, 12)),
            row: read_le32(slice_subrange(all, 12, 16)),
        }
    }
}

/// The encoded references one after the other.
pub open spec fn encoded_refs(refs: Seq<CompactionRowRef>) -> Seq<u8>
    decreases refs.len(),
{
    if refs.len() == 0 {
        Seq::empty()
    } else {
        encoded_refs(refs.drop_last()) + encoded_row_ref(refs.last())
    }
}

proof fn lemma_encoded_refs_len(refs: Seq<CompactionRowRef>)
    ensures
        encoded_refs(refs).len() == 16 * refs.len(),
    decreases refs.len(),
{
    if refs.len() > 0 {
        lemma_encoded_refs_len(refs.drop_last());
        law_row_ref_round_trip(refs.last());
    }
}

proof fn lemma_encoded_refs_split(refs: Seq<CompactionRowRef>, k: int)
    requires
        0 <= k <= refs.len(),
    ensures
        encoded_refs(refs) == encoded_refs(refs.take(k)) + encoded_refs(refs.skip(k)),
    decreases refs.len(),
{
    if k == refs.len() {
        assert(refs.take(k) =~= refs);
        assert(refs.skip(k) =~= Seq::empty());
        assert(encoded_refs(refs) + Seq::<u8>::empty() =~= encoded_refs(refs));
    } else {
        lemma_encoded_refs_split(refs.drop_last(), k);
        assert(refs.drop_last().take(k) =~= refs.take(k));
        assert(refs.drop_last().skip(k) =~= refs.skip(k).drop_last());
        assert(refs.skip(k).last() == refs.last());
        assert(encoded_refs(refs) =~= encoded_refs(refs.take(k)) + encoded_refs(refs.skip(k)));
    }
}

/// Bytes a caller has to write into the spool file.
#[derive(Debug)]
pub struct SpoolWrite {
    pub offset: u64,
    pub bytes: Vec<u8>,
}

/// A read the caller has to perform before asking again.
#[derive(Debug, Clone, Copy, PartialEq, Eq, Structural)]
pub struct SpoolRead {
    pub first_row: usize,
    pub rows: usize,
    pub offset: u64,
    pub byte_len: usize,
}

/// Answer to a lookup in the spool.
#[derive(Debug)]
pub enum SpoolLookup {
    /// The reference is resident.
    Ready(CompactionRowRef),
    /// These bytes are not resident; pending appends are to be flushed first.
    Load(SpoolRead),
}

/// Append buffer and read cache of a file of row references.
///
/// The file itself belongs to the caller: the spool says what to write and
/// what to read. `image` is what the file holds once every write that was
/// handed out has been performed.
pub struct CompactionRowRefSpool {
    len: usize,
    written_len: usize,
    append_buffer: Vec<u8>,
    cached_start: usize,
    cached_refs: Vec<CompactionRowRef>,
    appended: Ghost<Seq<CompactionRowRef>>,
}

impl CompactionRowRefSpool {
    /// Every reference appended so far.
    pub closed spec fn refs(self) -> Seq<CompactionRowRef> {
        self.appended@
    }

    /// Number of references already handed out for writing.
    pub closed spec fn flushed(self) -> nat {
        self.written_len as nat
    }

    /// Content of the file after all writes that were handed out.
    pub open spec fn image(self) -> Seq<u8> {
        encoded_refs(self.refs().take(self.flushed() as int))
    }

    /// References the read cache answers for, from its first row on.
    pub closed spec fn cache(self) -> (int, Seq<CompactionRowRef>) {
        (self.cached_start as int, self.cached_refs@)
    }

    pub closed spec fn wf(self) -> bool {
        &&& self.len == self.appended@.len()
        &&& self.written_len <= self.len
        &&& self.append_buffer@ == encoded_refs(self.appended@.skip(self.written_len as int))
        &&& self.cached_start + self.cached_refs@.len() <= self.len
    }

    /// The cache agrees with what was appended.
    pub closed spec fn cache_is_faithful(self) -> bool {
        self.cached_refs@ == self.appended@.subrange(
            self.cached_start as int,
            self.cached_start + self.cached_refs@.len(),
        )
    }

    pub fn create() -> (spool: Self)
        ensures
            spool.wf(),
            spool.refs() == Seq::<CompactionRowRef>::empty(),
            spool.flushed() == 0,
            spool.cache().1.len() == 0,
            spool.cache_is_faithful(),
    {
        let spool = CompactionRowRefSpool {
            len: 0,
            written_len: 0,
            append_buffer: Vec::new(),
            cached_start: 0,
            cached_refs: Vec::new(),
            appended: Ghost(Seq::empty()),
        };
        assert(spool.appended@.skip(0) =~= Seq::empty());
        assert(spool.cached_refs@ =~= spool.appended@.subrange(0, 0));
        spool
    }

    pub fn len(&self) -> (r: usize)
        requires
            self.wf(),
        ensures
            r == self.refs().len(),
    {
        self.len
    }

    pub fn is_empty(&self) -> (r: bool)
        requires
            self.wf(),
        ensures
            r == (self.refs().len() == 0),
    {
        self.len == 0
    }

    /// Adds one reference. A write comes back when the buffer is full; the
    /// read cache is dropped.
    pub fn append(&mut self, row_ref: CompactionRowRef) -> (r: Result<Option<SpoolWrite>, Error>)
        requires
            old(self).wf(),
        ensures
            final(self).wf(),
            old(self).refs().len() == usize::MAX ==> r is Err && *final(self) == *old(self),
            old(self).refs().len() < usize::MAX ==> final(self).refs() == old(self).refs().push(
                row_ref,
            ) && final(self).cache().1.len() == 0 && final(self).cache_is_faithful(),
            match r {
                Ok(None) => {
                    &&& final(self).flushed() == old(self).flushed()
                    &&& 16 * (final(self).refs().len() - final(self).flushed())
                        < COMPACTION_SPOOL_APPEND_BYTES
                },
                Ok(Some(write)) => {
                    &&& write.offset == old(self).image().len()
                    &&& final(self).image() == old(self).image() + write.bytes@
                    &&& final(self).flushed() == final(self).refs().len()
                    &&& write.bytes@.len() >= COMPACTION_SPOOL_APPEND_BYTES
                },
                Err(e) => if old(self).refs().len() == usize::MAX {
                    e@ == ErrorView::Internal("compaction row ref spool length overflows"@)
                } else {
                    &&& e@ == ErrorView::Internal("compaction row ref spool write offset overflows"@)
                    &&& 16 * old(self).flushed() > usize::MAX
                    &&& final(self).flushed() == old(self).flushed()
                },
            },
    {
        if self.len == usize::MAX {
            return Err(Error::internal("compaction row ref spool length overflows"));
        }
        let ghost before = self.appended@;
        let encoded: [u8; 16] = row_ref.encode();
        let ghost buffer = self.append_buffer@;
        let mut k: usize = 0;
        while k < 16
            invariant
                0 <= k <= 16,
                encoded@.len() == 16,
                self.append_buffer@ == buffer + encoded@.take(k as int),
                self.len == old(self).len,
                self.written_len == old(self).written_len,
                self.appended@ == old(self).appended@,
            decreases 16 - k,
        {
            let byte: u8 = encoded[k];
            self.append_buffer.push(byte);
            k = k + 1;
            assert(encoded@.take(k as int) =~= encoded@.take(k - 1).push(byte));
        }
        assert(encoded@.take(16) =~= encoded@);
        self.len = self.len + 1;
        self.appended = Ghost(before.push(row_ref));
        self.cached_start = 0;
        self.cached_refs = Vec::new();
        proof {
            let w = self.written_len as int;
            assert(self.appended@.skip(w).drop_last() =~= before.skip(w));
            assert(self.appended@.skip(w).last() == row_ref);
            assert(self.cached_refs@ =~= self.appended@.subrange(0, 0));
            assert(self.appended@.take(w) =~= before.take(w));
            lemma_encoded_refs_len(self.appended@.skip(w));
        }
        if self.append_buffer.len() >= COMPACTION_SPOOL_APPEND_BYTES {
            self.flush_appends()
        } else {
            Ok(None)
        }
    }

    /// Hands out what was appended since the last write.
    pub fn flush_appends(&mut self) -> (r: Result<Option<SpoolWrite>, Error>)
        requires
            old(self).wf(),
        ensures
            final(self).wf(),
            final(self).refs() == old(self).refs(),
            final(self).cache() == old(self).cache(),
            old(self).cache_is_faithful() ==> final(self).cache_is_faithful(),
            match r {
                Ok(None) => {
                    &&& old(self).flushed() == old(self).refs().len()
                    &&& *final(self) == *old(self)
                },
                Ok(Some(write)) => {
                    &&& old(self).flushed() < old(self).refs().len()
                    &&& final(self).flushed() == final(self).refs().len()
                    &&& write.offset == old(self).image().len()
                    &&& write.bytes@ == encoded_refs(
                        old(self).refs().skip(old(self).flushed() as int),
                    )
                    &&& final(self).image() == old(self).image() + write.bytes@
                },
                Err(e) => {
                    &&& e@ == ErrorView::Internal("compaction row ref spool write offset overflows"@)
                    &&& 16 * old(self).flushed() > usize::MAX
                    &&& *final(self) == *old(self)
                },
            },
    {
        proof {
            lemma_encoded_refs_len(self.appended@.skip(self.written_len as int));
            lemma_encoded_refs_len(self.appended@.take(self.written_len as int));
            lemma_encoded_refs_split(self.appended@, self.written_len as int);
            assert(self.appended@.take(self.len as int) =~= self.appended@);
        }
        if self.append_buffer.len() == 0 {
            return Ok(None);
        }
        let offset: u64 = match self.written_len.checked_mul(COMPACTION_ROW_REF_ENCODED_LEN) {
            Some(offset) => offset as u64,
            None => {
                return Err(Error::internal("compaction row ref spool write offset overflows"));
            },
        };
        let mut bytes: Vec<u8> = Vec::new();
        bytes.append(&mut self.append_buffer);
        self.written_len = self.len;
        assert(self.appended@.skip(self.len as int) =~= Seq::empty());
        assert(bytes@ =~= old(self).append_buffer@);
        Ok(Some(SpoolWrite { offset, bytes }))
    }

    /// Looks one reference up. Where its group is not resident, the read that
    /// brings the group in is returned; the group starts at a multiple of the
    /// row-group size.
    pub fn ref_at(&self, index: usize) -> (r: Result<SpoolLookup, Error>)
        requires
            self.wf(),
        ensures
            match r {
                Err(e) => {
                    ||| index >= self.refs().len() && e@ == ErrorView::Internal(
                        "compaction row ref "@ + decimal_digits(index as nat) + " out of bounds"@,
                    )
                    ||| index < self.refs().len() && 16 * index > usize::MAX - 16 * ROW_GROUP_SIZE && (e@
                        == ErrorView::Internal("compaction row ref spool read length overflows"@)
                        || e@ == ErrorView::Internal(
                        "compaction row ref spool read offset overflows"@,
                    ))
                },
                Ok(SpoolLookup::Ready(x)) => {
                    let (start, cached) = self.cache();
                    &&& index < self.refs().len()
                    &&& start <= index < start + cached.len()
                    &&& x == cached[index - start]
                    &&& self.cache_is_faithful() ==> x == self.refs()[index as int]
                },
                Ok(SpoolLookup::Load(read)) => {
                    let (start, cached) = self.cache();
                    &&& index < self.refs().len()
                    &&& !(start <= index < start + cached.len())
                    &&& self.is_group_read(read)
                    &&& read.first_row <= index < read.first_row + read.rows
                },
            },
    {
        if index >= self.len {
            let message: String = String::from_str("compaction row ref ").concat(
                decimal(index as u64).as_str(),
            ).concat(" out of bounds");
            return Err(Error::Internal { message });
        }
        if self.cached_start <= index && index - self.cached_start < self.cached_refs.len() {
            return Ok(SpoolLookup::Ready(self.cached_refs[index - self.cached_start]));
        }
        let first_row: usize = (index / ROW_GROUP_SIZE) * ROW_GROUP_SIZE;
        let rows: usize = if self.len - first_row < ROW_GROUP_SIZE {
            self.len - first_row
        } else {
            ROW_GROUP_SIZE
        };
        let byte_len: usize = match rows.checked_mul(COMPACTION_ROW_REF_ENCODED_LEN) {
            Some(n) => n,
            None => {
                return Err(Error::internal("compaction row ref spool read length overflows"));
            },
        };
        let offset: u64 = match first_row.checked_mul(COMPACTION_ROW_REF_ENCODED_LEN) {
            Some(n) => n as u64,
            None => {
                return Err(Error::internal("compaction row ref spool read offset overflows"));
            },
        };
        Ok(SpoolLookup::Load(SpoolRead { first_row, rows, offset, byte_len }))
    }

    /// `read` covers one row group of what was appended.
    pub open spec fn is_group_read(self, read: SpoolRead) -> bool {
        &&& read.first_row % ROW_GROUP_SIZE == 0
        &&& read.rows <= ROW_GROUP_SIZE
        &&& read.first_row + read.rows == if read.first_row + ROW_GROUP_SIZE < self.refs().len() {
            read.first_row + ROW_GROUP_SIZE
        } else {
            self.refs().len() as int
        }
        &&& read.offset == 16 * read.first_row
        &&& read.byte_len == 16 * read.rows
    }

    /// Installs the bytes of a read. When they are what the file holds there,
    /// the cache answers with exactly the references that were appended.
    pub fn install_group(&mut self, read: SpoolRead, bytes: &Vec<u8>)
        requires
            old(self).wf(),
            old(self).is_group_read(read),
            bytes@.len() == read.byte_len,
        ensures
            final(self).wf(),
            final(self).refs() == old(self).refs(),
            final(self).flushed() == old(self).flushed(),
            final(self).cache().0 == read.first_row,
            final(self).cache().1.len() == read.rows,
            forall|k: int|
                0 <= k < read.rows ==> #[trigger] final(self).cache().1[k] == decoded_row_ref(
                    bytes@.subrange(16 * k, 16 * k + 16),
                ),
            old(self).flushed() == old(self).refs().len() && bytes@ == old(self).image().subrange(
                read.offset as int,
                read.offset + read.byte_len,
            ) ==> final(self).cache_is_faithful(),
    {
        let mut refs: Vec<CompactionRowRef> = Vec::new();
        let all: &[u8] = bytes.as_slice();
        let mut k: usize = 0;
        while k < read.rows
            invariant
                0 <= k <= read.rows,
                refs@.len() == k,
                all@ == bytes@,
                bytes@.len() == 16 * read.rows,
                bytes@.len() <= usize::MAX,
                forall|j: int|
                    0 <= j < k ==> #[trigger] refs@[j] == decoded_row_ref(
                        bytes@.subrange(16 * j, 16 * j + 16),
                    ),
            decreases read.rows - k,
        {
            let chunk: &[u8] = slice_subrange(all, 16 * k, 16 * k + 16);
            let one: CompactionRowRef = CompactionRowRef {
                row_id: read_le64(slice_subrange(chunk, 0, 8)) as i64,
                volume: read_le32(slice_subrange(chunk, 8, 12)),
                row: read_le32(slice_subrange(chunk, 12, 16)),
            };
            refs.push(one);
            k = k + 1;
        }
        self.cached_start = read.first_row;
        self.cached_refs = refs;
        proof {
            if old(self).flushed() == old(self).refs().len() && bytes@ == old(
                self,
            ).image().subrange(read.offset as int, read.offset + read.byte_len) {
                let all_refs = self.appended@;
                let first = read.first_row as int;
                assert(all_refs.take(all_refs.len() as int) =~= all_refs);
                assert forall|j: int| 0 <= j < read.rows implies #[trigger] self.cached_refs@[j]
                    == all_refs[first + j] by {
                    lemma_encoded_ref_at(all_refs, first + j);
                    assert(bytes@.subrange(16 * j, 16 * j + 16) =~= encoded_refs(
                        all_refs,
                    ).subrange(16 * (first + j), 16 * (first + j) + 16));
                    law_row_ref_round_trip(all_refs[first + j]);
                }
                assert(self.cached_refs@ =~= all_refs.subrange(first, first + read.rows));
            }
        }
    }
}

proof fn lemma_encoded_ref_at(refs: Seq<CompactionRowRef>, i: int)
    requires
        0 <= i < refs.len(),
    ensures
        encoded_refs(refs).len() == 16 * refs.len(),
        encoded_refs(refs).subrange(16 * i, 16 * i + 16) == encoded_row_ref(refs[i]),
{
    lemma_encoded_refs_split(refs, i);
    lemma_encoded_refs_len(refs.take(i));
    lemma_encoded_refs_len(refs);
    lemma_encoded_refs_split(refs.skip(i), 1);
    assert(refs.skip(i).take(1).drop_last() =~= Seq::empty());
    assert(refs.skip(i).take(1).last() == refs[i]);
    law_row_ref_round_trip(refs[i]);
    let one = refs.skip(i).take(1);
    assert(encoded_refs(one.drop_last()) =~= Seq::<u8>::empty());
    assert(encoded_refs(one) =~= encoded_row_ref(refs[i]));
    lemma_encoded_refs_len(refs.skip(i).skip(1));
    assert(encoded_refs(refs).subrange(16 * i, 16 * i + 16) =~= encoded_row_ref(refs[i]));
}

/// Where a merged row's values lie.
#[derive(Debug, Clone, Copy, PartialEq, Eq, Structural)]
pub struct ValueLocation {
    pub volume: usize,
    pub row: usize,
}

pub open spec fn location_refusal(
    row_idx: usize,
    row_ref: CompactionRowRef,
    volumes: usize,
    mappings: usize,
) -> Option<ErrorView> {
    let row = "compaction row ref "@ + decimal_digits(row_idx as nat);
    let volume = decimal_digits(row_ref.volume as nat);
    if row_ref.volume >= volumes {
        Some(ErrorView::Internal(row + " has invalid volume index "@ + volume))
    } else if row_ref.volume >= mappings {
        Some(ErrorView::Internal(row + " has no column mapping for volume "@ + volume))
    } else {
        None
    }
}

/// Resolves a reference against the volumes and column mappings of a job.
pub fn locate_value(
    row_idx: usize,
    row_ref: &CompactionRowRef,
    volumes: usize,
    mappings: usize,
) -> (r: Result<ValueLocation, Error>)
    ensures
        refusal(r) == location_refusal(row_idx, *row_ref, volumes, mappings),
        r matches Ok(at) ==> at.volume == row_ref.volume && at.row == row_ref.row,
{
    let volume: usize = row_ref.vol_idx();
    if volume >= volumes {
        let message: String = String::from_str("compaction row ref ").concat(
            decimal(row_idx as u64).as_str(),
        ).concat(" has invalid volume index ").concat(decimal(volume as u64).as_str());
        return Err(Error::Internal { message });
    }
    if volume >= mappings {
        let message: String = String::from_str("compaction row ref ").concat(
            decimal(row_idx as u64).as_str(),
        ).concat(" has no column mapping for volume ").concat(decimal(volume as u64).as_str());
        return Err(Error::Internal { message });
    }
    Ok(ValueLocation { volume, row: row_ref.row_idx() })
}

} // verus!
