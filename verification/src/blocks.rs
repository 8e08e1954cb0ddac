//! Cutting a byte buffer into the blocks that the parallel stages work on,
//! and putting the results back together.
//!
//! For compression the input is cut every [`BLOCK_SIZE`] bytes. For
//! decompression the input is a run of compressed streams laid end to end,
//! and it is cut where the next stream's header is found.

use vstd::prelude::*;
use vstd::slice::{slice_subrange, slice_to_vec};

verus! {

/// The number of input bytes in one compression block, and the room given to
/// one decompressed block.
pub const BLOCK_SIZE: usize = 900000;

/// How far past one block size the search for the next header goes.
pub const SCAN_MARGIN: usize = 10000;

/// The length of a stream header.
pub const HEADER_LEN: usize = 10;

/// The ten bytes with which every compressed stream begins: `BZh91AY&SY`.
pub open spec fn stream_header() -> Seq<u8> {
    seq![0x42u8, 0x5Au8, 0x68u8, 0x39u8, 0x31u8, 0x41u8, 0x59u8, 0x26u8, 0x53u8, 0x59u8]
}

/// One block on its way through the pipeline.
pub struct Tcontent {
    /// The block's position in the input.
    pub order: usize,
    /// The bytes to work on.
    pub buffer_input: Vec<u8>,
    /// Room for the result.
    pub buffer_output: Vec<u8>,
    /// How many bytes of `buffer_output` the stage has filled.
    pub output_size: u32,
}

impl Tcontent {
    /// The bytes that the stage produced.
    pub open spec fn produced(&self) -> Seq<u8> {
        self.buffer_output@.take(self.output_size as int)
    }

    /// A block to be compressed: `buffer_input` with zeroed room for the
    /// result, one hundredth more than the input and 600 bytes.
    pub fn for_compression(order: usize, buffer_input: Vec<u8>) -> (content: Tcontent)
        requires
            buffer_input@.len() <= BLOCK_SIZE,
        ensures
            content.order == order,
            content.buffer_input@ == buffer_input@,
            content.buffer_output@ == zeros(spec_output_capacity(buffer_input@.len())),
            content.output_size == 0,
    {
        let room = zeroed(output_capacity(buffer_input.len()));
        Tcontent { order, buffer_input, buffer_output: room, output_size: 0 }
    }

    /// A block to be decompressed: `buffer_input` with one block size of
    /// zeroed room for the result.
    pub fn for_decompression(order: usize, buffer_input: Vec<u8>) -> (content: Tcontent)
        ensures
            content.order == order,
            content.buffer_input@ == buffer_input@,
            content.buffer_output@ == zeros(BLOCK_SIZE as nat),
            content.output_size == 0,
    {
        Tcontent { order, buffer_input, buffer_output: zeroed(BLOCK_SIZE), output_size: 0 }
    }
}

/// `n` zero bytes.
pub open spec fn zeros(n: nat) -> Seq<u8> {
    Seq::new(n, |i: int| 0u8)
}

/// The room that compressing `len` bytes may need: one hundredth more than
/// the input, and 600 bytes.
pub open spec fn spec_output_capacity(len: nat) -> nat {
    len + len / 100 + 600
}

/// Where block `k` of an input of `len` bytes begins.
pub open spec fn block_start(len: nat, k: nat) -> nat {
    if k * BLOCK_SIZE <= len {
        (k * BLOCK_SIZE) as nat
    } else {
        len
    }
}

/// Into how many blocks an input of `len` bytes is cut.
pub open spec fn block_count(len: nat) -> nat {
    ((len + BLOCK_SIZE - 1) / (BLOCK_SIZE as int)) as nat
}

/// Block `k` of `input`: the bytes from its start to the start of the next.
pub open spec fn compress_block(input: Seq<u8>, k: nat) -> Seq<u8> {
    input.subrange(block_start(input.len(), k) as int, block_start(input.len(), k + 1) as int)
}

/// The first `n` blocks of `input`, laid end to end.
pub open spec fn joined_blocks(input: Seq<u8>, n: nat) -> Seq<u8>
    decreases n,
{
    if n == 0 {
        Seq::empty()
    } else {
        joined_blocks(input, (n - 1) as nat) + compress_block(input, (n - 1) as nat)
    }
}

/// The first `n` blocks, laid end to end, are the input up to the start of
/// block `n`.
pub proof fn lemma_joined_blocks(input: Seq<u8>, n: nat)
    ensures
        joined_blocks(input, n) == input.subrange(0, block_start(input.len(), n) as int),
    decreases n,
{
    if n > 0 {
        lemma_joined_blocks(input, (n - 1) as nat);
    }
    assert(joined_blocks(input, n) =~= input.subrange(0, block_start(input.len(), n) as int));
}

/// Cutting loses nothing and adds nothing: all the blocks of an input, laid
/// end to end, are the input.
pub proof fn lemma_blocks_cover_input(input: Seq<u8>)
    ensures
        joined_blocks(input, block_count(input.len())) == input,
{
    let len = input.len();
    lemma_joined_blocks(input, block_count(len));
    assert(block_start(len, block_count(len)) == len);
    assert(input.subrange(0, len as int) =~= input);
}

/// The room given to the result of compressing a block of `len` bytes.
pub fn output_capacity(len: usize) -> (cap: usize)
    requires
        len <= BLOCK_SIZE,
    ensures
        cap == spec_output_capacity(len as nat),
{
    len + len / 100 + 600
}

/// How many bytes the next block takes when `bytes_left` are left: a whole
/// block size, or what is left if that is less.
pub fn block_len(bytes_left: usize) -> (len: usize)
    ensures
        len == if bytes_left < BLOCK_SIZE {
            bytes_left
        } else {
            BLOCK_SIZE
        },
{
    if bytes_left < BLOCK_SIZE {
        bytes_left
    } else {
        BLOCK_SIZE
    }
}

/// A copy of the bytes of `buffer` from `start` up to `end`.
fn copy_range(buffer: &Vec<u8>, start: usize, end: usize) -> (out: Vec<u8>)
    requires
        start <= end <= buffer@.len(),
    ensures
        out@ == buffer@.subrange(start as int, end as int),
{
    slice_to_vec(slice_subrange(buffer.as_slice(), start, end))
}

/// `n` zero bytes.
fn zeroed(n: usize) -> (out: Vec<u8>)
    ensures
        out@ == zeros(n as nat),
{
    let out = vec![0u8; n];
    assert(out@ =~= zeros(n as nat));
    out
}

/// Hands out the blocks of an input to be compressed, one after the other.
pub struct EmitterCompress {
    buffer_input: Vec<u8>,
    block_size: usize,
    pos_init: usize,
    pos_end: usize,
    bytes_left: usize,
    order: usize,
}

impl EmitterCompress {
    /// The whole input.
    pub closed spec fn input(&self) -> Seq<u8> {
        self.buffer_input@
    }

    /// How many blocks have been handed out.
    pub closed spec fn emitted(&self) -> nat {
        self.order as nat
    }

    /// The emitter stands at the start of the next block.
    pub closed spec fn well_formed(&self) -> bool {
        &&& self.block_size == BLOCK_SIZE
        &&& self.pos_init <= self.pos_end
        &&& self.pos_end == block_start(self.buffer_input@.len(), self.order as nat)
        &&& self.bytes_left == self.buffer_input@.len() - self.pos_end
        &&& self.order <= block_count(self.buffer_input@.len())
    }

    /// An emitter at the start of `buffer_input`.
    pub fn new(buffer_input: Vec<u8>) -> (emitter: EmitterCompress)
        ensures
            emitter.well_formed(),
            emitter.input() == buffer_input@,
            emitter.emitted() == 0,
    {
        let bytes_left = buffer_input.len();
        EmitterCompress {
            buffer_input,
            block_size: BLOCK_SIZE,
            pos_init: 0,
            pos_end: 0,
            bytes_left,
            order: 0,
        }
    }

    /// The next block, or `None` when the input is used up.
    ///
    /// Block `k` holds the bytes of the input from `k * BLOCK_SIZE` on, a
    /// whole block size of them or what is left, with zeroed room for the
    /// result.
    pub fn next(&mut self) -> (block: Option<Tcontent>)
        requires
            old(self).well_formed(),
        ensures
            final(self).well_formed(),
            final(self).input() == old(self).input(),
            match block {
                Some(content) => {
                    &&& old(self).emitted() < block_count(old(self).input().len())
                    &&& final(self).emitted() == old(self).emitted() + 1
                    &&& content.order == old(self).emitted()
                    &&& content.buffer_input@ == compress_block(old(self).input(), old(self).emitted())
                    &&& 0 < content.buffer_input@.len() <= BLOCK_SIZE
                    &&& content.buffer_output@ == zeros(
                        spec_output_capacity(content.buffer_input@.len()),
                    )
                    &&& content.output_size == 0
                },
                None => {
                    &&& old(self).emitted() == block_count(old(self).input().len())
                    &&& final(self).emitted() == old(self).emitted()
                },
            },
    {
        if self.bytes_left == 0 {
            return None;
        }
        let total = self.buffer_input.len();
        assert(self.pos_end + self.bytes_left == total);
        self.pos_init = self.pos_end;
        self.pos_end = self.pos_end + block_len(self.bytes_left);
        self.bytes_left = self.bytes_left - (self.pos_end - self.pos_init);
        let input = copy_range(&self.buffer_input, self.pos_init, self.pos_end);
        let content = Tcontent::for_compression(self.order, input);
        self.order = self.order + 1;
        Some(content)
    }
}

/// Every block lies inside a buffer of `len` bytes.
pub open spec fn blocks_within(len: nat, blocks: Seq<(usize, usize)>) -> bool {
    forall|i: int| 0 <= i < blocks.len() ==> (#[trigger] blocks[i]).0 <= blocks[i].1 <= len
}

/// Hands out the blocks of an input to be decompressed, one after the other,
/// as a list of bounds says.
pub struct EmitterDecompress {
    buffer_input: Vec<u8>,
    block_size: usize,
    order: usize,
    queue_blocks: Vec<(usize, usize)>,
}

impl EmitterDecompress {
    /// The whole input.
    pub closed spec fn input(&self) -> Seq<u8> {
        self.buffer_input@
    }

    /// The bounds of the blocks, each a start and an end.
    pub closed spec fn blocks(&self) -> Seq<(usize, usize)> {
        self.queue_blocks@
    }

    /// How many blocks have been handed out.
    pub closed spec fn emitted(&self) -> nat {
        self.order as nat
    }

    /// The room given to each result is one block size, and no more blocks
    /// have been handed out than there are.
    pub closed spec fn well_formed(&self) -> bool {
        self.block_size == BLOCK_SIZE && self.order <= self.queue_blocks@.len()
    }

    /// An emitter for the blocks of `buffer_input` that `queue_blocks` lists,
    /// in the order of the list.
    pub fn new(buffer_input: Vec<u8>, queue_blocks: Vec<(usize, usize)>) -> (emitter:
        EmitterDecompress)
        ensures
            emitter.well_formed(),
            emitter.input() == buffer_input@,
            emitter.blocks() == queue_blocks@,
            emitter.emitted() == 0,
    {
        EmitterDecompress { buffer_input, block_size: BLOCK_SIZE, order: 0, queue_blocks }
    }

    /// The next block, or `None` when every block has been handed out.
    ///
    /// The block holds the bytes of the input between its bounds, with one
    /// block size of zeroed room for the result. The bounds of the block that
    /// is due must lie inside the input.
    pub fn next(&mut self) -> (block: Option<Tcontent>)
        requires
            old(self).well_formed(),
            old(self).emitted() < old(self).blocks().len() ==> ({
                let due = old(self).blocks()[old(self).emitted() as int];
                due.0 <= due.1 <= old(self).input().len()
            }),
        ensures
            final(self).well_formed(),
            final(self).input() == old(self).input(),
            final(self).blocks() == old(self).blocks(),
            match block {
                Some(content) => {
                    &&& old(self).emitted() < old(self).blocks().len()
                    &&& final(self).emitted() == old(self).emitted() + 1
                    &&& content.order == old(self).emitted()
                    &&& content.buffer_input@ == old(self).input().subrange(
                        old(self).blocks()[old(self).emitted() as int].0 as int,
                        old(self).blocks()[old(self).emitted() as int].1 as int,
                    )
                    &&& content.buffer_output@ == zeros(BLOCK_SIZE as nat)
                    &&& content.output_size == 0
                },
                None => {
                    &&& old(self).emitted() == old(self).blocks().len()
                    &&& final(self).emitted() == old(self).emitted()
                },
            },
    {
        if self.order >= self.queue_blocks.len() {
            return None;
        }
        let block = self.queue_blocks[self.order];
        let input = copy_range(&self.buffer_input, block.0, block.1);
        let content = Tcontent::for_decompression(self.order, input);
        self.order = self.order + 1;
        Some(content)
    }
}

/// A stream header stands at `at`.
pub open spec fn header_at(buffer: Seq<u8>, at: int) -> bool {
    &&& 0 <= at
    &&& at + HEADER_LEN <= buffer.len()
    &&& buffer.subrange(at, at + HEADER_LEN) == stream_header()
}

/// Where the search for the header that ends a block starting at `start`
/// stops: one block size and the margin further on, if the buffer reaches
/// that far, and at the end of the buffer if it does not.
pub open spec fn scan_limit(len: int, start: int) -> int {
    if start + BLOCK_SIZE + SCAN_MARGIN <= len {
        start + BLOCK_SIZE + SCAN_MARGIN
    } else {
        len
    }
}

/// The first place at or after `from` where a header stands that ends
/// before `limit`, if there is one.
pub open spec fn next_header(buffer: Seq<u8>, from: int, limit: int) -> Option<int>
    decreases limit - from,
{
    if from + HEADER_LEN > limit {
        None
    } else if header_at(buffer, from) {
        Some(from)
    } else {
        next_header(buffer, from + 1, limit)
    }
}

/// Where the block that starts at `start` ends: at the next header after its
/// own, if the search finds one, and at the end of the buffer if not.
pub open spec fn block_end(buffer: Seq<u8>, start: int) -> int {
    match next_header(buffer, start + HEADER_LEN, scan_limit(buffer.len() as int, start)) {
        Some(at) => at,
        None => buffer.len() as int,
    }
}

/// The bounds of the blocks of `buffer` from `start` on.
pub open spec fn blocks_from(buffer: Seq<u8>, start: int) -> Seq<(usize, usize)>
    decreases buffer.len() - start,
{
    let end = block_end(buffer, start);
    if 0 <= start < end <= buffer.len() {
        seq![(start as usize, end as usize)] + blocks_from(buffer, end)
    } else {
        Seq::empty()
    }
}

/// The bounds of the blocks of `buffer`.
pub open spec fn stream_blocks(buffer: Seq<u8>) -> Seq<(usize, usize)> {
    blocks_from(buffer, 0)
}

/// A header that the search finds lies at or after `from` and ends before
/// `limit`.
pub proof fn lemma_next_header(buffer: Seq<u8>, from: int, limit: int)
    ensures
        match next_header(buffer, from, limit) {
            Some(at) => from <= at && at + HEADER_LEN <= limit && header_at(buffer, at),
            None => true,
        },
    decreases limit - from,
{
    if from + HEADER_LEN <= limit && !header_at(buffer, from) {
        lemma_next_header(buffer, from + 1, limit);
    }
}

/// A block that starts inside the buffer, with room for its own header, ends
/// after that header and inside the buffer; if it does not end with the
/// buffer, the next block has room for its header too.
pub proof fn lemma_block_end(buffer: Seq<u8>, start: int)
    requires
        0 <= start,
        start + HEADER_LEN <= buffer.len(),
    ensures
        start + HEADER_LEN <= block_end(buffer, start) <= buffer.len(),
        block_end(buffer, start) < buffer.len() ==> block_end(buffer, start) + HEADER_LEN
            <= buffer.len(),
{
    lemma_next_header(buffer, start + HEADER_LEN, scan_limit(buffer.len() as int, start));
}

/// The blocks found from `start` on lie end to end: the first begins at
/// `start`, each begins where the one before it ends, none is empty, and the
/// last ends with the buffer.
pub proof fn lemma_blocks_from(buffer: Seq<u8>, start: int)
    requires
        0 <= start < buffer.len() <= usize::MAX,
        start + HEADER_LEN <= buffer.len(),
    ensures
        blocks_from(buffer, start).len() > 0,
        blocks_from(buffer, start)[0].0 == start,
        blocks_from(buffer, start).last().1 == buffer.len(),
        forall|i: int|
            0 <= i < blocks_from(buffer, start).len() ==> (#[trigger] blocks_from(
                buffer,
                start,
            )[i]).0 < blocks_from(buffer, start)[i].1 <= buffer.len(),
        forall|i: int|
            0 <= i < blocks_from(buffer, start).len() - 1 ==> (#[trigger] blocks_from(
                buffer,
                start,
            )[i]).1 == blocks_from(buffer, start)[i + 1].0,
    decreases buffer.len() - start,
{
    let end = block_end(buffer, start);
    lemma_block_end(buffer, start);
    let rest = blocks_from(buffer, end);
    let all = blocks_from(buffer, start);
    assert(all == seq![(start as usize, end as usize)] + rest);
    if end < buffer.len() {
        lemma_blocks_from(buffer, end);
        assert forall|i: int| 0 <= i < all.len() implies (#[trigger] all[i]).0 < all[i].1
            <= buffer.len() by {
            if i > 0 {
                assert(all[i] == rest[i - 1]);
            }
        }
        assert forall|i: int| 0 <= i < all.len() - 1 implies (#[trigger] all[i]).1 == all[i + 1].0 by {
            assert(all[i + 1] == rest[i]);
            if i > 0 {
                assert(all[i] == rest[i - 1]);
            }
        }
        assert(all.last() == rest.last());
    } else {
        assert(rest =~= Seq::empty());
    }
}

/// Whether a stream header stands at `at`.
fn is_header(buffer: &Vec<u8>, at: usize) -> (found: bool)
    requires
        at + HEADER_LEN <= buffer@.len(),
    ensures
        found == header_at(buffer@, at as int),
{
    let len = buffer.len();
    assert(at + HEADER_LEN <= len);
    let found = buffer[at] == 0x42 && buffer[at + 1] == 0x5A && buffer[at + 2] == 0x68 && buffer[at
        + 3] == 0x39 && buffer[at + 4] == 0x31 && buffer[at + 5] == 0x41 && buffer[at + 6] == 0x59
        && buffer[at + 7] == 0x26 && buffer[at + 8] == 0x53 && buffer[at + 9] == 0x59;
    proof {
        let window = buffer@.subrange(at as int, at + HEADER_LEN);
        let header = stream_header();
        if found {
            assert(window =~= header);
        } else {
            if window == header {
                assert(window[0] == header[0]);
                assert(window[1] == header[1]);
                assert(window[2] == header[2]);
                assert(window[3] == header[3]);
                assert(window[4] == header[4]);
                assert(window[5] == header[5]);
                assert(window[6] == header[6]);
                assert(window[7] == header[7]);
                assert(window[8] == header[8]);
                assert(window[9] == header[9]);
            }
        }
    }
    found
}

/// Where the block that starts at `start` ends.
fn find_block_end(buffer: &Vec<u8>, start: usize) -> (end: usize)
    requires
        start + HEADER_LEN <= buffer@.len(),
    ensures
        end == block_end(buffer@, start as int),
{
    let len = buffer.len();
    let limit: usize = if len - start >= BLOCK_SIZE + SCAN_MARGIN {
        start + BLOCK_SIZE + SCAN_MARGIN
    } else {
        len
    };
    let mut at: usize = start + HEADER_LEN;
    while at <= limit - HEADER_LEN
        invariant
            start + HEADER_LEN <= at <= limit,
            limit <= len == buffer@.len(),
            limit == scan_limit(buffer@.len() as int, start as int),
            next_header(buffer@, start + HEADER_LEN, limit as int) == next_header(
                buffer@,
                at as int,
                limit as int,
            ),
        decreases limit - at,
    {
        if is_header(buffer, at) {
            return at;
        }
        at = at + 1;
    }
    len
}

/// Finds the bounds of the compressed streams that lie end to end in
/// `buffer`.
///
/// The first block starts at 0. A block ends where the next stream header is
/// found, searching from just past the block's own header up to one block
/// size and the margin further on; where no header is found there, the block
/// runs to the end of the buffer. The blocks lie end to end and cover the
/// buffer.
///
/// A buffer that is not empty must have room for one header.
pub fn find_blocks(buffer: &Vec<u8>) -> (queue_blocks: Vec<(usize, usize)>)
    requires
        buffer@.len() == 0 || buffer@.len() >= HEADER_LEN,
    ensures
        queue_blocks@ == stream_blocks(buffer@),
        blocks_within(buffer@.len(), queue_blocks@),
{
    let len = buffer.len();
    let mut queue_blocks: Vec<(usize, usize)> = Vec::new();
    let mut pos_end: usize = 0;
    while pos_end < len
        invariant
            len == buffer@.len(),
            pos_end <= len,
            pos_end < len ==> pos_end + HEADER_LEN <= len,
            blocks_within(buffer@.len(), queue_blocks@),
            stream_blocks(buffer@) == queue_blocks@ + blocks_from(buffer@, pos_end as int),
        decreases len - pos_end,
    {
        let pos_init = pos_end;
        pos_end = find_block_end(buffer, pos_init);
        proof {
            lemma_block_end(buffer@, pos_init as int);
            assert(queue_blocks@.push((pos_init, pos_end)) + blocks_from(buffer@, pos_end as int)
                =~= queue_blocks@ + blocks_from(buffer@, pos_init as int));
        }
        queue_blocks.push((pos_init, pos_end));
    }
    proof {
        assert(blocks_from(buffer@, pos_end as int) =~= Seq::empty());
        assert(queue_blocks@ + Seq::<(usize, usize)>::empty() =~= queue_blocks@);
    }
    queue_blocks
}

/// The results of `collection`, laid end to end in the order of the
/// collection.
pub open spec fn joined_output(collection: Seq<Tcontent>) -> Seq<u8>
    decreases collection.len(),
{
    if collection.len() == 0 {
        Seq::empty()
    } else {
        joined_output(collection.drop_last()) + collection.last().produced()
    }
}

/// Appends what the stage produced for `content` to `output`.
pub fn append_output(output: &mut Vec<u8>, content: &Tcontent)
    requires
        content.output_size <= content.buffer_output@.len(),
    ensures
        final(output)@ == old(output)@ + content.produced(),
{
    let produced = slice_subrange(content.buffer_output.as_slice(), 0, content.output_size as usize);
    output.extend_from_slice(produced);
    assert(output@ =~= old(output)@ + content.produced());
}

/// The write stage: the results of all blocks of `collection`, laid end to
/// end.
pub fn write_stage(collection: &Vec<Tcontent>) -> (output: Vec<u8>)
    requires
        forall|i: int|
            0 <= i < collection@.len() ==> (#[trigger] collection@[i]).output_size
                <= collection@[i].buffer_output@.len(),
    ensures
        output@ == joined_output(collection@),
{
    let mut output: Vec<u8> = Vec::new();
    let mut i: usize = 0;
    while i < collection.len()
        invariant
            i <= collection@.len(),
            output@ == joined_output(collection@.take(i as int)),
            forall|j: int|
                0 <= j < collection@.len() ==> (#[trigger] collection@[j]).output_size
                    <= collection@[j].buffer_output@.len(),
        decreases collection@.len() - i,
    {
        proof {
            assert(collection@.take(i + 1).drop_last() =~= collection@.take(i as int));
            assert(collection@.take(i + 1).last() == collection@[i as int]);
        }
        append_output(&mut output, &collection[i]);
        i = i + 1;
    }
    proof {
        assert(collection@.take(i as int) =~= collection@);
    }
    output
}

} // verus!
