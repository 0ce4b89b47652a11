//! The legacy LZ4 container: a magic, then records of a little-endian `u32`
//! length and one independently compressed block of at most 8 MiB input.
use vstd::prelude::*;

use byteorder::{ByteOrder, LittleEndian};

use crate::format::{lz4_legacy_magic, magic_format, CompressedFormat};

verus! {

/// Input bytes per block: the largest, and only, block size of the format.
pub const BLOCK_SIZE: usize = 8 * 1024 * 1024;

/// The four bytes of `n`, least significant first.
pub open spec fn le_u32(n: u32) -> Seq<u8> {
    seq![
        (n % 256) as u8,
        ((n / 256) % 256) as u8,
        ((n / 65536) % 256) as u8,
        ((n / 16777216) % 256) as u8,
    ]
}

/// What lz4_flex's raw block compressor makes of `data`.
pub uninterp spec fn lz4_block_of(data: Seq<u8>) -> Seq<u8>;

/// The record that holds one block: its compressed length, then the block.
pub open spec fn block_record(data: Seq<u8>) -> Seq<u8> {
    le_u32(lz4_block_of(data).len() as u32) + lz4_block_of(data)
}

/// The records of the complete blocks at the front of `s`.
pub open spec fn full_blocks(s: Seq<u8>) -> Seq<u8>
    decreases s.len(),
{
    if s.len() < BLOCK_SIZE {
        Seq::empty()
    } else {
        block_record(s.take(BLOCK_SIZE as int)) + full_blocks(s.skip(BLOCK_SIZE as int))
    }
}

/// What is left of `s` after its complete blocks.
pub open spec fn tail_block(s: Seq<u8>) -> Seq<u8>
    decreases s.len(),
{
    if s.len() < BLOCK_SIZE {
        s
    } else {
        tail_block(s.skip(BLOCK_SIZE as int))
    }
}

/// The record of a trailing block, if it holds any input.
pub open spec fn trailing_record(data: Seq<u8>) -> Seq<u8> {
    if data.len() == 0 {
        Seq::empty()
    } else {
        block_record(data)
    }
}

/// The whole stream that an encoder writes for `data` between its creation
/// and `finish`: the magic, each complete block, and the trailing block if
/// it is not empty.
pub open spec fn legacy_stream(data: Seq<u8>) -> Seq<u8> {
    lz4_legacy_magic() + full_blocks(data) + trailing_record(tail_block(data))
}

/// Relies on lz4_flex::block::compress: one raw block without frame or size
/// prefix, into a buffer of get_maximum_output_size(len) that is then truncated.
#[verifier::external_body]
fn compress_block(data: &[u8]) -> (r: Vec<u8>)
    requires
        data@.len() <= BLOCK_SIZE,
    ensures
        r@ == lz4_block_of(data@),
        r@.len() <= 20 + data@.len() * 110 / 100,
{
    lz4_flex::block::compress(data)
}

/// Relies on byteorder's LittleEndian::write_u32: the bytes of `n`, least
/// significant first.
#[verifier::external_body]
fn u32_le_bytes(n: u32) -> (r: Vec<u8>)
    ensures
        r@ == le_u32(n),
{
    let mut b = vec![0u8; 4];
    LittleEndian::write_u32(&mut b, n);
    b
}

/// Appending a chunk that fits in the trailing block either completes that
/// block, which becomes one more record, or extends it.
proof fn lemma_append_chunk(s: Seq<u8>, c: Seq<u8>)
    requires
        tail_block(s).len() + c.len() <= BLOCK_SIZE,
    ensures
        tail_block(s).len() + c.len() == BLOCK_SIZE ==> full_blocks(s + c) == full_blocks(s)
            + block_record(tail_block(s) + c) && tail_block(s + c) == Seq::<u8>::empty(),
        tail_block(s).len() + c.len() < BLOCK_SIZE ==> full_blocks(s + c) == full_blocks(s)
            && tail_block(s + c) == tail_block(s) + c,
    decreases s.len(),
{
    let b = BLOCK_SIZE as int;
    if s.len() < BLOCK_SIZE {
        if s.len() + c.len() == BLOCK_SIZE {
            assert((s + c).take(b) =~= s + c);
            assert((s + c).skip(b) =~= Seq::<u8>::empty());
            assert(full_blocks(Seq::<u8>::empty()) == Seq::<u8>::empty());
            assert(tail_block(Seq::<u8>::empty()) == Seq::<u8>::empty());
            assert(full_blocks(s) == Seq::<u8>::empty());
            assert(full_blocks(s + c) == block_record(s + c) + Seq::<u8>::empty());
            assert(full_blocks(s + c) =~= full_blocks(s) + block_record(s + c));
        }
    } else {
        assert((s + c).take(b) =~= s.take(b));
        assert((s + c).skip(b) =~= s.skip(b) + c);
        lemma_append_chunk(s.skip(b), c);
        assert(full_blocks(s + c) =~= block_record(s.take(b)) + full_blocks(s.skip(b) + c));
    }
}

/// The input of each block of `s`, in order: the complete blocks, then the
/// trailing block if it is not empty.
pub open spec fn block_inputs(s: Seq<u8>) -> Seq<Seq<u8>>
    decreases s.len(),
{
    if s.len() == 0 {
        Seq::empty()
    } else if s.len() < BLOCK_SIZE {
        seq![s]
    } else {
        seq![s.take(BLOCK_SIZE as int)] + block_inputs(s.skip(BLOCK_SIZE as int))
    }
}

/// The records of `blocks`, one after another.
pub open spec fn records_of(blocks: Seq<Seq<u8>>) -> Seq<u8>
    decreases blocks.len(),
{
    if blocks.len() == 0 {
        Seq::empty()
    } else {
        block_record(blocks.first()) + records_of(blocks.drop_first())
    }
}

/// A stream is its magic followed by the record of each block, and the
/// blocks joined give back the input. Every block but the last is full; the
/// last holds at least one byte, and there is no block for empty input.
pub proof fn lemma_stream_blocks(data: Seq<u8>)
    ensures
        legacy_stream(data) == lz4_legacy_magic() + records_of(block_inputs(data)),
        block_inputs(data).flatten() == data,
        forall|i: int|
            0 <= i < block_inputs(data).len() - 1 ==> #[trigger] block_inputs(data)[i].len()
                == BLOCK_SIZE,
        block_inputs(data).len() == 0 <==> data.len() == 0,
        block_inputs(data).len() > 0 ==> 0 < block_inputs(data).last().len() <= BLOCK_SIZE,
    decreases data.len(),
{
    let n = BLOCK_SIZE as int;
    let bi = block_inputs(data);
    let none = Seq::<Seq<u8>>::empty();
    assert(none.flatten() == Seq::<u8>::empty());
    assert(records_of(none) == Seq::<u8>::empty());
    if data.len() == 0 {
        assert(full_blocks(data) == Seq::<u8>::empty());
        assert(tail_block(data) == data);
        assert(legacy_stream(data) =~= lz4_legacy_magic() + records_of(bi));
    } else if data.len() < BLOCK_SIZE {
        assert(bi.drop_first() =~= none);
        assert(records_of(bi) =~= block_record(data));
        assert(tail_block(data) == data);
        assert(bi.flatten() =~= data);
        assert(full_blocks(data) == Seq::<u8>::empty());
        assert(legacy_stream(data) =~= lz4_legacy_magic() + block_record(data));
    } else {
        let rest = data.skip(n);
        lemma_stream_blocks(rest);
        let br = block_inputs(rest);
        assert(bi.drop_first() =~= br);
        assert(records_of(bi) =~= block_record(data.take(n)) + records_of(br));
        assert(bi.flatten() =~= data.take(n) + br.flatten());
        assert(data =~= data.take(n) + rest);
        let x = full_blocks(rest) + trailing_record(tail_block(rest));
        assert(legacy_stream(rest) =~= lz4_legacy_magic() + x);
        assert((lz4_legacy_magic() + x).skip(4) =~= x);
        assert((lz4_legacy_magic() + records_of(br)).skip(4) =~= records_of(br));
        assert(records_of(br) == x);
        assert(full_blocks(data) == block_record(data.take(n)) + full_blocks(rest));
        assert(tail_block(data) == tail_block(rest));
        assert(legacy_stream(data) =~= lz4_legacy_magic() + records_of(bi));
        assert forall|i: int| 0 <= i < bi.len() - 1 implies #[trigger] bi[i].len()
            == BLOCK_SIZE by {
            if i > 0 {
                assert(bi[i] == br[i - 1]);
            }
        }
        if br.len() > 0 {
            assert(bi.last() == br.last());
        }
    }
}

/// Every stream the encoder writes is detected as a legacy LZ4 stream.
pub proof fn lemma_legacy_stream_detected(data: Seq<u8>)
    ensures
        magic_format(legacy_stream(data)) == Some(CompressedFormat::Lz4Legacy),
{
    let st = legacy_stream(data);
    assert(st.take(4) =~= lz4_legacy_magic());
    assert(st.take(2)[0] == 0x02u8);
}

/// A stream with no input is the magic alone.
pub proof fn lemma_empty_stream()
    ensures
        legacy_stream(Seq::<u8>::empty()) == lz4_legacy_magic(),
{
    assert(full_blocks(Seq::<u8>::empty()) == Seq::<u8>::empty());
    assert(tail_block(Seq::<u8>::empty()) == Seq::<u8>::empty());
    assert(lz4_legacy_magic() + Seq::<u8>::empty() + Seq::<u8>::empty() =~= lz4_legacy_magic());
}

/// Input of exactly one block gives one record and nothing after it.
pub proof fn lemma_exact_block(data: Seq<u8>)
    requires
        data.len() == BLOCK_SIZE,
    ensures
        legacy_stream(data) == lz4_legacy_magic() + block_record(data),
{
    let b = BLOCK_SIZE as int;
    assert(data.take(b) =~= data);
    assert(data.skip(b) =~= Seq::<u8>::empty());
    assert(full_blocks(Seq::<u8>::empty()) == Seq::<u8>::empty());
    assert(full_blocks(data) =~= block_record(data));
    assert(tail_block(Seq::<u8>::empty()) == Seq::<u8>::empty());
    assert(legacy_stream(data) =~= lz4_legacy_magic() + block_record(data));
}

/// Input of one byte over a block gives two records: the full block, then
/// a block of that one byte.
pub proof fn lemma_one_byte_over_block(data: Seq<u8>)
    requires
        data.len() == BLOCK_SIZE + 1,
    ensures
        legacy_stream(data) == lz4_legacy_magic() + block_record(data.take(BLOCK_SIZE as int))
            + block_record(data.skip(BLOCK_SIZE as int)),
        data.skip(BLOCK_SIZE as int).len() == 1,
{
    let b = BLOCK_SIZE as int;
    let rest = data.skip(b);
    assert(full_blocks(rest) == Seq::<u8>::empty());
    assert(tail_block(rest) == rest);
    assert(full_blocks(data) =~= block_record(data.take(b)));
    assert(tail_block(data) == rest);
}

/// Splitting the input over two writes changes nothing: the records and the
/// pending block are those of the joined input.
pub proof fn lemma_write_split(pending: Seq<u8>, a: Seq<u8>, b: Seq<u8>)
    requires
        pending.len() < BLOCK_SIZE,
    ensures
        full_blocks(pending + a) + full_blocks(tail_block(pending + a) + b) == full_blocks(
            pending + a + b,
        ),
        tail_block(tail_block(pending + a) + b) == tail_block(pending + a + b),
    decreases pending.len() + a.len(),
{
    let n = BLOCK_SIZE as int;
    let s = pending + a;
    if s.len() < BLOCK_SIZE {
        assert(full_blocks(s) == Seq::<u8>::empty());
        assert(tail_block(s) == s);
        assert(Seq::<u8>::empty() + full_blocks(s + b) =~= full_blocks(s + b));
    } else {
        let rest = s.skip(n);
        assert((s + b).take(n) =~= s.take(n));
        assert((s + b).skip(n) =~= rest + b);
        if pending.len() == 0 {
            assert(rest =~= Seq::<u8>::empty() + a.skip(n));
            lemma_write_split(Seq::<u8>::empty(), a.skip(n), b);
        } else {
            assert(rest =~= Seq::<u8>::empty() + a.skip(n - pending.len()));
            lemma_write_split(Seq::<u8>::empty(), a.skip(n - pending.len()), b);
        }
        assert(pending + a + b =~= s + b);
        assert(full_blocks(s) + full_blocks(tail_block(s) + b) =~= block_record(s.take(n)) + (
        full_blocks(rest) + full_blocks(tail_block(rest) + b)));
    }
}

/// A writer of the legacy LZ4 container into an in-memory sink.
///
/// Input is gathered into blocks of `BLOCK_SIZE` bytes; each complete block
/// is compressed and appended to the sink as one record.
pub struct Lz4LegacyEncoder {
    writer: Vec<u8>,
    buf: Vec<u8>,
}

impl Lz4LegacyEncoder {
    /// The bytes written to the sink so far.
    pub closed spec fn output(&self) -> Seq<u8> {
        self.writer@
    }

    /// The input bytes waiting for their block to be written.
    pub closed spec fn pending(&self) -> Seq<u8> {
        self.buf@
    }

    /// Between calls, a pending block is never complete.
    pub open spec fn wf(&self) -> bool {
        self.pending().len() < BLOCK_SIZE
    }

    /// Starts a stream on `writer` by appending the magic.
    pub fn new(writer: Vec<u8>) -> (r: Self)
        ensures
            r.wf(),
            r.output() == writer@ + lz4_legacy_magic(),
            r.pending() == Seq::<u8>::empty(),
    {
        let mut writer = writer;
        let ghost start = writer@;
        writer.push(0x02);
        writer.push(0x21);
        writer.push(0x4c);
        writer.push(0x18);
        assert(writer@ =~= start + lz4_legacy_magic());
        Lz4LegacyEncoder { writer, buf: Vec::with_capacity(BLOCK_SIZE) }
    }

    /// Writes the pending block as one record if it is complete or `force`
    /// is set; otherwise does nothing.
    pub fn write_block(&mut self, force: bool)
        requires
            old(self).pending().len() <= BLOCK_SIZE,
        ensures
            !force && old(self).pending().len() < BLOCK_SIZE ==> final(self).output()
                == old(self).output() && final(self).pending() == old(self).pending(),
            force || old(self).pending().len() == BLOCK_SIZE ==> final(self).output()
                == old(self).output() + block_record(old(self).pending()),
            force || old(self).pending().len() == BLOCK_SIZE ==> final(self).pending()
                == Seq::<u8>::empty(),
            force || old(self).pending().len() == BLOCK_SIZE ==> lz4_block_of(
                old(self).pending(),
            ).len() < 0x1_0000_0000,
    {
        if !force && self.buf.len() < BLOCK_SIZE {
            return;
        }
        let mut compressed = compress_block(self.buf.as_slice());
        proof {
            let k = self.buf@.len();
            assert(k * 110 / 100 <= 8388608 * 110 / 100) by (nonlinear_arith)
                requires
                    k <= 8388608,
            ;
        }
        let mut len = u32_le_bytes(compressed.len() as u32);
        self.writer.append(&mut len);
        self.writer.append(&mut compressed);
        self.buf.clear();
    }

    /// Takes in all of `data`, writing a record for each block it completes.
    pub fn write(&mut self, data: &[u8]) -> (r: usize)
        requires
            old(self).wf(),
        ensures
            r == data@.len(),
            final(self).wf(),
            final(self).output() == old(self).output() + full_blocks(old(self).pending() + data@),
            final(self).pending() == tail_block(old(self).pending() + data@),
    {
        let ghost out0 = self.output();
        let ghost pend0 = self.pending();
        let mut pos: usize = 0;
        assert(pend0 + data@.take(0) =~= pend0);
        while pos < data.len()
            invariant
                pos <= data@.len(),
                self.wf(),
                self.output() == out0 + full_blocks(pend0 + data@.take(pos as int)),
                self.pending() == tail_block(pend0 + data@.take(pos as int)),
            decreases data@.len() - pos,
        {
            let room = BLOCK_SIZE - self.buf.len();
            let remaining = data.len() - pos;
            let to_write = if remaining < room { remaining } else { room };
            let chunk = vstd::slice::slice_subrange(data, pos, pos + to_write);
            let ghost before = pend0 + data@.take(pos as int);
            proof {
                lemma_append_chunk(before, chunk@);
                assert(before + chunk@ =~= pend0 + data@.take(pos + to_write));
            }
            self.buf.extend_from_slice(chunk);
            assert(self.buf@ =~= tail_block(before) + chunk@);
            self.write_block(false);
            pos = pos + to_write;
        }
        assert(data@.take(pos as int) =~= data@);
        data.len()
    }

    /// Writes a record only for a complete block: a partial block stays
    /// pending, so a flush never splits the input into a short block.
    pub fn flush(&mut self)
        requires
            old(self).wf(),
        ensures
            final(self).wf(),
            final(self).output() == old(self).output(),
            final(self).pending() == old(self).pending(),
    {
        self.write_block(false);
    }

    /// Hands over what was written to the sink so far and empties it, so
    /// that the bytes can be passed on while the stream goes on.
    pub fn take_output(&mut self) -> (r: Vec<u8>)
        ensures
            r@ == old(self).output(),
            final(self).output() == Seq::<u8>::empty(),
            final(self).pending() == old(self).pending(),
    {
        let mut out = Vec::new();
        core::mem::swap(&mut self.writer, &mut out);
        out
    }

    /// Writes the pending block if it holds any input, even a short one, and
    /// returns the sink.
    pub fn finish(self) -> (r: Vec<u8>)
        requires
            self.pending().len() <= BLOCK_SIZE,
        ensures
            r@ == self.output() + trailing_record(self.pending()),
    {
        let mut enc = self;
        if enc.buf.len() > 0 {
            enc.write_block(true);
        } else {
            assert(enc.writer@ =~= enc.writer@ + trailing_record(enc.buf@));
        }
        enc.writer
    }
}

} // verus!
