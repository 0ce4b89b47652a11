//! A writer that frames its output in a format chosen by the caller.
use vstd::prelude::*;

use std::io::Write;

use flate2::write::GzEncoder;
use flate2::Compression;

use crate::format::{lz4_legacy_magic, CompressedFormat};
use crate::lz4_legacy::{full_blocks, tail_block, trailing_record, Lz4LegacyEncoder};

verus! {

/// A gzip encoder of flate2 writing into an in-memory sink, opaque to the
/// proofs: flate2's type carries a `Write` bound that cannot be declared.
#[verifier::external_body]
struct GzStream {
    inner: GzEncoder<Vec<u8>>,
}

/// A gzip encoder, with the input it has taken so far and the input length
/// at each successful flush.
pub struct GzipEncoder {
    stream: GzStream,
    input: Ghost<Seq<u8>>,
    flushes: Ghost<Seq<nat>>,
}

impl GzipEncoder {
    /// The input the encoder has taken so far.
    pub closed spec fn input(&self) -> Seq<u8> {
        self.input@
    }

    /// How much input had been taken at each flush, in order.
    pub closed spec fn flushes(&self) -> Seq<nat> {
        self.flushes@
    }
}

/// Relies on flate2::write::GzEncoder::new with Compression::default(): a
/// gzip encoder at the default level that writes into `sink`.
#[verifier::external_body]
fn gz_new(sink: Vec<u8>) -> GzStream {
    GzStream { inner: GzEncoder::new(sink, Compression::default()) }
}

/// Relies on Write::write of flate2::write::GzEncoder: on success it took
/// at most all of `data`.
#[verifier::external_body]
fn gz_write(enc: &mut GzStream, data: &[u8]) -> (r: std::io::Result<usize>)
    ensures
        r matches Ok(n) ==> n <= data@.len(),
{
    enc.inner.write(data)
}

/// Relies on Write::flush of flate2::write::GzEncoder.
#[verifier::external_body]
fn gz_flush(enc: &mut GzStream) -> std::io::Result<()> {
    enc.inner.flush()
}

/// Relies on flate2::write::GzEncoder::get_mut: the sink may be emptied as
/// long as its bytes are passed on in order.
#[verifier::external_body]
fn gz_take_output(enc: &mut GzStream) -> Vec<u8> {
    core::mem::take(enc.inner.get_mut())
}

/// Relies on flate2::write::GzEncoder::finish: writes the rest of the
/// stream and its trailer, then returns the sink.
#[verifier::external_body]
fn gz_finish(enc: GzStream) -> std::io::Result<Vec<u8>> {
    enc.inner.finish()
}

/// A sink wrapped in the encoder of one format, fixed at creation.
pub enum CompressedWriter {
    Raw(Vec<u8>),
    Gzip(GzipEncoder),
    Lz4Legacy(Lz4LegacyEncoder),
}

impl CompressedWriter {
    /// The format this writer produces.
    pub open spec fn format_of(&self) -> CompressedFormat {
        match self {
            CompressedWriter::Raw(_) => CompressedFormat::Raw,
            CompressedWriter::Gzip(_) => CompressedFormat::Gzip,
            CompressedWriter::Lz4Legacy(_) => CompressedFormat::Lz4Legacy,
        }
    }

    /// A legacy LZ4 encoder inside is well formed.
    pub open spec fn wf(&self) -> bool {
        match self {
            CompressedWriter::Lz4Legacy(e) => e.wf(),
            _ => true,
        }
    }

    /// Wraps `writer` in the encoder of `format`; the legacy LZ4 encoder
    /// writes its magic at once.
    pub fn new(writer: Vec<u8>, format: CompressedFormat) -> (r: Self)
        ensures
            r.wf(),
            r.format_of() == format,
            format == CompressedFormat::Raw ==> r == CompressedWriter::Raw(writer),
            r matches CompressedWriter::Lz4Legacy(e) ==> e.output() == writer@ + lz4_legacy_magic(),
            r matches CompressedWriter::Lz4Legacy(e) ==> e.pending() == Seq::<u8>::empty(),
            r matches CompressedWriter::Gzip(g) ==> g.input() == Seq::<u8>::empty()
                && g.flushes() == Seq::<nat>::empty(),
    {
        match format {
            CompressedFormat::Raw => CompressedWriter::Raw(writer),
            CompressedFormat::Gzip => CompressedWriter::Gzip(
                GzipEncoder {
                    stream: gz_new(writer),
                    input: Ghost(Seq::empty()),
                    flushes: Ghost(Seq::empty()),
                },
            ),
            CompressedFormat::Lz4Legacy => CompressedWriter::Lz4Legacy(Lz4LegacyEncoder::new(writer)),
        }
    }

    /// The format this writer produces.
    pub fn format(&self) -> (r: CompressedFormat)
        ensures
            r == self.format_of(),
    {
        match self {
            CompressedWriter::Raw(_) => CompressedFormat::Raw,
            CompressedWriter::Gzip(_) => CompressedFormat::Gzip,
            CompressedWriter::Lz4Legacy(_) => CompressedFormat::Lz4Legacy,
        }
    }

    /// Passes `data` to the encoder and returns how much of it was taken.
    /// The raw and legacy LZ4 writers always take all of it.
    pub fn write(&mut self, data: &[u8]) -> (r: std::io::Result<usize>)
        requires
            old(self).wf(),
        ensures
            final(self).wf(),
            final(self).format_of() == old(self).format_of(),
            r matches Ok(n) ==> n <= data@.len(),
            *old(self) matches CompressedWriter::Raw(v) ==> (r matches Ok(n) && n == data@.len()),
            *old(self) matches CompressedWriter::Raw(v) ==> (*final(self) matches CompressedWriter::Raw(
                w,
            ) && w@ == v@ + data@),
            *old(self) matches CompressedWriter::Lz4Legacy(e) ==> (r matches Ok(n) && n
                == data@.len()),
            *old(self) matches CompressedWriter::Lz4Legacy(e) ==> (*final(self) matches CompressedWriter::Lz4Legacy(f) && f.output() == e.output() + full_blocks(
                e.pending() + data@,
            ) && f.pending() == tail_block(e.pending() + data@)),
            *old(self) matches CompressedWriter::Gzip(g) ==> (*final(self) matches CompressedWriter::Gzip(
                h,
            ) && h.flushes() == g.flushes() && match r {
                Ok(n) => h.input() == g.input() + data@.take(n as int),
                Err(_) => h.input() == g.input(),
            }),
    {
        match self {
            CompressedWriter::Raw(w) => {
                w.extend_from_slice(data);
                proof {
                    assert(w@ =~= old(self)->Raw_0@ + data@);
                }
                Ok(data.len())
            },
            CompressedWriter::Gzip(g) => {
                let r = gz_write(&mut g.stream, data);
                if let Ok(n) = r {
                    g.input = Ghost(g.input@ + data@.take(n as int));
                }
                r
            },
            CompressedWriter::Lz4Legacy(w) => Ok(w.write(data)),
        }
    }

    /// Flushes the encoder. The raw and legacy LZ4 writers change nothing:
    /// the legacy encoder keeps a partial block pending.
    pub fn flush(&mut self) -> (r: std::io::Result<()>)
        requires
            old(self).wf(),
        ensures
            final(self).wf(),
            final(self).format_of() == old(self).format_of(),
            *old(self) matches CompressedWriter::Raw(v) ==> r is Ok && *final(self) == *old(self),
            *old(self) matches CompressedWriter::Lz4Legacy(e) ==> r is Ok,
            *old(self) matches CompressedWriter::Gzip(g) ==> (*final(self) matches CompressedWriter::Gzip(
                h,
            ) && h.input() == g.input() && if r is Ok {
                h.flushes() == g.flushes().push(g.input().len())
            } else {
                h.flushes() == g.flushes()
            }),
            *old(self) matches CompressedWriter::Lz4Legacy(e) ==> (*final(self) matches CompressedWriter::Lz4Legacy(f) && f.output() == e.output() && f.pending()
                == e.pending()),
    {
        match self {
            CompressedWriter::Raw(_) => Ok(()),
            CompressedWriter::Gzip(g) => {
                let r = gz_flush(&mut g.stream);
                if r.is_ok() {
                    g.flushes = Ghost(g.flushes@.push(g.input@.len()));
                }
                r
            },
            CompressedWriter::Lz4Legacy(w) => {
                w.flush();
                Ok(())
            },
        }
    }

    /// Hands over the bytes in the sink so far and empties it, so that they
    /// can be passed on while the stream goes on.
    pub fn take_output(&mut self) -> (r: Vec<u8>)
        requires
            old(self).wf(),
        ensures
            final(self).wf(),
            final(self).format_of() == old(self).format_of(),
            *old(self) matches CompressedWriter::Raw(v) ==> r@ == v@,
            *old(self) matches CompressedWriter::Raw(v) ==> (*final(self) matches CompressedWriter::Raw(
                w,
            ) && w@ == Seq::<u8>::empty()),
            *old(self) matches CompressedWriter::Lz4Legacy(e) ==> r@ == e.output(),
            *old(self) matches CompressedWriter::Lz4Legacy(e) ==> (*final(self) matches CompressedWriter::Lz4Legacy(f) && f.output() == Seq::<u8>::empty()
                && f.pending() == e.pending()),
            *old(self) matches CompressedWriter::Gzip(g) ==> (*final(self) matches CompressedWriter::Gzip(
                h,
            ) && h.input() == g.input() && h.flushes() == g.flushes()),
    {
        match self {
            CompressedWriter::Raw(w) => {
                let mut out = Vec::new();
                core::mem::swap(w, &mut out);
                out
            },
            CompressedWriter::Gzip(g) => gz_take_output(&mut g.stream),
            CompressedWriter::Lz4Legacy(w) => w.take_output(),
        }
    }

    /// Ends the stream (gzip writes its trailer, the legacy LZ4 encoder its
    /// last block if that holds any input) and returns the sink.
    pub fn finish(self) -> (r: std::io::Result<Vec<u8>>)
        requires
            self.wf(),
        ensures
            self matches CompressedWriter::Raw(v) ==> (r matches Ok(w) && w == v),
            self matches CompressedWriter::Lz4Legacy(e) ==> (r matches Ok(w) && w@ == e.output()
                + trailing_record(e.pending())),
    {
        match self {
            CompressedWriter::Raw(w) => Ok(w),
            CompressedWriter::Gzip(g) => gz_finish(g.stream),
            CompressedWriter::Lz4Legacy(w) => Ok(w.finish()),
        }
    }
}

} // verus!
