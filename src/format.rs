//! The supported container formats and their detection from magic bytes.
use vstd::prelude::*;

verus! {

/// Relies on std::io::Error being an opaque value that is only carried through.
#[verifier::external_type_specification]
#[verifier::external_body]
pub struct ExIoError(std::io::Error);

/// A container format, as detected on a source or chosen for a sink.
#[derive(Clone, Copy, Debug, PartialEq, Eq, Structural)]
pub enum CompressedFormat {
    Raw,
    Gzip,
    Lz4Legacy,
}

/// Errors of format detection and of the framing writers.
#[derive(Debug)]
pub enum Error {
    /// No known magic was found and raw fallback was not allowed.
    UnknownFormat,
    /// The underlying source or sink failed.
    IoError(std::io::Error),
}

/// Number of bytes read from a source to detect its format.
pub const MAGIC_LEN: usize = 4;

/// The two bytes that start every gzip member.
pub open spec fn gzip_magic() -> Seq<u8> {
    seq![0x1fu8, 0x8bu8]
}

/// The four bytes that start a legacy LZ4 stream.
pub open spec fn lz4_legacy_magic() -> Seq<u8> {
    seq![0x02u8, 0x21u8, 0x4cu8, 0x18u8]
}

/// The format whose magic starts `magic`, if any.
pub open spec fn magic_format(magic: Seq<u8>) -> Option<CompressedFormat> {
    if magic.len() >= 2 && magic.take(2) == gzip_magic() {
        Some(CompressedFormat::Gzip)
    } else if magic.len() >= 4 && magic.take(4) == lz4_legacy_magic() {
        Some(CompressedFormat::Lz4Legacy)
    } else {
        None
    }
}

/// Bytes that start with neither the gzip nor the legacy LZ4 magic have no
/// known format: `detect_format` reads them raw with fallback, and refuses
/// them with `UnknownFormat` without it.
pub proof fn lemma_no_magic(magic: Seq<u8>)
    requires
        magic.len() >= 4,
        magic.take(2) != gzip_magic(),
        magic.take(4) != lz4_legacy_magic(),
    ensures
        magic_format(magic) == None::<CompressedFormat>,
{
}

/// Relies on std::io::Error::from(ErrorKind::UnexpectedEof): the error that
/// `read_exact` reports when a source ends early.
#[verifier::external_body]
fn unexpected_eof() -> std::io::Error {
    std::io::Error::from(std::io::ErrorKind::UnexpectedEof)
}

/// Decides the format of a stream from the first bytes read from it.
///
/// Fewer than four bytes is a short read. A gzip magic wins over the legacy
/// LZ4 magic; with neither, the stream is raw if `raw_if_unknown` is set.
pub fn detect_format(magic: &[u8], raw_if_unknown: bool) -> (r: Result<CompressedFormat, Error>)
    ensures
        magic@.len() < 4 <==> (r matches Err(Error::IoError(_))),
        magic@.len() >= 4 ==> match magic_format(magic@) {
            Some(f) => r == Ok::<CompressedFormat, Error>(f),
            None => if raw_if_unknown {
                r == Ok::<CompressedFormat, Error>(CompressedFormat::Raw)
            } else {
                r matches Err(Error::UnknownFormat)
            },
        },
{
    if magic.len() < MAGIC_LEN {
        return Err(Error::IoError(unexpected_eof()));
    }
    let is_gzip = magic[0] == 0x1f && magic[1] == 0x8b;
    let is_lz4 = magic[0] == 0x02 && magic[1] == 0x21 && magic[2] == 0x4c && magic[3] == 0x18;
    proof {
        assert(is_gzip <==> magic@.take(2) =~= gzip_magic());
        assert(is_lz4 <==> magic@.take(4) =~= lz4_legacy_magic());
    }
    if is_gzip {
        Ok(CompressedFormat::Gzip)
    } else if is_lz4 {
        Ok(CompressedFormat::Lz4Legacy)
    } else if raw_if_unknown {
        Ok(CompressedFormat::Raw)
    } else {
        Err(Error::UnknownFormat)
    }
}

} // verus!
