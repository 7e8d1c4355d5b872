//! LZMA2 compression of stored data, through the `xz2` crate.
use vstd::prelude::*;
use std::io::{Read, Write};
use xz2::read::XzDecoder;
use xz2::stream::{Check, Filters, LzmaOptions, Stream};
use xz2::write::XzEncoder;

verus! {

#[verifier::external_type_specification]
#[verifier::external_body]
pub struct ExXzError(xz2::stream::Error);

#[verifier::external_type_specification]
#[verifier::external_body]
pub struct ExIoError(std::io::Error);

/// Preset of the LZMA options: the highest compression level.
pub const LZMA_PRESET: u32 = 9;

/// Dictionary size in bytes: 1 MiB.
pub const DICT_SIZE: u32 = 1_048_576;

/// Length of matches the encoder settles for.
pub const NICE_LEN: u32 = 128;

/// The xz stream (LZMA2, CRC64 check) that liblzma's single-threaded encoder
/// makes of `data` with the given preset, dictionary size and match length.
pub uninterp spec fn xz_encoded(data: Seq<u8>, preset: u32, dict_size: u32, nice_len: u32) -> Seq<u8>;

/// What liblzma's decoder makes of the single xz stream `data`: the decoded bytes,
/// or `None` where `data` is not a well-formed xz stream.
pub uninterp spec fn xz_decoded(data: Seq<u8>) -> Option<Seq<u8>>;

/// Why compression or decompression failed.
#[derive(Debug)]
pub enum CompressError {
    /// `xz2` refused the encoder options or stream.
    Lzma(xz2::stream::Error),
    /// Writing, finishing or reading a stream failed.
    Io(std::io::Error),
}

/// The `xz2` encoder chain: `LzmaOptions::new_preset(preset)` with `dict_size` and
/// `nice_len` set, a single LZMA2 filter (`Filters::lzma2`),
/// `Stream::new_stream_encoder` with a CRC64 check, and an `XzEncoder` into an
/// empty `Vec` that is given all of `data` (`write_all`) and finished. On success
/// the output is the encoding named by `xz_encoded` for these arguments, and
/// liblzma's decoder gives `data` back from it. liblzma accepts a preset level up
/// to 9 with no flags, a dictionary of 4096 bytes to 1.5 GiB, and a match length
/// of 4 to 273 (at least the hash length of every match finder a preset picks):
/// with such options the chain succeeds. An allocation that fails inside liblzma
/// is left aside here, as Rust's own allocations are.
#[verifier::external_body]
fn xz_encode_lzma2_crc64(data: &[u8], preset: u32, dict_size: u32, nice_len: u32) -> (r: Result<Vec<u8>, CompressError>)
    ensures
        preset <= 9 && 4096 <= dict_size <= 1_610_612_736 && 4 <= nice_len <= 273 ==> r is Ok,
        r matches Ok(out) ==> out@ == xz_encoded(data@, preset, dict_size, nice_len),
        r matches Ok(out) ==> xz_decoded(out@) == Some(data@),
{
    let mut opts = LzmaOptions::new_preset(preset).map_err(CompressError::Lzma)?;
    opts.dict_size(dict_size).nice_len(nice_len);
    let mut filters = Filters::new();
    filters.lzma2(&opts);
    let stream = Stream::new_stream_encoder(&filters, Check::Crc64).map_err(CompressError::Lzma)?;
    let mut encoder = XzEncoder::new_stream(Vec::new(), stream);
    encoder.write_all(data).map_err(CompressError::Io)?;
    encoder.finish().map_err(CompressError::Io)
}

/// `XzDecoder::new` (reading, one xz stream) over `data`, read to the end
/// (`read_to_end`) into an empty `Vec`. It returns `Ok` exactly when `data` is a
/// well-formed xz stream, with the bytes it decodes to. The decoder has no memory
/// limit; an allocation that fails inside liblzma is left aside here, as Rust's
/// own allocations are.
#[verifier::external_body]
fn xz_decode(data: &[u8]) -> (r: Result<Vec<u8>, std::io::Error>)
    ensures
        r is Ok <==> xz_decoded(data@) is Some,
        r matches Ok(out) ==> xz_decoded(data@) == Some(out@),
{
    let mut out = Vec::new();
    XzDecoder::new(data).read_to_end(&mut out)?;
    Ok(out)
}

/// Compresses `data` with LZMA2 at the highest preset, a 1 MiB dictionary and
/// matches of 128 bytes, into the xz format with a CRC64 check. These options are
/// all within what liblzma accepts, so it succeeds, and the result is exactly that
/// encoding, which decompresses back to `data`.
pub fn compress_lzma2_max(data: &[u8]) -> (r: Result<Vec<u8>, CompressError>)
    ensures
        r is Ok,
        r matches Ok(out) ==> out@ == xz_encoded(data@, LZMA_PRESET, DICT_SIZE, NICE_LEN),
        r matches Ok(out) ==> xz_decoded(out@) == Some(data@),
{
    xz_encode_lzma2_crc64(data, LZMA_PRESET, DICT_SIZE, NICE_LEN)
}

/// Decompresses the xz data `data`: `Ok` exactly when `data` is a well-formed xz
/// stream, with what it decodes to; otherwise the decoder's error.
pub fn decompress_lzma2(data: &[u8]) -> (r: Result<Vec<u8>, CompressError>)
    ensures
        r is Ok <==> xz_decoded(data@) is Some,
        r matches Ok(out) ==> xz_decoded(data@) == Some(out@),
{
    match xz_decode(data) {
        Ok(out) => Ok(out),
        Err(e) => Err(CompressError::Io(e)),
    }
}

} // verus!
