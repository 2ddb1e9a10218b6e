//! Reversible compression of chunk bytes.

use vstd::prelude::*;
use std::io::Cursor;

verus! {

/// Size of the buffers that the compressor and the decompressor work with.
pub const BUFFER_SIZE: usize = 4_096;

/// Compression quality, on Brotli's scale from 0 to 11.
pub const QUALITY: u32 = 5;

/// Base-2 logarithm of the size of the compression window.
pub const WINDOW_SIZE: u32 = 20;

/// The step at which compression failed.
#[derive(Debug, Clone, Copy, PartialEq, Eq, Hash, Structural)]
pub enum CompressError {
    /// The compressor reported an error.
    Compress,
    /// The bytes are no compressed stream.
    Decompress,
}

/// Selects a compression algorithm.
#[derive(Debug, Clone, Copy, PartialEq, Eq, Hash, Structural)]
pub enum CompressionParams {
    /// Bytes are stored as they are.
    Off,
    Brotli,
}

/// A compression algorithm. Its tag is stored with the compressed bytes, so
/// that a reader needs no other hint.
#[derive(Debug, Clone, Copy, PartialEq, Eq, Hash, Structural)]
pub enum Compression {
    /// Bytes are stored as they are.
    Off,
    Brotli,
}

/// The Brotli stream that the compressor writes for `input` at a quality
/// from 2 to 11 and the given window size; `None` where the compressor
/// reports an error.
pub uninterp spec fn brotli_compressed(input: Seq<u8>, quality: u32, window: u32) -> Option<
    Seq<u8>,
>;

/// The bytes that the decompressor reads out of a Brotli stream; `None` where
/// `input` is no such stream.
pub uninterp spec fn brotli_decompressed(input: Seq<u8>) -> Option<Seq<u8>>;

/// Compresses with `brotli::CompressorWriter` into a vector. At a quality
/// of 2 or more, whether the compressor succeeds, and the stream that it
/// writes, are a function of the input and the two parameters; the vector
/// takes whatever is written. Nothing is claimed of what the decompressor
/// makes of the stream.
#[verifier::external_body]
fn brotli_compress(bytes: &[u8], buffer: usize, quality: u32, window: u32) -> (r: Result<
    Vec<u8>,
    CompressError,
>)
    requires
        2 <= quality <= 11,
    ensures
        match brotli_compressed(bytes@, quality, window) {
            Some(out) => r matches Ok(v) && v@ == out,
            None => r == Err::<Vec<u8>, CompressError>(CompressError::Compress),
        },
{
    let sink = Cursor::new(Vec::with_capacity(bytes.len()));
    let mut encoder = brotli::CompressorWriter::new(sink, buffer, quality, window);
    match std::io::copy(&mut Cursor::new(bytes), &mut encoder) {
        Ok(_) => Ok(encoder.into_inner().into_inner()),
        Err(_) => Err(CompressError::Compress),
    }
}

/// Decompresses with `brotli::Decompressor`. What comes out is a function of
/// the input alone; an input that is no Brotli stream is an error.
#[verifier::external_body]
fn brotli_decompress(bytes: &[u8], buffer: usize) -> (r: Result<Vec<u8>, CompressError>)
    ensures
        match brotli_decompressed(bytes@) {
            Some(out) => r matches Ok(v) && v@ == out,
            None => r == Err::<Vec<u8>, CompressError>(CompressError::Decompress),
        },
{
    let mut out = Vec::with_capacity(bytes.len());
    match std::io::copy(&mut brotli::Decompressor::new(bytes, buffer), &mut out) {
        Ok(_) => Ok(out),
        Err(_) => Err(CompressError::Decompress),
    }
}

/// A copy of `bytes`.
pub fn copy_bytes(bytes: &[u8]) -> (out: Vec<u8>)
    ensures
        out@ == bytes@,
{
    let mut out: Vec<u8> = Vec::new();
    crate::process::format::put_all(&mut out, bytes);
    assert(out@ =~= bytes@);
    out
}

impl CompressionParams {
    /// The algorithm that these parameters select.
    pub fn create(&self) -> (r: Compression)
        ensures
            r == self.spec_create(),
    {
        match self {
            CompressionParams::Off => Compression::Off,
            CompressionParams::Brotli => Compression::Brotli,
        }
    }

    pub open spec fn spec_create(self) -> Compression {
        match self {
            CompressionParams::Off => Compression::Off,
            CompressionParams::Brotli => Compression::Brotli,
        }
    }
}

impl Compression {
    /// What decompressing `bytes` gives; `None` where it fails.
    pub open spec fn spec_decompress(self, bytes: Seq<u8>) -> Option<Seq<u8>> {
        match self {
            Compression::Off => Some(bytes),
            Compression::Brotli => brotli_decompressed(bytes),
        }
    }

    /// The compressed form of `bytes`: the stream that the compressor
    /// writes, where the decompressor makes of it the bytes again. `None`
    /// where the compressor reports an error, or its stream does not
    /// decompress to `bytes`. Without compression the bytes stay as they
    /// are.
    pub open spec fn spec_compress(self, bytes: Seq<u8>) -> Option<Seq<u8>> {
        match self {
            Compression::Off => Some(bytes),
            Compression::Brotli => match brotli_compressed(bytes, QUALITY, WINDOW_SIZE) {
                Some(out) => if brotli_decompressed(out) == Some(bytes) {
                    Some(out)
                } else {
                    None
                },
                None => None,
            },
        }
    }

    /// Decompressing undoes compressing.
    pub proof fn lemma_decompress_compress(self, bytes: Seq<u8>)
        requires
            self.spec_compress(bytes) is Some,
        ensures
            self.spec_decompress(self.spec_compress(bytes)->0) == Some(bytes),
    {
    }

    /// Compresses `bytes`, and decompresses what came out to see that it
    /// gives `bytes` again: nothing is handed out that cannot be read back.
    /// Succeeds exactly where the algorithm has a compressed form for the
    /// bytes. Without compression this always succeeds.
    pub fn compress(&self, bytes: &[u8]) -> (r: Result<Vec<u8>, CompressError>)
        ensures
            match self.spec_compress(bytes@) {
                Some(out) => r matches Ok(v) && v@ == out && self.spec_decompress(out) == Some(
                    bytes@,
                ),
                None => r == Err::<Vec<u8>, CompressError>(CompressError::Compress),
            },
    {
        match self {
            Compression::Off => Ok(copy_bytes(bytes)),
            Compression::Brotli => match brotli_compress(
                bytes,
                BUFFER_SIZE,
                QUALITY,
                WINDOW_SIZE,
            ) {
                Ok(out) => {
                    let back = brotli_decompress(out.as_slice(), BUFFER_SIZE);
                    finish_compress(bytes, out, back)
                },
                Err(_) => Err(CompressError::Compress),
            },
        }
    }

    /// Decompresses `bytes`: fails exactly where they are no compressed
    /// stream of this algorithm.
    pub fn decompress(&self, bytes: &[u8]) -> (r: Result<Vec<u8>, CompressError>)
        ensures
            match self.spec_decompress(bytes@) {
                Some(out) => r matches Ok(v) && v@ == out,
                None => r == Err::<Vec<u8>, CompressError>(CompressError::Decompress),
            },
    {
        match self {
            Compression::Off => Ok(copy_bytes(bytes)),
            Compression::Brotli => brotli_decompress(bytes, BUFFER_SIZE),
        }
    }

    /// The tag under which this algorithm is stored.
    pub open spec fn spec_tag(self) -> u64 {
        match self {
            Compression::Off => 0,
            Compression::Brotli => 1,
        }
    }

    /// The algorithm stored under `tag`.
    pub open spec fn spec_from_tag(tag: u64) -> Option<Compression> {
        if tag == 0 {
            Some(Compression::Off)
        } else if tag == 1 {
            Some(Compression::Brotli)
        } else {
            None
        }
    }

    pub fn tag(&self) -> (r: u64)
        ensures
            r == self.spec_tag(),
            Compression::spec_from_tag(r) == Some(*self),
    {
        match self {
            Compression::Off => 0,
            Compression::Brotli => 1,
        }
    }

    pub fn from_tag(tag: u64) -> (r: Option<Compression>)
        ensures
            r == Compression::spec_from_tag(tag),
            r matches Some(c) ==> c.spec_tag() == tag,
    {
        if tag == 0 {
            Some(Compression::Off)
        } else if tag == 1 {
            Some(Compression::Brotli)
        } else {
            None
        }
    }
}

/// Settles whether the stream `out` stands for `bytes`: it does where
/// `back`, what the decompressor made of it, is those bytes; else the
/// compress step has failed.
pub fn finish_compress(bytes: &[u8], out: Vec<u8>, back: Result<Vec<u8>, CompressError>) -> (r:
    Result<Vec<u8>, CompressError>)
    ensures
        r == if back matches Ok(again) && again@ == bytes@ {
            Ok::<Vec<u8>, CompressError>(out)
        } else {
            Err::<Vec<u8>, CompressError>(CompressError::Compress)
        },
{
    match back {
        Ok(again) => {
            if crate::path::bytes_eq(again.as_slice(), bytes) {
                Ok(out)
            } else {
                Err(CompressError::Compress)
            }
        },
        Err(_) => Err(CompressError::Compress),
    }
}

/// An algorithm that compresses, and undoes it.
pub trait Compress {
    fn compress(&self, bytes: &[u8]) -> Result<Vec<u8>, CompressError>;

    fn decompress(&self, bytes: &[u8]) -> Result<Vec<u8>, CompressError>;
}

impl Compress for Compression {
    fn compress(&self, bytes: &[u8]) -> (r: Result<Vec<u8>, CompressError>)
        ensures
            match self.spec_compress(bytes@) {
                Some(out) => r matches Ok(v) && v@ == out && self.spec_decompress(out) == Some(
                    bytes@,
                ),
                None => r == Err::<Vec<u8>, CompressError>(CompressError::Compress),
            },
    {
        Compression::compress(self, bytes)
    }

    fn decompress(&self, bytes: &[u8]) -> (r: Result<Vec<u8>, CompressError>)
        ensures
            match self.spec_decompress(bytes@) {
                Some(out) => r matches Ok(v) && v@ == out,
                None => r == Err::<Vec<u8>, CompressError>(CompressError::Decompress),
            },
    {
        Compression::decompress(self, bytes)
    }
}

impl crate::process::Instanciate for CompressionParams {
    type Instance = Compression;

    fn create(&self) -> (r: Compression)
        ensures
            r == self.spec_create(),
    {
        CompressionParams::create(self)
    }
}


impl CompressError {
    pub open spec fn spec_message(self) -> Seq<char> {
        match self {
            CompressError::Compress => "Compression(brotli) failed to compress bytes"@,
            CompressError::Decompress => "Decompression(brotli) failed to decompress bytes"@,
        }
    }

    /// What went wrong, in words.
    pub fn message(&self) -> (r: &'static str)
        ensures
            r@ == self.spec_message(),
    {
        match self {
            CompressError::Compress => "Compression(brotli) failed to compress bytes",
            CompressError::Decompress => "Decompression(brotli) failed to decompress bytes",
        }
    }
}

impl Compression {
    pub open spec fn spec_name(self) -> Seq<char> {
        match self {
            Compression::Off => "None"@,
            Compression::Brotli => "Brotli"@,
        }
    }

    /// The name of the algorithm.
    pub fn name(&self) -> (r: &'static str)
        ensures
            r@ == self.spec_name(),
    {
        match self {
            Compression::Off => "None",
            Compression::Brotli => "Brotli",
        }
    }
}

} // verus!
