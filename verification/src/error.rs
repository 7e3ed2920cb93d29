use vstd::prelude::*;

verus! {

/// The typed failures of asset decoding and encoding. The decoders in this
/// crate raise the decoding variants; the wrappers around file reading and
/// image encoding report the others.
#[derive(Clone, Copy, PartialEq, Eq, Structural, Debug)]
pub enum Error {
    Io,
    PngEncodingError,
    PngDecodingError,
    HdrDecodingError,
    ParseIntError,
}

} // verus!
