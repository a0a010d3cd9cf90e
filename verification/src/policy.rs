//! The per-run configuration: what to do with each kind of file, what to do
//! when an output path is already taken, and how parsed raw files are
//! re-encoded.

use vstd::prelude::*;

verus! {

/// Action for files that cannot be parsed as raw images (plain images and
/// everything else).
#[derive(Copy, Clone, Debug, PartialEq, Eq, Structural)]
pub enum UnparsableAction {
    Copy,
    Move,
    Ignore,
}

/// Action for files classified as raw camera images; `Parse` decodes the
/// raw file and re-encodes it with the configured encoder.
#[derive(Copy, Clone, Debug, PartialEq, Eq, Structural)]
pub enum ParsableAction {
    Copy,
    Move,
    Ignore,
    Parse,
}

/// What to do when the computed output path already exists: search for an
/// unused name, or skip the file.
#[derive(Copy, Clone, Debug, PartialEq, Eq, Structural)]
pub enum ExistingAction {
    Rename,
    Ignore,
}

/// The output format that parsed raw files are encoded to.
#[derive(Copy, Clone, Debug, PartialEq, Eq, Structural)]
pub enum EncodedType {
    Jpeg,
    Png,
    Tiff,
}

/// The kind of an input file, derived from its extension alone.
#[derive(Copy, Clone, Debug, PartialEq, Eq, Structural)]
pub enum FileKind {
    Raw,
    Image,
    Other,
}

/// Compression level choice for PNG encoding.
#[derive(Copy, Clone, Debug, PartialEq, Eq, Structural)]
pub enum PngCompression {
    Default,
    Fast,
    Best,
}

/// Filter strategy choice for PNG encoding.
#[derive(Copy, Clone, Debug, PartialEq, Eq, Structural)]
pub enum PngFilter {
    NoFilter,
    Sub,
    Up,
    Avg,
    Paeth,
    Adaptive,
}

/// The encoder invoked for a Raw/Parse job, together with its settings.
#[derive(Copy, Clone, Debug, PartialEq, Eq, Structural)]
pub enum EncoderType {
    JpegEncoder(u8),
    PngEncoder(PngCompression, PngFilter),
    TiffEncoder,
}

/// The file extension that outputs of the given encoded type carry.
pub open spec fn spec_target_extension(t: EncodedType) -> Seq<char> {
    match t {
        EncodedType::Jpeg => "jpg"@,
        EncodedType::Png => "png"@,
        EncodedType::Tiff => "tiff"@,
    }
}

/// Maps the chosen output format to the extension its files are given.
pub fn target_extension(t: EncodedType) -> (r: &'static str)
    ensures
        r@ == spec_target_extension(t),
{
    match t {
        EncodedType::Jpeg => "jpg",
        EncodedType::Png => "png",
        EncodedType::Tiff => "tiff",
    }
}

} // verus!
