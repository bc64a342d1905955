//! The per-item compression step: the bytes of one work item in, their
//! bzip2-compressed form out, at the highest compression level.

use vstd::prelude::*;

verus! {

/// The bzip2-compressed form of a byte string at the highest compression
/// level. bzip2 is a deterministic stream transform, so the result is a
/// function of the input bytes alone; this crate gives it a name and claims
/// nothing about the bytes themselves.
pub uninterp spec fn bz2_of(data: Seq<u8>) -> Seq<u8>;

/// Relies on bzip2::read::BzEncoder over an in-memory byte slice, at
/// bzip2::Compression::best(): reading the encoder to its end yields the
/// bzip2-compressed form of the input, a function of the input bytes alone.
/// The read cannot fail: the encoder's only error path hands on a read error
/// of the underlying reader, and reading from a slice is infallible (a fault
/// in the compression step itself would panic inside bzip2, not return an
/// error), so the result is always Some.
#[verifier::external_body]
fn bz2_best(data: &Vec<u8>) -> (r: Option<Vec<u8>>)
    ensures
        r is Some,
        r matches Some(v) ==> v@ == bz2_of(data@),
{
    let mut encoder = bzip2::read::BzEncoder::new(data.as_slice(), bzip2::Compression::best());
    let mut out = Vec::new();
    match std::io::Read::read_to_end(&mut encoder, &mut out) {
        Ok(_) => Some(out),
        Err(_) => None,
    }
}

/// Compresses the bytes of one work item. Compression of in-memory bytes
/// always succeeds; what can fail in a run is the file reading and writing
/// around it, which is the caller's to report as fatal.
pub fn compress_data(data: &Vec<u8>) -> (r: Vec<u8>)
    ensures
        r@ == bz2_of(data@),
{
    match bz2_best(data) {
        Some(v) => v,
        None => vstd::pervasive::unreached(),
    }
}

} // verus!
