use vstd::prelude::*;

verus! {

/// What a DEFLATE stream of the given bytes holds. Compression of the
/// same input at the same level is deterministic, so this is a
/// function of the bytes alone.
pub uninterp spec fn deflate_of(s: Seq<u8>) -> Seq<u8>;

/// What decoding the given bytes as a DEFLATE stream yields: the
/// decompressed bytes, or nothing for an invalid stream.
pub uninterp spec fn inflate_of(s: Seq<u8>) -> Option<Seq<u8>>;

} // verus!
