//! Inflating a deflate stream into a buffer of the size it should fill.
use vstd::prelude::*;

verus! {

/// How inflating into a buffer ended.
#[derive(Debug, Clone, Copy, PartialEq, Eq, Structural)]
pub enum InflateStatus {
    /// The stream ended after this many bytes were written.
    Done(usize),
    /// The buffer filled up before the stream ended.
    HasMoreOutput,
    /// The stream is not valid deflate data.
    Failed,
}

/// How inflating the deflate stream `raw` into a buffer that held `out`
/// ends, and what the buffer holds afterwards.
pub uninterp spec fn inflation(raw: Seq<u8>, out: Seq<u8>) -> (InflateStatus, Seq<u8>);

/// Inflates `raw`, a deflate stream without zlib header, into `out` with
/// `miniz_oxide::inflate::decompress_slice_iter_to_slice`. How it ends and
/// what `out` then holds are named `inflation`; a completed stream wrote no
/// more than `out` holds. The text that comes with a failure is the
/// failure's debug text, which is not described further.
#[verifier::external_body]
fn miniz_inflate(raw: &[u8], out: &mut [u8]) -> (r: (InflateStatus, String))
    ensures
        (r.0, final(out)@) == inflation(raw@, old(out)@),
        final(out)@.len() == old(out)@.len(),
        r.0 matches InflateStatus::Done(w) ==> w <= old(out)@.len(),
{
    match miniz_oxide::inflate::decompress_slice_iter_to_slice(out, std::iter::once(raw), false, false) {
        Ok(w) => (InflateStatus::Done(w), String::new()),
        Err(miniz_oxide::inflate::TINFLStatus::HasMoreOutput) => (InflateStatus::HasMoreOutput, String::new()),
        Err(e) => (InflateStatus::Failed, format!("{:?}", e)),
    }
}

/// Why a zip entry could not be inflated into its buffer.
#[derive(Debug)]
pub enum ZipInflationError {
    /// The data is not valid deflate data.
    BadData { msg: String },
    /// The data ended after this many bytes, before the buffer was full.
    EarlyEof { written: usize },
}

/// The outcome that inflating with status `status` into a buffer of `len`
/// bytes is: success when the buffer is filled exactly or would overflow,
/// an early end when fewer bytes came, and bad data otherwise.
pub open spec fn inflate_exact_outcome(status: InflateStatus, len: nat, r: Result<(), ZipInflationError>) -> bool {
    match status {
        InflateStatus::Done(w) => if w == len {
            r is Ok
        } else {
            r matches Err(ZipInflationError::EarlyEof { written }) && written == w
        },
        InflateStatus::HasMoreOutput => r is Ok,
        InflateStatus::Failed => r matches Err(ZipInflationError::BadData { .. }),
    }
}

/// Inflates `raw` into `out`, which should be exactly filled.
pub fn inflate_exact(raw: &[u8], out: &mut [u8]) -> (r: Result<(), ZipInflationError>)
    ensures
        final(out)@ == inflation(raw@, old(out)@).1,
        inflate_exact_outcome(inflation(raw@, old(out)@).0, old(out)@.len(), r),
{
    let len = out.len();
    let (status, msg) = miniz_inflate(raw, out);
    match status {
        InflateStatus::Done(written) => if written == len {
            Ok(())
        } else {
            Err(ZipInflationError::EarlyEof { written })
        },
        InflateStatus::HasMoreOutput => Ok(()),
        InflateStatus::Failed => Err(ZipInflationError::BadData { msg }),
    }
}

} // verus!
