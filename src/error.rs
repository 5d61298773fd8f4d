use vstd::prelude::*;

verus! {

/// `nix::Error`, the error number that a failed system call reports; carried
/// through as it came.
#[verifier::external_type_specification]
#[verifier::external_body]
pub struct ExErrno(nix::errno::Errno);

/// `std::io::Error`, the error of a call through std's file handle; carried
/// through as it came.
#[verifier::external_type_specification]
#[verifier::external_body]
pub struct ExStdIoError(std::io::Error);

/// Why a record write failed.
#[derive(Debug)]
#[allow(inconsistent_fields)]
pub enum IoError {
    /// A positional (vectored or single-buffer) write failed.
    FailedToWriteDataUnix { source: nix::errno::Errno },
    /// A write through the duplicated descriptor failed.
    FailedToWriteDataOther { source: std::io::Error },
    /// The file handle could not be duplicated.
    FailedToCloneFile { source: std::io::Error },
    /// The duplicated descriptor could not be positioned at the offset.
    FailedToSeek { source: std::io::Error },
}

} // verus!
