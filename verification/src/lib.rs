//! A chunked-file storage registry.
//!
//! Files are registered, uploaded chunk by chunk, downloaded, listed and
//! deleted by their owner. File records live in one store and chunk payloads
//! in another; the contracts in this crate state how every operation changes
//! both, and which relation between the two it keeps.

use vstd::prelude::*;

pub mod api;
pub mod assoc;
pub mod chunk_store;
pub mod file;
pub mod identity;
pub mod laws;
pub mod owners;
pub mod state;
pub mod text;
pub mod users;

pub use chunk_store::ChunkStore;
pub use file::{
    File, FileContent, FileData, FileDownloadResponse, FileInfo, FileMetadata, FileSharingResponse,
    FileStatus, PublicFileMetadata, UploadFileContinueRequest, UploadFileError, UploadFileRequest,
};
pub use identity::Identity;
pub use owners::OwnershipIndex;
pub use state::State;
pub use users::{
    CreateUserRequest, UpdateUserRequest, UserDirectory, UserListResponse, UserProfile,
    UserResponse,
};

verus! {

/// The timestamp with which a host that has no clock of its own stamps
/// files: a fixed value, so that what is stored can be compared exactly.
pub fn get_time() -> (t: u64)
    ensures
        t == 12345,
{
    12345
}

/// The least number of parts of size `divisor` that together hold `dividend`.
pub open spec fn spec_ceil_division(dividend: nat, divisor: nat) -> nat
    recommends
        divisor > 0,
{
    if dividend % divisor == 0 {
        dividend / divisor
    } else {
        dividend / divisor + 1
    }
}

/// `dividend / divisor`, rounded up.
pub fn ceil_division(dividend: usize, divisor: usize) -> (q: usize)
    requires
        divisor > 0,
    ensures
        q == spec_ceil_division(dividend as nat, divisor as nat),
        (q - 1) * divisor < dividend <= q * divisor,
{
    let quotient: usize = dividend / divisor;
    proof {
        lemma_parts_cover(dividend as nat, divisor as nat);
    }
    if dividend % divisor == 0 {
        quotient
    } else {
        quotient + 1
    }
}

/// The rounded-up quotient is the least `q` with `dividend <= q * divisor`,
/// and it stays below `dividend` itself whenever something is left over.
pub proof fn lemma_parts_cover(dividend: nat, divisor: nat)
    requires
        divisor > 0,
    ensures
        (spec_ceil_division(dividend, divisor) - 1) * divisor < dividend
            <= spec_ceil_division(dividend, divisor) * divisor,
        dividend % divisor != 0 ==> dividend / divisor < dividend,
{
    let q = dividend / divisor;
    let r = dividend % divisor;
    assert(dividend == divisor * q + r) by {
        vstd::arithmetic::div_mod::lemma_fundamental_div_mod(dividend as int, divisor as int);
    }
    assert(divisor * q == q * divisor) by (nonlinear_arith);
    assert((q + 1) * divisor == q * divisor + divisor) by (nonlinear_arith);
    assert((q - 1) * divisor == q * divisor - divisor) by (nonlinear_arith);
    if r != 0 && q >= dividend {
        assert(q * divisor >= q) by (nonlinear_arith)
            requires
                divisor >= 1,
                q >= 0,
        ;
    }
}

} // verus!
