//! Reference counting of the process-wide native backend.
//!
//! The native backend is initialised when the first handle is acquired and
//! freed when the last one is released. The count itself lives behind a lock
//! owned by the caller; these functions decide, for each change of the count,
//! whether the native backend must be initialised or freed.
use vstd::prelude::*;

verus! {

/// The count after one more handle, and whether the backend must be
/// initialised first.
pub open spec fn spec_acquire(handles: nat) -> (nat, bool) {
    (handles + 1, handles == 0)
}

/// The count after one handle less, and whether the backend must now be
/// freed.
pub open spec fn spec_release(handles: nat) -> (nat, bool) {
    ((handles - 1) as nat, handles == 1)
}

/// Proof that one live handle of the native backend was counted.
pub struct Backend {
    counted: (),
}

impl Backend {
    /// Count one more live handle in `handles`; the flag says whether the
    /// native backend must be initialised (this is the first handle).
    pub fn acquire(handles: &mut usize) -> (r: (Backend, bool))
        requires
            *old(handles) < usize::MAX,
        ensures
            (*final(handles) as nat, r.1) == spec_acquire(*old(handles) as nat),
    {
        let init = *handles == 0;
        *handles = *handles + 1;
        (Backend { counted: () }, init)
    }

    /// Count this handle out of `handles`; the result says whether the native
    /// backend must now be freed (this was the last handle).
    pub fn release(self, handles: &mut usize) -> (free: bool)
        requires
            *old(handles) > 0,
        ensures
            (*final(handles) as nat, free) == spec_release(*old(handles) as nat),
    {
        *handles = *handles - 1;
        *handles == 0
    }
}

/// Acquiring a handle and releasing it again restores the count, and the
/// release frees the backend exactly when the acquire initialised it.
pub proof fn lemma_acquire_release(handles: nat)
    ensures
        spec_release(spec_acquire(handles).0) == (handles, spec_acquire(handles).1),
{
}

/// Starting from no handles, the backend stays initialised while any handle
/// is live: after `n` acquires and `m <= n` releases it is freed by the last
/// release exactly when `m == n`.
pub proof fn lemma_freed_only_by_last(n: nat, m: nat)
    requires
        0 < m <= n,
    ensures
        spec_release((n - (m - 1)) as nat).1 <==> m == n,
{
}

} // verus!
