//! What happens here when mail leaves the server.
//!
//! Mirroring, a message gone from the server goes from the views here too,
//! but stays recoverable for a grace period and is destroyed only after it. A
//! local archive keeps everything it ever had. Which of the two holds is
//! always stated, never something to be inferred.

use vstd::prelude::*;

verus! {

/// How long deleted mail stays recoverable. Long enough to notice a mistake,
/// short enough that "deleted" means deleted.
pub const DEFAULT_GRACE_DAYS: i64 = 30;

pub const MS_PER_DAY: i64 = 86_400_000;

pub const MIRROR_COPY: &'static str = "Mirroring the server: mail deleted elsewhere is removed here too, and stays recoverable for 30 days.";

pub const ARCHIVE_COPY: &'static str = "Local archive: mail stays on this device even if it is deleted from the server.";

/// What an account does with mail that left the server.
#[derive(Debug, Clone, Copy, PartialEq, Eq, Structural)]
pub enum RetentionMode {
    /// Follow the server, after the grace period.
    Mirror,
    /// Keep everything ever synced.
    LocalArchive,
}

impl RetentionMode {
    pub fn from_flag(local_archive: bool) -> (mode: Self)
        ensures
            local_archive ==> mode == RetentionMode::LocalArchive,
            !local_archive ==> mode == RetentionMode::Mirror,
    {
        if local_archive {
            RetentionMode::LocalArchive
        } else {
            RetentionMode::Mirror
        }
    }

    /// Whether a message absent from the server leaves the views.
    pub fn removes_on_server_delete(self) -> (r: bool)
        ensures
            r == (self == RetentionMode::Mirror),
    {
        matches!(self, RetentionMode::Mirror)
    }

    /// One honest line for every surface that can destroy mail.
    pub fn describe(self) -> (copy: &'static str)
        ensures
            copy@ == (if self == RetentionMode::Mirror {
                MIRROR_COPY@
            } else {
                ARCHIVE_COPY@
            }),
    {
        match self {
            RetentionMode::Mirror => MIRROR_COPY,
            RetentionMode::LocalArchive => ARCHIVE_COPY,
        }
    }
}

/// The nearest number an `i64` can hold.
pub open spec fn clamped(n: int) -> int {
    if n > i64::MAX {
        i64::MAX as int
    } else if n < i64::MIN {
        i64::MIN as int
    } else {
        n
    }
}

/// Whether what was deleted then may be destroyed now.
pub open spec fn grace_is_over(deleted_at_ms: int, now_ms: int, grace_days: int) -> bool {
    clamped(now_ms - deleted_at_ms) >= clamped(grace_days * MS_PER_DAY)
}

fn clamp(n: i128) -> (r: i64)
    ensures
        r == clamped(n as int),
{
    if n > 9223372036854775807i128 {
        i64::MAX
    } else if n < -9223372036854775808i128 {
        i64::MIN
    } else {
        n as i64
    }
}

/// Whether a message put in the bin is past its grace period.
pub fn is_purgeable(deleted_at_ms: i64, now_ms: i64, grace_days: i64) -> (r: bool)
    ensures
        r == grace_is_over(deleted_at_ms as int, now_ms as int, grace_days as int),
{
    clamp(now_ms as i128 - deleted_at_ms as i128) >= clamp(grace_days as i128 * 86_400_000i128)
}

/// The last moment whose deletions may be destroyed now.
pub open spec fn cutoff(now_ms: int, grace_days: int) -> int {
    clamped(now_ms - clamped(grace_days * MS_PER_DAY))
}

/// A deletion at or before this moment is past its grace period.
pub fn purge_cutoff(now_ms: i64, grace_days: i64) -> (r: i64)
    ensures
        r == cutoff(now_ms as int, grace_days as int),
{
    let grace = clamp(grace_days as i128 * 86_400_000i128);
    clamp(now_ms as i128 - grace as i128)
}

/// Nothing is destroyed before its grace period has run, for any period that
/// can be counted in milliseconds.
pub proof fn nothing_is_purged_early(deleted_at_ms: i64, now_ms: i64, grace_days: i64)
    requires
        0 <= grace_days,
        grace_days * MS_PER_DAY <= i64::MAX,
    ensures
        grace_is_over(deleted_at_ms as int, now_ms as int, grace_days as int) <==> now_ms
            - deleted_at_ms >= grace_days * MS_PER_DAY,
{
}

/// A clock that runs backwards never shortens a grace period.
pub proof fn a_backwards_clock_purges_nothing(deleted_at_ms: i64, now_ms: i64, grace_days: i64)
    requires
        now_ms < deleted_at_ms,
        0 <= grace_days,
    ensures
        !grace_is_over(deleted_at_ms as int, now_ms as int, grace_days as int),
{
}

/// What may be destroyed now may be destroyed at any later time.
pub proof fn grace_ends_once(deleted_at_ms: i64, now_ms: i64, later_ms: i64, grace_days: i64)
    requires
        now_ms <= later_ms,
        grace_is_over(deleted_at_ms as int, now_ms as int, grace_days as int),
    ensures
        grace_is_over(deleted_at_ms as int, later_ms as int, grace_days as int),
{
}

/// Sweeping by the cutoff destroys exactly what may be destroyed, wherever the
/// cutoff is a moment at all.
pub proof fn the_cutoff_divides_them(deleted_at_ms: i64, now_ms: i64, grace_days: i64)
    requires
        0 <= grace_days,
        i64::MIN <= now_ms - clamped(grace_days * MS_PER_DAY),
    ensures
        deleted_at_ms <= cutoff(now_ms as int, grace_days as int) <==> grace_is_over(
            deleted_at_ms as int,
            now_ms as int,
            grace_days as int,
        ),
{
    assert(grace_days * MS_PER_DAY >= 0) by (nonlinear_arith)
        requires
            0 <= grace_days,
            MS_PER_DAY > 0,
    ;
}

/// A day is a day long, and thirty of them pass before anything goes.
pub proof fn thirty_days_pass(deleted_at_ms: i64, now_ms: i64)
    ensures
        grace_is_over(deleted_at_ms as int, now_ms as int, DEFAULT_GRACE_DAYS as int) <==> now_ms
            - deleted_at_ms >= 30 * (24 * 60 * 60 * 1000),
{
}

} // verus!
