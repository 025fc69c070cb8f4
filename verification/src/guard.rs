//! The decisions of the guard process that runs a scheduled execution
//! inside its systemd unit: its arguments, and what follows each look at
//! the child and the permission file.
use vstd::prelude::*;
use crate::lease::{check_outcome, closed, renews, Fence, Lease, PermissionError};

verus! {

/// Why the guard refuses to start.
#[derive(Clone, Copy, Debug, PartialEq, Eq, Structural)]
pub enum GuardArgError {
    MissingPermissionFile,
    MissingExecutable,
    NotContained,
}

impl GuardArgError {
    /// The message the guard stops with.
    pub fn message(&self) -> (r: &'static str)
        ensures
            r@ == match *self {
                GuardArgError::MissingPermissionFile => "missing permission file"@,
                GuardArgError::MissingExecutable => "missing executable"@,
                GuardArgError::NotContained => "capacity guard must run in a systemd service"@,
            },
    {
        match self {
            GuardArgError::MissingPermissionFile => "missing permission file",
            GuardArgError::MissingExecutable => "missing executable",
            GuardArgError::NotContained => "capacity guard must run in a systemd service",
        }
    }
}

/// The guard's arguments: the permission file, the program, and the
/// program's own arguments. It must run inside a systemd service (where
/// `INVOCATION_ID` is set); the arguments are checked first.
pub fn guard_arguments(args: Vec<String>, in_systemd_service: bool) -> (r: Result<
    (String, String, Vec<String>),
    GuardArgError,
>)
    ensures
        args@.len() == 0 ==> r == Err::<(String, String, Vec<String>), GuardArgError>(
            GuardArgError::MissingPermissionFile,
        ),
        args@.len() == 1 ==> r == Err::<(String, String, Vec<String>), GuardArgError>(
            GuardArgError::MissingExecutable,
        ),
        args@.len() >= 2 && !in_systemd_service ==> r == Err::<(String, String, Vec<String>), GuardArgError>(
            GuardArgError::NotContained,
        ),
        args@.len() >= 2 && in_systemd_service ==> (match r {
            Ok((file, program, rest)) => file == args@[0] && program == args@[1] && rest@ == args@.subrange(
                2,
                args@.len() as int,
            ),
            Err(_) => false,
        }),
{
    let mut args = args;
    let ghost orig = args@;
    if args.len() == 0 {
        return Err(GuardArgError::MissingPermissionFile);
    }
    if args.len() == 1 {
        return Err(GuardArgError::MissingExecutable);
    }
    if !in_systemd_service {
        return Err(GuardArgError::NotContained);
    }
    let file = args.remove(0);
    let program = args.remove(0);
    proof {
        assert(args@ =~= orig.subrange(2, orig.len() as int));
    }
    Ok((file, program, args))
}

/// What the guard's child process is doing.
#[derive(Clone, Copy, Debug, PartialEq, Eq, Structural)]
pub enum ChildState {
    Running,
    Succeeded,
    Failed,
}

/// What the guard does after one look.
#[derive(Clone, Copy, Debug, PartialEq, Eq, Structural)]
pub enum GuardStep {
    /// The child finished successfully; the guard exits successfully.
    Done,
    /// The child failed; the guard exits with an error.
    ChildFailed,
    /// The permission still holds; look again shortly.
    KeepWatching,
    /// The permission no longer holds, or could not be read: the child's
    /// process group is stopped.
    StopChild,
}

/// One look of the guard: a finished child decides the outcome; while it
/// runs, the permission file as read now (`None` where it could not be
/// read) must still hold under the fence, else the child is stopped.
pub fn guard_step(
    fence: &mut Fence,
    child: ChildState,
    next: Option<&Lease>,
    wall_ms: u64,
    monotonic_ms: u64,
) -> (r: (GuardStep, Option<PermissionError>))
    requires
        child == ChildState::Running && next is Some && renews(old(fence)@, next->0@, wall_ms, monotonic_ms)
            ==> monotonic_ms + next->0.expires_at_ms <= u64::MAX,
    ensures
        child == ChildState::Succeeded ==> r == (GuardStep::Done, None::<PermissionError>) && final(fence)@
            == old(fence)@,
        child == ChildState::Failed ==> r == (GuardStep::ChildFailed, None::<PermissionError>) && final(fence)@
            == old(fence)@,
        child == ChildState::Running ==> match next {
            None => r == (GuardStep::StopChild, None::<PermissionError>) && final(fence)@ == old(fence)@,
            Some(l) => match check_outcome(old(fence)@, l@, wall_ms, monotonic_ms) {
                Ok(g) => r == (GuardStep::KeepWatching, None::<PermissionError>) && final(fence)@ == g,
                Err(e) => r == (GuardStep::StopChild, Some(e)) && final(fence)@ == closed(old(fence)@),
            },
        },
{
    match child {
        ChildState::Succeeded => (GuardStep::Done, None),
        ChildState::Failed => (GuardStep::ChildFailed, None),
        ChildState::Running => match next {
            None => (GuardStep::StopChild, None),
            Some(l) => match fence.observe(l, wall_ms, monotonic_ms) {
                Ok(()) => (GuardStep::KeepWatching, None),
                Err(e) => (GuardStep::StopChild, Some(e)),
            },
        },
    }
}


/// Most bytes a permission file may hold.
pub const MAX_PERMISSION_FILE_BYTES: u64 = 8192;

/// Why a permission file is not read.
#[derive(Clone, Copy, Debug, PartialEq, Eq, Structural)]
pub enum PermissionFileError {
    NotSmallRegularFile,
    NotPrivate,
    TooLarge,
}

impl PermissionFileError {
    /// The message the guard stops with.
    pub fn message(&self) -> (r: &'static str)
        ensures
            r@ == match *self {
                PermissionFileError::NotSmallRegularFile => "permission must be a small regular file"@,
                PermissionFileError::NotPrivate => "permission file must be private and owned by this user"@,
                PermissionFileError::TooLarge => "permission file too large"@,
            },
    {
        match self {
            PermissionFileError::NotSmallRegularFile => "permission must be a small regular file",
            PermissionFileError::NotPrivate => "permission file must be private and owned by this user",
            PermissionFileError::TooLarge => "permission file too large",
        }
    }
}

/// Whether an opened permission file may be read, from its metadata: a
/// regular file of at most 8192 bytes, which neither its group nor others
/// may access and which the guard's user owns.
pub fn check_permission_file(is_file: bool, len: u64, mode: u32, owned_by_user: bool) -> (r: Result<
    (),
    PermissionFileError,
>)
    ensures
        !is_file || len > MAX_PERMISSION_FILE_BYTES ==> r == Err::<(), PermissionFileError>(
            PermissionFileError::NotSmallRegularFile,
        ),
        is_file && len <= MAX_PERMISSION_FILE_BYTES ==> r == (if mode & 63 != 0 || !owned_by_user {
            Err::<(), PermissionFileError>(PermissionFileError::NotPrivate)
        } else {
            Ok(())
        }),
{
    if !is_file || len > MAX_PERMISSION_FILE_BYTES {
        return Err(PermissionFileError::NotSmallRegularFile);
    }
    if mode & 63 != 0 || !owned_by_user {
        return Err(PermissionFileError::NotPrivate);
    }
    Ok(())
}

/// Whether the bytes read from a permission file (read up to one byte past
/// the limit) stay within it.
pub fn check_permission_bytes(read: usize) -> (r: Result<(), PermissionFileError>)
    ensures
        r is Ok <==> read <= MAX_PERMISSION_FILE_BYTES,
        r is Err ==> r == Err::<(), PermissionFileError>(PermissionFileError::TooLarge),
{
    if read as u64 > MAX_PERMISSION_FILE_BYTES {
        Err(PermissionFileError::TooLarge)
    } else {
        Ok(())
    }
}

} // verus!
