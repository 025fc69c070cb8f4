//! Launch requests for scheduled capacity. A persisted request is valid only
//! in the VK process which issued it, and binds to exactly one execution.
use vstd::prelude::*;
use crate::ids::{format_uuid_simple, parse_uuid, uuid_parse, uuid_simple_text};
use crate::lease::{lease_validity, Lease, LeaseView, PermissionError};
use crate::text::{has_prefix, push_char, starts_with_str, str_eq};

verus! {

/// Internal persisted executor action metadata. The authenticated scheduling
/// route constructs this; ordinary follow-ups never carry background authority.
pub struct CapacityExecution {
    pub issuer_epoch: String,
    pub id: String,
    pub allocation_id: String,
    pub expires_at_ms: u64,
    pub stop_at_ms: u64,
    pub lease_file: String,
    pub guard_binary: String,
}

pub struct CapacityExecutionView {
    pub issuer_epoch: Seq<char>,
    pub id: Seq<char>,
    pub allocation_id: Seq<char>,
    pub expires_at_ms: u64,
    pub stop_at_ms: u64,
    pub lease_file: Seq<char>,
    pub guard_binary: Seq<char>,
}

impl View for CapacityExecution {
    type V = CapacityExecutionView;

    open spec fn view(&self) -> CapacityExecutionView {
        CapacityExecutionView {
            issuer_epoch: self.issuer_epoch@,
            id: self.id@,
            allocation_id: self.allocation_id@,
            expires_at_ms: self.expires_at_ms,
            stop_at_ms: self.stop_at_ms,
            lease_file: self.lease_file@,
            guard_binary: self.guard_binary@,
        }
    }
}

/// A launch request bound to its execution: where its permission file and
/// guard are, and the permission to write.
pub struct PreparedCapacity {
    pub file: String,
    pub guard: String,
    pub lease: Lease,
}

/// Why a launch request cannot start.
#[derive(Clone, Copy, Debug, PartialEq, Eq)]
pub enum PrepareError {
    StaleEpoch,
    NoContainment,
    InvalidExecutionId,
    RelativePaths,
    Permission(PermissionError),
}

impl PrepareError {
    pub fn message(&self) -> (r: &'static str)
        ensures
            r@ == match *self {
                PrepareError::StaleEpoch => "Capacity permission predates this VK process"@,
                PrepareError::NoContainment => "Background capacity requires systemd containment"@,
                PrepareError::InvalidExecutionId => "invalid execution id"@,
                PrepareError::RelativePaths => "Capacity guard and permission paths must be absolute"@,
                PrepareError::Permission(e) => crate::lease::permission_message(e),
            },
    {
        match self {
            PrepareError::StaleEpoch => "Capacity permission predates this VK process",
            PrepareError::NoContainment => "Background capacity requires systemd containment",
            PrepareError::InvalidExecutionId => "invalid execution id",
            PrepareError::RelativePaths => "Capacity guard and permission paths must be absolute",
            PrepareError::Permission(e) => e.message(),
        }
    }
}

/// A Unix path is absolute when it starts at the root.
pub open spec fn is_absolute(p: Seq<char>) -> bool {
    p.len() > 0 && p[0] == '/'
}

/// The first permission written for a request bound to `execution_id`.
pub open spec fn first_lease(r: CapacityExecutionView, execution_id: Seq<char>) -> LeaseView {
    LeaseView {
        version: 1,
        id: r.id,
        allocation_id: r.allocation_id,
        execution_id,
        expires_at_ms: r.expires_at_ms,
        stop_at_ms: r.stop_at_ms,
        sequence: 0,
        revoked: false,
    }
}

/// Outcome of preparing request `r` for an execution, in the process with
/// epoch `epoch`, at time `now`; `guard_is_file` tells whether the guard
/// binary exists as a regular file.
pub open spec fn prepare_outcome(
    r: CapacityExecutionView,
    execution_id: Seq<char>,
    epoch: Seq<char>,
    containment: bool,
    guard_is_file: bool,
    now: u64,
) -> Result<LeaseView, PrepareError> {
    if r.issuer_epoch != epoch {
        Err(PrepareError::StaleEpoch)
    } else if !containment {
        Err(PrepareError::NoContainment)
    } else if uuid_parse(execution_id) is None {
        Err(PrepareError::InvalidExecutionId)
    } else if !is_absolute(r.guard_binary) || !guard_is_file || !is_absolute(r.lease_file) {
        Err(PrepareError::RelativePaths)
    } else if lease_validity(first_lease(r, execution_id), now) is Err {
        Err(PrepareError::Permission(lease_validity(first_lease(r, execution_id), now)->Err_0))
    } else {
        Ok(first_lease(r, execution_id))
    }
}

/// Whether a path is absolute.
pub fn path_is_absolute(p: &str) -> (r: bool)
    ensures
        r == is_absolute(p@),
{
    p.unicode_len() > 0 && p.get_char(0) == '/'
}

impl CapacityExecution {
    /// Binds the request to the actual process UUID before any model work
    /// starts. Writing the permission file is the caller's I/O: it creates
    /// the file exclusively (it must not exist yet), so a retried action
    /// cannot replay old permission.
    pub fn prepare(
        &self,
        execution_id: &str,
        epoch: &str,
        containment: bool,
        guard_is_file: bool,
        now: u64,
    ) -> (r: Result<PreparedCapacity, PrepareError>)
        ensures
            match r {
                Ok(p) => prepare_outcome(
                    self@,
                    execution_id@,
                    epoch@,
                    containment,
                    guard_is_file,
                    now,
                ) == Ok::<LeaseView, PrepareError>(p.lease@) && p.file@ == self.lease_file@
                    && p.guard@ == self.guard_binary@,
                Err(e) => prepare_outcome(
                    self@,
                    execution_id@,
                    epoch@,
                    containment,
                    guard_is_file,
                    now,
                ) == Err::<LeaseView, PrepareError>(e),
            },
    {
        if !str_eq(self.issuer_epoch.as_str(), epoch) {
            return Err(PrepareError::StaleEpoch);
        }
        if !containment {
            return Err(PrepareError::NoContainment);
        }
        if parse_uuid(execution_id).is_none() {
            return Err(PrepareError::InvalidExecutionId);
        }
        if !path_is_absolute(self.guard_binary.as_str()) || !guard_is_file || !path_is_absolute(
            self.lease_file.as_str(),
        ) {
            return Err(PrepareError::RelativePaths);
        }
        let lease = Lease {
            version: 1,
            id: self.id.clone(),
            allocation_id: self.allocation_id.clone(),
            execution_id: String::from_str(execution_id),
            expires_at_ms: self.expires_at_ms,
            stop_at_ms: self.stop_at_ms,
            sequence: 0,
            revoked: false,
        };
        match lease.validate(now) {
            Err(e) => Err(PrepareError::Permission(e)),
            Ok(()) => Ok(
                PreparedCapacity {
                    file: self.lease_file.clone(),
                    guard: self.guard_binary.clone(),
                    lease,
                },
            ),
        }
    }
}

/// Name of the transient unit a scheduled execution runs in.
pub open spec fn unit_name_text(execution: u128) -> Seq<char> {
    "vk-capacity-"@ + uuid_simple_text(execution) + ".service"@
}

/// `vk-capacity-<simple uuid>.service`.
pub fn unit_name(execution: u128) -> (r: String)
    ensures
        r@ == unit_name_text(execution),
{
    let s = String::from_str("vk-capacity-");
    let id = format_uuid_simple(execution);
    let s = s.concat(id.as_str());
    s.concat(".service")
}

} // verus!
