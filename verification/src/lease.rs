//! Quota-independent execution fence. The scheduler decides allowance; this
//! fence only accepts bounded permission and cannot create fresh allowance.
use vstd::prelude::*;
use vstd::utf8::encode_utf8;

verus! {

/// Longest time a single permission may stay valid before renewal.
pub const MAX_LEASE_MS: u64 = 60_000;

/// Hard upper bound for a whole scheduled run.
pub const MAX_RUN_MS: u64 = 24 * 60 * 60 * 1000;

/// Number of UTF-8 bytes of a character sequence (what `str::len` reports).
pub open spec fn byte_len(s: Seq<char>) -> usize {
    encode_utf8(s).len() as usize
}

/// A bounded execution permission as written to the permission file.
#[derive(Clone, Debug)]
pub struct Lease {
    pub version: u32,
    pub id: String,
    pub allocation_id: String,
    pub execution_id: String,
    pub expires_at_ms: u64,
    pub stop_at_ms: u64,
    pub sequence: u64,
    pub revoked: bool,
}

/// Mathematical model of a [`Lease`].
pub struct LeaseView {
    pub version: u32,
    pub id: Seq<char>,
    pub allocation_id: Seq<char>,
    pub execution_id: Seq<char>,
    pub expires_at_ms: u64,
    pub stop_at_ms: u64,
    pub sequence: u64,
    pub revoked: bool,
}

impl View for Lease {
    type V = LeaseView;

    open spec fn view(&self) -> LeaseView {
        LeaseView {
            version: self.version,
            id: self.id@,
            allocation_id: self.allocation_id@,
            execution_id: self.execution_id@,
            expires_at_ms: self.expires_at_ms,
            stop_at_ms: self.stop_at_ms,
            sequence: self.sequence,
            revoked: self.revoked,
        }
    }
}

/// Why a permission was refused or a fence closed.
#[derive(Clone, Copy, Debug, PartialEq, Eq)]
pub enum PermissionError {
    InvalidIdentity,
    Revoked,
    Expired,
    ExceedsLifetime,
    AlreadyStopped,
    ClockChanged,
    FenceChanged,
}

/// The reason a refusal is reported with.
pub open spec fn permission_message(e: PermissionError) -> Seq<char> {
    match e {
        PermissionError::InvalidIdentity => "invalid permission identity"@,
        PermissionError::Revoked => "permission revoked"@,
        PermissionError::Expired => "permission expired"@,
        PermissionError::ExceedsLifetime => "permission exceeds allowed lifetime"@,
        PermissionError::AlreadyStopped => "permission already stopped"@,
        PermissionError::ClockChanged => "clock changed; fresh execution required"@,
        PermissionError::FenceChanged => "permission fence changed"@,
    }
}

impl PermissionError {
    /// Human readable reason, as reported by the guard.
    pub fn message(&self) -> (r: &'static str)
        ensures
            r@ == permission_message(*self),
    {
        match self {
            PermissionError::InvalidIdentity => "invalid permission identity",
            PermissionError::Revoked => "permission revoked",
            PermissionError::Expired => "permission expired",
            PermissionError::ExceedsLifetime => "permission exceeds allowed lifetime",
            PermissionError::AlreadyStopped => "permission already stopped",
            PermissionError::ClockChanged => "clock changed; fresh execution required",
            PermissionError::FenceChanged => "permission fence changed",
        }
    }
}

/// The identity part of a lease is malformed.
pub open spec fn identity_invalid(l: LeaseView) -> bool {
    ||| l.version != 1
    ||| l.id.len() == 0
    ||| l.execution_id.len() == 0
    ||| l.allocation_id.len() == 0
    ||| byte_len(l.id) > 128
    ||| byte_len(l.execution_id) > 128
    ||| byte_len(l.allocation_id) > 512
}

/// Outcome of validating lease `l` at wall-clock time `wall`.
pub open spec fn lease_validity(l: LeaseView, wall: u64) -> Result<(), PermissionError> {
    if identity_invalid(l) {
        Err(PermissionError::InvalidIdentity)
    } else if l.revoked {
        Err(PermissionError::Revoked)
    } else if l.expires_at_ms <= wall || l.stop_at_ms <= wall {
        Err(PermissionError::Expired)
    } else if l.expires_at_ms > l.stop_at_ms || l.expires_at_ms - wall > MAX_LEASE_MS
        || l.stop_at_ms - wall > MAX_RUN_MS {
        Err(PermissionError::ExceedsLifetime)
    } else {
        Ok(())
    }
}

impl Lease {
    /// Checks identity, revocation, expiry and lifetime bounds at `wall_ms`.
    pub fn validate(&self, wall_ms: u64) -> (r: Result<(), PermissionError>)
        ensures
            r == lease_validity(self@, wall_ms),
    {
        if self.version != 1 || self.id.as_str().is_empty() || self.execution_id.as_str().is_empty()
            || self.allocation_id.as_str().is_empty() || self.id.as_str().len() > 128
            || self.execution_id.as_str().len() > 128 || self.allocation_id.as_str().len() > 512 {
            return Err(PermissionError::InvalidIdentity);
        }
        if self.revoked {
            return Err(PermissionError::Revoked);
        }
        if self.expires_at_ms <= wall_ms || self.stop_at_ms <= wall_ms {
            return Err(PermissionError::Expired);
        }
        if self.expires_at_ms > self.stop_at_ms || self.expires_at_ms - wall_ms > MAX_LEASE_MS
            || self.stop_at_ms - wall_ms > MAX_RUN_MS {
            return Err(PermissionError::ExceedsLifetime);
        }
        Ok(())
    }
}


/// Copies a lease field by field.
pub fn copy_lease(l: &Lease) -> (r: Lease)
    ensures
        r@ == l@,
{
    Lease {
        version: l.version,
        id: l.id.clone(),
        allocation_id: l.allocation_id.clone(),
        execution_id: l.execution_id.clone(),
        expires_at_ms: l.expires_at_ms,
        stop_at_ms: l.stop_at_ms,
        sequence: l.sequence,
        revoked: l.revoked,
    }
}

/// Field-wise equality of two leases.
pub fn lease_eq(a: &Lease, b: &Lease) -> (r: bool)
    ensures
        r == (a@ == b@),
{
    a.version == b.version && a.id == b.id && a.allocation_id == b.allocation_id
        && a.execution_id == b.execution_id && a.expires_at_ms == b.expires_at_ms
        && a.stop_at_ms == b.stop_at_ms && a.sequence == b.sequence && a.revoked == b.revoked
}

/// An accepted permission together with the clocks it was last observed at.
/// Once a check fails the fence stays closed for good.
pub struct Fence {
    lease: Lease,
    monotonic_expiry: u64,
    monotonic_stop: u64,
    last_wall: u64,
    last_monotonic: u64,
    stopped: bool,
}

/// Mathematical model of a [`Fence`].
pub struct FenceView {
    pub lease: LeaseView,
    pub monotonic_expiry: u64,
    pub monotonic_stop: u64,
    pub last_wall: u64,
    pub last_monotonic: u64,
    pub stopped: bool,
}

impl View for Fence {
    type V = FenceView;

    closed spec fn view(&self) -> FenceView {
        FenceView {
            lease: self.lease@,
            monotonic_expiry: self.monotonic_expiry,
            monotonic_stop: self.monotonic_stop,
            last_wall: self.last_wall,
            last_monotonic: self.last_monotonic,
            stopped: self.stopped,
        }
    }
}

impl FenceView {
    /// The current lease never outlives its own hard deadline.
    pub open spec fn wf(self) -> bool {
        self.lease.expires_at_ms <= self.lease.stop_at_ms
    }
}

/// Absolute difference of two integers.
pub open spec fn abs_diff(a: int, b: int) -> int {
    if a >= b { a - b } else { b - a }
}

/// The wall clock and the monotonic clock disagree, or one went backwards.
pub open spec fn clock_changed(f: FenceView, wall: u64, mono: u64) -> bool {
    ||| mono < f.last_monotonic
    ||| wall < f.last_wall
    ||| abs_diff(wall - f.last_wall, mono - f.last_monotonic) > 5000
}

/// The current permission has run out on either clock.
pub open spec fn fence_expired(f: FenceView, wall: u64, mono: u64) -> bool {
    ||| wall >= f.lease.expires_at_ms
    ||| mono >= f.monotonic_expiry
    ||| wall >= f.lease.stop_at_ms
    ||| mono >= f.monotonic_stop
}

/// `next` changes what the fence was granted, or goes backwards.
pub open spec fn fence_changed(cur: LeaseView, next: LeaseView) -> bool {
    ||| next.id != cur.id
    ||| next.execution_id != cur.execution_id
    ||| next.allocation_id != cur.allocation_id
    ||| next.stop_at_ms != cur.stop_at_ms
    ||| next.sequence < cur.sequence
    ||| (next.sequence == cur.sequence && next != cur)
}

/// Result of checking `next` against fence `f` at the given clock readings:
/// the fence afterwards, or the reason to close it.
pub open spec fn check_outcome(f: FenceView, next: LeaseView, wall: u64, mono: u64) -> Result<
    FenceView,
    PermissionError,
> {
    if f.stopped {
        Err(PermissionError::AlreadyStopped)
    } else if clock_changed(f, wall, mono) {
        Err(PermissionError::ClockChanged)
    } else if fence_expired(f, wall, mono) {
        Err(PermissionError::Expired)
    } else if lease_validity(next, wall) is Err {
        Err(lease_validity(next, wall)->Err_0)
    } else if fence_changed(f.lease, next) {
        Err(PermissionError::FenceChanged)
    } else {
        let renewed = next.sequence > f.lease.sequence;
        Ok(
            FenceView {
                lease: if renewed { next } else { f.lease },
                monotonic_expiry: if renewed {
                    (mono + next.expires_at_ms - wall) as u64
                } else {
                    f.monotonic_expiry
                },
                last_wall: wall,
                last_monotonic: mono,
                ..f
            },
        )
    }
}

/// A check reaches the renewal step (and then adds `mono` to the new expiry).
pub open spec fn renews(f: FenceView, next: LeaseView, wall: u64, mono: u64) -> bool {
    &&& !f.stopped
    &&& !clock_changed(f, wall, mono)
    &&& !fence_expired(f, wall, mono)
    &&& lease_validity(next, wall) is Ok
    &&& !fence_changed(f.lease, next)
    &&& next.sequence > f.lease.sequence
}

/// The fence after a refused check.
pub open spec fn closed(f: FenceView) -> FenceView {
    FenceView { stopped: true, ..f }
}

impl Fence {
    /// Accepts a first permission observed at the given clock readings.
    pub fn new(lease: Lease, wall_ms: u64, monotonic_ms: u64) -> (r: Result<Fence, PermissionError>)
        requires
            lease_validity(lease@, wall_ms) is Ok ==> monotonic_ms + lease.stop_at_ms
                <= u64::MAX,
        ensures
            match r {
                Ok(f) => {
                    &&& lease_validity(lease@, wall_ms) is Ok
                    &&& f@ == FenceView {
                        lease: lease@,
                        monotonic_expiry: (monotonic_ms + lease.expires_at_ms - wall_ms) as u64,
                        monotonic_stop: (monotonic_ms + lease.stop_at_ms - wall_ms) as u64,
                        last_wall: wall_ms,
                        last_monotonic: monotonic_ms,
                        stopped: false,
                    }
                    &&& f@.wf()
                },
                Err(e) => lease_validity(lease@, wall_ms) == Err::<(), PermissionError>(e),
            },
    {
        match lease.validate(wall_ms) {
            Err(e) => Err(e),
            Ok(()) => {
                let monotonic_expiry = monotonic_ms + lease.expires_at_ms - wall_ms;
                let monotonic_stop = monotonic_ms + lease.stop_at_ms - wall_ms;
                Ok(
                    Fence {
                        monotonic_expiry,
                        monotonic_stop,
                        last_wall: wall_ms,
                        last_monotonic: monotonic_ms,
                        lease,
                        stopped: false,
                    },
                )
            },
        }
    }

    /// The permission currently accepted.
    pub fn lease(&self) -> (r: &Lease)
        ensures
            r@ == self@.lease,
    {
        &self.lease
    }

    /// Whether the fence has been closed.
    pub fn is_stopped(&self) -> (r: bool)
        ensures
            r == self@.stopped,
    {
        self.stopped
    }

    /// Checks a freshly read permission. Once rejected, a fence is permanently
    /// closed: even a newer lease cannot renew after expiry or change the
    /// allocation, execution or hard deadline.
    pub fn observe(&mut self, next: &Lease, wall_ms: u64, monotonic_ms: u64) -> (r: Result<
        (),
        PermissionError,
    >)
        requires
            renews(old(self)@, next@, wall_ms, monotonic_ms) ==> monotonic_ms + next.expires_at_ms
                <= u64::MAX,
        ensures
            match check_outcome(old(self)@, next@, wall_ms, monotonic_ms) {
                Ok(g) => r is Ok && final(self)@ == g,
                Err(e) => r == Err::<(), PermissionError>(e) && final(self)@ == closed(old(self)@),
            },
            old(self)@.wf() ==> final(self)@.wf(),
    {
        let result = self.check(next, wall_ms, monotonic_ms);
        if result.is_err() {
            self.stopped = true;
        }
        result
    }

    fn check(&mut self, next: &Lease, wall_ms: u64, monotonic_ms: u64) -> (r: Result<
        (),
        PermissionError,
    >)
        requires
            renews(old(self)@, next@, wall_ms, monotonic_ms) ==> monotonic_ms + next.expires_at_ms
                <= u64::MAX,
        ensures
            match check_outcome(old(self)@, next@, wall_ms, monotonic_ms) {
                Ok(g) => r is Ok && final(self)@ == g,
                Err(e) => r == Err::<(), PermissionError>(e) && final(self)@ == old(self)@,
            },
    {
        if self.stopped {
            return Err(PermissionError::AlreadyStopped);
        }
        if monotonic_ms < self.last_monotonic || wall_ms < self.last_wall {
            return Err(PermissionError::ClockChanged);
        }
        let wall_delta = wall_ms - self.last_wall;
        let mono_delta = monotonic_ms - self.last_monotonic;
        let drift = if wall_delta >= mono_delta {
            wall_delta - mono_delta
        } else {
            mono_delta - wall_delta
        };
        if drift > 5000 {
            return Err(PermissionError::ClockChanged);
        }
        if wall_ms >= self.lease.expires_at_ms || monotonic_ms >= self.monotonic_expiry
            || wall_ms >= self.lease.stop_at_ms || monotonic_ms >= self.monotonic_stop {
            return Err(PermissionError::Expired);
        }
        match next.validate(wall_ms) {
            Err(e) => {
                return Err(e);
            },
            Ok(()) => {},
        }
        if next.id != self.lease.id || next.execution_id != self.lease.execution_id
            || next.allocation_id != self.lease.allocation_id || next.stop_at_ms
            != self.lease.stop_at_ms || next.sequence < self.lease.sequence || (next.sequence
            == self.lease.sequence && !lease_eq(next, &self.lease)) {
            return Err(PermissionError::FenceChanged);
        }
        if next.sequence > self.lease.sequence {
            self.monotonic_expiry = monotonic_ms + next.expires_at_ms - wall_ms;
            self.lease = copy_lease(next);
        }
        self.last_wall = wall_ms;
        self.last_monotonic = monotonic_ms;
        Ok(())
    }
}

/// A closed fence refuses every later permission, and stays closed.
pub proof fn lemma_closed_fence_stays_closed(f: FenceView, next: LeaseView, wall: u64, mono: u64)
    requires
        f.stopped,
    ensures
        check_outcome(f, next, wall, mono) == Err::<FenceView, PermissionError>(
            PermissionError::AlreadyStopped,
        ),
        closed(f) == f,
{
}

/// Renewal never changes the permission identity, allocation, execution or
/// hard deadline (on either clock), and never lowers the sequence number.
pub proof fn lemma_renewal_keeps_deadline(f: FenceView, next: LeaseView, wall: u64, mono: u64)
    requires
        check_outcome(f, next, wall, mono) is Ok,
    ensures
        ({
            let g = check_outcome(f, next, wall, mono)->Ok_0;
            &&& g.lease.id == f.lease.id
            &&& g.lease.allocation_id == f.lease.allocation_id
            &&& g.lease.execution_id == f.lease.execution_id
            &&& g.lease.stop_at_ms == f.lease.stop_at_ms
            &&& g.monotonic_stop == f.monotonic_stop
            &&& g.lease.sequence >= f.lease.sequence
            &&& !g.stopped
        }),
{
}

/// An accepted check happens strictly before the hard deadline and current
/// expiry on both clocks, with neither clock running backwards.
pub proof fn lemma_accepted_only_in_time(f: FenceView, next: LeaseView, wall: u64, mono: u64)
    requires
        check_outcome(f, next, wall, mono) is Ok,
    ensures
        wall < f.lease.expires_at_ms,
        wall < f.lease.stop_at_ms,
        mono < f.monotonic_expiry,
        mono < f.monotonic_stop,
        f.last_wall <= wall,
        f.last_monotonic <= mono,
{
}

/// Expiry cannot be resurrected: once either clock passes the current
/// expiry, no lease (however new) is accepted.
pub proof fn lemma_expiry_is_final(f: FenceView, next: LeaseView, wall: u64, mono: u64)
    requires
        wall >= f.lease.expires_at_ms || mono >= f.monotonic_expiry,
    ensures
        check_outcome(f, next, wall, mono) is Err,
{
}

/// The fence after a run of observations, each a permission read with the
/// wall and monotonic clock readings, as [`Fence::observe`] leaves it.
pub open spec fn observe_all(f: FenceView, obs: Seq<(LeaseView, u64, u64)>) -> FenceView
    decreases obs.len(),
{
    if obs.len() == 0 {
        f
    } else {
        let g = observe_all(f, obs.drop_last());
        let o = obs.last();
        match check_outcome(g, o.0, o.1, o.2) {
            Ok(h) => h,
            Err(_) => closed(g),
        }
    }
}

/// Over any run of observations the fence keeps the identity, allocation,
/// execution and hard deadline (on both clocks) of the permission it was
/// opened with, and its sequence number never goes down; a closed fence
/// stays exactly as it is.
pub proof fn lemma_fence_run_keeps_identity(f: FenceView, obs: Seq<(LeaseView, u64, u64)>)
    ensures
        ({
            let g = observe_all(f, obs);
            &&& g.lease.id == f.lease.id
            &&& g.lease.allocation_id == f.lease.allocation_id
            &&& g.lease.execution_id == f.lease.execution_id
            &&& g.lease.stop_at_ms == f.lease.stop_at_ms
            &&& g.monotonic_stop == f.monotonic_stop
            &&& g.lease.sequence >= f.lease.sequence
            &&& f.stopped ==> g == f
        }),
    decreases obs.len(),
{
    if obs.len() > 0 {
        lemma_fence_run_keeps_identity(f, obs.drop_last());
        let g = observe_all(f, obs.drop_last());
        let o = obs.last();
        if check_outcome(g, o.0, o.1, o.2) is Ok {
            lemma_renewal_keeps_deadline(g, o.0, o.1, o.2);
        }
    }
}

/// Once a run of observations has closed the fence, every later
/// observation leaves it as it is (and is refused).
pub proof fn lemma_fence_run_stays_closed(
    f: FenceView,
    obs: Seq<(LeaseView, u64, u64)>,
    more: Seq<(LeaseView, u64, u64)>,
)
    requires
        observe_all(f, obs).stopped,
    ensures
        observe_all(f, obs + more) == observe_all(f, obs),
    decreases more.len(),
{
    if more.len() == 0 {
        assert(obs + more =~= obs);
    } else {
        lemma_fence_run_stays_closed(f, obs, more.drop_last());
        assert((obs + more).drop_last() =~= obs + more.drop_last());
        let g = observe_all(f, obs + more.drop_last());
        let o = more.last();
        assert((obs + more).last() == o);
        lemma_closed_fence_stays_closed(g, o.0, o.1, o.2);
    }
}

/// What a fence that a run of observations left open accepts: only the
/// permission it was opened with or a renewal of it (same identity,
/// allocation, execution and hard deadline, not revoked, a sequence number
/// no lower than the current one, and the current permission itself where
/// the number is the same), read before the current expiry and the hard
/// deadline.
pub proof fn lemma_fence_run_accepts_only_renewals(
    f: FenceView,
    obs: Seq<(LeaseView, u64, u64)>,
    next: LeaseView,
    wall: u64,
    mono: u64,
)
    requires
        check_outcome(observe_all(f, obs), next, wall, mono) is Ok,
    ensures
        ({
            let cur = observe_all(f, obs).lease;
            &&& next.id == f.lease.id
            &&& next.allocation_id == f.lease.allocation_id
            &&& next.execution_id == f.lease.execution_id
            &&& next.stop_at_ms == f.lease.stop_at_ms
            &&& !next.revoked
            &&& next.sequence >= cur.sequence
            &&& (next.sequence == cur.sequence ==> next == cur)
            &&& wall < cur.expires_at_ms
            &&& wall < f.lease.stop_at_ms
        }),
{
    lemma_fence_run_keeps_identity(f, obs);
    let g = observe_all(f, obs);
    lemma_accepted_only_in_time(g, next, wall, mono);
}

} // verus!
