//! Attestation engine: a whitelist of verifiers, the append-only log of
//! their attestations, the health metrics derived from it and the
//! compliance decision that reads the commitment ledger.

use vstd::prelude::*;

use crate::ledger::CommitmentCoreContract;
use crate::math::{drawdown_capped, drawdown_percent};
use crate::nft::MAX_PERCENT;
use crate::pausable::Pausable;
use crate::types::Address;

verus! {

/// Errors of the attestation engine.
#[derive(Clone, Copy, Debug, PartialEq, Eq, Structural)]
pub enum AttestationError {
    NotInitialized,
    AlreadyInitialized,
    Unauthorized,
    CommitmentNotFound,
    InvalidAttestationType,
    InvalidAmount,
    InvalidPercentage,
    Paused,
    AlreadyPaused,
    NotPaused,
}

/// One key/value pair of an attestation's data.
#[derive(Debug)]
pub struct DataEntry {
    pub key: String,
    pub value: String,
}

impl Clone for DataEntry {
    fn clone(&self) -> (r: Self)
        ensures
            r == *self,
    {
        DataEntry { key: self.key.clone(), value: self.value.clone() }
    }
}

fn clone_data(data: &Vec<DataEntry>) -> (r: Vec<DataEntry>)
    ensures
        r@ == data@,
{
    let mut out: Vec<DataEntry> = Vec::new();
    let mut i: usize = 0;
    while i < data.len()
        invariant
            i <= data@.len(),
            out@ == data@.subrange(0, i as int),
        decreases data@.len() - i,
    {
        out.push(data[i].clone());
        i = i + 1;
        assert(out@ =~= data@.subrange(0, i as int));
    }
    assert(data@.subrange(0, i as int) =~= data@);
    out
}

/// One verifier's statement about a commitment.
#[derive(Debug)]
pub struct Attestation {
    pub commitment_id: String,
    pub attestation_type: String,
    pub data: Vec<DataEntry>,
    pub verifier: Address,
    pub timestamp: u64,
    pub compliant: bool,
}

impl Attestation {
    /// `self` and `o` hold the same values (their data as sequences).
    pub open spec fn same_as(&self, o: &Attestation) -> bool {
        &&& self.commitment_id == o.commitment_id
        &&& self.attestation_type == o.attestation_type
        &&& self.data@ == o.data@
        &&& self.verifier == o.verifier
        &&& self.timestamp == o.timestamp
        &&& self.compliant == o.compliant
    }
}

/// `a` and `b` hold the same attestations, position by position.
pub open spec fn same_attestations(a: Seq<Attestation>, b: Seq<Attestation>) -> bool {
    &&& a.len() == b.len()
    &&& forall|k: int| 0 <= k < a.len() ==> (#[trigger] a[k]).same_as(&b[k])
}

impl Clone for Attestation {
    fn clone(&self) -> (r: Self)
        ensures
            r.same_as(self),
    {
        let data = clone_data(&self.data);
        Attestation {
            commitment_id: self.commitment_id.clone(),
            attestation_type: self.attestation_type.clone(),
            data,
            verifier: self.verifier,
            timestamp: self.timestamp,
            compliant: self.compliant,
        }
    }
}

/// Health figures of one commitment.
#[derive(Clone, Copy, Debug, PartialEq, Eq, Structural)]
pub struct HealthMetrics {
    pub initial_value: i128,
    pub current_value: i128,
    pub drawdown_percent: u32,
    pub fees_generated: i128,
    pub last_attestation: u64,
    pub attestation_count: u32,
}

/// What the engine stores per commitment beyond its log: the values read
/// from the ledger at the last write and the verifier-reported figures.
#[derive(Debug)]
pub struct MetricsRecord {
    pub commitment_id: String,
    pub initial_value: i128,
    pub current_value: i128,
    pub drawdown_percent: u32,
    pub fees_generated: i128,
}

/// One page of a commitment's attestations.
#[derive(Debug)]
pub struct AttestationsPage {
    pub attestations: Vec<Attestation>,
    /// Where the next page starts, or zero where nothing remains.
    pub next_offset: u32,
}

/// What the engine reports of its state changes.
#[derive(Debug)]
pub enum AttestationEvent {
    Attested { commitment_id: String, attestation_type: String, verifier: Address },
    VerifierAdded { verifier: Address },
    VerifierRemoved { verifier: Address },
    Pause,
    Unpause,
}

/// The attestation types recognised without registration.
pub open spec fn is_builtin_type(t: Seq<char>) -> bool {
    t == "health_check"@ || t == "fee_generation"@ || t == "drawdown"@ || t == "violation"@
}

/// Whether `t` is one of the built-in attestation types.
pub fn builtin_type(t: &String) -> (r: bool)
    ensures
        r == is_builtin_type(t@),
{
    let health = "health_check".to_owned();
    let fees = "fee_generation".to_owned();
    let drawdown = "drawdown".to_owned();
    let violation = "violation".to_owned();
    *t == health || *t == fees || *t == drawdown || *t == violation
}

/// The attestations of `log` about commitment `id`, in log order.
pub open spec fn attestations_for(log: Seq<Attestation>, id: Seq<char>) -> Seq<Attestation>
    decreases log.len(),
{
    if log.len() == 0 {
        Seq::empty()
    } else if log.last().commitment_id@ == id {
        attestations_for(log.drop_last(), id).push(log.last())
    } else {
        attestations_for(log.drop_last(), id)
    }
}

/// Timestamps never decrease along `log`.
pub open spec fn timestamps_ordered(log: Seq<Attestation>) -> bool {
    forall|i: int, j: int|
        0 <= i <= j < log.len() ==> (#[trigger] log[i]).timestamp <= (#[trigger] log[j]).timestamp
}

proof fn lemma_attestations_for_bound(log: Seq<Attestation>, id: Seq<char>)
    ensures
        attestations_for(log, id).len() <= log.len(),
        forall|k: int|
            0 <= k < attestations_for(log, id).len() ==> exists|m: int|
                0 <= m < log.len() && log[m] == #[trigger] attestations_for(log, id)[k],
    decreases log.len(),
{
    if log.len() > 0 {
        let p = log.drop_last();
        lemma_attestations_for_bound(p, id);
        assert forall|k: int| 0 <= k < attestations_for(log, id).len() implies exists|m: int|
            0 <= m < log.len() && log[m] == #[trigger] attestations_for(log, id)[k] by {
            if k < attestations_for(p, id).len() {
                let m = choose|m: int| 0 <= m < p.len() && p[m] == attestations_for(p, id)[k];
                assert(log[m] == p[m]);
            } else {
                assert(log[log.len() - 1] == attestations_for(log, id)[k]);
            }
        }
    }
}

/// Per commitment, attestation timestamps never decrease.
pub proof fn lemma_attestations_for_ordered(log: Seq<Attestation>, id: Seq<char>)
    requires
        timestamps_ordered(log),
    ensures
        timestamps_ordered(attestations_for(log, id)),
    decreases log.len(),
{
    if log.len() > 0 {
        let p = log.drop_last();
        assert(timestamps_ordered(p)) by {
            assert forall|i: int, j: int| 0 <= i <= j < p.len() implies (#[trigger] p[i]).timestamp
                <= (#[trigger] p[j]).timestamp by {
                assert(p[i] == log[i] && p[j] == log[j]);
            }
        }
        lemma_attestations_for_ordered(p, id);
        lemma_attestations_for_bound(p, id);
        let f = attestations_for(log, id);
        let fp = attestations_for(p, id);
        if log.last().commitment_id@ == id {
            assert forall|i: int, j: int| 0 <= i <= j < f.len() implies (#[trigger] f[i]).timestamp
                <= (#[trigger] f[j]).timestamp by {
                if j == f.len() - 1 && i < j {
                    let m = choose|m: int| 0 <= m < p.len() && p[m] == #[trigger] fp[i];
                    assert(log[m] == p[m]);
                    assert(log[m].timestamp <= log[log.len() - 1].timestamp);
                } else if i < f.len() - 1 {
                    assert(f[i] == fp[i]);
                    assert(f[j] == fp[j]);
                }
            }
        }
    }
}

/// The attestation engine.
pub struct AttestationEngineContract {
    pub admin: Option<Address>,
    /// The commitment ledger the engine reads.
    pub core_contract: Option<Address>,
    pub pausable: Pausable,
    /// Authorised verifiers, each once.
    pub verifiers: Vec<Address>,
    /// Attestation types registered by the admin.
    pub attestation_types: Vec<String>,
    /// Every attestation, in the order it was made.
    pub attestations: Vec<Attestation>,
    /// Cached metrics, one record per commitment that has any.
    pub metrics: Vec<MetricsRecord>,
    pub attestation_fee: i128,
    pub fee_asset: Option<Address>,
    pub fee_recipient: Option<Address>,
    pub events: Vec<AttestationEvent>,
}

impl AttestationEngineContract {
    /// Verifiers are distinct, the log is in time order, and at most one
    /// metrics record exists per commitment.
    pub open spec fn wf(&self) -> bool {
        &&& self.verifiers@.no_duplicates()
        &&& timestamps_ordered(self.attestations@)
        &&& self.attestations@.len() <= u32::MAX
        &&& forall|i: int, j: int|
            0 <= i < self.metrics@.len() && 0 <= j < self.metrics@.len() && i != j
                ==> (#[trigger] self.metrics@[i]).commitment_id@ != (#[trigger] self.metrics@[
                j]).commitment_id@
        &&& self.admin.is_none() ==> self.attestations@.len() == 0 && self.metrics@.len() == 0
            && self.verifiers@.len() == 0
    }

    /// The set of authorised verifiers.
    pub open spec fn verifier_set(&self) -> Set<Address> {
        self.verifiers@.to_set()
    }

    pub open spec fn is_recognized(&self, t: Seq<char>) -> bool {
        is_builtin_type(t) || exists|i: int|
            0 <= i < self.attestation_types@.len() && #[trigger] self.attestation_types@[i]@ == t
    }

    /// Position of the metrics record of `id`, if any.
    pub open spec fn metrics_index(&self, id: Seq<char>) -> Option<int> {
        if exists|i: int| 0 <= i < self.metrics@.len() && #[trigger] self.metrics@[i].commitment_id@ == id {
            Some(
                choose|i: int|
                    0 <= i < self.metrics@.len() && #[trigger] self.metrics@[i].commitment_id@ == id,
            )
        } else {
            None
        }
    }

    /// The stored record of `id`, if any.
    pub open spec fn record(&self, id: Seq<char>) -> Option<MetricsRecord> {
        match self.metrics_index(id) {
            Some(i) => Some(self.metrics@[i]),
            None => None,
        }
    }

    /// An uninitialised engine.
    pub fn new() -> (r: Self)
        ensures
            r.wf(),
            r.admin.is_none(),
            r.core_contract.is_none(),
            !r.pausable.paused,
            r.verifiers@.len() == 0,
            r.attestation_types@.len() == 0,
            r.attestations@.len() == 0,
            r.metrics@.len() == 0,
            r.attestation_fee == 0,
            r.fee_asset.is_none(),
            r.fee_recipient.is_none(),
            r.events@.len() == 0,
    {
        AttestationEngineContract {
            admin: None,
            core_contract: None,
            pausable: Pausable::new(),
            verifiers: Vec::new(),
            attestation_types: Vec::new(),
            attestations: Vec::new(),
            metrics: Vec::new(),
            attestation_fee: 0,
            fee_asset: None,
            fee_recipient: None,
            events: Vec::new(),
        }
    }

    /// Records the admin and the commitment ledger. Once only.
    pub fn initialize(&mut self, admin: Address, core_contract: Address) -> (r: Result<
        (),
        AttestationError,
    >)
        requires
            old(self).wf(),
        ensures
            final(self).wf(),
            old(self).admin.is_some() ==> r == Err::<(), AttestationError>(
                AttestationError::AlreadyInitialized,
            ) && *final(self) == *old(self),
            old(self).admin.is_none() ==> r is Ok && final(self).admin == Some(admin)
                && final(self).core_contract == Some(core_contract) && final(self).verifiers
                == old(self).verifiers && final(self).attestations == old(self).attestations
                && final(self).metrics == old(self).metrics && final(self).pausable == old(
                self,
            ).pausable && final(self).attestation_types == old(self).attestation_types
                && final(self).events == old(self).events,
    {
        if self.admin.is_some() {
            return Err(AttestationError::AlreadyInitialized);
        }
        self.admin = Some(admin);
        self.core_contract = Some(core_contract);
        Ok(())
    }

    /// The admin recorded at initialisation.
    pub fn get_admin(&self) -> (r: Result<Address, AttestationError>)
        ensures
            r == match self.admin {
                Some(a) => Ok::<Address, AttestationError>(a),
                None => Err(AttestationError::NotInitialized),
            },
    {
        match self.admin {
            Some(a) => Ok(a),
            None => Err(AttestationError::NotInitialized),
        }
    }

    /// The commitment ledger the engine reads.
    pub fn get_core_contract(&self) -> (r: Result<Address, AttestationError>)
        ensures
            r == match self.core_contract {
                Some(a) => Ok::<Address, AttestationError>(a),
                None => Err(AttestationError::NotInitialized),
            },
    {
        match self.core_contract {
            Some(a) => Ok(a),
            None => Err(AttestationError::NotInitialized),
        }
    }

    /// Error of an admin-only request by `caller`, or `None`.
    pub open spec fn admin_error(&self, caller: Address) -> Option<AttestationError> {
        if self.admin.is_none() {
            Some(AttestationError::NotInitialized)
        } else if self.admin != Some(caller) {
            Some(AttestationError::Unauthorized)
        } else {
            None
        }
    }

    fn admin_check(&self, caller: Address) -> (r: Option<AttestationError>)
        ensures
            r == self.admin_error(caller),
    {
        match self.admin {
            None => Some(AttestationError::NotInitialized),
            Some(a) => if a != caller {
                Some(AttestationError::Unauthorized)
            } else {
                None
            },
        }
    }

    fn verifier_position(&self, v: Address) -> (r: Option<usize>)
        ensures
            match r {
                Some(i) => i < self.verifiers@.len() && self.verifiers@[i as int] == v,
                None => !self.verifiers@.contains(v),
            },
    {
        let mut i: usize = 0;
        while i < self.verifiers.len()
            invariant
                i <= self.verifiers@.len(),
                forall|j: int| 0 <= j < i ==> self.verifiers@[j] != v,
            decreases self.verifiers@.len() - i,
        {
            if self.verifiers[i] == v {
                return Some(i);
            }
            i = i + 1;
        }
        None
    }

    /// Whether `v` may attest.
    pub fn is_verifier(&self, v: Address) -> (r: bool)
        ensures
            r == self.verifier_set().contains(v),
    {
        self.verifier_position(v).is_some()
    }

    /// Admin-only: authorises `verifier`. Adding one already present
    /// changes nothing.
    pub fn add_verifier(&mut self, caller: Address, verifier: Address) -> (r: Result<
        (),
        AttestationError,
    >)
        requires
            old(self).wf(),
        ensures
            final(self).wf(),
            r == match old(self).admin_error(caller) {
                Some(e) => Err::<(), AttestationError>(e),
                None => Ok(()),
            },
            r is Err ==> *final(self) == *old(self),
            r is Ok ==> final(self).verifier_set() == old(self).verifier_set().insert(verifier),
            r is Ok ==> final(self).admin == old(self).admin && final(self).attestations
                == old(self).attestations && final(self).metrics == old(self).metrics,
    {
        match self.admin_check(caller) {
            Some(e) => {
                return Err(e);
            },
            None => {},
        }
        let ghost pre = self.verifiers@;
        if self.verifier_position(verifier).is_none() {
            self.verifiers.push(verifier);
            self.events.push(AttestationEvent::VerifierAdded { verifier });
            proof {
                assert forall|i: int, j: int|
                    0 <= i < self.verifiers@.len() && 0 <= j < self.verifiers@.len() && i != j
                    implies self.verifiers@[i] != self.verifiers@[j] by {
                    if i < pre.len() && j < pre.len() {
                        assert(self.verifiers@[i] == pre[i] && self.verifiers@[j] == pre[j]);
                    } else if i < pre.len() {
                        assert(self.verifiers@[i] == pre[i]);
                    } else if j < pre.len() {
                        assert(self.verifiers@[j] == pre[j]);
                    }
                }
                assert(self.verifiers@.to_set() =~= pre.to_set().insert(verifier)) by {
                    assert forall|a: Address| self.verifiers@.contains(a) implies pre.contains(a)
                        || a == verifier by {
                        let k = choose|k: int| 0 <= k < self.verifiers@.len() && self.verifiers@[k] == a;
                        if k < pre.len() {
                            assert(pre[k] == a);
                        }
                    }
                    assert forall|a: Address| pre.contains(a) implies self.verifiers@.contains(a) by {
                        let k = choose|k: int| 0 <= k < pre.len() && pre[k] == a;
                        assert(self.verifiers@[k] == a);
                    }
                    assert(self.verifiers@[pre.len() as int] == verifier);
                }
            }
        } else {
            proof {
                assert(pre.to_set() =~= pre.to_set().insert(verifier));
            }
        }
        Ok(())
    }

    /// Admin-only: withdraws `verifier`'s authorisation. Removing one that is
    /// absent changes nothing.
    pub fn remove_verifier(&mut self, caller: Address, verifier: Address) -> (r: Result<
        (),
        AttestationError,
    >)
        requires
            old(self).wf(),
        ensures
            final(self).wf(),
            r == match old(self).admin_error(caller) {
                Some(e) => Err::<(), AttestationError>(e),
                None => Ok(()),
            },
            r is Err ==> *final(self) == *old(self),
            r is Ok ==> final(self).verifier_set() == old(self).verifier_set().remove(verifier),
            r is Ok ==> final(self).admin == old(self).admin && final(self).attestations
                == old(self).attestations && final(self).metrics == old(self).metrics,
    {
        match self.admin_check(caller) {
            Some(e) => {
                return Err(e);
            },
            None => {},
        }
        let ghost pre = self.verifiers@;
        match self.verifier_position(verifier) {
            Some(i) => {
                self.verifiers.remove(i);
                self.events.push(AttestationEvent::VerifierRemoved { verifier });
                proof {
                    let post = self.verifiers@;
                    assert(post == pre.remove(i as int));
                    assert forall|a: int, b: int|
                        0 <= a < post.len() && 0 <= b < post.len() && a != b implies post[a]
                        != post[b] by {
                        let a2 = if a < i { a } else { a + 1 };
                        let b2 = if b < i { b } else { b + 1 };
                        assert(post[a] == pre[a2] && post[b] == pre[b2]);
                    }
                    assert(post.to_set() =~= pre.to_set().remove(verifier)) by {
                        assert forall|x: Address| post.contains(x) implies pre.contains(x) && x
                            != verifier by {
                            let k = choose|k: int| 0 <= k < post.len() && post[k] == x;
                            let k2 = if k < i { k } else { k + 1 };
                            assert(pre[k2] == x);
                            assert(k2 != i);
                        }
                        assert forall|x: Address| pre.contains(x) && x != verifier implies post.contains(x) by {
                            let k = choose|k: int| 0 <= k < pre.len() && pre[k] == x;
                            assert(k != i);
                            let k2 = if k < i { k } else { k - 1 };
                            assert(post[k2] == x);
                        }
                    }
                }
            },
            None => {
                proof {
                    assert(pre.to_set() =~= pre.to_set().remove(verifier));
                }
            },
        }
        Ok(())
    }
}


/// Number of attestations about `id` in `log`.
pub open spec fn count_for(log: Seq<Attestation>, id: Seq<char>) -> nat {
    attestations_for(log, id).len()
}

/// Time of the latest attestation about `id` in `log`, or zero.
pub open spec fn last_for(log: Seq<Attestation>, id: Seq<char>) -> u64 {
    if attestations_for(log, id).len() == 0 {
        0
    } else {
        attestations_for(log, id).last().timestamp
    }
}

/// Every attestation of `log` names a commitment the ledger holds.
pub open spec fn references_valid(log: Seq<Attestation>, core: &CommitmentCoreContract) -> bool {
    forall|k: int| 0 <= k < log.len() ==> core.has_commitment(#[trigger] log[k].commitment_id@)
}

/// Age in seconds past which an attestation stream counts as stale.
pub const STALE_AFTER_SECONDS: u64 = 604800;

/// Score lost for a stale attestation stream.
pub const STALENESS_PENALTY: u32 = 20;

/// Score lost per percentage point of drawdown beyond the loss limit.
pub const DRAWDOWN_WEIGHT: u32 = 2;

/// Score gained when fees exceed the commitment's minimum fee threshold.
pub const FEE_BONUS: u32 = 5;

/// Page `[offset, offset + limit)` of `all`, and where the next one starts.
pub open spec fn page_of(all: Seq<Attestation>, offset: u32, limit: u32) -> (Seq<Attestation>, u32) {
    if offset >= all.len() {
        (Seq::empty(), 0)
    } else {
        let end = if offset + limit < all.len() {
            offset + limit
        } else {
            all.len() as int
        };
        (all.subrange(offset as int, end), if end < all.len() {
            end as u32
        } else {
            0
        })
    }
}

/// The stored record `upsert_metrics` leaves for a commitment.
pub open spec fn updated_record(
    old: Option<MetricsRecord>,
    r: MetricsRecord,
    initial: i128,
    current: i128,
    fee_add: i128,
    drawdown: Option<u32>,
) -> bool {
    let (fees, dd) = match old {
        Some(m) => (m.fees_generated as int, m.drawdown_percent),
        None => (0int, 0u32),
    };
    &&& r.initial_value == initial
    &&& r.current_value == current
    &&& r.fees_generated == (if fees + fee_add > i128::MAX {
        i128::MAX as int
    } else {
        fees + fee_add
    })
    &&& r.drawdown_percent == match drawdown {
        Some(d) => d,
        None => dd,
    }
}

impl AttestationEngineContract {
    proof fn lemma_metrics_index_unique(&self, id: Seq<char>, i: int)
        requires
            self.wf(),
            0 <= i < self.metrics@.len(),
            self.metrics@[i].commitment_id@ == id,
        ensures
            self.metrics_index(id) == Some(i),
    {
    }

    fn find_metrics(&self, id: &String) -> (r: Option<usize>)
        requires
            self.wf(),
        ensures
            r matches Some(i) ==> i < self.metrics@.len() && self.metrics_index(id@) == Some(
                i as int,
            ),
            r is None ==> self.metrics_index(id@) is None,
    {
        let mut i: usize = 0;
        while i < self.metrics.len()
            invariant
                self.wf(),
                i <= self.metrics@.len(),
                forall|j: int| 0 <= j < i ==> #[trigger] self.metrics@[j].commitment_id@ != id@,
            decreases self.metrics@.len() - i,
        {
            if self.metrics[i].commitment_id == *id {
                proof {
                    self.lemma_metrics_index_unique(id@, i as int);
                }
                return Some(i);
            }
            i = i + 1;
        }
        None
    }

    /// Writes the record of `id`: ledger values, fees raised by `fee_add`
    /// (saturating), and the drawdown where one is given.
    fn upsert_metrics(
        &mut self,
        id: &String,
        initial: i128,
        current: i128,
        fee_add: i128,
        drawdown: Option<u32>,
    )
        requires
            old(self).wf(),
            fee_add >= 0,
            old(self).admin.is_some(),
        ensures
            final(self).wf(),
            final(self).record(id@) matches Some(r) && updated_record(
                old(self).record(id@),
                r,
                initial,
                current,
                fee_add,
                drawdown,
            ),
            forall|other: Seq<char>| other != id@ ==> #[trigger] final(self).record(other) == old(
                self,
            ).record(other),
            final(self).admin == old(self).admin,
            final(self).core_contract == old(self).core_contract,
            final(self).pausable == old(self).pausable,
            final(self).verifiers == old(self).verifiers,
            final(self).attestation_types == old(self).attestation_types,
            final(self).attestations == old(self).attestations,
            final(self).attestation_fee == old(self).attestation_fee,
            final(self).fee_asset == old(self).fee_asset,
            final(self).fee_recipient == old(self).fee_recipient,
            final(self).events == old(self).events,
    {
        let ghost pre = *self;
        match self.find_metrics(id) {
            Some(i) => {
                let fees = match self.metrics[i].fees_generated.checked_add(fee_add) {
                    Some(v) => v,
                    None => i128::MAX,
                };
                let dd = match drawdown {
                    Some(d) => d,
                    None => self.metrics[i].drawdown_percent,
                };
                let rec = MetricsRecord {
                    commitment_id: self.metrics[i].commitment_id.clone(),
                    initial_value: initial,
                    current_value: current,
                    drawdown_percent: dd,
                    fees_generated: fees,
                };
                self.metrics.set(i, rec);
                proof {
                    self.lemma_metrics_index_unique(id@, i as int);
                    assert forall|other: Seq<char>| other != id@ implies #[trigger] self.record(other)
                        == pre.record(other) by {
                        if pre.metrics_index(other) is Some {
                            let j = pre.metrics_index(other)->Some_0;
                            assert(j != i);
                            self.lemma_metrics_index_unique(other, j);
                        } else {
                            if self.metrics_index(other) is Some {
                                let j = self.metrics_index(other)->Some_0;
                                assert(j != i);
                                assert(pre.metrics@[j] == self.metrics@[j]);
                            }
                        }
                    }
                }
            },
            None => {
                let dd = match drawdown {
                    Some(d) => d,
                    None => 0,
                };
                let fees: i128 = fee_add;
                let rec = MetricsRecord {
                    commitment_id: id.clone(),
                    initial_value: initial,
                    current_value: current,
                    drawdown_percent: dd,
                    fees_generated: fees,
                };
                self.metrics.push(rec);
                proof {
                    let n = pre.metrics@.len() as int;
                    assert forall|a: int, b: int|
                        0 <= a < self.metrics@.len() && 0 <= b < self.metrics@.len() && a != b
                        implies (#[trigger] self.metrics@[a]).commitment_id@ != (
                    #[trigger] self.metrics@[b]).commitment_id@ by {
                        if a < n && b < n {
                            assert(self.metrics@[a] == pre.metrics@[a]);
                            assert(self.metrics@[b] == pre.metrics@[b]);
                        } else if a < n {
                            assert(self.metrics@[a] == pre.metrics@[a]);
                        } else if b < n {
                            assert(self.metrics@[b] == pre.metrics@[b]);
                        }
                    }
                    self.lemma_metrics_index_unique(id@, n);
                    assert forall|other: Seq<char>| other != id@ implies #[trigger] self.record(other)
                        == pre.record(other) by {
                        if pre.metrics_index(other) is Some {
                            let j = pre.metrics_index(other)->Some_0;
                            assert(self.metrics@[j] == pre.metrics@[j]);
                            self.lemma_metrics_index_unique(other, j);
                        } else {
                            if self.metrics_index(other) is Some {
                                let j = self.metrics_index(other)->Some_0;
                                assert(j != n);
                                assert(pre.metrics@[j] == self.metrics@[j]);
                            }
                        }
                    }
                }
            },
        }
    }

    /// The error `attest` returns, or `None` where it succeeds.
    pub open spec fn attest_error(
        &self,
        core: &CommitmentCoreContract,
        caller: Address,
        id: Seq<char>,
        attestation_type: Seq<char>,
    ) -> Option<AttestationError> {
        if self.admin.is_none() {
            Some(AttestationError::NotInitialized)
        } else if self.pausable.paused {
            Some(AttestationError::Paused)
        } else if !self.verifiers@.contains(caller) {
            Some(AttestationError::Unauthorized)
        } else if !core.has_commitment(id) {
            Some(AttestationError::CommitmentNotFound)
        } else if !self.is_recognized(attestation_type) {
            Some(AttestationError::InvalidAttestationType)
        } else {
            None
        }
    }

    /// `post` is `pre` with attestation `a` appended, the record of its
    /// commitment rewritten and an `Attested` event emitted.
    pub open spec fn appended(
        pre: Self,
        post: Self,
        core: &CommitmentCoreContract,
        a: Attestation,
        fee_add: i128,
        drawdown: Option<u32>,
    ) -> bool {
        let id = a.commitment_id@;
        let c = core.commitment(id);
        &&& post.attestations@.len() == pre.attestations@.len() + 1
        &&& post.attestations@.drop_last() == pre.attestations@
        &&& post.attestations@.last().same_as(&a)
        &&& post.record(id) matches Some(r) && updated_record(
            pre.record(id),
            r,
            c.amount,
            c.current_value,
            fee_add,
            drawdown,
        )
        &&& forall|other: Seq<char>| other != id ==> #[trigger] post.record(other) == pre.record(
            other,
        )
        &&& post.admin == pre.admin
        &&& post.core_contract == pre.core_contract
        &&& post.pausable == pre.pausable
        &&& post.verifiers == pre.verifiers
        &&& post.attestation_types == pre.attestation_types
        &&& post.events@.len() == pre.events@.len() + 1
        &&& post.events@.drop_last() == pre.events@
    }

    fn verifier_check(&self, core: &CommitmentCoreContract, caller: Address, id: &String) -> (r:
        Option<AttestationError>)
        requires
            core.wf(),
        ensures
            r == (if self.admin.is_none() {
                Some(AttestationError::NotInitialized)
            } else if self.pausable.paused {
                Some(AttestationError::Paused)
            } else if !self.verifiers@.contains(caller) {
                Some(AttestationError::Unauthorized)
            } else if !core.has_commitment(id@) {
                Some(AttestationError::CommitmentNotFound)
            } else {
                None::<AttestationError>
            }),
    {
        if self.admin.is_none() {
            return Some(AttestationError::NotInitialized);
        }
        if self.pausable.is_paused() {
            return Some(AttestationError::Paused);
        }
        if self.verifier_position(caller).is_none() {
            return Some(AttestationError::Unauthorized);
        }
        if !core.commitment_exists(id) {
            return Some(AttestationError::CommitmentNotFound);
        }
        None
    }

    fn append(
        &mut self,
        core: &CommitmentCoreContract,
        a: Attestation,
        fee_add: i128,
        drawdown: Option<u32>,
    )
        requires
            old(self).wf(),
            core.wf(),
            old(self).admin.is_some(),
            core.has_commitment(a.commitment_id@),
            fee_add >= 0,
            old(self).attestations@.len() < u32::MAX,
            old(self).attestations@.len() > 0 ==> old(self).attestations@.last().timestamp
                <= a.timestamp,
        ensures
            final(self).wf(),
            Self::appended(*old(self), *final(self), core, a, fee_add, drawdown),
            references_valid(old(self).attestations@, core) ==> references_valid(
                final(self).attestations@,
                core,
            ),
    {
        let i = match core.find(&a.commitment_id) {
            Some(i) => i,
            None => {
                proof {
                    assert(false);
                }
                0
            },
        };
        let initial = core.commitments[i].amount;
        let current = core.commitments[i].current_value;
        let id = a.commitment_id.clone();
        let event = AttestationEvent::Attested {
            commitment_id: a.commitment_id.clone(),
            attestation_type: a.attestation_type.clone(),
            verifier: a.verifier,
        };
        self.upsert_metrics(&id, initial, current, fee_add, drawdown);
        let ghost mid = self.attestations@;
        let ghost after_upsert = *self;
        let ghost a_copy = a;
        self.attestations.push(a);
        self.events.push(event);
        proof {
            assert(self.attestations@.drop_last() =~= mid);
            assert(self.events@.drop_last() =~= old(self).events@);
            assert(self.attestations@.last() == a_copy);
            assert(self.metrics == after_upsert.metrics);
            assert(self.record(id@) == after_upsert.record(id@));
            assert(core.commitment(id@) == core.commitments@[i as int]);
            assert forall|other: Seq<char>| other != id@ implies #[trigger] self.record(other)
                == old(self).record(other) by {
                assert(self.record(other) == after_upsert.record(other));
            }
            assert(timestamps_ordered(self.attestations@)) by {
                assert forall|x: int, y: int| 0 <= x <= y < self.attestations@.len() implies (
                #[trigger] self.attestations@[x]).timestamp <= (
                #[trigger] self.attestations@[y]).timestamp by {
                    if y < mid.len() {
                        assert(self.attestations@[x] == mid[x] && self.attestations@[y] == mid[y]);
                    } else if x < mid.len() {
                        assert(self.attestations@[x] == mid[x]);
                        assert(mid[x].timestamp <= mid[mid.len() - 1].timestamp);
                    }
                }
            }
            if references_valid(old(self).attestations@, core) {
                assert forall|k: int| 0 <= k < self.attestations@.len() implies core.has_commitment(
                    #[trigger] self.attestations@[k].commitment_id@,
                ) by {
                    if k < mid.len() {
                        assert(self.attestations@[k] == mid[k]);
                    }
                }
            }
        }
    }

    /// A verifier records an attestation about an existing commitment.
    /// Checks, in order: initialised, not paused, caller is a verifier,
    /// commitment exists, type recognised.
    pub fn attest(
        &mut self,
        core: &CommitmentCoreContract,
        caller: Address,
        commitment_id: String,
        attestation_type: String,
        data: Vec<DataEntry>,
        compliant: bool,
        now: u64,
    ) -> (r: Result<(), AttestationError>)
        requires
            old(self).wf(),
            core.wf(),
            old(self).attestations@.len() < u32::MAX,
            old(self).attestations@.len() > 0 ==> old(self).attestations@.last().timestamp <= now,
        ensures
            final(self).wf(),
            references_valid(old(self).attestations@, core) ==> references_valid(
                final(self).attestations@,
                core,
            ),
            match old(self).attest_error(core, caller, commitment_id@, attestation_type@) {
                Some(e) => r == Err::<(), AttestationError>(e) && *final(self) == *old(self),
                None => {
                    &&& r is Ok
                    &&& core.has_commitment(commitment_id@)
                    &&& Self::appended(
                        *old(self),
                        *final(self),
                        core,
                        Attestation {
                            commitment_id,
                            attestation_type,
                            data,
                            verifier: caller,
                            timestamp: now,
                            compliant,
                        },
                        0,
                        None,
                    )
                },
            },
    {
        match self.verifier_check(core, caller, &commitment_id) {
            Some(e) => {
                return Err(e);
            },
            None => {},
        }
        if !self.recognized(&attestation_type) {
            return Err(AttestationError::InvalidAttestationType);
        }
        let a = Attestation {
            commitment_id,
            attestation_type,
            data,
            verifier: caller,
            timestamp: now,
            compliant,
        };
        self.append(core, a, 0, None);
        Ok(())
    }

    /// Whether `t` is a built-in or registered attestation type.
    pub fn recognized(&self, t: &String) -> (r: bool)
        ensures
            r == self.is_recognized(t@),
    {
        if builtin_type(t) {
            return true;
        }
        let mut i: usize = 0;
        while i < self.attestation_types.len()
            invariant
                i <= self.attestation_types@.len(),
                !is_builtin_type(t@),
                forall|j: int| 0 <= j < i ==> #[trigger] self.attestation_types@[j]@ != t@,
            decreases self.attestation_types@.len() - i,
        {
            if self.attestation_types[i] == *t {
                return true;
            }
            i = i + 1;
        }
        false
    }

    /// Admin-only: makes `name` a recognised attestation type.
    pub fn register_attestation_type(&mut self, caller: Address, name: String) -> (r: Result<
        (),
        AttestationError,
    >)
        requires
            old(self).wf(),
        ensures
            final(self).wf(),
            r == match old(self).admin_error(caller) {
                Some(e) => Err::<(), AttestationError>(e),
                None => Ok(()),
            },
            r is Err ==> *final(self) == *old(self),
            r is Ok ==> forall|t: Seq<char>|
                #[trigger] final(self).is_recognized(t) == (old(self).is_recognized(t) || t
                    == name@),
            r is Ok ==> final(self).verifiers == old(self).verifiers && final(self).attestations
                == old(self).attestations && final(self).metrics == old(self).metrics,
    {
        match self.admin_check(caller) {
            Some(e) => {
                return Err(e);
            },
            None => {},
        }
        let ghost pre = self.attestation_types@;
        let ghost name_view = name@;
        self.attestation_types.push(name);
        proof {
            assert forall|t: Seq<char>| #[trigger] self.is_recognized(t) == (old(self).is_recognized(
                t,
            ) || t == name_view) by {
                if t == name_view {
                    assert(self.attestation_types@[pre.len() as int]@ == t);
                }
                if exists|i: int|
                    0 <= i < pre.len() && #[trigger] pre[i]@ == t {
                    let i = choose|i: int| 0 <= i < pre.len() && #[trigger] pre[i]@ == t;
                    assert(self.attestation_types@[i] == pre[i]);
                }
                if exists|i: int|
                    0 <= i < self.attestation_types@.len() && #[trigger] self.attestation_types@[i]@
                        == t {
                    let i = choose|i: int|
                        0 <= i < self.attestation_types@.len() && #[trigger] self.attestation_types@[i]@
                            == t;
                    if i < pre.len() {
                        assert(self.attestation_types@[i] == pre[i]);
                    }
                }
            }
        }
        Ok(())
    }
}


impl AttestationEngineContract {
    /// The error `record_fees` returns, or `None` where it succeeds.
    pub open spec fn fees_error(
        &self,
        core: &CommitmentCoreContract,
        caller: Address,
        id: Seq<char>,
        fee_amount: i128,
    ) -> Option<AttestationError> {
        if self.admin.is_none() {
            Some(AttestationError::NotInitialized)
        } else if self.pausable.paused {
            Some(AttestationError::Paused)
        } else if !self.verifiers@.contains(caller) {
            Some(AttestationError::Unauthorized)
        } else if !core.has_commitment(id) {
            Some(AttestationError::CommitmentNotFound)
        } else if fee_amount <= 0 {
            Some(AttestationError::InvalidAmount)
        } else {
            None
        }
    }

    /// A verifier reports fees earned by a commitment. They add to its
    /// fees (saturating) and are logged as a `fee_generation` attestation.
    pub fn record_fees(
        &mut self,
        core: &CommitmentCoreContract,
        caller: Address,
        commitment_id: String,
        fee_amount: i128,
        now: u64,
    ) -> (r: Result<(), AttestationError>)
        requires
            old(self).wf(),
            core.wf(),
            old(self).attestations@.len() < u32::MAX,
            old(self).attestations@.len() > 0 ==> old(self).attestations@.last().timestamp <= now,
        ensures
            final(self).wf(),
            references_valid(old(self).attestations@, core) ==> references_valid(
                final(self).attestations@,
                core,
            ),
            match old(self).fees_error(core, caller, commitment_id@, fee_amount) {
                Some(e) => r == Err::<(), AttestationError>(e) && *final(self) == *old(self),
                None => {
                    &&& r is Ok
                    &&& final(self).attestations@.last().attestation_type@ == "fee_generation"@
                    &&& final(self).attestations@.last().data@.len() == 0
                    &&& final(self).attestations@.last().compliant
                    &&& Self::appended(
                        *old(self),
                        *final(self),
                        core,
                        final(self).attestations@.last(),
                        fee_amount,
                        None,
                    )
                    &&& final(self).attestations@.last().commitment_id == commitment_id
                    &&& final(self).attestations@.last().verifier == caller
                    &&& final(self).attestations@.last().timestamp == now
                },
            },
    {
        match self.verifier_check(core, caller, &commitment_id) {
            Some(e) => {
                return Err(e);
            },
            None => {},
        }
        if fee_amount <= 0 {
            return Err(AttestationError::InvalidAmount);
        }
        let a = Attestation {
            commitment_id,
            attestation_type: "fee_generation".to_owned(),
            data: Vec::new(),
            verifier: caller,
            timestamp: now,
            compliant: true,
        };
        self.append(core, a, fee_amount, None);
        Ok(())
    }

    /// The error `record_drawdown` returns, or `None` where it succeeds.
    pub open spec fn drawdown_error(
        &self,
        core: &CommitmentCoreContract,
        caller: Address,
        id: Seq<char>,
        percent: u32,
    ) -> Option<AttestationError> {
        if self.admin.is_none() {
            Some(AttestationError::NotInitialized)
        } else if self.pausable.paused {
            Some(AttestationError::Paused)
        } else if !self.verifiers@.contains(caller) {
            Some(AttestationError::Unauthorized)
        } else if !core.has_commitment(id) {
            Some(AttestationError::CommitmentNotFound)
        } else if percent > MAX_PERCENT {
            Some(AttestationError::InvalidPercentage)
        } else {
            None
        }
    }

    /// A verifier reports a commitment's drawdown. It replaces the stored
    /// drawdown and is logged as a `drawdown` attestation, compliant where
    /// it is within the commitment's loss limit.
    pub fn record_drawdown(
        &mut self,
        core: &CommitmentCoreContract,
        caller: Address,
        commitment_id: String,
        drawdown_percent: u32,
        now: u64,
    ) -> (r: Result<(), AttestationError>)
        requires
            old(self).wf(),
            core.wf(),
            old(self).attestations@.len() < u32::MAX,
            old(self).attestations@.len() > 0 ==> old(self).attestations@.last().timestamp <= now,
        ensures
            final(self).wf(),
            references_valid(old(self).attestations@, core) ==> references_valid(
                final(self).attestations@,
                core,
            ),
            match old(self).drawdown_error(core, caller, commitment_id@, drawdown_percent) {
                Some(e) => r == Err::<(), AttestationError>(e) && *final(self) == *old(self),
                None => {
                    &&& r is Ok
                    &&& final(self).attestations@.last().attestation_type@ == "drawdown"@
                    &&& final(self).attestations@.last().data@.len() == 0
                    &&& final(self).attestations@.last().compliant == (drawdown_percent
                        <= core.commitment(commitment_id@).rules.max_loss_percent)
                    &&& Self::appended(
                        *old(self),
                        *final(self),
                        core,
                        final(self).attestations@.last(),
                        0,
                        Some(drawdown_percent),
                    )
                    &&& final(self).attestations@.last().commitment_id == commitment_id
                    &&& final(self).attestations@.last().verifier == caller
                    &&& final(self).attestations@.last().timestamp == now
                },
            },
    {
        match self.verifier_check(core, caller, &commitment_id) {
            Some(e) => {
                return Err(e);
            },
            None => {},
        }
        if drawdown_percent > MAX_PERCENT {
            return Err(AttestationError::InvalidPercentage);
        }
        let i = match core.find(&commitment_id) {
            Some(i) => i,
            None => {
                proof {
                    assert(false);
                }
                return Err(AttestationError::CommitmentNotFound);
            },
        };
        let compliant = drawdown_percent <= core.commitments[i].rules.max_loss_percent;
        let a = Attestation {
            commitment_id,
            attestation_type: "drawdown".to_owned(),
            data: Vec::new(),
            verifier: caller,
            timestamp: now,
            compliant,
        };
        self.append(core, a, 0, Some(drawdown_percent));
        Ok(())
    }

    /// The attestations about `commitment_id`, oldest first; their
    /// timestamps never decrease.
    pub fn get_attestations(&self, commitment_id: &String) -> (r: Vec<Attestation>)
        requires
            self.wf(),
        ensures
            same_attestations(r@, attestations_for(self.attestations@, commitment_id@)),
            timestamps_ordered(r@),
    {
        let mut out: Vec<Attestation> = Vec::new();
        let mut i: usize = 0;
        while i < self.attestations.len()
            invariant
                i <= self.attestations@.len(),
                same_attestations(
                    out@,
                    attestations_for(self.attestations@.subrange(0, i as int), commitment_id@),
                ),
            decreases self.attestations@.len() - i,
        {
            let ghost prev = out@;
            assert(self.attestations@.subrange(0, i + 1).drop_last() =~= self.attestations@.subrange(
                0,
                i as int,
            ));
            if self.attestations[i].commitment_id == *commitment_id {
                out.push(self.attestations[i].clone());
                proof {
                    let f = attestations_for(self.attestations@.subrange(0, i + 1), commitment_id@);
                    assert forall|k: int| 0 <= k < out@.len() implies (#[trigger] out@[k]).same_as(
                        &f[k],
                    ) by {
                        if k < prev.len() {
                            assert(out@[k] == prev[k]);
                        }
                    }
                }
            }
            i = i + 1;
        }
        assert(self.attestations@.subrange(0, i as int) =~= self.attestations@);
        proof {
            let f = attestations_for(self.attestations@, commitment_id@);
            lemma_attestations_for_ordered(self.attestations@, commitment_id@);
            assert forall|x: int, y: int| 0 <= x <= y < out@.len() implies (
            #[trigger] out@[x]).timestamp <= (#[trigger] out@[y]).timestamp by {
                assert(out@[x].same_as(&f[x]) && out@[y].same_as(&f[y]));
            }
        }
        out
    }

    /// Number of attestations about `commitment_id`.
    pub fn get_attestation_count(&self, commitment_id: &String) -> (r: u32)
        requires
            self.wf(),
        ensures
            r == count_for(self.attestations@, commitment_id@),
    {
        self.log_summary(commitment_id).0
    }

    /// Count and latest time of the attestations about `id`.
    fn log_summary(&self, id: &String) -> (r: (u32, u64))
        requires
            self.wf(),
        ensures
            r.0 == count_for(self.attestations@, id@),
            r.1 == last_for(self.attestations@, id@),
    {
        let mut count: u32 = 0;
        let mut last: u64 = 0;
        let mut i: usize = 0;
        while i < self.attestations.len()
            invariant
                self.wf(),
                i <= self.attestations@.len(),
                count == count_for(self.attestations@.subrange(0, i as int), id@),
                last == last_for(self.attestations@.subrange(0, i as int), id@),
            decreases self.attestations@.len() - i,
        {
            assert(self.attestations@.subrange(0, i + 1).drop_last() =~= self.attestations@.subrange(
                0,
                i as int,
            ));
            proof {
                lemma_attestations_for_bound(self.attestations@.subrange(0, i as int), id@);
            }
            if self.attestations[i].commitment_id == *id {
                count = count + 1;
                last = self.attestations[i].timestamp;
            }
            i = i + 1;
        }
        assert(self.attestations@.subrange(0, i as int) =~= self.attestations@);
        (count, last)
    }

    /// Page `[offset, offset + limit)` of the attestations about
    /// `commitment_id`; `next_offset` is where the next page starts, or zero
    /// where nothing remains. Out of range gives an empty page.
    pub fn get_attestations_page(&self, commitment_id: &String, offset: u32, limit: u32) -> (r:
        AttestationsPage)
        requires
            self.wf(),
        ensures
            same_attestations(
                r.attestations@,
                page_of(attestations_for(self.attestations@, commitment_id@), offset, limit).0,
            ),
            r.next_offset == page_of(
                attestations_for(self.attestations@, commitment_id@),
                offset,
                limit,
            ).1,
    {
        let all = self.get_attestations(commitment_id);
        let ghost f = attestations_for(self.attestations@, commitment_id@);
        proof {
            lemma_attestations_for_bound(self.attestations@, commitment_id@);
        }
        let n = all.len();
        if offset as usize >= n {
            return AttestationsPage { attestations: Vec::new(), next_offset: 0 };
        }
        let want: u64 = offset as u64 + limit as u64;
        let end: usize = if want < n as u64 {
            want as usize
        } else {
            n
        };
        let mut out: Vec<Attestation> = Vec::new();
        let mut i: usize = offset as usize;
        while i < end
            invariant
                offset <= i <= end,
                end <= n,
                n == all@.len(),
                same_attestations(all@, f),
                same_attestations(out@, f.subrange(offset as int, i as int)),
            decreases end - i,
        {
            let ghost prev = out@;
            out.push(all[i].clone());
            i = i + 1;
            proof {
                let g = f.subrange(offset as int, i as int);
                assert forall|k: int| 0 <= k < out@.len() implies (#[trigger] out@[k]).same_as(
                    &g[k],
                ) by {
                    if k < prev.len() {
                        assert(out@[k] == prev[k]);
                    } else {
                        assert(all@[i - 1].same_as(&f[i - 1]));
                    }
                }
            }
        }
        let next: u32 = if end < n {
            end as u32
        } else {
            0
        };
        AttestationsPage { attestations: out, next_offset: next }
    }

    /// The stored drawdown of `id`, or zero.
    pub open spec fn stored_drawdown(&self, id: Seq<char>) -> u32 {
        match self.record(id) {
            Some(m) => m.drawdown_percent,
            None => 0,
        }
    }

    /// The stored fees of `id`, or zero.
    pub open spec fn stored_fees(&self, id: Seq<char>) -> i128 {
        match self.record(id) {
            Some(m) => m.fees_generated,
            None => 0,
        }
    }

    /// The metrics as stored at the last write, if `id` was ever attested.
    pub fn get_stored_health_metrics(&self, commitment_id: &String) -> (r: Option<HealthMetrics>)
        requires
            self.wf(),
        ensures
            r == match self.record(commitment_id@) {
                Some(m) => Some(
                    HealthMetrics {
                        initial_value: m.initial_value,
                        current_value: m.current_value,
                        drawdown_percent: m.drawdown_percent,
                        fees_generated: m.fees_generated,
                        last_attestation: last_for(self.attestations@, commitment_id@),
                        attestation_count: count_for(self.attestations@, commitment_id@) as u32,
                    },
                ),
                None => None::<HealthMetrics>,
            },
    {
        match self.find_metrics(commitment_id) {
            Some(i) => {
                let (count, last) = self.log_summary(commitment_id);
                Some(
                    HealthMetrics {
                        initial_value: self.metrics[i].initial_value,
                        current_value: self.metrics[i].current_value,
                        drawdown_percent: self.metrics[i].drawdown_percent,
                        fees_generated: self.metrics[i].fees_generated,
                        last_attestation: last,
                        attestation_count: count,
                    },
                )
            },
            None => None,
        }
    }

    /// Current metrics: values read from the ledger now, reported figures
    /// from storage, count and latest time from the log.
    pub fn get_health_metrics(&self, core: &CommitmentCoreContract, commitment_id: &String) -> (r:
        HealthMetrics)
        requires
            self.wf(),
            core.wf(),
        ensures
            r.initial_value == (if core.has_commitment(commitment_id@) {
                core.commitment(commitment_id@).amount
            } else {
                0
            }),
            r.current_value == (if core.has_commitment(commitment_id@) {
                core.commitment(commitment_id@).current_value
            } else {
                0
            }),
            r.drawdown_percent == self.stored_drawdown(commitment_id@),
            r.fees_generated == self.stored_fees(commitment_id@),
            r.last_attestation == last_for(self.attestations@, commitment_id@),
            r.attestation_count == count_for(self.attestations@, commitment_id@),
    {
        let (initial, current) = match core.find(commitment_id) {
            Some(i) => (core.commitments[i].amount, core.commitments[i].current_value),
            None => (0, 0),
        };
        let (dd, fees) = match self.find_metrics(commitment_id) {
            Some(i) => (self.metrics[i].drawdown_percent, self.metrics[i].fees_generated),
            None => (0, 0),
        };
        let (count, last) = self.log_summary(commitment_id);
        HealthMetrics {
            initial_value: initial,
            current_value: current,
            drawdown_percent: dd,
            fees_generated: fees,
            last_attestation: last,
            attestation_count: count,
        }
    }

    /// A commitment is compliant when it exists and both the reported and
    /// the derived drawdown are within its loss limit.
    pub open spec fn is_compliant(&self, core: &CommitmentCoreContract, id: Seq<char>) -> bool {
        &&& core.has_commitment(id)
        &&& self.stored_drawdown(id) <= core.commitment(id).rules.max_loss_percent
        &&& drawdown_capped(
            core.commitment(id).amount as int,
            core.commitment(id).current_value as int,
        ) <= core.commitment(id).rules.max_loss_percent
    }

    /// The compliance decision; `false` for a missing commitment.
    pub fn verify_compliance(&self, core: &CommitmentCoreContract, commitment_id: &String) -> (r:
        bool)
        requires
            self.wf(),
            core.wf(),
        ensures
            r == self.is_compliant(core, commitment_id@),
    {
        let i = match core.find(commitment_id) {
            Some(i) => i,
            None => {
                return false;
            },
        };
        let limit = core.commitments[i].rules.max_loss_percent;
        let reported = match self.find_metrics(commitment_id) {
            Some(k) => self.metrics[k].drawdown_percent,
            None => 0,
        };
        let derived = drawdown_percent(core.commitments[i].amount, core.commitments[i].current_value);
        reported <= limit && derived <= limit
    }

    /// The compliance score in `[0, 100]` at time `now`.
    pub open spec fn score(&self, core: &CommitmentCoreContract, id: Seq<char>, now: u64) -> int {
        if !core.has_commitment(id) {
            0
        } else {
            let c = core.commitment(id);
            let derived = drawdown_capped(c.amount as int, c.current_value as int);
            let reported = self.stored_drawdown(id) as int;
            let worst = if reported > derived {
                reported
            } else {
                derived
            };
            let excess = if worst > c.rules.max_loss_percent {
                worst - c.rules.max_loss_percent
            } else {
                0
            };
            let since = if count_for(self.attestations@, id) > 0 {
                last_for(self.attestations@, id) as int
            } else {
                c.created_at as int
            };
            let stale = now - since > STALE_AFTER_SECONDS;
            let raw = 100 - DRAWDOWN_WEIGHT * excess - (if stale {
                STALENESS_PENALTY as int
            } else {
                0
            }) + (if self.stored_fees(id) > c.rules.min_fee_threshold {
                FEE_BONUS as int
            } else {
                0
            });
            if raw < 0 {
                0
            } else if raw > 100 {
                100
            } else {
                raw
            }
        }
    }

    /// Weighted compliance score: 100, less twice the drawdown beyond the
    /// loss limit, less a staleness penalty where no attestation came for
    /// a week, plus a bonus where fees exceed the minimum threshold;
    /// clamped to `[0, 100]`. Zero for a missing commitment.
    pub fn calculate_compliance_score(
        &self,
        core: &CommitmentCoreContract,
        commitment_id: &String,
        now: u64,
    ) -> (r: u32)
        requires
            self.wf(),
            core.wf(),
        ensures
            r == self.score(core, commitment_id@, now),
            r <= 100,
    {
        let i = match core.find(commitment_id) {
            Some(i) => i,
            None => {
                return 0;
            },
        };
        let limit = core.commitments[i].rules.max_loss_percent;
        let derived = drawdown_percent(core.commitments[i].amount, core.commitments[i].current_value);
        let (reported, fees) = match self.find_metrics(commitment_id) {
            Some(k) => (self.metrics[k].drawdown_percent, self.metrics[k].fees_generated),
            None => (0, 0),
        };
        let worst = if reported > derived {
            reported
        } else {
            derived
        };
        let excess: i128 = if worst > limit {
            (worst - limit) as i128
        } else {
            0
        };
        let (count, last) = self.log_summary(commitment_id);
        let since: u64 = if count > 0 {
            last
        } else {
            core.commitments[i].created_at
        };
        let stale = now > since && now - since > STALE_AFTER_SECONDS;
        let mut raw: i128 = 100 - (DRAWDOWN_WEIGHT as i128) * excess;
        if stale {
            raw = raw - STALENESS_PENALTY as i128;
        }
        if fees > core.commitments[i].rules.min_fee_threshold as i128 {
            raw = raw + FEE_BONUS as i128;
        }
        if raw < 0 {
            0
        } else if raw > 100 {
            100
        } else {
            raw as u32
        }
    }

    /// The attestation fee and the asset it is paid in.
    pub fn get_attestation_fee(&self) -> (r: (i128, Option<Address>))
        ensures
            r == (self.attestation_fee, self.fee_asset),
    {
        (self.attestation_fee, self.fee_asset)
    }

    /// Where attestation fees go.
    pub fn get_fee_recipient(&self) -> (r: Option<Address>)
        ensures
            r == self.fee_recipient,
    {
        self.fee_recipient
    }

    /// Admin-only: sets the attestation fee and its asset.
    pub fn set_attestation_fee(&mut self, caller: Address, amount: i128, asset: Address) -> (r:
        Result<(), AttestationError>)
        requires
            old(self).wf(),
        ensures
            final(self).wf(),
            r == match old(self).admin_error(caller) {
                Some(e) => Err::<(), AttestationError>(e),
                None => if amount < 0 {
                    Err(AttestationError::InvalidAmount)
                } else {
                    Ok(())
                },
            },
            r is Err ==> *final(self) == *old(self),
            r is Ok ==> final(self).attestation_fee == amount && final(self).fee_asset == Some(asset)
                && final(self).fee_recipient == old(self).fee_recipient && final(self).attestations
                == old(self).attestations && final(self).verifiers == old(self).verifiers,
    {
        match self.admin_check(caller) {
            Some(e) => {
                return Err(e);
            },
            None => {},
        }
        if amount < 0 {
            return Err(AttestationError::InvalidAmount);
        }
        self.attestation_fee = amount;
        self.fee_asset = Some(asset);
        Ok(())
    }

    /// Admin-only: sets where attestation fees go.
    pub fn set_fee_recipient(&mut self, caller: Address, recipient: Address) -> (r: Result<
        (),
        AttestationError,
    >)
        requires
            old(self).wf(),
        ensures
            final(self).wf(),
            r == match old(self).admin_error(caller) {
                Some(e) => Err::<(), AttestationError>(e),
                None => Ok(()),
            },
            r is Err ==> *final(self) == *old(self),
            r is Ok ==> final(self).fee_recipient == Some(recipient) && final(self).attestation_fee
                == old(self).attestation_fee && final(self).fee_asset == old(self).fee_asset
                && final(self).attestations == old(self).attestations,
    {
        match self.admin_check(caller) {
            Some(e) => {
                return Err(e);
            },
            None => {},
        }
        self.fee_recipient = Some(recipient);
        Ok(())
    }

    /// Admin-only: refuses attestations until `unpause`.
    pub fn pause(&mut self, caller: Address) -> (r: Result<(), AttestationError>)
        requires
            old(self).wf(),
        ensures
            final(self).wf(),
            r == match old(self).admin_error(caller) {
                Some(e) => Err::<(), AttestationError>(e),
                None => if old(self).pausable.paused {
                    Err(AttestationError::AlreadyPaused)
                } else {
                    Ok(())
                },
            },
            r is Err ==> *final(self) == *old(self),
            r is Ok ==> final(self).pausable.paused && final(self).attestations == old(
                self,
            ).attestations && final(self).verifiers == old(self).verifiers && final(self).events@
                == old(self).events@.push(AttestationEvent::Pause),
    {
        match self.admin_check(caller) {
            Some(e) => {
                return Err(e);
            },
            None => {},
        }
        match self.pausable.pause() {
            Ok(()) => {
                self.events.push(AttestationEvent::Pause);
                Ok(())
            },
            Err(_) => Err(AttestationError::AlreadyPaused),
        }
    }

    /// Admin-only: accepts attestations again.
    pub fn unpause(&mut self, caller: Address) -> (r: Result<(), AttestationError>)
        requires
            old(self).wf(),
        ensures
            final(self).wf(),
            r == match old(self).admin_error(caller) {
                Some(e) => Err::<(), AttestationError>(e),
                None => if !old(self).pausable.paused {
                    Err(AttestationError::NotPaused)
                } else {
                    Ok(())
                },
            },
            r is Err ==> *final(self) == *old(self),
            r is Ok ==> !final(self).pausable.paused && final(self).attestations == old(
                self,
            ).attestations && final(self).verifiers == old(self).verifiers && final(self).events@
                == old(self).events@.push(AttestationEvent::Unpause),
    {
        match self.admin_check(caller) {
            Some(e) => {
                return Err(e);
            },
            None => {},
        }
        match self.pausable.unpause() {
            Ok(()) => {
                self.events.push(AttestationEvent::Unpause);
                Ok(())
            },
            Err(_) => Err(AttestationError::NotPaused),
        }
    }
}

/// Adding a verifier that was not authorised and then removing it leaves
/// the engine's verifier set as it was.
pub proof fn lemma_add_then_remove_verifier(
    e0: &AttestationEngineContract,
    e1: &AttestationEngineContract,
    e2: &AttestationEngineContract,
    v: Address,
)
    requires
        !e0.verifier_set().contains(v),
        e1.verifier_set() == e0.verifier_set().insert(v),
        e2.verifier_set() == e1.verifier_set().remove(v),
    ensures
        e2.verifier_set() == e0.verifier_set(),
{
    assert(e2.verifier_set() =~= e0.verifier_set());
}

} // verus!
