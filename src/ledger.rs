//! The attestation store: one immutable record per (owner, period) key, a
//! sparse overlay of revoked keys, and a write-once administrator.

use vstd::prelude::*;
use crate::bytes::{copy_bytes, same_bytes, same_root};

verus! {

/// The commitment stored for one key: a Merkle root with its timestamp and
/// version. Never changed once stored.
#[derive(Clone, Copy, Debug, PartialEq, Eq)]
pub struct AttestationRecord {
    pub merkle_root: [u8; 32],
    pub timestamp: u64,
    pub version: u32,
}

/// Lifecycle status of an attestation. A key with no explicit status is
/// `Active`.
#[derive(Clone, Copy, Debug, PartialEq, Eq, Structural)]
pub enum AttestationStatus {
    Active,
    Revoked,
}

/// The failures of the store's operations; each is its own observable case.
#[derive(Clone, Copy, Debug, PartialEq, Eq, Structural)]
pub enum AttestationError {
    DuplicateAttestation,
    AdminAlreadySet,
    AdminNotSet,
    NotAdmin,
    AttestationNotFound,
}

/// The identity of one attestation: an owner and a period.
#[derive(Clone, Debug)]
pub struct AttestationKey {
    pub owner: Vec<u8>,
    pub period: Vec<u8>,
}

impl View for AttestationKey {
    type V = (Seq<u8>, Seq<u8>);

    open spec fn view(&self) -> (Seq<u8>, Seq<u8>) {
        (self.owner@, self.period@)
    }
}

/// The abstract content of the store.
pub struct LedgerState {
    /// The record stored for each key.
    pub records: Map<(Seq<u8>, Seq<u8>), AttestationRecord>,
    /// The keys that have been revoked.
    pub revoked: Set<(Seq<u8>, Seq<u8>)>,
    /// The administrator, once set.
    pub admin: Option<Seq<u8>>,
}

impl LedgerState {
    /// Only keys that hold a record can be revoked.
    pub open spec fn wf(self) -> bool {
        self.revoked.subset_of(self.records.dom())
    }

    /// The record stored for `k`, if any.
    pub open spec fn lookup(self, k: (Seq<u8>, Seq<u8>)) -> Option<AttestationRecord> {
        if self.records.contains_key(k) {
            Some(self.records[k])
        } else {
            None
        }
    }

    /// The effective status of `k`: `Active` unless `k` was revoked.
    pub open spec fn status(self, k: (Seq<u8>, Seq<u8>)) -> AttestationStatus {
        if self.revoked.contains(k) {
            AttestationStatus::Revoked
        } else {
            AttestationStatus::Active
        }
    }

    /// A record exists for `k` and its root is exactly `root`.
    pub open spec fn verifies(self, k: (Seq<u8>, Seq<u8>), root: Seq<u8>) -> bool {
        self.records.contains_key(k) && self.records[k].merkle_root@ == root
    }

    /// Storing `rec` under `k`: refused when `k` already holds a record.
    pub open spec fn submit(self, k: (Seq<u8>, Seq<u8>), rec: AttestationRecord) -> Result<
        LedgerState,
        AttestationError,
    > {
        if self.records.contains_key(k) {
            Err(AttestationError::DuplicateAttestation)
        } else {
            Ok(LedgerState { records: self.records.insert(k, rec), ..self })
        }
    }

    /// Setting the administrator: refused once one is set.
    pub open spec fn init(self, admin: Seq<u8>) -> Result<LedgerState, AttestationError> {
        if self.admin is Some {
            Err(AttestationError::AdminAlreadySet)
        } else {
            Ok(LedgerState { admin: Some(admin), ..self })
        }
    }

    /// Revoking `k` on behalf of `caller`.
    pub open spec fn revoke(self, caller: Seq<u8>, k: (Seq<u8>, Seq<u8>)) -> Result<
        LedgerState,
        AttestationError,
    > {
        if self.admin is None {
            Err(AttestationError::AdminNotSet)
        } else if self.admin != Some(caller) {
            Err(AttestationError::NotAdmin)
        } else if !self.records.contains_key(k) {
            Err(AttestationError::AttestationNotFound)
        } else {
            Ok(LedgerState { revoked: self.revoked.insert(k), ..self })
        }
    }
}

/// An operation returned `r` and left the store in `after`, as the transition
/// `t` prescribes from `before`: on failure the error is `t`'s and the store
/// is unchanged.
pub open spec fn follows(
    t: Result<LedgerState, AttestationError>,
    r: Result<(), AttestationError>,
    before: LedgerState,
    after: LedgerState,
) -> bool {
    match t {
        Ok(s) => r is Ok && after == s,
        Err(e) => r == Err::<(), AttestationError>(e) && after == before,
    }
}

/// Submitting twice for one key: the second submission fails with
/// `DuplicateAttestation` whatever it carries, and the first record stays.
pub proof fn lemma_second_submit_refused(
    v: LedgerState,
    k: (Seq<u8>, Seq<u8>),
    first: AttestationRecord,
    second: AttestationRecord,
)
    requires
        v.submit(k, first) is Ok,
    ensures
        ({
            let s = v.submit(k, first)->Ok_0;
            &&& s.lookup(k) == Some(first)
            &&& s.submit(k, second) == Err::<LedgerState, AttestationError>(
                AttestationError::DuplicateAttestation,
            )
        }),
{
}

/// Revocation succeeds exactly when the caller is the configured
/// administrator and the key holds a record; before an administrator is set
/// it fails with `AdminNotSet`, and a caller other than the administrator gets
/// `NotAdmin`.
pub proof fn lemma_revoke_authorized(v: LedgerState, caller: Seq<u8>, k: (Seq<u8>, Seq<u8>))
    ensures
        v.revoke(caller, k) is Ok <==> (v.admin == Some(caller) && v.records.contains_key(k)),
        v.admin is None ==> v.revoke(caller, k) == Err::<LedgerState, AttestationError>(
            AttestationError::AdminNotSet,
        ),
        (v.admin is Some && v.admin != Some(caller)) ==> v.revoke(caller, k) == Err::<
            LedgerState,
            AttestationError,
        >(AttestationError::NotAdmin),
{
}

/// After the move from `v` to `s`, the key `k` is still revoked and still
/// looks up and verifies exactly as before.
pub open spec fn stays_revoked(v: LedgerState, s: LedgerState, k: (Seq<u8>, Seq<u8>)) -> bool {
    &&& s.status(k) == AttestationStatus::Revoked
    &&& s.lookup(k) == v.lookup(k)
    &&& forall|root: Seq<u8>| #[trigger] s.verifies(k, root) == v.verifies(k, root)
}

/// Revocation is monotonic: from a store in which `k` is revoked, every
/// operation that succeeds leaves `k` revoked with its original record.
pub proof fn lemma_revocation_monotone(
    v: LedgerState,
    k: (Seq<u8>, Seq<u8>),
    submit_key: (Seq<u8>, Seq<u8>),
    rec: AttestationRecord,
    admin: Seq<u8>,
    caller: Seq<u8>,
    revoke_key: (Seq<u8>, Seq<u8>),
)
    requires
        v.wf(),
        v.revoked.contains(k),
    ensures
        v.status(k) == AttestationStatus::Revoked,
        v.submit(submit_key, rec) matches Ok(s) ==> stays_revoked(v, s, k),
        v.init(admin) matches Ok(s) ==> stays_revoked(v, s, k),
        v.revoke(caller, revoke_key) matches Ok(s) ==> stays_revoked(v, s, k),
{
    assert(v.records.contains_key(k));
}

struct StoredAttestation {
    owner: Vec<u8>,
    period: Vec<u8>,
    record: AttestationRecord,
}

/// The attestation store.
pub struct AttestationContract {
    entries: Vec<StoredAttestation>,
    revoked: Vec<AttestationKey>,
    admin: Option<Vec<u8>>,
    records: Ghost<Map<(Seq<u8>, Seq<u8>), AttestationRecord>>,
    revoked_keys: Ghost<Set<(Seq<u8>, Seq<u8>)>>,
}

impl View for AttestationContract {
    type V = LedgerState;

    closed spec fn view(&self) -> LedgerState {
        LedgerState {
            records: self.records@,
            revoked: self.revoked_keys@,
            admin: match self.admin {
                Some(a) => Some(a@),
                None => None,
            },
        }
    }
}

spec fn entry_key(e: StoredAttestation) -> (Seq<u8>, Seq<u8>) {
    (e.owner@, e.period@)
}

spec fn holds_entry(entries: Seq<StoredAttestation>, k: (Seq<u8>, Seq<u8>)) -> bool {
    exists|i: int| 0 <= i < entries.len() && entry_key(entries[i]) == k
}

spec fn lists_key(keys: Seq<AttestationKey>, k: (Seq<u8>, Seq<u8>)) -> bool {
    exists|j: int| 0 <= j < keys.len() && keys[j]@ == k
}

impl AttestationContract {
    /// The stored entries and revoked keys agree with the abstract maps, and
    /// only keys holding a record are revoked.
    pub closed spec fn wf(&self) -> bool {
        &&& forall|i: int|
            0 <= i < self.entries@.len() ==> #[trigger] self.records@.contains_key(
                entry_key(self.entries@[i]),
            ) && self.records@[entry_key(self.entries@[i])] == self.entries@[i].record
        &&& forall|k: (Seq<u8>, Seq<u8>)| #[trigger]
            self.records@.contains_key(k) ==> holds_entry(self.entries@, k)
        &&& forall|j: int|
            0 <= j < self.revoked@.len() ==> #[trigger] self.revoked_keys@.contains(
                self.revoked@[j]@,
            )
        &&& forall|k: (Seq<u8>, Seq<u8>)| #[trigger]
            self.revoked_keys@.contains(k) ==> lists_key(self.revoked@, k)
        &&& self@.wf()
    }

    /// An empty store with no administrator.
    pub fn new() -> (s: AttestationContract)
        ensures
            s.wf(),
            s@.records == Map::<(Seq<u8>, Seq<u8>), AttestationRecord>::empty(),
            s@.revoked == Set::<(Seq<u8>, Seq<u8>)>::empty(),
            s@.admin is None,
    {
        AttestationContract {
            entries: Vec::new(),
            revoked: Vec::new(),
            admin: None,
            records: Ghost(Map::empty()),
            revoked_keys: Ghost(Set::empty()),
        }
    }

    fn find_entry(&self, owner: &Vec<u8>, period: &Vec<u8>) -> (r: Option<usize>)
        requires
            self.wf(),
        ensures
            match r {
                Some(i) => i < self.entries@.len() && entry_key(self.entries@[i as int]) == (
                owner@,
                period@,
                ),
                None => !self@.records.contains_key((owner@, period@)),
            },
    {
        let mut i: usize = 0;
        while i < self.entries.len()
            invariant
                i <= self.entries@.len(),
                forall|j: int| 0 <= j < i ==> entry_key(self.entries@[j]) != (owner@, period@),
            decreases self.entries.len() - i,
        {
            let e = &self.entries[i];
            if same_bytes(&e.owner, owner) && same_bytes(&e.period, period) {
                return Some(i);
            }
            i = i + 1;
        }
        None
    }

    fn is_revoked(&self, owner: &Vec<u8>, period: &Vec<u8>) -> (r: bool)
        requires
            self.wf(),
        ensures
            r == self@.revoked.contains((owner@, period@)),
    {
        let mut i: usize = 0;
        while i < self.revoked.len()
            invariant
                self.wf(),
                i <= self.revoked@.len(),
                forall|j: int| 0 <= j < i ==> self.revoked@[j]@ != (owner@, period@),
            decreases self.revoked.len() - i,
        {
            let k = &self.revoked[i];
            if same_bytes(&k.owner, owner) && same_bytes(&k.period, period) {
                assert(self.revoked_keys@.contains(self.revoked@[i as int]@));
                return true;
            }
            i = i + 1;
        }
        false
    }

    /// The record stored for (`business`, `period`), if any.
    pub fn get_attestation(&self, business: &Vec<u8>, period: &Vec<u8>) -> (r: Option<AttestationRecord>)
        requires
            self.wf(),
        ensures
            r == self@.lookup((business@, period@)),
    {
        match self.find_entry(business, period) {
            Some(i) => Some(self.entries[i].record),
            None => None,
        }
    }

    /// Whether a record exists for (`business`, `period`) and its root equals
    /// `merkle_root` byte for byte.
    pub fn verify_attestation(&self, business: &Vec<u8>, period: &Vec<u8>, merkle_root: &[u8; 32]) -> (r: bool)
        requires
            self.wf(),
        ensures
            r == self@.verifies((business@, period@), merkle_root@),
    {
        match self.get_attestation(business, period) {
            Some(rec) => same_root(&rec.merkle_root, merkle_root),
            None => false,
        }
    }

    /// The effective status of (`business`, `period`): `Active` unless revoked.
    pub fn get_status(&self, business: &Vec<u8>, period: &Vec<u8>) -> (r: AttestationStatus)
        requires
            self.wf(),
        ensures
            r == self@.status((business@, period@)),
    {
        if self.is_revoked(business, period) {
            AttestationStatus::Revoked
        } else {
            AttestationStatus::Active
        }
    }

    /// Stores a new record for (`business`, `period`); a key that already holds
    /// a record is never overwritten.
    pub fn submit_attestation(
        &mut self,
        business: Vec<u8>,
        period: Vec<u8>,
        merkle_root: [u8; 32],
        timestamp: u64,
        version: u32,
    ) -> (r: Result<(), AttestationError>)
        requires
            old(self).wf(),
        ensures
            final(self).wf(),
            follows(
                old(self)@.submit(
                    (business@, period@),
                    AttestationRecord { merkle_root, timestamp, version },
                ),
                r,
                old(self)@,
                final(self)@,
            ),
    {
        if self.find_entry(&business, &period).is_some() {
            return Err(AttestationError::DuplicateAttestation);
        }
        let ghost k = (business@, period@);
        let record = AttestationRecord { merkle_root, timestamp, version };
        let ghost old_entries = self.entries@;
        self.entries.push(StoredAttestation { owner: business, period, record });
        self.records = Ghost(self.records@.insert(k, record));
        proof {
            assert(entry_key(self.entries@[old_entries.len() as int]) == k);
            assert forall|q: (Seq<u8>, Seq<u8>)| #[trigger]
                self.records@.contains_key(q) implies holds_entry(self.entries@, q) by {
                if q == k {
                    assert(entry_key(self.entries@[old_entries.len() as int]) == q);
                } else {
                    assert(holds_entry(old_entries, q));
                    let i = choose|i: int| 0 <= i < old_entries.len() && entry_key(old_entries[i]) == q;
                    assert(self.entries@[i] == old_entries[i]);
                }
            }
            assert forall|i: int| 0 <= i < self.entries@.len() implies #[trigger] self.records@.contains_key(
                entry_key(self.entries@[i]),
            ) && self.records@[entry_key(self.entries@[i])] == self.entries@[i].record by {
                if i < old_entries.len() {
                    assert(self.entries@[i] == old_entries[i]);
                    assert(old(self).records@.contains_key(entry_key(old_entries[i])));
                }
            }
            assert(self@.records =~= old(self)@.records.insert(k, record));
        }
        Ok(())
    }

    /// Sets the administrator, once for the store's lifetime.
    pub fn init(&mut self, admin: Vec<u8>) -> (r: Result<(), AttestationError>)
        requires
            old(self).wf(),
        ensures
            final(self).wf(),
            follows(old(self)@.init(admin@), r, old(self)@, final(self)@),
    {
        if self.admin.is_some() {
            return Err(AttestationError::AdminAlreadySet);
        }
        self.admin = Some(admin);
        Ok(())
    }

    /// Marks (`business`, `period`) revoked on behalf of `caller`, who must be
    /// the administrator. The record itself is kept.
    pub fn revoke_attestation(
        &mut self,
        caller: Vec<u8>,
        business: Vec<u8>,
        period: Vec<u8>,
    ) -> (r: Result<(), AttestationError>)
        requires
            old(self).wf(),
        ensures
            final(self).wf(),
            follows(
                old(self)@.revoke(caller@, (business@, period@)),
                r,
                old(self)@,
                final(self)@,
            ),
    {
        match &self.admin {
            None => {
                return Err(AttestationError::AdminNotSet);
            },
            Some(a) => {
                if !same_bytes(a, &caller) {
                    return Err(AttestationError::NotAdmin);
                }
            },
        }
        if self.find_entry(&business, &period).is_none() {
            return Err(AttestationError::AttestationNotFound);
        }
        if self.is_revoked(&business, &period) {
            assert(self@.revoked.insert((business@, period@)) =~= self@.revoked);
            return Ok(());
        }
        let ghost k = (business@, period@);
        let ghost old_revoked = self.revoked@;
        self.revoked.push(AttestationKey { owner: business, period });
        self.revoked_keys = Ghost(self.revoked_keys@.insert(k));
        proof {
            assert(self.revoked@[old_revoked.len() as int]@ == k);
            assert forall|q: (Seq<u8>, Seq<u8>)| #[trigger]
                self.revoked_keys@.contains(q) implies lists_key(self.revoked@, q) by {
                if q == k {
                    assert(self.revoked@[old_revoked.len() as int]@ == q);
                } else {
                    assert(lists_key(old_revoked, q));
                    let j = choose|j: int| 0 <= j < old_revoked.len() && old_revoked[j]@ == q;
                    assert(self.revoked@[j] == old_revoked[j]);
                }
            }
            assert forall|j: int| 0 <= j < self.revoked@.len() implies #[trigger] self.revoked_keys@.contains(
                self.revoked@[j]@) by {
                if j < old_revoked.len() {
                    assert(self.revoked@[j] == old_revoked[j]);
                }
            }
        }
        Ok(())
    }

    /// Every stored attestation with its key, in the order of submission.
    pub fn attestations(&self) -> (r: Vec<(AttestationKey, AttestationRecord)>)
        requires
            self.wf(),
        ensures
            forall|i: int|
                0 <= i < r@.len() ==> #[trigger] self@.records.contains_key(r@[i].0@)
                    && self@.records[r@[i].0@] == r@[i].1,
            forall|k: (Seq<u8>, Seq<u8>)|
                #[trigger] self@.records.contains_key(k) ==> exists|i: int|
                    0 <= i < r@.len() && r@[i].0@ == k,
    {
        let mut r: Vec<(AttestationKey, AttestationRecord)> = Vec::new();
        let mut i: usize = 0;
        while i < self.entries.len()
            invariant
                self.wf(),
                i <= self.entries@.len(),
                r@.len() == i,
                forall|j: int|
                    0 <= j < i ==> r@[j].0@ == entry_key(self.entries@[j]) && r@[j].1
                        == self.entries@[j].record,
            decreases self.entries.len() - i,
        {
            let e = &self.entries[i];
            let key = AttestationKey { owner: copy_bytes(&e.owner), period: copy_bytes(&e.period) };
            r.push((key, e.record));
            i = i + 1;
        }
        proof {
            assert forall|k: (Seq<u8>, Seq<u8>)|
                #[trigger] self@.records.contains_key(k) implies exists|i: int|
                    0 <= i < r@.len() && r@[i].0@ == k by {
                assert(holds_entry(self.entries@, k));
                let i = choose|i: int| 0 <= i < self.entries@.len() && entry_key(self.entries@[i]) == k;
                assert(r@[i].0@ == k);
            }
            assert forall|i: int| 0 <= i < r@.len() implies #[trigger] self@.records.contains_key(r@[i].0@)
                && self@.records[r@[i].0@] == r@[i].1 by {
                assert(r@[i].0@ == entry_key(self.entries@[i]));
            }
        }
        r
    }

    /// Every revoked key.
    pub fn revoked_keys(&self) -> (r: Vec<AttestationKey>)
        requires
            self.wf(),
        ensures
            forall|i: int| 0 <= i < r@.len() ==> #[trigger] self@.revoked.contains(r@[i]@),
            forall|k: (Seq<u8>, Seq<u8>)|
                #[trigger] self@.revoked.contains(k) ==> exists|i: int| 0 <= i < r@.len() && r@[i]@ == k,
    {
        let mut r: Vec<AttestationKey> = Vec::new();
        let mut i: usize = 0;
        while i < self.revoked.len()
            invariant
                self.wf(),
                i <= self.revoked@.len(),
                r@.len() == i,
                forall|j: int| 0 <= j < i ==> r@[j]@ == self.revoked@[j]@,
            decreases self.revoked.len() - i,
        {
            let k = &self.revoked[i];
            r.push(AttestationKey { owner: copy_bytes(&k.owner), period: copy_bytes(&k.period) });
            i = i + 1;
        }
        proof {
            assert forall|k: (Seq<u8>, Seq<u8>)|
                #[trigger] self@.revoked.contains(k) implies exists|i: int|
                    0 <= i < r@.len() && r@[i]@ == k by {
                assert(lists_key(self.revoked@, k));
                let i = choose|i: int| 0 <= i < self.revoked@.len() && self.revoked@[i]@ == k;
                assert(r@[i]@ == k);
            }
            assert forall|i: int| 0 <= i < r@.len() implies #[trigger] self@.revoked.contains(r@[i]@) by {
                assert(self.revoked_keys@.contains(self.revoked@[i]@));
            }
        }
        r
    }

    /// The administrator, once set.
    pub fn admin(&self) -> (r: Option<Vec<u8>>)
        ensures
            match r {
                Some(a) => self@.admin == Some(a@),
                None => self@.admin is None,
            },
    {
        match &self.admin {
            Some(a) => Some(copy_bytes(a)),
            None => None,
        }
    }
}

} // verus!
