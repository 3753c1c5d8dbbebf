//! Approvals: which delegates may move a token for its owner.
//!
//! Each token has a counter from which its approval ids are drawn. The counter
//! only grows, also when approvals are revoked, so an id is never given twice
//! for one token.

use vstd::prelude::*;
use crate::error::LedgerError;
use crate::layout::{
    add_bytes, lemma_weigh_empty, lemma_weigh_prefix, text_bytes, text_bytes_of, weigh,
    WORD_BYTES,
};
use crate::table::{
    distinct_keys, entry_views, has_key, lookup, row_weight, with_row, without_row, Entry, Table,
};

verus! {

/// The id of the first approval on a token.
pub const FIRST_APPROVAL_ID: u64 = 1;

/// One approval as it is handed out: the delegate and the id under which the
/// delegate was approved.
#[derive(Clone, Debug, PartialEq, Eq)]
pub struct Approval {
    pub delegate: String,
    pub approval_id: u64,
}

impl View for Approval {
    type V = (Seq<char>, u64);

    open spec fn view(&self) -> (Seq<char>, u64) {
        (self.delegate@, self.approval_id)
    }
}

/// What a list of approvals holds.
pub open spec fn approval_views(approvals: Seq<Approval>) -> Seq<(Seq<char>, u64)> {
    Seq::new(approvals.len(), |i: int| approvals[i]@)
}

/// Accounted size of a list of approvals, unless it is beyond 64 bits.
pub fn approvals_bytes(approvals: &Vec<Approval>) -> (n: Option<u64>)
    ensures
        match n {
            Some(bytes) => bytes == grants_bytes(approval_views(approvals@)),
            None => grants_bytes(approval_views(approvals@)) > u64::MAX,
        },
{
    let ghost rows = approval_views(approvals@);
    let mut n: u64 = 0;
    let mut i: usize = 0;
    proof {
        lemma_weigh_empty(grant_weight());
    }
    while i < approvals.len()
        invariant
            i <= approvals@.len(),
            rows == approval_views(approvals@),
            n == grants_bytes(rows.take(i as int)),
        decreases approvals@.len() - i,
    {
        proof {
            lemma_weigh_prefix(rows, grant_weight(), i as int);
            lemma_weigh_prefix(rows, grant_weight(), i + 1);
        }
        let more: u128 = n as u128 + text_bytes_of(&approvals[i].delegate) + WORD_BYTES as u128;
        if more > u64::MAX as u128 {
            return None;
        }
        n = more as u64;
        i += 1;
    }
    assert(rows.take(rows.len() as int) =~= rows);
    Some(n)
}

/// The approvals on one token: the ids handed out so far lie below `next_id`,
/// and `grants` holds the approvals that stand, oldest first.
pub ghost struct ApprovalSetView {
    pub next_id: u64,
    pub grants: Seq<(Seq<char>, u64)>,
}

impl ApprovalSetView {
    /// No delegate is approved twice, and every id was drawn from the counter.
    pub open spec fn wf(self) -> bool {
        &&& self.next_id >= FIRST_APPROVAL_ID
        &&& distinct_keys(self.grants)
        &&& forall|i: int| 0 <= i < self.grants.len() ==> (#[trigger] self.grants[i]).1 < self.next_id
    }

    /// The set after `delegate` was approved under the next id.
    pub open spec fn approved(self, delegate: Seq<char>) -> ApprovalSetView {
        ApprovalSetView {
            next_id: (self.next_id + 1) as u64,
            grants: with_row(self.grants, delegate, self.next_id),
        }
    }

    /// The set without the approval of `delegate`.
    pub open spec fn revoked(self, delegate: Seq<char>) -> ApprovalSetView {
        ApprovalSetView {
            next_id: self.next_id,
            grants: without_row(self.grants, delegate),
        }
    }

    /// The set without any approval. The counter stays.
    pub open spec fn cleared(self) -> ApprovalSetView {
        ApprovalSetView { next_id: self.next_id, grants: Seq::empty() }
    }

    /// The set with `grants` in place of its approvals. The counter stays.
    pub open spec fn with_grants(self, grants: Seq<(Seq<char>, u64)>) -> ApprovalSetView {
        ApprovalSetView { next_id: self.next_id, grants }
    }

    /// Whether `delegate` is approved, under `approval_id` if one is given.
    pub open spec fn approves(self, delegate: Seq<char>, approval_id: Option<u64>) -> bool {
        match lookup(self.grants, delegate) {
            Some(id) => approval_id.is_none() || approval_id == Some(id),
            None => false,
        }
    }
}

/// Accounted size of the approval of `delegate`: its name and its id.
pub open spec fn approval_bytes(delegate: Seq<char>) -> nat {
    text_bytes(delegate) + WORD_BYTES as nat
}

/// Accounted size of one approval.
pub open spec fn grant_bytes(grant: (Seq<char>, u64)) -> nat {
    approval_bytes(grant.0)
}

/// The weight by which approvals are accounted.
pub open spec fn grant_weight() -> spec_fn((Seq<char>, u64)) -> nat {
    |grant: (Seq<char>, u64)| grant_bytes(grant)
}

/// Accounted size of a list of approvals.
pub open spec fn grants_bytes(grants: Seq<(Seq<char>, u64)>) -> nat {
    weigh(grants, grant_weight())
}

/// Accounted size of the approvals on one token, with the token's id and
/// counter.
pub open spec fn set_bytes(row: (Seq<char>, ApprovalSetView)) -> nat {
    text_bytes(row.0) + WORD_BYTES as nat + grants_bytes(row.1.grants)
}

/// The weight by which the approvals of a token are accounted.
pub open spec fn set_weight() -> spec_fn((Seq<char>, ApprovalSetView)) -> nat {
    |row: (Seq<char>, ApprovalSetView)| set_bytes(row)
}

/// Accounted size of a registry.
pub open spec fn registry_bytes(rows: Seq<(Seq<char>, ApprovalSetView)>) -> nat {
    weigh(rows, set_weight())
}

/// The approvals on one token.
pub struct ApprovalSet {
    next_id: u64,
    grants: Table<u64>,
}

impl View for ApprovalSet {
    type V = ApprovalSetView;

    closed spec fn view(&self) -> ApprovalSetView {
        ApprovalSetView { next_id: self.next_id, grants: self.grants@ }
    }
}

impl ApprovalSet {
    /// A set without approvals, whose counter stands at the first id.
    pub fn new() -> (set: Self)
        ensures
            set@ == (ApprovalSetView { next_id: FIRST_APPROVAL_ID, grants: Seq::empty() }),
            set@.wf(),
    {
        ApprovalSet { next_id: FIRST_APPROVAL_ID, grants: Table::new() }
    }

    /// The set whose counter stands at `next_id` and whose approvals are
    /// `grants`, unless such a set is not well-formed.
    pub fn from_parts(next_id: u64, grants: &Vec<Approval>) -> (set: Option<Self>)
        ensures
            match set {
                Some(s) => s@ == (ApprovalSetView { next_id, grants: approval_views(grants@) })
                    && s@.wf(),
                None => !(ApprovalSetView { next_id, grants: approval_views(grants@) }).wf(),
            },
    {
        let mut set = ApprovalSet { next_id, grants: Table::new() };
        if !set.admits(grants) {
            return None;
        }
        set.restore(grants);
        Some(set)
    }

    /// The id that the next approval gets.
    pub fn next_id(&self) -> (id: u64)
        ensures
            id == self@.next_id,
    {
        self.next_id
    }

    /// The number of approvals that stand.
    pub fn len(&self) -> (n: usize)
        ensures
            n == self@.grants.len(),
    {
        self.grants.len()
    }

    /// The id under which `delegate` is approved, if it is.
    pub fn id_of(&self, delegate: &String) -> (id: Option<u64>)
        requires
            self@.wf(),
        ensures
            id == lookup(self@.grants, delegate@),
    {
        match self.grants.find(delegate) {
            Some(i) => Some(*self.grants.value_at(i)),
            None => None,
        }
    }

    /// Approves `delegate` under the next id and hands that id back. Fails
    /// with `ResourceExhausted` exactly when the counter cannot grow.
    pub fn approve(&mut self, delegate: String) -> (id: Result<u64, LedgerError>)
        requires
            old(self)@.wf(),
        ensures
            final(self)@.wf(),
            match id {
                Ok(n) => old(self)@.next_id < u64::MAX && n == old(self)@.next_id && final(self)@
                    == old(self)@.approved(delegate@),
                Err(e) => e == LedgerError::ResourceExhausted && old(self)@.next_id == u64::MAX
                    && final(self)@ == old(self)@,
            },
    {
        if self.next_id == u64::MAX {
            return Err(LedgerError::ResourceExhausted);
        }
        let id = self.next_id;
        match self.grants.find(&delegate) {
            Some(i) => {
                self.grants.replace(i, id);
            },
            None => {
                self.grants.push(delegate, id);
            },
        }
        self.next_id = id + 1;
        Ok(id)
    }

    /// Takes the approval of `delegate` away and hands back its id. Fails
    /// with `ApprovalNotFound` exactly when `delegate` is not approved.
    pub fn revoke(&mut self, delegate: &String) -> (id: Result<u64, LedgerError>)
        requires
            old(self)@.wf(),
        ensures
            final(self)@.wf(),
            final(self)@ == old(self)@.revoked(delegate@),
            match id {
                Ok(n) => lookup(old(self)@.grants, delegate@) == Some(n),
                Err(e) => e == LedgerError::ApprovalNotFound && !has_key(
                    old(self)@.grants,
                    delegate@,
                ),
            },
    {
        match self.grants.find(delegate) {
            Some(i) => {
                let row = self.grants.remove(i);
                Ok(row.value)
            },
            None => Err(LedgerError::ApprovalNotFound),
        }
    }

    /// Takes all approvals away and hands them back, oldest first. The
    /// counter stays.
    pub fn clear(&mut self) -> (taken: Vec<Approval>)
        requires
            old(self)@.wf(),
        ensures
            final(self)@.wf(),
            final(self)@ == old(self)@.cleared(),
            approval_views(taken@) == old(self)@.grants,
    {
        let taken = self.list();
        self.grants = Table::new();
        taken
    }

    /// The approvals that stand, oldest first.
    pub fn list(&self) -> (grants: Vec<Approval>)
        ensures
            approval_views(grants@) == self@.grants,
    {
        let mut grants: Vec<Approval> = Vec::new();
        let mut i: usize = 0;
        while i < self.grants.len()
            invariant
                i <= self.grants@.len(),
                grants@.len() == i,
                approval_views(grants@) == self.grants@.take(i as int),
            decreases self.grants@.len() - i,
        {
            grants.push(
                Approval {
                    delegate: self.grants.key_at(i).clone(),
                    approval_id: *self.grants.value_at(i),
                },
            );
            i += 1;
        }
        grants
    }

    /// Whether `grants` could stand in this set: no delegate twice, every id
    /// below the counter.
    pub fn admits(&self, grants: &Vec<Approval>) -> (ok: bool)
        ensures
            ok == self@.with_grants(approval_views(grants@)).wf(),
    {
        if self.next_id < FIRST_APPROVAL_ID {
            return false;
        }
        let ghost rows = approval_views(grants@);
        let mut i: usize = 0;
        while i < grants.len()
            invariant
                i <= grants@.len(),
                rows == approval_views(grants@),
                forall|a: int| 0 <= a < i ==> (#[trigger] rows[a]).1 < self.next_id,
                forall|a: int, b: int|
                    0 <= a < i && 0 <= b < i && a != b ==> (#[trigger] rows[a]).0 != (
                    #[trigger] rows[b]).0,
            decreases grants@.len() - i,
        {
            if grants[i].approval_id >= self.next_id {
                assert(!(rows[i as int].1 < self.next_id));
                return false;
            }
            let mut j: usize = 0;
            while j < i
                invariant
                    j <= i < grants@.len(),
                    rows == approval_views(grants@),
                    forall|b: int| 0 <= b < j ==> (#[trigger] rows[b]).0 != rows[i as int].0,
                decreases i - j,
            {
                if grants[j].delegate == grants[i].delegate {
                    assert(rows[j as int].0 == rows[i as int].0);
                    return false;
                }
                j += 1;
            }
            i += 1;
        }
        true
    }

    /// Puts `grants` in place of the approvals that stand. The counter stays.
    pub fn restore(&mut self, grants: &Vec<Approval>)
        requires
            old(self)@.with_grants(approval_views(grants@)).wf(),
        ensures
            final(self)@ == old(self)@.with_grants(approval_views(grants@)),
            final(self)@.wf(),
    {
        let mut table: Table<u64> = Table::new();
        let mut i: usize = 0;
        let ghost rows = approval_views(grants@);
        while i < grants.len()
            invariant
                i <= grants@.len(),
                rows == approval_views(grants@),
                distinct_keys(rows),
                table@ == rows.take(i as int),
                table.wf(),
            decreases grants@.len() - i,
        {
            table.push(grants[i].delegate.clone(), grants[i].approval_id);
            i += 1;
        }
        assert(rows.take(rows.len() as int) =~= rows);
        self.grants = table;
    }

    /// Accounted size of the approvals that stand.
    pub fn grants_bytes(&self) -> (n: u64)
        requires
            grants_bytes(self@.grants) <= u64::MAX,
        ensures
            n == grants_bytes(self@.grants),
    {
        let mut n: u64 = 0;
        let mut i: usize = 0;
        proof {
            lemma_weigh_empty(grant_weight());
        }
        while i < self.grants.len()
            invariant
                i <= self.grants@.len(),
                grants_bytes(self.grants@) <= u64::MAX,
                n == grants_bytes(self.grants@.take(i as int)),
            decreases self.grants@.len() - i,
        {
            proof {
                lemma_weigh_prefix(self.grants@, grant_weight(), i as int);
                lemma_weigh_prefix(self.grants@, grant_weight(), i + 1);
            }
            let more: u128 = n as u128 + text_bytes_of(self.grants.key_at(i)) + WORD_BYTES as u128;
            n = more as u64;
            i += 1;
        }
        assert(self.grants@.take(self.grants@.len() as int) =~= self.grants@);
        n
    }
}

/// The approvals on one token as they are stored.
#[derive(Clone, Debug, PartialEq, Eq)]
pub struct ApprovalRow {
    pub token: String,
    /// The id that the next approval on the token gets.
    pub next_id: u64,
    /// The approvals that stand, oldest first.
    pub approvals: Vec<Approval>,
}

impl View for ApprovalRow {
    type V = (Seq<char>, ApprovalSetView);

    open spec fn view(&self) -> (Seq<char>, ApprovalSetView) {
        (
            self.token@,
            ApprovalSetView { next_id: self.next_id, grants: approval_views(self.approvals@) },
        )
    }
}

/// What a list of stored rows holds.
pub open spec fn row_views(rows: Seq<ApprovalRow>) -> Seq<(Seq<char>, ApprovalSetView)> {
    Seq::new(rows.len(), |i: int| rows[i]@)
}

/// The approvals on `token`: those of its row, or a fresh set where the
/// registry has no row for it.
pub open spec fn set_of(rows: Seq<(Seq<char>, ApprovalSetView)>, token: Seq<char>) -> ApprovalSetView {
    match lookup(rows, token) {
        Some(set) => set,
        None => ApprovalSetView { next_id: FIRST_APPROVAL_ID, grants: Seq::empty() },
    }
}

/// Each token has one row, and each row is a well-formed set.
pub open spec fn registry_wf(rows: Seq<(Seq<char>, ApprovalSetView)>) -> bool {
    &&& distinct_keys(rows)
    &&& forall|i: int| 0 <= i < rows.len() ==> (#[trigger] rows[i]).1.wf()
}

/// The set of any token in a well-formed registry is well-formed.
pub proof fn lemma_set_of_wf(rows: Seq<(Seq<char>, ApprovalSetView)>, token: Seq<char>)
    requires
        registry_wf(rows),
    ensures
        set_of(rows, token).wf(),
{}

/// Storing a well-formed set keeps the registry well-formed; so does taking a
/// row out.
pub proof fn lemma_registry_wf_kept(
    rows: Seq<(Seq<char>, ApprovalSetView)>,
    token: Seq<char>,
    set: ApprovalSetView,
)
    requires
        registry_wf(rows),
        set.wf(),
    ensures
        registry_wf(with_row(rows, token, set)),
        registry_wf(without_row(rows, token)),
{
    crate::table::lemma_with_row(rows, token, set, set_weight());
    crate::table::lemma_without_row(rows, token, set_weight());
}

/// The registry of approvals, one set for each token that was ever approved on.
pub struct ApprovalRegistry {
    sets: Table<ApprovalSet>,
}

impl View for ApprovalRegistry {
    type V = Seq<(Seq<char>, ApprovalSetView)>;

    closed spec fn view(&self) -> Seq<(Seq<char>, ApprovalSetView)> {
        self.sets@
    }
}

impl ApprovalRegistry {
    /// Each token has one row, and each row is a well-formed set.
    pub open spec fn wf(&self) -> bool {
        registry_wf(self@)
    }

    /// A registry without rows.
    pub fn new() -> (registry: Self)
        ensures
            registry@ == Seq::<(Seq<char>, ApprovalSetView)>::empty(),
            registry.wf(),
    {
        ApprovalRegistry { sets: Table::new() }
    }

    /// Whether the registry has a row for `token`.
    pub fn has_row(&self, token: &String) -> (yes: bool)
        ensures
            yes == has_key(self@, token@),
    {
        self.sets.find(token).is_some()
    }

    /// The id that the next approval on `token` gets.
    pub fn next_id(&self, token: &String) -> (id: u64)
        requires
            self.wf(),
        ensures
            id == set_of(self@, token@).next_id,
    {
        match self.sets.find(token) {
            Some(i) => self.sets.value_at(i).next_id(),
            None => FIRST_APPROVAL_ID,
        }
    }

    /// The id under which `delegate` is approved on `token`, if it is.
    pub fn id_of(&self, token: &String, delegate: &String) -> (id: Option<u64>)
        requires
            self.wf(),
        ensures
            id == lookup(set_of(self@, token@).grants, delegate@),
    {
        match self.sets.find(token) {
            Some(i) => {
                self.sets.value_at(i).id_of(delegate)
            },
            None => {
                None
            },
        }
    }

    /// Whether `delegate` is approved on `token`, under `approval_id` if one
    /// is given.
    pub fn is_approved(&self, token: &String, delegate: &String, approval_id: Option<u64>) -> (yes:
        bool)
        requires
            self.wf(),
        ensures
            yes == set_of(self@, token@).approves(delegate@, approval_id),
    {
        match self.id_of(token, delegate) {
            Some(id) => match approval_id {
                Some(given) => given == id,
                None => true,
            },
            None => false,
        }
    }

    /// The approvals that stand on `token`, oldest first.
    pub fn approvals(&self, token: &String) -> (grants: Vec<Approval>)
        requires
            self.wf(),
        ensures
            approval_views(grants@) == set_of(self@, token@).grants,
    {
        match self.sets.find(token) {
            Some(i) => self.sets.value_at(i).list(),
            None => {
                let grants: Vec<Approval> = Vec::new();
                grants
            },
        }
    }

    /// Approves `delegate` on `token` under the token's next id and hands that
    /// id back. Fails with `ResourceExhausted` exactly when the token's
    /// counter cannot grow; the registry is then unchanged.
    pub fn approve(&mut self, token: &String, delegate: String) -> (id: Result<u64, LedgerError>)
        requires
            old(self).wf(),
        ensures
            final(self).wf(),
            match id {
                Ok(n) => set_of(old(self)@, token@).next_id < u64::MAX && n == set_of(
                    old(self)@,
                    token@,
                ).next_id && final(self)@ == with_row(
                    old(self)@,
                    token@,
                    set_of(old(self)@, token@).approved(delegate@),
                ),
                Err(e) => e == LedgerError::ResourceExhausted && set_of(old(self)@, token@).next_id
                    == u64::MAX && final(self)@ == old(self)@,
            },
    {
        proof {
            lemma_set_of_wf(self@, token@);
        }
        match self.sets.find(token) {
            Some(i) => {
                if self.sets.value_at(i).next_id() == u64::MAX {
                    return Err(LedgerError::ResourceExhausted);
                }
                let set = self.sets.value_mut(i);
                let id = set.approve(delegate);
                proof {
                    lemma_registry_wf_kept(
                        old(self)@,
                        token@,
                        set_of(old(self)@, token@).approved(delegate@),
                    );
                }
                id
            },
            None => {
                let mut set = ApprovalSet::new();
                let id = set.approve(delegate);
                self.sets.push(token.clone(), set);
                proof {
                    lemma_registry_wf_kept(
                        old(self)@,
                        token@,
                        set_of(old(self)@, token@).approved(delegate@),
                    );
                }
                id
            },
        }
    }

    /// Takes the approval of `delegate` on `token` away and hands back its
    /// id. Fails with `ApprovalNotFound` exactly when `delegate` is not
    /// approved on `token`; the registry is then unchanged.
    pub fn revoke(&mut self, token: &String, delegate: &String) -> (id: Result<u64, LedgerError>)
        requires
            old(self).wf(),
        ensures
            final(self).wf(),
            match id {
                Ok(n) => lookup(set_of(old(self)@, token@).grants, delegate@) == Some(n)
                    && final(self)@ == with_row(
                    old(self)@,
                    token@,
                    set_of(old(self)@, token@).revoked(delegate@),
                ),
                Err(e) => e == LedgerError::ApprovalNotFound && !has_key(
                    set_of(old(self)@, token@).grants,
                    delegate@,
                ) && final(self)@ == old(self)@,
            },
    {
        proof {
            lemma_set_of_wf(self@, token@);
        }
        match self.sets.find(token) {
            Some(i) => {
                if self.sets.value_at(i).id_of(delegate).is_none() {
                    return Err(LedgerError::ApprovalNotFound);
                }
                let set = self.sets.value_mut(i);
                let id = set.revoke(delegate);
                proof {
                    lemma_registry_wf_kept(
                        old(self)@,
                        token@,
                        set_of(old(self)@, token@).revoked(delegate@),
                    );
                }
                id
            },
            None => {
                Err(LedgerError::ApprovalNotFound)
            },
        }
    }

    /// Takes all approvals on `token` away and hands them back, oldest first.
    /// The token's counter stays.
    pub fn revoke_all(&mut self, token: &String) -> (taken: Vec<Approval>)
        requires
            old(self).wf(),
        ensures
            final(self).wf(),
            approval_views(taken@) == set_of(old(self)@, token@).grants,
            final(self)@ == (if has_key(old(self)@, token@) {
                with_row(old(self)@, token@, set_of(old(self)@, token@).cleared())
            } else {
                old(self)@
            }),
    {
        proof {
            lemma_set_of_wf(self@, token@);
        }
        match self.sets.find(token) {
            Some(i) => {
                let set = self.sets.value_mut(i);
                let taken = set.clear();
                proof {
                    lemma_registry_wf_kept(
                        old(self)@,
                        token@,
                        set_of(old(self)@, token@).cleared(),
                    );
                }
                taken
            },
            None => {
                let taken: Vec<Approval> = Vec::new();
                taken
            },
        }
    }

    /// Whether `grants` could stand as the approvals on `token`: no delegate
    /// twice, every id below the token's counter.
    pub fn admits(&self, token: &String, grants: &Vec<Approval>) -> (ok: bool)
        requires
            self.wf(),
        ensures
            ok == set_of(self@, token@).with_grants(approval_views(grants@)).wf(),
    {
        match self.sets.find(token) {
            Some(i) => self.sets.value_at(i).admits(grants),
            None => {
                let fresh = ApprovalSet::new();
                fresh.admits(grants)
            },
        }
    }

    /// Puts `grants` in place of the approvals on `token`. The token's counter
    /// stays.
    pub fn restore(&mut self, token: &String, grants: &Vec<Approval>)
        requires
            old(self).wf(),
            set_of(old(self)@, token@).with_grants(approval_views(grants@)).wf(),
        ensures
            final(self).wf(),
            final(self)@ == with_row(
                old(self)@,
                token@,
                set_of(old(self)@, token@).with_grants(approval_views(grants@)),
            ),
    {
        match self.sets.find(token) {
            Some(i) => {
                let set = self.sets.value_mut(i);
                set.restore(grants);
            },
            None => {
                let mut set = ApprovalSet::new();
                set.restore(grants);
                self.sets.push(token.clone(), set);
            },
        }
        proof {
            lemma_registry_wf_kept(
                old(self)@,
                token@,
                set_of(old(self)@, token@).with_grants(approval_views(grants@)),
            );
        }
    }

    /// Takes the row of `token` out, counter and all.
    pub fn forget(&mut self, token: &String)
        requires
            old(self).wf(),
        ensures
            final(self).wf(),
            final(self)@ == without_row(old(self)@, token@),
    {
        proof {
            lemma_set_of_wf(self@, token@);
            lemma_registry_wf_kept(old(self)@, token@, set_of(old(self)@, token@));
        }
        self.sets.take(token);
    }

    /// The number of rows.
    pub fn len(&self) -> (n: usize)
        ensures
            n == self@.len(),
    {
        self.sets.len()
    }

    /// The token of row `i`.
    pub fn token_at(&self, i: usize) -> (token: &String)
        requires
            i < self@.len(),
        ensures
            token@ == self@[i as int].0,
    {
        self.sets.key_at(i)
    }

    /// The registry of `rows`, in their order, unless that registry is not
    /// well-formed.
    pub fn from_rows(rows: &Vec<ApprovalRow>) -> (registry: Option<Self>)
        ensures
            match registry {
                Some(r) => r@ == row_views(rows@) && r.wf(),
                None => !registry_wf(row_views(rows@)),
            },
    {
        let ghost views = row_views(rows@);
        let mut entries: Vec<Entry<ApprovalSet>> = Vec::new();
        let mut i: usize = 0;
        while i < rows.len()
            invariant
                i <= rows@.len(),
                views == row_views(rows@),
                entries@.len() == i,
                forall|k: int| 0 <= k < i ==> #[trigger] entry_views(entries@)[k] == views[k],
                forall|k: int| 0 <= k < i ==> (#[trigger] views[k]).1.wf(),
            decreases rows@.len() - i,
        {
            let ghost before = entries@;
            let set = match ApprovalSet::from_parts(rows[i].next_id, &rows[i].approvals) {
                Some(s) => s,
                None => {
                    assert(!views[i as int].1.wf());
                    return None;
                },
            };
            entries.push(Entry { key: rows[i].token.clone(), value: set });
            proof {
                assert forall|k: int| 0 <= k < i + 1 implies #[trigger] entry_views(entries@)[k]
                    == views[k] by {
                    if k < i {
                        assert(entry_views(before)[k] == views[k]);
                    }
                }
            }
            i += 1;
        }
        match Table::collect(entries) {
            Some(sets) => Some(ApprovalRegistry { sets }),
            None => None,
        }
    }

    /// The rows of the registry, in its order.
    pub fn to_rows(&self) -> (rows: Vec<ApprovalRow>)
        ensures
            row_views(rows@) == self@,
    {
        let mut rows: Vec<ApprovalRow> = Vec::new();
        let mut i: usize = 0;
        while i < self.sets.len()
            invariant
                i <= self@.len(),
                self@ == self.sets@,
                rows@.len() == i,
                forall|k: int| 0 <= k < i ==> #[trigger] row_views(rows@)[k] == self@[k],
            decreases self@.len() - i,
        {
            let ghost before = rows@;
            let set = self.sets.value_at(i);
            rows.push(
                ApprovalRow {
                    token: self.sets.key_at(i).clone(),
                    next_id: set.next_id(),
                    approvals: set.list(),
                },
            );
            proof {
                assert forall|k: int| 0 <= k < i + 1 implies #[trigger] row_views(rows@)[k]
                    == self@[k] by {
                    if k < i {
                        assert(row_views(before)[k] == self@[k]);
                    }
                }
            }
            i += 1;
        }
        rows
    }

    /// Accounted size of the registry, unless it is beyond 64 bits.
    pub fn bytes(&self) -> (n: Option<u64>)
        ensures
            match n {
                Some(bytes) => bytes == registry_bytes(self@),
                None => registry_bytes(self@) > u64::MAX,
            },
    {
        let mut n: u64 = 0;
        let mut i: usize = 0;
        proof {
            lemma_weigh_empty(set_weight());
        }
        while i < self.sets.len()
            invariant
                i <= self@.len(),
                self@ == self.sets@,
                n == registry_bytes(self@.take(i as int)),
            decreases self@.len() - i,
        {
            proof {
                lemma_weigh_prefix(self@, set_weight(), i as int);
                lemma_weigh_prefix(self@, set_weight(), i + 1);
            }
            let grants = self.sets.value_at(i).list();
            let held: u64 = match approvals_bytes(&grants) {
                Some(b) => b,
                None => {
                    return None;
                },
            };
            let row: u128 = text_bytes_of(self.sets.key_at(i)) + WORD_BYTES as u128 + held as u128;
            match add_bytes(n, row) {
                Some(sum) => {
                    n = sum;
                },
                None => {
                    return None;
                },
            }
            i += 1;
        }
        assert(self@.take(self@.len() as int) =~= self@);
        Some(n)
    }

    /// Accounted size of the row of `token`, nothing where there is none.
    pub fn row_bytes(&self, token: &String) -> (n: u64)
        requires
            self.wf(),
            registry_bytes(self@) <= u64::MAX,
        ensures
            n == row_weight(self@, token@, set_weight()),
    {
        match self.sets.find(token) {
            Some(i) => {
                proof {
                    crate::layout::lemma_weigh_bounds(self@, set_weight(), i as int);
                }
                let n: u128 = text_bytes_of(token) + WORD_BYTES as u128 + self.sets.value_at(
                    i,
                ).grants_bytes() as u128;
                n as u64
            },
            None => 0,
        }
    }

    /// Accounted size of the approvals that stand on `token`.
    pub fn grants_bytes(&self, token: &String) -> (n: u64)
        requires
            self.wf(),
            registry_bytes(self@) <= u64::MAX,
        ensures
            n == grants_bytes(set_of(self@, token@).grants),
    {
        match self.sets.find(token) {
            Some(i) => {
                proof {
                    crate::layout::lemma_weigh_bounds(self@, set_weight(), i as int);
                }
                self.sets.value_at(i).grants_bytes()
            },
            None => {
                proof {
                    lemma_weigh_empty(grant_weight());
                }
                0
            },
        }
    }
}

} // verus!
