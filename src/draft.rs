//! Drafts: grants prepared in groups, funded by one transfer per group, then
//! turned into lockups.

use crate::error::LockupError;
use crate::lockup::{LockupCreate, LockupCreateModel, lockup_of, new_lockup_ok};
use crate::schedule::total_of;
use crate::{AccountId, Balance};
use std::collections::HashSet;
use vstd::prelude::*;

verus! {

broadcast use vstd::std_specs::hash::group_hash_axioms;

pub type DraftGroupIndex = u32;

pub type DraftIndex = u32;

/// A grant that is prepared but not yet paid for.
#[derive(Debug)]
pub struct Draft {
    pub draft_group_id: DraftGroupIndex,
    pub lockup_create: LockupCreate,
}

pub struct DraftModel {
    pub draft_group_id: DraftGroupIndex,
    pub lockup_create: LockupCreateModel,
}

impl View for Draft {
    type V = DraftModel;

    open spec fn view(&self) -> DraftModel {
        DraftModel { draft_group_id: self.draft_group_id, lockup_create: self.lockup_create@ }
    }
}

impl Clone for Draft {
    fn clone(&self) -> (r: Draft)
        ensures
            r@ == self@,
    {
        Draft { draft_group_id: self.draft_group_id, lockup_create: self.lockup_create.clone() }
    }
}

/// The balance a draft grants.
pub open spec fn draft_total(d: DraftModel) -> int {
    total_of(d.lockup_create.schedule)
}

/// A draft that may be created: it grants a positive balance, and the
/// lockup it would become is valid whoever pays for it.
pub open spec fn draft_ok(d: DraftModel) -> bool {
    &&& d.lockup_create.schedule.len() > 0
    &&& draft_total(d) > 0
    &&& new_lockup_ok(lockup_of(d.lockup_create, d.lockup_create.account_id), draft_total(d))
}

impl Draft {
    /// The balance the draft grants.
    pub fn total_balance(&self) -> (r: Balance)
        requires
            self@.lockup_create.schedule.len() > 0,
        ensures
            r == draft_total(self@),
    {
        self.lockup_create.schedule.total_balance()
    }

    /// Accepts a draft that grants a positive balance through a valid lockup.
    pub fn assert_new_valid(&self) -> (r: Result<(), LockupError>)
        ensures
            r is Ok <==> draft_ok(self@),
            self@.lockup_create.schedule.len() > 0 && draft_total(self@) == 0 ==> r == Err::<
                (),
                LockupError,
            >(LockupError::ZeroTotalBalance),
    {
        if self.lockup_create.schedule.0.len() == 0 {
            return Err(LockupError::ScheduleInvalid);
        }
        let amount = self.total_balance();
        if amount == 0 {
            return Err(LockupError::ZeroTotalBalance);
        }
        // Validity does not depend on who pays: any account will do.
        let lockup = self.lockup_create.into_lockup(&self.lockup_create.account_id);
        lockup.assert_new_valid(amount)
    }
}

/// A funding unit: drafts that are paid for together.
#[derive(Debug)]
pub struct DraftGroup {
    /// The sum of the balances of the group's drafts.
    pub total_amount: Balance,
    /// Who paid for the group; present once it is funded.
    pub payer_id: Option<AccountId>,
    pub draft_indices: HashSet<DraftIndex>,
    pub discarded: bool,
}

pub struct DraftGroupModel {
    pub total_amount: Balance,
    pub payer_id: Option<Seq<char>>,
    pub draft_indices: Set<DraftIndex>,
    pub discarded: bool,
}

impl View for DraftGroup {
    type V = DraftGroupModel;

    open spec fn view(&self) -> DraftGroupModel {
        DraftGroupModel {
            total_amount: self.total_amount,
            payer_id: match self.payer_id {
                Some(p) => Some(p@),
                None => None,
            },
            draft_indices: self.draft_indices@,
            discarded: self.discarded,
        }
    }
}

impl DraftGroup {
    /// An empty group, neither funded nor discarded.
    pub fn new() -> (r: DraftGroup)
        ensures
            r@.total_amount == 0,
            r@.payer_id is None,
            r@.draft_indices == Set::<DraftIndex>::empty(),
            !r@.discarded,
    {
        DraftGroup { total_amount: 0, payer_id: None, draft_indices: HashSet::new(), discarded: false }
    }

    /// Drafts can be added while the group is neither discarded nor funded.
    pub fn assert_can_add_draft(&self) -> (r: Result<(), LockupError>)
        ensures
            self.discarded ==> r == Err::<(), LockupError>(LockupError::DraftGroupDiscarded),
            !self.discarded && self.payer_id is Some ==> r == Err::<(), LockupError>(
                LockupError::DraftGroupFunded,
            ),
            !self.discarded && self.payer_id is None ==> r is Ok,
    {
        if self.discarded {
            return Err(LockupError::DraftGroupDiscarded);
        }
        if self.payer_id.is_some() {
            return Err(LockupError::DraftGroupFunded);
        }
        Ok(())
    }

    /// Drafts can be converted once the group is funded, unless discarded.
    pub fn assert_can_convert_draft(&self) -> (r: Result<(), LockupError>)
        ensures
            self.discarded ==> r == Err::<(), LockupError>(LockupError::DraftGroupDiscarded),
            !self.discarded && self.payer_id is None ==> r == Err::<(), LockupError>(
                LockupError::DraftGroupNotFunded,
            ),
            !self.discarded && self.payer_id is Some ==> r is Ok,
    {
        if self.discarded {
            return Err(LockupError::DraftGroupDiscarded);
        }
        if self.payer_id.is_none() {
            return Err(LockupError::DraftGroupNotFunded);
        }
        Ok(())
    }

    /// A group can be funded once, unless discarded.
    pub fn assert_can_fund(&self) -> (r: Result<(), LockupError>)
        ensures
            self.discarded ==> r == Err::<(), LockupError>(LockupError::DraftGroupDiscarded),
            !self.discarded && self.payer_id is Some ==> r == Err::<(), LockupError>(
                LockupError::DraftGroupFunded,
            ),
            !self.discarded && self.payer_id is None ==> r is Ok,
    {
        if self.discarded {
            return Err(LockupError::DraftGroupDiscarded);
        }
        if self.payer_id.is_some() {
            return Err(LockupError::DraftGroupFunded);
        }
        Ok(())
    }

    /// Records `payer_id` as the group's payer.
    pub fn fund(&mut self, payer_id: &AccountId) -> (r: Result<(), LockupError>)
        ensures
            r is Ok <==> !old(self).discarded && old(self).payer_id is None,
            r is Ok ==> final(self)@ == (DraftGroupModel { payer_id: Some(payer_id@), ..old(self)@ }),
            r is Err ==> final(self)@ == old(self)@,
            old(self).discarded ==> r == Err::<(), LockupError>(LockupError::DraftGroupDiscarded),
            !old(self).discarded && old(self).payer_id is Some ==> r == Err::<(), LockupError>(
                LockupError::DraftGroupFunded,
            ),
    {
        if let Err(e) = self.assert_can_fund() {
            return Err(e);
        }
        self.payer_id = Some(payer_id.clone());
        Ok(())
    }

    /// A group can be discarded while it is neither discarded nor funded.
    pub fn assert_can_discard(&self) -> (r: Result<(), LockupError>)
        ensures
            self.discarded ==> r == Err::<(), LockupError>(LockupError::DraftGroupDiscarded),
            !self.discarded && self.payer_id is Some ==> r == Err::<(), LockupError>(
                LockupError::DraftGroupFunded,
            ),
            !self.discarded && self.payer_id is None ==> r is Ok,
    {
        if self.discarded {
            return Err(LockupError::DraftGroupDiscarded);
        }
        if self.payer_id.is_some() {
            return Err(LockupError::DraftGroupFunded);
        }
        Ok(())
    }

    /// Marks the group discarded.
    pub fn discard(&mut self) -> (r: Result<(), LockupError>)
        ensures
            r is Ok <==> !old(self).discarded && old(self).payer_id is None,
            r is Ok ==> final(self)@ == (DraftGroupModel { discarded: true, ..old(self)@ }),
            r is Err ==> final(self)@ == old(self)@,
            old(self).discarded ==> r == Err::<(), LockupError>(LockupError::DraftGroupDiscarded),
            !old(self).discarded && old(self).payer_id is Some ==> r == Err::<(), LockupError>(
                LockupError::DraftGroupFunded,
            ),
    {
        if let Err(e) = self.assert_can_discard() {
            return Err(e);
        }
        self.discarded = true;
        Ok(())
    }

    /// Drafts can be deleted from a discarded group that was never funded.
    pub fn assert_can_delete_draft(&self) -> (r: Result<(), LockupError>)
        ensures
            !self.discarded ==> r == Err::<(), LockupError>(LockupError::DraftGroupNotDiscarded),
            self.discarded && self.payer_id is Some ==> r == Err::<(), LockupError>(
                LockupError::DraftGroupFunded,
            ),
            self.discarded && self.payer_id is None ==> r is Ok,
    {
        if !self.discarded {
            return Err(LockupError::DraftGroupNotDiscarded);
        }
        if self.payer_id.is_some() {
            return Err(LockupError::DraftGroupFunded);
        }
        Ok(())
    }
}

} // verus!
