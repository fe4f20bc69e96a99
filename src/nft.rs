//! Token registry: one ownership token per commitment, locked while the
//! commitment is active and transferable once it has been settled.

use vstd::prelude::*;
use vstd::string::StrSliceExecFns;

use crate::pausable::Pausable;
use crate::types::{Address, SECONDS_PER_DAY};

verus! {

/// Longest commitment id the registry accepts, in characters.
pub const MAX_COMMITMENT_ID_LENGTH: usize = 256;

/// Largest percentage accepted for a loss limit or a penalty.
pub const MAX_PERCENT: u32 = 100;

/// Errors of the token registry. `code` gives the stable wire value.
#[derive(Clone, Copy, Debug, PartialEq, Eq, Structural)]
pub enum NftError {
    NotInitialized,
    AlreadyInitialized,
    TokenNotFound,
    Unauthorized,
    NotOwner,
    AlreadySettled,
    NotExpired,
    InvalidDuration,
    InvalidMaxLoss,
    InvalidCommitmentType,
    TransferToZeroAddress,
    NFTLocked,
    Paused,
    InvalidCommitmentId,
    AlreadyPaused,
    NotPaused,
}

impl NftError {
    pub open spec fn spec_code(self) -> u32 {
        match self {
            NftError::NotInitialized => 1,
            NftError::AlreadyInitialized => 2,
            NftError::TokenNotFound => 3,
            NftError::Unauthorized => 4,
            NftError::NotOwner => 5,
            NftError::AlreadySettled => 8,
            NftError::NotExpired => 9,
            NftError::InvalidDuration => 10,
            NftError::InvalidMaxLoss => 11,
            NftError::InvalidCommitmentType => 12,
            NftError::TransferToZeroAddress => 18,
            NftError::NFTLocked => 19,
            NftError::Paused => 20,
            NftError::InvalidCommitmentId => 21,
            NftError::AlreadyPaused => 22,
            NftError::NotPaused => 23,
        }
    }

    /// The stable numeric code of the error.
    pub fn code(&self) -> (r: u32)
        ensures
            r == self.spec_code(),
    {
        match self {
            NftError::NotInitialized => 1,
            NftError::AlreadyInitialized => 2,
            NftError::TokenNotFound => 3,
            NftError::Unauthorized => 4,
            NftError::NotOwner => 5,
            NftError::AlreadySettled => 8,
            NftError::NotExpired => 9,
            NftError::InvalidDuration => 10,
            NftError::InvalidMaxLoss => 11,
            NftError::InvalidCommitmentType => 12,
            NftError::TransferToZeroAddress => 18,
            NftError::NFTLocked => 19,
            NftError::Paused => 20,
            NftError::InvalidCommitmentId => 21,
            NftError::AlreadyPaused => 22,
            NftError::NotPaused => 23,
        }
    }
}

/// The three recognised commitment types (case-sensitive).
pub open spec fn is_valid_commitment_type(t: Seq<char>) -> bool {
    t == "safe"@ || t == "balanced"@ || t == "aggressive"@
}

/// Whether `t` names one of the recognised commitment types.
pub fn valid_commitment_type(t: &String) -> (r: bool)
    ensures
        r == is_valid_commitment_type(t@),
{
    let safe = "safe".to_owned();
    let balanced = "balanced".to_owned();
    let aggressive = "aggressive".to_owned();
    *t == safe || *t == balanced || *t == aggressive
}

/// A commitment id is non-empty and at most `MAX_COMMITMENT_ID_LENGTH` long.
pub open spec fn is_valid_commitment_id(id: Seq<char>) -> bool {
    1 <= id.len() <= MAX_COMMITMENT_ID_LENGTH
}

/// Whether `id` has an acceptable length.
pub fn valid_commitment_id(id: &String) -> (r: bool)
    ensures
        r == is_valid_commitment_id(id@),
{
    let n = id.as_str().unicode_len();
    1 <= n && n <= MAX_COMMITMENT_ID_LENGTH
}

/// Expiry time of a token minted at `now` for `duration_days`, as an integer.
pub open spec fn expiry_of(now: u64, duration_days: u32) -> int {
    now + duration_days * SECONDS_PER_DAY
}

/// `now + duration_days` days, or `None` where that does not fit in `u64`.
pub fn checked_expiry(now: u64, duration_days: u32) -> (r: Option<u64>)
    ensures
        r == (if expiry_of(now, duration_days) <= u64::MAX {
            Some(expiry_of(now, duration_days) as u64)
        } else {
            None::<u64>
        }),
{
    let span: u64 = (duration_days as u64) * SECONDS_PER_DAY;
    now.checked_add(span)
}

/// The terms a token records about its commitment.
#[derive(Debug)]
pub struct TokenMetadata {
    pub commitment_id: String,
    pub duration_days: u32,
    pub max_loss_percent: u32,
    pub commitment_type: String,
    pub initial_amount: i128,
    pub asset_address: Address,
    pub early_exit_penalty: u32,
    pub created_at: u64,
    pub expires_at: u64,
}

impl Clone for TokenMetadata {
    fn clone(&self) -> (r: Self)
        ensures
            r == *self,
    {
        TokenMetadata {
            commitment_id: self.commitment_id.clone(),
            duration_days: self.duration_days,
            max_loss_percent: self.max_loss_percent,
            commitment_type: self.commitment_type.clone(),
            initial_amount: self.initial_amount,
            asset_address: self.asset_address,
            early_exit_penalty: self.early_exit_penalty,
            created_at: self.created_at,
            expires_at: self.expires_at,
        }
    }
}

/// One ownership token.
#[derive(Debug)]
pub struct Nft {
    pub owner: Address,
    pub token_id: u32,
    pub metadata: TokenMetadata,
    /// True while the commitment is active: the token cannot move.
    pub is_active: bool,
}

impl Clone for Nft {
    fn clone(&self) -> (r: Self)
        ensures
            r == *self,
    {
        Nft {
            owner: self.owner,
            token_id: self.token_id,
            metadata: self.metadata.clone(),
            is_active: self.is_active,
        }
    }
}

/// What the registry reports of its state changes.
#[derive(Debug)]
pub enum NftEvent {
    Mint { token_id: u32, owner: Address, commitment_id: String, timestamp: u64 },
    Transfer { from: Address, to: Address, token_id: u32, timestamp: u64 },
    Settle { token_id: u32, timestamp: u64 },
    Pause,
    Unpause,
}

/// Number of tokens in `tokens` held by `a`.
pub open spec fn count_owned(tokens: Seq<Nft>, a: Address) -> nat
    decreases tokens.len(),
{
    if tokens.len() == 0 {
        0
    } else {
        count_owned(tokens.drop_last(), a) + if tokens.last().owner == a {
            1nat
        } else {
            0nat
        }
    }
}

/// The tokens of `tokens` held by `a`, in id order.
pub open spec fn owned_by(tokens: Seq<Nft>, a: Address) -> Seq<Nft>
    decreases tokens.len(),
{
    if tokens.len() == 0 {
        Seq::empty()
    } else if tokens.last().owner == a {
        owned_by(tokens.drop_last(), a).push(tokens.last())
    } else {
        owned_by(tokens.drop_last(), a)
    }
}

/// Sum of the balances of the addresses in `addrs`.
pub open spec fn sum_of_balances(tokens: Seq<Nft>, addrs: Seq<Address>) -> nat
    decreases addrs.len(),
{
    if addrs.len() == 0 {
        0
    } else {
        sum_of_balances(tokens, addrs.drop_last()) + count_owned(tokens, addrs.last())
    }
}


/// Tokens counted for `a` after token `i` of `tokens` changes to `t`.
pub proof fn lemma_count_owned_update(tokens: Seq<Nft>, i: int, t: Nft, a: Address)
    requires
        0 <= i < tokens.len(),
    ensures
        count_owned(tokens.update(i, t), a) + (if tokens[i].owner == a {
            1int
        } else {
            0int
        }) == count_owned(tokens, a) + (if t.owner == a {
            1int
        } else {
            0int
        }),
    decreases tokens.len(),
{
    let u = tokens.update(i, t);
    if i == tokens.len() - 1 {
        assert(u.drop_last() =~= tokens.drop_last());
    } else {
        assert(u.drop_last() =~= tokens.drop_last().update(i, t));
        lemma_count_owned_update(tokens.drop_last(), i, t, a);
    }
}

/// Number of positions of `addrs` that hold `x`.
pub open spec fn occurrences(addrs: Seq<Address>, x: Address) -> nat
    decreases addrs.len(),
{
    if addrs.len() == 0 {
        0
    } else {
        occurrences(addrs.drop_last(), x) + if addrs.last() == x {
            1nat
        } else {
            0nat
        }
    }
}

proof fn lemma_occurrences_once(addrs: Seq<Address>, x: Address)
    requires
        addrs.no_duplicates(),
    ensures
        occurrences(addrs, x) == (if addrs.contains(x) {
            1nat
        } else {
            0nat
        }),
    decreases addrs.len(),
{
    if addrs.len() > 0 {
        let p = addrs.drop_last();
        assert(p.no_duplicates());
        lemma_occurrences_once(p, x);
        if addrs.last() == x {
            assert(!p.contains(x)) by {
                if p.contains(x) {
                    let j = choose|j: int| 0 <= j < p.len() && p[j] == x;
                    assert(addrs[j] == addrs[addrs.len() - 1]);
                }
            }
        } else {
            if addrs.contains(x) {
                let j = choose|j: int| 0 <= j < addrs.len() && addrs[j] == x;
                assert(p[j] == x);
            }
            if p.contains(x) {
                let j = choose|j: int| 0 <= j < p.len() && p[j] == x;
                assert(addrs[j] == x);
            }
        }
    }
}

proof fn lemma_sum_of_balances_push(tokens: Seq<Nft>, t: Nft, addrs: Seq<Address>)
    ensures
        sum_of_balances(tokens.push(t), addrs) == sum_of_balances(tokens, addrs) + occurrences(
            addrs,
            t.owner,
        ),
    decreases addrs.len(),
{
    assert(tokens.push(t).drop_last() =~= tokens);
    if addrs.len() > 0 {
        lemma_sum_of_balances_push(tokens, t, addrs.drop_last());
    }
}

proof fn lemma_sum_of_balances_all(tokens: Seq<Nft>, addrs: Seq<Address>)
    requires
        addrs.no_duplicates(),
        forall|i: int| 0 <= i < tokens.len() ==> addrs.contains(#[trigger] tokens[i].owner),
    ensures
        sum_of_balances(tokens, addrs) == tokens.len(),
    decreases tokens.len(),
{
    if tokens.len() == 0 {
        assert(tokens =~= Seq::<Nft>::empty());
        lemma_sum_of_balances_empty(addrs);
    } else {
        let p = tokens.drop_last();
        assert forall|i: int| 0 <= i < p.len() implies addrs.contains(#[trigger] p[i].owner) by {
            assert(p[i] == tokens[i]);
        }
        lemma_sum_of_balances_all(p, addrs);
        assert(p.push(tokens.last()) =~= tokens);
        lemma_sum_of_balances_push(p, tokens.last(), addrs);
        assert(addrs.contains(tokens[tokens.len() - 1].owner));
        lemma_occurrences_once(addrs, tokens.last().owner);
    }
}

proof fn lemma_sum_of_balances_empty(addrs: Seq<Address>)
    ensures
        sum_of_balances(Seq::<Nft>::empty(), addrs) == 0,
    decreases addrs.len(),
{
    if addrs.len() > 0 {
        lemma_sum_of_balances_empty(addrs.drop_last());
    }
}

/// Supply conservation: the balances of any list of distinct addresses that
/// includes every holder add up to the total supply.
pub proof fn lemma_balances_sum_to_supply(reg: &CommitmentNftContract, addrs: Seq<Address>)
    requires
        reg.wf(),
        addrs.no_duplicates(),
        forall|t: u32| #[trigger] reg.has_token(t) ==> addrs.contains(reg.token(t).owner),
    ensures
        sum_of_balances(reg.tokens@, addrs) == reg.spec_total_supply(),
{
    assert forall|i: int| 0 <= i < reg.tokens@.len() implies addrs.contains(
        #[trigger] reg.tokens@[i].owner,
    ) by {
        assert(reg.has_token(i as u32));
    }
    lemma_sum_of_balances_all(reg.tokens@, addrs);
}

/// The token registry.
pub struct CommitmentNftContract {
    pub admin: Option<Address>,
    /// The only caller allowed to mint and settle.
    pub core_contract: Option<Address>,
    pub pausable: Pausable,
    /// Token `i` is stored at index `i`.
    pub tokens: Vec<Nft>,
    pub events: Vec<NftEvent>,
}

impl CommitmentNftContract {
    /// Ids are dense and every token id fits the `u32` id space.
    pub open spec fn wf(&self) -> bool {
        &&& self.tokens@.len() <= u32::MAX
        &&& forall|i: int| 0 <= i < self.tokens@.len() ==> #[trigger] self.tokens@[i].token_id == i
        &&& self.admin.is_none() ==> self.core_contract.is_none() && self.tokens@.len() == 0
    }

    pub open spec fn spec_total_supply(&self) -> nat {
        self.tokens@.len()
    }

    pub open spec fn spec_balance_of(&self, a: Address) -> nat {
        count_owned(self.tokens@, a)
    }

    pub open spec fn has_token(&self, token_id: u32) -> bool {
        token_id < self.tokens@.len()
    }

    pub open spec fn token(&self, token_id: u32) -> Nft {
        self.tokens@[token_id as int]
    }

    /// The error `mint` returns, or `None` where it succeeds.
    pub open spec fn mint_error(
        &self,
        caller: Address,
        commitment_id: Seq<char>,
        duration_days: u32,
        max_loss_percent: u32,
        commitment_type: Seq<char>,
        now: u64,
    ) -> Option<NftError> {
        if self.admin.is_none() {
            Some(NftError::NotInitialized)
        } else if self.pausable.paused {
            Some(NftError::Paused)
        } else if self.core_contract != Some(caller) {
            Some(NftError::Unauthorized)
        } else if !is_valid_commitment_id(commitment_id) {
            Some(NftError::InvalidCommitmentId)
        } else if duration_days == 0 {
            Some(NftError::InvalidDuration)
        } else if max_loss_percent > MAX_PERCENT {
            Some(NftError::InvalidMaxLoss)
        } else if !is_valid_commitment_type(commitment_type) {
            Some(NftError::InvalidCommitmentType)
        } else if expiry_of(now, duration_days) > u64::MAX {
            Some(NftError::InvalidDuration)
        } else {
            None
        }
    }

    /// The error `transfer` returns, or `None` where it succeeds.
    pub open spec fn transfer_error(&self, from: Address, to: Address, token_id: u32) -> Option<
        NftError,
    > {
        if self.admin.is_none() {
            Some(NftError::NotInitialized)
        } else if self.pausable.paused {
            Some(NftError::Paused)
        } else if !self.has_token(token_id) {
            Some(NftError::TokenNotFound)
        } else if self.token(token_id).owner != from {
            Some(NftError::NotOwner)
        } else if from == to {
            Some(NftError::TransferToZeroAddress)
        } else if self.token(token_id).is_active {
            Some(NftError::NFTLocked)
        } else {
            None
        }
    }

    /// The error `settle` returns, or `None` where it succeeds.
    pub open spec fn settle_error(&self, caller: Address, token_id: u32, now: u64) -> Option<
        NftError,
    > {
        if self.admin.is_none() {
            Some(NftError::NotInitialized)
        } else if self.pausable.paused {
            Some(NftError::Paused)
        } else if self.core_contract != Some(caller) {
            Some(NftError::Unauthorized)
        } else if !self.has_token(token_id) {
            Some(NftError::TokenNotFound)
        } else if !self.token(token_id).is_active {
            Some(NftError::AlreadySettled)
        } else if now < self.token(token_id).metadata.expires_at {
            Some(NftError::NotExpired)
        } else {
            None
        }
    }

    /// The whole effect of `settle`: its result and the state it leaves.
    pub open spec fn settle_post(
        pre: Self,
        caller: Address,
        token_id: u32,
        now: u64,
        r: Result<(), NftError>,
        post: Self,
    ) -> bool {
        match pre.settle_error(caller, token_id, now) {
            Some(e) => r == Err::<(), NftError>(e) && post == pre,
            None => r is Ok && Self::released(pre, token_id, now, post),
        }
    }

    /// The error `mint` would return for these arguments, or `None`.
    pub fn mint_check(
        &self,
        caller: Address,
        commitment_id: &String,
        duration_days: u32,
        max_loss_percent: u32,
        commitment_type: &String,
        now: u64,
    ) -> (r: Option<NftError>)
        ensures
            r == self.mint_error(
                caller,
                commitment_id@,
                duration_days,
                max_loss_percent,
                commitment_type@,
                now,
            ),
    {
        if self.admin.is_none() {
            return Some(NftError::NotInitialized);
        }
        if self.pausable.is_paused() {
            return Some(NftError::Paused);
        }
        if self.core_contract != Some(caller) {
            return Some(NftError::Unauthorized);
        }
        if !valid_commitment_id(commitment_id) {
            return Some(NftError::InvalidCommitmentId);
        }
        if duration_days == 0 {
            return Some(NftError::InvalidDuration);
        }
        if max_loss_percent > MAX_PERCENT {
            return Some(NftError::InvalidMaxLoss);
        }
        if !valid_commitment_type(commitment_type) {
            return Some(NftError::InvalidCommitmentType);
        }
        if checked_expiry(now, duration_days).is_none() {
            return Some(NftError::InvalidDuration);
        }
        None
    }

    /// The error `unlock` returns, or `None` where it succeeds.
    pub open spec fn release_error(&self, caller: Address, token_id: u32) -> Option<NftError> {
        if self.admin.is_none() {
            Some(NftError::NotInitialized)
        } else if self.pausable.paused {
            Some(NftError::Paused)
        } else if self.core_contract != Some(caller) {
            Some(NftError::Unauthorized)
        } else if !self.has_token(token_id) {
            Some(NftError::TokenNotFound)
        } else if !self.token(token_id).is_active {
            Some(NftError::AlreadySettled)
        } else {
            None
        }
    }

    /// `post` is `pre` with token `token_id` unlocked and a `Settle` event added.
    pub open spec fn released(pre: Self, token_id: u32, now: u64, post: Self) -> bool {
        &&& post.admin == pre.admin
        &&& post.core_contract == pre.core_contract
        &&& post.pausable == pre.pausable
        &&& post.tokens@.len() == pre.tokens@.len()
        &&& forall|i: int|
            0 <= i < pre.tokens@.len() && i != token_id ==> #[trigger] post.tokens@[i]
                == pre.tokens@[i]
        &&& post.tokens@[token_id as int].owner == pre.tokens@[token_id as int].owner
        &&& post.tokens@[token_id as int].token_id == pre.tokens@[token_id as int].token_id
        &&& post.tokens@[token_id as int].metadata == pre.tokens@[token_id as int].metadata
        &&& !post.tokens@[token_id as int].is_active
        &&& post.events@.len() == pre.events@.len() + 1
        &&& post.events@.last() == (NftEvent::Settle { token_id, timestamp: now })
        &&& post.events@.drop_last() == pre.events@
    }

    /// The error `settle` would return, or `None`.
    pub fn settle_check(&self, caller: Address, token_id: u32, now: u64) -> (r: Option<NftError>)
        ensures
            r == self.settle_error(caller, token_id, now),
    {
        match self.release_check(caller, token_id) {
            Some(e) => Some(e),
            None => {
                if now < self.tokens[token_id as usize].metadata.expires_at {
                    Some(NftError::NotExpired)
                } else {
                    None
                }
            },
        }
    }

    /// The error `unlock` would return, or `None`.
    pub fn release_check(&self, caller: Address, token_id: u32) -> (r: Option<NftError>)
        ensures
            r == self.release_error(caller, token_id),
    {
        if self.admin.is_none() {
            return Some(NftError::NotInitialized);
        }
        if self.pausable.is_paused() {
            return Some(NftError::Paused);
        }
        if self.core_contract != Some(caller) {
            return Some(NftError::Unauthorized);
        }
        if token_id as usize >= self.tokens.len() {
            return Some(NftError::TokenNotFound);
        }
        if !self.tokens[token_id as usize].is_active {
            return Some(NftError::AlreadySettled);
        }
        None
    }

    /// Unlocks a token before its expiry, for a commitment that ended early
    /// (exited or violated). Only the core contract may call it.
    pub fn unlock(&mut self, caller: Address, token_id: u32, now: u64) -> (r: Result<(), NftError>)
        requires
            old(self).wf(),
        ensures
            final(self).wf(),
            final(self).spec_total_supply() >= old(self).spec_total_supply(),
            match old(self).release_error(caller, token_id) {
                Some(e) => r == Err::<(), NftError>(e) && *final(self) == *old(self),
                None => r is Ok && Self::released(*old(self), token_id, now, *final(self)),
            },
    {
        match self.release_check(caller, token_id) {
            Some(e) => {
                return Err(e);
            },
            None => {},
        }
        self.deactivate(token_id, now);
        Ok(())
    }

    fn deactivate(&mut self, token_id: u32, now: u64)
        requires
            old(self).wf(),
            old(self).has_token(token_id),
        ensures
            final(self).wf(),
            Self::released(*old(self), token_id, now, *final(self)),
    {
        let i = token_id as usize;
        let old_token = self.tokens[i].clone();
        let unlocked = Nft {
            owner: old_token.owner,
            token_id: old_token.token_id,
            metadata: old_token.metadata,
            is_active: false,
        };
        self.tokens.set(i, unlocked);
        self.events.push(NftEvent::Settle { token_id, timestamp: now });
        proof {
            assert(self.events@.drop_last() =~= old(self).events@);
        }
    }

    /// An empty, uninitialised registry.
    pub fn new() -> (r: Self)
        ensures
            r.wf(),
            r.admin.is_none(),
            r.core_contract.is_none(),
            !r.pausable.paused,
            r.tokens@.len() == 0,
            r.events@.len() == 0,
    {
        CommitmentNftContract {
            admin: None,
            core_contract: None,
            pausable: Pausable::new(),
            tokens: Vec::new(),
            events: Vec::new(),
        }
    }

    /// Records `admin`, who is also the initial core contract. Once only.
    pub fn initialize(&mut self, admin: Address) -> (r: Result<(), NftError>)
        requires
            old(self).wf(),
        ensures
            final(self).wf(),
            final(self).spec_total_supply() >= old(self).spec_total_supply(),
            old(self).admin.is_some() ==> r == Err::<(), NftError>(NftError::AlreadyInitialized)
                && *final(self) == *old(self),
            old(self).admin.is_none() ==> r is Ok && final(self).admin == Some(admin)
                && final(self).core_contract == Some(admin) && final(self).tokens
                == old(self).tokens && final(self).pausable == old(self).pausable
                && final(self).events == old(self).events,
    {
        if self.admin.is_some() {
            return Err(NftError::AlreadyInitialized);
        }
        self.admin = Some(admin);
        self.core_contract = Some(admin);
        Ok(())
    }

    /// The admin recorded at initialisation.
    pub fn get_admin(&self) -> (r: Result<Address, NftError>)
        ensures
            r == match self.admin {
                Some(a) => Ok::<Address, NftError>(a),
                None => Err(NftError::NotInitialized),
            },
    {
        match self.admin {
            Some(a) => Ok(a),
            None => Err(NftError::NotInitialized),
        }
    }

    /// The caller allowed to mint and settle.
    pub fn get_core_contract(&self) -> (r: Result<Address, NftError>)
        ensures
            r == match self.core_contract {
                Some(a) => Ok::<Address, NftError>(a),
                None => Err(NftError::NotInitialized),
            },
    {
        match self.core_contract {
            Some(a) => Ok(a),
            None => Err(NftError::NotInitialized),
        }
    }

    /// Admin-only: designates the caller allowed to mint and settle.
    pub fn set_core_contract(&mut self, caller: Address, core: Address) -> (r: Result<
        (),
        NftError,
    >)
        requires
            old(self).wf(),
        ensures
            final(self).wf(),
            final(self).spec_total_supply() >= old(self).spec_total_supply(),
            old(self).admin.is_none() ==> r == Err::<(), NftError>(NftError::NotInitialized),
            old(self).admin.is_some() && old(self).admin != Some(caller) ==> r == Err::<
                (),
                NftError,
            >(NftError::Unauthorized),
            r is Err ==> *final(self) == *old(self),
            old(self).admin == Some(caller) ==> r is Ok && final(self).core_contract == Some(core)
                && final(self).admin == old(self).admin && final(self).tokens == old(self).tokens
                && final(self).pausable == old(self).pausable && final(self).events
                == old(self).events,
    {
        match self.admin {
            None => Err(NftError::NotInitialized),
            Some(a) => {
                if a != caller {
                    return Err(NftError::Unauthorized);
                }
                self.core_contract = Some(core);
                Ok(())
            },
        }
    }
}


impl CommitmentNftContract {
    /// The token a successful `mint` appends.
    pub open spec fn is_minted_token(
        t: Nft,
        token_id: u32,
        owner: Address,
        commitment_id: String,
        duration_days: u32,
        max_loss_percent: u32,
        commitment_type: String,
        initial_amount: i128,
        asset_address: Address,
        early_exit_penalty: u32,
        now: u64,
    ) -> bool {
        &&& t.owner == owner
        &&& t.token_id == token_id
        &&& t.is_active
        &&& t.metadata.commitment_id == commitment_id
        &&& t.metadata.duration_days == duration_days
        &&& t.metadata.max_loss_percent == max_loss_percent
        &&& t.metadata.commitment_type == commitment_type
        &&& t.metadata.initial_amount == initial_amount
        &&& t.metadata.asset_address == asset_address
        &&& t.metadata.early_exit_penalty == early_exit_penalty
        &&& t.metadata.created_at == now
        &&& t.metadata.expires_at == expiry_of(now, duration_days)
    }

    /// The whole effect of `mint`: its result and the state it leaves.
    pub open spec fn mint_post(
        pre: Self,
        caller: Address,
        owner: Address,
        commitment_id: String,
        duration_days: u32,
        max_loss_percent: u32,
        commitment_type: String,
        initial_amount: i128,
        asset_address: Address,
        early_exit_penalty: u32,
        now: u64,
        r: Result<u32, NftError>,
        post: Self,
    ) -> bool {
        match pre.mint_error(
            caller,
            commitment_id@,
            duration_days,
            max_loss_percent,
            commitment_type@,
            now,
        ) {
            Some(e) => r == Err::<u32, NftError>(e) && post == pre,
            None => {
                let id = pre.tokens@.len() as u32;
                &&& r == Ok::<u32, NftError>(id)
                &&& post.admin == pre.admin
                &&& post.core_contract == pre.core_contract
                &&& post.pausable == pre.pausable
                &&& post.tokens@.len() == pre.tokens@.len() + 1
                &&& post.tokens@.drop_last() == pre.tokens@
                &&& Self::is_minted_token(
                    post.tokens@.last(),
                    id,
                    owner,
                    commitment_id,
                    duration_days,
                    max_loss_percent,
                    commitment_type,
                    initial_amount,
                    asset_address,
                    early_exit_penalty,
                    now,
                )
                &&& post.events@.len() == pre.events@.len() + 1
                &&& post.events@.drop_last() == pre.events@
                &&& post.events@.last() matches NftEvent::Mint {
                    token_id: tid,
                    owner: o,
                    commitment_id: c,
                    timestamp: ts,
                } && tid == id && o == owner && c@ == commitment_id@ && ts == now
            },
        }
    }

    /// Mints a locked token for a new commitment. Only the core contract may
    /// call it; the new id is the previous total supply.
    pub fn mint(
        &mut self,
        caller: Address,
        owner: Address,
        commitment_id: String,
        duration_days: u32,
        max_loss_percent: u32,
        commitment_type: String,
        initial_amount: i128,
        asset_address: Address,
        early_exit_penalty: u32,
        now: u64,
    ) -> (r: Result<u32, NftError>)
        requires
            old(self).wf(),
            old(self).tokens@.len() < u32::MAX,
        ensures
            final(self).wf(),
            final(self).spec_total_supply() >= old(self).spec_total_supply(),
            Self::mint_post(
                *old(self),
                caller,
                owner,
                commitment_id,
                duration_days,
                max_loss_percent,
                commitment_type,
                initial_amount,
                asset_address,
                early_exit_penalty,
                now,
                r,
                *final(self),
            ),
    {
        match self.mint_check(
            caller,
            &commitment_id,
            duration_days,
            max_loss_percent,
            &commitment_type,
            now,
        ) {
            Some(e) => {
                return Err(e);
            },
            None => {},
        }
        let expires_at = match checked_expiry(now, duration_days) {
            Some(t) => t,
            None => {
                return Err(NftError::InvalidDuration);
            },
        };
        let token_id = self.tokens.len() as u32;
        let event_id = commitment_id.clone();
        let nft = Nft {
            owner,
            token_id,
            metadata: TokenMetadata {
                commitment_id,
                duration_days,
                max_loss_percent,
                commitment_type,
                initial_amount,
                asset_address,
                early_exit_penalty,
                created_at: now,
                expires_at,
            },
            is_active: true,
        };
        self.tokens.push(nft);
        self.events.push(
            NftEvent::Mint { token_id, owner, commitment_id: event_id, timestamp: now },
        );
        proof {
            assert(self.tokens@.drop_last() =~= old(self).tokens@);
            assert(self.events@.drop_last() =~= old(self).events@);
        }
        Ok(token_id)
    }

    /// Moves an unlocked token from its owner `from` to `to`.
    pub fn transfer(&mut self, from: Address, to: Address, token_id: u32, now: u64) -> (r: Result<
        (),
        NftError,
    >)
        requires
            old(self).wf(),
        ensures
            final(self).wf(),
            final(self).spec_total_supply() >= old(self).spec_total_supply(),
            old(self).has_token(token_id) && old(self).token(token_id).is_active ==> r is Err,
            match old(self).transfer_error(from, to, token_id) {
                Some(e) => r == Err::<(), NftError>(e) && *final(self) == *old(self),
                None => {
                    &&& r is Ok
                    &&& final(self).admin == old(self).admin
                    &&& final(self).core_contract == old(self).core_contract
                    &&& final(self).pausable == old(self).pausable
                    &&& final(self).tokens@.len() == old(self).tokens@.len()
                    &&& forall|i: int|
                        0 <= i < old(self).tokens@.len() && i != token_id
                            ==> #[trigger] final(self).tokens@[i] == old(self).tokens@[i]
                    &&& final(self).token(token_id).owner == to
                    &&& final(self).token(token_id).token_id == token_id
                    &&& final(self).token(token_id).metadata == old(self).token(token_id).metadata
                    &&& final(self).token(token_id).is_active == old(self).token(
                        token_id,
                    ).is_active
                    &&& final(self).spec_balance_of(from) + 1 == old(self).spec_balance_of(from)
                    &&& final(self).spec_balance_of(to) == old(self).spec_balance_of(to) + 1
                    &&& forall|a: Address|
                        a != from && a != to ==> #[trigger] final(self).spec_balance_of(a)
                            == old(self).spec_balance_of(a)
                    &&& final(self).events@.len() == old(self).events@.len() + 1
                    &&& final(self).events@.drop_last() == old(self).events@
                    &&& final(self).events@.last() == (NftEvent::Transfer {
                        from,
                        to,
                        token_id,
                        timestamp: now,
                    })
                },
            },
    {
        if self.admin.is_none() {
            return Err(NftError::NotInitialized);
        }
        if self.pausable.is_paused() {
            return Err(NftError::Paused);
        }
        if token_id as usize >= self.tokens.len() {
            return Err(NftError::TokenNotFound);
        }
        let i = token_id as usize;
        if self.tokens[i].owner != from {
            return Err(NftError::NotOwner);
        }
        if from == to {
            return Err(NftError::TransferToZeroAddress);
        }
        if self.tokens[i].is_active {
            return Err(NftError::NFTLocked);
        }
        let ghost pre = self.tokens@;
        let old_token = self.tokens[i].clone();
        let moved = Nft {
            owner: to,
            token_id: old_token.token_id,
            metadata: old_token.metadata,
            is_active: old_token.is_active,
        };
        self.tokens.set(i, moved);
        self.events.push(NftEvent::Transfer { from, to, token_id, timestamp: now });
        proof {
            assert(self.tokens@ == pre.update(i as int, moved));
            assert forall|a: Address| true implies count_owned(self.tokens@, a) + (if pre[i as int].owner == a {
                1int
            } else {
                0int
            }) == count_owned(pre, a) + (if to == a {
                1int
            } else {
                0int
            }) by {
                lemma_count_owned_update(pre, i as int, moved, a);
            }
            assert(self.events@.drop_last() =~= old(self).events@);
        }
        Ok(())
    }

    /// Unlocks an expired token. Only the core contract may call it.
    pub fn settle(&mut self, caller: Address, token_id: u32, now: u64) -> (r: Result<(), NftError>)
        requires
            old(self).wf(),
        ensures
            final(self).wf(),
            final(self).spec_total_supply() >= old(self).spec_total_supply(),
            Self::settle_post(*old(self), caller, token_id, now, r, *final(self)),
    {
        match self.settle_check(caller, token_id, now) {
            Some(e) => {
                return Err(e);
            },
            None => {},
        }
        self.deactivate(token_id, now);
        Ok(())
    }
}

/// A failed second settle: once `settle` has succeeded, settling the same
/// token again fails with `AlreadySettled` and leaves every part of the
/// registry (tokens, supply, balances, events) as the first settle left it.
pub proof fn lemma_double_settle(
    s0: CommitmentNftContract,
    s1: CommitmentNftContract,
    s2: CommitmentNftContract,
    caller: Address,
    token_id: u32,
    now1: u64,
    now2: u64,
    r1: Result<(), NftError>,
    r2: Result<(), NftError>,
)
    requires
        CommitmentNftContract::settle_post(s0, caller, token_id, now1, r1, s1),
        r1 is Ok,
        CommitmentNftContract::settle_post(s1, caller, token_id, now2, r2, s2),
    ensures
        r2 == Err::<(), NftError>(NftError::AlreadySettled),
        s2 == s1,
{
}

/// What `get_metadata` returns right after a successful `mint` holds the
/// values that were minted.
pub proof fn lemma_mint_then_metadata(
    pre: CommitmentNftContract,
    post: CommitmentNftContract,
    caller: Address,
    owner: Address,
    commitment_id: String,
    duration_days: u32,
    max_loss_percent: u32,
    commitment_type: String,
    initial_amount: i128,
    asset_address: Address,
    early_exit_penalty: u32,
    now: u64,
    token_id: u32,
)
    requires
        pre.wf(),
        pre.tokens@.len() < u32::MAX,
        CommitmentNftContract::mint_post(
            pre,
            caller,
            owner,
            commitment_id,
            duration_days,
            max_loss_percent,
            commitment_type,
            initial_amount,
            asset_address,
            early_exit_penalty,
            now,
            Ok(token_id),
            post,
        ),
    ensures
        post.metadata_result(token_id) matches Ok(t) && CommitmentNftContract::is_minted_token(
            t,
            token_id,
            owner,
            commitment_id,
            duration_days,
            max_loss_percent,
            commitment_type,
            initial_amount,
            asset_address,
            early_exit_penalty,
            now,
        ),
{
    assert(post.tokens@[token_id as int] == post.tokens@.last());
}

impl CommitmentNftContract {
    /// What `get_metadata` returns.
    pub open spec fn metadata_result(&self, token_id: u32) -> Result<Nft, NftError> {
        if self.has_token(token_id) {
            Ok(self.token(token_id))
        } else {
            Err(NftError::TokenNotFound)
        }
    }

    /// The full record of a token.
    pub fn get_metadata(&self, token_id: u32) -> (r: Result<Nft, NftError>)
        ensures
            r == self.metadata_result(token_id),
    {
        if (token_id as usize) < self.tokens.len() {
            Ok(self.tokens[token_id as usize].clone())
        } else {
            Err(NftError::TokenNotFound)
        }
    }

    /// The holder of a token.
    pub fn owner_of(&self, token_id: u32) -> (r: Result<Address, NftError>)
        ensures
            r == if self.has_token(token_id) {
                Ok::<Address, NftError>(self.token(token_id).owner)
            } else {
                Err(NftError::TokenNotFound)
            },
    {
        if (token_id as usize) < self.tokens.len() {
            Ok(self.tokens[token_id as usize].owner)
        } else {
            Err(NftError::TokenNotFound)
        }
    }

    /// Whether a token is still locked to an active commitment.
    pub fn is_active(&self, token_id: u32) -> (r: Result<bool, NftError>)
        ensures
            r == if self.has_token(token_id) {
                Ok::<bool, NftError>(self.token(token_id).is_active)
            } else {
                Err(NftError::TokenNotFound)
            },
    {
        if (token_id as usize) < self.tokens.len() {
            Ok(self.tokens[token_id as usize].is_active)
        } else {
            Err(NftError::TokenNotFound)
        }
    }

    /// Whether a token's term has run out at time `now`.
    pub fn is_expired(&self, token_id: u32, now: u64) -> (r: Result<bool, NftError>)
        ensures
            r == if self.has_token(token_id) {
                Ok::<bool, NftError>(now >= self.token(token_id).metadata.expires_at)
            } else {
                Err(NftError::TokenNotFound)
            },
    {
        if (token_id as usize) < self.tokens.len() {
            Ok(now >= self.tokens[token_id as usize].metadata.expires_at)
        } else {
            Err(NftError::TokenNotFound)
        }
    }

    /// Whether a token with this id has been minted.
    pub fn token_exists(&self, token_id: u32) -> (r: bool)
        ensures
            r == self.has_token(token_id),
    {
        (token_id as usize) < self.tokens.len()
    }

    /// Number of tokens ever minted.
    pub fn total_supply(&self) -> (r: u32)
        requires
            self.wf(),
        ensures
            r == self.spec_total_supply(),
    {
        self.tokens.len() as u32
    }

    /// Number of tokens held by `owner`.
    pub fn balance_of(&self, owner: Address) -> (r: u32)
        requires
            self.wf(),
        ensures
            r == self.spec_balance_of(owner),
    {
        let mut count: u32 = 0;
        let mut i: usize = 0;
        while i < self.tokens.len()
            invariant
                self.wf(),
                i <= self.tokens@.len(),
                count <= i,
                count == count_owned(self.tokens@.subrange(0, i as int), owner),
            decreases self.tokens@.len() - i,
        {
            assert(self.tokens@.subrange(0, i + 1).drop_last() =~= self.tokens@.subrange(
                0,
                i as int,
            ));
            if self.tokens[i].owner == owner {
                count = count + 1;
            }
            i = i + 1;
        }
        assert(self.tokens@.subrange(0, i as int) =~= self.tokens@);
        count
    }

    /// The tokens held by `owner`, in id order.
    pub fn get_nfts_by_owner(&self, owner: Address) -> (r: Vec<Nft>)
        ensures
            r@ == owned_by(self.tokens@, owner),
    {
        let mut out: Vec<Nft> = Vec::new();
        let mut i: usize = 0;
        while i < self.tokens.len()
            invariant
                i <= self.tokens@.len(),
                out@ == owned_by(self.tokens@.subrange(0, i as int), owner),
            decreases self.tokens@.len() - i,
        {
            assert(self.tokens@.subrange(0, i + 1).drop_last() =~= self.tokens@.subrange(
                0,
                i as int,
            ));
            if self.tokens[i].owner == owner {
                out.push(self.tokens[i].clone());
            }
            i = i + 1;
        }
        assert(self.tokens@.subrange(0, i as int) =~= self.tokens@);
        out
    }

    /// Every token, in id order.
    pub fn get_all_metadata(&self) -> (r: Vec<Nft>)
        ensures
            r@ == self.tokens@,
    {
        let mut out: Vec<Nft> = Vec::new();
        let mut i: usize = 0;
        while i < self.tokens.len()
            invariant
                i <= self.tokens@.len(),
                out@ == self.tokens@.subrange(0, i as int),
            decreases self.tokens@.len() - i,
        {
            out.push(self.tokens[i].clone());
            i = i + 1;
            assert(out@ =~= self.tokens@.subrange(0, i as int));
        }
        assert(self.tokens@.subrange(0, i as int) =~= self.tokens@);
        out
    }

    /// Whether mutating operations are refused.
    pub fn is_paused(&self) -> (r: bool)
        ensures
            r == self.pausable.paused,
    {
        self.pausable.is_paused()
    }

    /// Admin-only: refuses mutating operations until `unpause`.
    pub fn pause(&mut self, caller: Address) -> (r: Result<(), NftError>)
        requires
            old(self).wf(),
        ensures
            final(self).wf(),
            final(self).spec_total_supply() >= old(self).spec_total_supply(),
            r == if old(self).admin.is_none() {
                Err::<(), NftError>(NftError::NotInitialized)
            } else if old(self).admin != Some(caller) {
                Err(NftError::Unauthorized)
            } else if old(self).pausable.paused {
                Err(NftError::AlreadyPaused)
            } else {
                Ok(())
            },
            r is Err ==> *final(self) == *old(self),
            r is Ok ==> final(self).pausable.paused && final(self).admin == old(self).admin
                && final(self).core_contract == old(self).core_contract && final(self).tokens
                == old(self).tokens && final(self).events@ == old(self).events@.push(
                NftEvent::Pause,
            ),
    {
        if self.admin.is_none() {
            return Err(NftError::NotInitialized);
        }
        if self.admin != Some(caller) {
            return Err(NftError::Unauthorized);
        }
        match self.pausable.pause() {
            Ok(()) => {
                self.events.push(NftEvent::Pause);
                Ok(())
            },
            Err(_) => Err(NftError::AlreadyPaused),
        }
    }

    /// Admin-only: accepts mutating operations again.
    pub fn unpause(&mut self, caller: Address) -> (r: Result<(), NftError>)
        requires
            old(self).wf(),
        ensures
            final(self).wf(),
            final(self).spec_total_supply() >= old(self).spec_total_supply(),
            r == if old(self).admin.is_none() {
                Err::<(), NftError>(NftError::NotInitialized)
            } else if old(self).admin != Some(caller) {
                Err(NftError::Unauthorized)
            } else if !old(self).pausable.paused {
                Err(NftError::NotPaused)
            } else {
                Ok(())
            },
            r is Err ==> *final(self) == *old(self),
            r is Ok ==> !final(self).pausable.paused && final(self).admin == old(self).admin
                && final(self).core_contract == old(self).core_contract && final(self).tokens
                == old(self).tokens && final(self).events@ == old(self).events@.push(
                NftEvent::Unpause,
            ),
    {
        if self.admin.is_none() {
            return Err(NftError::NotInitialized);
        }
        if self.admin != Some(caller) {
            return Err(NftError::Unauthorized);
        }
        match self.pausable.unpause() {
            Ok(()) => {
                self.events.push(NftEvent::Unpause);
                Ok(())
            },
            Err(_) => Err(NftError::NotPaused),
        }
    }
}


/// Settling or unlocking a token changes no balance and not the supply.
pub proof fn lemma_release_keeps_balances(
    pre: CommitmentNftContract,
    post: CommitmentNftContract,
    token_id: u32,
    now: u64,
    a: Address,
)
    requires
        pre.has_token(token_id),
        CommitmentNftContract::released(pre, token_id, now, post),
    ensures
        post.spec_balance_of(a) == pre.spec_balance_of(a),
        post.spec_total_supply() == pre.spec_total_supply(),
{
    let i = token_id as int;
    assert(post.tokens@ =~= pre.tokens@.update(i, post.tokens@[i]));
    lemma_count_owned_update(pre.tokens@, i, post.tokens@[i], a);
}

} // verus!
