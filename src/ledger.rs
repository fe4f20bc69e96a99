//! Commitment ledger: creation, value updates, settlement and early exit,
//! kept in step with the token registry and the asset custody.

use vstd::prelude::*;
use vstd::string::StringExecFns;

use crate::asset::AssetBook;
use crate::math::{drawdown_capped, drawdown_percent, exit_penalty, penalty_spec};
use crate::nft::{
    expiry_of, is_valid_commitment_type, valid_commitment_type, CommitmentNftContract, NftError,
    MAX_PERCENT,
};
use crate::pausable::Pausable;
use crate::types::Address;

verus! {

/// Where a commitment stands. Every state but `Active` is final.
#[derive(Clone, Copy, Debug, PartialEq, Eq, Structural)]
pub enum CommitmentStatus {
    Active,
    Settled,
    Violated,
    EarlyExit,
}

/// Errors of the commitment ledger.
#[derive(Clone, Copy, Debug, PartialEq, Eq, Structural)]
pub enum CoreError {
    NotInitialized,
    AlreadyInitialized,
    Unauthorized,
    CommitmentNotFound,
    InvalidAmount,
    InvalidDuration,
    InvalidMaxLoss,
    InvalidPenalty,
    InvalidCommitmentType,
    InvalidState,
    NotExpired,
    AlreadySettled,
    AssetTransferFailed,
    Paused,
    AlreadyPaused,
    NotPaused,
    /// The token registry refused the request.
    Nft(NftError),
}

/// The terms a commitment is created under.
#[derive(Debug)]
pub struct CommitmentRules {
    pub duration_days: u32,
    pub max_loss_percent: u32,
    pub commitment_type: String,
    pub early_exit_penalty: u32,
    pub min_fee_threshold: u64,
    pub grace_period_days: u32,
}

impl Clone for CommitmentRules {
    fn clone(&self) -> (r: Self)
        ensures
            r == *self,
    {
        CommitmentRules {
            duration_days: self.duration_days,
            max_loss_percent: self.max_loss_percent,
            commitment_type: self.commitment_type.clone(),
            early_exit_penalty: self.early_exit_penalty,
            min_fee_threshold: self.min_fee_threshold,
            grace_period_days: self.grace_period_days,
        }
    }
}

/// The error that rule validation reports, or `None` for acceptable rules.
pub open spec fn rules_error(rules: CommitmentRules) -> Option<CoreError> {
    if rules.duration_days == 0 {
        Some(CoreError::InvalidDuration)
    } else if rules.max_loss_percent > MAX_PERCENT {
        Some(CoreError::InvalidMaxLoss)
    } else if rules.early_exit_penalty > MAX_PERCENT {
        Some(CoreError::InvalidPenalty)
    } else if !is_valid_commitment_type(rules.commitment_type@) {
        Some(CoreError::InvalidCommitmentType)
    } else {
        None
    }
}

/// Checks the rules of a new commitment.
pub fn validate_rules(rules: &CommitmentRules) -> (r: Option<CoreError>)
    ensures
        r == rules_error(*rules),
{
    if rules.duration_days == 0 {
        Some(CoreError::InvalidDuration)
    } else if rules.max_loss_percent > MAX_PERCENT {
        Some(CoreError::InvalidMaxLoss)
    } else if rules.early_exit_penalty > MAX_PERCENT {
        Some(CoreError::InvalidPenalty)
    } else if !valid_commitment_type(&rules.commitment_type) {
        Some(CoreError::InvalidCommitmentType)
    } else {
        None
    }
}

/// One commitment.
#[derive(Debug)]
pub struct Commitment {
    pub commitment_id: String,
    pub owner: Address,
    pub amount: i128,
    pub current_value: i128,
    pub asset: Address,
    pub rules: CommitmentRules,
    pub status: CommitmentStatus,
    pub created_at: u64,
    pub expires_at: u64,
    pub nft_token_id: u32,
}

impl Clone for Commitment {
    fn clone(&self) -> (r: Self)
        ensures
            r == *self,
    {
        Commitment {
            commitment_id: self.commitment_id.clone(),
            owner: self.owner,
            amount: self.amount,
            current_value: self.current_value,
            asset: self.asset,
            rules: self.rules.clone(),
            status: self.status,
            created_at: self.created_at,
            expires_at: self.expires_at,
            nft_token_id: self.nft_token_id,
        }
    }
}

/// What the ledger reports of its state changes.
#[derive(Debug)]
pub enum CoreEvent {
    CommitmentCreated { commitment_id: String, owner: Address, amount: i128, timestamp: u64 },
    Violation { commitment_id: String, drawdown_percent: u32, timestamp: u64 },
    Settled { commitment_id: String, returned: i128, timestamp: u64 },
    EarlyExit { commitment_id: String, penalty: i128, returned: i128, timestamp: u64 },
    Pause,
    Unpause,
}

/// The character of decimal digit `d`.
pub open spec fn digit_char(d: nat) -> char {
    if d == 0 {
        '0'
    } else if d == 1 {
        '1'
    } else if d == 2 {
        '2'
    } else if d == 3 {
        '3'
    } else if d == 4 {
        '4'
    } else if d == 5 {
        '5'
    } else if d == 6 {
        '6'
    } else if d == 7 {
        '7'
    } else if d == 8 {
        '8'
    } else {
        '9'
    }
}

/// Decimal notation of `n`, without leading zeros.
pub open spec fn decimal(n: nat) -> Seq<char>
    decreases n,
{
    if n < 10 {
        seq![digit_char(n)]
    } else {
        decimal(n / 10).push(digit_char(n % 10))
    }
}

/// Id of the `n`-th commitment: `c_` followed by `n` in decimal.
pub open spec fn commitment_id_of(n: nat) -> Seq<char> {
    seq!['c', '_'] + decimal(n)
}

proof fn lemma_decimal_injective(a: nat, b: nat)
    requires
        decimal(a) == decimal(b),
    ensures
        a == b,
    decreases a,
{
    lemma_decimal_len(a);
    lemma_decimal_len(b);
    if a < 10 && b < 10 {
        assert(decimal(a)[0] == digit_char(a));
    } else if a >= 10 && b >= 10 {
        assert(decimal(a).last() == digit_char(a % 10));
        assert(decimal(b).last() == digit_char(b % 10));
        assert(decimal(a).drop_last() =~= decimal(a / 10));
        assert(decimal(b).drop_last() =~= decimal(b / 10));
        lemma_decimal_injective(a / 10, b / 10);
    } else if a < 10 {
        lemma_decimal_len(b / 10);
    } else {
        lemma_decimal_len(a / 10);
    }
}

proof fn lemma_decimal_len(n: nat)
    ensures
        decimal(n).len() >= 1,
        n >= 10 ==> decimal(n).len() >= 2,
    decreases n,
{
    if n >= 10 {
        lemma_decimal_len(n / 10);
    }
}

/// Different positions get different commitment ids.
pub proof fn lemma_commitment_ids_distinct(a: nat, b: nat)
    requires
        a != b,
    ensures
        commitment_id_of(a) != commitment_id_of(b),
{
    if commitment_id_of(a) == commitment_id_of(b) {
        assert(commitment_id_of(a).subrange(2, commitment_id_of(a).len() as int) =~= decimal(a));
        assert(commitment_id_of(b).subrange(2, commitment_id_of(b).len() as int) =~= decimal(b));
        lemma_decimal_injective(a, b);
    }
}

fn digit_str(d: u64) -> (r: &'static str)
    requires
        d < 10,
    ensures
        r@ == seq![digit_char(d as nat)],
{
    if d == 0 {
        proof {
            reveal_strlit("0");
        }
        assert("0"@ =~= seq!['0']);
        "0"
    } else if d == 1 {
        proof {
            reveal_strlit("1");
        }
        assert("1"@ =~= seq!['1']);
        "1"
    } else if d == 2 {
        proof {
            reveal_strlit("2");
        }
        assert("2"@ =~= seq!['2']);
        "2"
    } else if d == 3 {
        proof {
            reveal_strlit("3");
        }
        assert("3"@ =~= seq!['3']);
        "3"
    } else if d == 4 {
        proof {
            reveal_strlit("4");
        }
        assert("4"@ =~= seq!['4']);
        "4"
    } else if d == 5 {
        proof {
            reveal_strlit("5");
        }
        assert("5"@ =~= seq!['5']);
        "5"
    } else if d == 6 {
        proof {
            reveal_strlit("6");
        }
        assert("6"@ =~= seq!['6']);
        "6"
    } else if d == 7 {
        proof {
            reveal_strlit("7");
        }
        assert("7"@ =~= seq!['7']);
        "7"
    } else if d == 8 {
        proof {
            reveal_strlit("8");
        }
        assert("8"@ =~= seq!['8']);
        "8"
    } else {
        proof {
            reveal_strlit("9");
        }
        assert("9"@ =~= seq!['9']);
        "9"
    }
}

fn append_decimal(s: &mut String, n: u64)
    ensures
        final(s)@ == old(s)@ + decimal(n as nat),
    decreases n,
{
    if n >= 10 {
        append_decimal(s, n / 10);
    }
    s.append(digit_str(n % 10));
    proof {
        if n >= 10 {
            assert(old(s)@ + decimal(n as nat) =~= old(s)@ + decimal((n / 10) as nat) + seq![
                digit_char((n % 10) as nat),
            ]);
        } else {
            assert(decimal(n as nat) == seq![digit_char(n as nat)]);
        }
    }
}

/// The id given to the `n`-th commitment.
pub fn make_commitment_id(n: u64) -> (r: String)
    ensures
        r@ == commitment_id_of(n as nat),
{
    proof {
        reveal_strlit("c_");
    }
    assert("c_"@ =~= seq!['c', '_']);
    let mut s = String::from_str("c_");
    append_decimal(&mut s, n);
    s
}

/// The commitment ledger. It holds the committed assets in custody under
/// its own `address`, which is also its identity toward the token registry.
pub struct CommitmentCoreContract {
    pub address: Address,
    pub admin: Option<Address>,
    pub nft_contract: Option<Address>,
    pub pausable: Pausable,
    /// Commitment `i` has id `commitment_id_of(i)`, in creation order.
    pub commitments: Vec<Commitment>,
    pub events: Vec<CoreEvent>,
}

/// The ledger and the registry agree: token `i` belongs to commitment `i`,
/// records its id and expiry, and is locked exactly while it is active.
pub open spec fn coupled(core: &CommitmentCoreContract, nft: &CommitmentNftContract) -> bool {
    &&& nft.core_contract == Some(core.address)
    &&& nft.tokens@.len() == core.commitments@.len()
    &&& forall|i: int|
        0 <= i < core.commitments@.len() ==> {
            &&& (#[trigger] core.commitments@[i]).nft_token_id == i
            &&& nft.tokens@[i].metadata.commitment_id@ == core.commitments@[i].commitment_id@
            &&& nft.tokens@[i].metadata.expires_at == core.commitments@[i].expires_at
            &&& nft.tokens@[i].is_active <==> core.commitments@[i].status
                == CommitmentStatus::Active
        }
}

/// Lock coupling: while the two components are coupled, a token that is
/// still locked belongs to a commitment that is still active.
pub proof fn lemma_locked_token_has_active_commitment(
    core: &CommitmentCoreContract,
    nft: &CommitmentNftContract,
    token_id: u32,
)
    requires
        coupled(core, nft),
        nft.has_token(token_id),
        nft.token(token_id).is_active,
    ensures
        core.commitments@[token_id as int].nft_token_id == token_id,
        core.commitments@[token_id as int].status == CommitmentStatus::Active,
{
    assert(core.commitments@[token_id as int].nft_token_id == token_id);
}

impl CommitmentCoreContract {
    /// Ids follow creation order, amounts are positive, rules are valid and
    /// creation times never go backwards.
    pub open spec fn wf(&self) -> bool {
        &&& self.commitments@.len() < u64::MAX
        &&& forall|i: int|
            0 <= i < self.commitments@.len() ==> {
                &&& (#[trigger] self.commitments@[i]).commitment_id@ == commitment_id_of(i as nat)
                &&& self.commitments@[i].amount > 0
                &&& rules_error(self.commitments@[i].rules) is None
            }
        &&& forall|i: int, j: int|
            0 <= i <= j < self.commitments@.len() ==> (#[trigger] self.commitments@[i]).created_at
                <= (#[trigger] self.commitments@[j]).created_at
        &&& self.admin.is_none() ==> self.commitments@.len() == 0
    }

    /// Index of the commitment with id `id`, if any.
    pub open spec fn index_of(&self, id: Seq<char>) -> Option<int> {
        if exists|i: int| 0 <= i < self.commitments@.len() && #[trigger] self.commitments@[i].commitment_id@ == id {
            Some(
                choose|i: int|
                    0 <= i < self.commitments@.len() && #[trigger] self.commitments@[i].commitment_id@
                        == id,
            )
        } else {
            None
        }
    }

    pub open spec fn has_commitment(&self, id: Seq<char>) -> bool {
        self.index_of(id) is Some
    }

    /// The commitment with id `id` (meaningful where `has_commitment(id)`).
    pub open spec fn commitment(&self, id: Seq<char>) -> Commitment {
        self.commitments@[self.index_of(id)->Some_0]
    }

    proof fn lemma_index_unique(&self, id: Seq<char>, i: int)
        requires
            self.wf(),
            0 <= i < self.commitments@.len(),
            self.commitments@[i].commitment_id@ == id,
        ensures
            self.index_of(id) == Some(i),
    {
        let j = self.index_of(id)->Some_0;
        if j != i {
            lemma_commitment_ids_distinct(i as nat, j as nat);
        }
    }

    /// An uninitialised ledger whose custody account is `address`.
    pub fn new(address: Address) -> (r: Self)
        ensures
            r.wf(),
            r.address == address,
            r.admin.is_none(),
            r.nft_contract.is_none(),
            !r.pausable.paused,
            r.commitments@.len() == 0,
            r.events@.len() == 0,
    {
        CommitmentCoreContract {
            address,
            admin: None,
            nft_contract: None,
            pausable: Pausable::new(),
            commitments: Vec::new(),
            events: Vec::new(),
        }
    }

    /// Records the admin and the token registry. Once only.
    pub fn initialize(&mut self, admin: Address, nft_contract: Address) -> (r: Result<
        (),
        CoreError,
    >)
        requires
            old(self).wf(),
        ensures
            final(self).wf(),
            old(self).admin.is_some() ==> r == Err::<(), CoreError>(CoreError::AlreadyInitialized)
                && *final(self) == *old(self),
            old(self).admin.is_none() ==> r is Ok && final(self).admin == Some(admin)
                && final(self).nft_contract == Some(nft_contract) && final(self).address == old(
                self,
            ).address && final(self).pausable == old(self).pausable && final(self).commitments
                == old(self).commitments && final(self).events == old(self).events,
    {
        if self.admin.is_some() {
            return Err(CoreError::AlreadyInitialized);
        }
        self.admin = Some(admin);
        self.nft_contract = Some(nft_contract);
        Ok(())
    }

    /// Position of the commitment with id `id`.
    pub fn find(&self, id: &String) -> (r: Option<usize>)
        requires
            self.wf(),
        ensures
            r matches Some(i) ==> i < self.commitments@.len() && self.index_of(id@) == Some(
                i as int,
            ),
            r is None ==> self.index_of(id@) is None,
    {
        let mut i: usize = 0;
        while i < self.commitments.len()
            invariant
                self.wf(),
                i <= self.commitments@.len(),
                forall|j: int| 0 <= j < i ==> #[trigger] self.commitments@[j].commitment_id@ != id@,
            decreases self.commitments@.len() - i,
        {
            if self.commitments[i].commitment_id == *id {
                proof {
                    self.lemma_index_unique(id@, i as int);
                }
                return Some(i);
            }
            i = i + 1;
        }
        None
    }

    /// The commitment with id `id`.
    pub fn get_commitment(&self, id: &String) -> (r: Result<Commitment, CoreError>)
        requires
            self.wf(),
        ensures
            r == if self.has_commitment(id@) {
                Ok::<Commitment, CoreError>(self.commitment(id@))
            } else {
                Err(CoreError::CommitmentNotFound)
            },
    {
        match self.find(id) {
            Some(i) => Ok(self.commitments[i].clone()),
            None => Err(CoreError::CommitmentNotFound),
        }
    }

    /// Whether a commitment with id `id` exists.
    pub fn commitment_exists(&self, id: &String) -> (r: bool)
        requires
            self.wf(),
        ensures
            r == self.has_commitment(id@),
    {
        self.find(id).is_some()
    }
}


/// Whether the asset book can move `amount` of `asset` from `from` to `to`.
pub open spec fn can_transfer(
    assets: &AssetBook,
    asset: Address,
    from: Address,
    to: Address,
    amount: int,
) -> bool {
    &&& amount >= 0
    &&& assets.spec_balance(asset, from) >= amount
    &&& (from == to || assets.spec_balance(asset, to) + amount <= i128::MAX)
}

/// `post` is `pre` after `amount` of `asset` went from `from` to `to`.
pub open spec fn transferred(
    pre: &AssetBook,
    post: &AssetBook,
    asset: Address,
    from: Address,
    to: Address,
    amount: int,
) -> bool {
    &&& from != to ==> post.spec_balance(asset, from) == pre.spec_balance(asset, from) - amount
        && post.spec_balance(asset, to) == pre.spec_balance(asset, to) + amount
    &&& from == to ==> post.spec_balance(asset, from) == pre.spec_balance(asset, from)
    &&& forall|a: Address, h: Address|
        !(a == asset && (h == from || h == to)) ==> #[trigger] post.spec_balance(a, h)
            == pre.spec_balance(a, h)
}

impl CommitmentCoreContract {
    /// The error `create_commitment` returns, or `None` where it succeeds.
    pub open spec fn create_error(
        &self,
        nft: &CommitmentNftContract,
        assets: &AssetBook,
        owner: Address,
        amount: i128,
        asset: Address,
        rules: CommitmentRules,
        now: u64,
    ) -> Option<CoreError> {
        if self.admin.is_none() {
            Some(CoreError::NotInitialized)
        } else if self.pausable.paused {
            Some(CoreError::Paused)
        } else if amount <= 0 {
            Some(CoreError::InvalidAmount)
        } else if rules_error(rules) is Some {
            rules_error(rules)
        } else if nft.mint_error(
            self.address,
            commitment_id_of(self.commitments@.len()),
            rules.duration_days,
            rules.max_loss_percent,
            rules.commitment_type@,
            now,
        ) is Some {
            Some(
                CoreError::Nft(
                    nft.mint_error(
                        self.address,
                        commitment_id_of(self.commitments@.len()),
                        rules.duration_days,
                        rules.max_loss_percent,
                        rules.commitment_type@,
                        now,
                    )->Some_0,
                ),
            )
        } else if !can_transfer(assets, asset, owner, self.address, amount as int) {
            Some(CoreError::AssetTransferFailed)
        } else {
            None
        }
    }

    /// `c` is the record `create_commitment` appends.
    pub open spec fn is_new_commitment(
        c: Commitment,
        n: nat,
        owner: Address,
        amount: i128,
        asset: Address,
        rules: CommitmentRules,
        now: u64,
        token_id: u32,
    ) -> bool {
        &&& c.commitment_id@ == commitment_id_of(n)
        &&& c.owner == owner
        &&& c.amount == amount
        &&& c.current_value == amount
        &&& c.asset == asset
        &&& c.rules == rules
        &&& c.status == CommitmentStatus::Active
        &&& c.created_at == now
        &&& c.expires_at == expiry_of(now, rules.duration_days)
        &&& c.nft_token_id == token_id
    }

    /// Locks `amount` of `asset` from `owner` under `rules`: moves the amount
    /// into custody, mints the ownership token and records the commitment.
    /// Returns the new commitment's id.
    pub fn create_commitment(
        &mut self,
        nft: &mut CommitmentNftContract,
        assets: &mut AssetBook,
        owner: Address,
        amount: i128,
        asset: Address,
        rules: CommitmentRules,
        now: u64,
    ) -> (r: Result<String, CoreError>)
        requires
            old(self).wf(),
            old(nft).wf(),
            old(assets).wf(),
            old(nft).tokens@.len() < u32::MAX,
            old(self).commitments@.len() < u32::MAX,
            old(self).commitments@.len() > 0 ==> old(self).commitments@.last().created_at <= now,
        ensures
            final(self).wf(),
            final(nft).wf(),
            final(assets).wf(),
            coupled(old(self), old(nft)) ==> coupled(final(self), final(nft)),
            match old(self).create_error(old(nft), old(assets), owner, amount, asset, rules, now) {
                Some(e) => {
                    &&& r == Err::<String, CoreError>(e)
                    &&& *final(self) == *old(self)
                    &&& *final(nft) == *old(nft)
                    &&& *final(assets) == *old(assets)
                },
                None => {
                    let n = old(self).commitments@.len();
                    let token_id = old(nft).tokens@.len() as u32;
                    &&& r matches Ok(id) && id@ == commitment_id_of(n)
                    &&& final(self).address == old(self).address
                    &&& final(self).admin == old(self).admin
                    &&& final(self).nft_contract == old(self).nft_contract
                    &&& final(self).pausable == old(self).pausable
                    &&& final(self).commitments@.len() == n + 1
                    &&& final(self).commitments@.drop_last() == old(self).commitments@
                    &&& Self::is_new_commitment(
                        final(self).commitments@.last(),
                        n,
                        owner,
                        amount,
                        asset,
                        rules,
                        now,
                        token_id,
                    )
                    &&& final(self).events@.len() == old(self).events@.len() + 1
                    &&& final(self).events@.drop_last() == old(self).events@
                    &&& exists|cid: String|
                        cid@ == commitment_id_of(n) && #[trigger] CommitmentNftContract::mint_post(
                            *old(nft),
                            old(self).address,
                            owner,
                            cid,
                            rules.duration_days,
                            rules.max_loss_percent,
                            rules.commitment_type,
                            amount,
                            asset,
                            rules.early_exit_penalty,
                            now,
                            Ok(token_id),
                            *final(nft),
                        )
                    &&& transferred(
                        old(assets),
                        final(assets),
                        asset,
                        owner,
                        old(self).address,
                        amount as int,
                    )
                },
            },
    {
        if self.admin.is_none() {
            return Err(CoreError::NotInitialized);
        }
        if self.pausable.is_paused() {
            return Err(CoreError::Paused);
        }
        if amount <= 0 {
            return Err(CoreError::InvalidAmount);
        }
        match validate_rules(&rules) {
            Some(e) => {
                return Err(e);
            },
            None => {},
        }
        let n = self.commitments.len();
        let id = make_commitment_id(n as u64);
        match nft.mint_check(
            self.address,
            &id,
            rules.duration_days,
            rules.max_loss_percent,
            &rules.commitment_type,
            now,
        ) {
            Some(e) => {
                return Err(CoreError::Nft(e));
            },
            None => {},
        }
        match assets.transfer(asset, owner, self.address, amount) {
            Ok(()) => {},
            Err(_) => {
                return Err(CoreError::AssetTransferFailed);
            },
        }
        let ghost nft_pre = *nft;
        let minted_id = id.clone();
        let minted_type = rules.commitment_type.clone();
        let minted = nft.mint(
            self.address,
            owner,
            minted_id,
            rules.duration_days,
            rules.max_loss_percent,
            minted_type,
            amount,
            asset,
            rules.early_exit_penalty,
            now,
        );
        let token_id = match minted {
            Ok(t) => t,
            Err(e) => {
                proof {
                    assert(false);
                }
                return Err(CoreError::Nft(e));
            },
        };
        let expires_at = nft.tokens[token_id as usize].metadata.expires_at;
        let event_id = id.clone();
        let commitment = Commitment {
            commitment_id: id,
            owner,
            amount,
            current_value: amount,
            asset,
            rules,
            status: CommitmentStatus::Active,
            created_at: now,
            expires_at,
            nft_token_id: token_id,
        };
        let ghost pre = self.commitments@;
        self.commitments.push(commitment);
        self.events.push(
            CoreEvent::CommitmentCreated { commitment_id: event_id, owner, amount, timestamp: now },
        );
        let r = Ok(self.commitments[n].commitment_id.clone());
        proof {
            assert(self.commitments@.drop_last() =~= pre);
            assert(self.events@.drop_last() =~= old(self).events@);
            assert(self.commitments@[n as int] == commitment);
            assert(nft.tokens@[token_id as int] == nft.tokens@.last());
            assert(CommitmentNftContract::mint_post(
                nft_pre,
                old(self).address,
                owner,
                minted_id,
                commitment.rules.duration_days,
                commitment.rules.max_loss_percent,
                minted_type,
                amount,
                asset,
                commitment.rules.early_exit_penalty,
                now,
                Ok(token_id),
                *nft,
            ));
            if coupled(old(self), &nft_pre) {
                assert forall|i: int| 0 <= i < self.commitments@.len() implies {
                    &&& (#[trigger] self.commitments@[i]).nft_token_id == i
                    &&& nft.tokens@[i].metadata.commitment_id@ == self.commitments@[i].commitment_id@
                    &&& nft.tokens@[i].metadata.expires_at == self.commitments@[i].expires_at
                    &&& nft.tokens@[i].is_active <==> self.commitments@[i].status
                        == CommitmentStatus::Active
                } by {
                    if i < n {
                        assert(self.commitments@[i] == pre[i]);
                        assert(nft.tokens@[i] == nft_pre.tokens@[i]);
                    }
                }
            }
        }
        r
    }
}



/// `b` is `a` with at most its value and status changed.
pub open spec fn same_terms(a: Commitment, b: Commitment) -> bool {
    &&& b.commitment_id == a.commitment_id
    &&& b.owner == a.owner
    &&& b.amount == a.amount
    &&& b.asset == a.asset
    &&& b.rules == a.rules
    &&& b.created_at == a.created_at
    &&& b.expires_at == a.expires_at
    &&& b.nft_token_id == a.nft_token_id
}

/// Amount paid back to the owner on settlement: the current value, or
/// nothing where it has fallen below zero.
pub open spec fn settle_payout(value: int) -> int {
    if value > 0 {
        value
    } else {
        0
    }
}

/// Amount paid back to the owner on early exit: the current value less the
/// penalty, never below zero.
pub open spec fn exit_payout(value: int, percent: int) -> int {
    if value - penalty_spec(value, percent) > 0 {
        value - penalty_spec(value, percent)
    } else {
        0
    }
}

impl CommitmentCoreContract {
    /// `post` differs from `pre` only in commitment `i`, whose value and
    /// status are now `value` and `status`, and in `events`.
    pub open spec fn updated_at(pre: Self, post: Self, i: int, value: i128, status: CommitmentStatus) -> bool {
        &&& post.address == pre.address
        &&& post.admin == pre.admin
        &&& post.nft_contract == pre.nft_contract
        &&& post.pausable == pre.pausable
        &&& post.commitments@.len() == pre.commitments@.len()
        &&& forall|j: int|
            0 <= j < pre.commitments@.len() && j != i ==> #[trigger] post.commitments@[j]
                == pre.commitments@[j]
        &&& same_terms(pre.commitments@[i], post.commitments@[i])
        &&& post.commitments@[i].current_value == value
        &&& post.commitments@[i].status == status
    }

    fn set_state(&mut self, i: usize, value: i128, status: CommitmentStatus)
        requires
            old(self).wf(),
            i < old(self).commitments@.len(),
        ensures
            final(self).wf(),
            Self::updated_at(*old(self), *final(self), i as int, value, status),
            final(self).events == old(self).events,
    {
        let c = self.commitments[i].clone();
        let updated = Commitment {
            commitment_id: c.commitment_id,
            owner: c.owner,
            amount: c.amount,
            current_value: value,
            asset: c.asset,
            rules: c.rules,
            status,
            created_at: c.created_at,
            expires_at: c.expires_at,
            nft_token_id: c.nft_token_id,
        };
        self.commitments.set(i, updated);
    }

    /// The error `update_value` returns, or `None` where it succeeds.
    pub open spec fn update_error(
        &self,
        nft: &CommitmentNftContract,
        caller: Address,
        id: Seq<char>,
        new_value: i128,
    ) -> Option<CoreError> {
        if self.admin.is_none() {
            Some(CoreError::NotInitialized)
        } else if self.pausable.paused {
            Some(CoreError::Paused)
        } else if self.admin != Some(caller) {
            Some(CoreError::Unauthorized)
        } else if !self.has_commitment(id) {
            Some(CoreError::CommitmentNotFound)
        } else if self.commitment(id).status != CommitmentStatus::Active {
            Some(CoreError::InvalidState)
        } else if drawdown_capped(self.commitment(id).amount as int, new_value as int)
            > self.commitment(id).rules.max_loss_percent && nft.release_error(
            self.address,
            self.commitment(id).nft_token_id,
        ) is Some {
            Some(
                CoreError::Nft(
                    nft.release_error(self.address, self.commitment(id).nft_token_id)->Some_0,
                ),
            )
        } else {
            None
        }
    }

    /// Admin-only: records a new value for an active commitment. Where the
    /// drawdown from the committed amount exceeds the loss limit the
    /// commitment becomes `Violated` and its token is unlocked.
    pub fn update_value(
        &mut self,
        nft: &mut CommitmentNftContract,
        caller: Address,
        id: &String,
        new_value: i128,
        now: u64,
    ) -> (r: Result<(), CoreError>)
        requires
            old(self).wf(),
            old(nft).wf(),
        ensures
            final(self).wf(),
            final(nft).wf(),
            coupled(old(self), old(nft)) ==> coupled(final(self), final(nft)),
            match old(self).update_error(old(nft), caller, id@, new_value) {
                Some(e) => r == Err::<(), CoreError>(e) && *final(self) == *old(self)
                    && *final(nft) == *old(nft),
                None => {
                    let i = old(self).index_of(id@)->Some_0;
                    let c = old(self).commitments@[i];
                    let draw = drawdown_capped(c.amount as int, new_value as int);
                    &&& r is Ok
                    &&& if draw > c.rules.max_loss_percent {
                        &&& Self::updated_at(
                            *old(self),
                            *final(self),
                            i,
                            new_value,
                            CommitmentStatus::Violated,
                        )
                        &&& CommitmentNftContract::released(
                            *old(nft),
                            c.nft_token_id,
                            now,
                            *final(nft),
                        )
                        &&& final(self).events@.len() == old(self).events@.len() + 1
                        &&& final(self).events@.drop_last() == old(self).events@
                        &&& final(self).events@.last() matches CoreEvent::Violation {
                            commitment_id: vid,
                            drawdown_percent: d,
                            timestamp: t,
                        } && vid@ == id@ && d == draw && t == now
                    } else {
                        &&& Self::updated_at(
                            *old(self),
                            *final(self),
                            i,
                            new_value,
                            CommitmentStatus::Active,
                        )
                        &&& *final(nft) == *old(nft)
                        &&& final(self).events == old(self).events
                    }
                },
            },
    {
        if self.admin.is_none() {
            return Err(CoreError::NotInitialized);
        }
        if self.pausable.is_paused() {
            return Err(CoreError::Paused);
        }
        if self.admin != Some(caller) {
            return Err(CoreError::Unauthorized);
        }
        let i = match self.find(id) {
            Some(i) => i,
            None => {
                return Err(CoreError::CommitmentNotFound);
            },
        };
        if self.commitments[i].status != CommitmentStatus::Active {
            return Err(CoreError::InvalidState);
        }
        let draw = drawdown_percent(self.commitments[i].amount, new_value);
        let token_id = self.commitments[i].nft_token_id;
        let ghost nft_pre = *nft;
        if draw > self.commitments[i].rules.max_loss_percent {
            match nft.unlock(self.address, token_id, now) {
                Ok(()) => {},
                Err(e) => {
                    return Err(CoreError::Nft(e));
                },
            }
            let event_id = id.clone();
            self.set_state(i, new_value, CommitmentStatus::Violated);
            self.events.push(
                CoreEvent::Violation { commitment_id: event_id, drawdown_percent: draw, timestamp: now },
            );
            proof {
                assert(self.events@.drop_last() =~= old(self).events@);
            }
        } else {
            self.set_state(i, new_value, CommitmentStatus::Active);
        }
        proof {
            if coupled(old(self), &nft_pre) {
                assert forall|j: int| 0 <= j < self.commitments@.len() implies {
                    &&& (#[trigger] self.commitments@[j]).nft_token_id == j
                    &&& nft.tokens@[j].metadata.commitment_id@ == self.commitments@[j].commitment_id@
                    &&& nft.tokens@[j].metadata.expires_at == self.commitments@[j].expires_at
                    &&& nft.tokens@[j].is_active <==> self.commitments@[j].status
                        == CommitmentStatus::Active
                } by {
                    assert(old(self).commitments@[j].nft_token_id == j);
                }
            }
        }
        Ok(())
    }

    /// The error `settle` returns, or `None` where it succeeds.
    pub open spec fn settle_error(
        &self,
        nft: &CommitmentNftContract,
        assets: &AssetBook,
        id: Seq<char>,
        now: u64,
    ) -> Option<CoreError> {
        if self.admin.is_none() {
            Some(CoreError::NotInitialized)
        } else if self.pausable.paused {
            Some(CoreError::Paused)
        } else if !self.has_commitment(id) {
            Some(CoreError::CommitmentNotFound)
        } else if self.commitment(id).status == CommitmentStatus::Settled {
            Some(CoreError::AlreadySettled)
        } else if self.commitment(id).status != CommitmentStatus::Active {
            Some(CoreError::InvalidState)
        } else if now < self.commitment(id).expires_at {
            Some(CoreError::NotExpired)
        } else if nft.settle_error(self.address, self.commitment(id).nft_token_id, now) is Some {
            Some(
                CoreError::Nft(
                    nft.settle_error(self.address, self.commitment(id).nft_token_id, now)->Some_0,
                ),
            )
        } else if !can_transfer(
            assets,
            self.commitment(id).asset,
            self.address,
            self.commitment(id).owner,
            settle_payout(self.commitment(id).current_value as int),
        ) {
            Some(CoreError::AssetTransferFailed)
        } else {
            None
        }
    }

    /// Ends an expired commitment: pays its current value back to the owner
    /// out of custody and unlocks its token.
    pub fn settle(
        &mut self,
        nft: &mut CommitmentNftContract,
        assets: &mut AssetBook,
        id: &String,
        now: u64,
    ) -> (r: Result<(), CoreError>)
        requires
            old(self).wf(),
            old(nft).wf(),
            old(assets).wf(),
        ensures
            final(self).wf(),
            final(nft).wf(),
            final(assets).wf(),
            coupled(old(self), old(nft)) ==> coupled(final(self), final(nft)),
            match old(self).settle_error(old(nft), old(assets), id@, now) {
                Some(e) => {
                    &&& r == Err::<(), CoreError>(e)
                    &&& *final(self) == *old(self)
                    &&& *final(nft) == *old(nft)
                    &&& *final(assets) == *old(assets)
                },
                None => {
                    let i = old(self).index_of(id@)->Some_0;
                    let c = old(self).commitments@[i];
                    let payout = settle_payout(c.current_value as int);
                    &&& r is Ok
                    &&& Self::updated_at(
                        *old(self),
                        *final(self),
                        i,
                        c.current_value,
                        CommitmentStatus::Settled,
                    )
                    &&& CommitmentNftContract::settle_post(
                        *old(nft),
                        old(self).address,
                        c.nft_token_id,
                        now,
                        Ok(()),
                        *final(nft),
                    )
                    &&& transferred(old(assets), final(assets), c.asset, old(self).address, c.owner, payout)
                    &&& final(self).events@.len() == old(self).events@.len() + 1
                    &&& final(self).events@.drop_last() == old(self).events@
                    &&& final(self).events@.last() matches CoreEvent::Settled {
                        commitment_id: sid,
                        returned: p,
                        timestamp: t,
                    } && sid@ == id@ && p == payout && t == now
                },
            },
    {
        if self.admin.is_none() {
            return Err(CoreError::NotInitialized);
        }
        if self.pausable.is_paused() {
            return Err(CoreError::Paused);
        }
        let i = match self.find(id) {
            Some(i) => i,
            None => {
                return Err(CoreError::CommitmentNotFound);
            },
        };
        if self.commitments[i].status == CommitmentStatus::Settled {
            return Err(CoreError::AlreadySettled);
        }
        if self.commitments[i].status != CommitmentStatus::Active {
            return Err(CoreError::InvalidState);
        }
        if now < self.commitments[i].expires_at {
            return Err(CoreError::NotExpired);
        }
        let token_id = self.commitments[i].nft_token_id;
        match nft.settle_check(self.address, token_id, now) {
            Some(e) => {
                return Err(CoreError::Nft(e));
            },
            None => {},
        }
        let value = self.commitments[i].current_value;
        let payout: i128 = if value > 0 {
            value
        } else {
            0
        };
        match assets.transfer(self.commitments[i].asset, self.address, self.commitments[i].owner, payout) {
            Ok(()) => {},
            Err(_) => {
                return Err(CoreError::AssetTransferFailed);
            },
        }
        let ghost nft_pre = *nft;
        match nft.settle(self.address, token_id, now) {
            Ok(()) => {},
            Err(e) => {
                proof {
                    assert(false);
                }
                return Err(CoreError::Nft(e));
            },
        }
        let event_id = id.clone();
        self.set_state(i, value, CommitmentStatus::Settled);
        self.events.push(
            CoreEvent::Settled { commitment_id: event_id, returned: payout, timestamp: now },
        );
        proof {
            assert(self.events@.drop_last() =~= old(self).events@);
            if coupled(old(self), &nft_pre) {
                assert forall|j: int| 0 <= j < self.commitments@.len() implies {
                    &&& (#[trigger] self.commitments@[j]).nft_token_id == j
                    &&& nft.tokens@[j].metadata.commitment_id@ == self.commitments@[j].commitment_id@
                    &&& nft.tokens@[j].metadata.expires_at == self.commitments@[j].expires_at
                    &&& nft.tokens@[j].is_active <==> self.commitments@[j].status
                        == CommitmentStatus::Active
                } by {
                    assert(old(self).commitments@[j].nft_token_id == j);
                }
            }
        }
        Ok(())
    }

    /// The error `early_exit` returns, or `None` where it succeeds.
    pub open spec fn exit_error(
        &self,
        nft: &CommitmentNftContract,
        assets: &AssetBook,
        id: Seq<char>,
        caller: Address,
    ) -> Option<CoreError> {
        if self.admin.is_none() {
            Some(CoreError::NotInitialized)
        } else if self.pausable.paused {
            Some(CoreError::Paused)
        } else if !self.has_commitment(id) {
            Some(CoreError::CommitmentNotFound)
        } else if self.commitment(id).status != CommitmentStatus::Active {
            Some(CoreError::InvalidState)
        } else if self.commitment(id).owner != caller {
            Some(CoreError::Unauthorized)
        } else if nft.release_error(self.address, self.commitment(id).nft_token_id) is Some {
            Some(
                CoreError::Nft(
                    nft.release_error(self.address, self.commitment(id).nft_token_id)->Some_0,
                ),
            )
        } else if !can_transfer(
            assets,
            self.commitment(id).asset,
            self.address,
            self.commitment(id).owner,
            exit_payout(
                self.commitment(id).current_value as int,
                self.commitment(id).rules.early_exit_penalty as int,
            ),
        ) {
            Some(CoreError::AssetTransferFailed)
        } else {
            None
        }
    }

    /// The owner ends an active commitment before its term. The penalty
    /// share of the current value stays in custody; the rest is paid back.
    pub fn early_exit(
        &mut self,
        nft: &mut CommitmentNftContract,
        assets: &mut AssetBook,
        id: &String,
        caller: Address,
        now: u64,
    ) -> (r: Result<(), CoreError>)
        requires
            old(self).wf(),
            old(nft).wf(),
            old(assets).wf(),
        ensures
            final(self).wf(),
            final(nft).wf(),
            final(assets).wf(),
            coupled(old(self), old(nft)) ==> coupled(final(self), final(nft)),
            match old(self).exit_error(old(nft), old(assets), id@, caller) {
                Some(e) => {
                    &&& r == Err::<(), CoreError>(e)
                    &&& *final(self) == *old(self)
                    &&& *final(nft) == *old(nft)
                    &&& *final(assets) == *old(assets)
                },
                None => {
                    let i = old(self).index_of(id@)->Some_0;
                    let c = old(self).commitments@[i];
                    let penalty = penalty_spec(
                        c.current_value as int,
                        c.rules.early_exit_penalty as int,
                    );
                    let payout = exit_payout(
                        c.current_value as int,
                        c.rules.early_exit_penalty as int,
                    );
                    &&& r is Ok
                    &&& Self::updated_at(
                        *old(self),
                        *final(self),
                        i,
                        c.current_value,
                        CommitmentStatus::EarlyExit,
                    )
                    &&& CommitmentNftContract::released(*old(nft), c.nft_token_id, now, *final(nft))
                    &&& transferred(old(assets), final(assets), c.asset, old(self).address, c.owner, payout)
                    &&& final(self).events@.len() == old(self).events@.len() + 1
                    &&& final(self).events@.drop_last() == old(self).events@
                    &&& final(self).events@.last() matches CoreEvent::EarlyExit {
                        commitment_id: eid,
                        penalty: p,
                        returned: q,
                        timestamp: t,
                    } && eid@ == id@ && p == penalty && q == payout && t == now
                },
            },
    {
        if self.admin.is_none() {
            return Err(CoreError::NotInitialized);
        }
        if self.pausable.is_paused() {
            return Err(CoreError::Paused);
        }
        let i = match self.find(id) {
            Some(i) => i,
            None => {
                return Err(CoreError::CommitmentNotFound);
            },
        };
        if self.commitments[i].status != CommitmentStatus::Active {
            return Err(CoreError::InvalidState);
        }
        if self.commitments[i].owner != caller {
            return Err(CoreError::Unauthorized);
        }
        let token_id = self.commitments[i].nft_token_id;
        match nft.release_check(self.address, token_id) {
            Some(e) => {
                return Err(CoreError::Nft(e));
            },
            None => {},
        }
        let value = self.commitments[i].current_value;
        let penalty = exit_penalty(value, self.commitments[i].rules.early_exit_penalty);
        let payout: i128 = if value > 0 && value - penalty > 0 {
            value - penalty
        } else {
            0
        };
        match assets.transfer(self.commitments[i].asset, self.address, self.commitments[i].owner, payout) {
            Ok(()) => {},
            Err(_) => {
                return Err(CoreError::AssetTransferFailed);
            },
        }
        let ghost nft_pre = *nft;
        match nft.unlock(self.address, token_id, now) {
            Ok(()) => {},
            Err(e) => {
                proof {
                    assert(false);
                }
                return Err(CoreError::Nft(e));
            },
        }
        let event_id = id.clone();
        self.set_state(i, value, CommitmentStatus::EarlyExit);
        self.events.push(
            CoreEvent::EarlyExit {
                commitment_id: event_id,
                penalty,
                returned: payout,
                timestamp: now,
            },
        );
        proof {
            assert(self.events@.drop_last() =~= old(self).events@);
            if coupled(old(self), &nft_pre) {
                assert forall|j: int| 0 <= j < self.commitments@.len() implies {
                    &&& (#[trigger] self.commitments@[j]).nft_token_id == j
                    &&& nft.tokens@[j].metadata.commitment_id@ == self.commitments@[j].commitment_id@
                    &&& nft.tokens@[j].metadata.expires_at == self.commitments@[j].expires_at
                    &&& nft.tokens@[j].is_active <==> self.commitments@[j].status
                        == CommitmentStatus::Active
                } by {
                    assert(old(self).commitments@[j].nft_token_id == j);
                }
            }
        }
        Ok(())
    }
}


/// The commitments of `cs` created within `[from, to]`, in creation order.
pub open spec fn created_between(cs: Seq<Commitment>, from: u64, to: u64) -> Seq<Commitment>
    decreases cs.len(),
{
    if cs.len() == 0 {
        Seq::empty()
    } else if from <= cs.last().created_at <= to {
        created_between(cs.drop_last(), from, to).push(cs.last())
    } else {
        created_between(cs.drop_last(), from, to)
    }
}

/// Creation times never decrease along `cs`.
pub open spec fn created_in_order(cs: Seq<Commitment>) -> bool {
    forall|i: int, j: int|
        0 <= i <= j < cs.len() ==> (#[trigger] cs[i]).created_at <= (#[trigger] cs[j]).created_at
}

proof fn lemma_created_between_members(cs: Seq<Commitment>, from: u64, to: u64)
    ensures
        created_between(cs, from, to).len() <= cs.len(),
        forall|k: int|
            0 <= k < created_between(cs, from, to).len() ==> exists|m: int|
                0 <= m < cs.len() && cs[m] == #[trigger] created_between(cs, from, to)[k],
        forall|k: int|
            0 <= k < created_between(cs, from, to).len() ==> from <= (
            #[trigger] created_between(cs, from, to)[k]).created_at <= to,
    decreases cs.len(),
{
    if cs.len() > 0 {
        let p = cs.drop_last();
        lemma_created_between_members(p, from, to);
        let f = created_between(cs, from, to);
        let fp = created_between(p, from, to);
        assert forall|k: int| 0 <= k < f.len() implies exists|m: int|
            0 <= m < cs.len() && cs[m] == #[trigger] f[k] by {
            if k < fp.len() {
                let m = choose|m: int| 0 <= m < p.len() && p[m] == fp[k];
                assert(cs[m] == p[m]);
            } else {
                assert(cs[cs.len() - 1] == f[k]);
            }
        }
        assert forall|k: int| 0 <= k < f.len() implies from <= (#[trigger] f[k]).created_at
            <= to by {
            if k < fp.len() {
                assert(f[k] == fp[k]);
            }
        }
    }
}

/// Ordering of a time-range query: where creation times never go
/// backwards, the commitments it returns are in ascending `created_at`
/// (ties in creation order, the order of `cs`) and all lie in the range.
pub proof fn lemma_created_between_ordered(cs: Seq<Commitment>, from: u64, to: u64)
    requires
        created_in_order(cs),
    ensures
        created_in_order(created_between(cs, from, to)),
        forall|k: int|
            0 <= k < created_between(cs, from, to).len() ==> from <= (
            #[trigger] created_between(cs, from, to)[k]).created_at <= to,
    decreases cs.len(),
{
    lemma_created_between_members(cs, from, to);
    if cs.len() > 0 {
        let p = cs.drop_last();
        assert(created_in_order(p)) by {
            assert forall|i: int, j: int| 0 <= i <= j < p.len() implies (#[trigger] p[i]).created_at
                <= (#[trigger] p[j]).created_at by {
                assert(p[i] == cs[i] && p[j] == cs[j]);
            }
        }
        lemma_created_between_ordered(p, from, to);
        lemma_created_between_members(p, from, to);
        let f = created_between(cs, from, to);
        let fp = created_between(p, from, to);
        if from <= cs.last().created_at <= to {
            assert forall|i: int, j: int| 0 <= i <= j < f.len() implies (#[trigger] f[i]).created_at
                <= (#[trigger] f[j]).created_at by {
                if j == f.len() - 1 && i < j {
                    let m = choose|m: int| 0 <= m < p.len() && p[m] == #[trigger] fp[i];
                    assert(cs[m] == p[m]);
                    assert(cs[m].created_at <= cs[cs.len() - 1].created_at);
                } else if i < f.len() - 1 {
                    assert(f[i] == fp[i]);
                    assert(f[j] == fp[j]);
                }
            }
        }
    }
}

/// The ids of `cs`, in order.
pub open spec fn ids_of(cs: Seq<Commitment>) -> Seq<String> {
    cs.map_values(|c: Commitment| c.commitment_id)
}

impl CommitmentCoreContract {
    /// Ids of the commitments created between `from_ts` and `to_ts`
    /// inclusive; empty where the range is inverted.
    pub fn get_commitments_created_between(&self, from_ts: u64, to_ts: u64) -> (r: Vec<String>)
        requires
            self.wf(),
        ensures
            r@ == ids_of(created_between(self.commitments@, from_ts, to_ts)),
            created_in_order(created_between(self.commitments@, from_ts, to_ts)),
            from_ts > to_ts ==> r@.len() == 0,
    {
        let mut out: Vec<String> = Vec::new();
        let mut i: usize = 0;
        while i < self.commitments.len()
            invariant
                i <= self.commitments@.len(),
                out@ == ids_of(
                    created_between(self.commitments@.subrange(0, i as int), from_ts, to_ts),
                ),
                from_ts > to_ts ==> out@.len() == 0,
            decreases self.commitments@.len() - i,
        {
            assert(self.commitments@.subrange(0, i + 1).drop_last() =~= self.commitments@.subrange(
                0,
                i as int,
            ));
            let t = self.commitments[i].created_at;
            if from_ts <= t && t <= to_ts {
                out.push(self.commitments[i].commitment_id.clone());
                proof {
                    let prev = created_between(self.commitments@.subrange(0, i as int), from_ts, to_ts);
                    assert(ids_of(prev.push(self.commitments@[i as int])) =~= ids_of(prev).push(
                        self.commitments@[i as int].commitment_id,
                    ));
                }
            }
            i = i + 1;
        }
        assert(self.commitments@.subrange(0, i as int) =~= self.commitments@);
        proof {
            lemma_created_between_ordered(self.commitments@, from_ts, to_ts);
        }
        out
    }

    /// Admin-only: refuses mutating operations until `unpause`.
    pub fn pause(&mut self, caller: Address) -> (r: Result<(), CoreError>)
        requires
            old(self).wf(),
        ensures
            final(self).wf(),
            r == if old(self).admin.is_none() {
                Err::<(), CoreError>(CoreError::NotInitialized)
            } else if old(self).admin != Some(caller) {
                Err(CoreError::Unauthorized)
            } else if old(self).pausable.paused {
                Err(CoreError::AlreadyPaused)
            } else {
                Ok(())
            },
            r is Err ==> *final(self) == *old(self),
            r is Ok ==> final(self).pausable.paused && final(self).admin == old(self).admin
                && final(self).address == old(self).address && final(self).nft_contract == old(
                self,
            ).nft_contract && final(self).commitments == old(self).commitments
                && final(self).events@ == old(self).events@.push(CoreEvent::Pause),
    {
        if self.admin.is_none() {
            return Err(CoreError::NotInitialized);
        }
        if self.admin != Some(caller) {
            return Err(CoreError::Unauthorized);
        }
        match self.pausable.pause() {
            Ok(()) => {
                self.events.push(CoreEvent::Pause);
                Ok(())
            },
            Err(_) => Err(CoreError::AlreadyPaused),
        }
    }

    /// Admin-only: accepts mutating operations again.
    pub fn unpause(&mut self, caller: Address) -> (r: Result<(), CoreError>)
        requires
            old(self).wf(),
        ensures
            final(self).wf(),
            r == if old(self).admin.is_none() {
                Err::<(), CoreError>(CoreError::NotInitialized)
            } else if old(self).admin != Some(caller) {
                Err(CoreError::Unauthorized)
            } else if !old(self).pausable.paused {
                Err(CoreError::NotPaused)
            } else {
                Ok(())
            },
            r is Err ==> *final(self) == *old(self),
            r is Ok ==> !final(self).pausable.paused && final(self).admin == old(self).admin
                && final(self).address == old(self).address && final(self).nft_contract == old(
                self,
            ).nft_contract && final(self).commitments == old(self).commitments
                && final(self).events@ == old(self).events@.push(CoreEvent::Unpause),
    {
        if self.admin.is_none() {
            return Err(CoreError::NotInitialized);
        }
        if self.admin != Some(caller) {
            return Err(CoreError::Unauthorized);
        }
        match self.pausable.unpause() {
            Ok(()) => {
                self.events.push(CoreEvent::Unpause);
                Ok(())
            },
            Err(_) => Err(CoreError::NotPaused),
        }
    }
}


/// A registry change that moves tokens between holders (a transfer) keeps
/// the ledger and the registry coupled: coupling does not depend on owners.
pub proof fn lemma_coupling_ignores_owners(
    core: &CommitmentCoreContract,
    before: &CommitmentNftContract,
    after: &CommitmentNftContract,
)
    requires
        coupled(core, before),
        after.core_contract == before.core_contract,
        after.tokens@.len() == before.tokens@.len(),
        forall|i: int|
            0 <= i < before.tokens@.len() ==> (#[trigger] after.tokens@[i]).metadata
                == before.tokens@[i].metadata && after.tokens@[i].is_active
                == before.tokens@[i].is_active,
    ensures
        coupled(core, after),
{
    assert forall|i: int| 0 <= i < core.commitments@.len() implies {
        &&& (#[trigger] core.commitments@[i]).nft_token_id == i
        &&& after.tokens@[i].metadata.commitment_id@ == core.commitments@[i].commitment_id@
        &&& after.tokens@[i].metadata.expires_at == core.commitments@[i].expires_at
        &&& after.tokens@[i].is_active <==> core.commitments@[i].status == CommitmentStatus::Active
    } by {
        assert(after.tokens@[i].metadata == before.tokens@[i].metadata);
    }
}

/// A ledger with no commitments and a registry with no tokens that names
/// the ledger as its core contract start out coupled.
pub proof fn lemma_fresh_pair_coupled(core: &CommitmentCoreContract, nft: &CommitmentNftContract)
    requires
        core.commitments@.len() == 0,
        nft.tokens@.len() == 0,
        nft.core_contract == Some(core.address),
    ensures
        coupled(core, nft),
{
}


/// Commitment ids are unique within the ledger.
pub proof fn lemma_commitment_ids_unique(core: &CommitmentCoreContract, i: int, j: int)
    requires
        core.wf(),
        0 <= i < core.commitments@.len(),
        0 <= j < core.commitments@.len(),
        i != j,
    ensures
        core.commitments@[i].commitment_id@ != core.commitments@[j].commitment_id@,
{
    lemma_commitment_ids_distinct(i as nat, j as nat);
}

} // verus!
