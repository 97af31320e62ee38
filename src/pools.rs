use vstd::prelude::*;
use vstd::set_lib::lemma_len_subset;

use crate::types::{contains_string, string_seq_view, BoxRarity, Reward, RewardModel};

verus! {

/// A pool of identical native-currency rewards.
#[derive(Clone, Debug)]
pub struct NearPoolKind {
    pub amount: u128,
    pub capacity: u64,
    pub available: u64,
}

/// A pool of tokens of one non-fungible token contract.
#[derive(Clone, Debug)]
pub struct NonFungibleTokenPoolKind {
    pub contract_id: String,
    /// Every token ever added, in order of arrival.
    pub tokens: Vec<String>,
    /// The tokens that can still be drawn; the first one is drawn next.
    pub available_tokens: Vec<String>,
}

#[derive(Clone, Debug)]
pub enum PoolKind {
    Near(NearPoolKind),
    NonFungibleToken(NonFungibleTokenPoolKind),
}

/// A bucket of same-rarity reward units of one kind.
#[derive(Clone, Debug)]
pub struct Pool {
    pub id: u32,
    pub rarity: BoxRarity,
    pub kind: PoolKind,
}

/// Why a pool refused a change.
#[derive(Clone, Copy, Debug, PartialEq, Eq, Structural)]
pub enum PoolError {
    /// The pool holds amounts and cannot take tokens.
    NotATokenPool,
    /// The token was added to this pool before.
    DuplicateToken,
    /// The reward cannot have been drawn from this pool.
    RewardMismatch,
}

pub enum PoolKindModel {
    Amount { amount: u128, capacity: u64, available: u64 },
    Tokens { contract: Seq<char>, tokens: Seq<Seq<char>>, available: Seq<Seq<char>> },
}

pub struct PoolModel {
    pub id: u32,
    pub rarity: BoxRarity,
    pub kind: PoolKindModel,
}

impl View for Pool {
    type V = PoolModel;

    open spec fn view(&self) -> PoolModel {
        PoolModel {
            id: self.id,
            rarity: self.rarity,
            kind: match self.kind {
                PoolKind::Near(k) => PoolKindModel::Amount {
                    amount: k.amount,
                    capacity: k.capacity,
                    available: k.available,
                },
                PoolKind::NonFungibleToken(k) => PoolKindModel::Tokens {
                    contract: k.contract_id@,
                    tokens: string_seq_view(k.tokens@),
                    available: string_seq_view(k.available_tokens@),
                },
            },
        }
    }
}

impl PoolModel {
    /// Units that can still be drawn.
    pub open spec fn availability(self) -> nat {
        match self.kind {
            PoolKindModel::Amount { available, .. } => available as nat,
            PoolKindModel::Tokens { available, .. } => available.len(),
        }
    }

    /// Units the pool was filled with.
    pub open spec fn capacity(self) -> nat {
        match self.kind {
            PoolKindModel::Amount { capacity, .. } => capacity as nat,
            PoolKindModel::Tokens { tokens, .. } => tokens.len(),
        }
    }

    /// Amount pools never hold more than their capacity; a token pool holds
    /// distinct tokens and can only offer tokens it was given.
    pub open spec fn wf(self) -> bool {
        match self.kind {
            PoolKindModel::Amount { capacity, available, .. } => available <= capacity,
            PoolKindModel::Tokens { tokens, available, .. } => {
                &&& tokens.no_duplicates()
                &&& available.no_duplicates()
                &&& forall|i: int| 0 <= i < available.len() ==> tokens.contains(#[trigger] available[i])
            },
        }
    }

    /// The pool after one unit is drawn, and the reward drawn: an amount pool
    /// loses one unit; a token pool hands out its first available token.
    pub open spec fn take_unit(self) -> (PoolModel, RewardModel) {
        match self.kind {
            PoolKindModel::Amount { amount, capacity, available } => (
                PoolModel {
                    kind: PoolKindModel::Amount { amount, capacity, available: (available - 1) as u64 },
                    ..self
                },
                RewardModel::Amount { amount },
            ),
            PoolKindModel::Tokens { contract, tokens, available } => (
                PoolModel {
                    kind: PoolKindModel::Tokens {
                        contract,
                        tokens,
                        available: available.subrange(1, available.len() as int),
                    },
                    ..self
                },
                RewardModel::Token { contract, token: available[0] },
            ),
        }
    }

    /// Whether the reward can go back into the pool: same kind and amount or
    /// contract, room below the capacity, and a token the pool owns but does
    /// not offer now.
    pub open spec fn accepts(self, reward: RewardModel) -> bool {
        match (self.kind, reward) {
            (PoolKindModel::Amount { amount, capacity, available }, RewardModel::Amount { amount: a }) => {
                a == amount && available < capacity
            },
            (PoolKindModel::Tokens { contract, tokens, available }, RewardModel::Token { contract: c, token }) => {
                &&& c == contract
                &&& tokens.contains(token)
                &&& !available.contains(token)
            },
            _ => false,
        }
    }

    /// The pool with the reward's unit back: one more amount unit, or the token
    /// in front of the available ones.
    pub open spec fn put_unit(self, reward: RewardModel) -> PoolModel {
        match (self.kind, reward) {
            (PoolKindModel::Amount { amount, capacity, available }, RewardModel::Amount { .. }) => PoolModel {
                kind: PoolKindModel::Amount { amount, capacity, available: (available + 1) as u64 },
                ..self
            },
            (PoolKindModel::Tokens { contract, tokens, available }, RewardModel::Token { token, .. }) => PoolModel {
                kind: PoolKindModel::Tokens { contract, tokens, available: seq![token] + available },
                ..self
            },
            _ => self,
        }
    }

    /// A token pool with one more token, offered last.
    pub open spec fn add_token(self, token: Seq<char>) -> PoolModel {
        match self.kind {
            PoolKindModel::Tokens { contract, tokens, available } => PoolModel {
                kind: PoolKindModel::Tokens { contract, tokens: tokens.push(token), available: available.push(token) },
                ..self
            },
            _ => self,
        }
    }

    pub open spec fn is_token_pool(self) -> bool {
        self.kind is Tokens
    }

    pub open spec fn holds_token(self, token: Seq<char>) -> bool {
        match self.kind {
            PoolKindModel::Tokens { tokens, .. } => tokens.contains(token),
            _ => false,
        }
    }
}

/// A well-formed pool never offers more units than it was filled with.
pub proof fn lemma_pool_bounds(p: PoolModel)
    requires
        p.wf(),
    ensures
        p.availability() <= p.capacity(),
{
    match p.kind {
        PoolKindModel::Amount { .. } => {},
        PoolKindModel::Tokens { tokens, available, .. } => {
            available.unique_seq_to_set();
            tokens.lemma_cardinality_of_set();
            assert(available.to_set().subset_of(tokens.to_set())) by {
                assert forall|t| available.to_set().contains(t) implies tokens.to_set().contains(t) by {
                    let i = choose|i: int| 0 <= i < available.len() && available[i] == t;
                    assert(tokens.contains(available[i]));
                }
            }
            lemma_len_subset(available.to_set(), tokens.to_set());
        },
    }
}


/// Drawing a unit keeps a pool well formed.
pub proof fn lemma_take_unit_wf(p: PoolModel)
    requires
        p.wf(),
        p.availability() > 0,
    ensures
        p.take_unit().0.wf(),
        p.take_unit().0.id == p.id,
        p.take_unit().0.rarity == p.rarity,
        p.take_unit().0.capacity() == p.capacity(),
        p.take_unit().0.availability() + 1 == p.availability(),
        p.take_unit().0.accepts(p.take_unit().1),
{
    match p.kind {
        PoolKindModel::Amount { .. } => {},
        PoolKindModel::Tokens { tokens, available, .. } => {
            let na = available.subrange(1, available.len() as int);
            assert forall|i: int| 0 <= i < na.len() implies tokens.contains(#[trigger] na[i]) by {
                assert(na[i] == available[i + 1]);
            }
            assert forall|i: int, j: int| 0 <= i < na.len() && 0 <= j < na.len() && i != j implies na[i] != na[j] by {
                assert(na[i] == available[i + 1]);
                assert(na[j] == available[j + 1]);
            }
            assert(tokens.contains(available[0]));
            assert(!na.contains(available[0])) by {
                if na.contains(available[0]) {
                    let i = choose|i: int| 0 <= i < na.len() && na[i] == available[0];
                    assert(na[i] == available[i + 1]);
                }
            }
        },
    }
}

/// Putting back a unit the pool accepts keeps it well formed.
pub proof fn lemma_put_unit_wf(p: PoolModel, reward: RewardModel)
    requires
        p.wf(),
        p.accepts(reward),
    ensures
        p.put_unit(reward).wf(),
        p.put_unit(reward).id == p.id,
        p.put_unit(reward).rarity == p.rarity,
        p.put_unit(reward).capacity() == p.capacity(),
        p.put_unit(reward).availability() == p.availability() + 1,
{
    match (p.kind, reward) {
        (PoolKindModel::Tokens { tokens, available, .. }, RewardModel::Token { token, .. }) => {
            let na = seq![token] + available;
            assert forall|i: int| 0 <= i < na.len() implies tokens.contains(#[trigger] na[i]) by {
                if i > 0 {
                    assert(na[i] == available[i - 1]);
                }
            }
            assert forall|i: int, j: int| 0 <= i < na.len() && 0 <= j < na.len() && i != j implies na[i] != na[j] by {
                if i > 0 {
                    assert(na[i] == available[i - 1]);
                }
                if j > 0 {
                    assert(na[j] == available[j - 1]);
                }
            }
        },
        _ => {},
    }
}

impl Pool {
    pub fn create_near_pool(id: u32, rarity: BoxRarity, amount: u128, capacity: u64) -> (r: Pool)
        ensures
            r@ == (PoolModel {
                id,
                rarity,
                kind: PoolKindModel::Amount { amount, capacity, available: capacity },
            }),
    {
        Pool { id, rarity, kind: PoolKind::Near(NearPoolKind::new(amount, capacity)) }
    }

    pub fn create_nft_pool(id: u32, rarity: BoxRarity, contract_id: String) -> (r: Pool)
        ensures
            r@ == (PoolModel {
                id,
                rarity,
                kind: PoolKindModel::Tokens {
                    contract: contract_id@,
                    tokens: Seq::empty(),
                    available: Seq::empty(),
                },
            }),
    {
        let k = NonFungibleTokenPoolKind::new(contract_id);
        assert(k.tokens@ =~= Seq::<String>::empty());
        assert(k.available_tokens@ =~= Seq::<String>::empty());
        let r = Pool { id, rarity, kind: PoolKind::NonFungibleToken(k) };
        assert(string_seq_view(Seq::<String>::empty()) =~= Seq::<Seq<char>>::empty());
        r
    }

    pub fn is_empty(&self) -> (r: bool)
        ensures
            r == (self@.availability() == 0),
    {
        match &self.kind {
            PoolKind::Near(k) => k.available == 0,
            PoolKind::NonFungibleToken(k) => k.available_tokens.len() == 0,
        }
    }

    pub fn availability(&self) -> (r: u64)
        ensures
            r as nat == self@.availability(),
    {
        match &self.kind {
            PoolKind::Near(k) => k.available,
            PoolKind::NonFungibleToken(k) => k.available_tokens.len() as u64,
        }
    }

    pub fn capacity(&self) -> (r: u64)
        ensures
            r as nat == self@.capacity(),
    {
        match &self.kind {
            PoolKind::Near(k) => k.capacity,
            PoolKind::NonFungibleToken(k) => k.tokens.len() as u64,
        }
    }

    /// The token contract of a token pool.
    pub fn token_contract(&self) -> (r: Option<String>)
        ensures
            match self@.kind {
                PoolKindModel::Tokens { contract, .. } => r is Some && r->0@ == contract,
                _ => r is None,
            },
    {
        match &self.kind {
            PoolKind::Near(_) => None,
            PoolKind::NonFungibleToken(k) => Some(k.contract_id.clone()),
        }
    }

    /// Adds a token to a token pool; refuses an amount pool and a token the
    /// pool already holds.
    pub fn add_nft_token(&mut self, token_id: String) -> (r: Result<(), PoolError>)
        ensures
            !old(self)@.is_token_pool() ==> r == Err::<(), _>(PoolError::NotATokenPool),
            old(self)@.is_token_pool() && old(self)@.holds_token(token_id@) ==> r == Err::<(), _>(
                PoolError::DuplicateToken,
            ),
            r is Ok <==> old(self)@.is_token_pool() && !old(self)@.holds_token(token_id@),
            r is Ok ==> final(self)@ == old(self)@.add_token(token_id@),
            r is Err ==> final(self)@ == old(self)@,
            old(self)@.wf() ==> final(self)@.wf(),
    {
        match &mut self.kind {
            PoolKind::Near(_) => Err(PoolError::NotATokenPool),
            PoolKind::NonFungibleToken(k) => {
                let ghost old_tokens = string_seq_view(k.tokens@);
                let ghost old_avail = string_seq_view(k.available_tokens@);
                k.add_token(token_id)?;
                proof {
                    if old(self)@.wf() {
                        assert forall|i: int| 0 <= i < old_avail.len() implies old_avail[i] != token_id@ by {
                            assert(old_tokens.contains(old_avail[i]));
                        }
                        assert(old_tokens.push(token_id@).no_duplicates());
                        assert(old_avail.push(token_id@).no_duplicates());
                        let na = old_avail.push(token_id@);
                        let nt = old_tokens.push(token_id@);
                        assert forall|i: int| 0 <= i < na.len() implies nt.contains(#[trigger] na[i]) by {
                            if i < old_avail.len() {
                                assert(old_tokens.contains(old_avail[i]));
                                let j = choose|j: int| 0 <= j < old_tokens.len() && old_tokens[j] == old_avail[i];
                                assert(nt[j] == na[i]);
                            } else {
                                assert(nt[old_tokens.len() as int] == na[i]);
                            }
                        }
                    }
                }
                Ok(())
            },
        }
    }

    /// Draws one unit: an amount pool gives its unit amount, a token pool its
    /// first available token.
    pub fn take_reward_from_pool(&mut self) -> (r: Reward)
        requires
            old(self)@.availability() > 0,
        ensures
            (final(self)@, r@) == old(self)@.take_unit(),
            old(self)@.wf() ==> final(self)@.wf(),
    {
        proof {
            if old(self)@.wf() {
                lemma_take_unit_wf(old(self)@);
            }
        }
        match &mut self.kind {
            PoolKind::Near(k) => {
                let amount = k.decrease_available();
                Reward::Near { amount }
            },
            PoolKind::NonFungibleToken(k) => {
                let token_id = k.take_first_token();
                Reward::NonFungibleToken { contract_id: k.contract_id.clone(), token_id }
            },
        }
    }

    /// Returns a drawn unit to the pool; refuses a reward the pool cannot
    /// have given out.
    pub fn put_reward_to_pool(&mut self, reward: Reward) -> (r: Result<(), PoolError>)
        ensures
            r is Ok <==> old(self)@.accepts(reward@),
            r is Ok ==> final(self)@ == old(self)@.put_unit(reward@),
            r is Err ==> r == Err::<(), _>(PoolError::RewardMismatch) && final(self)@ == old(self)@,
            old(self)@.wf() ==> final(self)@.wf(),
    {
        proof {
            if old(self)@.wf() && old(self)@.accepts(reward@) {
                lemma_put_unit_wf(old(self)@, reward@);
            }
        }
        match (&mut self.kind, reward) {
            (PoolKind::Near(k), Reward::Near { amount }) => {
                if amount != k.amount || k.available >= k.capacity {
                    return Err(PoolError::RewardMismatch);
                }
                k.increase_available();
                Ok(())
            },
            (PoolKind::NonFungibleToken(k), Reward::NonFungibleToken { contract_id, token_id }) => {
                if !(contract_id == k.contract_id) {
                    return Err(PoolError::RewardMismatch);
                }
                k.put_token_back(token_id)
            },
            _ => Err(PoolError::RewardMismatch),
        }
    }
}

impl NearPoolKind {
    /// A full pool of `capacity` rewards of `amount` each.
    pub fn new(amount: u128, capacity: u64) -> (r: NearPoolKind)
        ensures
            r.amount == amount,
            r.capacity == capacity,
            r.available == capacity,
    {
        NearPoolKind { amount, capacity, available: capacity }
    }

    /// Hands out one unit and returns its amount.
    pub fn decrease_available(&mut self) -> (r: u128)
        requires
            old(self).available > 0,
        ensures
            r == old(self).amount,
            final(self).available == old(self).available - 1,
            final(self).amount == old(self).amount,
            final(self).capacity == old(self).capacity,
    {
        self.available = self.available - 1;
        self.amount
    }

    /// Takes one unit back.
    pub fn increase_available(&mut self)
        requires
            old(self).available < old(self).capacity,
        ensures
            final(self).available == old(self).available + 1,
            final(self).amount == old(self).amount,
            final(self).capacity == old(self).capacity,
    {
        self.available = self.available + 1;
    }
}

impl NonFungibleTokenPoolKind {
    /// An empty pool for the tokens of `contract_id`.
    pub fn new(contract_id: String) -> (r: NonFungibleTokenPoolKind)
        ensures
            r.contract_id@ == contract_id@,
            r.tokens@.len() == 0,
            r.available_tokens@.len() == 0,
    {
        NonFungibleTokenPoolKind { contract_id, tokens: Vec::new(), available_tokens: Vec::new() }
    }

    /// Adds a token, offered last; refuses a token the pool already holds.
    pub fn add_token(&mut self, token_id: String) -> (r: Result<(), PoolError>)
        ensures
            r is Ok <==> !string_seq_view(old(self).tokens@).contains(token_id@),
            r is Err ==> r == Err::<(), _>(PoolError::DuplicateToken) && *final(self) == *old(self),
            r is Ok ==> final(self).contract_id == old(self).contract_id && string_seq_view(final(self).tokens@)
                == string_seq_view(old(self).tokens@).push(token_id@) && string_seq_view(final(self).available_tokens@)
                == string_seq_view(old(self).available_tokens@).push(token_id@),
    {
        if contains_string(&self.tokens, &token_id) {
            return Err(PoolError::DuplicateToken);
        }
        let ghost old_tokens = string_seq_view(self.tokens@);
        let ghost old_avail = string_seq_view(self.available_tokens@);
        self.tokens.push(token_id.clone());
        self.available_tokens.push(token_id);
        assert(string_seq_view(self.tokens@) =~= old_tokens.push(token_id@));
        assert(string_seq_view(self.available_tokens@) =~= old_avail.push(token_id@));
        Ok(())
    }

    /// Hands out the first available token.
    pub fn take_first_token(&mut self) -> (r: String)
        requires
            old(self).available_tokens@.len() > 0,
        ensures
            r@ == string_seq_view(old(self).available_tokens@)[0],
            string_seq_view(final(self).available_tokens@) == string_seq_view(old(self).available_tokens@).subrange(
                1,
                old(self).available_tokens@.len() as int,
            ),
            final(self).contract_id == old(self).contract_id,
            final(self).tokens == old(self).tokens,
    {
        let ghost old_avail = string_seq_view(self.available_tokens@);
        let token_id = self.available_tokens.remove(0);
        assert(string_seq_view(self.available_tokens@) =~= old_avail.subrange(1, old_avail.len() as int));
        token_id
    }

    /// Takes a token back, in front of the available ones; refuses a token
    /// the pool does not hold or offers already.
    pub fn put_token_back(&mut self, token_id: String) -> (r: Result<(), PoolError>)
        ensures
            r is Ok <==> string_seq_view(old(self).tokens@).contains(token_id@) && !string_seq_view(
                old(self).available_tokens@,
            ).contains(token_id@),
            r is Err ==> r == Err::<(), _>(PoolError::RewardMismatch) && *final(self) == *old(self),
            r is Ok ==> final(self).contract_id == old(self).contract_id && final(self).tokens == old(self).tokens
                && string_seq_view(final(self).available_tokens@) == seq![token_id@] + string_seq_view(
                old(self).available_tokens@,
            ),
    {
        if !contains_string(&self.tokens, &token_id) || contains_string(&self.available_tokens, &token_id) {
            return Err(PoolError::RewardMismatch);
        }
        let ghost old_avail = string_seq_view(self.available_tokens@);
        let ghost t = token_id@;
        self.available_tokens.insert(0, token_id);
        assert(string_seq_view(self.available_tokens@) =~= seq![t] + old_avail);
        Ok(())
    }
}

} // verus!
