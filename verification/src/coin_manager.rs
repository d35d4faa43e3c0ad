use vstd::prelude::*;
use vstd::string::StringExecFns;

use crate::text::{dec_digits, u32_to_dec};

verus! {

/// The two kinds of consumable resource that gate statement execution.
#[derive(Debug, Clone, Copy, PartialEq, Eq, Structural, Hash)]
pub enum CoinType {
    Variable,
    Function,
}

/// Error raised by the ledger when a spend outruns the balance.
#[derive(Debug, Clone, Copy, PartialEq, Eq, Structural)]
pub enum CoinError {
    InsufficientFunds { required: u32, available: u32, coin_type: CoinType },
    InvalidCoinType,
}

/// The display name of a coin category.
pub open spec fn coin_type_name(coin_type: CoinType) -> Seq<char> {
    match coin_type {
        CoinType::Variable => "Variable"@,
        CoinType::Function => "Function"@,
    }
}

impl CoinType {
    pub fn name(&self) -> (r: &'static str)
        ensures
            r@ == coin_type_name(*self),
    {
        match self {
            CoinType::Variable => "Variable",
            CoinType::Function => "Function",
        }
    }
}

/// The text a ledger error renders to.
pub open spec fn coin_error_message(e: CoinError) -> Seq<char> {
    match e {
        CoinError::InsufficientFunds { required, available, coin_type } => "Insufficient "@
            + coin_type_name(coin_type) + " coins (need "@ + dec_digits(required as nat)
            + ", have "@ + dec_digits(available as nat) + ")"@,
        CoinError::InvalidCoinType => "Invalid coin type"@,
    }
}

impl CoinError {
    pub fn message(&self) -> (s: String)
        ensures
            s@ == coin_error_message(*self),
    {
        match self {
            CoinError::InsufficientFunds { required, available, coin_type } => {
                let need = u32_to_dec(*required);
                let have = u32_to_dec(*available);
                "Insufficient ".to_owned().concat(coin_type.name()).concat(
                    " coins (need ",
                ).concat(need.as_str()).concat(", have ").concat(have.as_str()).concat(")")
            },
            CoinError::InvalidCoinType => "Invalid coin type".to_owned(),
        }
    }
}

/// A grant of coins, produced by the quest tracker and applied to the ledger.
#[derive(Debug, Clone, Copy, PartialEq, Eq, Structural)]
pub struct CoinReward {
    pub coin_type: CoinType,
    pub amount: u32,
}

/// Total amount of the rewards that credit one category.
pub open spec fn reward_sum(rewards: Seq<CoinReward>, coin_type: CoinType) -> int
    decreases rewards.len(),
{
    if rewards.len() == 0 {
        0
    } else {
        (if rewards[0].coin_type == coin_type {
            rewards[0].amount as int
        } else {
            0
        }) + reward_sum(rewards.drop_first(), coin_type)
    }
}

/// The ledger: one balance per coin category.
#[derive(Debug, Clone, Copy)]
pub struct CoinManager {
    variable_coins: u32,
    function_coins: u32,
}

impl CoinManager {
    /// The balance currently held for a category.
    pub closed spec fn spec_balance(self, coin_type: CoinType) -> u32 {
        match coin_type {
            CoinType::Variable => self.variable_coins,
            CoinType::Function => self.function_coins,
        }
    }

    pub fn new() -> (r: Self)
        ensures
            r.spec_balance(CoinType::Variable) == 10,
            r.spec_balance(CoinType::Function) == 3,
    {
        Self { variable_coins: 10, function_coins: 3 }
    }

    pub fn with_balances(variable_coins: u32, function_coins: u32) -> (r: Self)
        ensures
            r.spec_balance(CoinType::Variable) == variable_coins,
            r.spec_balance(CoinType::Function) == function_coins,
    {
        Self { variable_coins, function_coins }
    }

    pub fn spend_var_coin(&mut self) -> (r: Result<(), CoinError>)
        ensures
            spend_post(*old(self), *final(self), r, CoinType::Variable, 1),
    {
        self.spend_coins(CoinType::Variable, 1)
    }

    pub fn spend_func_coin(&mut self) -> (r: Result<(), CoinError>)
        ensures
            spend_post(*old(self), *final(self), r, CoinType::Function, 1),
    {
        self.spend_coins(CoinType::Function, 1)
    }

    fn spend_coins(&mut self, coin_type: CoinType, amt: u32) -> (r: Result<(), CoinError>)
        ensures
            spend_post(*old(self), *final(self), r, coin_type, amt),
    {
        let current_balance = self.get_balance(coin_type);

        if current_balance < amt {
            return Err(CoinError::InsufficientFunds {
                required: amt,
                available: current_balance,
                coin_type,
            });
        }

        match coin_type {
            CoinType::Variable => {
                self.variable_coins = current_balance - amt;
            }
            CoinType::Function => {
                self.function_coins = current_balance - amt;
            }
        }
        Ok(())
    }

    pub fn get_balance(&self, coin_type: CoinType) -> (r: u32)
        ensures
            r == self.spec_balance(coin_type),
    {
        match coin_type {
            CoinType::Variable => self.variable_coins,
            CoinType::Function => self.function_coins,
        }
    }

    /// A credit must not overflow the stored balance.
    pub fn add_coins(&mut self, amt: u32, coin_type: CoinType)
        requires
            old(self).spec_balance(coin_type) + amt <= u32::MAX,
        ensures
            final(self).spec_balance(coin_type) == old(self).spec_balance(coin_type) + amt,
            forall|c: CoinType|
                c != coin_type ==> final(self).spec_balance(c) == old(self).spec_balance(c),
    {
        let current_balance = self.get_balance(coin_type);
        match coin_type {
            CoinType::Variable => {
                self.variable_coins = current_balance + amt;
            }
            CoinType::Function => {
                self.function_coins = current_balance + amt;
            }
        }
    }

    pub fn get_all_balances(&self) -> (r: Vec<(CoinType, u32)>)
        ensures
            r@ =~= seq![
                (CoinType::Variable, self.spec_balance(CoinType::Variable)),
                (CoinType::Function, self.spec_balance(CoinType::Function)),
            ],
    {
        let mut r: Vec<(CoinType, u32)> = Vec::new();
        r.push((CoinType::Variable, self.variable_coins));
        r.push((CoinType::Function, self.function_coins));
        r
    }

    /// Credits every reward in order, left to right.
    pub fn apply_rewards(&mut self, rewards: &[CoinReward])
        requires
            old(self).spec_balance(CoinType::Variable) + reward_sum(rewards@, CoinType::Variable)
                <= u32::MAX,
            old(self).spec_balance(CoinType::Function) + reward_sum(rewards@, CoinType::Function)
                <= u32::MAX,
        ensures
            forall|c: CoinType|
                #[trigger] final(self).spec_balance(c) == old(self).spec_balance(c) + reward_sum(
                    rewards@,
                    c,
                ),
    {
        proof {
            lemma_reward_sum_nonneg(rewards@, CoinType::Variable);
            lemma_reward_sum_nonneg(rewards@, CoinType::Function);
            assert(rewards@.skip(0) =~= rewards@);
        }
        let n = rewards.len();
        let mut i: usize = 0;
        while i < n
            invariant
                i <= n,
                n == rewards@.len(),
                forall|c: CoinType|
                    #[trigger] self.spec_balance(c) + reward_sum(rewards@.skip(i as int), c)
                        == old(self).spec_balance(c) + reward_sum(rewards@, c),
                self.spec_balance(CoinType::Variable) + reward_sum(
                    rewards@.skip(i as int),
                    CoinType::Variable,
                ) <= u32::MAX,
                self.spec_balance(CoinType::Function) + reward_sum(
                    rewards@.skip(i as int),
                    CoinType::Function,
                ) <= u32::MAX,
            decreases n - i,
        {
            let reward = rewards[i];
            proof {
                assert(rewards@.skip(i as int)[0] == reward);
                assert(rewards@.skip(i as int).drop_first() =~= rewards@.skip(i + 1));
                lemma_reward_sum_nonneg(rewards@.skip(i + 1), CoinType::Variable);
                lemma_reward_sum_nonneg(rewards@.skip(i + 1), CoinType::Function);
            }
            self.add_coins(reward.amount, reward.coin_type);
            i = i + 1;
        }
        proof {
            assert(rewards@.skip(n as int) =~= Seq::<CoinReward>::empty());
        }
    }
}

impl Default for CoinManager {
    fn default() -> (r: Self)
        ensures
            r.spec_balance(CoinType::Variable) == 10,
            r.spec_balance(CoinType::Function) == 3,
    {
        Self::new()
    }
}

/// What a spend does: debit when the balance covers the amount, otherwise
/// report the shortfall and leave the ledger as it was.
pub open spec fn spend_post(
    m0: CoinManager,
    m1: CoinManager,
    r: Result<(), CoinError>,
    coin_type: CoinType,
    amt: u32,
) -> bool {
    if m0.spec_balance(coin_type) < amt {
        &&& r == Err::<(), CoinError>(
            CoinError::InsufficientFunds {
                required: amt,
                available: m0.spec_balance(coin_type),
                coin_type,
            },
        )
        &&& m1 == m0
    } else {
        &&& r == Ok::<(), CoinError>(())
        &&& m1.spec_balance(coin_type) == m0.spec_balance(coin_type) - amt
        &&& forall|c: CoinType| c != coin_type ==> m1.spec_balance(c) == m0.spec_balance(c)
    }
}

pub proof fn lemma_reward_sum_nonneg(rewards: Seq<CoinReward>, coin_type: CoinType)
    ensures
        reward_sum(rewards, coin_type) >= 0,
    decreases rewards.len(),
{
    if rewards.len() > 0 {
        lemma_reward_sum_nonneg(rewards.drop_first(), coin_type);
    }
}

/// Reading a balance has no effect on the ledger: two reads with no
/// spend or credit between them return the same amount.
pub proof fn lemma_get_balance_idempotent(m: CoinManager, coin_type: CoinType, r1: u32, r2: u32)
    requires
        r1 == m.spec_balance(coin_type),
        r2 == m.spec_balance(coin_type),
    ensures
        r1 == r2,
{
}

} // verus!
