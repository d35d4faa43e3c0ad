use vstd::prelude::*;
use vstd::string::StringExecFns;

use crate::ast::{expr_view, Expr, ExprV};
use crate::coin_manager::{coin_error_message, CoinError, CoinManager, CoinType};

verus! {

/// One entry of the cost list a statement must pay before it runs.
#[derive(Debug, Clone, Copy, PartialEq, Eq, Structural)]
pub struct CoinCost {
    pub coin_type: CoinType,
    pub amt: u32,
}

/// The single error type the validate/spend/evaluate pipeline surfaces.
#[derive(Debug)]
pub enum ValidationError {
    CoinError(CoinError),
    ParseError(String),
    RuntimeError(String),
}

/// Mathematical image of a pipeline error.
pub enum ValidationErrorV {
    CoinError(CoinError),
    ParseError(Seq<char>),
    RuntimeError(Seq<char>),
}

impl View for ValidationError {
    type V = ValidationErrorV;

    open spec fn view(&self) -> ValidationErrorV {
        match self {
            ValidationError::CoinError(e) => ValidationErrorV::CoinError(*e),
            ValidationError::ParseError(s) => ValidationErrorV::ParseError(s@),
            ValidationError::RuntimeError(s) => ValidationErrorV::RuntimeError(s@),
        }
    }
}

impl From<CoinError> for ValidationError {
    fn from(value: CoinError) -> (r: Self) {
        ValidationError::CoinError(value)
    }
}

impl vstd::std_specs::convert::FromSpecImpl<CoinError> for ValidationError {
    open spec fn obeys_from_spec() -> bool {
        true
    }

    open spec fn from_spec(v: CoinError) -> Self {
        ValidationError::CoinError(v)
    }
}

/// The text a pipeline error renders to.
pub open spec fn validation_error_message(e: ValidationErrorV) -> Seq<char> {
    match e {
        ValidationErrorV::CoinError(c) => "Coin err: "@ + coin_error_message(c),
        ValidationErrorV::ParseError(s) => "Parse err: "@ + s,
        ValidationErrorV::RuntimeError(s) => "Runtime err: "@ + s,
    }
}

impl ValidationError {
    pub fn message(&self) -> (s: String)
        ensures
            s@ == validation_error_message(self@),
    {
        match self {
            ValidationError::CoinError(c) => {
                let inner = c.message();
                "Coin err: ".to_owned().concat(inner.as_str())
            },
            ValidationError::ParseError(s) => "Parse err: ".to_owned().concat(s.as_str()),
            ValidationError::RuntimeError(s) => "Runtime err: ".to_owned().concat(s.as_str()),
        }
    }
}

/// The cost list of one expression: fixed per-node tariffs in traversal
/// order, never merged.
pub open spec fn costs_of(e: ExprV) -> Seq<CoinCost>
    decreases e,
{
    match e {
        ExprV::Number(_) => Seq::empty(),
        ExprV::Var(_) => Seq::empty(),
        ExprV::StrLit(_) => Seq::empty(),
        ExprV::FnDef(_, _, body) => seq![CoinCost { coin_type: CoinType::Function, amt: 1 }]
            + costs_of(*body),
        ExprV::Binary(l, _, r) => costs_of(*l) + costs_of(*r),
        ExprV::Let(_, v) => seq![CoinCost { coin_type: CoinType::Variable, amt: 1 }] + costs_of(*v),
        ExprV::FnCall(_, args) => costs_of_seq(args),
        ExprV::Block(stmts) => costs_of_seq(stmts),
        ExprV::Print(inner) => costs_of(*inner),
    }
}

pub open spec fn costs_of_seq(es: Seq<ExprV>) -> Seq<CoinCost>
    decreases es,
{
    if es.len() == 0 {
        Seq::empty()
    } else {
        costs_of(es[0]) + costs_of_seq(es.drop_first())
    }
}

/// The first cost entry, in order, that the current balances cannot
/// cover, each entry checked independently against the same snapshot.
pub open spec fn first_insufficient(costs: Seq<CoinCost>, m: CoinManager) -> Option<CoinCost>
    decreases costs.len(),
{
    if costs.len() == 0 {
        None
    } else if m.spec_balance(costs[0].coin_type) < costs[0].amt {
        Some(costs[0])
    } else {
        first_insufficient(costs.drop_first(), m)
    }
}

/// Total amount of the cost entries that charge one category.
pub open spec fn cost_sum(costs: Seq<CoinCost>, coin_type: CoinType) -> int
    decreases costs.len(),
{
    if costs.len() == 0 {
        0
    } else {
        cost_sum(costs.drop_last(), coin_type) + (if costs.last().coin_type == coin_type {
            costs.last().amt as int
        } else {
            0
        })
    }
}

/// Whether any cost entry charges the category, even with amount zero.
pub open spec fn has_cost_of(costs: Seq<CoinCost>, coin_type: CoinType) -> bool {
    exists|i: int| 0 <= i < costs.len() && (#[trigger] costs[i]).coin_type == coin_type
}

/// Read-only pre-execution pass over an expression: computes its cost
/// list and holds it against the ledger.
pub struct ResourceValidator {
    coin_manager: CoinManager,
}

impl ResourceValidator {
    /// The ledger the validator reads and the orchestrator spends from.
    pub closed spec fn spec_coin_manager(self) -> CoinManager {
        self.coin_manager
    }

    pub fn new(coin_manager: CoinManager) -> (r: Self)
        ensures
            r.spec_coin_manager() == coin_manager,
    {
        Self { coin_manager }
    }

    /// Computes the cost list, then checks each entry independently
    /// against the current balances: no merging of same-category entries
    /// and no decrementing between checks. Nothing is spent here.
    pub fn validate_expression(&self, expr: &Expr) -> (r: Result<Vec<CoinCost>, ValidationError>)
        ensures
            match r {
                Ok(costs) => {
                    &&& costs@ == costs_of(expr_view(*expr))
                    &&& first_insufficient(costs_of(expr_view(*expr)), self.spec_coin_manager())
                        is None
                },
                Err(e) => {
                    &&& first_insufficient(costs_of(expr_view(*expr)), self.spec_coin_manager())
                        matches Some(c)
                    &&& e@ == ValidationErrorV::CoinError(
                        CoinError::InsufficientFunds {
                            required: c.amt,
                            available: self.spec_coin_manager().spec_balance(c.coin_type),
                            coin_type: c.coin_type,
                        },
                    )
                },
            },
    {
        let costs = self.calculate_costs(expr);

        let n = costs.len();
        let mut i: usize = 0;
        proof {
            assert(costs@.skip(0) =~= costs@);
        }
        while i < n
            invariant
                i <= n,
                n == costs@.len(),
                costs@ == costs_of(expr_view(*expr)),
                first_insufficient(costs@, self.coin_manager) == first_insufficient(
                    costs@.skip(i as int),
                    self.coin_manager,
                ),
                forall|j: int|
                    0 <= j < i ==> self.coin_manager.spec_balance((#[trigger] costs@[j]).coin_type)
                        >= costs@[j].amt,
            decreases n - i,
        {
            let cost = costs[i];
            let available = self.coin_manager.get_balance(cost.coin_type);
            proof {
                assert(costs@.skip(i as int)[0] == cost);
                assert(costs@.skip(i as int).drop_first() =~= costs@.skip(i + 1));
            }
            if available < cost.amt {
                return Err(ValidationError::CoinError(CoinError::InsufficientFunds {
                    required: cost.amt,
                    available,
                    coin_type: cost.coin_type,
                }));
            }
            i = i + 1;
        }
        proof {
            assert(costs@.skip(n as int) =~= Seq::<CoinCost>::empty());
        }
        Ok(costs)
    }

    /// A structural walk with fixed per-node tariffs: the cost list of
    /// the expression, in traversal order.
    pub fn calculate_costs(&self, expr: &Expr) -> (r: Vec<CoinCost>)
        ensures
            r@ == costs_of(expr_view(*expr)),
        decreases *expr,
    {
        match expr {
            Expr::Number(_) => Vec::new(),
            Expr::Var(_) => Vec::new(),
            Expr::String(_) => Vec::new(),
            Expr::FnDef(_, _, body) => {
                let mut costs: Vec<CoinCost> = Vec::new();
                costs.push(CoinCost { coin_type: CoinType::Function, amt: 1 });
                let mut rest = self.calculate_costs(body);
                costs.append(&mut rest);
                proof {
                    assert(costs@ =~= costs_of(expr_view(*expr)));
                }
                costs
            },
            Expr::Binary(lhs, _, rhs) => {
                let mut costs = self.calculate_costs(lhs);
                let mut rest = self.calculate_costs(rhs);
                costs.append(&mut rest);
                costs
            },
            Expr::Let(_, val) => {
                let mut costs: Vec<CoinCost> = Vec::new();
                costs.push(CoinCost { coin_type: CoinType::Variable, amt: 1 });
                let mut rest = self.calculate_costs(val);
                costs.append(&mut rest);
                proof {
                    assert(costs@ =~= costs_of(expr_view(*expr)));
                }
                costs
            },
            Expr::FnCall(_, args) => self.calculate_costs_seq(args),
            Expr::Block(stmts) => self.calculate_costs_seq(stmts),
            Expr::Print(inner) => self.calculate_costs(inner),
        }
    }

    /// Concatenation of the cost lists of the expressions, in order.
    fn calculate_costs_seq(&self, es: &Vec<Expr>) -> (r: Vec<CoinCost>)
        ensures
            r@ == costs_of_seq(crate::ast::exprs_view(es@)),
        decreases *es,
    {
        let mut costs: Vec<CoinCost> = Vec::new();
        let n = es.len();
        let mut i: usize = 0;
        proof {
            crate::ast::lemma_exprs_view(es@);
        }
        while i < n
            invariant
                i <= n,
                n == es@.len(),
                crate::ast::exprs_view(es@).len() == n,
                forall|j: int|
                    0 <= j < n ==> #[trigger] crate::ast::exprs_view(es@)[j] == expr_view(es@[j]),
                costs@ == costs_of_prefix(crate::ast::exprs_view(es@), i as int),
            decreases n - i,
        {
            proof {
                assert(decreases_to!(*es => es@[i as int]));
            }
            let mut rest = self.calculate_costs(&es[i]);
            costs.append(&mut rest);
            i = i + 1;
        }
        proof {
            lemma_costs_of_prefix_all(crate::ast::exprs_view(es@));
        }
        costs
    }

    pub fn coin_manager(&self) -> (r: &CoinManager)
        ensures
            *r == self.spec_coin_manager(),
    {
        &self.coin_manager
    }

    pub fn coin_manager_mut(&mut self) -> (r: &mut CoinManager)
        ensures
            *r == old(self).spec_coin_manager(),
            final(self).spec_coin_manager() == *final(r),
    {
        &mut self.coin_manager
    }

    /// Folds same-category entries together: one summed entry per
    /// category that occurs in the input, Variable before Function.
    pub fn merge_costs(&self, costs: Vec<CoinCost>) -> (r: Vec<CoinCost>)
        requires
            cost_sum(costs@, CoinType::Variable) <= u32::MAX,
            cost_sum(costs@, CoinType::Function) <= u32::MAX,
        ensures
            r@ == merged_costs(costs@),
    {
        let mut var_sum: u32 = 0;
        let mut func_sum: u32 = 0;
        let mut var_seen: bool = false;
        let mut func_seen: bool = false;
        let n = costs.len();
        let mut i: usize = 0;
        while i < n
            invariant
                i <= n,
                n == costs@.len(),
                cost_sum(costs@, CoinType::Variable) <= u32::MAX,
                cost_sum(costs@, CoinType::Function) <= u32::MAX,
                var_sum == cost_sum(costs@.take(i as int), CoinType::Variable),
                func_sum == cost_sum(costs@.take(i as int), CoinType::Function),
                var_seen == has_cost_of(costs@.take(i as int), CoinType::Variable),
                func_seen == has_cost_of(costs@.take(i as int), CoinType::Function),
            decreases n - i,
        {
            let cost = costs[i];
            proof {
                assert(costs@.take(i + 1).drop_last() =~= costs@.take(i as int));
                assert(costs@.take(i + 1).last() == cost);
                lemma_cost_sum_prefix_le(costs@, i + 1, CoinType::Variable);
                lemma_cost_sum_prefix_le(costs@, i + 1, CoinType::Function);
                lemma_cost_sum_prefix_nonneg(costs@.take(i as int), CoinType::Variable);
                lemma_cost_sum_prefix_nonneg(costs@.take(i as int), CoinType::Function);
                lemma_has_cost_push(costs@.take(i as int), cost, CoinType::Variable);
                lemma_has_cost_push(costs@.take(i as int), cost, CoinType::Function);
            }
            match cost.coin_type {
                CoinType::Variable => {
                    var_sum = var_sum + cost.amt;
                    var_seen = true;
                },
                CoinType::Function => {
                    func_sum = func_sum + cost.amt;
                    func_seen = true;
                },
            }
            i = i + 1;
        }
        proof {
            assert(costs@.take(n as int) =~= costs@);
        }
        let mut r: Vec<CoinCost> = Vec::new();
        if var_seen {
            r.push(CoinCost { coin_type: CoinType::Variable, amt: var_sum });
        }
        if func_seen {
            r.push(CoinCost { coin_type: CoinType::Function, amt: func_sum });
        }
        proof {
            assert(r@ =~= merged_costs(costs@));
        }
        r
    }
}

/// The merged form of a cost list: per occurring category, one entry
/// with the summed amount, Variable first.
pub open spec fn merged_costs(costs: Seq<CoinCost>) -> Seq<CoinCost> {
    (if has_cost_of(costs, CoinType::Variable) {
        seq![
            CoinCost {
                coin_type: CoinType::Variable,
                amt: cost_sum(costs, CoinType::Variable) as u32,
            },
        ]
    } else {
        Seq::empty()
    }) + (if has_cost_of(costs, CoinType::Function) {
        seq![
            CoinCost {
                coin_type: CoinType::Function,
                amt: cost_sum(costs, CoinType::Function) as u32,
            },
        ]
    } else {
        Seq::empty()
    })
}

/// The costs of the first i expressions, concatenated.
pub open spec fn costs_of_prefix(es: Seq<ExprV>, i: int) -> Seq<CoinCost>
    decreases i,
{
    if i <= 0 {
        Seq::empty()
    } else {
        costs_of_prefix(es, i - 1) + costs_of(es[i - 1])
    }
}

proof fn lemma_costs_of_prefix(es: Seq<ExprV>, i: int)
    requires
        0 <= i <= es.len(),
    ensures
        costs_of_prefix(es, i) + costs_of_seq(es.skip(i)) == costs_of_seq(es),
    decreases i,
{
    if i == 0 {
        assert(es.skip(0) =~= es);
        assert(costs_of_prefix(es, 0) + costs_of_seq(es) =~= costs_of_seq(es));
    } else {
        lemma_costs_of_prefix(es, i - 1);
        assert(es.skip(i - 1)[0] == es[i - 1]);
        assert(es.skip(i - 1).drop_first() =~= es.skip(i));
        assert(costs_of_seq(es.skip(i - 1)) == costs_of(es[i - 1]) + costs_of_seq(es.skip(i)));
        assert(costs_of_prefix(es, i) + costs_of_seq(es.skip(i)) =~= costs_of_prefix(es, i - 1)
            + costs_of_seq(es.skip(i - 1)));
    }
}

proof fn lemma_costs_of_prefix_all(es: Seq<ExprV>)
    ensures
        costs_of_prefix(es, es.len() as int) == costs_of_seq(es),
{
    lemma_costs_of_prefix(es, es.len() as int);
    assert(es.skip(es.len() as int) =~= Seq::<ExprV>::empty());
    assert(costs_of_prefix(es, es.len() as int) + costs_of_seq(es.skip(es.len() as int)) =~= costs_of_prefix(
        es,
        es.len() as int,
    ));
}

proof fn lemma_cost_sum_prefix_nonneg(costs: Seq<CoinCost>, coin_type: CoinType)
    ensures
        cost_sum(costs, coin_type) >= 0,
    decreases costs.len(),
{
    if costs.len() > 0 {
        lemma_cost_sum_prefix_nonneg(costs.drop_last(), coin_type);
    }
}

/// The sum over a prefix never exceeds the sum over the whole list.
proof fn lemma_cost_sum_prefix_le(costs: Seq<CoinCost>, i: int, coin_type: CoinType)
    requires
        0 <= i <= costs.len(),
    ensures
        cost_sum(costs.take(i), coin_type) <= cost_sum(costs, coin_type),
    decreases costs.len() - i,
{
    if i == costs.len() {
        assert(costs.take(i) =~= costs);
    } else {
        lemma_cost_sum_prefix_le(costs, i + 1, coin_type);
        assert(costs.take(i + 1).drop_last() =~= costs.take(i));
        assert(costs.take(i + 1).last() == costs[i]);
    }
}

proof fn lemma_has_cost_push(prefix: Seq<CoinCost>, c: CoinCost, coin_type: CoinType)
    ensures
        has_cost_of(prefix.push(c), coin_type) == (has_cost_of(prefix, coin_type) || c.coin_type
            == coin_type),
{
    if has_cost_of(prefix, coin_type) {
        let i = choose|i: int|
            0 <= i < prefix.len() && (#[trigger] prefix[i]).coin_type == coin_type;
        assert(prefix.push(c)[i] == prefix[i]);
    }
    if c.coin_type == coin_type {
        assert(prefix.push(c)[prefix.len() as int] == c);
    }
    if has_cost_of(prefix.push(c), coin_type) {
        let i = choose|i: int|
            0 <= i < prefix.push(c).len() && (#[trigger] prefix.push(c)[i]).coin_type == coin_type;
        if i < prefix.len() {
            assert(prefix[i] == prefix.push(c)[i]);
        }
    }
}

} // verus!
