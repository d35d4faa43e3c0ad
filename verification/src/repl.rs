use vstd::prelude::*;
use vstd::string::StringExecFns;

use crate::ast::{expr_view, exprs_view, lemma_exprs_view, Expr, ExprV};
use crate::coin_manager::{CoinManager, CoinType};
use crate::env::Env;
use crate::quest_system::{
    starter_added, ExecutionContext, ExecutionContextV, FunctionDefV, QuestManager, QuestManagerV,
};
use crate::resource_validator::ResourceValidator;
use crate::text::{dec_digits, usize_to_dec};

verus! {

/// One interactive session: the ledger behind its validator, the
/// environment, the quest tracker and the record of what ran. The
/// read/print loop around it lives outside the library.
pub struct Repl {
    pub validator: ResourceValidator,
    pub env: Env,
    pub quest_manager: QuestManager,
    pub execution_context: ExecutionContext,
}

/// The expression-kind lines one statement adds to the session record.
pub open spec fn track_s(e: ExprV) -> Seq<Seq<char>>
    decreases e,
{
    match e {
        ExprV::Number(_) => seq!["Number"@],
        ExprV::StrLit(_) => seq!["String"@],
        ExprV::Binary(_, _, _) => seq!["Binary"@, "arithmetic"@],
        ExprV::Let(name, _) => seq!["Let("@ + name + ")"@],
        ExprV::FnDef(name, params, _) => seq![
            "FnDef("@ + name + ", "@ + dec_digits(params.len()) + " params)"@,
        ],
        ExprV::FnCall(name, args) => seq![
            "FnCall("@ + name + ", "@ + dec_digits(args.len()) + " args)"@,
        ],
        ExprV::Var(name) => seq!["Var("@ + name + ")"@],
        ExprV::Print(inner) => seq!["Print"@] + track_s(*inner),
        ExprV::Block(stmts) => seq!["Block"@] + track_seq_s(stmts),
    }
}

pub open spec fn track_seq_s(es: Seq<ExprV>) -> Seq<Seq<char>>
    decreases es,
{
    if es.len() == 0 {
        Seq::empty()
    } else {
        track_s(es[0]) + track_seq_s(es.drop_first())
    }
}

/// The text stored for a recorded function body.
pub open spec fn recorded_body() -> Seq<char> {
    "<function body>"@
}

/// What one statement's outcome adds to the session record of
/// variables and functions.
pub open spec fn update_ctx_s(
    e: ExprV,
    envm: Map<Seq<char>, ExprV>,
    result: i64,
    c: ExecutionContextV,
) -> ExecutionContextV {
    match e {
        ExprV::Let(name, _) => ExecutionContextV {
            variables: c.variables.insert(name, result),
            ..c
        },
        ExprV::FnDef(name, params, _) => ExecutionContextV {
            functions: c.functions.insert(
                name,
                FunctionDefV { name, params, body: recorded_body() },
            ),
            ..c
        },
        ExprV::Block(stmts) => update_block_s(stmts, envm, c),
        _ => c,
    }
}

/// Block statements are recorded from the session environment: a let
/// whose name now holds a number records that number; a definition
/// records its parameters.
pub open spec fn update_block_s(
    stmts: Seq<ExprV>,
    envm: Map<Seq<char>, ExprV>,
    c: ExecutionContextV,
) -> ExecutionContextV
    decreases stmts.len(),
{
    if stmts.len() == 0 {
        c
    } else {
        update_block_s(stmts.drop_first(), envm, update_block_one_s(stmts[0], envm, c))
    }
}

pub open spec fn update_block_one_s(
    e: ExprV,
    envm: Map<Seq<char>, ExprV>,
    c: ExecutionContextV,
) -> ExecutionContextV {
    match e {
        ExprV::Let(name, _) => {
            if envm.dom().contains(name) && envm[name] is Number {
                ExecutionContextV {
                    variables: c.variables.insert(name, envm[name]->Number_0),
                    ..c
                }
            } else {
                c
            }
        },
        ExprV::FnDef(name, params, _) => ExecutionContextV {
            functions: c.functions.insert(
                name,
                FunctionDefV { name, params, body: recorded_body() },
            ),
            ..c
        },
        _ => c,
    }
}

impl Repl {
    pub fn new() -> (r: Self)
        ensures
            r.validator.spec_coin_manager().spec_balance(CoinType::Variable) == 10,
            r.validator.spec_coin_manager().spec_balance(CoinType::Function) == 3,
            r.env@ == Map::<Seq<char>, ExprV>::empty(),
            r.quest_manager@ == starter_added(
                QuestManagerV { active: Seq::empty(), completed: Seq::empty() },
            ),
            r.execution_context.wf(),
            r.execution_context@.variables == Map::<Seq<char>, i64>::empty(),
            r.execution_context@.functions == Map::<
                Seq<char>,
                crate::quest_system::FunctionDefV,
            >::empty(),
            r.execution_context@.output == Seq::<Seq<char>>::empty(),
            r.execution_context@.executed == Seq::<Seq<char>>::empty(),
    {
        let coin_manager = CoinManager::new();
        let validator = ResourceValidator::new(coin_manager);
        let mut quest_manager = QuestManager::new();
        quest_manager.initialize_starter_quests();

        Self {
            validator,
            env: Env::new(),
            quest_manager,
            execution_context: ExecutionContext::new(),
        }
    }

    /// Records which kinds of expression one statement exercises.
    pub fn track_expression_execution(&mut self, expr: &Expr)
        requires
            old(self).execution_context.wf(),
        ensures
            final(self).execution_context.wf(),
            final(self).execution_context@ == (ExecutionContextV {
                executed: old(self).execution_context@.executed + track_s(expr_view(*expr)),
                ..old(self).execution_context@
            }),
            final(self).validator == old(self).validator,
            final(self).env == old(self).env,
            final(self).quest_manager == old(self).quest_manager,
        decreases *expr, 0int,
    {
        let ghost c0 = self.execution_context@;
        match expr {
            Expr::Number(_) => {
                self.execution_context.record_expression("Number".to_owned());
                proof {
                    assert(c0.executed.push("Number"@) =~= c0.executed + seq!["Number"@]);
                }
            },
            Expr::String(_) => {
                self.execution_context.record_expression("String".to_owned());
                proof {
                    assert(c0.executed.push("String"@) =~= c0.executed + seq!["String"@]);
                }
            },
            Expr::Binary(_, _, _) => {
                self.execution_context.record_expression("Binary".to_owned());
                self.execution_context.record_expression("arithmetic".to_owned());
                proof {
                    assert(c0.executed.push("Binary"@).push("arithmetic"@) =~= c0.executed
                        + seq!["Binary"@, "arithmetic"@]);
                }
            },
            Expr::Let(name, _) => {
                let line = "Let(".to_owned().concat(name.as_str()).concat(")");
                proof {
                    assert(c0.executed.push("Let("@ + name@ + ")"@) =~= c0.executed + seq![
                        "Let("@ + name@ + ")"@,
                    ]);
                }
                self.execution_context.record_expression(line);
            },
            Expr::FnDef(name, params, _) => {
                let count = usize_to_dec(params.len());
                let line = "FnDef(".to_owned().concat(name.as_str()).concat(", ").concat(
                    count.as_str(),
                ).concat(" params)");
                proof {
                    assert(params.deep_view().len() == params@.len());
                    assert(c0.executed.push(
                        "FnDef("@ + name@ + ", "@ + dec_digits(params.deep_view().len())
                            + " params)"@,
                    ) =~= c0.executed + seq![
                        "FnDef("@ + name@ + ", "@ + dec_digits(params.deep_view().len())
                            + " params)"@,
                    ]);
                }
                self.execution_context.record_expression(line);
            },
            Expr::FnCall(name, args) => {
                let count = usize_to_dec(args.len());
                let line = "FnCall(".to_owned().concat(name.as_str()).concat(", ").concat(
                    count.as_str(),
                ).concat(" args)");
                proof {
                    lemma_exprs_view(args@);
                    assert(c0.executed.push(
                        "FnCall("@ + name@ + ", "@ + dec_digits(exprs_view(args@).len())
                            + " args)"@,
                    ) =~= c0.executed + seq![
                        "FnCall("@ + name@ + ", "@ + dec_digits(exprs_view(args@).len())
                            + " args)"@,
                    ]);
                }
                self.execution_context.record_expression(line);
            },
            Expr::Var(name) => {
                let line = "Var(".to_owned().concat(name.as_str()).concat(")");
                proof {
                    assert(c0.executed.push("Var("@ + name@ + ")"@) =~= c0.executed + seq![
                        "Var("@ + name@ + ")"@,
                    ]);
                }
                self.execution_context.record_expression(line);
            },
            Expr::Print(inner) => {
                self.execution_context.record_expression("Print".to_owned());
                self.track_expression_execution(&**inner);
                proof {
                    assert(c0.executed.push("Print"@) + track_s(expr_view(**inner)) =~= c0.executed
                        + (seq!["Print"@] + track_s(expr_view(**inner))));
                }
            },
            Expr::Block(stmts) => {
                self.execution_context.record_expression("Block".to_owned());
                self.track_statements(stmts, 0);
                proof {
                    assert(exprs_view(stmts@).skip(0) =~= exprs_view(stmts@));
                    assert(c0.executed.push("Block"@) + track_seq_s(exprs_view(stmts@))
                        =~= c0.executed + (seq!["Block"@] + track_seq_s(exprs_view(stmts@))));
                }
            },
        }
    }

    /// Records the statements of a block, in order, from position idx.
    fn track_statements(&mut self, stmts: &Vec<Expr>, idx: usize)
        requires
            old(self).execution_context.wf(),
            idx <= stmts@.len(),
        ensures
            final(self).execution_context.wf(),
            final(self).execution_context@ == (ExecutionContextV {
                executed: old(self).execution_context@.executed + track_seq_s(
                    exprs_view(stmts@).skip(idx as int),
                ),
                ..old(self).execution_context@
            }),
            final(self).validator == old(self).validator,
            final(self).env == old(self).env,
            final(self).quest_manager == old(self).quest_manager,
        decreases *stmts, stmts@.len() - idx,
    {
        let ghost c0 = self.execution_context@;
        proof {
            lemma_exprs_view(stmts@);
        }
        if idx == stmts.len() {
            proof {
                assert(exprs_view(stmts@).skip(idx as int) =~= Seq::<ExprV>::empty());
                assert(c0.executed + Seq::<Seq<char>>::empty() =~= c0.executed);
            }
            return ;
        }
        proof {
            assert(decreases_to!(*stmts => stmts@[idx as int]));
            assert(exprs_view(stmts@).skip(idx as int)[0] == expr_view(stmts@[idx as int]));
            assert(exprs_view(stmts@).skip(idx as int).drop_first() =~= exprs_view(stmts@).skip(
                idx as int + 1,
            ));
        }
        self.track_expression_execution(&stmts[idx]);
        self.track_statements(stmts, idx + 1);
        proof {
            assert(c0.executed + track_s(expr_view(stmts@[idx as int])) + track_seq_s(
                exprs_view(stmts@).skip(idx as int + 1),
            ) =~= c0.executed + (track_s(expr_view(stmts@[idx as int])) + track_seq_s(
                exprs_view(stmts@).skip(idx as int + 1),
            )));
        }
    }

    /// Records what one statement's outcome bound: a let's value, a
    /// definition's parameters, and the same for each statement of a
    /// block, read back from the session environment.
    pub fn update_execution_context(&mut self, expr: &Expr, result: i64)
        requires
            old(self).execution_context.wf(),
        ensures
            final(self).execution_context.wf(),
            final(self).execution_context@ == update_ctx_s(
                expr_view(*expr),
                old(self).env@,
                result,
                old(self).execution_context@,
            ),
            final(self).validator == old(self).validator,
            final(self).env == old(self).env,
            final(self).quest_manager == old(self).quest_manager,
    {
        match expr {
            Expr::Let(name, _) => {
                self.execution_context.add_variable(name.clone(), result);
            },
            Expr::FnDef(name, params, _) => {
                let cparams = params.clone();
                proof {
                    assert(cparams.deep_view() =~= params.deep_view()) by {
                        assert(forall|i: int|
                            0 <= i < params@.len() ==> cparams@[i]@ == #[trigger] params@[i]@);
                    }
                }
                self.execution_context.add_function(
                    name.clone(),
                    cparams,
                    "<function body>".to_owned(),
                );
            },
            Expr::Block(stmts) => {
                proof {
                    assert(exprs_view(stmts@).skip(0) =~= exprs_view(stmts@));
                }
                self.update_block(stmts, 0);
            },
            _ => {},
        }
    }

    fn update_block(&mut self, stmts: &Vec<Expr>, idx: usize)
        requires
            old(self).execution_context.wf(),
            idx <= stmts@.len(),
        ensures
            final(self).execution_context.wf(),
            final(self).execution_context@ == update_block_s(
                exprs_view(stmts@).skip(idx as int),
                old(self).env@,
                old(self).execution_context@,
            ),
            final(self).validator == old(self).validator,
            final(self).env == old(self).env,
            final(self).quest_manager == old(self).quest_manager,
        decreases stmts@.len() - idx,
    {
        proof {
            lemma_exprs_view(stmts@);
        }
        if idx == stmts.len() {
            proof {
                assert(exprs_view(stmts@).skip(idx as int) =~= Seq::<ExprV>::empty());
            }
            return ;
        }
        proof {
            assert(exprs_view(stmts@).skip(idx as int)[0] == expr_view(stmts@[idx as int]));
            assert(exprs_view(stmts@).skip(idx as int).drop_first() =~= exprs_view(stmts@).skip(
                idx as int + 1,
            ));
        }
        match &stmts[idx] {
            Expr::Let(name, _) => {
                let bound: Option<i64> = match self.env.get(name.as_str()) {
                    Some(e) => match e {
                        Expr::Number(n) => Some(*n),
                        _ => None,
                    },
                    None => None,
                };
                match bound {
                    Some(val) => {
                        self.execution_context.add_variable(name.clone(), val);
                    },
                    None => {},
                }
            },
            Expr::FnDef(name, params, _) => {
                let cparams = params.clone();
                proof {
                    assert(cparams.deep_view() =~= params.deep_view()) by {
                        assert(forall|i: int|
                            0 <= i < params@.len() ==> cparams@[i]@ == #[trigger] params@[i]@);
                    }
                }
                self.execution_context.add_function(
                    name.clone(),
                    cparams,
                    "<function body>".to_owned(),
                );
            },
            _ => {},
        }
        self.update_block(stmts, idx + 1);
    }
}

} // verus!
