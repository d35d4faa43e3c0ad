use cang::text::{i64_to_dec, str_contains, u64_to_dec};
use cang::{
    eval_with_validation, tokenize, CoinCost, CoinError, CoinManager, CoinType, Env, Parser,
    ResourceValidator, ValidationError,
};

fn parse(src: &str) -> cang::Expr {
    let tokens = tokenize(src);
    let mut parser = Parser::new(tokens);
    parser.parse_program().unwrap()
}

#[test]
fn test_calculate_costs_tariffs() {
    let validator = ResourceValidator::new(CoinManager::new());
    assert_eq!(
        validator.calculate_costs(&parse("let x = 5")),
        vec![CoinCost {
            coin_type: CoinType::Variable,
            amt: 1
        }]
    );
    assert_eq!(
        validator.calculate_costs(&parse("fn f(a){a}")),
        vec![CoinCost {
            coin_type: CoinType::Function,
            amt: 1
        }]
    );
    // Numbers, variables and binary operators are free.
    assert_eq!(validator.calculate_costs(&parse("1 + 2 * 3")), vec![]);
    // Costs come in traversal order and are never merged.
    assert_eq!(
        validator.calculate_costs(&parse("let a = 1; fn f(x){x}; let b = 2")),
        vec![
            CoinCost {
                coin_type: CoinType::Variable,
                amt: 1
            },
            CoinCost {
                coin_type: CoinType::Function,
                amt: 1
            },
            CoinCost {
                coin_type: CoinType::Variable,
                amt: 1
            },
        ]
    );
}

#[test]
fn test_insufficient_funds_detected_before_any_spend() {
    let manager = CoinManager::with_balances(1, 0);
    let mut validator = ResourceValidator::new(manager);
    let mut env = Env::new();

    let ast = parse("fn f(a){a}");
    match validator.validate_expression(&ast) {
        Err(ValidationError::CoinError(e)) => assert_eq!(
            e,
            CoinError::InsufficientFunds {
                required: 1,
                available: 0,
                coin_type: CoinType::Function,
            }
        ),
        other => panic!("unexpected {:?}", other),
    }

    // The orchestrator surfaces the same error and the ledger is untouched.
    match eval_with_validation(&ast, &mut validator, &mut env) {
        Err(ValidationError::CoinError(e)) => assert_eq!(
            e,
            CoinError::InsufficientFunds {
                required: 1,
                available: 0,
                coin_type: CoinType::Function,
            }
        ),
        other => panic!("unexpected {:?}", other),
    }
    assert_eq!(validator.coin_manager().get_balance(CoinType::Variable), 1);
    assert_eq!(validator.coin_manager().get_balance(CoinType::Function), 0);
}

#[test]
fn test_non_atomic_spending() {
    // Two separate one-coin entries both pass validation against the same
    // static balance of 1, but the second fails during spending, and the
    // first coin is not given back.
    let manager = CoinManager::with_balances(1, 0);
    let mut validator = ResourceValidator::new(manager);
    let mut env = Env::new();

    let ast = parse("let a = 1; let b = 2");
    assert!(validator.validate_expression(&ast).is_ok());

    match eval_with_validation(&ast, &mut validator, &mut env) {
        Err(ValidationError::CoinError(e)) => assert_eq!(
            e,
            CoinError::InsufficientFunds {
                required: 1,
                available: 0,
                coin_type: CoinType::Variable,
            }
        ),
        other => panic!("unexpected {:?}", other),
    }
    assert_eq!(validator.coin_manager().get_balance(CoinType::Variable), 0);
}

#[test]
fn test_division_by_zero_spends_no_coins() {
    let manager = CoinManager::with_balances(4, 2);
    let mut validator = ResourceValidator::new(manager);
    let mut env = Env::new();

    let ast = parse("1 / 0");
    match eval_with_validation(&ast, &mut validator, &mut env) {
        Err(ValidationError::RuntimeError(m)) => assert_eq!(m, "Division by zero"),
        other => panic!("unexpected {:?}", other),
    }
    assert_eq!(validator.coin_manager().get_balance(CoinType::Variable), 4);
    assert_eq!(validator.coin_manager().get_balance(CoinType::Function), 2);
}

#[test]
fn test_successful_run_debits_the_ledger() {
    let mut validator = ResourceValidator::new(CoinManager::new());
    let mut env = Env::new();

    let ast = parse("let x = 1; print(x)");
    let (result, output) = eval_with_validation(&ast, &mut validator, &mut env).unwrap();
    assert_eq!(result, 0);
    assert_eq!(output, vec!["1"]);
    assert_eq!(validator.coin_manager().get_balance(CoinType::Variable), 9);
    assert_eq!(validator.coin_manager().get_balance(CoinType::Function), 3);
}

#[test]
fn test_runtime_error_keeps_coins_spent() {
    let mut validator = ResourceValidator::new(CoinManager::with_balances(5, 5));
    let mut env = Env::new();

    // The let spends its coin before the division fails; nothing is rolled back.
    let ast = parse("let a = 1; a / 0");
    match eval_with_validation(&ast, &mut validator, &mut env) {
        Err(ValidationError::RuntimeError(m)) => assert_eq!(m, "Division by zero"),
        other => panic!("unexpected {:?}", other),
    }
    assert_eq!(validator.coin_manager().get_balance(CoinType::Variable), 4);
}

#[test]
fn test_get_balance_is_idempotent() {
    let manager = CoinManager::with_balances(7, 2);
    let first = manager.get_balance(CoinType::Variable);
    let second = manager.get_balance(CoinType::Variable);
    assert_eq!(first, second);
    assert_eq!(first, 7);
}

#[test]
fn test_spend_and_add_coins() {
    let mut manager = CoinManager::new();
    assert_eq!(manager.get_balance(CoinType::Variable), 10);
    assert_eq!(manager.get_balance(CoinType::Function), 3);

    manager.spend_var_coin().unwrap();
    assert_eq!(manager.get_balance(CoinType::Variable), 9);

    manager.add_coins(5, CoinType::Function);
    assert_eq!(manager.get_balance(CoinType::Function), 8);

    let mut drained = CoinManager::with_balances(0, 0);
    assert_eq!(
        drained.spend_func_coin(),
        Err(CoinError::InsufficientFunds {
            required: 1,
            available: 0,
            coin_type: CoinType::Function,
        })
    );
}

#[test]
fn test_coin_error_message() {
    let e = CoinError::InsufficientFunds {
        required: 1,
        available: 0,
        coin_type: CoinType::Function,
    };
    assert_eq!(e.message(), "Insufficient Function coins (need 1, have 0)");
    let wrapped = ValidationError::CoinError(e);
    assert_eq!(
        wrapped.message(),
        "Coin err: Insufficient Function coins (need 1, have 0)"
    );
}

#[test]
fn test_merge_costs_sums_per_category() {
    let validator = ResourceValidator::new(CoinManager::new());
    let merged = validator.merge_costs(vec![
        CoinCost {
            coin_type: CoinType::Variable,
            amt: 1,
        },
        CoinCost {
            coin_type: CoinType::Function,
            amt: 2,
        },
        CoinCost {
            coin_type: CoinType::Variable,
            amt: 3,
        },
    ]);
    assert_eq!(
        merged,
        vec![
            CoinCost {
                coin_type: CoinType::Variable,
                amt: 4
            },
            CoinCost {
                coin_type: CoinType::Function,
                amt: 2
            },
        ]
    );
    assert_eq!(validator.merge_costs(vec![]), vec![]);
}

#[test]
fn test_apply_rewards() {
    let mut manager = CoinManager::with_balances(0, 0);
    manager.apply_rewards(&[
        cang::CoinReward {
            coin_type: CoinType::Variable,
            amount: 2,
        },
        cang::CoinReward {
            coin_type: CoinType::Function,
            amount: 1,
        },
        cang::CoinReward {
            coin_type: CoinType::Variable,
            amount: 3,
        },
    ]);
    assert_eq!(manager.get_balance(CoinType::Variable), 5);
    assert_eq!(manager.get_balance(CoinType::Function), 1);
}

#[test]
fn test_decimal_rendering() {
    assert_eq!(u64_to_dec(0), "0");
    assert_eq!(u64_to_dec(907), "907");
    assert_eq!(i64_to_dec(-42), "-42");
    assert_eq!(i64_to_dec(i64::MIN), "-9223372036854775808");
}

#[test]
fn test_substring_search() {
    assert!(str_contains("FnCall(test_func)", "FnCall"));
    assert!(str_contains("abc", ""));
    assert!(!str_contains("Binary", "arithmetic"));
    assert!(!str_contains("ab", "abc"));
}

#[test]
fn test_repl_session_tracks_and_rewards() {
    let mut repl = cang::Repl::new();
    assert_eq!(repl.quest_manager.get_active_quests().len(), 9);

    let ast = parse("2 + 3");
    repl.track_expression_execution(&ast);
    assert_eq!(
        repl.execution_context.executed_expressions,
        vec!["Binary", "arithmetic"]
    );

    let (result, _) = eval_with_validation(&ast, &mut repl.validator, &mut repl.env).unwrap();
    assert_eq!(result, 5);
    repl.update_execution_context(&ast, result);

    let rewards = repl.quest_manager.check_completion(&repl.execution_context);
    assert_eq!(rewards.len(), 1);
    assert_eq!(rewards[0].coin_type, CoinType::Variable);
    assert_eq!(rewards[0].amount, 2);

    let ast2 = parse("let x = 5");
    repl.track_expression_execution(&ast2);
    let (result2, _) = eval_with_validation(&ast2, &mut repl.validator, &mut repl.env).unwrap();
    repl.update_execution_context(&ast2, result2);
    assert_eq!(repl.execution_context.variables.get("x"), Some(&5));
}
