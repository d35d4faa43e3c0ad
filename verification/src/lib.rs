pub mod ast;
pub mod coin_manager;
pub mod env;
pub mod eval;
pub mod lexer;
pub mod parser;
pub mod quest_system;
pub mod repl;
pub mod resource_validator;
pub mod text;

pub use ast::Expr;
pub use coin_manager::{CoinError, CoinManager, CoinReward, CoinType};
pub use env::Env;
pub use eval::{eval, eval_with_output, eval_with_validation};
pub use lexer::{tokenize, Token, TokenTypes};
pub use parser::{ParseError, Parser};
pub use quest_system::{
    ExecutionContext, FunctionDef, Quest, QuestManager, QuestObjective, QuestProgress,
};
pub use repl::Repl;
pub use resource_validator::{CoinCost, ResourceValidator, ValidationError};
