pub mod location;
pub mod token;
pub mod op;
pub mod signature;
pub mod function;
pub mod expression;
pub mod statement;
pub mod program;
pub mod rules;
pub mod instruction;
