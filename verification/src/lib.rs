pub mod text;
pub mod num;
pub mod order;
pub mod paths;
pub mod args;
pub mod lexer;
pub mod userdb;
pub mod meta;
pub mod color;
pub mod timefmt;
pub mod commands;
pub mod shell;
