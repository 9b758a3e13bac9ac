pub mod database;
pub mod emulator;
pub mod test;
pub mod calc_lexer;
pub mod calc_tokens;
