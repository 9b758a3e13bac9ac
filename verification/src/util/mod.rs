pub mod encoding_util;
pub mod decimal;
pub mod text;
