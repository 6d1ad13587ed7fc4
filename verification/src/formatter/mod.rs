pub mod hexdump;
pub mod terminal;
