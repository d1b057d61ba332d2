pub mod terminal;
