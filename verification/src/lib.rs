//! The board, the identity mirror and the storage peer of iz.
pub mod assemble;
pub mod avatar;
pub mod beat;
pub mod board;
pub mod boot;
pub mod clock;
pub mod directory;
pub mod drain;
pub mod frames;
pub mod groups;
pub mod health;
pub mod load;
pub mod mirror;
pub mod order;
pub mod rows;
pub mod schema;
pub mod statements;
pub mod storage;
pub mod store;
pub mod sweep;
pub mod text;
