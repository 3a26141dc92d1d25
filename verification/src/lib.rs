//! A satoshi-tracking index: assigns a permanent ordinal number to every
//! satoshi ever mined, follows each satoshi through the transaction graph
//! block by block, classifies satoshis by scarcity, binds inscriptions found
//! in transaction witnesses to satoshis, and plans transactions that move a
//! chosen satoshi deliberately.

pub mod builder;
pub mod epoch;
pub mod index;
pub mod inscription;
pub mod rarity;
pub mod propagate;
pub mod sat;
pub mod store;
