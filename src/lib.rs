//! Bookkeeping and settlement core of an NFT marketplace: dense offering
//! sets per collection, royalty splitting, value locked and sale history.

pub mod collection;
pub mod keyed;
pub mod market;
pub mod offerings;
pub mod portion;
pub mod query;
