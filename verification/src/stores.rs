//! Stores that live in memory and are lost when dropped. Use them for testing.

pub mod btreemap;
pub mod hashmap;

pub use btreemap::BTreeMap;
pub use btreemap::Error as BTreeMapError;
pub use hashmap::Error as HashMapError;
pub use hashmap::HashMap;
