//! Wrappers are how values are read from and written to the store. Each owns
//! the store it works on, and the prefix under which it keeps its keys.
//!
//! There are two kinds:
//! - those that say how a missing value reads, and offer `get` and `set`;
//! - those that behave like a collection of the standard library.
//!
//! A wrapper takes `&mut self` wherever it writes: two users cannot change
//! one collection at a time.

pub mod default_trait;
pub mod default_val;
pub mod map;
pub mod option;
pub mod vec;
pub mod vec_deque;

pub use default_trait::DefaultTrait;
pub use default_val::DefaultValue;
pub use map::DbMap;
pub use option::OptionValue;
pub use vec::Prefixed as VecPrefixed;
pub use vec::Vec;
pub use vec_deque::Prefixed as DequePrefixed;
pub use vec_deque::VecDeque;
