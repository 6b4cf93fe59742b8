//! A guarded accessor for a process-wide environment table.
//!
//! Mutating environment variables while other threads are alive is unsafe on
//! most platforms, so every mutation here is gated on a thread-count
//! observation: the mutation is applied exactly when the process was observed
//! to be single-threaded (or when detection is unsupported, the documented
//! conservative fallback). The table itself is modelled as a verified
//! key/value store whose view is a `Map` from key bytes to value bytes.

pub mod env_table;
pub mod guard;
pub mod laws;

pub use env_table::EnvTable;
pub use guard::Error;
pub use guard::guard_mutation;
pub use guard::listing_indicates_threaded;
pub use guard::try_remove_env_var;
pub use guard::try_set_env_var;
