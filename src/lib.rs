/// Memoization of a calculation in a hash map.
pub mod cacher;
/// A record with a field that only its own module sets.
pub mod plant;
/// The bookkeeping of a fixed-size worker pool: dispatch queue, worker
/// states and shutdown.
pub mod pool;
