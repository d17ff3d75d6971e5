//! Tunable limits and intervals.

use vstd::prelude::*;

verus! {

/// Configuration for the engine behaviour.
///
/// The defaults are chosen deliberately; change them only with a reason.
#[derive(Clone, Copy, Debug)]
pub struct EngineOptions {
    /// The maximum number of live queries that can be created in a single transaction.
    pub new_live_queries_per_transaction: u32,
    /// The size of batches being requested per update in order to catch up a live query.
    pub live_query_catchup_size: u32,
}

impl Default for EngineOptions {
    fn default() -> (options: Self)
        ensures
            options.new_live_queries_per_transaction == 100,
            options.live_query_catchup_size == 1000,
    {
        Self { new_live_queries_per_transaction: 100, live_query_catchup_size: 1000 }
    }
}

/// The configuration of a datastore. Times are in milliseconds.
#[derive(Clone, Copy, Debug)]
pub struct Config {
    /// The limits of the engine.
    pub engine: EngineOptions,
    /// The time between two heartbeats of a node.
    pub heartbeat_interval: u64,
    /// The time after which a node without a heartbeat counts as dead.
    pub liveness_window: u64,
    /// The time between two runs of the garbage collector.
    pub gc_period: u64,
    /// The number of waiting notifications above which a live query counts
    /// as a slow consumer.
    pub delivery_high_water: u32,
}

impl Default for Config {
    fn default() -> (config: Self)
        ensures
            config.engine.new_live_queries_per_transaction == 100,
            config.engine.live_query_catchup_size == 1000,
            config.heartbeat_interval == 3000,
            config.liveness_window == 30000,
            config.gc_period == 60000,
            config.delivery_high_water == 1024,
    {
        Self {
            engine: EngineOptions {
                new_live_queries_per_transaction: 100,
                live_query_catchup_size: 1000,
            },
            heartbeat_interval: 3000,
            liveness_window: 30000,
            gc_period: 60000,
            delivery_high_water: 1024,
        }
    }
}

} // verus!
