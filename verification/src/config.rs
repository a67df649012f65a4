use vstd::prelude::*;

verus! {

/// Compile-time server configuration: sizes of the two worker pools and the
/// two inactivity delays.  An engine lease must outlive the session that owns
/// it, so the engine expiry is the session expiry plus a grace delay.
#[derive(Debug, Clone)]
pub struct ServerConfig {
    /// Capacity of the pool that serves session-bound autocomplete workers.
    pub autocomplete_pool_max_size: usize,
    /// Number of autocomplete workers built eagerly at startup.
    pub autocomplete_pool_min_size: usize,
    /// Inactivity expiry of a client session, in seconds.
    pub session_expiry_delay: u64,
    /// Extra seconds an engine stays leased after its session has expired,
    /// so that a live session never finds its engine already reclaimed.
    pub engine_returned_additional_delay: u64,
    /// Capacity of the general-purpose pool used by batch requests.
    pub gp_pool_max_size: usize,
    /// Number of general-purpose workers built eagerly at startup.
    pub gp_pool_min_size: usize,
}

impl ServerConfig {
    /// A configuration the rest of the crate can rely on: pre-warmed counts
    /// fit in the capacities, a grace delay of at least a second keeps every
    /// engine alive past its session, and the delays are small enough to
    /// convert to milliseconds without overflow.
    pub open spec fn wf(self) -> bool {
        &&& self.autocomplete_pool_min_size <= self.autocomplete_pool_max_size
        &&& self.gp_pool_min_size <= self.gp_pool_max_size
        &&& self.engine_returned_additional_delay >= 1
        &&& (self.session_expiry_delay + self.engine_returned_additional_delay) * 1000
            <= u64::MAX
    }

    /// Seconds a leased engine survives without activity before it is
    /// reclaimed: the session expiry plus the grace delay.
    pub fn get_engine_expiry(&self) -> (r: u64)
        requires
            self.session_expiry_delay + self.engine_returned_additional_delay <= u64::MAX,
        ensures
            r == self.session_expiry_delay + self.engine_returned_additional_delay,
    {
        self.session_expiry_delay + self.engine_returned_additional_delay
    }
}

impl Default for ServerConfig {
    /// The stock configuration: two pools of ten workers, two pre-warmed
    /// each, a ten second session expiry and a two second grace delay.
    fn default() -> (c: Self)
        ensures
            c.autocomplete_pool_max_size == 10,
            c.autocomplete_pool_min_size == 2,
            c.session_expiry_delay == 10,
            c.engine_returned_additional_delay == 2,
            c.gp_pool_max_size == 10,
            c.gp_pool_min_size == 2,
            c.wf(),
    {
        ServerConfig {
            autocomplete_pool_max_size: 10,
            autocomplete_pool_min_size: 2,
            session_expiry_delay: 10,
            engine_returned_additional_delay: 2,
            gp_pool_max_size: 10,
            gp_pool_min_size: 2,
        }
    }
}

/// Default number of ranked results per query in a batch fuzzy-match request
/// when the client does not say otherwise.
pub fn default_to_one() -> (n: u32)
    ensures
        n == 1,
{
    1
}

} // verus!
