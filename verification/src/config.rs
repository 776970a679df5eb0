//! Plain configuration values, as the environment hands them to the
//! service, and the one piece of configuration logic: the CORS origin rule.

use vstd::prelude::*;

verus! {

/// Pool policy: target depth, low watermark, balance of a fresh coin,
/// retirement threshold.
pub struct GasPoolConfig {
    pub max_capacity: u64,
    pub min_pool_count: u64,
    pub coin_balance: u64,
    pub min_coin_balance: u64,
}

/// Where the durable queue lives and how long a returned coin cools down,
/// in milliseconds.
pub struct RabbitMQConfig {
    pub uri: String,
    pub retry_ttl: u32,
}

/// Where the key-value store lives.
pub struct RedisConfig {
    pub host: String,
    pub port: u16,
    pub password: String,
}

/// The allowed request origins, as configured; a `*` entry allows every
/// origin.
pub struct CorsConfig {
    pub origin: Vec<String>,
}

/// Whether a request origin passes the configured list: it matches an entry
/// outright, or some entry is the `*` wildcard.
pub open spec fn spec_origin_allowed(origins: Seq<Seq<char>>, origin: Seq<char>) -> bool {
    exists|i: int| 0 <= i < origins.len() && (origins[i] == origin || origins[i] == "*"@)
}

impl CorsConfig {
    pub fn origin_allowed(&self, origin: &String) -> (r: bool)
        ensures
            r == spec_origin_allowed(self.origin@.map_values(|s: String| s@), origin@),
    {
        let ghost origins = self.origin@.map_values(|s: String| s@);
        let star: String = "*".to_owned();
        let n = self.origin.len();
        let mut i: usize = 0;
        while i < n
            invariant
                origins == self.origin@.map_values(|s: String| s@),
                star@ == "*"@,
                n == self.origin@.len(),
                i <= n,
                forall|j: int| 0 <= j < i ==> origins[j] != origin@ && origins[j] != "*"@,
            decreases n - i,
        {
            if self.origin[i].eq(origin) || self.origin[i].eq(&star) {
                assert(origins[i as int] == origin@ || origins[i as int] == "*"@);
                return true;
            }
            i = i + 1;
        }
        false
    }
}

} // verus!
