//! The service's settings, and the policy that turns a requested time to
//! live into the one that is applied.
use vstd::prelude::*;
use crate::ms::Ms;

verus! {

/// The time to live that is applied: the request where there is one, cut
/// down to `max`; `default` where there is none.
pub open spec fn clamp_ttl(requested: Option<u64>, default: u64, max: u64) -> u64 {
    match requested {
        Some(r) => if r > max { max } else { r },
        None => default,
    }
}

/// Settings of the service.
#[derive(Debug, Clone, Copy)]
pub struct AppConfig {
    /// Time to live of an upload that asks for none.
    pub default_expire: Ms,
    /// Longest time to live an upload can ask for.
    pub max_expire: Ms,
    /// Port the service listens on.
    pub port: u16,
    /// Largest accepted upload, in bytes.
    pub file_limit: u64,
    /// Address the service listens on.
    pub address: [u8; 4],
}

/// One minute.
pub const DEFAULT_EXPIRE_MILLIS: u64 = 60_000;

/// Ten minutes.
pub const MAX_EXPIRE_MILLIS: u64 = 600_000;

pub const DEFAULT_PORT: u16 = 3000;

/// Ten mebibytes.
pub const DEFAULT_FILE_LIMIT: u64 = 10_485_760;

impl Default for AppConfig {
    fn default() -> (r: AppConfig)
        ensures
            r.default_expire.millis == DEFAULT_EXPIRE_MILLIS,
            r.max_expire.millis == MAX_EXPIRE_MILLIS,
            r.port == DEFAULT_PORT,
            r.file_limit == DEFAULT_FILE_LIMIT,
            r.address@ == seq![0u8, 0u8, 0u8, 0u8],
    {
        let r = AppConfig {
            default_expire: Ms { millis: DEFAULT_EXPIRE_MILLIS },
            max_expire: Ms { millis: MAX_EXPIRE_MILLIS },
            port: DEFAULT_PORT,
            file_limit: DEFAULT_FILE_LIMIT,
            address: [0u8, 0u8, 0u8, 0u8],
        };
        assert(r.address@ =~= seq![0u8, 0u8, 0u8, 0u8]);
        r
    }
}

impl AppConfig {
    /// The time to live applied to an upload that asked for `dur`.
    pub fn get_safe_duration(&self, dur: Option<Ms>) -> (r: Ms)
        ensures
            r.millis == clamp_ttl(
                match dur {
                    Some(d) => Some(d.millis),
                    None => None,
                },
                self.default_expire.millis,
                self.max_expire.millis,
            ),
    {
        match dur {
            Some(d) => if d.millis > self.max_expire.millis {
                self.max_expire
            } else {
                d
            },
            None => self.default_expire,
        }
    }
}

/// The applied time to live never exceeds the maximum when one was
/// requested, equals the request when it is within the maximum, and is the
/// default when none was requested.
pub proof fn lemma_clamp_ttl(requested: Option<u64>, default: u64, max: u64)
    ensures
        requested is Some ==> clamp_ttl(requested, default, max) <= max,
        requested is Some && requested->Some_0 <= max ==> clamp_ttl(requested, default, max)
            == requested->Some_0,
        requested is Some && requested->Some_0 > max ==> clamp_ttl(requested, default, max)
            == max,
        requested is None ==> clamp_ttl(requested, default, max) == default,
{
}

} // verus!
