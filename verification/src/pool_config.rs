//! The connection-pool configuration: named, typed fields with documented
//! defaults, built once at startup and handed to whatever constructs the
//! pool. The validation core itself never touches the pool.
use vstd::prelude::*;

verus! {

pub struct PoolConfig {
    pub host: String,
    pub port: u16,
    pub user: String,
    pub password: String,
    pub database: String,
    pub charset: String,
    pub max_connections: u32,
}

impl PoolConfig {
    /// The documented default configuration.
    pub fn defaults() -> (r: PoolConfig)
        ensures
            r.host@ == "localhost"@,
            r.port == 3306,
            r.user@ == "root"@,
            r.password@ == "password"@,
            r.database@ == "chat_app"@,
            r.charset@ == "utf8mb4_unicode_ci"@,
            r.max_connections == 10,
    {
        PoolConfig {
            host: "localhost".to_owned(),
            port: 3306,
            user: "root".to_owned(),
            password: "password".to_owned(),
            database: "chat_app".to_owned(),
            charset: "utf8mb4_unicode_ci".to_owned(),
            max_connections: 10,
        }
    }
}

} // verus!
