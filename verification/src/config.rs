use vstd::prelude::*;

verus! {

/// The service configuration: where to listen, which chain endpoint to
/// sync against, and where the catalog lives on disk. The front end reads
/// it from a YAML document and hands it over as plain values.
pub struct Config {
    pub bind_addr: String,
    pub port: u16,
    pub backend_url: String,
    pub db_path: String,
}

impl Config {
    pub fn new(bind_addr: String, port: u16, backend_url: String, db_path: String) -> (r: Config)
        ensures
            r.bind_addr@ == bind_addr@,
            r.port == port,
            r.backend_url@ == backend_url@,
            r.db_path@ == db_path@,
    {
        Config { bind_addr, port, backend_url, db_path }
    }
}

} // verus!
