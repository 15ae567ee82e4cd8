//! Server configuration as plain values. Loading the file and decoding
//! the TOML is the outer layer's job; the address formatting is here.

use vstd::prelude::*;
use crate::json::dec_digits;

verus! {

/// Where the HTTP server listens.
pub struct ServerConfig {
    pub listen_addr: String,
    pub listen_port: u16,
}

/// Where discovery starts.
pub struct JmapConfig {
    pub well_known_url: String,
}

/// The whole configuration.
pub struct Config {
    pub server: ServerConfig,
    pub jmap: JmapConfig,
}

impl Config {
    /// The `address:port` text the server binds to.
    pub fn listen_address(&self) -> (r: String)
        ensures
            r@ == self.server.listen_addr@ + seq![':'] + dec_digits(
                self.server.listen_port as nat,
            ),
    {
        let mut out = self.server.listen_addr.clone();
        crate::text::push_char(&mut out, ':');
        crate::json::write_u64_dec(self.server.listen_port as u64, &mut out);
        proof {
            assert(out@ =~= self.server.listen_addr@ + seq![':'] + dec_digits(
                self.server.listen_port as nat,
            ));
        }
        out
    }
}

} // verus!
