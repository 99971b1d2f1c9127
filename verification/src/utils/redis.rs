//! Where the agent's Redis server is.
use vstd::prelude::*;

verus! {

/// A Redis server and its password.
#[derive(Debug, Default)]
pub struct Redis {
    pub addr: String,
    pub password: String,
}

impl Redis {
    /// The connection URL `redis://:<password>@<addr>/`.
    pub fn url(&self) -> (r: String)
        ensures
            r@ == "redis://:"@ + self.password@ + "@"@ + self.addr@ + "/"@,
    {
        let mut r = String::new();
        r.append("redis://:");
        r.append(self.password.as_str());
        r.append("@");
        r.append(self.addr.as_str());
        r.append("/");
        assert(r@ =~= "redis://:"@ + self.password@ + "@"@ + self.addr@ + "/"@);
        r
    }
}

} // verus!
