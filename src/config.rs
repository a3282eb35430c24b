use vstd::prelude::*;

verus! {

/// Persisted settings: an optional credential token.
pub struct Config {
    pub token: Option<String>,
}

impl Config {
    /// Settings holding the given token, or none.
    pub fn new(token: Option<String>) -> (r: Config)
        ensures
            r.token == token,
    {
        Config { token }
    }
}

} // verus!
