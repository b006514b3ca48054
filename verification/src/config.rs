use vstd::prelude::*;

verus! {

/// How a client's identity is established: self-asserted (`Offline`) or
/// forwarded by a trusted proxy and checked against a shared secret
/// (`Velocity`).
#[derive(Clone, Copy, PartialEq, Eq, Debug, Structural)]
pub enum LoginMode {
    Offline,
    Velocity,
}

/// The part of the startup configuration the protocol core acts on. The
/// listen address and port stay with the process bootstrap.
pub struct Config {
    pub login: LoginMode,
    pub velocity_secret: Option<String>,
}

impl Config {
    /// A configuration is usable exactly when proxy-verified mode comes
    /// with its shared secret.
    pub open spec fn valid(&self) -> bool {
        self.login == LoginMode::Velocity ==> self.velocity_secret is Some
    }

    /// Checks the one startup-time rule: proxy-verified mode without a
    /// configured secret is a fatal configuration error.
    pub fn validate(&self) -> (ok: bool)
        ensures
            ok == self.valid(),
    {
        match (&self.login, &self.velocity_secret) {
            (LoginMode::Velocity, Option::None) => false,
            _ => true,
        }
    }
}

} // verus!
