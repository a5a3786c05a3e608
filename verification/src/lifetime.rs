//! Metric lifetimes: how long a recorded value is retained.

use vstd::prelude::*;

verus! {

/// The retention scope of a metric value.
///
/// `Ping` data is cleared after every submission of the ping it belongs to.
/// `Application` data persists for the run of the application.
/// `User` data persists for the install lifetime and is only cleared by an
/// explicit user-data reset.
#[derive(Copy, Clone, Debug, PartialEq, Eq, Structural)]
pub enum Lifetime {
    /// The metric is reset with each sent ping.
    Ping,
    /// The metric is reset on each application run.
    Application,
    /// The metric is reset with each user profile.
    User,
}

impl Lifetime {
    /// The name under which this lifetime's data is stored on disk.
    pub fn as_str(&self) -> (r: &'static str)
        ensures
            *self == Lifetime::Ping ==> r@ == "ping"@,
            *self == Lifetime::Application ==> r@ == "app"@,
            *self == Lifetime::User ==> r@ == "user"@,
    {
        match self {
            Lifetime::Ping => "ping",
            Lifetime::Application => "app",
            Lifetime::User => "user",
        }
    }
}

} // verus!
