//! The object that owns the engine-wide state the store consults.

use vstd::prelude::*;

verus! {

/// The telemetry engine's own state: for the store, the single fact that
/// matters is whether upload — and with it all recording — is enabled.
#[derive(Debug)]
pub struct Glean {
    upload_enabled: bool,
}

impl Glean {
    /// The flag this instance was created with.
    pub closed spec fn upload_enabled(self) -> bool {
        self.upload_enabled
    }

    /// Create an instance with the given upload state.
    pub fn new(upload_enabled: bool) -> (r: Glean)
        ensures
            r.upload_enabled() == upload_enabled,
    {
        Glean { upload_enabled }
    }

    /// Whether upload, and with it recording, is enabled.
    pub fn is_upload_enabled(&self) -> (r: bool)
        ensures
            r == self.upload_enabled(),
    {
        self.upload_enabled
    }

    /// Enable or disable upload.
    pub fn set_upload_enabled(&mut self, flag: bool)
        ensures
            final(self).upload_enabled() == flag,
    {
        self.upload_enabled = flag;
    }
}

} // verus!
