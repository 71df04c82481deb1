//! The hook for an external dynamic-virtual-channel redirector (such as a
//! media add-in) that takes over channels the graphics channel mux would
//! otherwise decline.
use vstd::prelude::*;

verus! {

/// A pluggable handler for dynamic channels the client does not implement.
/// Every method must return promptly: the session loop calls them inline.
pub trait DvcRedirector: Send {
    /// Whether this redirector claims the channel `name`.
    fn claims(&self, name: &str) -> bool;

    /// A create request for a claimed channel arrived; `true` accepts it.
    fn on_create(&mut self, channel_id: u32, name: &str) -> bool;

    /// A complete message arrived on an accepted channel.
    fn on_data(&mut self, channel_id: u32, message: &[u8]);

    /// The server closed an accepted channel.
    fn on_close(&mut self, channel_id: u32);

    /// The `(channel_id, payload)` pairs to send to the server.
    fn drain_outbound(&mut self) -> Vec<(u32, Vec<u8>)>;
}

} // verus!
