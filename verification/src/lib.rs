//! Core of a Mumble-compatible voice conferencing server: the session and
//! routing model, the UDP crypto demultiplexer, the channel tree, the voice
//! router, the control-message dispatch logic and the liveness janitor.

pub mod chan;
pub mod client;
pub mod codec;
pub mod dispatch;
pub mod frame;
pub mod janitor;
pub mod msg;
pub mod registry;
pub mod status;
pub mod router;
pub mod smap;
pub mod vecset;
pub mod crypt;
pub mod voice;
pub mod wire;
