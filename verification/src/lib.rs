pub mod errors;
pub mod text;
pub mod dict;
pub mod protocol;
pub mod encoding;
pub mod roundtrip;
pub mod wire;
pub mod transport;
pub mod proxy;
pub mod communicator;
pub mod iceobject;
pub mod slice;
