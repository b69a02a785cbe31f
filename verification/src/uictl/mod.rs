//! Client side of the **uictl** input broker.
//!
//! Every pointer movement and click goes over one unix socket to a broker
//! that holds the input privileges alone. What crosses that socket is framed
//! in [`wire`], judged in [`validate`], and driven by [`client`]; where it is
//! found is in [`socket`]. Reading and writing it is the application's part.
pub mod client;
pub mod laws;
pub mod socket;
pub mod validate;
pub mod wire;
