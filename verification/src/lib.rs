//! Verified core of a real-time multiplayer bidding-game server.
//!
//! Many rooms play at once. Each room leads its players through a fixed
//! run of phases; some phases wait for slow outside services that make
//! prompts, hints and pictures. This crate holds what the server decides:
//! the envelope on the wire, the books of the message broker, the registry
//! of rooms, the rules of a room and its phase machine, and what the
//! answers of the outside services do to a room.
//!
//! The crate does no input or output and takes no lock. Its caller owns the
//! sockets, the timers and the one lock around the registry: it hands in
//! what happened, and does what comes back. Every step here is a plain
//! function call, so no lock is ever held across a wait.
//!
//! Each type has a mathematical view, the rules are spec functions on the
//! views, and each function is proved to do what its rule says.

/// The books of the message broker.
pub mod broker;
/// The client's side of the conversation.
pub mod client;
/// The envelope on the wire.
pub mod codec;
/// Handing the hints out.
pub mod hints;
/// What holds of the rules, whatever the room.
pub mod laws;
/// The message catalogue.
pub mod messages;
/// The phase machine of a room.
pub mod phase;
/// Prompts on their way into a room.
pub mod prompts;
/// Draws from the random number generator.
pub mod random;
/// The clocks that space out the calls to the outside services.
pub mod rate_limit;
/// The registry of rooms.
pub mod registry;
/// The answers of the outside services.
pub mod replies;
/// One room and its rules.
pub mod room;
/// Requests of players and expiry of timers.
pub mod session;
/// Background work as it comes back.
pub mod tasks;
/// Text that the server writes into messages.
pub mod text;
