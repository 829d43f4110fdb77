//! A small fediverse quote-bot library: quote posting with time-windowed
//! deduplication, a keyword reply matcher with a dice mini-game, and the
//! supervisor state machine of the streaming mention client.
pub mod dice;
pub mod fediverse;
pub mod forms;
pub mod ids;
pub mod names;
pub mod outbox;
pub mod poster;
pub mod quotes;
pub mod replies;
pub mod rng;
pub mod stream;
pub mod text;
