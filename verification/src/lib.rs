//! Client-side logic for a game-statistics HTTP API that limits the sessions
//! a developer may hold at one time, the sessions and requests of a day, and
//! the lifetime of a session.
//!
//! The library signs URLs, keeps the pool of sessions within the quotas,
//! plans batches and waves of requests, and decides what a worker does with
//! each session and each response. It makes no request itself: whoever runs
//! it fetches the URLs, decodes the bodies and hands the outcome back.
//!
//! - `hi_rez_constants`: the names and limits that the provider fixes.
//! - `text`: decimal numbers, splitting, joining and searching of text.
//! - `clock`: the current time.
//! - `url_builder`: signatures and URLs.
//! - `pool_state`: the session pool as a mathematical state, with what holds
//!   of every state it comes to.
//! - `session_manager`: the session pool.
//! - `reqwest_wrapper`: the retries of one request.
//! - `batch`: batches and waves.
//! - `request_maker`: the arguments of calls, the reading of replies, and the
//!   steps of a worker.
//! - `models`: the replies that the library reads.
//! - `api`: the calls of each operation.

pub mod api;
pub mod batch;
pub mod clock;
pub mod hi_rez_constants;
pub mod models;
pub mod pool_state;
pub mod request_maker;
pub mod reqwest_wrapper;
pub mod session_manager;
pub mod text;
pub mod url_builder;
