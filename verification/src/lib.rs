//! Client-side logic of the Master Server Query Protocol, the UDP protocol
//! for asking a master server which game servers match a filter.
//!
//! The crate holds the parts of a client that compute, each with a contract
//! that Verus proves:
//!
//! * [`Region`]: the regions and their wire codes.
//! * [`Filter`]: the builder of filter strings.
//! * [`packet_ext`]: the byte codec, a read cursor over one datagram and the
//!   writers that frame a request.
//! * [`query`]: the paginated query engine. It is a state machine without a
//!   socket: [`QuerySession::start`] hands out the first request, and
//!   [`QuerySession::on_datagram`] takes each response and answers with the
//!   next request or with the complete list. Sending and receiving are left
//!   to the caller, who may block or suspend as it likes.
//!
//! ```text
//! let (mut session, mut request) = QuerySession::start(Region::Europe, &filter, 64);
//! loop {
//!     send(&request);
//!     match session.on_datagram(receive())? {
//!         Step::Continue { session: next, request: following } => {
//!             session = next;
//!             request = following;
//!         }
//!         Step::Done { servers } => return Ok(servers),
//!     }
//! }
//! ```

pub mod address;
pub mod decimal;
pub mod error;
pub mod filter;
pub mod packet_ext;
pub mod query;
pub mod region;
pub mod wire;

pub use crate::error::QueryError;
pub use crate::filter::Filter;
pub use crate::packet_ext::{ByteCursor, ReadPacketExt, WritePacketExt};
pub use crate::query::{QuerySession, Step};
pub use crate::region::{InvalidRegionCode, Region};
