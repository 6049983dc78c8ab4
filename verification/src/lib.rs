//! Verified core of a class check-in and live-classroom helper: the table
//! of logged-in accounts, the set of accounts taking part in a sign-in,
//! the handling of sign-in events and their results, the choice of the
//! current lecture and its classroom, the schedule arithmetic, and the way
//! the crawl of the classroom index is split between workers.

pub mod account;
pub mod crawl;
pub mod live;
pub mod location;
pub mod progress;
pub mod room;
pub mod schedule;
pub mod sign;
pub mod table;
pub mod uid_set;

pub use account::AccountPair;
pub use live::Live;
pub use location::LocationSignnerInfo;
pub use room::{LiveUrlPair, Room, RoomPair};
