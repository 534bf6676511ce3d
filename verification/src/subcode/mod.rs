//! Subchannel data: channels, subcodes, sectors, and a disc's worth of them.

pub mod channel;
pub mod code;
pub mod data;
pub mod error;
pub mod laws;
pub mod sector;

pub use channel::{SubcodeType, CHANNEL_COUNT};
pub use code::{Subcode, SubcodeView, CHANNEL_LEN};
pub use data::SubcodeData;
pub use error::InvalidDataError;
pub use sector::{Sector, SECTOR_LEN};
