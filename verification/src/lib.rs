//! Verified core of a DNS-SD service advertiser: the TXT metadata record with
//! its wire format, and the lifecycle of an entry group.

pub mod attribute;
pub mod entry_group;
pub mod error;
pub mod txt_record;
pub mod wire;

pub use entry_group::{
    AddServiceParams, AddServiceSubtypeParams, DaemonReply, GroupEvent, GroupState,
    ManagedAvahiEntryGroup, ManagedAvahiEntryGroupParams, Outcome, Record, ServiceRecord,
};
pub use error::Error;
pub use txt_record::TxtRecord;
