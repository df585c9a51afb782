//! The two remote methods the library drives, and the storage of what they return.
pub mod groups;
pub mod users;
