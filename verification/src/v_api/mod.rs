//! Plain types of the platform API: result codes, operations and
//! their outcomes.

pub mod api_client;
pub mod common_type;
