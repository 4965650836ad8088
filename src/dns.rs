//! Stub DNS resolution: the hosts table, the answer rules of a name-server
//! transaction, and the aggregation of A and AAAA answers.

pub mod records;
pub mod name_server;
pub mod hosts;
pub mod resolver;
