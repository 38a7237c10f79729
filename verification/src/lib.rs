use vstd::prelude::*;

pub mod database;
pub mod db_model;
pub mod evaluate;
pub mod fetch;
pub mod forwarder;
pub mod ingest;
pub mod ranks;
pub mod riot_api;
pub mod role_model;
pub mod util;
pub mod strings;
pub mod update;
pub mod worker;

verus! {

} // verus!
