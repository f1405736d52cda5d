pub mod text;
pub mod label;
pub mod channel;
pub mod json;
pub mod loader;
pub mod export;
pub mod ui;
pub mod snowflake;

use vstd::prelude::*;

verus! {

} // verus!
