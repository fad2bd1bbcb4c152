use vstd::prelude::*;

pub mod text;
pub mod buffer;
pub mod paths;
pub mod explorer;
pub mod app;
pub mod keys;
pub mod layout;

verus! {

} // verus!
