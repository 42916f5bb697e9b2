use vstd::prelude::*;

pub mod algebra;
pub mod entity;
pub mod loader;
pub mod obj;
pub mod render;
pub mod text;


verus! {

} // verus!
