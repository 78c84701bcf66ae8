use vstd::prelude::*;

pub mod actions;
pub mod controls;
pub mod document;
pub mod editor;
pub mod guards;
pub mod helpers;
pub mod highlight;
pub mod modes;
pub mod normal_mode;
pub mod render;
pub mod select_modes;
pub mod text;

verus! {

} // verus!
