use vstd::prelude::*;

pub mod text;
pub mod utils;
pub mod renderers;
pub mod preprocessors;
pub mod markdown;
pub mod pattern;
pub mod hashing;
pub mod tikz;
pub mod typst;
pub mod book;
pub mod build_search;
pub mod dispatch;
pub mod ids;
pub mod html;

verus! {

} // verus!
