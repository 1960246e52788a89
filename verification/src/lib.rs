pub mod display;
pub mod normalize;
pub mod search;
pub mod text;
pub mod web;
