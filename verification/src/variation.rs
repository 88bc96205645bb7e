//! The two interchangeable variation strategies.

pub mod geometric_semantic;
pub mod standard;
