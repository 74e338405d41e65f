pub mod api;
pub mod card;
pub mod pages;
pub mod sse;
