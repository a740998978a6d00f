//! Site-specific discovery: host recognition, ids, and turning site data into streams.

pub mod common;
pub mod html5player;
pub mod ok;
pub mod okxxx;
pub mod pornhub;
pub mod registry;
pub mod rutube;
pub mod vimeo;
pub mod vk;
pub mod xnxx;
pub mod yandex;
pub mod youtube;
