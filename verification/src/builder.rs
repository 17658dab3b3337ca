pub mod async_compute;
pub mod compute;
pub mod sink;
pub mod source;
pub mod trait_compute;
pub mod trait_sink;
pub mod trait_source;
