pub mod animation;
pub mod boxes;
pub mod fps_counter;
pub mod input;
pub mod pool;
pub mod resource;
pub mod surface;
pub mod tracer;
