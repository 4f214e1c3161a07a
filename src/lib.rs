pub mod frame;
pub mod index;
pub mod injector;
pub mod seen;
pub mod stream;
