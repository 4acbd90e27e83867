pub mod cpu;
pub mod error;
pub mod io;
pub mod machine;
pub mod memory;
pub mod sprite;
