//! Reading compiled RCX program images and turning them into the command
//! sequence that downloads a program into one of the brick's slots.

pub mod argparse;
pub mod binfmt;
pub mod download;
pub mod render;
