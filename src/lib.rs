//! Register access for a remote signal-processing board: path construction for
//! named registers, a block-sequenced transfer engine driven as a state
//! machine, and a decoder for the board's compact device directory.
pub mod directory;
pub mod engine;
pub mod error;
pub mod netascii;
pub mod packet;
pub mod path;
pub mod readings;

pub use directory::{decode_directory, decode_listing, Device, Directory};
pub use engine::{Action, Event, Phase, ReadTransfer, WriteTransfer};
pub use error::Error;
pub use packet::Mode;
pub use path::{check_size, read_device_path, read_flash_path, write_device_path};
