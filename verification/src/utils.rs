pub mod byteslib;

pub use byteslib::is_power_of_2;
pub use byteslib::pack;
pub use byteslib::tightly_pack;
pub use byteslib::type_as_bytes;
