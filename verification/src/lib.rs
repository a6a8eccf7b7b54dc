//! Trailing-edge rate limiting: the cooldown of a slot starts when its permit is returned, not
//! when it is acquired.

pub mod time;
pub mod toolchain;
pub mod trailing_edge;
