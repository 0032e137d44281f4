pub mod crypto;
pub mod packet;
pub mod duty_cycle;
