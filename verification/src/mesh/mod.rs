pub mod node;
pub mod router;
