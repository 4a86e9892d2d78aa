pub mod tb;
pub mod th;
