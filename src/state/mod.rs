pub mod oracle;
pub mod position;
pub mod tick;
pub mod tick_bitmap;
