pub mod initramfs;
pub mod fat;
