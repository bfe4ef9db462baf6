pub mod codec;
pub mod vm_value;
pub mod vm_value_codec;
