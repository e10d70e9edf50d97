pub mod globals;
pub mod opcode;
pub mod vm;
