pub mod bus;
pub mod cpu_types;
pub mod dma;
pub mod interrupt_controller;
pub mod memory_map;
pub mod cpu;
pub mod cpu_laws;
pub mod text;
pub mod bios;
pub mod digest;
pub mod cdrom;
pub mod system;
pub mod container;
pub mod adpcm;
pub mod rom;
pub mod frame;
pub mod vision;
