//! Atto-8: a minimalist 8-bit microcomputer, its assembler, emulator, simulator and C compiler.

pub mod common;
pub mod text;
pub mod token;
pub mod emu;
pub mod cc;
pub mod render;
pub mod assembler;
pub mod disassembler;
pub mod terminal;
pub mod mic;
pub mod sim;
pub mod graph;
pub mod expansion;
pub mod layout;
pub mod bf;
pub mod wp_emu;
pub mod wp_asm;
pub mod peephole;
pub mod source;
pub mod datapath;
