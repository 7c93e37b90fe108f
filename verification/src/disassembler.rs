//! The disassembler: a memory image back to assembly source.

use vstd::prelude::*;
use crate::common::{opcode_to_instruction, spec_opcode_to_instruction, MEM_SIZE};
use crate::text::{push_hex2, push_str, spec_hex2, string_from_chars};
use crate::token::{
    instruction_to_token, spec_instruction_token, spec_token_mnemonic, token_to_mnemonic,
};

verus! {

/// The line for the byte at `index`: its instruction's mnemonic, pinned in place with `@dyn`,
/// and, as a comment, its address and its value as data.
pub open spec fn spec_disassembly_line(index: u8, opcode: u8) -> Seq<char> {
    "  "@ + spec_token_mnemonic(spec_instruction_token(spec_opcode_to_instruction(opcode))@)
        + " @dyn # x"@ + spec_hex2(index) + " @org @"@ + spec_hex2(opcode)
}

/// The lines for the first `n` bytes of memory, each but the last followed by a newline.
pub open spec fn spec_disassembly_lines(memory: Seq<u8>, n: nat) -> Seq<char>
    decreases n,
{
    if n == 0 {
        Seq::empty()
    } else if n == 1 {
        spec_disassembly_line(0, memory[0])
    } else {
        spec_disassembly_lines(memory, (n - 1) as nat) + seq!['\n'] + spec_disassembly_line(
            (n - 1) as u8,
            memory[n - 1],
        )
    }
}

/// The disassembly of a memory image: the `main` macro, then one line per byte.
pub open spec fn spec_disassembly(memory: Seq<u8>) -> Seq<char> {
    "main!\n"@ + spec_disassembly_lines(memory, MEM_SIZE as nat)
}

fn push_line(out: &mut Vec<char>, index: u8, opcode: u8)
    ensures
        final(out)@ == old(out)@ + spec_disassembly_line(index, opcode),
{
    push_str(out, "  ");
    let mnemonic = token_to_mnemonic(instruction_to_token(opcode_to_instruction(opcode)));
    let mut cs = crate::text::string_chars(&mnemonic.0);
    out.append(&mut cs);
    push_str(out, " @dyn # x");
    push_hex2(out, index);
    push_str(out, " @org @");
    push_hex2(out, opcode);
}

/// Disassembles a memory image: the `main` macro, then for each byte its instruction, pinned at
/// its address, with its address and value in a comment.
pub fn disassemble(memory: &[u8; MEM_SIZE]) -> (r: String)
    ensures
        r@ == spec_disassembly(memory@),
{
    let mut out: Vec<char> = Vec::new();
    push_str(&mut out, "main!\n");
    let ghost head = out@;
    let mut i: usize = 0;
    while i < MEM_SIZE
        invariant
            i <= MEM_SIZE,
            memory@.len() == MEM_SIZE,
            head == "main!\n"@,
            out@ == head + spec_disassembly_lines(memory@, i as nat),
        decreases MEM_SIZE - i,
    {
        if i > 0 {
            out.push('\n');
        }
        let ghost before = out@;
        push_line(&mut out, i as u8, memory[i]);
        i = i + 1;
        assert(out@ == head + spec_disassembly_lines(memory@, i as nat));
    }
    string_from_chars(&out)
}

} // verus!
