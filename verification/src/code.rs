//! Bytecode instruction encoding: a single opcode so far, with big-endian
//! two-byte operands; no decoder or virtual machine is attached yet.

use vstd::prelude::*;

verus! {

/// An instruction opcode.
#[derive(Clone, Copy)]
pub enum Opcode {
    OpConstant,
}

/// The encoding shape of one opcode: its printable name and the width in
/// bytes of each operand it takes.
#[derive(Clone)]
pub struct Definition {
    pub opcode: Opcode,
    pub name: String,
    pub operand_widths: Vec<u8>,
}

/// Looks up the encoding shape of an opcode.
pub fn lookup(op: Opcode) -> (r: Option<Definition>)
    ensures
        match r {
            Some(def) => def.opcode is OpConstant && def.name@ == "OpConstant"@
                && def.operand_widths@ == seq![2u8],
            None => false,
        },
{
    match op {
        Opcode::OpConstant => {
            let mut widths: Vec<u8> = Vec::new();
            widths.push(2);
            proof {
                assert(widths@ =~= seq![2u8]);
            }
            Some(
                Definition {
                    opcode: Opcode::OpConstant,
                    name: "OpConstant".to_owned(),
                    operand_widths: widths,
                },
            )
        },
    }
}

/// The encoded instruction: the opcode byte, then each operand in
/// big-endian byte order.
pub open spec fn spec_make(op: Opcode, operands: Seq<u16>) -> Seq<u8> {
    if operands.len() == 0 {
        seq![0u8]
    } else {
        seq![0u8, (operands[0] / 256) as u8, (operands[0] % 256) as u8]
    }
}

/// Encodes one instruction: the opcode byte followed by each operand in
/// big-endian byte order, two bytes per operand.
pub fn make(op: Opcode, operands: Vec<u16>) -> (r: Vec<u8>)
    requires
        operands@.len() <= 1,
    ensures
        r@ == spec_make(op, operands@),
{
    let def = match lookup(op) {
        Some(value) => value,
        None => {
            return Vec::new();
        },
    };
    let mut instruction: Vec<u8> = Vec::new();
    instruction.push(0u8);
    let mut i: usize = 0;
    while i < operands.len()
        invariant
            operands@.len() <= 1,
            0 <= i <= operands@.len(),
            def.operand_widths@ == seq![2u8],
            instruction@ == spec_make(op, operands@.subrange(0, i as int)),
        decreases operands@.len() - i,
    {
        let width = def.operand_widths[i];
        let o = operands[i];
        match width {
            2 => {
                instruction.push((o / 256) as u8);
                instruction.push((o % 256) as u8);
            },
            _ => {
                return Vec::new();
            },
        }
        i = i + 1;
        proof {
            assert(instruction@ =~= spec_make(op, operands@.subrange(0, i as int)));
        }
    }
    proof {
        assert(operands@.subrange(0, operands@.len() as int) =~= operands@);
        assert(instruction@ =~= spec_make(op, operands@));
    }
    instruction
}

} // verus!
