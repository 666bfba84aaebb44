//! The IR of a basic block and its wire format.
//!
//! The wire format is a flat byte stream of fixed-size tuples, written by the
//! guest's scanner. A tuple is 16 bytes, little-endian and packed:
//!
//! ```text
//!   offset 0   u8     op_kind   (see OpKind)
//!   offset 1   u8     reserved
//!   offset 2   u16    rd_off    (byte offset of the destination register in the CPU state)
//!   offset 4   u16    rs1_off   (or 0 if unused)
//!   offset 6   u16    rs2_off   (or 0 if unused)
//!   offset 8   i64    imm       (or shift amount, or absolute target pc)
//! ```
//!
//! Some kinds reuse fields: a load carries the instruction's byte offset from the
//! block start in `rs2_off`, a store carries it in `rd_off`, and an atomic packs
//! `funct5 | pc_off << 8` into `imm`.

use vstd::prelude::*;
use crate::bytes::{le_val, read_le16, read_le64};

verus! {

/// Operation kinds, in the order of their wire codes: `Const` is 1, `AmoD` is 63.
#[derive(Clone, Copy, Debug, PartialEq, Eq, Structural)]
pub enum OpKind {
    Const,
    Addi,
    Addiw,
    Andi,
    Ori,
    Xori,
    Slti,
    Sltiu,
    Slli,
    Srli,
    Srai,
    Slliw,
    Srliw,
    Sraiw,
    Add,
    Sub,
    And,
    Or,
    Xor,
    Sll,
    Srl,
    Sra,
    Slt,
    Sltu,
    Addw,
    Subw,
    Sllw,
    Srlw,
    Sraw,
    Jal,
    Jalr,
    Beq,
    Bne,
    Blt,
    Bge,
    Bltu,
    Bgeu,
    Lb,
    Lh,
    Lw,
    Ld,
    Lbu,
    Lhu,
    Lwu,
    Sb,
    Sh,
    Sw,
    Sd,
    Mul,
    Mulh,
    Mulhsu,
    Mulhu,
    Div,
    Divu,
    Rem,
    Remu,
    Mulw,
    Divw,
    Divuw,
    Remw,
    Remuw,
    AmoW,
    AmoD,
}

/// Load width and extension; doubles as the helper-import identity.
#[derive(Clone, Copy, Debug, PartialEq, Eq, Structural)]
pub enum LoadW {
    B,
    H,
    W,
    D,
    Bu,
    Hu,
    Wu,
}

/// Store width; doubles as the helper-import identity.
#[derive(Clone, Copy, Debug, PartialEq, Eq, Structural)]
pub enum StoreW {
    B,
    H,
    W,
    D,
}

/// Width of an atomic memory operation; doubles as the helper-import identity.
#[derive(Clone, Copy, Debug, PartialEq, Eq, Structural)]
pub enum AmoW {
    W,
    D,
}

/// The multiply and divide operations.
#[derive(Clone, Copy, Debug, PartialEq, Eq, Structural)]
pub enum MulDivOp {
    Mul,
    Mulh,
    Mulhsu,
    Mulhu,
    Div,
    Divu,
    Rem,
    Remu,
    Mulw,
    Divw,
    Divuw,
    Remw,
    Remuw,
}

/// One IR operation. Register operands are byte offsets into the CPU state.
#[derive(Clone, Copy, Debug, PartialEq, Eq, Structural)]
#[allow(inconsistent_fields)]
pub enum Op {
    Const { rd: u32, imm: i64 },
    Addi { rd: u32, rs1: u32, imm: i64 },
    Addiw { rd: u32, rs1: u32, imm: i64 },
    Andi { rd: u32, rs1: u32, imm: i64 },
    Ori { rd: u32, rs1: u32, imm: i64 },
    Xori { rd: u32, rs1: u32, imm: i64 },
    Slti { rd: u32, rs1: u32, imm: i64 },
    Sltiu { rd: u32, rs1: u32, imm: i64 },
    Slli { rd: u32, rs1: u32, shamt: u32 },
    Srli { rd: u32, rs1: u32, shamt: u32 },
    Srai { rd: u32, rs1: u32, shamt: u32 },
    Slliw { rd: u32, rs1: u32, shamt: u32 },
    Srliw { rd: u32, rs1: u32, shamt: u32 },
    Sraiw { rd: u32, rs1: u32, shamt: u32 },
    Add { rd: u32, rs1: u32, rs2: u32 },
    Sub { rd: u32, rs1: u32, rs2: u32 },
    And { rd: u32, rs1: u32, rs2: u32 },
    Or { rd: u32, rs1: u32, rs2: u32 },
    Xor { rd: u32, rs1: u32, rs2: u32 },
    Sll { rd: u32, rs1: u32, rs2: u32 },
    Srl { rd: u32, rs1: u32, rs2: u32 },
    Sra { rd: u32, rs1: u32, rs2: u32 },
    Slt { rd: u32, rs1: u32, rs2: u32 },
    Sltu { rd: u32, rs1: u32, rs2: u32 },
    Addw { rd: u32, rs1: u32, rs2: u32 },
    Subw { rd: u32, rs1: u32, rs2: u32 },
    Sllw { rd: u32, rs1: u32, rs2: u32 },
    Srlw { rd: u32, rs1: u32, rs2: u32 },
    Sraw { rd: u32, rs1: u32, rs2: u32 },
    // Terminators. The block's end pc is both the link pc of JAL/JALR and the
    // fallthrough pc of a branch.
    Jal { rd: u32, target_pc: i64 },
    Jalr { rd: u32, rs1: u32, imm: i64 },
    Beq { rs1: u32, rs2: u32, target_pc: i64 },
    Bne { rs1: u32, rs2: u32, target_pc: i64 },
    Blt { rs1: u32, rs2: u32, target_pc: i64 },
    Bge { rs1: u32, rs2: u32, target_pc: i64 },
    Bltu { rs1: u32, rs2: u32, target_pc: i64 },
    Bgeu { rs1: u32, rs2: u32, target_pc: i64 },
    // Memory operations. `pc_off` is the instruction's byte offset from the block
    // start, from which the tagged fault pc is derived.
    Load { w: LoadW, rd: u32, rs1: u32, imm: i64, pc_off: u32 },
    Store { w: StoreW, rs1: u32, rs2: u32, imm: i64, pc_off: u32 },
    MulDiv { op: MulDivOp, rd: u32, rs1: u32, rs2: u32 },
    Amo { w: AmoW, rd: u32, rs1: u32, rs2: u32, funct5: u32, pc_off: u32 },
}

/// Size in bytes of one wire tuple.
pub const TUPLE_SIZE: usize = 16;

impl OpKind {
    /// The wire code of a kind.
    pub open spec fn spec_code(self) -> u8 {
        match self {
            OpKind::Const => 1,
            OpKind::Addi => 2,
            OpKind::Addiw => 3,
            OpKind::Andi => 4,
            OpKind::Ori => 5,
            OpKind::Xori => 6,
            OpKind::Slti => 7,
            OpKind::Sltiu => 8,
            OpKind::Slli => 9,
            OpKind::Srli => 10,
            OpKind::Srai => 11,
            OpKind::Slliw => 12,
            OpKind::Srliw => 13,
            OpKind::Sraiw => 14,
            OpKind::Add => 15,
            OpKind::Sub => 16,
            OpKind::And => 17,
            OpKind::Or => 18,
            OpKind::Xor => 19,
            OpKind::Sll => 20,
            OpKind::Srl => 21,
            OpKind::Sra => 22,
            OpKind::Slt => 23,
            OpKind::Sltu => 24,
            OpKind::Addw => 25,
            OpKind::Subw => 26,
            OpKind::Sllw => 27,
            OpKind::Srlw => 28,
            OpKind::Sraw => 29,
            OpKind::Jal => 30,
            OpKind::Jalr => 31,
            OpKind::Beq => 32,
            OpKind::Bne => 33,
            OpKind::Blt => 34,
            OpKind::Bge => 35,
            OpKind::Bltu => 36,
            OpKind::Bgeu => 37,
            OpKind::Lb => 38,
            OpKind::Lh => 39,
            OpKind::Lw => 40,
            OpKind::Ld => 41,
            OpKind::Lbu => 42,
            OpKind::Lhu => 43,
            OpKind::Lwu => 44,
            OpKind::Sb => 45,
            OpKind::Sh => 46,
            OpKind::Sw => 47,
            OpKind::Sd => 48,
            OpKind::Mul => 49,
            OpKind::Mulh => 50,
            OpKind::Mulhsu => 51,
            OpKind::Mulhu => 52,
            OpKind::Div => 53,
            OpKind::Divu => 54,
            OpKind::Rem => 55,
            OpKind::Remu => 56,
            OpKind::Mulw => 57,
            OpKind::Divw => 58,
            OpKind::Divuw => 59,
            OpKind::Remw => 60,
            OpKind::Remuw => 61,
            OpKind::AmoW => 62,
            OpKind::AmoD => 63,
        }
    }

    /// The kind with wire code `code`, if there is one.
    pub open spec fn spec_from_code(code: u8) -> Option<OpKind> {
        match code {
            1 => Some(OpKind::Const),
            2 => Some(OpKind::Addi),
            3 => Some(OpKind::Addiw),
            4 => Some(OpKind::Andi),
            5 => Some(OpKind::Ori),
            6 => Some(OpKind::Xori),
            7 => Some(OpKind::Slti),
            8 => Some(OpKind::Sltiu),
            9 => Some(OpKind::Slli),
            10 => Some(OpKind::Srli),
            11 => Some(OpKind::Srai),
            12 => Some(OpKind::Slliw),
            13 => Some(OpKind::Srliw),
            14 => Some(OpKind::Sraiw),
            15 => Some(OpKind::Add),
            16 => Some(OpKind::Sub),
            17 => Some(OpKind::And),
            18 => Some(OpKind::Or),
            19 => Some(OpKind::Xor),
            20 => Some(OpKind::Sll),
            21 => Some(OpKind::Srl),
            22 => Some(OpKind::Sra),
            23 => Some(OpKind::Slt),
            24 => Some(OpKind::Sltu),
            25 => Some(OpKind::Addw),
            26 => Some(OpKind::Subw),
            27 => Some(OpKind::Sllw),
            28 => Some(OpKind::Srlw),
            29 => Some(OpKind::Sraw),
            30 => Some(OpKind::Jal),
            31 => Some(OpKind::Jalr),
            32 => Some(OpKind::Beq),
            33 => Some(OpKind::Bne),
            34 => Some(OpKind::Blt),
            35 => Some(OpKind::Bge),
            36 => Some(OpKind::Bltu),
            37 => Some(OpKind::Bgeu),
            38 => Some(OpKind::Lb),
            39 => Some(OpKind::Lh),
            40 => Some(OpKind::Lw),
            41 => Some(OpKind::Ld),
            42 => Some(OpKind::Lbu),
            43 => Some(OpKind::Lhu),
            44 => Some(OpKind::Lwu),
            45 => Some(OpKind::Sb),
            46 => Some(OpKind::Sh),
            47 => Some(OpKind::Sw),
            48 => Some(OpKind::Sd),
            49 => Some(OpKind::Mul),
            50 => Some(OpKind::Mulh),
            51 => Some(OpKind::Mulhsu),
            52 => Some(OpKind::Mulhu),
            53 => Some(OpKind::Div),
            54 => Some(OpKind::Divu),
            55 => Some(OpKind::Rem),
            56 => Some(OpKind::Remu),
            57 => Some(OpKind::Mulw),
            58 => Some(OpKind::Divw),
            59 => Some(OpKind::Divuw),
            60 => Some(OpKind::Remw),
            61 => Some(OpKind::Remuw),
            62 => Some(OpKind::AmoW),
            63 => Some(OpKind::AmoD),
            _ => None,
        }
    }

    /// The wire code of this kind.
    pub fn code(self) -> (c: u8)
        ensures
            c == self.spec_code(),
            1 <= c <= 63,
    {
        match self {
            OpKind::Const => 1,
            OpKind::Addi => 2,
            OpKind::Addiw => 3,
            OpKind::Andi => 4,
            OpKind::Ori => 5,
            OpKind::Xori => 6,
            OpKind::Slti => 7,
            OpKind::Sltiu => 8,
            OpKind::Slli => 9,
            OpKind::Srli => 10,
            OpKind::Srai => 11,
            OpKind::Slliw => 12,
            OpKind::Srliw => 13,
            OpKind::Sraiw => 14,
            OpKind::Add => 15,
            OpKind::Sub => 16,
            OpKind::And => 17,
            OpKind::Or => 18,
            OpKind::Xor => 19,
            OpKind::Sll => 20,
            OpKind::Srl => 21,
            OpKind::Sra => 22,
            OpKind::Slt => 23,
            OpKind::Sltu => 24,
            OpKind::Addw => 25,
            OpKind::Subw => 26,
            OpKind::Sllw => 27,
            OpKind::Srlw => 28,
            OpKind::Sraw => 29,
            OpKind::Jal => 30,
            OpKind::Jalr => 31,
            OpKind::Beq => 32,
            OpKind::Bne => 33,
            OpKind::Blt => 34,
            OpKind::Bge => 35,
            OpKind::Bltu => 36,
            OpKind::Bgeu => 37,
            OpKind::Lb => 38,
            OpKind::Lh => 39,
            OpKind::Lw => 40,
            OpKind::Ld => 41,
            OpKind::Lbu => 42,
            OpKind::Lhu => 43,
            OpKind::Lwu => 44,
            OpKind::Sb => 45,
            OpKind::Sh => 46,
            OpKind::Sw => 47,
            OpKind::Sd => 48,
            OpKind::Mul => 49,
            OpKind::Mulh => 50,
            OpKind::Mulhsu => 51,
            OpKind::Mulhu => 52,
            OpKind::Div => 53,
            OpKind::Divu => 54,
            OpKind::Rem => 55,
            OpKind::Remu => 56,
            OpKind::Mulw => 57,
            OpKind::Divw => 58,
            OpKind::Divuw => 59,
            OpKind::Remw => 60,
            OpKind::Remuw => 61,
            OpKind::AmoW => 62,
            OpKind::AmoD => 63,
        }
    }

    /// The kind that `code` stands for; `None` exactly when no kind has that code.
    pub fn from_code(code: u8) -> (k: Option<OpKind>)
        ensures
            k == OpKind::spec_from_code(code),
            k is Some <==> 1 <= code <= 63,
    {
        match code {
            1 => Some(OpKind::Const),
            2 => Some(OpKind::Addi),
            3 => Some(OpKind::Addiw),
            4 => Some(OpKind::Andi),
            5 => Some(OpKind::Ori),
            6 => Some(OpKind::Xori),
            7 => Some(OpKind::Slti),
            8 => Some(OpKind::Sltiu),
            9 => Some(OpKind::Slli),
            10 => Some(OpKind::Srli),
            11 => Some(OpKind::Srai),
            12 => Some(OpKind::Slliw),
            13 => Some(OpKind::Srliw),
            14 => Some(OpKind::Sraiw),
            15 => Some(OpKind::Add),
            16 => Some(OpKind::Sub),
            17 => Some(OpKind::And),
            18 => Some(OpKind::Or),
            19 => Some(OpKind::Xor),
            20 => Some(OpKind::Sll),
            21 => Some(OpKind::Srl),
            22 => Some(OpKind::Sra),
            23 => Some(OpKind::Slt),
            24 => Some(OpKind::Sltu),
            25 => Some(OpKind::Addw),
            26 => Some(OpKind::Subw),
            27 => Some(OpKind::Sllw),
            28 => Some(OpKind::Srlw),
            29 => Some(OpKind::Sraw),
            30 => Some(OpKind::Jal),
            31 => Some(OpKind::Jalr),
            32 => Some(OpKind::Beq),
            33 => Some(OpKind::Bne),
            34 => Some(OpKind::Blt),
            35 => Some(OpKind::Bge),
            36 => Some(OpKind::Bltu),
            37 => Some(OpKind::Bgeu),
            38 => Some(OpKind::Lb),
            39 => Some(OpKind::Lh),
            40 => Some(OpKind::Lw),
            41 => Some(OpKind::Ld),
            42 => Some(OpKind::Lbu),
            43 => Some(OpKind::Lhu),
            44 => Some(OpKind::Lwu),
            45 => Some(OpKind::Sb),
            46 => Some(OpKind::Sh),
            47 => Some(OpKind::Sw),
            48 => Some(OpKind::Sd),
            49 => Some(OpKind::Mul),
            50 => Some(OpKind::Mulh),
            51 => Some(OpKind::Mulhsu),
            52 => Some(OpKind::Mulhu),
            53 => Some(OpKind::Div),
            54 => Some(OpKind::Divu),
            55 => Some(OpKind::Rem),
            56 => Some(OpKind::Remu),
            57 => Some(OpKind::Mulw),
            58 => Some(OpKind::Divw),
            59 => Some(OpKind::Divuw),
            60 => Some(OpKind::Remw),
            61 => Some(OpKind::Remuw),
            62 => Some(OpKind::AmoW),
            63 => Some(OpKind::AmoD),
            _ => None,
        }
    }

    /// Wire codes and kinds correspond one to one.
    pub proof fn law_code_roundtrip(self)
        ensures
            OpKind::spec_from_code(self.spec_code()) == Some(self),
            forall|code: u8|
                #[trigger] OpKind::spec_from_code(code) == Some(self) ==> code == self.spec_code(),
    {
    }
}

/// The fields of one wire tuple after its integers are decoded.
#[derive(Clone, Copy, Debug, PartialEq, Eq, Structural)]
pub struct Fields {
    pub rd: u32,
    pub rs1: u32,
    pub rs2: u32,
    pub imm: i64,
}


impl Fields {
    /// A load keeps its pc offset in the field of the unused second source.
    pub open spec fn spec_load(self, w: LoadW) -> Op {
        Op::Load { w, rd: self.rd, rs1: self.rs1, imm: self.imm, pc_off: self.rs2 }
    }

    /// A store keeps its pc offset in the field of the unused destination.
    pub open spec fn spec_store(self, w: StoreW) -> Op {
        Op::Store { w, rs1: self.rs1, rs2: self.rs2, imm: self.imm, pc_off: self.rd }
    }

    /// A product, quotient or remainder.
    pub open spec fn spec_mul_div(self, op: MulDivOp) -> Op {
        Op::MulDiv { op, rd: self.rd, rs1: self.rs1, rs2: self.rs2 }
    }

    /// An atomic packs `funct5` into bits 0..8 of `imm` and its pc offset into
    /// bits 8..24.
    pub open spec fn spec_amo(self, w: AmoW) -> Op {
        Op::Amo {
            w,
            rd: self.rd,
            rs1: self.rs1,
            rs2: self.rs2,
            funct5: (self.imm as int % 0x100) as u32,
            pc_off: (self.imm as int / 0x100 % 0x1_0000) as u32,
        }
    }

    /// The operation that a tuple of this kind and these fields stands for.
    pub open spec fn spec_op(self, kind: OpKind) -> Op {
        let shamt = (self.imm as int % 0x1_0000_0000) as u32;
        match kind {
            OpKind::Const => Op::Const { rd: self.rd, imm: self.imm },
            OpKind::Addi => Op::Addi { rd: self.rd, rs1: self.rs1, imm: self.imm },
            OpKind::Addiw => Op::Addiw { rd: self.rd, rs1: self.rs1, imm: self.imm },
            OpKind::Andi => Op::Andi { rd: self.rd, rs1: self.rs1, imm: self.imm },
            OpKind::Ori => Op::Ori { rd: self.rd, rs1: self.rs1, imm: self.imm },
            OpKind::Xori => Op::Xori { rd: self.rd, rs1: self.rs1, imm: self.imm },
            OpKind::Slti => Op::Slti { rd: self.rd, rs1: self.rs1, imm: self.imm },
            OpKind::Sltiu => Op::Sltiu { rd: self.rd, rs1: self.rs1, imm: self.imm },
            OpKind::Slli => Op::Slli { rd: self.rd, rs1: self.rs1, shamt },
            OpKind::Srli => Op::Srli { rd: self.rd, rs1: self.rs1, shamt },
            OpKind::Srai => Op::Srai { rd: self.rd, rs1: self.rs1, shamt },
            OpKind::Slliw => Op::Slliw { rd: self.rd, rs1: self.rs1, shamt },
            OpKind::Srliw => Op::Srliw { rd: self.rd, rs1: self.rs1, shamt },
            OpKind::Sraiw => Op::Sraiw { rd: self.rd, rs1: self.rs1, shamt },
            OpKind::Add => Op::Add { rd: self.rd, rs1: self.rs1, rs2: self.rs2 },
            OpKind::Sub => Op::Sub { rd: self.rd, rs1: self.rs1, rs2: self.rs2 },
            OpKind::And => Op::And { rd: self.rd, rs1: self.rs1, rs2: self.rs2 },
            OpKind::Or => Op::Or { rd: self.rd, rs1: self.rs1, rs2: self.rs2 },
            OpKind::Xor => Op::Xor { rd: self.rd, rs1: self.rs1, rs2: self.rs2 },
            OpKind::Sll => Op::Sll { rd: self.rd, rs1: self.rs1, rs2: self.rs2 },
            OpKind::Srl => Op::Srl { rd: self.rd, rs1: self.rs1, rs2: self.rs2 },
            OpKind::Sra => Op::Sra { rd: self.rd, rs1: self.rs1, rs2: self.rs2 },
            OpKind::Slt => Op::Slt { rd: self.rd, rs1: self.rs1, rs2: self.rs2 },
            OpKind::Sltu => Op::Sltu { rd: self.rd, rs1: self.rs1, rs2: self.rs2 },
            OpKind::Addw => Op::Addw { rd: self.rd, rs1: self.rs1, rs2: self.rs2 },
            OpKind::Subw => Op::Subw { rd: self.rd, rs1: self.rs1, rs2: self.rs2 },
            OpKind::Sllw => Op::Sllw { rd: self.rd, rs1: self.rs1, rs2: self.rs2 },
            OpKind::Srlw => Op::Srlw { rd: self.rd, rs1: self.rs1, rs2: self.rs2 },
            OpKind::Sraw => Op::Sraw { rd: self.rd, rs1: self.rs1, rs2: self.rs2 },
            OpKind::Jal => Op::Jal { rd: self.rd, target_pc: self.imm },
            OpKind::Jalr => Op::Jalr { rd: self.rd, rs1: self.rs1, imm: self.imm },
            OpKind::Beq => Op::Beq { rs1: self.rs1, rs2: self.rs2, target_pc: self.imm },
            OpKind::Bne => Op::Bne { rs1: self.rs1, rs2: self.rs2, target_pc: self.imm },
            OpKind::Blt => Op::Blt { rs1: self.rs1, rs2: self.rs2, target_pc: self.imm },
            OpKind::Bge => Op::Bge { rs1: self.rs1, rs2: self.rs2, target_pc: self.imm },
            OpKind::Bltu => Op::Bltu { rs1: self.rs1, rs2: self.rs2, target_pc: self.imm },
            OpKind::Bgeu => Op::Bgeu { rs1: self.rs1, rs2: self.rs2, target_pc: self.imm },
            OpKind::Lb => self.spec_load(LoadW::B),
            OpKind::Lh => self.spec_load(LoadW::H),
            OpKind::Lw => self.spec_load(LoadW::W),
            OpKind::Ld => self.spec_load(LoadW::D),
            OpKind::Lbu => self.spec_load(LoadW::Bu),
            OpKind::Lhu => self.spec_load(LoadW::Hu),
            OpKind::Lwu => self.spec_load(LoadW::Wu),
            OpKind::Sb => self.spec_store(StoreW::B),
            OpKind::Sh => self.spec_store(StoreW::H),
            OpKind::Sw => self.spec_store(StoreW::W),
            OpKind::Sd => self.spec_store(StoreW::D),
            OpKind::Mul => self.spec_mul_div(MulDivOp::Mul),
            OpKind::Mulh => self.spec_mul_div(MulDivOp::Mulh),
            OpKind::Mulhsu => self.spec_mul_div(MulDivOp::Mulhsu),
            OpKind::Mulhu => self.spec_mul_div(MulDivOp::Mulhu),
            OpKind::Div => self.spec_mul_div(MulDivOp::Div),
            OpKind::Divu => self.spec_mul_div(MulDivOp::Divu),
            OpKind::Rem => self.spec_mul_div(MulDivOp::Rem),
            OpKind::Remu => self.spec_mul_div(MulDivOp::Remu),
            OpKind::Mulw => self.spec_mul_div(MulDivOp::Mulw),
            OpKind::Divw => self.spec_mul_div(MulDivOp::Divw),
            OpKind::Divuw => self.spec_mul_div(MulDivOp::Divuw),
            OpKind::Remw => self.spec_mul_div(MulDivOp::Remw),
            OpKind::Remuw => self.spec_mul_div(MulDivOp::Remuw),
            OpKind::AmoW => self.spec_amo(AmoW::W),
            OpKind::AmoD => self.spec_amo(AmoW::D),
        }
    }

    fn load(self, w: LoadW) -> (op: Op)
        ensures
            op == self.spec_load(w),
    {
        Op::Load { w, rd: self.rd, rs1: self.rs1, imm: self.imm, pc_off: self.rs2 }
    }

    fn store(self, w: StoreW) -> (op: Op)
        ensures
            op == self.spec_store(w),
    {
        Op::Store { w, rs1: self.rs1, rs2: self.rs2, imm: self.imm, pc_off: self.rd }
    }

    fn mul_div(self, op: MulDivOp) -> (r: Op)
        ensures
            r == self.spec_mul_div(op),
    {
        Op::MulDiv { op, rd: self.rd, rs1: self.rs1, rs2: self.rs2 }
    }

    fn amo(self, w: AmoW) -> (op: Op)
        ensures
            op == self.spec_amo(w),
    {
        let imm: i64 = self.imm;
        let funct5: u32 = (imm & 0xff) as u32;
        let pc_off: u32 = ((imm >> 8) & 0xffff) as u32;
        assert((imm & 0xff) as u32 == imm % 0x100 && ((imm >> 8) & 0xffff) as u32 == (imm / 0x100)
            % 0x1_0000) by (bit_vector);
        Op::Amo { w, rd: self.rd, rs1: self.rs1, rs2: self.rs2, funct5, pc_off }
    }

    /// Builds the operation that a tuple of this kind stands for.
    pub fn op(self, kind: OpKind) -> (op: Op)
        ensures
            op == self.spec_op(kind),
    {
        let imm: i64 = self.imm;
        let shamt: u32 = imm as u32;
        assert(imm as u32 == imm % 0x1_0000_0000) by (bit_vector);
        match kind {
            OpKind::Const => Op::Const { rd: self.rd, imm: self.imm },
            OpKind::Addi => Op::Addi { rd: self.rd, rs1: self.rs1, imm: self.imm },
            OpKind::Addiw => Op::Addiw { rd: self.rd, rs1: self.rs1, imm: self.imm },
            OpKind::Andi => Op::Andi { rd: self.rd, rs1: self.rs1, imm: self.imm },
            OpKind::Ori => Op::Ori { rd: self.rd, rs1: self.rs1, imm: self.imm },
            OpKind::Xori => Op::Xori { rd: self.rd, rs1: self.rs1, imm: self.imm },
            OpKind::Slti => Op::Slti { rd: self.rd, rs1: self.rs1, imm: self.imm },
            OpKind::Sltiu => Op::Sltiu { rd: self.rd, rs1: self.rs1, imm: self.imm },
            OpKind::Slli => Op::Slli { rd: self.rd, rs1: self.rs1, shamt },
            OpKind::Srli => Op::Srli { rd: self.rd, rs1: self.rs1, shamt },
            OpKind::Srai => Op::Srai { rd: self.rd, rs1: self.rs1, shamt },
            OpKind::Slliw => Op::Slliw { rd: self.rd, rs1: self.rs1, shamt },
            OpKind::Srliw => Op::Srliw { rd: self.rd, rs1: self.rs1, shamt },
            OpKind::Sraiw => Op::Sraiw { rd: self.rd, rs1: self.rs1, shamt },
            OpKind::Add => Op::Add { rd: self.rd, rs1: self.rs1, rs2: self.rs2 },
            OpKind::Sub => Op::Sub { rd: self.rd, rs1: self.rs1, rs2: self.rs2 },
            OpKind::And => Op::And { rd: self.rd, rs1: self.rs1, rs2: self.rs2 },
            OpKind::Or => Op::Or { rd: self.rd, rs1: self.rs1, rs2: self.rs2 },
            OpKind::Xor => Op::Xor { rd: self.rd, rs1: self.rs1, rs2: self.rs2 },
            OpKind::Sll => Op::Sll { rd: self.rd, rs1: self.rs1, rs2: self.rs2 },
            OpKind::Srl => Op::Srl { rd: self.rd, rs1: self.rs1, rs2: self.rs2 },
            OpKind::Sra => Op::Sra { rd: self.rd, rs1: self.rs1, rs2: self.rs2 },
            OpKind::Slt => Op::Slt { rd: self.rd, rs1: self.rs1, rs2: self.rs2 },
            OpKind::Sltu => Op::Sltu { rd: self.rd, rs1: self.rs1, rs2: self.rs2 },
            OpKind::Addw => Op::Addw { rd: self.rd, rs1: self.rs1, rs2: self.rs2 },
            OpKind::Subw => Op::Subw { rd: self.rd, rs1: self.rs1, rs2: self.rs2 },
            OpKind::Sllw => Op::Sllw { rd: self.rd, rs1: self.rs1, rs2: self.rs2 },
            OpKind::Srlw => Op::Srlw { rd: self.rd, rs1: self.rs1, rs2: self.rs2 },
            OpKind::Sraw => Op::Sraw { rd: self.rd, rs1: self.rs1, rs2: self.rs2 },
            OpKind::Jal => Op::Jal { rd: self.rd, target_pc: self.imm },
            OpKind::Jalr => Op::Jalr { rd: self.rd, rs1: self.rs1, imm: self.imm },
            OpKind::Beq => Op::Beq { rs1: self.rs1, rs2: self.rs2, target_pc: self.imm },
            OpKind::Bne => Op::Bne { rs1: self.rs1, rs2: self.rs2, target_pc: self.imm },
            OpKind::Blt => Op::Blt { rs1: self.rs1, rs2: self.rs2, target_pc: self.imm },
            OpKind::Bge => Op::Bge { rs1: self.rs1, rs2: self.rs2, target_pc: self.imm },
            OpKind::Bltu => Op::Bltu { rs1: self.rs1, rs2: self.rs2, target_pc: self.imm },
            OpKind::Bgeu => Op::Bgeu { rs1: self.rs1, rs2: self.rs2, target_pc: self.imm },
            OpKind::Lb => self.load(LoadW::B),
            OpKind::Lh => self.load(LoadW::H),
            OpKind::Lw => self.load(LoadW::W),
            OpKind::Ld => self.load(LoadW::D),
            OpKind::Lbu => self.load(LoadW::Bu),
            OpKind::Lhu => self.load(LoadW::Hu),
            OpKind::Lwu => self.load(LoadW::Wu),
            OpKind::Sb => self.store(StoreW::B),
            OpKind::Sh => self.store(StoreW::H),
            OpKind::Sw => self.store(StoreW::W),
            OpKind::Sd => self.store(StoreW::D),
            OpKind::Mul => self.mul_div(MulDivOp::Mul),
            OpKind::Mulh => self.mul_div(MulDivOp::Mulh),
            OpKind::Mulhsu => self.mul_div(MulDivOp::Mulhsu),
            OpKind::Mulhu => self.mul_div(MulDivOp::Mulhu),
            OpKind::Div => self.mul_div(MulDivOp::Div),
            OpKind::Divu => self.mul_div(MulDivOp::Divu),
            OpKind::Rem => self.mul_div(MulDivOp::Rem),
            OpKind::Remu => self.mul_div(MulDivOp::Remu),
            OpKind::Mulw => self.mul_div(MulDivOp::Mulw),
            OpKind::Divw => self.mul_div(MulDivOp::Divw),
            OpKind::Divuw => self.mul_div(MulDivOp::Divuw),
            OpKind::Remw => self.mul_div(MulDivOp::Remw),
            OpKind::Remuw => self.mul_div(MulDivOp::Remuw),
            OpKind::AmoW => self.amo(AmoW::W),
            OpKind::AmoD => self.amo(AmoW::D),
        }
    }
}

/// Whether the block ends at this operation, because it computes the next pc.
pub open spec fn spec_is_terminator(op: Op) -> bool {
    ||| op is Jal
    ||| op is Jalr
    ||| op is Beq
    ||| op is Bne
    ||| op is Blt
    ||| op is Bge
    ||| op is Bltu
    ||| op is Bgeu
}

impl Op {
    /// A terminator emits its own next pc; any other last operation is followed by
    /// the static end pc of the block.
    pub fn is_terminator(&self) -> (r: bool)
        ensures
            r == spec_is_terminator(*self),
    {
        matches!(
            self,
            Op::Jal { .. } | Op::Jalr { .. } | Op::Beq { .. } | Op::Bne { .. } | Op::Blt { .. }
                | Op::Bge { .. } | Op::Bltu { .. } | Op::Bgeu { .. }
        )
    }
}

/// The decoded integers of one tuple.
pub open spec fn tuple_fields(t: Seq<u8>) -> Fields
    recommends
        t.len() == TUPLE_SIZE,
{
    Fields {
        rd: le_val(t.subrange(2, 4)) as u32,
        rs1: le_val(t.subrange(4, 6)) as u32,
        rs2: le_val(t.subrange(6, 8)) as u32,
        imm: le_val(t.subrange(8, 16)) as u64 as i64,
    }
}

/// The operation that one tuple stands for, if its kind is known.
pub open spec fn decode_tuple(t: Seq<u8>) -> Option<Op>
    recommends
        t.len() == TUPLE_SIZE,
{
    match OpKind::spec_from_code(t[0]) {
        Some(kind) => Some(tuple_fields(t).spec_op(kind)),
        None => None,
    }
}

/// The `i`-th tuple of a stream.
pub open spec fn tuple_at(bytes: Seq<u8>, i: int) -> Seq<u8> {
    bytes.subrange(TUPLE_SIZE * i, TUPLE_SIZE * i + TUPLE_SIZE)
}

/// Number of whole tuples in a stream; a partial tuple at the end is ignored.
pub open spec fn tuple_count(bytes: Seq<u8>) -> nat {
    bytes.len() / TUPLE_SIZE as nat
}

/// Every whole tuple of the stream has a known kind.
pub open spec fn valid_ir(bytes: Seq<u8>) -> bool {
    forall|i: int|
        0 <= i < tuple_count(bytes) ==> 1 <= #[trigger] tuple_at(bytes, i)[0] <= 63
}

/// The operations that a stream stands for, in order.
pub open spec fn ir_ops(bytes: Seq<u8>) -> Seq<Op> {
    Seq::new(tuple_count(bytes), |i: int| decode_tuple(tuple_at(bytes, i))->0)
}

/// Tests whether every whole tuple of the stream has a known kind, as decoding
/// demands.
pub fn is_valid_ir(bytes: &[u8]) -> (r: bool)
    ensures
        r == valid_ir(bytes@),
{
    let len: usize = bytes.len();
    let n: usize = len / TUPLE_SIZE;
    let mut i: usize = 0;
    while i < n
        invariant
            len == bytes@.len(),
            n == len / TUPLE_SIZE,
            i <= n,
            forall|j: int| 0 <= j < i ==> 1 <= #[trigger] tuple_at(bytes@, j)[0] <= 63,
        decreases n - i,
    {
        let kind: u8 = bytes[i * TUPLE_SIZE];
        assert(kind == tuple_at(bytes@, i as int)[0]);
        if kind < 1 || kind > 63 {
            return false;
        }
        i = i + 1;
    }
    true
}

/// Decodes a stream of tuples.
pub fn parse_ir(bytes: &[u8]) -> (ops: Vec<Op>)
    requires
        valid_ir(bytes@),
    ensures
        ops@ == ir_ops(bytes@),
        ops@.len() == bytes@.len() / 16,
        forall|i: int|
            0 <= i < ops@.len() ==> decode_tuple(tuple_at(bytes@, i)) == Some(#[trigger] ops@[i]),
{
    let len: usize = bytes.len();
    let n: usize = len / TUPLE_SIZE;
    let mut ops: Vec<Op> = Vec::with_capacity(n);
    let mut i: usize = 0;
    while i < n
        invariant
            len == bytes@.len(),
            n == len / TUPLE_SIZE,
            i <= n,
            valid_ir(bytes@),
            ops@.len() == i,
            forall|j: int|
                0 <= j < i ==> decode_tuple(tuple_at(bytes@, j)) == Some(#[trigger] ops@[j]),
        decreases n - i,
    {
        let at: usize = i * TUPLE_SIZE;
        let ghost t = tuple_at(bytes@, i as int);
        let imm: u64 = read_le64(bytes, at + 8);
        let fields = Fields {
            rd: read_le16(bytes, at + 2) as u32,
            rs1: read_le16(bytes, at + 4) as u32,
            rs2: read_le16(bytes, at + 6) as u32,
            imm: imm as i64,
        };
        assert(t.subrange(2, 4) =~= bytes@.subrange(at + 2, at + 4));
        assert(t.subrange(4, 6) =~= bytes@.subrange(at + 4, at + 6));
        assert(t.subrange(6, 8) =~= bytes@.subrange(at + 6, at + 8));
        assert(t.subrange(8, 16) =~= bytes@.subrange(at + 8, at + 16));
        match OpKind::from_code(bytes[at]) {
            Some(kind) => {
                ops.push(fields.op(kind));
            },
            None => {
                assert(false) by {
                    assert(1 <= t[0] <= 63);
                }
            },
        }
        i = i + 1;
    }
    assert(ops@ =~= ir_ops(bytes@));
    ops
}

} // verus!
