//! The instruction set and the program a run executes.
//!
//! Angles of parametrized gates are carried as opaque 64-bit payloads
//! (the bit pattern of the radian value the front end parsed); the engine
//! never interprets them, it hands them to a matrix backend unchanged.

use vstd::prelude::*;

verus! {

use vstd::arithmetic::power2::pow2;

/// One operand of a classical instruction: an immediate value, or the index
/// of a classical register whose current value is read.
#[derive(Clone, Copy, Debug)]
pub enum Operand {
    Imm(i64),
    Reg(usize),
}

/// One instruction. Qubit and register operands are indices; `Qsel` selects
/// the quantum register later gates act on; `Hlt` ends the run successfully.
#[derive(Clone, Copy, Debug)]
pub enum Inst {
    /// Select the active quantum register.
    Qsel(usize),
    Id(usize),
    Hadamard(usize),
    X(usize),
    Y(usize),
    Z(usize),
    S(usize),
    T(usize),
    Sdg(usize),
    Tdg(usize),
    SqrtX(usize),
    /// Rotation about the x axis; the payload is the angle.
    Rx(usize, u64),
    Ry(usize, u64),
    Rz(usize, u64),
    /// Universal single-qubit gate with three angle payloads.
    U(usize, u64, u64, u64),
    /// Relative phase gate.
    P(usize, u64),
    /// Controlled Hadamard: control, then target.
    Ch(usize, usize),
    Cy(usize, usize),
    Cz(usize, usize),
    /// Controlled not: control, then target.
    Cnot(usize, usize),
    /// Doubly controlled not: two controls, then target.
    Ccnot(usize, usize, usize),
    Swap(usize, usize),
    SqrtSwap(usize, usize),
    /// `Add(dest, a, b)`: wrapping sum of the two operands, reduced to the
    /// destination register's width.
    Add(usize, Operand, Operand),
    Hlt,
}

/// The header counts a program is compiled with.
#[derive(Clone, Copy, Debug)]
pub struct Headers {
    /// Qubits per quantum register: each holds `2^qbits` amplitudes.
    pub qbits: u16,
    /// Bit-width of every classical register.
    pub cbits: u16,
    /// Number of quantum registers.
    pub qregs: usize,
    /// Number of classical registers.
    pub cregs: usize,
}

/// A compiled program: header counts plus the instruction sequence.
#[derive(Debug)]
pub struct Program {
    pub headers: Headers,
    pub instructions: Vec<Inst>,
}

/// The selector a single-qubit matrix instruction hands to a matrix backend:
/// which 2x2 unitary to apply, with angle payloads for parametrized gates.
#[derive(Clone, Copy, Debug)]
pub enum SingleGate {
    Id,
    Hadamard,
    X,
    Y,
    Z,
    S,
    T,
    Sdg,
    Tdg,
    SqrtX,
    Rx(u64),
    Ry(u64),
    Rz(u64),
    U(u64, u64, u64),
    R1(u64),
}

/// The two fatal errors a run can end with.
#[derive(Clone, Copy, Debug, PartialEq, Eq, Structural)]
pub enum EmulatorError {
    /// The program counter reached the end of the program without a `Hlt`.
    PCOutOfBounds,
    /// A `Qsel` named an index not strictly below the quantum register count.
    QregIndexOutOfBounds,
}

/// What one executed instruction asks the loop to do next.
#[derive(Clone, Copy, Debug, PartialEq, Eq, Structural)]
pub enum StepResult {
    Halted,
    Continue,
}

impl Headers {
    /// The machine the headers describe is constructible: classical words fit
    /// their storage, and the flat amplitude bank `qregs * 2^qbits` fits a
    /// `usize` (a machine limit: the bank is allocated in one piece).
    pub open spec fn config_ok(self) -> bool {
        &&& self.cbits < 64
        &&& pow2(self.qbits as nat) <= usize::MAX as nat
        &&& self.qregs * pow2(self.qbits as nat) <= usize::MAX as nat
    }
}

/// Validity of one instruction against the header counts: every qubit index
/// lies below `qbits`, every classical register reference below `cregs`, a
/// gate needs at least one quantum register to act on, and the two qubits of
/// `SqrtSwap` are distinct. (`Qsel`'s index is deliberately not here: it is
/// checked at execution time and yields `QregIndexOutOfBounds`.)
pub open spec fn inst_wf(i: Inst, h: Headers) -> bool {
    match i {
        Inst::Qsel(_) => true,
        Inst::Id(q) | Inst::Hadamard(q) | Inst::X(q) | Inst::Y(q) | Inst::Z(q)
        | Inst::S(q) | Inst::T(q) | Inst::Sdg(q) | Inst::Tdg(q) | Inst::SqrtX(q)
        | Inst::Rx(q, _) | Inst::Ry(q, _) | Inst::Rz(q, _) | Inst::U(q, _, _, _)
        | Inst::P(q, _) => q < h.qbits as usize && h.qregs >= 1,
        Inst::Ch(c, t) | Inst::Cy(c, t) | Inst::Cz(c, t) | Inst::Cnot(c, t) => {
            c < h.qbits as usize && t < h.qbits as usize && h.qregs >= 1
        },
        Inst::Ccnot(c1, c2, t) => c1 < h.qbits as usize && c2 < h.qbits as usize && t < h.qbits
            as usize && h.qregs >= 1,
        Inst::Swap(a, b) => a < h.qbits as usize && b < h.qbits as usize && h.qregs >= 1,
        Inst::SqrtSwap(a, b) => a < h.qbits as usize && b < h.qbits as usize && a != b && h.qregs
            >= 1,
        Inst::Add(d, a, b) => d < h.cregs && operand_wf(a, h) && operand_wf(b, h),
        Inst::Hlt => true,
    }
}

pub open spec fn operand_wf(o: Operand, h: Headers) -> bool {
    match o {
        Operand::Imm(_) => true,
        Operand::Reg(r) => r < h.cregs,
    }
}

impl Program {
    /// A program the engine accepts: constructible headers and valid
    /// instruction operands throughout.
    pub open spec fn wf(self) -> bool {
        &&& self.headers.config_ok()
        &&& forall|k: int| 0 <= k < self.instructions.len() ==> inst_wf(
            #[trigger] self.instructions[k],
            self.headers,
        )
    }
}

} // verus!

verus! {

use vstd::arithmetic::power2::{lemma_pow2_pos, lemma_pow2_strictly_increases};
use vstd::bits::{lemma_usize_shl_is_mul, lemma_usize_pow2_no_overflow};

impl Headers {
    /// Decides `config_ok` executably: rejects classical widths that do not
    /// fit the word storage and amplitude banks that would not fit memory.
    pub fn check(&self) -> (b: bool)
        ensures
            b == self.config_ok(),
    {
        if self.cbits >= 64 {
            return false;
        }
        if self.qbits as u32 >= usize::BITS {
            proof {
                vstd::layout::unsigned_int_max_values();
                if self.qbits as nat > usize::BITS as nat {
                    lemma_pow2_strictly_increases(usize::BITS as nat, self.qbits as nat);
                }
            }
            return false;
        }
        proof {
            lemma_usize_pow2_no_overflow(self.qbits as nat);
        }
        let n: usize = 1usize << (self.qbits as usize);
        proof {
            lemma_usize_shl_is_mul(1, self.qbits as usize);
        }
        match self.qregs.checked_mul(n) {
            Some(_) => true,
            None => false,
        }
    }
}

/// Decides `inst_wf` executably.
pub fn inst_check(i: Inst, h: Headers) -> (b: bool)
    ensures
        b == inst_wf(i, h),
{
    let qb = h.qbits as usize;
    match i {
        Inst::Qsel(_) => true,
        Inst::Id(q) | Inst::Hadamard(q) | Inst::X(q) | Inst::Y(q) | Inst::Z(q) | Inst::S(q)
        | Inst::T(q) | Inst::Sdg(q) | Inst::Tdg(q) | Inst::SqrtX(q) | Inst::Rx(q, _)
        | Inst::Ry(q, _) | Inst::Rz(q, _) | Inst::U(q, _, _, _) | Inst::P(q, _) => q < qb
            && h.qregs >= 1,
        Inst::Ch(c, t) | Inst::Cy(c, t) | Inst::Cz(c, t) | Inst::Cnot(c, t) => c < qb && t < qb
            && h.qregs >= 1,
        Inst::Ccnot(c1, c2, t) => c1 < qb && c2 < qb && t < qb && h.qregs >= 1,
        Inst::Swap(a, b) => a < qb && b < qb && h.qregs >= 1,
        Inst::SqrtSwap(a, b) => a < qb && b < qb && a != b && h.qregs >= 1,
        Inst::Add(d, a, b) => {
            let a_ok = match a {
                Operand::Imm(_) => true,
                Operand::Reg(r) => r < h.cregs,
            };
            let b_ok = match b {
                Operand::Imm(_) => true,
                Operand::Reg(r) => r < h.cregs,
            };
            d < h.cregs && a_ok && b_ok
        },
        Inst::Hlt => true,
    }
}

impl Program {
    /// Decides `wf` executably: accepts exactly the programs the engine's
    /// contracts ask for. A front end (or embedding caller) runs this once
    /// at load time; a rejected program never reaches the engine.
    pub fn validate(&self) -> (b: bool)
        ensures
            b == self.wf(),
    {
        if !self.headers.check() {
            return false;
        }
        let mut k: usize = 0;
        while k < self.instructions.len()
            invariant
                k <= self.instructions@.len(),
                self.headers.config_ok(),
                forall|j: int|
                    0 <= j < k ==> inst_wf(#[trigger] self.instructions@[j], self.headers),
            decreases self.instructions@.len() - k,
        {
            if !inst_check(self.instructions[k], self.headers) {
                proof {
                    assert(!inst_wf(self.instructions@[k as int], self.headers));
                }
                return false;
            }
            k += 1;
        }
        true
    }
}

} // verus!
