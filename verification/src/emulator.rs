//! The execution engine: a sequential fetch-execute loop over a bank of
//! quantum registers and a bank of classical words.
//!
//! The engine is generic over the amplitude type `A` and takes all matrix
//! arithmetic as two backend closures: `f1` applies a selected 2x2 unitary to
//! an amplitude pair, `f2` applies the 4x4 square-root-of-swap matrix to an
//! amplitude quadruple. Everything else — which amplitudes move where, the
//! classical arithmetic, the bound checks and the two fatal errors — is fixed
//! exactly by the contracts below.

use vstd::prelude::*;

verus! {

use vstd::arithmetic::power2::{pow2, lemma_pow2_pos, lemma_pow2_adds};
use vstd::arithmetic::mul::lemma_mul_inequality;
use vstd::arithmetic::div_mod::lemma_mod_multiples_vanish;
use vstd::bits::{lemma_usize_shl_is_mul, lemma_usize_pow2_no_overflow};

use crate::word::Word;
use crate::program::{
    Program, Inst, Operand, SingleGate, EmulatorError, StepResult, inst_wf,
};
use crate::kernels::{
    qmask, pair_okp, quad_okp, cpair_okp, frame_outside, cnot_src, ccnot_src, swap_src,
    lemma_pow2_fits_usize, apply_mat_1, apply_mat_2, apply_controlled_mat, apply_cnot, apply_ccnot,
    apply_swap,
};

/// The machine state: register banks, program counter, selected register.
/// The quantum bank is flat: register `j` occupies the `n_states == 2^qbits`
/// amplitudes starting at `j * n_states`.
pub struct Emulator<A> {
    pub qbits: u16,
    pub cbits: u16,
    /// Number of quantum registers.
    pub qreg_count: usize,
    /// Amplitudes per quantum register: `2^qbits`.
    pub n_states: usize,
    /// The flat amplitude bank.
    pub qamps: Vec<A>,
    /// The classical registers, all of width `cbits`.
    pub cregs: Vec<Word>,
    /// Index of the next instruction.
    pub pc: usize,
    /// The quantum register gates act on.
    pub qreg_sel: usize,
}

/// The 2x2 gate selected by a single-qubit instruction, with its target
/// qubit, or `None` for every other instruction.
pub open spec fn single_gate_of(inst: Inst) -> Option<(SingleGate, usize)> {
    match inst {
        Inst::Id(q) => Some((SingleGate::Id, q)),
        Inst::Hadamard(q) => Some((SingleGate::Hadamard, q)),
        Inst::X(q) => Some((SingleGate::X, q)),
        Inst::Y(q) => Some((SingleGate::Y, q)),
        Inst::Z(q) => Some((SingleGate::Z, q)),
        Inst::S(q) => Some((SingleGate::S, q)),
        Inst::T(q) => Some((SingleGate::T, q)),
        Inst::Sdg(q) => Some((SingleGate::Sdg, q)),
        Inst::Tdg(q) => Some((SingleGate::Tdg, q)),
        Inst::SqrtX(q) => Some((SingleGate::SqrtX, q)),
        Inst::Rx(q, th) => Some((SingleGate::Rx(th), q)),
        Inst::Ry(q, th) => Some((SingleGate::Ry(th), q)),
        Inst::Rz(q, th) => Some((SingleGate::Rz(th), q)),
        Inst::U(q, th, ph, la) => Some((SingleGate::U(th, ph, la), q)),
        Inst::P(q, th) => Some((SingleGate::R1(th), q)),
        _ => None,
    }
}

/// The 2x2 gate of a controlled instruction with its control and target, or
/// `None`.
pub open spec fn ctrl_gate_of(inst: Inst) -> Option<(SingleGate, usize, usize)> {
    match inst {
        Inst::Ch(c, t) => Some((SingleGate::Hadamard, c, t)),
        Inst::Cy(c, t) => Some((SingleGate::Y, c, t)),
        Inst::Cz(c, t) => Some((SingleGate::Z, c, t)),
        _ => None,
    }
}

impl<A: Copy> Emulator<A> {
    /// Structural well-formedness: the flat bank has exactly
    /// `qreg_count * 2^qbits` amplitudes, every classical register is a
    /// well-formed word of width `cbits`, and the selected register is in
    /// range (or 0 on a machine without quantum registers).
    pub open spec fn wf(self) -> bool {
        &&& self.cbits < 64
        &&& self.n_states == pow2(self.qbits as nat)
        &&& self.qamps@.len() == self.qreg_count * self.n_states
        &&& (self.qreg_sel < self.qreg_count || (self.qreg_sel == 0 && self.qreg_count == 0))
        &&& forall|j: int|
            0 <= j < self.cregs@.len() ==> (#[trigger] self.cregs@[j]).wf() && self.cregs@[j].bits
                == self.cbits
    }

    /// The engine was built from this program's headers.
    pub open spec fn matches_program(self, prog: Program) -> bool {
        &&& self.qbits == prog.headers.qbits
        &&& self.cbits == prog.headers.cbits
        &&& self.qreg_count == prog.headers.qregs
        &&& self.cregs@.len() == prog.headers.cregs
    }

    /// Flat offset of the selected quantum register.
    pub open spec fn sel_base(self) -> int {
        self.qreg_sel * self.n_states
    }

    /// The value an operand resolves to: the immediate itself, or the current
    /// value of the referenced classical register.
    pub open spec fn operand_val(self, o: Operand) -> int {
        match o {
            Operand::Imm(v) => v as int,
            Operand::Reg(r) => self.cregs@[r as int].spec_val(),
        }
    }

    /// Loads a program: every quantum register starts in the all-zero basis
    /// state (amplitude `one` at index 0, `zero` elsewhere), every classical
    /// register at 0, the program counter at 0, register 0 selected.
    pub fn new(prog: &Program, zero: A, one: A) -> (e: Emulator<A>)
        requires
            prog.headers.config_ok(),
        ensures
            e.wf(),
            e.matches_program(*prog),
            e.pc == 0,
            e.qreg_sel == 0,
            forall|i: int|
                0 <= i < e.qamps@.len() ==> e.qamps@[i] == (if i % (e.n_states as int) == 0 {
                    one
                } else {
                    zero
                }),
            forall|j: int| 0 <= j < e.cregs@.len() ==> (#[trigger] e.cregs@[j]).spec_val() == 0,
    {
        let h = prog.headers;
        proof {
            lemma_pow2_fits_usize(h.qbits as nat);
            lemma_usize_pow2_no_overflow(h.qbits as nat);
            lemma_pow2_pos(h.qbits as nat);
            lemma_pow2_pos(h.cbits as nat);
        }
        let n: usize = 1usize << (h.qbits as usize);
        proof {
            lemma_usize_shl_is_mul(1, h.qbits as usize);
        }
        let total: usize = h.qregs * n;
        let mut qamps: Vec<A> = Vec::new();
        let mut i: usize = 0;
        while i < total
            invariant
                i <= total,
                n == pow2(h.qbits as nat),
                n >= 1,
                qamps@.len() == i,
                forall|k: int|
                    0 <= k < i ==> qamps@[k] == (if k % (n as int) == 0 {
                        one
                    } else {
                        zero
                    }),
            decreases total - i,
        {
            if i % n == 0 {
                qamps.push(one);
            } else {
                qamps.push(zero);
            }
            i += 1;
        }
        let mut cregs: Vec<Word> = Vec::new();
        let mut j: usize = 0;
        while j < h.cregs
            invariant
                j <= h.cregs,
                h.cbits < 64,
                cregs@.len() == j,
                forall|k: int|
                    0 <= k < j ==> (#[trigger] cregs@[k]) == (Word { bits: h.cbits, data: 0u64 }),
            decreases h.cregs - j,
        {
            cregs.push(Word { bits: h.cbits, data: 0 });
            j += 1;
        }
        proof {
            lemma_pow2_pos(h.cbits as nat);
        }
        Emulator {
            qbits: h.qbits,
            cbits: h.cbits,
            qreg_count: h.qregs,
            n_states: n,
            qamps,
            cregs,
            pc: 0,
            qreg_sel: 0,
        }
    }

    /// Resolves an operand: an immediate as-is, a register reference to the
    /// register's current (masked) value.
    pub fn get_val(&self, thing: Operand) -> (r: i64)
        requires
            self.wf(),
            (thing matches Operand::Reg(reg) ==> reg < self.cregs@.len()),
        ensures
            r == self.operand_val(thing),
    {
        match thing {
            Operand::Imm(imm) => imm,
            Operand::Reg(reg) => self.cregs[reg].get_val(),
        }
    }

    /// Flat offset of the selected register, with room for one full register
    /// above it.
    fn gate_base(&self) -> (b: usize)
        requires
            self.wf(),
            self.qreg_sel < self.qreg_count,
        ensures
            b == self.sel_base(),
            b + pow2(self.qbits as nat) <= self.qamps@.len(),
    {
        let l = self.qamps.len();
        proof {
            assert((self.qreg_sel + 1) * self.n_states == self.qreg_sel * self.n_states
                + self.n_states) by (nonlinear_arith);
            lemma_mul_inequality(
                self.qreg_sel as int + 1,
                self.qreg_count as int,
                self.n_states as int,
            );
            assert(l == self.qreg_count * self.n_states);
        }
        self.qreg_sel * self.n_states
    }
}

} // verus!

verus! {

/// Effect of a single-qubit matrix gate on the machine: the selected
/// register's pairs by qubit `q` were transformed by the backend on gate `g`,
/// nothing else moved.
pub open spec fn gate1_applied<A: Copy, F1: Fn(SingleGate, A, A) -> (A, A)>(
    pre: Emulator<A>,
    post: Emulator<A>,
    g: SingleGate,
    q: usize,
    f1: F1,
) -> bool {
    &&& frame_outside(pre.qamps@, post.qamps@, pre.sel_base(), pow2(pre.qbits as nat) as int)
    &&& forall|s: usize|
        s < pow2(pre.qbits as nat) && s & qmask(q) == 0 ==> #[trigger] pair_okp(
            f1,
            g,
            pre.qamps@,
            post.qamps@,
            pre.sel_base(),
            s,
            q,
        )
}

/// Effect of a controlled single-target gate with one control qubit `c`:
/// pairs by target `t` whose control bit is set were transformed, all other
/// amplitudes are unchanged.
pub open spec fn ctrl1_applied<A: Copy, F1: Fn(SingleGate, A, A) -> (A, A)>(
    pre: Emulator<A>,
    post: Emulator<A>,
    g: SingleGate,
    c: usize,
    t: usize,
    f1: F1,
) -> bool {
    &&& frame_outside(pre.qamps@, post.qamps@, pre.sel_base(), pow2(pre.qbits as nat) as int)
    &&& forall|s: usize|
        s < pow2(pre.qbits as nat) && s & qmask(t) == 0 ==> #[trigger] cpair_okp(
            f1,
            g,
            seq![c],
            pre.qamps@,
            post.qamps@,
            pre.sel_base(),
            s,
            t,
        )
}

/// Effect of the 4x4 square-root-of-swap gate: every quadruple over the two
/// qubits was transformed by the backend `f2`, nothing else moved.
pub open spec fn gate2_applied<A: Copy, F2: Fn(A, A, A, A) -> (A, A, A, A)>(
    pre: Emulator<A>,
    post: Emulator<A>,
    q1: usize,
    q2: usize,
    f2: F2,
) -> bool {
    &&& frame_outside(pre.qamps@, post.qamps@, pre.sel_base(), pow2(pre.qbits as nat) as int)
    &&& forall|s: usize|
        s < pow2(pre.qbits as nat) && s & qmask(q1) == 0 && s & qmask(q2) == 0
            ==> #[trigger] quad_okp(f2, pre.qamps@, post.qamps@, pre.sel_base(), s, q1, q2)
}

/// What executing instruction `inst` does to the machine and what it returns.
/// This is the dispatch contract of `Emulator::step`, one implication per
/// instruction shape.
pub open spec fn step_effect<
    A: Copy,
    F1: Fn(SingleGate, A, A) -> (A, A),
    F2: Fn(A, A, A, A) -> (A, A, A, A),
>(
    pre: Emulator<A>,
    post: Emulator<A>,
    inst: Inst,
    r: Result<StepResult, EmulatorError>,
    f1: F1,
    f2: F2,
) -> bool {
    &&& (inst is Hlt ==> r == Ok::<StepResult, EmulatorError>(StepResult::Halted) && post == pre)
    &&& (inst matches Inst::Qsel(idx) ==> (if idx < pre.qreg_count {
        r == Ok::<StepResult, EmulatorError>(StepResult::Continue) && post == (Emulator {
            qreg_sel: idx,
            ..pre
        })
    } else {
        r == Err::<StepResult, EmulatorError>(EmulatorError::QregIndexOutOfBounds) && post == pre
    }))
    &&& (inst matches Inst::Add(d, a, b) ==> {
        &&& r == Ok::<StepResult, EmulatorError>(StepResult::Continue)
        &&& post.qamps@ == pre.qamps@
        &&& post.qreg_sel == pre.qreg_sel
        &&& post.cregs@.len() == pre.cregs@.len()
        &&& forall|j: int|
            0 <= j < pre.cregs@.len() && j != d ==> post.cregs@[j] == pre.cregs@[j]
        &&& post.cregs@[d as int].bits == pre.cregs@[d as int].bits
        &&& post.cregs@[d as int].spec_val() == (pre.operand_val(a) + pre.operand_val(b))
            % pre.cregs@[d as int].modulus()
    })
    &&& (single_gate_of(inst) matches Some((g, q)) ==> {
        &&& r == Ok::<StepResult, EmulatorError>(StepResult::Continue)
        &&& post.qreg_sel == pre.qreg_sel
        &&& post.cregs@ == pre.cregs@
        &&& gate1_applied(pre, post, g, q, f1)
    })
    &&& (ctrl_gate_of(inst) matches Some((g, c, t)) ==> {
        &&& r == Ok::<StepResult, EmulatorError>(StepResult::Continue)
        &&& post.qreg_sel == pre.qreg_sel
        &&& post.cregs@ == pre.cregs@
        &&& ctrl1_applied(pre, post, g, c, t, f1)
    })
    &&& (inst matches Inst::Cnot(c, t) ==> {
        &&& r == Ok::<StepResult, EmulatorError>(StepResult::Continue)
        &&& post.qreg_sel == pre.qreg_sel
        &&& post.cregs@ == pre.cregs@
        &&& frame_outside(pre.qamps@, post.qamps@, pre.sel_base(), pow2(pre.qbits as nat) as int)
        &&& forall|i: usize|
            i < pow2(pre.qbits as nat) ==> post.qamps@[pre.sel_base() + i] == pre.qamps@[
                pre.sel_base() + #[trigger] cnot_src(i, c, t)]
        &&& post.qamps@.subrange(pre.sel_base(), pre.sel_base() + pow2(pre.qbits as nat)).to_multiset()
            == pre.qamps@.subrange(pre.sel_base(), pre.sel_base() + pow2(pre.qbits as nat)).to_multiset()
    })
    &&& (inst matches Inst::Ccnot(c1, c2, t) ==> {
        &&& r == Ok::<StepResult, EmulatorError>(StepResult::Continue)
        &&& post.qreg_sel == pre.qreg_sel
        &&& post.cregs@ == pre.cregs@
        &&& frame_outside(pre.qamps@, post.qamps@, pre.sel_base(), pow2(pre.qbits as nat) as int)
        &&& forall|i: usize|
            i < pow2(pre.qbits as nat) ==> post.qamps@[pre.sel_base() + i] == pre.qamps@[
                pre.sel_base() + #[trigger] ccnot_src(i, c1, c2, t)]
        &&& post.qamps@.subrange(pre.sel_base(), pre.sel_base() + pow2(pre.qbits as nat)).to_multiset()
            == pre.qamps@.subrange(pre.sel_base(), pre.sel_base() + pow2(pre.qbits as nat)).to_multiset()
    })
    &&& (inst matches Inst::Swap(q1, q2) ==> {
        &&& r == Ok::<StepResult, EmulatorError>(StepResult::Continue)
        &&& post.qreg_sel == pre.qreg_sel
        &&& post.cregs@ == pre.cregs@
        &&& frame_outside(pre.qamps@, post.qamps@, pre.sel_base(), pow2(pre.qbits as nat) as int)
        &&& forall|i: usize|
            i < pow2(pre.qbits as nat) ==> post.qamps@[pre.sel_base() + i] == pre.qamps@[
                pre.sel_base() + #[trigger] swap_src(i, q1, q2)]
        &&& post.qamps@.subrange(pre.sel_base(), pre.sel_base() + pow2(pre.qbits as nat)).to_multiset()
            == pre.qamps@.subrange(pre.sel_base(), pre.sel_base() + pow2(pre.qbits as nat)).to_multiset()
    })
    &&& (inst matches Inst::SqrtSwap(q1, q2) ==> {
        &&& r == Ok::<StepResult, EmulatorError>(StepResult::Continue)
        &&& post.qreg_sel == pre.qreg_sel
        &&& post.cregs@ == pre.cregs@
        &&& gate2_applied(pre, post, q1, q2, f2)
    })
}

impl<A: Copy> Emulator<A> {
    /// Applies one single-qubit matrix gate to the selected register.
    fn do_gate1<F1: Fn(SingleGate, A, A) -> (A, A)>(&mut self, g: SingleGate, q: usize, f1: &F1)
        requires
            old(self).wf(),
            q < old(self).qbits as usize,
            old(self).qreg_sel < old(self).qreg_count,
            forall|g0: SingleGate, a: A, b: A| call_requires(*f1, (g0, a, b)),
        ensures
            final(self).wf(),
            *final(self) == (Emulator { qamps: final(self).qamps, ..*old(self) }),
            final(self).qamps@.len() == old(self).qamps@.len(),
            gate1_applied(*old(self), *final(self), g, q, *f1),
    {
        let base = self.gate_base();
        apply_mat_1(&mut self.qamps, base, self.qbits as usize, q, g, f1);
    }

    /// Applies one controlled single-target gate to the selected register.
    fn do_ctrl1<F1: Fn(SingleGate, A, A) -> (A, A)>(
        &mut self,
        g: SingleGate,
        c: usize,
        t: usize,
        f1: &F1,
    )
        requires
            old(self).wf(),
            c < old(self).qbits as usize,
            t < old(self).qbits as usize,
            old(self).qreg_sel < old(self).qreg_count,
            forall|g0: SingleGate, a: A, b: A| call_requires(*f1, (g0, a, b)),
        ensures
            final(self).wf(),
            *final(self) == (Emulator { qamps: final(self).qamps, ..*old(self) }),
            final(self).qamps@.len() == old(self).qamps@.len(),
            ctrl1_applied(*old(self), *final(self), g, c, t, *f1),
    {
        let base = self.gate_base();
        let controls: Vec<usize> = vec![c];
        proof {
            assert(controls@ =~= seq![c]);
        }
        apply_controlled_mat(&mut self.qamps, base, self.qbits as usize, &controls, t, g, f1);
    }

    /// Fetches and executes the instruction at the program counter. Does not
    /// advance the counter; `run` does. The fetch past the end of the program
    /// is the first fatal error; an out-of-range `Qsel` is the second.
    pub fn step<F1: Fn(SingleGate, A, A) -> (A, A), F2: Fn(A, A, A, A) -> (A, A, A, A)>(
        &mut self,
        prog: &Program,
        f1: &F1,
        f2: &F2,
    ) -> (r: Result<StepResult, EmulatorError>)
        requires
            old(self).wf(),
            old(self).matches_program(*prog),
            prog.wf(),
            forall|g: SingleGate, a: A, b: A| call_requires(*f1, (g, a, b)),
            forall|a0: A, a1: A, a2: A, a3: A| call_requires(*f2, (a0, a1, a2, a3)),
        ensures
            final(self).wf(),
            final(self).matches_program(*prog),
            final(self).pc == old(self).pc,
            final(self).qbits == old(self).qbits,
            final(self).cbits == old(self).cbits,
            final(self).qreg_count == old(self).qreg_count,
            final(self).n_states == old(self).n_states,
            final(self).qamps@.len() == old(self).qamps@.len(),
            final(self).cregs@.len() == old(self).cregs@.len(),
            old(self).pc >= prog.instructions@.len() ==> r == Err::<
                StepResult,
                EmulatorError,
            >(EmulatorError::PCOutOfBounds) && *final(self) == *old(self),
            old(self).pc < prog.instructions@.len() ==> step_effect(
                *old(self),
                *final(self),
                prog.instructions@[old(self).pc as int],
                r,
                *f1,
                *f2,
            ),
    {
        if self.pc >= prog.instructions.len() {
            return Err(EmulatorError::PCOutOfBounds);
        }
        let inst = prog.instructions[self.pc];
        proof {
            assert(inst_wf(prog.instructions@[old(self).pc as int], prog.headers));
        }
        match inst {
            Inst::Qsel(idx) => {
                if idx < self.qreg_count {
                    self.qreg_sel = idx;
                    Ok(StepResult::Continue)
                } else {
                    Err(EmulatorError::QregIndexOutOfBounds)
                }
            },
            Inst::Id(q) => {
                self.do_gate1(SingleGate::Id, q, f1);
                Ok(StepResult::Continue)
            },
            Inst::Hadamard(q) => {
                self.do_gate1(SingleGate::Hadamard, q, f1);
                Ok(StepResult::Continue)
            },
            Inst::X(q) => {
                self.do_gate1(SingleGate::X, q, f1);
                Ok(StepResult::Continue)
            },
            Inst::Y(q) => {
                self.do_gate1(SingleGate::Y, q, f1);
                Ok(StepResult::Continue)
            },
            Inst::Z(q) => {
                self.do_gate1(SingleGate::Z, q, f1);
                Ok(StepResult::Continue)
            },
            Inst::S(q) => {
                self.do_gate1(SingleGate::S, q, f1);
                Ok(StepResult::Continue)
            },
            Inst::T(q) => {
                self.do_gate1(SingleGate::T, q, f1);
                Ok(StepResult::Continue)
            },
            Inst::Sdg(q) => {
                self.do_gate1(SingleGate::Sdg, q, f1);
                Ok(StepResult::Continue)
            },
            Inst::Tdg(q) => {
                self.do_gate1(SingleGate::Tdg, q, f1);
                Ok(StepResult::Continue)
            },
            Inst::SqrtX(q) => {
                self.do_gate1(SingleGate::SqrtX, q, f1);
                Ok(StepResult::Continue)
            },
            Inst::Rx(q, th) => {
                self.do_gate1(SingleGate::Rx(th), q, f1);
                Ok(StepResult::Continue)
            },
            Inst::Ry(q, th) => {
                self.do_gate1(SingleGate::Ry(th), q, f1);
                Ok(StepResult::Continue)
            },
            Inst::Rz(q, th) => {
                self.do_gate1(SingleGate::Rz(th), q, f1);
                Ok(StepResult::Continue)
            },
            Inst::U(q, th, ph, la) => {
                self.do_gate1(SingleGate::U(th, ph, la), q, f1);
                Ok(StepResult::Continue)
            },
            Inst::P(q, th) => {
                self.do_gate1(SingleGate::R1(th), q, f1);
                Ok(StepResult::Continue)
            },
            Inst::Ch(c, t) => {
                self.do_ctrl1(SingleGate::Hadamard, c, t, f1);
                Ok(StepResult::Continue)
            },
            Inst::Cy(c, t) => {
                self.do_ctrl1(SingleGate::Y, c, t, f1);
                Ok(StepResult::Continue)
            },
            Inst::Cz(c, t) => {
                self.do_ctrl1(SingleGate::Z, c, t, f1);
                Ok(StepResult::Continue)
            },
            Inst::Cnot(c, t) => {
                let base = self.gate_base();
                apply_cnot(&mut self.qamps, base, self.qbits as usize, c, t);
                Ok(StepResult::Continue)
            },
            Inst::Ccnot(c1, c2, t) => {
                let base = self.gate_base();
                apply_ccnot(&mut self.qamps, base, self.qbits as usize, c1, c2, t);
                Ok(StepResult::Continue)
            },
            Inst::Swap(q1, q2) => {
                if q1 == q2 {
                    proof {
                        assert forall|i: usize| i < pow2(self.qbits as nat) implies self.qamps@[
                            self.sel_base() + i] == self.qamps@[self.sel_base()
                            + #[trigger] swap_src(i, q1, q2)] by {
                            assert(swap_src(i, q1, q2) == i);
                        }
                    }
                } else {
                    let base = self.gate_base();
                    apply_swap(&mut self.qamps, base, self.qbits as usize, q1, q2);
                }
                Ok(StepResult::Continue)
            },
            Inst::SqrtSwap(q1, q2) => {
                let base = self.gate_base();
                apply_mat_2(&mut self.qamps, base, self.qbits as usize, q1, q2, f2);
                Ok(StepResult::Continue)
            },
            Inst::Add(d, a, b) => {
                let v1 = self.get_val(a);
                let v2 = self.get_val(b);
                let sum = v1.wrapping_add(v2);
                let mut w = self.cregs[d];
                w.set_to(sum);
                self.cregs.set(d, w);
                proof {
                    let bits = old(self).cregs@[d as int].bits as nat;
                    let mi = pow2(bits) as int;
                    lemma_pow2_adds(bits, (64 - bits) as nat);
                    let p = pow2((64 - bits) as nat) as int;
                    assert(sum as int == v1 + v2 || sum as int == v1 + v2 - mi * p || sum as int
                        == v1 + v2 + mi * p) by {
                        vstd::arithmetic::power2::lemma2_to64_rest();
                    }
                    lemma_mod_multiples_vanish(p, sum as int, mi);
                    lemma_mod_multiples_vanish(p, v1 + v2, mi);
                    assert((sum as int) % mi == (v1 + v2) % mi);
                }
                Ok(StepResult::Continue)
            },
            Inst::Hlt => Ok(StepResult::Halted),
        }
    }

    /// Runs the fetch-execute loop until `Hlt` (success) or a fatal error,
    /// advancing the program counter by one after every continuing
    /// instruction. On success the counter rests on the `Hlt`; on
    /// `PCOutOfBounds` it equals the instruction count exactly; on
    /// `QregIndexOutOfBounds` it rests on the offending `Qsel`, whose index
    /// is at least the register count. A `Hlt` under the initial counter
    /// completes at once and changes nothing.
    ///
    /// The final state is not merely well-formed: the `run_trace` clause
    /// says the machine walked from the initial state to the final one
    /// executing exactly the instructions under the counter, one
    /// `step_effect` at a time, and that the result is the first terminal
    /// event on that walk. Mutations made before an error are retained.
    pub fn run<F1: Fn(SingleGate, A, A) -> (A, A), F2: Fn(A, A, A, A) -> (A, A, A, A)>(
        &mut self,
        prog: &Program,
        f1: &F1,
        f2: &F2,
    ) -> (r: Result<(), EmulatorError>)
        requires
            old(self).wf(),
            old(self).matches_program(*prog),
            prog.wf(),
            old(self).pc <= prog.instructions@.len(),
            forall|g: SingleGate, a: A, b: A| call_requires(*f1, (g, a, b)),
            forall|a0: A, a1: A, a2: A, a3: A| call_requires(*f2, (a0, a1, a2, a3)),
        ensures
            final(self).wf(),
            final(self).matches_program(*prog),
            final(self).qamps@.len() == old(self).qamps@.len(),
            final(self).cregs@.len() == old(self).cregs@.len(),
            final(self).pc <= prog.instructions@.len(),
            (r is Ok ==> final(self).pc < prog.instructions@.len()
                && prog.instructions@[final(self).pc as int] is Hlt),
            r == Err::<(), EmulatorError>(EmulatorError::PCOutOfBounds) ==> final(self).pc
                == prog.instructions@.len(),
            r == Err::<(), EmulatorError>(EmulatorError::QregIndexOutOfBounds) ==> (final(self).pc
                < prog.instructions@.len() && (prog.instructions@[final(self).pc as int] matches
            Inst::Qsel(idx) && idx >= final(self).qreg_count)),
            (old(self).pc < prog.instructions@.len() && prog.instructions@[old(self).pc as int]
                is Hlt) ==> (r is Ok && *final(self) == *old(self)),
            exists|states: Seq<Emulator<A>>|
                {
                    &&& #[trigger] run_trace(states, *prog, r, *f1, *f2)
                    &&& states.first() == *old(self)
                    &&& states.last() == *final(self)
                },
    {
        let proglen = prog.instructions.len();
        let ghost mut states: Seq<Emulator<A>> = seq![*self];
        loop
            invariant
                self.wf(),
                self.matches_program(*prog),
                prog.wf(),
                proglen == prog.instructions@.len(),
                self.pc <= prog.instructions@.len(),
                self.qamps@.len() == old(self).qamps@.len(),
                self.cregs@.len() == old(self).cregs@.len(),
                forall|g: SingleGate, a: A, b: A| call_requires(*f1, (g, a, b)),
                forall|a0: A, a1: A, a2: A, a3: A| call_requires(*f2, (a0, a1, a2, a3)),
                (old(self).pc < prog.instructions@.len() && prog.instructions@[old(self).pc as int]
                    is Hlt) ==> *self == *old(self),
                states.len() >= 1,
                states.first() == *old(self),
                states.last() == *self,
                forall|j: int|
                    0 <= j < states.len() - 1 ==> step_to_next(
                        #[trigger] states[j],
                        states[j + 1],
                        *prog,
                        *f1,
                        *f2,
                    ),
            decreases prog.instructions@.len() - self.pc,
        {
            let ghost pre_state = *self;
            let res = match self.step(prog, f1, f2) {
                Ok(x) => x,
                Err(e) => {
                    proof {
                        assert(states.last() == *self);
                        assert(run_trace(states, *prog, Err::<(), EmulatorError>(e), *f1, *f2));
                    }
                    return Err(e);
                },
            };
            if res == StepResult::Halted {
                proof {
                    assert(states.last() == *self);
                    assert(run_trace(states, *prog, Ok::<(), EmulatorError>(()), *f1, *f2));
                }
                return Ok(());
            }
            let ghost mid_state = *self;
            self.pc = self.pc + 1;
            proof {
                assert((Emulator { pc: pre_state.pc, ..*self }) == mid_state);
                assert(step_to_next(pre_state, *self, *prog, *f1, *f2));
                states = states.push(*self);
            }
        }
    }
}

} // verus!

verus! {

/// One continuing step of a run: the instruction at `pre`'s counter executes
/// with a `Continue` outcome (by `step_effect` that rules out a `Hlt` and an
/// out-of-range `Qsel`), the counter advances by one, and the machine shape
/// (widths and counts) is preserved.
pub open spec fn step_to_next<
    A: Copy,
    F1: Fn(SingleGate, A, A) -> (A, A),
    F2: Fn(A, A, A, A) -> (A, A, A, A),
>(pre: Emulator<A>, post: Emulator<A>, prog: Program, f1: F1, f2: F2) -> bool {
    &&& pre.pc < prog.instructions@.len()
    &&& post.pc == pre.pc + 1
    &&& post.qbits == pre.qbits
    &&& post.cbits == pre.cbits
    &&& post.qreg_count == pre.qreg_count
    &&& post.n_states == pre.n_states
    &&& step_effect(
        pre,
        (Emulator { pc: pre.pc, ..post }),
        prog.instructions@[pre.pc as int],
        Ok::<StepResult, EmulatorError>(StepResult::Continue),
        f1,
        f2,
    )
}

/// The execution trace a finished run leaves behind: a nonempty chain of
/// machine states whose consecutive pairs each execute one instruction
/// (`step_to_next`), ending in the first terminal event, which fixes the
/// result: a `Hlt` under the last counter for `Ok`, the end of the program
/// for `PCOutOfBounds`, an out-of-range `Qsel` for `QregIndexOutOfBounds`.
/// Because `step_effect` refuses a `Continue` outcome for a `Hlt` or for a
/// failing `Qsel`, a trace can neither skip an instruction nor stop early
/// nor invent a failure: the result and the final state are exactly what
/// sequential execution from the first state produces, and every mutation
/// made on the way to an error is retained in the last state.
pub open spec fn run_trace<
    A: Copy,
    F1: Fn(SingleGate, A, A) -> (A, A),
    F2: Fn(A, A, A, A) -> (A, A, A, A),
>(
    states: Seq<Emulator<A>>,
    prog: Program,
    r: Result<(), EmulatorError>,
    f1: F1,
    f2: F2,
) -> bool {
    &&& states.len() >= 1
    &&& forall|k: int|
        0 <= k < states.len() - 1 ==> step_to_next(
            #[trigger] states[k],
            states[k + 1],
            prog,
            f1,
            f2,
        )
    &&& (r is Ok ==> states.last().pc < prog.instructions@.len()
        && prog.instructions@[states.last().pc as int] is Hlt)
    &&& (r == Err::<(), EmulatorError>(EmulatorError::PCOutOfBounds) ==> states.last().pc
        == prog.instructions@.len())
    &&& (r == Err::<(), EmulatorError>(EmulatorError::QregIndexOutOfBounds) ==> states.last().pc
        < prog.instructions@.len() && (prog.instructions@[states.last().pc as int] matches
    Inst::Qsel(idx) && idx >= states.last().qreg_count))
}

/// Along a trace the counter advances by exactly one per executed
/// instruction, so state `k` sits at counter `states[0].pc + k`: a consumer
/// of `run`'s trace can recover which instruction each state executed.
pub proof fn lemma_trace_pc<
    A: Copy,
    F1: Fn(SingleGate, A, A) -> (A, A),
    F2: Fn(A, A, A, A) -> (A, A, A, A),
>(states: Seq<Emulator<A>>, prog: Program, f1: F1, f2: F2, k: int)
    requires
        forall|j: int|
            0 <= j < states.len() - 1 ==> step_to_next(
                #[trigger] states[j],
                states[j + 1],
                prog,
                f1,
                f2,
            ),
        0 <= k < states.len(),
    ensures
        states[k].pc == states[0].pc + k,
    decreases k,
{
    if k > 0 {
        lemma_trace_pc(states, prog, f1, f2, k - 1);
        assert(step_to_next(states[k - 1], states[k], prog, f1, f2));
    }
}

} // verus!
