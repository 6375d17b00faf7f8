use std::f64::consts::{FRAC_1_SQRT_2, FRAC_PI_2, FRAC_PI_4};

use nalgebra::{Complex, Matrix2, Matrix4};

use qcemu::emulator::Emulator;
use qcemu::program::{EmulatorError, Headers, Inst, Operand, Program, SingleGate, StepResult};

type C = Complex<f64>;

fn c(re: f64, im: f64) -> C {
    Complex::new(re, im)
}

fn u_mat(theta: f64, phi: f64, lambda: f64) -> Matrix2<C> {
    let ht = theta / 2.0;
    Matrix2::new(
        c(ht.cos(), 0.0),
        -ht.sin() * c(lambda.cos(), lambda.sin()),
        ht.sin() * c(phi.cos(), phi.sin()),
        ht.cos() * c((lambda + phi).cos(), (lambda + phi).sin()),
    )
}

fn rx_mat(theta: f64) -> Matrix2<C> {
    u_mat(theta, -FRAC_PI_2, FRAC_PI_2)
}

fn ry_mat(theta: f64) -> Matrix2<C> {
    u_mat(theta, 0.0, 0.0)
}

fn rz_mat(theta: f64) -> Matrix2<C> {
    let ht = theta / 2.0;
    Matrix2::new(c(ht.cos(), -ht.sin()), c(0.0, 0.0), c(0.0, 0.0), c(ht.cos(), ht.sin()))
}

fn r1_mat(theta: f64) -> Matrix2<C> {
    u_mat(0.0, theta, 0.0)
}

fn gate_matrix(g: SingleGate) -> Matrix2<C> {
    let o = c(1.0, 0.0);
    let z = c(0.0, 0.0);
    let h = c(FRAC_1_SQRT_2, 0.0);
    match g {
        SingleGate::Id => Matrix2::new(o, z, z, o),
        SingleGate::Hadamard => Matrix2::new(h, h, h, -h),
        SingleGate::X => Matrix2::new(z, o, o, z),
        SingleGate::Y => Matrix2::new(z, -c(0.0, 1.0), c(0.0, 1.0), z),
        SingleGate::Z => Matrix2::new(o, z, z, -o),
        SingleGate::S => r1_mat(FRAC_PI_2),
        SingleGate::T => r1_mat(FRAC_PI_4),
        SingleGate::Sdg => r1_mat(FRAC_PI_2).adjoint(),
        SingleGate::Tdg => r1_mat(FRAC_PI_4).adjoint(),
        SingleGate::SqrtX => Matrix2::new(c(0.5, 0.5), c(0.5, -0.5), c(0.5, -0.5), c(0.5, 0.5)),
        SingleGate::Rx(b) => rx_mat(f64::from_bits(b)),
        SingleGate::Ry(b) => ry_mat(f64::from_bits(b)),
        SingleGate::Rz(b) => rz_mat(f64::from_bits(b)),
        SingleGate::U(t, p, l) => u_mat(f64::from_bits(t), f64::from_bits(p), f64::from_bits(l)),
        SingleGate::R1(b) => r1_mat(f64::from_bits(b)),
    }
}

fn sqrt_swap_mat() -> Matrix4<C> {
    let o = c(1.0, 0.0);
    let z = c(0.0, 0.0);
    let p = c(0.5, 0.5);
    let m = c(0.5, -0.5);
    Matrix4::new(o, z, z, z, z, p, m, z, z, m, p, z, z, z, z, o)
}

fn f1(g: SingleGate, a: C, b: C) -> (C, C) {
    let m = gate_matrix(g);
    (m[(0, 0)] * a + m[(0, 1)] * b, m[(1, 0)] * a + m[(1, 1)] * b)
}

fn f2(a0: C, a1: C, a2: C, a3: C) -> (C, C, C, C) {
    let m = sqrt_swap_mat();
    (
        m[(0, 0)] * a0 + m[(0, 1)] * a1 + m[(0, 2)] * a2 + m[(0, 3)] * a3,
        m[(1, 0)] * a0 + m[(1, 1)] * a1 + m[(1, 2)] * a2 + m[(1, 3)] * a3,
        m[(2, 0)] * a0 + m[(2, 1)] * a1 + m[(2, 2)] * a2 + m[(2, 3)] * a3,
        m[(3, 0)] * a0 + m[(3, 1)] * a1 + m[(3, 2)] * a2 + m[(3, 3)] * a3,
    )
}

fn program(qbits: u16, cbits: u16, qregs: usize, cregs: usize, instructions: Vec<Inst>) -> Program {
    Program { headers: Headers { qbits, cbits, qregs, cregs }, instructions }
}

fn fresh(prog: &Program) -> Emulator<C> {
    assert!(prog.validate());
    Emulator::new(prog, c(0.0, 0.0), c(1.0, 0.0))
}

fn norm_sq(e: &Emulator<C>, reg: usize) -> f64 {
    let n = e.n_states;
    let mut s = 0.0;
    for i in 0..n {
        s += e.qamps[reg * n + i].norm_sqr();
    }
    s
}

#[test]
fn gate_matrices_are_unitary() {
    let gates = vec![
        SingleGate::Id,
        SingleGate::Hadamard,
        SingleGate::X,
        SingleGate::Y,
        SingleGate::Z,
        SingleGate::S,
        SingleGate::T,
        SingleGate::Sdg,
        SingleGate::Tdg,
        SingleGate::SqrtX,
        SingleGate::Rx(f64::to_bits(0.37)),
        SingleGate::Ry(f64::to_bits(1.1)),
        SingleGate::Rz(f64::to_bits(2.2)),
        SingleGate::U(f64::to_bits(0.5), f64::to_bits(0.7), f64::to_bits(0.9)),
        SingleGate::R1(f64::to_bits(0.4)),
    ];
    for g in gates {
        let m = gate_matrix(g);
        let d = m * m.adjoint() - Matrix2::identity();
        assert!(d.norm() < 1e-9, "gate {:?} is not unitary", g);
    }
    let m = sqrt_swap_mat();
    let d = m * m.adjoint() - Matrix4::identity();
    assert!(d.norm() < 1e-9, "sqrt-swap is not unitary");
}

#[test]
fn hadamard_truth_table() {
    let prog = program(1, 1, 1, 0, vec![Inst::Hadamard(0), Inst::Hlt]);
    let mut e = fresh(&prog);
    assert!(e.run(&prog, &f1, &f2).is_ok());
    assert_eq!(e.qamps[0], c(FRAC_1_SQRT_2, 0.0));
    assert_eq!(e.qamps[1], c(FRAC_1_SQRT_2, 0.0));
}

#[test]
fn pauli_x_truth_table() {
    let prog = program(1, 1, 1, 0, vec![Inst::X(0), Inst::Hlt]);
    let mut e = fresh(&prog);
    assert!(e.run(&prog, &f1, &f2).is_ok());
    assert_eq!(e.qamps[0], c(0.0, 0.0));
    assert_eq!(e.qamps[1], c(1.0, 0.0));
}

#[test]
fn bell_state() {
    let prog = program(2, 1, 1, 0, vec![Inst::Hadamard(0), Inst::Cnot(0, 1), Inst::Hlt]);
    let mut e = fresh(&prog);
    assert!(e.run(&prog, &f1, &f2).is_ok());
    assert_eq!(e.qamps[0], c(FRAC_1_SQRT_2, 0.0));
    assert_eq!(e.qamps[1], c(0.0, 0.0));
    assert_eq!(e.qamps[2], c(0.0, 0.0));
    assert_eq!(e.qamps[3], c(FRAC_1_SQRT_2, 0.0));
}

#[test]
fn add_width_four_wraps() {
    let prog = program(
        0,
        4,
        1,
        1,
        vec![Inst::Add(0, Operand::Imm(7), Operand::Imm(10)), Inst::Hlt],
    );
    let mut e = fresh(&prog);
    assert!(e.run(&prog, &f1, &f2).is_ok());
    assert_eq!(e.cregs[0].get_val(), 1);
}

#[test]
fn add_reads_registers() {
    let prog = program(
        0,
        8,
        1,
        2,
        vec![
            Inst::Add(0, Operand::Imm(200), Operand::Imm(0)),
            Inst::Add(1, Operand::Reg(0), Operand::Reg(0)),
            Inst::Hlt,
        ],
    );
    let mut e = fresh(&prog);
    assert!(e.run(&prog, &f1, &f2).is_ok());
    assert_eq!(e.cregs[0].get_val(), 200);
    assert_eq!(e.cregs[1].get_val(), 144);
}

#[test]
fn register_select_strict_bound() {
    let prog = program(1, 1, 2, 0, vec![Inst::Qsel(2), Inst::Hlt]);
    let mut e = fresh(&prog);
    assert_eq!(e.run(&prog, &f1, &f2), Err(EmulatorError::QregIndexOutOfBounds));
}

#[test]
fn register_select_in_bounds_targets_gates() {
    let prog = program(1, 1, 2, 0, vec![Inst::Qsel(1), Inst::X(0), Inst::Hlt]);
    let mut e = fresh(&prog);
    assert!(e.run(&prog, &f1, &f2).is_ok());
    // register 0 untouched, register 1 flipped
    assert_eq!(e.qamps[0], c(1.0, 0.0));
    assert_eq!(e.qamps[1], c(0.0, 0.0));
    assert_eq!(e.qamps[2], c(0.0, 0.0));
    assert_eq!(e.qamps[3], c(1.0, 0.0));
}

#[test]
fn missing_halt_overflows_pc() {
    let prog = program(1, 1, 1, 0, vec![Inst::X(0), Inst::Id(0)]);
    let mut e = fresh(&prog);
    assert_eq!(e.run(&prog, &f1, &f2), Err(EmulatorError::PCOutOfBounds));
    assert_eq!(e.pc, 2);
    // the mutations made before the failure are retained: X flipped qubit 0
    assert_eq!(e.qamps[0], c(0.0, 0.0));
    assert_eq!(e.qamps[1], c(1.0, 0.0));
}

#[test]
fn halt_only_program_changes_nothing() {
    let prog = program(2, 8, 2, 2, vec![Inst::Hlt]);
    let mut e = fresh(&prog);
    assert!(e.run(&prog, &f1, &f2).is_ok());
    assert_eq!(e.pc, 0);
    for j in 0..2 {
        assert_eq!(e.qamps[j * 4], c(1.0, 0.0));
        for i in 1..4 {
            assert_eq!(e.qamps[j * 4 + i], c(0.0, 0.0));
        }
    }
    for j in 0..2 {
        assert_eq!(e.cregs[j].get_val(), 0);
    }
}

#[test]
fn norm_is_preserved_along_a_run() {
    let prog = program(
        3,
        1,
        1,
        0,
        vec![
            Inst::Hadamard(0),
            Inst::T(1),
            Inst::Rx(2, f64::to_bits(0.9)),
            Inst::Cnot(0, 2),
            Inst::Ch(0, 1),
            Inst::U(1, f64::to_bits(0.3), f64::to_bits(0.2), f64::to_bits(0.1)),
            Inst::Swap(0, 2),
            Inst::SqrtSwap(1, 2),
            Inst::Ccnot(0, 1, 2),
            Inst::Cz(2, 0),
            Inst::SqrtX(1),
            Inst::Hlt,
        ],
    );
    let mut e = fresh(&prog);
    loop {
        let r = e.step(&prog, &f1, &f2).expect("program is closed by a halt");
        let s = norm_sq(&e, 0);
        assert!((s - 1.0).abs() < 1e-9, "norm drifted to {} at pc {}", s, e.pc);
        if r == StepResult::Halted {
            break;
        }
        e.pc += 1;
    }
}

#[test]
fn sqrt_swap_twice_is_swap() {
    let prog1 = program(
        2,
        1,
        1,
        0,
        vec![Inst::X(0), Inst::SqrtSwap(0, 1), Inst::SqrtSwap(0, 1), Inst::Hlt],
    );
    let mut e1 = fresh(&prog1);
    assert!(e1.run(&prog1, &f1, &f2).is_ok());
    // |01> swapped into |10>: amplitude sits at index 2
    assert!((e1.qamps[2] - c(1.0, 0.0)).norm() < 1e-9);
    assert!(e1.qamps[1].norm() < 1e-9);
}

#[test]
fn toffoli_truth_table() {
    // |110>: both controls set (qubits 1 and 2), target qubit 0 flips
    let prog = program(
        3,
        1,
        1,
        0,
        vec![Inst::X(1), Inst::X(2), Inst::Ccnot(1, 2, 0), Inst::Hlt],
    );
    let mut e = fresh(&prog);
    assert!(e.run(&prog, &f1, &f2).is_ok());
    assert_eq!(e.qamps[7], c(1.0, 0.0));
    assert_eq!(e.qamps[6], c(0.0, 0.0));
}

#[test]
fn validator_rejects_bad_programs() {
    // qubit index out of range
    let p1 = program(1, 1, 1, 0, vec![Inst::Hadamard(1), Inst::Hlt]);
    assert!(!p1.validate());
    // classical register reference out of range
    let p2 = program(1, 8, 1, 1, vec![Inst::Add(1, Operand::Imm(0), Operand::Imm(0)), Inst::Hlt]);
    assert!(!p2.validate());
    // word width too large for its storage
    let p3 = program(1, 64, 1, 1, vec![Inst::Hlt]);
    assert!(!p3.validate());
    // square-root-of-swap needs two distinct qubits
    let p4 = program(2, 1, 1, 0, vec![Inst::SqrtSwap(1, 1), Inst::Hlt]);
    assert!(!p4.validate());
    // a gate needs a quantum register to act on
    let p5 = program(1, 1, 0, 0, vec![Inst::X(0), Inst::Hlt]);
    assert!(!p5.validate());
    let good = program(1, 1, 1, 0, vec![Inst::Hadamard(0), Inst::Hlt]);
    assert!(good.validate());
}

#[test]
fn controlled_hadamard_acts_only_under_set_control() {
    // control clear: |00> is untouched
    let p1 = program(2, 1, 1, 0, vec![Inst::Ch(0, 1), Inst::Hlt]);
    let mut e1 = fresh(&p1);
    assert!(e1.run(&p1, &f1, &f2).is_ok());
    assert_eq!(e1.qamps[0], c(1.0, 0.0));
    assert_eq!(e1.qamps[1], c(0.0, 0.0));
    // control set: |01> spreads over qubit 1
    let p2 = program(2, 1, 1, 0, vec![Inst::X(0), Inst::Ch(0, 1), Inst::Hlt]);
    let mut e2 = fresh(&p2);
    assert!(e2.run(&p2, &f1, &f2).is_ok());
    assert_eq!(e2.qamps[1], c(FRAC_1_SQRT_2, 0.0));
    assert_eq!(e2.qamps[3], c(FRAC_1_SQRT_2, 0.0));
}

#[test]
fn controlled_z_flips_the_doubly_excited_phase() {
    let prog = program(2, 1, 1, 0, vec![Inst::X(0), Inst::X(1), Inst::Cz(0, 1), Inst::Hlt]);
    let mut e = fresh(&prog);
    assert!(e.run(&prog, &f1, &f2).is_ok());
    assert_eq!(e.qamps[3], c(-1.0, 0.0));
    assert_eq!(e.qamps[0], c(0.0, 0.0));
}

#[test]
fn swap_instruction_with_equal_qubits_is_identity() {
    let prog = program(2, 1, 1, 0, vec![Inst::Hadamard(0), Inst::Swap(1, 1), Inst::Hlt]);
    let mut e = fresh(&prog);
    assert!(e.run(&prog, &f1, &f2).is_ok());
    assert_eq!(e.qamps[0], c(FRAC_1_SQRT_2, 0.0));
    assert_eq!(e.qamps[1], c(FRAC_1_SQRT_2, 0.0));
}
