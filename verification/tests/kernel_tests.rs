use std::f64::consts::{FRAC_1_SQRT_2, FRAC_PI_2, FRAC_PI_4};

use nalgebra::{Complex, DMatrix, DVector, Matrix2};

use qcemu::kernels::{apply_ccnot, apply_cnot, apply_mat_1, apply_swap};
use qcemu::program::SingleGate;

type C = Complex<f64>;

fn c(re: f64, im: f64) -> C {
    Complex::new(re, im)
}

fn u_mat(theta: f64, phi: f64, lambda: f64) -> Matrix2<C> {
    let ht = theta / 2.0;
    Matrix2::new(
        c(ht.cos(), 0.0),
        -ht.sin() * c(lambda.cos(), lambda.sin()),
        ht.sin() * c(phi.cos(), phi.sin()),
        ht.cos() * c((lambda + phi).cos(), (lambda + phi).sin()),
    )
}

fn r1_mat(theta: f64) -> Matrix2<C> {
    u_mat(0.0, theta, 0.0)
}

fn gate_matrix(g: SingleGate) -> Matrix2<C> {
    let o = c(1.0, 0.0);
    let z = c(0.0, 0.0);
    let h = c(FRAC_1_SQRT_2, 0.0);
    match g {
        SingleGate::Id => Matrix2::new(o, z, z, o),
        SingleGate::Hadamard => Matrix2::new(h, h, h, -h),
        SingleGate::X => Matrix2::new(z, o, o, z),
        SingleGate::Y => Matrix2::new(z, -c(0.0, 1.0), c(0.0, 1.0), z),
        SingleGate::Z => Matrix2::new(o, z, z, -o),
        SingleGate::S => r1_mat(FRAC_PI_2),
        SingleGate::T => r1_mat(FRAC_PI_4),
        SingleGate::Sdg => r1_mat(FRAC_PI_2).adjoint(),
        SingleGate::Tdg => r1_mat(FRAC_PI_4).adjoint(),
        SingleGate::SqrtX => Matrix2::new(c(0.5, 0.5), c(0.5, -0.5), c(0.5, -0.5), c(0.5, 0.5)),
        SingleGate::Rx(b) => u_mat(f64::from_bits(b), -FRAC_PI_2, FRAC_PI_2),
        SingleGate::Ry(b) => u_mat(f64::from_bits(b), 0.0, 0.0),
        SingleGate::Rz(b) => {
            let t = f64::from_bits(b) / 2.0;
            Matrix2::new(c(t.cos(), -t.sin()), z, z, c(t.cos(), t.sin()))
        },
        SingleGate::U(t, p, l) => u_mat(f64::from_bits(t), f64::from_bits(p), f64::from_bits(l)),
        SingleGate::R1(b) => r1_mat(f64::from_bits(b)),
    }
}

fn f1(g: SingleGate, a: C, b: C) -> (C, C) {
    let m = gate_matrix(g);
    (m[(0, 0)] * a + m[(0, 1)] * b, m[(1, 0)] * a + m[(1, 1)] * b)
}

/// An arbitrary non-degenerate dense state of 2^n amplitudes.
fn dense_state(n: usize) -> Vec<C> {
    (0..(1usize << n)).map(|i| c(0.1 * (i as f64 + 1.0), 0.07 * (i as f64) - 0.3)).collect()
}

/// The full Kronecker-expanded operator of a single-qubit gate on qubit `q`
/// of `n` qubits, with bit 0 the least significant (so the identity on the
/// high qubits comes first).
fn kron_expand(m: Matrix2<C>, n: usize, q: usize) -> DMatrix<C> {
    let md = DMatrix::from_fn(2, 2, |i, j| m[(i, j)]);
    let high = DMatrix::<C>::identity(1 << (n - q - 1), 1 << (n - q - 1));
    let low = DMatrix::<C>::identity(1 << q, 1 << q);
    high.kronecker(&md).kronecker(&low)
}

#[test]
fn masked_kernel_matches_kronecker_expansion() {
    let gates = vec![
        SingleGate::Id,
        SingleGate::Hadamard,
        SingleGate::X,
        SingleGate::Y,
        SingleGate::Z,
        SingleGate::S,
        SingleGate::T,
        SingleGate::Sdg,
        SingleGate::Tdg,
        SingleGate::SqrtX,
        SingleGate::Rx(f64::to_bits(0.37)),
        SingleGate::Ry(f64::to_bits(1.1)),
        SingleGate::Rz(f64::to_bits(2.2)),
        SingleGate::U(f64::to_bits(0.5), f64::to_bits(0.7), f64::to_bits(0.9)),
        SingleGate::R1(f64::to_bits(0.4)),
    ];
    for n in 1..=4usize {
        for q in 0..n {
            for &g in &gates {
                let mut amps = dense_state(n);
                apply_mat_1(&mut amps, 0, n, q, g, &f1);
                let full = kron_expand(gate_matrix(g), n, q);
                let expect = &full * DVector::from_vec(dense_state(n));
                for i in 0..(1usize << n) {
                    assert!(
                        (amps[i] - expect[i]).norm() < 1e-9,
                        "gate {:?} on qubit {} of {} differs at {}",
                        g,
                        q,
                        n,
                        i
                    );
                }
            }
        }
    }
}

#[test]
fn cnot_kernel_is_the_expected_permutation() {
    // 2 qubits, control 0, target 1: indices 1 and 3 exchange
    let mut amps = dense_state(2);
    let orig = amps.clone();
    apply_cnot(&mut amps, 0, 2, 0, 1);
    assert_eq!(amps[0], orig[0]);
    assert_eq!(amps[1], orig[3]);
    assert_eq!(amps[2], orig[2]);
    assert_eq!(amps[3], orig[1]);
}

#[test]
fn cnot_with_equal_qubits_is_identity() {
    let mut amps = dense_state(2);
    let orig = amps.clone();
    apply_cnot(&mut amps, 0, 2, 1, 1);
    assert_eq!(amps, orig);
}

#[test]
fn swap_kernel_exchanges_single_excitations() {
    // 3 qubits, swap qubits 0 and 2: index pairs (1,4), (3,6) exchange
    let mut amps = dense_state(3);
    let orig = amps.clone();
    apply_swap(&mut amps, 0, 3, 0, 2);
    assert_eq!(amps[1], orig[4]);
    assert_eq!(amps[4], orig[1]);
    assert_eq!(amps[3], orig[6]);
    assert_eq!(amps[6], orig[3]);
    assert_eq!(amps[0], orig[0]);
    assert_eq!(amps[2], orig[2]);
    assert_eq!(amps[5], orig[5]);
    assert_eq!(amps[7], orig[7]);
}

#[test]
fn ccnot_kernel_flips_only_doubly_controlled() {
    let mut amps = dense_state(3);
    let orig = amps.clone();
    apply_ccnot(&mut amps, 0, 3, 0, 1, 2);
    // only indices with bits 0 and 1 set move: 3 <-> 7
    assert_eq!(amps[3], orig[7]);
    assert_eq!(amps[7], orig[3]);
    for i in [0, 1, 2, 4, 5, 6] {
        assert_eq!(amps[i], orig[i]);
    }
}

#[test]
fn kernel_region_offsets_leave_neighbours_alone() {
    // two registers of one qubit in one flat bank; act on the second
    let mut amps = vec![c(1.0, 0.0), c(0.0, 0.0), c(1.0, 0.0), c(0.0, 0.0)];
    apply_mat_1(&mut amps, 2, 1, 0, SingleGate::X, &f1);
    assert_eq!(amps[0], c(1.0, 0.0));
    assert_eq!(amps[1], c(0.0, 0.0));
    assert_eq!(amps[2], c(0.0, 0.0));
    assert_eq!(amps[3], c(1.0, 0.0));
}
