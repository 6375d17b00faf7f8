//! In-place amplitude transforms over a flat bank of amplitude vectors.
//!
//! A quantum register of `qbits` qubits is a region of `2^qbits` amplitudes
//! starting at some base offset of the flat bank. Bit `q` of a basis index
//! marks qubit `q` (bit 0 = qubit 0). Every kernel walks the basis indices
//! once and mutates only the pairs or quadruples a gate affects, so a gate
//! costs `O(2^qbits)` time and constant auxiliary space — the full
//! `2^n x 2^n` operator is never built.
//!
//! The matrix kernels take the 2x2 (or 4x4) arithmetic as a closure `f`; the
//! contracts relate each transformed pair to `call_ensures(f, ..)`, and pin
//! every untouched amplitude. The permutation kernels (controlled-not family
//! and swap) need no arithmetic at all and get exact contracts.

use vstd::prelude::*;

verus! {

use vstd::arithmetic::power2::{pow2, lemma_pow2_strictly_increases};
use vstd::bits::{lemma_usize_shl_is_mul, lemma_usize_pow2_no_overflow};
use crate::program::SingleGate;

/// The bit mask of qubit `q`.
pub open spec fn qmask(q: usize) -> usize {
    pow2(q as nat) as usize
}

/// The representative of basis index `i` in the pairing by qubit `q`:
/// `i` with the qubit's bit cleared.
pub open spec fn rep1(i: usize, q: usize) -> usize {
    i & !qmask(q)
}

/// The pair at representative `s` (bit `q` clear) was transformed by `f`
/// applied to gate `g`: the amplitudes at flat indices `base + s` and
/// `base + (s | mask)` of `post` are a possible output of `f` on the same
/// two amplitudes of `pre`.
pub open spec fn pair_okp<A, F: Fn(SingleGate, A, A) -> (A, A)>(
    f: F,
    g: SingleGate,
    pre: Seq<A>,
    post: Seq<A>,
    base: int,
    s: usize,
    q: usize,
) -> bool {
    call_ensures(
        f,
        (g, pre[base + s], pre[base + (s | qmask(q))]),
        (post[base + s], post[base + (s | qmask(q))]),
    )
}

/// Everything outside the region `[base, base + n)` is unchanged.
pub open spec fn frame_outside<A>(pre: Seq<A>, post: Seq<A>, base: int, n: int) -> bool {
    &&& post.len() == pre.len()
    &&& forall|i: int| 0 <= i < pre.len() && !(base <= i < base + n) ==> post[i] == pre[i]
}

/// A power of two at most `usize::MAX` has its exponent below the word width.
pub proof fn lemma_pow2_fits_usize(k: nat)
    requires
        pow2(k) <= usize::MAX as nat,
    ensures
        k < usize::BITS as nat,
{
    vstd::layout::unsigned_int_max_values();
    if k >= usize::BITS as nat {
        if k > usize::BITS as nat {
            lemma_pow2_strictly_increases(usize::BITS as nat, k);
        }
        assert(false);
    }
}

/// Bit facts about a representative `s` (bit `q` clear) and its partner
/// `s | (1 << q)` inside a region of `2^nb` indices.
proof fn lemma_bv_pair(s: usize, q: usize, nb: usize)
    by (bit_vector)
    requires
        q < nb,
        s < (1usize << nb),
        s & (1usize << q) == 0,
    ensures
        (s | (1usize << q)) == s + (1usize << q),
        s + (1usize << q) < (1usize << nb),
        s & !(1usize << q) == s,
        (s | (1usize << q)) & !(1usize << q) == s,
        (s | (1usize << q)) & (1usize << q) != 0,
{
}

/// Clearing a bit leaves that bit clear.
proof fn lemma_bv_rep_clear(i: usize, q: usize)
    by (bit_vector)
    ensures
        (i & !(1usize << q)) & (1usize << q) == 0,
{
}

/// Applies the 2x2 gate `g` (through the backend `f`) to qubit `qbit` of the
/// register of `qbits` qubits starting at `base`: for every basis index `s`
/// with bit `qbit` clear, the amplitude pair at `(s, s | 1 << qbit)` is
/// replaced by an output of `f` on that pair. Nothing else moves.
pub fn apply_mat_1<A: Copy, F: Fn(SingleGate, A, A) -> (A, A)>(
    amps: &mut Vec<A>,
    base: usize,
    qbits: usize,
    qbit: usize,
    g: SingleGate,
    f: &F,
)
    requires
        qbit < qbits,
        base + pow2(qbits as nat) <= old(amps)@.len(),
        forall|a: A, b: A| call_requires(*f, (g, a, b)),
    ensures
        frame_outside(old(amps)@, final(amps)@, base as int, pow2(qbits as nat) as int),
        forall|s: usize|
            s < pow2(qbits as nat) && s & qmask(qbit) == 0 ==> #[trigger] pair_okp(
                *f,
                g,
                old(amps)@,
                final(amps)@,
                base as int,
                s,
                qbit,
            ),
{
    let total = amps.len();
    proof {
        assert(amps@.len() == total);
        lemma_pow2_fits_usize(qbits as nat);
        lemma_usize_pow2_no_overflow(qbit as nat);
        lemma_usize_pow2_no_overflow(qbits as nat);
    }
    let n: usize = 1usize << qbits;
    let m: usize = 1usize << qbit;
    proof {
        lemma_usize_shl_is_mul(1, qbits);
        lemma_usize_shl_is_mul(1, qbit);
        assert(n == pow2(qbits as nat));
        assert(m == qmask(qbit));
    }
    let mut s: usize = 0;
    while s < n
        invariant
            s <= n,
            n == pow2(qbits as nat),
            n == 1usize << qbits,
            m == qmask(qbit),
            m == 1usize << qbit,
            qbit < qbits,
            base + n <= amps@.len(),
            amps@.len() <= usize::MAX,
            amps@.len() == old(amps)@.len(),
            forall|a: A, b: A| call_requires(*f, (g, a, b)),
            frame_outside(old(amps)@, amps@, base as int, n as int),
            forall|i: usize|
                i < n && #[trigger] rep1(i, qbit) >= s ==> amps@[base + i] == old(amps)@[base + i],
            forall|t: usize|
                t < s && t & qmask(qbit) == 0 ==> #[trigger] pair_okp(
                    *f,
                    g,
                    old(amps)@,
                    amps@,
                    base as int,
                    t,
                    qbit,
                ),
        decreases n - s,
    {
        if s & m == 0 {
            proof {
                lemma_bv_pair(s, qbit, qbits);
                assert(rep1(s, qbit) == s);
                assert(rep1(s | m, qbit) == s);
            }
            let p: usize = s | m;
            let ghost prev = amps@;
            let a = amps[base + s];
            let b = amps[base + p];
            let (x, y) = (*f)(g, a, b);
            amps.set(base + s, x);
            amps.set(base + p, y);
            proof {
                assert(call_ensures(*f, (g, a, b), (x, y)));
                assert(amps@[base + s] == x);
                assert(amps@[base + (s | qmask(qbit))] == y);
                assert(pair_okp(*f, g, old(amps)@, amps@, base as int, s, qbit));
                assert forall|t: usize| t < s + 1 && t & qmask(qbit) == 0 implies #[trigger] pair_okp(
                    *f,
                    g,
                    old(amps)@,
                    amps@,
                    base as int,
                    t,
                    qbit,
                ) by {
                    lemma_bv_pair(t, qbit, qbits);
                    if t < s {
                        assert(pair_okp(*f, g, old(amps)@, prev, base as int, t, qbit));
                        assert(rep1(t, qbit) == t);
                        assert(rep1(t | qmask(qbit), qbit) == t);
                        assert(amps@[base + t] == prev[base + t]);
                        assert(amps@[base + (t | qmask(qbit))] == prev[base + (t | qmask(qbit))]);
                    }
                }
                assert forall|i: usize| i < n && #[trigger] rep1(i, qbit) >= s + 1 implies amps@[base
                    + i] == old(amps)@[base + i] by {
                    lemma_bv_rep_clear(i, qbit);
                }
            }
        } else {
            proof {
                assert forall|i: usize| i < n && #[trigger] rep1(i, qbit) >= s + 1 implies amps@[base
                    + i] == old(amps)@[base + i] by {
                    lemma_bv_rep_clear(i, qbit);
                }
            }
        }
        s += 1;
    }
}

} // verus!

verus! {

/// All control qubits of `controls` are excited in basis index `i`.
pub open spec fn ctrl_active(i: usize, controls: Seq<usize>) -> bool {
    forall|k: int| 0 <= k < controls.len() ==> i & qmask(#[trigger] controls[k]) != 0
}

/// The conditional-pair contract of a controlled gate at representative `s`
/// (bit `t` clear): if every control bit is set the pair was transformed by
/// `f`, otherwise both amplitudes of the pair are unchanged.
pub open spec fn cpair_okp<A, F: Fn(SingleGate, A, A) -> (A, A)>(
    f: F,
    g: SingleGate,
    controls: Seq<usize>,
    pre: Seq<A>,
    post: Seq<A>,
    base: int,
    s: usize,
    t: usize,
) -> bool {
    if ctrl_active(s, controls) {
        pair_okp(f, g, pre, post, base, s, t)
    } else {
        &&& post[base + s] == pre[base + s]
        &&& post[base + (s | qmask(t))] == pre[base + (s | qmask(t))]
    }
}

/// Decides `ctrl_active(s, controls@)` executably.
fn controls_set(controls: &Vec<usize>, s: usize, Ghost(qbits): Ghost<usize>) -> (r: bool)
    requires
        forall|k: int| 0 <= k < controls@.len() ==> #[trigger] controls@[k] < qbits,
        pow2(qbits as nat) <= usize::MAX as nat,
    ensures
        r == ctrl_active(s, controls@),
{
    proof {
        lemma_pow2_fits_usize(qbits as nat);
    }
    let mut k: usize = 0;
    let mut active = true;
    while k < controls.len()
        invariant
            k <= controls@.len(),
            forall|j: int| 0 <= j < controls@.len() ==> #[trigger] controls@[j] < qbits,
            qbits < usize::BITS,
            active == (forall|j: int|
                0 <= j < k ==> s & qmask(#[trigger] controls@[j]) != 0),
        decreases controls@.len() - k,
    {
        let c = controls[k];
        proof {
            lemma_usize_pow2_no_overflow(c as nat);
            lemma_usize_shl_is_mul(1, c);
            if c >= qbits {
                lemma_pow2_strictly_increases(qbits as nat, c as nat);
            }
        }
        if s & (1usize << c) == 0 {
            active = false;
            proof {
                assert(s & qmask(controls@[k as int]) == 0);
            }
            return false;
        }
        k += 1;
    }
    active
}

/// Applies the 2x2 gate `g` to qubit `target`, conditioned on the control
/// qubits `controls`: a pair whose every control bit is set is transformed
/// by the backend `f`; every other amplitude stays.
pub fn apply_controlled_mat<A: Copy, F: Fn(SingleGate, A, A) -> (A, A)>(
    amps: &mut Vec<A>,
    base: usize,
    qbits: usize,
    controls: &Vec<usize>,
    target: usize,
    g: SingleGate,
    f: &F,
)
    requires
        target < qbits,
        forall|k: int| 0 <= k < controls@.len() ==> #[trigger] controls@[k] < qbits,
        base + pow2(qbits as nat) <= old(amps)@.len(),
        forall|a: A, b: A| call_requires(*f, (g, a, b)),
    ensures
        frame_outside(old(amps)@, final(amps)@, base as int, pow2(qbits as nat) as int),
        forall|s: usize|
            s < pow2(qbits as nat) && s & qmask(target) == 0 ==> #[trigger] cpair_okp(
                *f,
                g,
                controls@,
                old(amps)@,
                final(amps)@,
                base as int,
                s,
                target,
            ),
{
    let total = amps.len();
    proof {
        assert(amps@.len() == total);
        lemma_pow2_fits_usize(qbits as nat);
        lemma_usize_pow2_no_overflow(target as nat);
        lemma_usize_pow2_no_overflow(qbits as nat);
    }
    let n: usize = 1usize << qbits;
    let m: usize = 1usize << target;
    proof {
        lemma_usize_shl_is_mul(1, qbits);
        lemma_usize_shl_is_mul(1, target);
    }
    let mut s: usize = 0;
    while s < n
        invariant
            s <= n,
            n == pow2(qbits as nat),
            n == 1usize << qbits,
            m == qmask(target),
            m == 1usize << target,
            target < qbits,
            forall|k: int| 0 <= k < controls@.len() ==> #[trigger] controls@[k] < qbits,
            base + n <= amps@.len(),
            amps@.len() <= usize::MAX,
            amps@.len() == old(amps)@.len(),
            forall|a: A, b: A| call_requires(*f, (g, a, b)),
            frame_outside(old(amps)@, amps@, base as int, n as int),
            forall|i: usize|
                i < n && #[trigger] rep1(i, target) >= s ==> amps@[base + i] == old(amps)@[base + i],
            forall|t: usize|
                t < s && t & qmask(target) == 0 ==> #[trigger] cpair_okp(
                    *f,
                    g,
                    controls@,
                    old(amps)@,
                    amps@,
                    base as int,
                    t,
                    target,
                ),
        decreases n - s,
    {
        if s & m == 0 {
            proof {
                lemma_bv_pair(s, target, qbits);
                assert(rep1(s, target) == s);
                assert(rep1(s | m, target) == s);
            }
            let p: usize = s | m;
            let ghost prev = amps@;
            if controls_set(controls, s, Ghost(qbits)) {
                let a = amps[base + s];
                let b = amps[base + p];
                let (x, y) = (*f)(g, a, b);
                amps.set(base + s, x);
                amps.set(base + p, y);
                proof {
                    assert(call_ensures(*f, (g, a, b), (x, y)));
                    assert(amps@[base + s] == x);
                    assert(amps@[base + (s | qmask(target))] == y);
                    assert(cpair_okp(*f, g, controls@, old(amps)@, amps@, base as int, s, target));
                    assert forall|t: usize| t < s + 1 && t & qmask(target) == 0 implies #[trigger] cpair_okp(
                        *f,
                        g,
                        controls@,
                        old(amps)@,
                        amps@,
                        base as int,
                        t,
                        target,
                    ) by {
                        lemma_bv_pair(t, target, qbits);
                        if t < s {
                            assert(cpair_okp(*f, g, controls@, old(amps)@, prev, base as int, t, target));
                            assert(rep1(t, target) == t);
                            assert(rep1(t | qmask(target), target) == t);
                            assert(amps@[base + t] == prev[base + t]);
                            assert(amps@[base + (t | qmask(target))] == prev[base + (t | qmask(target))]);
                        }
                    }
                    assert forall|i: usize| i < n && #[trigger] rep1(i, target) >= s + 1 implies amps@[
                        base + i] == old(amps)@[base + i] by {
                        lemma_bv_rep_clear(i, target);
                    }
                }
            } else {
                proof {
                    assert(amps@[base + s] == old(amps)@[base + s]);
                    assert(amps@[base + (s | qmask(target))] == old(amps)@[base + (s | qmask(target))]);
                    assert(cpair_okp(*f, g, controls@, old(amps)@, amps@, base as int, s, target));
                    assert forall|t: usize| t < s + 1 && t & qmask(target) == 0 implies #[trigger] cpair_okp(
                        *f,
                        g,
                        controls@,
                        old(amps)@,
                        amps@,
                        base as int,
                        t,
                        target,
                    ) by {
                        if t < s {
                            assert(cpair_okp(*f, g, controls@, old(amps)@, prev, base as int, t, target));
                        }
                    }
                    assert forall|i: usize| i < n && #[trigger] rep1(i, target) >= s + 1 implies amps@[
                        base + i] == old(amps)@[base + i] by {
                        lemma_bv_rep_clear(i, target);
                    }
                }
            }
        } else {
            proof {
                assert forall|i: usize| i < n && #[trigger] rep1(i, target) >= s + 1 implies amps@[base
                    + i] == old(amps)@[base + i] by {
                    lemma_bv_rep_clear(i, target);
                }
            }
        }
        s += 1;
    }
}

} // verus!

verus! {

/// Basis index `i` is moved by CNOT(control, target): its control bit is set
/// (computed on the index with the target bit cleared, so both members of a
/// pair agree).
pub open spec fn cnot_moved(i: usize, c: usize, t: usize) -> bool {
    (i & !qmask(t)) & qmask(c) != 0
}

/// Where the amplitude at `i` comes from under CNOT(control, target).
pub open spec fn cnot_src(i: usize, c: usize, t: usize) -> usize {
    if cnot_moved(i, c, t) {
        i ^ qmask(t)
    } else {
        i
    }
}

/// Every basis index is its own representative or the representative with
/// the bit set.
proof fn lemma_bv_pair_cases(i: usize, q: usize)
    by (bit_vector)
    ensures
        i == (i & !(1usize << q)) || i == ((i & !(1usize << q)) | (1usize << q)),
{
}

/// A representative never exceeds its index.
proof fn lemma_bv_rep_le(i: usize, q: usize)
    by (bit_vector)
    ensures
        (i & !(1usize << q)) <= i,
{
}

/// Xor facts for swapping a pair in place.
proof fn lemma_bv_xor(s: usize, q: usize)
    by (bit_vector)
    requires
        s & (1usize << q) == 0,
    ensures
        s ^ (1usize << q) == (s | (1usize << q)),
        (s | (1usize << q)) ^ (1usize << q) == s,
{
}

/// CNOT(control, target): for every basis index with the control bit set and
/// the target bit clear, the amplitudes at `i` and `i | 1 << target` are
/// exchanged; every other amplitude stays. A pure permutation: no arithmetic.
pub fn apply_cnot<A: Copy>(
    amps: &mut Vec<A>,
    base: usize,
    qbits: usize,
    control: usize,
    target: usize,
)
    requires
        control < qbits,
        target < qbits,
        base + pow2(qbits as nat) <= old(amps)@.len(),
    ensures
        frame_outside(old(amps)@, final(amps)@, base as int, pow2(qbits as nat) as int),
        forall|i: usize|
            i < pow2(qbits as nat) ==> final(amps)@[base + i] == old(amps)@[base
                + #[trigger] cnot_src(i, control, target)],
        final(amps)@.subrange(base as int, base as int + pow2(qbits as nat)).to_multiset()
            == old(amps)@.subrange(base as int, base as int + pow2(qbits as nat)).to_multiset(),
{
    let total = amps.len();
    proof {
        assert(amps@.len() == total);
        lemma_pow2_fits_usize(qbits as nat);
        lemma_usize_pow2_no_overflow(control as nat);
        lemma_usize_pow2_no_overflow(target as nat);
        lemma_usize_pow2_no_overflow(qbits as nat);
    }
    let n: usize = 1usize << qbits;
    let cm: usize = 1usize << control;
    let tm: usize = 1usize << target;
    proof {
        lemma_usize_shl_is_mul(1, qbits);
        lemma_usize_shl_is_mul(1, control);
        lemma_usize_shl_is_mul(1, target);
    }
    let mut s: usize = 0;
    while s < n
        invariant
            s <= n,
            n == pow2(qbits as nat),
            n == 1usize << qbits,
            cm == qmask(control),
            cm == 1usize << control,
            tm == qmask(target),
            tm == 1usize << target,
            control < qbits,
            target < qbits,
            base + n <= amps@.len(),
            amps@.len() <= usize::MAX,
            amps@.len() == old(amps)@.len(),
            frame_outside(old(amps)@, amps@, base as int, n as int),
            forall|i: usize|
                i < n && #[trigger] rep1(i, target) >= s ==> amps@[base + i] == old(amps)@[base + i],
            forall|i: usize|
                i < n && #[trigger] rep1(i, target) < s ==> amps@[base + i] == old(amps)@[base
                    + cnot_src(i, control, target)],
            amps@.subrange(base as int, base as int + n as int).to_multiset() == old(amps)@.subrange(
                base as int,
                base as int + n as int,
            ).to_multiset(),
        decreases n - s,
    {
        if s & tm == 0 {
            proof {
                lemma_bv_pair(s, target, qbits);
                lemma_bv_xor(s, target);
                assert(rep1(s, target) == s);
                assert(rep1(s | tm, target) == s);
            }
            let p: usize = s | tm;
            let ghost prev = amps@;
            if s & cm != 0 {
                proof {
                    assert(cnot_src(s, control, target) == p);
                    assert(cnot_src(p, control, target) == s);
                }
                let u = amps[base + s];
                let v = amps[base + p];
                amps.set(base + s, v);
                amps.set(base + p, u);
            proof {
                let rp = prev.subrange(base as int, base as int + n as int);
                assert(amps@.subrange(base as int, base as int + n as int) =~= rp.update(
                    s as int,
                    rp[p as int],
                ).update(p as int, rp[s as int]));
                lemma_exchange_keeps_multiset(rp, s as int, p as int);
            }
            } else {
                proof {
                    assert(cnot_src(s, control, target) == s);
                    assert(cnot_src(p, control, target) == p);
                }
            }
            proof {
                assert forall|i: usize| i < n && #[trigger] rep1(i, target) < s + 1 implies amps@[base
                    + i] == old(amps)@[base + cnot_src(i, control, target)] by {
                    lemma_bv_rep_clear(i, target);
                    if rep1(i, target) < s {
                        assert(amps@[base + i] == prev[base + i]);
                    } else {
                        lemma_bv_pair_cases(i, target);
                        assert(i == s || i == (s | tm));
                    }
                }
                assert forall|i: usize| i < n && #[trigger] rep1(i, target) >= s + 1 implies amps@[base
                    + i] == old(amps)@[base + i] by {
                    lemma_bv_rep_clear(i, target);
                }
            }
        } else {
            proof {
                assert forall|i: usize| i < n && #[trigger] rep1(i, target) >= s + 1 implies amps@[base
                    + i] == old(amps)@[base + i] by {
                    lemma_bv_rep_clear(i, target);
                }
                assert forall|i: usize| i < n && #[trigger] rep1(i, target) < s + 1 implies amps@[base
                    + i] == old(amps)@[base + cnot_src(i, control, target)] by {
                    lemma_bv_rep_clear(i, target);
                }
            }
        }
        s += 1;
    }
    proof {
        assert forall|i: usize| i < n implies amps@[base + i] == old(amps)@[base
            + #[trigger] cnot_src(i, control, target)] by {
            lemma_bv_rep_le(i, target);
            assert(rep1(i, target) < n);
        }
    }
}

/// Basis index `i` is moved by CCNOT: both control bits are set (computed on
/// the index with the target bit cleared).
pub open spec fn ccnot_moved(i: usize, c1: usize, c2: usize, t: usize) -> bool {
    &&& (i & !qmask(t)) & qmask(c1) != 0
    &&& (i & !qmask(t)) & qmask(c2) != 0
}

/// Where the amplitude at `i` comes from under CCNOT(c1, c2, target).
pub open spec fn ccnot_src(i: usize, c1: usize, c2: usize, t: usize) -> usize {
    if ccnot_moved(i, c1, c2, t) {
        i ^ qmask(t)
    } else {
        i
    }
}

/// Toffoli: as CNOT but the pair is exchanged only when both control bits
/// are set.
pub fn apply_ccnot<A: Copy>(
    amps: &mut Vec<A>,
    base: usize,
    qbits: usize,
    control1: usize,
    control2: usize,
    target: usize,
)
    requires
        control1 < qbits,
        control2 < qbits,
        target < qbits,
        base + pow2(qbits as nat) <= old(amps)@.len(),
    ensures
        frame_outside(old(amps)@, final(amps)@, base as int, pow2(qbits as nat) as int),
        forall|i: usize|
            i < pow2(qbits as nat) ==> final(amps)@[base + i] == old(amps)@[base
                + #[trigger] ccnot_src(i, control1, control2, target)],
        final(amps)@.subrange(base as int, base as int + pow2(qbits as nat)).to_multiset()
            == old(amps)@.subrange(base as int, base as int + pow2(qbits as nat)).to_multiset(),
{
    let total = amps.len();
    proof {
        assert(amps@.len() == total);
        lemma_pow2_fits_usize(qbits as nat);
        lemma_usize_pow2_no_overflow(control1 as nat);
        lemma_usize_pow2_no_overflow(control2 as nat);
        lemma_usize_pow2_no_overflow(target as nat);
        lemma_usize_pow2_no_overflow(qbits as nat);
    }
    let n: usize = 1usize << qbits;
    let c1m: usize = 1usize << control1;
    let c2m: usize = 1usize << control2;
    let tm: usize = 1usize << target;
    proof {
        lemma_usize_shl_is_mul(1, qbits);
        lemma_usize_shl_is_mul(1, control1);
        lemma_usize_shl_is_mul(1, control2);
        lemma_usize_shl_is_mul(1, target);
    }
    let mut s: usize = 0;
    while s < n
        invariant
            s <= n,
            n == pow2(qbits as nat),
            n == 1usize << qbits,
            c1m == qmask(control1),
            c1m == 1usize << control1,
            c2m == qmask(control2),
            c2m == 1usize << control2,
            tm == qmask(target),
            tm == 1usize << target,
            control1 < qbits,
            control2 < qbits,
            target < qbits,
            base + n <= amps@.len(),
            amps@.len() <= usize::MAX,
            amps@.len() == old(amps)@.len(),
            frame_outside(old(amps)@, amps@, base as int, n as int),
            forall|i: usize|
                i < n && #[trigger] rep1(i, target) >= s ==> amps@[base + i] == old(amps)@[base + i],
            forall|i: usize|
                i < n && #[trigger] rep1(i, target) < s ==> amps@[base + i] == old(amps)@[base
                    + ccnot_src(i, control1, control2, target)],
            amps@.subrange(base as int, base as int + n as int).to_multiset() == old(amps)@.subrange(
                base as int,
                base as int + n as int,
            ).to_multiset(),
        decreases n - s,
    {
        if s & tm == 0 {
            proof {
                lemma_bv_pair(s, target, qbits);
                lemma_bv_xor(s, target);
                assert(rep1(s, target) == s);
                assert(rep1(s | tm, target) == s);
            }
            let p: usize = s | tm;
            let ghost prev = amps@;
            if s & c1m != 0 && s & c2m != 0 {
                proof {
                    assert(ccnot_src(s, control1, control2, target) == p);
                    assert(ccnot_src(p, control1, control2, target) == s);
                }
                let u = amps[base + s];
                let v = amps[base + p];
                amps.set(base + s, v);
                amps.set(base + p, u);
            proof {
                let rp = prev.subrange(base as int, base as int + n as int);
                assert(amps@.subrange(base as int, base as int + n as int) =~= rp.update(
                    s as int,
                    rp[p as int],
                ).update(p as int, rp[s as int]));
                lemma_exchange_keeps_multiset(rp, s as int, p as int);
            }
            } else {
                proof {
                    assert(ccnot_src(s, control1, control2, target) == s);
                    assert(ccnot_src(p, control1, control2, target) == p);
                }
            }
            proof {
                assert forall|i: usize| i < n && #[trigger] rep1(i, target) < s + 1 implies amps@[base
                    + i] == old(amps)@[base + ccnot_src(i, control1, control2, target)] by {
                    lemma_bv_rep_clear(i, target);
                    if rep1(i, target) < s {
                        assert(amps@[base + i] == prev[base + i]);
                    } else {
                        lemma_bv_pair_cases(i, target);
                        assert(i == s || i == (s | tm));
                    }
                }
                assert forall|i: usize| i < n && #[trigger] rep1(i, target) >= s + 1 implies amps@[base
                    + i] == old(amps)@[base + i] by {
                    lemma_bv_rep_clear(i, target);
                }
            }
        } else {
            proof {
                assert forall|i: usize| i < n && #[trigger] rep1(i, target) >= s + 1 implies amps@[base
                    + i] == old(amps)@[base + i] by {
                    lemma_bv_rep_clear(i, target);
                }
                assert forall|i: usize| i < n && #[trigger] rep1(i, target) < s + 1 implies amps@[base
                    + i] == old(amps)@[base + ccnot_src(i, control1, control2, target)] by {
                    lemma_bv_rep_clear(i, target);
                }
            }
        }
        s += 1;
    }
    proof {
        assert forall|i: usize| i < n implies amps@[base + i] == old(amps)@[base
            + #[trigger] ccnot_src(i, control1, control2, target)] by {
            lemma_bv_rep_le(i, target);
            assert(rep1(i, target) < n);
        }
    }
}

} // verus!

verus! {

/// The representative of `i` in the quadruple partition by qubits `a`, `b`:
/// `i` with both bits cleared.
pub open spec fn rep2(i: usize, a: usize, b: usize) -> usize {
    (i & !qmask(a)) & !qmask(b)
}

/// Basis index `i` is moved by SWAP(a, b): exactly one of the two bits is set.
pub open spec fn swap_moved(i: usize, a: usize, b: usize) -> bool {
    (i & qmask(a) != 0) != (i & qmask(b) != 0)
}

/// Where the amplitude at `i` comes from under SWAP(a, b).
pub open spec fn swap_src(i: usize, a: usize, b: usize) -> usize {
    if swap_moved(i, a, b) {
        (i ^ qmask(a)) ^ qmask(b)
    } else {
        i
    }
}

/// Bit facts about the quadruple at representative `s` (bits `a`, `b` clear).
proof fn lemma_bv_quad(s: usize, a: usize, b: usize, nb: usize)
    by (bit_vector)
    requires
        a < nb,
        b < nb,
        a != b,
        s < (1usize << nb),
        s & (1usize << a) == 0,
        s & (1usize << b) == 0,
    ensures
        (s | (1usize << a)) == s + (1usize << a),
        (s | (1usize << b)) == s + (1usize << b),
        ((s | (1usize << a)) | (1usize << b)) == s + (1usize << a) + (1usize << b),
        s + (1usize << a) + (1usize << b) < (1usize << nb),
        (s & !(1usize << a)) & !(1usize << b) == s,
        ((s | (1usize << a)) & !(1usize << a)) & !(1usize << b) == s,
        ((s | (1usize << b)) & !(1usize << a)) & !(1usize << b) == s,
        (((s | (1usize << a)) | (1usize << b)) & !(1usize << a)) & !(1usize << b) == s,
        (s | (1usize << a)) & (1usize << a) != 0,
        (s | (1usize << a)) & (1usize << b) == 0,
        (s | (1usize << b)) & (1usize << a) == 0,
        (s | (1usize << b)) & (1usize << b) != 0,
        ((s | (1usize << a)) | (1usize << b)) & (1usize << a) != 0,
        ((s | (1usize << a)) | (1usize << b)) & (1usize << b) != 0,
        ((s | (1usize << a)) ^ (1usize << a)) ^ (1usize << b) == (s | (1usize << b)),
        ((s | (1usize << b)) ^ (1usize << a)) ^ (1usize << b) == (s | (1usize << a)),
{
}

/// Clearing both bits leaves both clear, and never grows the index.
proof fn lemma_bv_rep2_clear(i: usize, a: usize, b: usize)
    by (bit_vector)
    ensures
        ((i & !(1usize << a)) & !(1usize << b)) & (1usize << a) == 0,
        ((i & !(1usize << a)) & !(1usize << b)) & (1usize << b) == 0,
        ((i & !(1usize << a)) & !(1usize << b)) <= i,
{
}

/// Every basis index is one of the four members of its quadruple.
proof fn lemma_bv_quad_cases(i: usize, a: usize, b: usize)
    by (bit_vector)
    ensures
        i == ((i & !(1usize << a)) & !(1usize << b)) || i == (((i & !(1usize << a)) & !(1usize
            << b)) | (1usize << a)) || i == (((i & !(1usize << a)) & !(1usize << b)) | (1usize
            << b)) || i == ((((i & !(1usize << a)) & !(1usize << b)) | (1usize << a)) | (1usize
            << b)),
{
}

/// SWAP(a, b): for every basis index with both bits clear, the amplitudes at
/// `i | 1 << a` and `i | 1 << b` are exchanged (the singly-excited pair);
/// everything else stays. A pure permutation: no arithmetic.
pub fn apply_swap<A: Copy>(amps: &mut Vec<A>, base: usize, qbits: usize, qbit1: usize, qbit2: usize)
    requires
        qbit1 < qbits,
        qbit2 < qbits,
        qbit1 != qbit2,
        base + pow2(qbits as nat) <= old(amps)@.len(),
    ensures
        frame_outside(old(amps)@, final(amps)@, base as int, pow2(qbits as nat) as int),
        forall|i: usize|
            i < pow2(qbits as nat) ==> final(amps)@[base + i] == old(amps)@[base
                + #[trigger] swap_src(i, qbit1, qbit2)],
        final(amps)@.subrange(base as int, base as int + pow2(qbits as nat)).to_multiset()
            == old(amps)@.subrange(base as int, base as int + pow2(qbits as nat)).to_multiset(),
{
    let total = amps.len();
    proof {
        assert(amps@.len() == total);
        lemma_pow2_fits_usize(qbits as nat);
        lemma_usize_pow2_no_overflow(qbit1 as nat);
        lemma_usize_pow2_no_overflow(qbit2 as nat);
        lemma_usize_pow2_no_overflow(qbits as nat);
    }
    let n: usize = 1usize << qbits;
    let ma: usize = 1usize << qbit1;
    let mb: usize = 1usize << qbit2;
    proof {
        lemma_usize_shl_is_mul(1, qbits);
        lemma_usize_shl_is_mul(1, qbit1);
        lemma_usize_shl_is_mul(1, qbit2);
    }
    let mut s: usize = 0;
    while s < n
        invariant
            s <= n,
            n == pow2(qbits as nat),
            n == 1usize << qbits,
            ma == qmask(qbit1),
            ma == 1usize << qbit1,
            mb == qmask(qbit2),
            mb == 1usize << qbit2,
            qbit1 < qbits,
            qbit2 < qbits,
            qbit1 != qbit2,
            base + n <= amps@.len(),
            amps@.len() <= usize::MAX,
            amps@.len() == old(amps)@.len(),
            frame_outside(old(amps)@, amps@, base as int, n as int),
            forall|i: usize|
                i < n && #[trigger] rep2(i, qbit1, qbit2) >= s ==> amps@[base + i] == old(amps)@[base
                    + i],
            forall|i: usize|
                i < n && #[trigger] rep2(i, qbit1, qbit2) < s ==> amps@[base + i] == old(amps)@[base
                    + swap_src(i, qbit1, qbit2)],
            amps@.subrange(base as int, base as int + n as int).to_multiset() == old(amps)@.subrange(
                base as int,
                base as int + n as int,
            ).to_multiset(),
        decreases n - s,
    {
        if s & ma == 0 && s & mb == 0 {
            proof {
                lemma_bv_quad(s, qbit1, qbit2, qbits);
                assert(rep2(s, qbit1, qbit2) == s);
                assert(rep2(s | ma, qbit1, qbit2) == s);
                assert(rep2(s | mb, qbit1, qbit2) == s);
                assert(rep2((s | ma) | mb, qbit1, qbit2) == s);
                assert(swap_src(s, qbit1, qbit2) == s);
                assert(swap_src(s | ma, qbit1, qbit2) == (s | mb));
                assert(swap_src(s | mb, qbit1, qbit2) == (s | ma));
                assert(swap_src((s | ma) | mb, qbit1, qbit2) == ((s | ma) | mb));
            }
            let i1: usize = s | ma;
            let i2: usize = s | mb;
            let ghost prev = amps@;
            let u = amps[base + i1];
            let v = amps[base + i2];
            amps.set(base + i1, v);
            amps.set(base + i2, u);
            proof {
                let rp = prev.subrange(base as int, base as int + n as int);
                assert(amps@.subrange(base as int, base as int + n as int) =~= rp.update(
                    i1 as int,
                    rp[i2 as int],
                ).update(i2 as int, rp[i1 as int]));
                lemma_exchange_keeps_multiset(rp, i1 as int, i2 as int);
            }
            proof {
                assert forall|i: usize| i < n && #[trigger] rep2(i, qbit1, qbit2) < s + 1 implies amps@[
                    base + i] == old(amps)@[base + swap_src(i, qbit1, qbit2)] by {
                    lemma_bv_rep2_clear(i, qbit1, qbit2);
                    if rep2(i, qbit1, qbit2) < s {
                        assert(amps@[base + i] == prev[base + i]);
                    } else {
                        lemma_bv_quad_cases(i, qbit1, qbit2);
                        assert(i == s || i == (s | ma) || i == (s | mb) || i == ((s | ma) | mb));
                    }
                }
                assert forall|i: usize| i < n && #[trigger] rep2(i, qbit1, qbit2) >= s + 1 implies amps@[
                    base + i] == old(amps)@[base + i] by {
                    lemma_bv_rep2_clear(i, qbit1, qbit2);
                }
            }
        } else {
            proof {
                assert forall|i: usize| i < n && #[trigger] rep2(i, qbit1, qbit2) >= s + 1 implies amps@[
                    base + i] == old(amps)@[base + i] by {
                    lemma_bv_rep2_clear(i, qbit1, qbit2);
                }
                assert forall|i: usize| i < n && #[trigger] rep2(i, qbit1, qbit2) < s + 1 implies amps@[
                    base + i] == old(amps)@[base + swap_src(i, qbit1, qbit2)] by {
                    lemma_bv_rep2_clear(i, qbit1, qbit2);
                }
            }
        }
        s += 1;
    }
    proof {
        assert forall|i: usize| i < n implies amps@[base + i] == old(amps)@[base
            + #[trigger] swap_src(i, qbit1, qbit2)] by {
            lemma_bv_rep2_clear(i, qbit1, qbit2);
            assert(rep2(i, qbit1, qbit2) < n);
        }
    }
}

/// The quadruple at representative `s` (bits `a`, `b` clear) was transformed
/// by the 4x4 backend `f`: the four amplitudes at offsets
/// `{0, 1 << a, 1 << b, (1 << a) | (1 << b)}` of `post` are a possible output
/// of `f` on the same four amplitudes of `pre`.
pub open spec fn quad_okp<A, F: Fn(A, A, A, A) -> (A, A, A, A)>(
    f: F,
    pre: Seq<A>,
    post: Seq<A>,
    base: int,
    s: usize,
    a: usize,
    b: usize,
) -> bool {
    call_ensures(
        f,
        (
            pre[base + s],
            pre[base + (s | qmask(a))],
            pre[base + (s | qmask(b))],
            pre[base + ((s | qmask(a)) | qmask(b))],
        ),
        (
            post[base + s],
            post[base + (s | qmask(a))],
            post[base + (s | qmask(b))],
            post[base + ((s | qmask(a)) | qmask(b))],
        ),
    )
}

/// Applies a 4x4 gate (through the backend `f`) to the two distinct qubits
/// `qbit1`, `qbit2`: for every basis index with both bits clear, the four
/// amplitudes of its quadruple are replaced by an output of `f` on them.
pub fn apply_mat_2<A: Copy, F: Fn(A, A, A, A) -> (A, A, A, A)>(
    amps: &mut Vec<A>,
    base: usize,
    qbits: usize,
    qbit1: usize,
    qbit2: usize,
    f: &F,
)
    requires
        qbit1 < qbits,
        qbit2 < qbits,
        qbit1 != qbit2,
        base + pow2(qbits as nat) <= old(amps)@.len(),
        forall|a0: A, a1: A, a2: A, a3: A| call_requires(*f, (a0, a1, a2, a3)),
    ensures
        frame_outside(old(amps)@, final(amps)@, base as int, pow2(qbits as nat) as int),
        forall|s: usize|
            s < pow2(qbits as nat) && s & qmask(qbit1) == 0 && s & qmask(qbit2) == 0
                ==> #[trigger] quad_okp(*f, old(amps)@, final(amps)@, base as int, s, qbit1, qbit2),
{
    let total = amps.len();
    proof {
        assert(amps@.len() == total);
        lemma_pow2_fits_usize(qbits as nat);
        lemma_usize_pow2_no_overflow(qbit1 as nat);
        lemma_usize_pow2_no_overflow(qbit2 as nat);
        lemma_usize_pow2_no_overflow(qbits as nat);
    }
    let n: usize = 1usize << qbits;
    let ma: usize = 1usize << qbit1;
    let mb: usize = 1usize << qbit2;
    proof {
        lemma_usize_shl_is_mul(1, qbits);
        lemma_usize_shl_is_mul(1, qbit1);
        lemma_usize_shl_is_mul(1, qbit2);
    }
    let mut s: usize = 0;
    while s < n
        invariant
            s <= n,
            n == pow2(qbits as nat),
            n == 1usize << qbits,
            ma == qmask(qbit1),
            ma == 1usize << qbit1,
            mb == qmask(qbit2),
            mb == 1usize << qbit2,
            qbit1 < qbits,
            qbit2 < qbits,
            qbit1 != qbit2,
            base + n <= amps@.len(),
            amps@.len() <= usize::MAX,
            amps@.len() == old(amps)@.len(),
            forall|a0: A, a1: A, a2: A, a3: A| call_requires(*f, (a0, a1, a2, a3)),
            frame_outside(old(amps)@, amps@, base as int, n as int),
            forall|i: usize|
                i < n && #[trigger] rep2(i, qbit1, qbit2) >= s ==> amps@[base + i] == old(amps)@[base
                    + i],
            forall|t: usize|
                t < s && t & qmask(qbit1) == 0 && t & qmask(qbit2) == 0 ==> #[trigger] quad_okp(
                    *f,
                    old(amps)@,
                    amps@,
                    base as int,
                    t,
                    qbit1,
                    qbit2,
                ),
        decreases n - s,
    {
        if s & ma == 0 && s & mb == 0 {
            proof {
                lemma_bv_quad(s, qbit1, qbit2, qbits);
                assert(rep2(s, qbit1, qbit2) == s);
                assert(rep2(s | ma, qbit1, qbit2) == s);
                assert(rep2(s | mb, qbit1, qbit2) == s);
                assert(rep2((s | ma) | mb, qbit1, qbit2) == s);
            }
            let i1: usize = s | ma;
            let i2: usize = s | mb;
            let i3: usize = i1 | mb;
            let ghost prev = amps@;
            let a0 = amps[base + s];
            let a1 = amps[base + i1];
            let a2 = amps[base + i2];
            let a3 = amps[base + i3];
            let (x0, x1, x2, x3) = (*f)(a0, a1, a2, a3);
            amps.set(base + s, x0);
            amps.set(base + i1, x1);
            amps.set(base + i2, x2);
            amps.set(base + i3, x3);
            proof {
                assert(call_ensures(*f, (a0, a1, a2, a3), (x0, x1, x2, x3)));
                assert(amps@[base + s] == x0);
                assert(amps@[base + (s | qmask(qbit1))] == x1);
                assert(amps@[base + (s | qmask(qbit2))] == x2);
                assert(amps@[base + ((s | qmask(qbit1)) | qmask(qbit2))] == x3);
                assert(quad_okp(*f, old(amps)@, amps@, base as int, s, qbit1, qbit2));
                assert forall|t: usize| t < s + 1 && t & qmask(qbit1) == 0 && t & qmask(qbit2) == 0
                    implies #[trigger] quad_okp(*f, old(amps)@, amps@, base as int, t, qbit1, qbit2) by {
                    if t < s {
                        lemma_bv_quad(t, qbit1, qbit2, qbits);
                        assert(quad_okp(*f, old(amps)@, prev, base as int, t, qbit1, qbit2));
                        assert(rep2(t, qbit1, qbit2) == t);
                        assert(rep2(t | qmask(qbit1), qbit1, qbit2) == t);
                        assert(rep2(t | qmask(qbit2), qbit1, qbit2) == t);
                        assert(rep2((t | qmask(qbit1)) | qmask(qbit2), qbit1, qbit2) == t);
                        assert(amps@[base + t] == prev[base + t]);
                        assert(amps@[base + (t | qmask(qbit1))] == prev[base + (t | qmask(qbit1))]);
                        assert(amps@[base + (t | qmask(qbit2))] == prev[base + (t | qmask(qbit2))]);
                        assert(amps@[base + ((t | qmask(qbit1)) | qmask(qbit2))] == prev[base + ((t
                            | qmask(qbit1)) | qmask(qbit2))]);
                    }
                }
                assert forall|i: usize| i < n && #[trigger] rep2(i, qbit1, qbit2) >= s + 1 implies amps@[
                    base + i] == old(amps)@[base + i] by {
                    lemma_bv_rep2_clear(i, qbit1, qbit2);
                }
            }
        } else {
            proof {
                assert forall|i: usize| i < n && #[trigger] rep2(i, qbit1, qbit2) >= s + 1 implies amps@[
                    base + i] == old(amps)@[base + i] by {
                    lemma_bv_rep2_clear(i, qbit1, qbit2);
                }
            }
        }
        s += 1;
    }
}

} // verus!

verus! {

/// Xoring a bit twice restores the index, and leaves the rest untouched.
proof fn lemma_bv_xor_involution(i: usize, t: usize)
    by (bit_vector)
    ensures
        (i ^ (1usize << t)) ^ (1usize << t) == i,
        ((i ^ (1usize << t)) & !(1usize << t)) == (i & !(1usize << t)),
{
}

/// Xor facts for the doubly-flipped swap image.
proof fn lemma_bv_swap_involution(i: usize, a: usize, b: usize)
    by (bit_vector)
    requires
        a != b,
        (1usize << a) != 0,
        (1usize << b) != 0,
    ensures
        (((i ^ (1usize << a)) ^ (1usize << b)) ^ (1usize << a)) ^ (1usize << b) == i,
        ((((i ^ (1usize << a)) ^ (1usize << b)) & (1usize << a)) != 0) == ((i & (1usize << a))
            == 0),
        ((((i ^ (1usize << a)) ^ (1usize << b)) & (1usize << b)) != 0) == ((i & (1usize << b))
            == 0),
{
}

/// Brings `qmask(q)` into shift form for the bit-vector lemmas.
proof fn lemma_qmask_shift(q: usize)
    requires
        q < usize::BITS,
    ensures
        qmask(q) == 1usize << q,
{
    lemma_usize_pow2_no_overflow(q as nat);
    lemma_usize_shl_is_mul(1, q);
}

/// CNOT's amplitude permutation is self-inverse, hence a bijection of the
/// basis indices: the matrix it implements in place is a permutation matrix
/// and therefore unitary.
pub proof fn lemma_cnot_src_self_inverse(i: usize, c: usize, t: usize)
    requires
        c < usize::BITS,
        t < usize::BITS,
    ensures
        cnot_src(cnot_src(i, c, t), c, t) == i,
{
    lemma_qmask_shift(c);
    lemma_qmask_shift(t);
    lemma_bv_xor_involution(i, t);
}

/// Toffoli's amplitude permutation is self-inverse, hence a bijection: the
/// matrix it implements is a permutation matrix and therefore unitary.
pub proof fn lemma_ccnot_src_self_inverse(i: usize, c1: usize, c2: usize, t: usize)
    requires
        c1 < usize::BITS,
        c2 < usize::BITS,
        t < usize::BITS,
    ensures
        ccnot_src(ccnot_src(i, c1, c2, t), c1, c2, t) == i,
{
    lemma_qmask_shift(c1);
    lemma_qmask_shift(c2);
    lemma_qmask_shift(t);
    lemma_bv_xor_involution(i, t);
}

/// SWAP's amplitude permutation is self-inverse, hence a bijection: the
/// matrix it implements is a permutation matrix and therefore unitary.
pub proof fn lemma_swap_src_self_inverse(i: usize, a: usize, b: usize)
    requires
        a < usize::BITS,
        b < usize::BITS,
    ensures
        swap_src(swap_src(i, a, b), a, b) == i,
{
    if a == b {
        assert(!swap_moved(i, a, b));
    } else {
        lemma_qmask_shift(a);
        lemma_qmask_shift(b);
        lemma_usize_pow2_no_overflow(a as nat);
        lemma_usize_pow2_no_overflow(b as nat);
        lemma_bv_swap_involution(i, a, b);
    }
}

} // verus!

verus! {

/// Exchanging two entries of a sequence keeps its multiset of values: the
/// kernel-level core of norm preservation for the permutation gates, which
/// rearrange amplitudes and never combine them.
pub proof fn lemma_exchange_keeps_multiset<A>(s: Seq<A>, i: int, j: int)
    requires
        0 <= i < s.len(),
        0 <= j < s.len(),
    ensures
        s.update(i, s[j]).update(j, s[i]).to_multiset() == s.to_multiset(),
{
    broadcast use vstd::multiset::group_multiset_axioms;
    broadcast use vstd::multiset::group_multiset_properties;

    if i == j {
        assert(s.update(i, s[j]).update(j, s[i]) =~= s);
    } else {
        let t1 = s.update(i, s[j]);
        vstd::seq_lib::to_multiset_update(s, i, s[j]);
        vstd::seq_lib::to_multiset_update(t1, j, s[i]);
        broadcast use vstd::seq_lib::group_to_multiset_ensures;

        assert(s.to_multiset().contains(s[i]));
        assert(s.to_multiset().contains(s[j]));
        assert(t1.update(j, s[i]).to_multiset() =~= s.to_multiset());
    }
}

} // verus!
