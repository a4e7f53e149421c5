//! Bitmasks over field positions: bit `i` set means position `i` is permitted.

use crate::expr::{
    expr_admits, exprs_admit, in_run, ors_admits, run_offset, top, Expr, Exprs, OrsExpr,
};
use crate::values::ExprValue;
use vstd::prelude::*;

verus! {

/// Whether bit `i` of `m` is set.
pub open spec fn bit(m: u64, i: int) -> bool {
    0 <= i < 64 && (m >> (i as u64)) & 1 == 1
}

proof fn lemma_bit_or(a: u64, b: u64, i: u64)
    by (bit_vector)
    requires
        i < 64,
    ensures
        ((a | b) >> i) & 1 == 1 <==> ((a >> i) & 1 == 1 || (b >> i) & 1 == 1),
{
}

proof fn lemma_bit_one(v: u64, i: u64)
    by (bit_vector)
    requires
        v < 64,
        i < 64,
    ensures
        ((1u64 << v) >> i) & 1 == 1 <==> i == v,
{
}

proof fn lemma_bit_zero(i: u64)
    by (bit_vector)
    requires
        i < 64,
    ensures
        !((0u64 >> i) & 1 == 1),
{
}

proof fn lemma_bit_run(a: u64, b: u64, s: u64, i: u64)
    by (bit_vector)
    requires
        a <= b < 64,
        s == 63 - b,
        i < 64,
    ensures
        ((((0xFFFF_FFFF_FFFF_FFFFu64 >> a) << a) << s) >> s >> i) & 1 == 1 <==> (a <= i && i
            <= b),
{
}

/// Bit `i` of a 32-bit mask, read through its 64-bit widening.
pub proof fn lemma_bit_u32(m: u32, i: u32)
    by (bit_vector)
    requires
        i < 32,
    ensures
        (m >> i) & 1 == 1 <==> ((m as u64) >> (i as u64)) & 1 == 1,
{
}

/// Bit `i` of a 16-bit mask, read through its 64-bit widening.
pub proof fn lemma_bit_u16(m: u16, i: u16)
    by (bit_vector)
    requires
        i < 16,
    ensures
        (m >> i) & 1 == 1 <==> ((m as u64) >> (i as u64)) & 1 == 1,
{
}

/// Bit `i` of an 8-bit mask, read through its 64-bit widening.
pub proof fn lemma_bit_u8(m: u8, i: u8)
    by (bit_vector)
    requires
        i < 8,
    ensures
        (m >> i) & 1 == 1 <==> ((m as u64) >> (i as u64)) & 1 == 1,
{
}

proof fn lemma_narrow(m: u64, i: u64)
    by (bit_vector)
    requires
        i < 64,
    ensures
        (((m as u32) as u64) >> i) & 1 == 1 <==> (i < 32 && (m >> i) & 1 == 1),
        (((m as u16) as u64) >> i) & 1 == 1 <==> (i < 16 && (m >> i) & 1 == 1),
        (((m as u8) as u64) >> i) & 1 == 1 <==> (i < 8 && (m >> i) & 1 == 1),
{
}

/// Narrowing a mask to 32, 16 or 8 bits keeps exactly the bits below that width.
pub proof fn lemma_narrow_bits(m: u64)
    ensures
        forall|i: int| #[trigger] bit((m as u32) as u64, i) <==> (i < 32 && bit(m, i)),
        forall|i: int| #[trigger] bit((m as u16) as u64, i) <==> (i < 16 && bit(m, i)),
        forall|i: int| #[trigger] bit((m as u8) as u64, i) <==> (i < 8 && bit(m, i)),
{
    assert forall|i: int| #[trigger] bit((m as u32) as u64, i) <==> (i < 32 && bit(m, i)) by {
        if 0 <= i < 64 {
            lemma_narrow(m, i as u64);
        }
    }
    assert forall|i: int| #[trigger] bit((m as u16) as u64, i) <==> (i < 16 && bit(m, i)) by {
        if 0 <= i < 64 {
            lemma_narrow(m, i as u64);
        }
    }
    assert forall|i: int| #[trigger] bit((m as u8) as u64, i) <==> (i < 8 && bit(m, i)) by {
        if 0 <= i < 64 {
            lemma_narrow(m, i as u64);
        }
    }
}

/// The mask with exactly the bits `a..=b` set.
pub fn run_mask(a: u8, b: u8) -> (r: u64)
    requires
        a <= b < 64,
    ensures
        forall|i: int| 0 <= i < 64 ==> (bit(r, i) <==> a <= i <= b),
{
    let bits = (0xFFFF_FFFF_FFFF_FFFFu64 >> a) << a;
    let s = 63 - b;
    let r = (bits << s) >> s;
    proof {
        assert forall|i: int| 0 <= i < 64 implies (bit(r, i) <==> a <= i <= b) by {
            lemma_bit_run(a as u64, b as u64, s as u64, i as u64);
        }
    }
    r
}

/// The mask with exactly the bit `v` set.
pub fn one_mask(v: u8) -> (r: u64)
    requires
        v < 64,
    ensures
        forall|i: int| 0 <= i < 64 ==> (bit(r, i) <==> i == v),
{
    let r = 1u64 << v;
    proof {
        assert forall|i: int| 0 <= i < 64 implies (bit(r, i) <==> i == v) by {
            lemma_bit_one(v as u64, i as u64);
        }
    }
    r
}

/// The union of two masks.
pub fn union_mask(a: u64, b: u64) -> (r: u64)
    ensures
        forall|i: int| 0 <= i < 64 ==> (bit(r, i) <==> bit(a, i) || bit(b, i)),
{
    let r = a | b;
    proof {
        assert forall|i: int| 0 <= i < 64 implies (bit(r, i) <==> bit(a, i) || bit(b, i)) by {
            lemma_bit_or(a, b, i as u64);
        }
    }
    r
}

/// The position reached `p` steps after `a`, wrapping past `t` back to 0.
pub open spec fn run_at(a: int, p: int, t: int) -> int {
    if a + p <= t {
        a + p
    } else {
        a + p - t - 1
    }
}

/// The number of positions on the run from `a` to `b`, wrapping past `t` back to 0.
pub open spec fn run_len(a: int, b: int, t: int) -> int {
    if a <= b {
        b - a + 1
    } else {
        t - a + 1 + b + 1
    }
}

/// The mask of every `s`-th position on the run from `a` to `b`, starting at `a`, where a run
/// with `a > b` wraps past `t` back to 0.
pub fn step_mask(a: u8, b: u8, t: u8, s: u8) -> (r: u64)
    requires
        a <= t,
        b <= t,
        t < 64,
        s >= 1,
    ensures
        forall|i: int|
            0 <= i < 64 ==> (bit(r, i) <==> (i <= t && in_run(a as int, b as int, i, t as int)
                && run_offset(a as int, i, t as int) % (s as int) == 0)),
{
    let len: u8 = if a <= b {
        b - a + 1
    } else {
        t - a + 1 + b + 1
    };
    let mut m: u64 = 0;
    let mut p: u8 = 0;
    proof {
        assert forall|i: int| 0 <= i < 64 implies !bit(m, i) by {
            lemma_bit_zero(i as u64);
        }
    }
    while p < len
        invariant
            len == run_len(a as int, b as int, t as int),
            a <= t < 64,
            b <= t,
            s >= 1,
            p <= len,
            forall|i: int|
                0 <= i < 64 ==> (bit(m, i) <==> (i <= t && in_run(a as int, b as int, i, t as int)
                    && run_offset(a as int, i, t as int) < p && run_offset(a as int, i, t as int) % (
                s as int) == 0)),
        decreases len - p,
    {
        if p % s == 0 {
            let at: u8 = if a as u16 + p as u16 <= t as u16 {
                a + p
            } else {
                ((a as u16 + p as u16) - t as u16 - 1) as u8
            };
            let one = one_mask(at);
            let next = union_mask(m, one);
            proof {
                assert forall|i: int| 0 <= i <= t implies (run_offset(a as int, i, t as int) == p
                    <==> i == at) by {}
            }
            m = next;
        }
        p = p + 1;
    }
    proof {
        assert forall|i: int| 0 <= i <= t && in_run(a as int, b as int, i, t as int) implies run_offset(
            a as int,
            i,
            t as int,
        ) < len by {}
    }
    m
}

/// The mask of the positions that one expression admits.
pub fn ors_mask<E: ExprValue>(e: &OrsExpr<E>) -> (r: u64)
    ensures
        forall|i: int| 0 <= i < 64 ==> (bit(r, i) <==> (i <= top::<E>() && ors_admits(*e, i))),
{
    proof {
        E::lemma_bounds();
    }
    let t = E::max_index();
    let n = e.normalize();
    match n {
        OrsExpr::One(v) => one_mask(v.index()),
        OrsExpr::Range(a, b) => {
            let a = a.index();
            let b = b.index();
            if a <= b {
                run_mask(a, b)
            } else {
                let high = run_mask(a, t);
                let low = run_mask(0, b);
                union_mask(high, low)
            }
        },
        OrsExpr::Step { start, end, step } => step_mask(
            start.index(),
            end.index(),
            t,
            step.value(),
        ),
    }
}

/// The mask of the positions that a list of expressions admits.
pub fn exprs_mask<E: ExprValue>(es: &Exprs<E>) -> (r: u64)
    ensures
        forall|i: int| 0 <= i < 64 ==> (bit(r, i) <==> (i <= top::<E>() && exprs_admit(*es, i))),
{
    let mut m = ors_mask(&es.first);
    let mut k: usize = 0;
    while k < es.tail.len()
        invariant
            k <= es.tail@.len(),
            forall|i: int|
                0 <= i < 64 ==> (bit(m, i) <==> (i <= top::<E>() && (ors_admits(es.first, i)
                    || exists|j: int| 0 <= j < k && ors_admits(#[trigger] es.tail@[j], i)))),
        decreases es.tail@.len() - k,
    {
        let more = ors_mask(&es.tail[k]);
        let next = union_mask(m, more);
        proof {
            assert forall|i: int| 0 <= i < 64 implies (bit(next, i) <==> (i <= top::<E>() && (
            ors_admits(es.first, i) || exists|j: int|
                0 <= j < k + 1 && ors_admits(#[trigger] es.tail@[j], i)))) by {
                if bit(more, i) {
                    assert(ors_admits(es.tail@[k as int], i));
                }
                if exists|j: int| 0 <= j < k + 1 && ors_admits(#[trigger] es.tail@[j], i) {
                    let j = choose|j: int| 0 <= j < k + 1 && ors_admits(#[trigger] es.tail@[j], i);
                    if j < k {
                    } else {
                        assert(bit(more, i) || i > top::<E>());
                    }
                }
            }
        }
        m = next;
        k = k + 1;
    }
    m
}

/// The mask of the positions that a field expression admits.
pub fn expr_mask<E: ExprValue>(e: &Expr<E>) -> (r: u64)
    ensures
        forall|i: int| 0 <= i < 64 ==> (bit(r, i) <==> expr_admits(*e, i)),
{
    proof {
        E::lemma_bounds();
    }
    match e {
        Expr::All => run_mask(0, E::max_index()),
        Expr::Many(es) => exprs_mask(es),
    }
}

} // verus!
