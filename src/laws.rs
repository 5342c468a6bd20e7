use crate::semantics::{
    block_end, continues, digit_value, initial, is_digit, next_state, run, Effect,
};
use crate::tape::{lemma_store_get, Fault, TapeView};
use crate::vm::{Context, VmView};
use vstd::prelude::*;

verus! {

broadcast use lemma_store_get;

/// From position `pc` on, `src` holds each digit of `ds` followed by `>`.
pub open spec fn digit_row(src: Seq<char>, pc: int, ds: Seq<char>) -> bool {
    &&& pc + 2 * ds.len() <= src.len()
    &&& forall|j: int|
        0 <= j < ds.len() ==> is_digit(#[trigger] ds[j]) && src[pc + 2 * j] == ds[j] && src[pc
            + 2 * j + 1] == '>'
}

proof fn lemma_digit_row(m: VmView, ds: Seq<char>)
    requires
        digit_row(m.src, m.pc as int, ds),
        m.tape.head + ds.len() <= usize::MAX,
    ensures
        ({
            let r = run(m, 2 * ds.len());
            &&& r.pc == m.pc + 2 * ds.len()
            &&& r.src == m.src
            &&& r.ctx == m.ctx
            &&& r.vals == m.vals
            &&& r.tape.head == m.tape.head + ds.len()
            &&& forall|a: int| #[trigger]
                r.tape.get(a) == if m.tape.head <= a < m.tape.head + ds.len() {
                    digit_value(ds[a - m.tape.head])
                } else {
                    m.tape.get(a)
                }
        }),
    decreases ds.len(),
{
    if ds.len() > 0 {
        assert(m.src[m.pc + 2int * 0] == ds[0]);
        assert(is_digit(ds[0]));
        let m1 = next_state(m).0;
        assert(m1.src[m.pc + 2int * 0 + 1] == '>');
        let m2 = next_state(m1).0;
        let rest = ds.drop_first();
        assert(digit_row(m2.src, m2.pc as int, rest)) by {
            assert forall|j: int| 0 <= j < rest.len() implies m2.src[m2.pc + 2 * j] == rest[j]
                && m2.src[m2.pc + 2 * j + 1] == '>' && is_digit(rest[j]) by {
                assert(m.src[m.pc + 2 * (j + 1)] == ds[j + 1]);
                assert(m.src[m.pc + 2 * (j + 1) + 1] == '>');
                assert(is_digit(ds[j + 1]));
            }
        }
        lemma_digit_row(m2, rest);
        let k = 2 * ds.len();
        assert(next_state(m).1 == Effect::Ran);
        assert(run(m, k) == run(m1, (k - 1) as nat));
        assert(next_state(m1).1 == Effect::Ran);
        assert(run(m1, (k - 1) as nat) == run(m2, (k - 2) as nat));
        assert((k - 2) as nat == 2 * rest.len());
    }
}

/// A program made of digits each followed by `>`, run from the start, lays
/// its digits' values on the tape at addresses 0, 1, 2, ... in order; every
/// other cell reads 0, the head ends just past the last digit, and the next
/// step halts.
pub proof fn law_digits_fill_tape(src: Seq<char>, ds: Seq<char>)
    requires
        src.len() == 2 * ds.len(),
        digit_row(src, 0, ds),
        ds.len() <= usize::MAX,
    ensures
        ({
            let r = run(initial(src), 2 * ds.len());
            &&& r.tape.head == ds.len()
            &&& forall|a: int| #[trigger]
                r.tape.get(a) == if 0 <= a < ds.len() {
                    digit_value(ds[a])
                } else {
                    0
                }
            &&& next_state(r).1 == Effect::Halt
        }),
{
    lemma_digit_row(initial(src), ds);
}

/// `z[`: on a cell holding 0 the body is skipped whole and nothing else
/// changes; on a nonzero cell the body is entered and a loop context that
/// returns to the body's start is pushed.
pub proof fn law_zero_loop_entry(m: VmView)
    requires
        m.pc + 1 < m.src.len(),
        m.src[m.pc as int] == 'z',
        m.src[m.pc + 1int] == '[',
    ensures
        ({
            let (n, e) = next_state(m);
            &&& e == Effect::Ran
            &&& m.tape.current() == 0 ==> n == VmView { pc: block_end(m.src, m.pc + 2, 0), ..m }
            &&& m.tape.current() != 0 ==> n == VmView {
                pc: m.pc + 2,
                ctx: m.ctx.push(Context::Zero((m.pc + 2) as usize)),
                ..m
            }
        }),
{
}

/// `w[` mirrors `z[`: the body is entered only on a cell holding 0.
pub proof fn law_while_loop_entry(m: VmView)
    requires
        m.pc + 1 < m.src.len(),
        m.src[m.pc as int] == 'w',
        m.src[m.pc + 1int] == '[',
    ensures
        ({
            let (n, e) = next_state(m);
            &&& e == Effect::Ran
            &&& m.tape.current() != 0 ==> n == VmView { pc: block_end(m.src, m.pc + 2, 0), ..m }
            &&& m.tape.current() == 0 ==> n == VmView {
                pc: m.pc + 2,
                ctx: m.ctx.push(Context::While((m.pc + 2) as usize)),
                ..m
            }
        }),
{
}

/// At the `]` of a `z` loop the body runs again while the cell is nonzero
/// and the loop ends once it reads 0; at the `]` of a `w` loop the body runs
/// again while the cell reads 0 and the loop ends on a nonzero cell.
pub proof fn law_loop_close(m: VmView)
    requires
        m.pc < m.src.len(),
        m.src[m.pc as int] == ']',
        m.ctx.len() > 0,
    ensures
        ({
            let (n, e) = next_state(m);
            let cur = m.tape.current();
            let back = VmView { pc: m.ctx.last().target() as nat, ..m };
            let out = VmView { pc: m.pc + 1, ctx: m.ctx.drop_last(), ..m };
            &&& e == Effect::Ran
            &&& m.ctx.last() is Zero ==> (if cur != 0 {
                n == back
            } else {
                n == out
            })
            &&& m.ctx.last() is While ==> (if cur == 0 {
                n == back
            } else {
                n == out
            })
        }),
{
}

/// `e[` and `f[` run their body at most once: `e` enters on a nonzero cell,
/// `f` on a cell holding 0, otherwise the body is skipped; neither touches
/// the control stack.
pub proof fn law_once_blocks(m: VmView)
    requires
        m.pc + 1 < m.src.len(),
        m.src[m.pc as int] == 'e' || m.src[m.pc as int] == 'f',
        m.src[m.pc + 1int] == '[',
    ensures
        ({
            let (n, e) = next_state(m);
            let enter = if m.src[m.pc as int] == 'e' {
                m.tape.current() != 0
            } else {
                m.tape.current() == 0
            };
            &&& e == Effect::Ran
            &&& n.ctx == m.ctx
            &&& enter ==> n == VmView { pc: m.pc + 2, ..m }
            &&& !enter ==> n == VmView { pc: block_end(m.src, m.pc + 2, 0), ..m }
        }),
{
}

/// `@` followed by `#` leaves the current cell's value, the rest of the tape
/// and the value stack as they were.
pub proof fn law_save_restore(m: VmView)
    requires
        m.pc + 1 < m.src.len(),
        m.src[m.pc as int] == '@',
        m.src[m.pc + 1int] == '#',
        m.tape.head <= usize::MAX,
    ensures
        ({
            let n = run(m, 2);
            &&& n.pc == m.pc + 2
            &&& n.tape.head == m.tape.head
            &&& n.tape.same_cells(m.tape)
            &&& n.vals == m.vals
            &&& n.ctx == m.ctx
        }),
{
    let m1 = next_state(m).0;
    assert(m1.vals.drop_last() =~= m.vals);
    let m2 = next_state(m1).0;
    assert(next_state(m).1 == Effect::Ran);
    assert(next_state(m1).1 == Effect::Ran);
    assert(run(m, 2) == run(m1, 1));
    assert(run(m1, 1) == run(m2, 0));
}

/// `<` with the head at address 0 is the address-underflow fault: the head
/// stays at 0 and the tape is untouched.
pub proof fn law_left_underflow(m: VmView)
    requires
        m.pc < m.src.len(),
        m.src[m.pc as int] == '<',
        m.tape.head == 0,
    ensures
        next_state(m).1 == Effect::Fail(Fault::AddressUnderflow),
        next_state(m).0.tape == m.tape,
{
}

/// Brackets opened minus brackets closed in `s`.
pub open spec fn nesting(s: Seq<char>) -> int
    decreases s.len(),
{
    if s.len() == 0 {
        0
    } else {
        let here: int = if s[0] == '[' {
            1
        } else if s[0] == ']' {
            -1
        } else {
            0
        };
        here + nesting(s.drop_first())
    }
}

/// `]` at `q` closes a block whose body starts at `pc` with `depth` brackets
/// already open: no prefix of `src[pc..q]` closes more than it opens beyond
/// `depth`, and the whole span leaves exactly `depth` of them to close.
pub open spec fn closes_at(src: Seq<char>, pc: int, q: int, depth: int) -> bool {
    &&& 0 <= pc <= q < src.len()
    &&& src[q] == ']'
    &&& forall|k: int| pc <= k < q ==> depth + nesting(#[trigger] src.subrange(pc, k + 1)) >= 0
    &&& depth + nesting(src.subrange(pc, q)) == 0
}

proof fn lemma_block_end(src: Seq<char>, pc: int, q: int, depth: nat)
    requires
        closes_at(src, pc, q, depth as int),
    ensures
        block_end(src, pc as nat, depth) == q + 1,
    decreases q - pc,
{
    if pc < q {
        let c = src[pc];
        let here: int = if c == '[' {
            1
        } else if c == ']' {
            -1
        } else {
            0
        };
        assert(src.subrange(pc, pc + 1).drop_first() =~= Seq::<char>::empty());
        assert(nesting(Seq::<char>::empty()) == 0);
        assert(src.subrange(pc, pc + 1)[0] == c);
        assert(nesting(src.subrange(pc, pc + 1)) == here);
        let d2 = depth + here;
        assert(d2 >= 0);
        assert forall|k: int| pc + 1 <= k < q implies d2 + nesting(
            #[trigger] src.subrange(pc + 1, k + 1),
        ) >= 0 by {
            assert(src.subrange(pc, k + 1).drop_first() =~= src.subrange(pc + 1, k + 1));
            assert(src.subrange(pc, k + 1)[0] == c);
            assert(depth + nesting(src.subrange(pc, k + 1)) >= 0);
        }
        assert(src.subrange(pc, q).drop_first() =~= src.subrange(pc + 1, q));
        assert(src.subrange(pc, q)[0] == c);
        if c == ']' {
            assert(depth + nesting(src.subrange(pc, pc + 1)) >= 0);
        }
        lemma_block_end(src, pc + 1, q, d2 as nat);
    } else {
        assert(src.subrange(pc, q) =~= Seq::<char>::empty());
    }
}

/// The scan that skips a block stops right after the `]` that matches its
/// opening bracket: brackets opened inside the body are closed inside it,
/// whatever letters introduce them.
pub proof fn law_skip_stops_at_match(src: Seq<char>, pc: int, q: int)
    requires
        closes_at(src, pc, q, 0),
    ensures
        block_end(src, pc as nat, 0) == q + 1,
{
    lemma_block_end(src, pc, q, 0);
}

/// A digit, `>` or `<`.
pub open spec fn is_tape_op(c: char) -> bool {
    is_digit(c) || c == '>' || c == '<'
}

/// The tape after the digits and head moves of `prog` act on `t` one by one:
/// a digit writes its value under the head, `>` and `<` move the head by one.
/// None where the head would leave the addresses.
pub open spec fn paint(prog: Seq<char>, t: TapeView) -> Option<TapeView>
    decreases prog.len(),
{
    if prog.len() == 0 {
        Some(t)
    } else {
        let c = prog[0];
        let next = if is_digit(c) {
            Some(t.store(t.head as usize, digit_value(c)))
        } else if c == '>' {
            if t.head < usize::MAX {
                Some(t.at(t.head + 1))
            } else {
                None
            }
        } else if t.head > 0 {
            Some(t.at((t.head - 1) as nat))
        } else {
            None
        };
        match next {
            Some(n) => paint(prog.drop_first(), n),
            None => None,
        }
    }
}

proof fn lemma_paint(m: VmView, t: TapeView)
    requires
        m.pc <= m.src.len(),
        forall|k: int| m.pc <= k < m.src.len() ==> is_tape_op(#[trigger] m.src[k]),
        paint(m.src.subrange(m.pc as int, m.src.len() as int), m.tape) == Some(t),
    ensures
        ({
            let r = run(m, (m.src.len() - m.pc) as nat);
            &&& r == VmView { pc: m.src.len(), tape: t, ..m }
        }),
    decreases m.src.len() - m.pc,
{
    let rest = m.src.subrange(m.pc as int, m.src.len() as int);
    if m.pc < m.src.len() {
        let c = m.src[m.pc as int];
        assert(is_tape_op(c));
        assert(rest[0] == c);
        assert(rest.drop_first() =~= m.src.subrange(m.pc + 1int, m.src.len() as int));
        let (m1, e1) = next_state(m);
        assert(e1 == Effect::Ran);
        assert(m1.pc == m.pc + 1);
        lemma_paint(m1, t);
        assert(run(m, (m.src.len() - m.pc) as nat) == run(m1, (m.src.len() - m1.pc) as nat));
    } else {
        assert(rest =~= Seq::<char>::empty());
    }
}

/// A program of digits, `>` and `<` only, run from the start, leaves the
/// tape exactly as writing each digit under the head and moving the head for
/// each `>` and `<` does, starting from an all-zero tape with the head at 0;
/// the next step halts.
pub proof fn law_tape_ops_paint_tape(src: Seq<char>, t: TapeView)
    requires
        forall|k: int| 0 <= k < src.len() ==> is_tape_op(#[trigger] src[k]),
        paint(src, initial(src).tape) == Some(t),
    ensures
        run(initial(src), src.len()).tape == t,
        next_state(run(initial(src), src.len())).1 == Effect::Halt,
{
    assert(src.subrange(0, src.len() as int) =~= src);
    lemma_paint(initial(src), t);
}

/// Each of the first `n` steps from `m` lets the run go on.
pub open spec fn clear(m: VmView, n: nat) -> bool
    decreases n,
{
    n == 0 || {
        let (m1, e) = next_state(m);
        continues(e) && clear(m1, (n - 1) as nat)
    }
}

proof fn lemma_run_split(m: VmView, a: nat, k: nat)
    requires
        clear(m, a),
    ensures
        run(m, a + k) == run(run(m, a), k),
    decreases a,
{
    if a > 0 {
        let m1 = next_state(m).0;
        lemma_run_split(m1, (a - 1) as nat, k);
        assert((a + k - 1) as nat == (a - 1) as nat + k);
    }
}

/// One pass of a `z` loop at run level: if the body, started at `b` with the
/// loop's context on top, runs `n` steps to its closing `]` and leaves the
/// control stack as it found it, the next step starts the body again while
/// the cell is nonzero, and once it reads 0 goes on after `]` with the
/// loop's context gone.
pub proof fn law_zero_loop_pass(s: VmView, n: nat, q: int)
    requires
        s.ctx.len() > 0,
        s.ctx.last() is Zero,
        s.ctx.last().target() == s.pc,
        clear(s, n),
        run(s, n).pc == q,
        0 <= q < run(s, n).src.len(),
        run(s, n).src[q] == ']',
        run(s, n).ctx == s.ctx,
    ensures
        ({
            let e = run(s, n);
            run(s, n + 1) == if e.tape.current() != 0 {
                VmView { pc: s.pc, ..e }
            } else {
                VmView { pc: (q + 1) as nat, ctx: s.ctx.drop_last(), ..e }
            }
        }),
{
    lemma_run_split(s, n, 1);
    let e = run(s, n);
    assert(run(next_state(e).0, 0) == next_state(e).0);
    assert(run(e, 1) == next_state(e).0);
}

/// One pass of a `w` loop at run level: as for `z`, with the test reversed;
/// the body starts again while the cell reads 0.
pub proof fn law_while_loop_pass(s: VmView, n: nat, q: int)
    requires
        s.ctx.len() > 0,
        s.ctx.last() is While,
        s.ctx.last().target() == s.pc,
        clear(s, n),
        run(s, n).pc == q,
        0 <= q < run(s, n).src.len(),
        run(s, n).src[q] == ']',
        run(s, n).ctx == s.ctx,
    ensures
        ({
            let e = run(s, n);
            run(s, n + 1) == if e.tape.current() == 0 {
                VmView { pc: s.pc, ..e }
            } else {
                VmView { pc: (q + 1) as nat, ctx: s.ctx.drop_last(), ..e }
            }
        }),
{
    lemma_run_split(s, n, 1);
    let e = run(s, n);
    assert(run(next_state(e).0, 0) == next_state(e).0);
    assert(run(e, 1) == next_state(e).0);
}

/// The body of `e[` or `f[` runs once at run level: entered with an empty
/// control stack, once it reaches its closing `]` with the stack still
/// empty, the run goes on after `]` and never returns to the body.
pub proof fn law_once_block_pass(s: VmView, n: nat, q: int)
    requires
        s.ctx.len() == 0,
        clear(s, n),
        run(s, n).pc == q,
        0 <= q < run(s, n).src.len(),
        run(s, n).src[q] == ']',
        run(s, n).ctx.len() == 0,
    ensures
        run(s, n + 1) == (VmView { pc: (q + 1) as nat, ..run(s, n) }),
{
    lemma_run_split(s, n, 1);
    let e = run(s, n);
    assert(run(next_state(e).0, 0) == next_state(e).0);
    assert(run(e, 1) == next_state(e).0);
}

} // verus!
