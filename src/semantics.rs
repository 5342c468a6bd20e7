use crate::tape::{Fault, TapeView};
use crate::vm::{Context, VmView};
use vstd::prelude::*;

verus! {

/// A condition that is reported while the run goes on.
#[derive(Debug, Clone, Copy, PartialEq, Eq, Structural)]
pub enum Warning {
    /// A character that is no instruction; it is skipped.
    UnknownOpcode(char),
    /// A bracket-introducing letter without `[` right after it; the letter
    /// does nothing.
    MissingBracket(char),
    /// `*` whose product does not fit a byte (left, right); the cell is kept.
    MulOverflow(u8, u8),
}

/// What one step hands to the world around the interpreter.
pub enum Effect {
    /// The program is exhausted.
    Halt,
    /// An instruction ran with nothing to show.
    Ran,
    /// Bytes to print, each one the character of that code point.
    Print(Seq<u8>),
    /// A line is wanted for `c`.
    ReadNumber,
    /// A line is wanted for `i`.
    ReadChar,
    /// A line is wanted for `s`.
    ReadLine,
    /// A recoverable condition.
    Warn(Warning),
    /// A fatal condition.
    Fail(Fault),
}

pub open spec fn is_digit(c: char) -> bool {
    '0' <= c && c <= '9'
}

/// The numeric value of a decimal digit.
pub open spec fn digit_value(c: char) -> u8 {
    (c as u32 - '0' as u32) as u8
}

/// The ASCII decimal digits of `v`, most significant first.
pub open spec fn decimal(v: nat) -> Seq<u8>
    decreases v,
{
    if v < 10 {
        seq![(48 + v) as u8]
    } else {
        decimal(v / 10).push((48 + v % 10) as u8)
    }
}

/// The bytes from address `a` up to (not including) the first 0 cell, or up
/// to the last address if no cell there is 0.
pub open spec fn text_from(t: TapeView, a: int) -> Seq<u8>
    decreases usize::MAX + 1 - a,
{
    if a > usize::MAX || t.get(a) == 0 {
        Seq::empty()
    } else {
        seq![t.get(a)] + text_from(t, a + 1)
    }
}

/// Whether the printable text at `a` runs to the end of the address space.
pub open spec fn text_unterminated(t: TapeView, a: int) -> bool {
    a + text_from(t, a).len() > usize::MAX
}

/// The position just past the `]` that closes a block whose body starts at
/// `pc`, with `depth` brackets already open inside it. If no bracket closes
/// it the scan reads past the end once, which leaves it one past the end.
pub open spec fn block_end(src: Seq<char>, pc: nat, depth: nat) -> nat
    decreases src.len() - pc,
{
    if pc >= src.len() {
        pc + 1
    } else if src[pc as int] == ']' {
        if depth == 0 {
            pc + 1
        } else {
            block_end(src, pc + 1, (depth - 1) as nat)
        }
    } else if src[pc as int] == '[' {
        block_end(src, pc + 1, depth + 1)
    } else {
        block_end(src, pc + 1, depth)
    }
}

pub open spec fn is_arith(c: char) -> bool {
    c == '+' || c == '-' || c == '*' || c == '/'
}

pub open spec fn is_opener(c: char) -> bool {
    c == 'z' || c == 'w' || c == 'e' || c == 'f'
}

/// Whether the block that `c` introduces is entered on a cell holding `cur`.
pub open spec fn enters(c: char, cur: u8) -> bool {
    if c == 'z' || c == 'e' {
        cur != 0
    } else {
        cur == 0
    }
}

/// The result of `+ - * /` on `l` (current cell) and `r` (next cell) in a
/// state `n` whose pc has already moved past the instruction.
pub open spec fn arith(c: char, l: u8, r: u8, n: VmView) -> (VmView, Effect) {
    let h = n.tape.head as usize;
    if c == '+' {
        (VmView { tape: n.tape.store(h, ((l + r) % 256) as u8), ..n }, Effect::Ran)
    } else if c == '-' {
        (VmView { tape: n.tape.store(h, ((l - r + 256) % 256) as u8), ..n }, Effect::Ran)
    } else if c == '*' {
        if l * r <= 255 {
            (VmView { tape: n.tape.store(h, (l * r) as u8), ..n }, Effect::Ran)
        } else {
            (n, Effect::Warn(Warning::MulOverflow(l, r)))
        }
    } else {
        if r == 0 {
            (n, Effect::Fail(Fault::DivideByZero))
        } else {
            (VmView { tape: n.tape.store(h, (l / r) as u8), ..n }, Effect::Ran)
        }
    }
}

/// A bare `]`, in a state `n` whose pc has already moved past it.
pub open spec fn close(n: VmView) -> VmView {
    if n.ctx.len() == 0 {
        n
    } else {
        let cur = n.tape.current();
        match n.ctx.last() {
            Context::Zero(p) => if cur != 0 {
                VmView { pc: p as nat, ..n }
            } else {
                VmView { ctx: n.ctx.drop_last(), ..n }
            },
            Context::While(p) => if cur == 0 {
                VmView { pc: p as nat, ..n }
            } else {
                VmView { ctx: n.ctx.drop_last(), ..n }
            },
        }
    }
}

/// A bracket-introducing letter `c` at position `m.pc`.
pub open spec fn open_block(c: char, m: VmView) -> (VmView, Effect) {
    let after = m.pc + 1;
    if after < m.src.len() && m.src[after as int] == '[' {
        let body = after + 1;
        if enters(c, m.tape.current()) {
            let ctx = if c == 'z' {
                m.ctx.push(Context::Zero(body as usize))
            } else if c == 'w' {
                m.ctx.push(Context::While(body as usize))
            } else {
                m.ctx
            };
            (VmView { pc: body, ctx, ..m }, Effect::Ran)
        } else {
            (VmView { pc: block_end(m.src, body, 0), ..m }, Effect::Ran)
        }
    } else {
        (VmView { pc: after, ..m }, Effect::Warn(Warning::MissingBracket(c)))
    }
}

/// One step of execution: the next state and what it hands out. A fatal
/// condition leaves the state as it was but for the pc, which has moved past
/// the instruction.
pub open spec fn next_state(m: VmView) -> (VmView, Effect) {
    if m.pc >= m.src.len() {
        (m, Effect::Halt)
    } else {
        let c = m.src[m.pc as int];
        let n = VmView { pc: m.pc + 1, ..m };
        let t = m.tape;
        let h = t.head;
        let cur = t.current();
        if is_digit(c) {
            (VmView { tape: t.store(h as usize, digit_value(c)), ..n }, Effect::Ran)
        } else if c == '>' {
            if h < usize::MAX {
                (VmView { tape: t.at(h + 1), ..n }, Effect::Ran)
            } else {
                (n, Effect::Fail(Fault::AddressOverflow))
            }
        } else if c == '<' {
            if h > 0 {
                (VmView { tape: t.at((h - 1) as nat), ..n }, Effect::Ran)
            } else {
                (n, Effect::Fail(Fault::AddressUnderflow))
            }
        } else if c == 'c' {
            (n, Effect::ReadNumber)
        } else if c == 'i' {
            (n, Effect::ReadChar)
        } else if c == 's' {
            (n, Effect::ReadLine)
        } else if c == 'p' {
            if text_unterminated(t, h as int) {
                (n, Effect::Fail(Fault::AddressOverflow))
            } else {
                (n, Effect::Print(text_from(t, h as int)))
            }
        } else if c == 'n' {
            (n, Effect::Print(decimal(cur as nat)))
        } else if c == 'o' {
            (n, Effect::Print(seq![cur]))
        } else if is_arith(c) {
            if h == usize::MAX {
                (n, Effect::Fail(Fault::AddressOverflow))
            } else {
                arith(c, cur, t.get(h + 1int), n)
            }
        } else if c == '[' {
            (n, Effect::Ran)
        } else if c == ']' {
            (close(n), Effect::Ran)
        } else if c == '@' {
            (VmView { vals: m.vals.push(cur), ..n }, Effect::Ran)
        } else if c == '#' {
            if m.vals.len() > 0 {
                (
                    VmView { tape: t.store(h as usize, m.vals.last()), vals: m.vals.drop_last(), ..n },
                    Effect::Ran,
                )
            } else {
                (n, Effect::Ran)
            }
        } else if is_opener(c) {
            open_block(c, m)
        } else {
            (n, Effect::Warn(Warning::UnknownOpcode(c)))
        }
    }
}

/// The value of a run of ASCII decimal digits.
pub open spec fn digits_value(s: Seq<u8>) -> nat
    decreases s.len(),
{
    if s.len() == 0 {
        0
    } else {
        digits_value(s.drop_last()) * 10 + (s.last() - 48) as nat
    }
}

pub open spec fn all_digits(s: Seq<u8>) -> bool {
    forall|i: int| 0 <= i < s.len() ==> 48 <= #[trigger] s[i] && s[i] <= 57
}

/// An unsigned byte written in decimal: an optional `+`, then one or more
/// digits whose value is at most 255.
pub open spec fn parse_byte(s: Seq<u8>) -> Option<u8> {
    let d = if s.len() > 0 && s[0] == 43 {
        s.drop_first()
    } else {
        s
    };
    if d.len() > 0 && all_digits(d) && digits_value(d) <= 255 {
        Some(digits_value(d) as u8)
    } else {
        None
    }
}

/// A character's code point cut to its low byte.
pub open spec fn char_byte(c: char) -> u8 {
    (c as u32 % 256) as u8
}

/// What address `a` reads after `line` and a terminating 0 were written from
/// the head of `t` onwards.
pub open spec fn with_line(t: TapeView, line: Seq<u8>, a: int) -> u8 {
    if t.head <= a < t.head + line.len() {
        line[a - t.head]
    } else if a == t.head + line.len() {
        0
    } else {
        t.get(a)
    }
}

/// The state a program starts in: pc 0, empty tape with the head at 0,
/// empty stacks.
pub open spec fn initial(src: Seq<char>) -> VmView {
    VmView {
        src,
        pc: 0,
        tape: TapeView { cells: Map::empty(), head: 0 },
        ctx: Seq::empty(),
        vals: Seq::empty(),
    }
}

/// Whether a run goes on after a step with effect `e`.
pub open spec fn continues(e: Effect) -> bool {
    e is Ran || e is Print || e is Warn
}

/// The state after at most `fuel` steps from `m`; the run stops early at the
/// end of the program, at a request for input and at a fatal condition.
pub open spec fn run(m: VmView, fuel: nat) -> VmView
    decreases fuel,
{
    if fuel == 0 {
        m
    } else {
        let (n, e) = next_state(m);
        if continues(e) {
            run(n, (fuel - 1) as nat)
        } else {
            n
        }
    }
}

} // verus!
