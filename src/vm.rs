use crate::semantics::{
    all_digits, arith, block_end, char_byte, close, decimal, digit_value, digits_value, initial,
    is_arith, is_digit, is_opener, next_state, open_block, parse_byte, text_from,
    text_unterminated, with_line, Effect, Warning,
};
use crate::tape::{Fault, Tape, TapeView};
use vstd::prelude::*;
use vstd::std_specs::iter::IteratorSpec;

verus! {

broadcast use {
    vstd::string::axiom_spec_iter,
    vstd::string::next_postcondition,
    crate::tape::lemma_store_get,
};

/// A control-stack entry: the construct's kind and the program position
/// just after its opening bracket.
#[derive(Debug, Clone, Copy, PartialEq, Eq, Structural)]
pub enum Context {
    /// Opened by `z`: repeats while the current cell is nonzero.
    Zero(usize),
    /// Opened by `w`: repeats while the current cell is zero.
    While(usize),
}

impl Context {
    /// The program position the construct returns to.
    pub open spec fn target(self) -> usize {
        match self {
            Context::Zero(p) => p,
            Context::While(p) => p,
        }
    }
}

/// What one step asks of the world around the interpreter.
#[derive(Debug)]
pub enum Step {
    /// The program is exhausted.
    Halt,
    /// An instruction ran with nothing to show.
    Ran,
    /// Bytes to print, each one the character of that code point.
    Print(Vec<u8>),
    /// Read a line and hand it to `input_number`.
    ReadNumber,
    /// Read a line and hand it to `input_char`.
    ReadChar,
    /// Read a line and hand its bytes to `input_line`.
    ReadLine,
    /// A recoverable condition to report.
    Warn(Warning),
}

/// The effect that a step's result stands for.
pub open spec fn effect_of(r: Result<Step, Fault>) -> Effect {
    match r {
        Ok(Step::Halt) => Effect::Halt,
        Ok(Step::Ran) => Effect::Ran,
        Ok(Step::Print(v)) => Effect::Print(v@),
        Ok(Step::ReadNumber) => Effect::ReadNumber,
        Ok(Step::ReadChar) => Effect::ReadChar,
        Ok(Step::ReadLine) => Effect::ReadLine,
        Ok(Step::Warn(w)) => Effect::Warn(w),
        Err(f) => Effect::Fail(f),
    }
}

/// Whether `c` introduces a bracketed construct.
fn is_opener_char(c: char) -> (r: bool)
    ensures
        r == is_opener(c),
{
    c == 'z' || c == 'w' || c == 'e' || c == 'f'
}

/// The whole execution state, as mathematics.
pub struct VmView {
    pub src: Seq<char>,
    pub pc: nat,
    pub tape: TapeView,
    pub ctx: Seq<Context>,
    pub vals: Seq<u8>,
}

/// The dispatcher and the state it owns: program, program counter, tape,
/// control stack and value stack.
pub struct Vm {
    ptr: usize,
    src: Vec<char>,
    data: Tape,
    debug: bool,
    context_stack: Vec<Context>,
    stack: Vec<u8>,
}

impl View for Vm {
    type V = VmView;

    closed spec fn view(&self) -> VmView {
        VmView {
            src: self.src@,
            pc: self.ptr as nat,
            tape: self.data@,
            ctx: self.context_stack@,
            vals: self.stack@,
        }
    }
}

impl Vm {
    /// The program is shorter than the largest machine integer, so that the
    /// counter can always step one past its end.
    pub closed spec fn wf(&self) -> bool {
        self.src@.len() < usize::MAX
    }

    /// Whether the state was built for single-stepping.
    pub closed spec fn is_debug(&self) -> bool {
        self.debug
    }

    /// A fresh state for `src`: pc 0, empty tape, empty stacks.
    pub fn new(src: &str, debug: bool) -> (vm: Vm)
        requires
            src@.len() < usize::MAX,
        ensures
            vm.wf(),
            vm@ == initial(src@),
            vm.is_debug() == debug,
    {
        let mut chars: Vec<char> = Vec::new();
        let mut it = src.chars();
        loop
            invariant
                chars@ + it.remaining() == src@,
                it.decrease() is Some,
            ensures
                chars@ == src@,
            decreases it.decrease()->0,
        {
            match it.next() {
                Some(c) => chars.push(c),
                None => {
                    assert(chars@ =~= src@);
                    break;
                },
            }
        }
        Vm {
            ptr: 0,
            src: chars,
            data: Tape::new(),
            debug,
            context_stack: Vec::new(),
            stack: Vec::new(),
        }
    }

    /// The character under the program counter, if any.
    pub fn current_char(&self) -> (r: Option<char>)
        requires
            self.wf(),
        ensures
            r == (if self@.pc < self@.src.len() {
                Some(self@.src[self@.pc as int])
            } else {
                None::<char>
            }),
    {
        if self.ptr < self.src.len() {
            Some(self.src[self.ptr])
        } else {
            None
        }
    }

    /// Reads the character under the program counter, if any, and moves the
    /// counter one further; past the end it yields nothing.
    pub fn next_char(&mut self) -> (r: Option<char>)
        requires
            old(self).wf(),
            old(self)@.pc < usize::MAX,
        ensures
            final(self).wf(),
            r == (if old(self)@.pc < old(self)@.src.len() {
                Some(old(self)@.src[old(self)@.pc as int])
            } else {
                None::<char>
            }),
            final(self)@ == (VmView { pc: old(self)@.pc + 1, ..old(self)@ }),
            final(self).is_debug() == old(self).is_debug(),
    {
        let c = self.current_char();
        self.ptr = self.ptr + 1;
        c
    }

    /// Moves the program counter to `i`.
    pub fn seek_char(&mut self, i: usize)
        requires
            old(self).wf(),
        ensures
            final(self).wf(),
            final(self)@ == (VmView { pc: i as nat, ..old(self)@ }),
            final(self).is_debug() == old(self).is_debug(),
    {
        self.ptr = i;
    }

    /// The program counter.
    pub fn char_ptr(&self) -> (r: usize)
        ensures
            r as nat == self@.pc,
    {
        self.ptr
    }

    /// Whether the program is exhausted.
    pub fn at_eof(&self) -> (r: bool)
        requires
            self.wf(),
        ensures
            r == (self@.pc >= self@.src.len()),
    {
        self.current_char().is_none()
    }

    /// Whether the state was built for single-stepping.
    pub fn debug_mode(&self) -> (r: bool)
        ensures
            r == self.is_debug(),
    {
        self.debug
    }

    /// The program text.
    pub fn source(&self) -> (r: &[char])
        ensures
            r@ == self@.src,
    {
        self.src.as_slice()
    }

    /// The tape.
    pub fn tape(&self) -> (r: &Tape)
        ensures
            r@ == self@.tape,
    {
        &self.data
    }

    /// The value stack, bottom first.
    pub fn values(&self) -> (r: &[u8])
        ensures
            r@ == self@.vals,
    {
        self.stack.as_slice()
    }

    /// The control stack, bottom first.
    pub fn contexts(&self) -> (r: &[Context])
        ensures
            r@ == self@.ctx,
    {
        self.context_stack.as_slice()
    }

    /// Moves the program counter past the `]` that closes the block whose
    /// body starts at the current position, without running the body.
    fn skip_block(&mut self)
        requires
            old(self).wf(),
            old(self)@.pc <= old(self)@.src.len(),
        ensures
            final(self).wf(),
            final(self)@ == (VmView { pc: block_end(old(self)@.src, old(self)@.pc, 0), ..old(self)@ }),
            final(self).is_debug() == old(self).is_debug(),
    {
        let ghost start = self@;
        let mut depth: usize = 0;
        loop
            invariant_except_break
                self@.pc <= self@.src.len(),
                depth <= self@.pc,
                block_end(start.src, self@.pc, depth as nat) == block_end(start.src, start.pc, 0),
            invariant
                self.wf(),
                self.is_debug() == old(self).is_debug(),
                self@ == (VmView { pc: self@.pc, ..start }),
            ensures
                self.wf(),
                self.is_debug() == old(self).is_debug(),
                self@ == (VmView { pc: block_end(start.src, start.pc, 0), ..start }),
            decreases self@.src.len() - self@.pc,
        {
            match self.next_char() {
                None => break,
                Some(c) => {
                    if c == ']' {
                        if depth == 0 {
                            break;
                        }
                        depth = depth - 1;
                    } else if c == '[' {
                        depth = depth + 1;
                    }
                },
            }
        }
    }

    /// The text that `p` prints: the cells from the head up to the first 0.
    fn head_text(&self) -> (r: Result<Vec<u8>, Fault>)
        ensures
            text_unterminated(self@.tape, self@.tape.head as int) ==> r == Err::<Vec<u8>, Fault>(
                Fault::AddressOverflow,
            ),
            !text_unterminated(self@.tape, self@.tape.head as int) ==> r is Ok && r->Ok_0@
                == text_from(self@.tape, self@.tape.head as int),
    {
        let ghost t = self@.tape;
        let h = self.data.position();
        let mut i: usize = h;
        let mut out: Vec<u8> = Vec::new();
        loop
            invariant
                t == self@.tape,
                h as nat == t.head,
                h <= i,
                out@.len() == i - h,
                out@ + text_from(t, i as int) == text_from(t, h as int),
            decreases usize::MAX - i,
        {
            let v = self.data.peek(i);
            if v == 0 {
                assert(out@ =~= text_from(t, h as int));
                return Ok(out);
            }
            out.push(v);
            if i == usize::MAX {
                assert(text_from(t, i as int + 1) =~= Seq::<u8>::empty());
                assert(out@ =~= text_from(t, h as int));
                return Err(Fault::AddressOverflow);
            }
            assert(out@ + text_from(t, i + 1) =~= text_from(t, h as int));
            i = i + 1;
        }
    }

    /// The decimal digits of `v`, as `n` prints them.
    fn decimal_digits(v: u8) -> (r: Vec<u8>)
        ensures
            r@ == decimal(v as nat),
    {
        if v >= 100 {
            let (a, b, c): (u8, u8, u8) = (48 + v / 100, 48 + (v / 10) % 10, 48 + v % 10);
            assert((v as nat / 10) / 10 == v as nat / 100);
            assert(decimal(v as nat / 100) =~= seq![a]);
            assert(decimal(v as nat / 10) =~= seq![a, b]);
            assert(decimal(v as nat) =~= seq![a, b, c]);
            vec![a, b, c]
        } else if v >= 10 {
            let (a, b): (u8, u8) = (48 + v / 10, 48 + v % 10);
            assert(decimal(v as nat / 10) =~= seq![a]);
            assert(decimal(v as nat) =~= seq![a, b]);
            vec![a, b]
        } else {
            vec![48 + v]
        }
    }

    /// `+ - * /` between the current cell and the one to its right, the
    /// result stored in the current cell; the pc is already past `c`.
    fn binary(&mut self, c: char) -> (r: Result<Step, Fault>)
        requires
            old(self).wf(),
            is_arith(c),
            old(self)@.tape.head < usize::MAX,
        ensures
            final(self).wf(),
            final(self).is_debug() == old(self).is_debug(),
            (final(self)@, effect_of(r)) == arith(
                c,
                old(self)@.tape.current(),
                old(self)@.tape.get(old(self)@.tape.head + 1int),
                old(self)@,
            ),
    {
        let h = self.data.position();
        let left = self.data.read();
        let right = self.data.peek(h + 1);
        if c == '+' {
            self.data.write(left.wrapping_add(right));
            Ok(Step::Ran)
        } else if c == '-' {
            self.data.write(left.wrapping_sub(right));
            Ok(Step::Ran)
        } else if c == '*' {
            match left.checked_mul(right) {
                Some(v) => {
                    self.data.write(v);
                    Ok(Step::Ran)
                },
                None => Ok(Step::Warn(Warning::MulOverflow(left, right))),
            }
        } else {
            if right == 0 {
                Err(Fault::DivideByZero)
            } else {
                self.data.write(left / right);
                Ok(Step::Ran)
            }
        }
    }

    /// A bare `]`; the pc is already past it.
    fn close_bracket(&mut self)
        requires
            old(self).wf(),
        ensures
            final(self).wf(),
            final(self).is_debug() == old(self).is_debug(),
            final(self)@ == close(old(self)@),
    {
        match self.context_stack.pop() {
            None => {},
            Some(ctx) => {
                let cur = self.data.read();
                match ctx {
                    Context::Zero(p) => {
                        if cur != 0 {
                            self.ptr = p;
                            self.context_stack.push(ctx);
                        }
                    },
                    Context::While(p) => {
                        if cur == 0 {
                            self.ptr = p;
                            self.context_stack.push(ctx);
                        }
                    },
                }
                assert(self.context_stack@ =~= close(old(self)@).ctx);
            },
        }
    }

    /// A bracket-introducing letter `c`; the pc is still on it.
    fn open_bracket(&mut self, c: char) -> (r: Step)
        requires
            old(self).wf(),
            is_opener(c),
            old(self)@.pc < old(self)@.src.len(),
        ensures
            final(self).wf(),
            final(self).is_debug() == old(self).is_debug(),
            (final(self)@, effect_of(Ok(r))) == open_block(c, old(self)@),
    {
        self.next_char();
        if self.current_char() != Some('[') {
            return Step::Warn(Warning::MissingBracket(c));
        }
        self.next_char();
        let cur = self.data.read();
        let enter = if c == 'z' || c == 'e' {
            cur != 0
        } else {
            cur == 0
        };
        if enter {
            if c == 'z' {
                self.context_stack.push(Context::Zero(self.ptr));
            } else if c == 'w' {
                self.context_stack.push(Context::While(self.ptr));
            }
        } else {
            self.skip_block();
        }
        Step::Ran
    }

    /// Runs one instruction. The result says what the world around the
    /// interpreter must do: print, read a line, report a warning; an `Err`
    /// is a fatal condition that ends the run.
    pub fn step(&mut self) -> (r: Result<Step, Fault>)
        requires
            old(self).wf(),
        ensures
            final(self).wf(),
            final(self).is_debug() == old(self).is_debug(),
            (final(self)@, effect_of(r)) == next_state(old(self)@),
    {
        if self.ptr >= self.src.len() {
            return Ok(Step::Halt);
        }
        let c = self.src[self.ptr];
        if is_opener_char(c) {
            let st = self.open_bracket(c);
            return Ok(st);
        }
        self.ptr = self.ptr + 1;
        let h = self.data.position();
        let r = if '0' <= c && c <= '9' {
            self.data.write((c as u32 - '0' as u32) as u8);
            Ok(Step::Ran)
        } else if c == '>' {
            if h < usize::MAX {
                self.data.right();
                Ok(Step::Ran)
            } else {
                Err(Fault::AddressOverflow)
            }
        } else if c == '<' {
            match self.data.left() {
                Ok(()) => Ok(Step::Ran),
                Err(f) => Err(f),
            }
        } else if c == 'c' {
            Ok(Step::ReadNumber)
        } else if c == 'i' {
            Ok(Step::ReadChar)
        } else if c == 's' {
            Ok(Step::ReadLine)
        } else if c == 'p' {
            match self.head_text() {
                Ok(text) => Ok(Step::Print(text)),
                Err(f) => Err(f),
            }
        } else if c == 'n' {
            Ok(Step::Print(Self::decimal_digits(self.data.read())))
        } else if c == 'o' {
            let v = vec![self.data.read()];
            assert(v@ =~= seq![old(self)@.tape.current()]);
            Ok(Step::Print(v))
        } else if c == '+' || c == '-' || c == '*' || c == '/' {
            if h == usize::MAX {
                Err(Fault::AddressOverflow)
            } else {
                self.binary(c)
            }
        } else if c == '[' {
            Ok(Step::Ran)
        } else if c == ']' {
            self.close_bracket();
            Ok(Step::Ran)
        } else if c == '@' {
            let v = self.data.read();
            self.stack.push(v);
            Ok(Step::Ran)
        } else if c == '#' {
            match self.stack.pop() {
                Some(v) => self.data.write(v),
                None => {},
            }
            Ok(Step::Ran)
        } else {
            Ok(Step::Warn(Warning::UnknownOpcode(c)))
        };
        r
    }

    /// Stores the byte that `text` (a line read for `c`) writes in decimal.
    pub fn input_number(&mut self, text: &[u8]) -> (r: Result<(), Fault>)
        requires
            old(self).wf(),
        ensures
            final(self).wf(),
            final(self).is_debug() == old(self).is_debug(),
            match parse_byte(text@) {
                Some(v) => r is Ok && final(self)@ == (VmView {
                    tape: old(self)@.tape.store(old(self)@.tape.head as usize, v),
                    ..old(self)@
                }),
                None => r == Err::<(), Fault>(Fault::BadNumber) && final(self)@ == old(self)@,
            },
    {
        let start: usize = if text.len() > 0 && text[0] == 43 {
            1
        } else {
            0
        };
        let ghost d = if text@.len() > 0 && text@[0] == 43 {
            text@.drop_first()
        } else {
            text@
        };
        assert(d =~= text@.subrange(start as int, text@.len() as int));
        if start == text.len() {
            return Err(Fault::BadNumber);
        }
        let mut acc: u16 = 0;
        let mut over = false;
        let mut i: usize = start;
        while i < text.len()
            invariant
                self.wf(),
                self.is_debug() == old(self).is_debug(),
                self@ == old(self)@,
                start <= i <= text@.len(),
                d == (if text@.len() > 0 && text@[0] == 43 {
                    text@.drop_first()
                } else {
                    text@
                }),
                d =~= text@.subrange(start as int, text@.len() as int),
                all_digits(text@.subrange(start as int, i as int)),
                over ==> digits_value(text@.subrange(start as int, i as int)) > 255,
                !over ==> acc as nat == digits_value(text@.subrange(start as int, i as int)),
                acc <= 255,
            decreases text@.len() - i,
        {
            let b = text[i];
            if b < 48 || b > 57 {
                assert(d[i - start] == b);
                assert(!all_digits(d));
                assert(parse_byte(text@) is None);
                return Err(Fault::BadNumber);
            }
            assert(text@.subrange(start as int, i + 1).drop_last() =~= text@.subrange(
                start as int,
                i as int,
            ));
            if !over {
                let next = acc * 10 + (b - 48) as u16;
                if next > 255 {
                    over = true;
                } else {
                    acc = next;
                }
            }
            i = i + 1;
        }
        assert(d =~= text@.subrange(start as int, i as int));
        if over {
            Err(Fault::BadNumber)
        } else {
            self.data.write(acc as u8);
            Ok(())
        }
    }

    /// Stores the byte of the single character that `text` (a line read for
    /// `i`) holds.
    pub fn input_char(&mut self, text: &str) -> (r: Result<(), Fault>)
        requires
            old(self).wf(),
        ensures
            final(self).wf(),
            final(self).is_debug() == old(self).is_debug(),
            text@.len() == 1 ==> r is Ok && final(self)@ == (VmView {
                tape: old(self)@.tape.store(old(self)@.tape.head as usize, char_byte(text@[0])),
                ..old(self)@
            }),
            text@.len() != 1 ==> r == Err::<(), Fault>(Fault::BadChar) && final(self)@ == old(
                self,
            )@,
    {
        let mut it = text.chars();
        match it.next() {
            None => Err(Fault::BadChar),
            Some(c) => match it.next() {
                Some(_) => Err(Fault::BadChar),
                None => {
                    self.data.write((c as u32 % 256) as u8);
                    Ok(())
                },
            },
        }
    }

    /// Writes `line` (the bytes of a line read for `s`) and a terminating 0
    /// from the head onwards; the head stays. Fails if the 0 would fall past
    /// the last address.
    pub fn input_line(&mut self, line: &[u8]) -> (r: Result<(), Fault>)
        requires
            old(self).wf(),
        ensures
            final(self).wf(),
            final(self).is_debug() == old(self).is_debug(),
            old(self)@.tape.head + line@.len() > usize::MAX ==> r == Err::<(), Fault>(
                Fault::AddressOverflow,
            ) && final(self)@ == old(self)@,
            old(self)@.tape.head + line@.len() <= usize::MAX ==> {
                &&& r is Ok
                &&& final(self)@.src == old(self)@.src
                &&& final(self)@.pc == old(self)@.pc
                &&& final(self)@.ctx == old(self)@.ctx
                &&& final(self)@.vals == old(self)@.vals
                &&& final(self)@.tape.head == old(self)@.tape.head
                &&& forall|a: int| #[trigger]
                    final(self)@.tape.get(a) == with_line(old(self)@.tape, line@, a)
            },
    {
        let h = self.data.position();
        if line.len() > usize::MAX - h {
            return Err(Fault::AddressOverflow);
        }
        let ghost t = old(self)@.tape;
        let mut i: usize = 0;
        while i < line.len()
            invariant
                self.wf(),
                self.is_debug() == old(self).is_debug(),
                h as nat == t.head,
                t == old(self)@.tape,
                h + line@.len() <= usize::MAX,
                i <= line@.len(),
                self@ == (VmView { tape: self@.tape, ..old(self)@ }),
                self@.tape.head == t.head,
                forall|a: int| #[trigger]
                    self@.tape.get(a) == if h <= a < h + i {
                        line@[a - h]
                    } else {
                        t.get(a)
                    },
            decreases line@.len() - i,
        {
            self.data.poke(h + i, line[i]);
            i = i + 1;
        }
        self.data.poke(h + line.len(), 0);
        Ok(())
    }
}

} // verus!
