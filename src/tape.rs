use std::collections::HashMap;
use vstd::prelude::*;
use vstd::std_specs::hash::spec_keys_iter;
use vstd::std_specs::iter::IteratorSpec;

verus! {

broadcast use vstd::std_specs::hash::group_hash_axioms;

/// What a tape holds: the cells written so far and the head position.
pub struct TapeView {
    pub cells: Map<usize, u8>,
    pub head: nat,
}

impl TapeView {
    /// The byte at address `a`: the value written there, or 0 if none was.
    pub open spec fn get(self, a: int) -> u8 {
        if 0 <= a && a <= usize::MAX && self.cells.contains_key(a as usize) {
            self.cells[a as usize]
        } else {
            0
        }
    }

    /// The byte under the head.
    pub open spec fn current(self) -> u8 {
        self.get(self.head as int)
    }

    /// The tape with `v` stored at address `a`.
    pub open spec fn store(self, a: usize, v: u8) -> TapeView {
        TapeView { cells: self.cells.insert(a, v), head: self.head }
    }

    /// The tape with the head at `h`.
    pub open spec fn at(self, h: nat) -> TapeView {
        TapeView { cells: self.cells, head: h }
    }

    /// Two tapes read the same at every address.
    pub open spec fn same_cells(self, other: TapeView) -> bool {
        forall|a: int| #[trigger] self.get(a) == other.get(a)
    }
}

/// The hex digit for `d` (below 16), upper case.
pub open spec fn hex_digit(d: u8) -> char {
    if d < 10 {
        (48 + d) as char
    } else {
        (55 + d) as char
    }
}

/// Three columns for one written cell: a printable byte as its character
/// and a space, a control byte (below 32, or 127) as two hex digits; then
/// `|`.
pub open spec fn cell_columns(v: u8) -> Seq<char> {
    if v < 32 || v == 127 {
        seq![hex_digit(v / 16), hex_digit(v % 16), '|']
    } else {
        seq![v as char, ' ', '|']
    }
}

/// The columns for addresses `0..n`: three per written cell, three spaces
/// for a cell never written.
pub open spec fn dump_row(t: TapeView, n: nat) -> Seq<char>
    decreases n,
{
    if n == 0 {
        Seq::empty()
    } else {
        let a = (n - 1) as usize;
        dump_row(t, (n - 1) as nat) + if t.cells.contains_key(a) {
            cell_columns(t.cells[a])
        } else {
            seq![' ', ' ', ' ']
        }
    }
}

/// The tape dump: columns up to the highest written address and one space
/// after them; nothing for a tape never written.
pub open spec fn dump_of(t: TapeView) -> Seq<char> {
    if t.cells.dom().is_empty() {
        Seq::empty()
    } else {
        let k = choose|k: usize|
            #[trigger] t.cells.contains_key(k) && forall|a: usize|
                #[trigger] t.cells.contains_key(a) ==> a <= k;
        dump_row(t, k as nat + 1).push(' ')
    }
}

/// The columns for each byte of `vs` in turn.
pub open spec fn bytes_row(vs: Seq<u8>) -> Seq<char>
    decreases vs.len(),
{
    if vs.len() == 0 {
        Seq::empty()
    } else {
        bytes_row(vs.drop_last()) + cell_columns(vs.last())
    }
}

/// A dump of a byte sequence (such as the value stack), bottom first, by the
/// same convention as the tape dump.
pub fn dump_bytes(vs: &[u8]) -> (r: Vec<char>)
    ensures
        r@ == bytes_row(vs@),
{
    let mut out: Vec<char> = Vec::new();
    let mut i: usize = 0;
    while i < vs.len()
        invariant
            i <= vs@.len(),
            out@ == bytes_row(vs@.take(i as int)),
        decreases vs@.len() - i,
    {
        let cols = cell_text(vs[i]);
        out.push(cols.0);
        out.push(cols.1);
        out.push('|');
        assert(vs@.take(i + 1).drop_last() =~= vs@.take(i as int));
        assert(out@ =~= bytes_row(vs@.take(i + 1)));
        i = i + 1;
    }
    assert(vs@.take(i as int) =~= vs@);
    out
}

/// The first two columns of a written cell.
fn cell_text(v: u8) -> (r: (char, char))
    ensures
        seq![r.0, r.1, '|'] == cell_columns(v),
{
    if v < 32 || v == 127 {
        (hex_char(v / 16), hex_char(v % 16))
    } else {
        (v as char, ' ')
    }
}

fn hex_char(d: u8) -> (r: char)
    requires
        d < 16,
    ensures
        r == hex_digit(d),
{
    if d < 10 {
        (48 + d) as char
    } else {
        (55 + d) as char
    }
}

/// Storing at one address changes what that address reads and nothing else.
pub broadcast proof fn lemma_store_get(t: TapeView, k: usize, v: u8, a: int)
    ensures
        #[trigger] t.store(k, v).get(a) == if a == k as int {
            v
        } else {
            t.get(a)
        },
{
}

/// Sparse, singly-infinite byte memory addressed by a non-negative head.
/// Only addresses that were written take memory; the others read as 0.
pub struct Tape {
    data: HashMap<usize, u8>,
    head: usize,
}

impl View for Tape {
    type V = TapeView;

    closed spec fn view(&self) -> TapeView {
        TapeView { cells: self.data@, head: self.head as nat }
    }
}

impl Tape {
    /// An empty tape with the head at address 0.
    pub fn new() -> (t: Tape)
        ensures
            t@.cells == Map::<usize, u8>::empty(),
            t@.head == 0,
    {
        Tape { data: HashMap::new(), head: 0 }
    }

    /// The head position.
    pub fn position(&self) -> (h: usize)
        ensures
            h as nat == self@.head,
    {
        self.head
    }

    /// Moves the head one cell to the right.
    pub fn right(&mut self)
        requires
            old(self)@.head < usize::MAX,
        ensures
            final(self)@ == old(self)@.at(old(self)@.head + 1),
    {
        self.head = self.head + 1;
    }

    /// Moves the head one cell to the left; at address 0 this is an
    /// address underflow and nothing changes.
    pub fn left(&mut self) -> (r: Result<(), Fault>)
        ensures
            old(self)@.head == 0 ==> r == Err::<(), Fault>(Fault::AddressUnderflow) && final(self)@
                == old(self)@,
            old(self)@.head > 0 ==> r is Ok && final(self)@ == old(self)@.at(
                (old(self)@.head - 1) as nat,
            ),
    {
        if self.head == 0 {
            Err(Fault::AddressUnderflow)
        } else {
            self.head = self.head - 1;
            Ok(())
        }
    }

    /// The byte at address `a`, 0 if it was never written.
    pub fn peek(&self, a: usize) -> (v: u8)
        ensures
            v == self@.get(a as int),
    {
        match self.data.get(&a) {
            Some(v) => *v,
            None => 0,
        }
    }

    /// Stores `value` at address `a`; the head stays.
    pub fn poke(&mut self, a: usize, value: u8)
        ensures
            final(self)@ == old(self)@.store(a, value),
    {
        self.data.insert(a, value);
    }

    /// Whether address `a` was ever written.
    pub fn is_written(&self, a: usize) -> (r: bool)
        ensures
            r == self@.cells.contains_key(a),
    {
        self.data.contains_key(&a)
    }

    /// The highest address that was ever written, if any was.
    pub fn last_written(&self) -> (r: Option<usize>)
        ensures
            r is None <==> self@.cells.dom().is_empty(),
            r matches Some(k) ==> self@.cells.contains_key(k) && forall|a: usize|
                #[trigger] self@.cells.contains_key(a) ==> a <= k,
    {
        let ghost all = spec_keys_iter(&self.data).remaining().unref();
        let ghost mut count: int = 0;
        let mut best: Option<usize> = None;
        for k in keys: self.data.keys()
            invariant
                keys.seq().unref() == all,
                all.to_set() == self@.cells.dom(),
                count == keys.index(),
                best is None <==> count == 0,
                best matches Some(b) ==> (exists|j: int| 0 <= j < count && all[j] == b) && forall|
                    j: int,
                | 0 <= j < count ==> #[trigger] all[j] <= b,
        {
            assert(all[count] == *k);
            best = match best {
                None => Some(*k),
                Some(b) => if *k > b {
                    Some(*k)
                } else {
                    Some(b)
                },
            };
            proof {
                count = count + 1;
            }
        }
        proof {
            assert(count == all.len());
            if best is None {
                assert(all.to_set() =~= Set::<usize>::empty());
            } else {
                assert forall|a: usize| #[trigger] self@.cells.contains_key(a) implies a
                    <= best->Some_0 by {
                    assert(all.to_set().contains(a));
                    assert(all.contains(a));
                }
                assert(all.contains(best->Some_0));
            }
        }
        best
    }

    /// The tape dump: each written address as its character or two hex
    /// digits, in three columns per address.
    pub fn dump(&self) -> (r: Vec<char>)
        ensures
            r@ == dump_of(self@),
    {
        let mut out: Vec<char> = Vec::new();
        match self.last_written() {
            None => out,
            Some(k) => {
                let mut a: usize = 0;
                loop
                    invariant_except_break
                        a <= k,
                        out@ == dump_row(self@, a as nat),
                    ensures
                        out@ == dump_row(self@, k as nat + 1),
                    decreases k - a,
                {
                    if self.data.contains_key(&a) {
                        let v = self.peek(a);
                        let cols = cell_text(v);
                        out.push(cols.0);
                        out.push(cols.1);
                        out.push('|');
                    } else {
                        out.push(' ');
                        out.push(' ');
                        out.push(' ');
                    }
                    assert(out@ =~= dump_row(self@, a as nat + 1));
                    if a == k {
                        break;
                    }
                    a = a + 1;
                }
                out.push(' ');
                proof {
                    let kk = choose|kk: usize|
                        #[trigger] self@.cells.contains_key(kk) && forall|b: usize|
                            #[trigger] self@.cells.contains_key(b) ==> b <= kk;
                    assert(kk <= k && k <= kk);
                }
                out
            },
        }
    }

    /// The byte under the head, 0 if it was never written.
    pub fn read(&self) -> (v: u8)
        ensures
            v == self@.current(),
    {
        self.peek(self.head)
    }

    /// Stores `value` under the head.
    pub fn write(&mut self, value: u8)
        ensures
            final(self)@ == old(self)@.store(old(self)@.head as usize, value),
    {
        self.data.insert(self.head, value);
    }
}

impl Default for Tape {
    /// The same as `Tape::new`: empty, head at 0.
    fn default() -> (t: Tape)
        ensures
            t@.cells == Map::<usize, u8>::empty(),
            t@.head == 0,
    {
        Tape::new()
    }
}

/// A condition that ends a run.
#[derive(Debug, Clone, Copy, PartialEq, Eq, Structural)]
pub enum Fault {
    /// The head was moved left of address 0.
    AddressUnderflow,
    /// The head would have to move past the largest address.
    AddressOverflow,
    /// A division had a zero right operand.
    DivideByZero,
    /// A line read for `c` is not an unsigned byte.
    BadNumber,
    /// A line read for `i` is not a single character.
    BadChar,
}

} // verus!
