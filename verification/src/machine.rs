//! An execution model of the target machine.
//!
//! The machine holds 16-bit words, each modelled by the number from 0 to
//! 65535 that it writes in binary; as a signed number a word from 32768 on
//! stands for itself less 65536.  A state of the machine is the content of its
//! two registers and of its memory, and the position in the program of the
//! instruction that it executes next.  A label declaration takes a position
//! of its own and does nothing; a symbol stands for the number that the symbol
//! table gives it, which for a label is the position of its declaration.

use vstd::prelude::*;
use crate::assembly::{Comp, Dest, InstrView, Jump};

verus! {

/// A state of the machine.
pub struct Machine {
    /// The address register.
    pub a: int,
    /// The data register.
    pub d: int,
    /// The memory: the word at each address.
    pub ram: Map<int, int>,
    /// The position of the next instruction.
    pub pc: int,
}

/// The word that holds the low 16 bits of `x`.
pub open spec fn wrap(x: int) -> int {
    x % 65536
}

/// Whether `x` is a word.
pub open spec fn is_word(x: int) -> bool {
    0 <= x < 65536
}

/// The signed number that a word stands for.
pub open spec fn signed(w: int) -> int {
    if w >= 32768 {
        w - 65536
    } else {
        w
    }
}

/// The word of all one bits, which stands for true and for the number -1.
pub open spec fn true_word() -> int {
    65535
}

/// The bitwise conjunction of two words.
pub open spec fn word_and(x: int, y: int) -> int {
    (wrap(x) as u16 & wrap(y) as u16) as int
}

/// The bitwise disjunction of two words.
pub open spec fn word_or(x: int, y: int) -> int {
    (wrap(x) as u16 | wrap(y) as u16) as int
}

/// The word that a computation yields in a state.
pub open spec fn comp_value(comp: Comp, s: Machine) -> int {
    let m = s.ram[s.a];
    match comp {
        Comp::Zero => 0,
        Comp::MinusOne => true_word(),
        Comp::D => s.d,
        Comp::A => s.a,
        Comp::M => m,
        Comp::NegD => wrap(-s.d),
        Comp::NotD => wrap(65535 - s.d),
        Comp::DPlusA => wrap(s.d + s.a),
        Comp::MPlusOne => wrap(m + 1),
        Comp::MMinusOne => wrap(m - 1),
        Comp::DPlusM => wrap(s.d + m),
        Comp::MMinusD => wrap(m - s.d),
        Comp::DMinusM => wrap(s.d - m),
        Comp::MAndD => word_and(m, s.d),
        Comp::MOrD => word_or(m, s.d),
    }
}

/// Whether a jump is taken on the word `v`.
pub open spec fn jump_taken(jump: Jump, v: int) -> bool {
    match jump {
        Jump::Jgt => signed(v) > 0,
        Jump::Jeq => v == 0,
        Jump::Jne => v != 0,
        Jump::Jmp => true,
    }
}

/// The state after the execution of one instruction in the state `s`.
pub open spec fn step(instr: InstrView, symbols: Map<Seq<char>, int>, s: Machine) -> Machine {
    match instr {
        InstrView::AtNum(n) => Machine { a: wrap(n as int), pc: s.pc + 1, ..s },
        InstrView::AtSym(name) => Machine { a: symbols[name], pc: s.pc + 1, ..s },
        InstrView::Assign(dest, comp) => {
            let v = comp_value(comp, s);
            match dest {
                Dest::A => Machine { a: v, pc: s.pc + 1, ..s },
                Dest::D => Machine { d: v, pc: s.pc + 1, ..s },
                Dest::M => Machine { ram: s.ram.insert(s.a, v), pc: s.pc + 1, ..s },
            }
        },
        InstrView::Branch(comp, jump) => if jump_taken(jump, comp_value(comp, s)) {
            Machine { pc: s.a, ..s }
        } else {
            Machine { pc: s.pc + 1, ..s }
        },
        InstrView::Label(_) => Machine { pc: s.pc + 1, ..s },
    }
}

/// The state after the execution of the first `n` instructions of `code`,
/// one after the other, from the state `s`.
pub open spec fn exec_first(
    code: Seq<InstrView>,
    symbols: Map<Seq<char>, int>,
    s: Machine,
    n: nat,
) -> Machine
    decreases n,
{
    if n == 0 {
        s
    } else {
        step(code[n - 1], symbols, exec_first(code, symbols, s, (n - 1) as nat))
    }
}

/// The state after the execution of the instructions of `code`, one after
/// the other, from the state `s`.  This is what the machine does where
/// `code` holds no jump.
pub open spec fn exec(code: Seq<InstrView>, symbols: Map<Seq<char>, int>, s: Machine) -> Machine {
    exec_first(code, symbols, s, code.len())
}

/// The state after `steps` steps of the machine on `program` from the state
/// `s`.  The machine stops where the position leaves the program.
pub open spec fn run(
    program: Seq<InstrView>,
    symbols: Map<Seq<char>, int>,
    s: Machine,
    steps: nat,
) -> Machine
    decreases steps,
{
    if steps == 0 || s.pc < 0 || s.pc >= program.len() {
        s
    } else {
        run(program, symbols, step(program[s.pc], symbols, s), (steps - 1) as nat)
    }
}

/// Whether `code` holds no jump.
pub open spec fn straight(code: Seq<InstrView>) -> bool {
    forall|i: int| 0 <= i < code.len() ==> !(#[trigger] code[i] is Branch)
}

/// Whether `program` holds `code` from the position `at` on.
pub open spec fn holds_at(program: Seq<InstrView>, at: int, code: Seq<InstrView>) -> bool {
    0 <= at && at + code.len() <= program.len() && program.subrange(at, at + code.len()) == code
}

/// The first instructions of a sequence are executed alike whatever follows
/// them.
pub proof fn lemma_exec_first_prefix(
    a: Seq<InstrView>,
    b: Seq<InstrView>,
    symbols: Map<Seq<char>, int>,
    s: Machine,
    n: nat,
)
    requires
        n <= a.len(),
        n <= b.len(),
        forall|i: int| 0 <= i < n ==> a[i] == b[i],
    ensures
        exec_first(a, symbols, s, n) == exec_first(b, symbols, s, n),
    decreases n,
{
    if n > 0 {
        lemma_exec_first_prefix(a, b, symbols, s, (n - 1) as nat);
    }
}

/// Executing a concatenation is executing its first part and then its
/// second.
pub proof fn lemma_exec_concat(
    a: Seq<InstrView>,
    b: Seq<InstrView>,
    symbols: Map<Seq<char>, int>,
    s: Machine,
)
    ensures
        exec(a + b, symbols, s) == exec(b, symbols, exec(a, symbols, s)),
{
    lemma_exec_concat_first(a, b, symbols, s, b.len());
}

proof fn lemma_exec_concat_first(
    a: Seq<InstrView>,
    b: Seq<InstrView>,
    symbols: Map<Seq<char>, int>,
    s: Machine,
    k: nat,
)
    requires
        k <= b.len(),
    ensures
        exec_first(a + b, symbols, s, a.len() + k) == exec_first(
            b,
            symbols,
            exec(a, symbols, s),
            k,
        ),
    decreases k,
{
    if k == 0 {
        lemma_exec_first_prefix(a + b, a, symbols, s, a.len());
    } else {
        lemma_exec_concat_first(a, b, symbols, s, (k - 1) as nat);
        assert((a + b)[a.len() + k - 1] == b[k - 1]);
    }
}

/// Straight code is left at its end: the position advances by the number
/// of instructions executed.
pub proof fn lemma_exec_first_pc(
    code: Seq<InstrView>,
    symbols: Map<Seq<char>, int>,
    s: Machine,
    n: nat,
)
    requires
        n <= code.len(),
        straight(code),
    ensures
        exec_first(code, symbols, s, n).pc == s.pc + n,
    decreases n,
{
    if n > 0 {
        lemma_exec_first_pc(code, symbols, s, (n - 1) as nat);
        assert(!(code[n - 1] is Branch));
    }
}

/// Running `m + n` steps is running `m` steps and then `n`.
pub proof fn lemma_run_split(
    program: Seq<InstrView>,
    symbols: Map<Seq<char>, int>,
    s: Machine,
    m: nat,
    n: nat,
)
    ensures
        run(program, symbols, s, m + n) == run(program, symbols, run(program, symbols, s, m), n),
    decreases m,
{
    if m == 0 {
    } else if s.pc < 0 || s.pc >= program.len() {
        assert(run(program, symbols, s, n) == s);
    } else {
        lemma_run_split(program, symbols, step(program[s.pc], symbols, s), (m - 1) as nat, n);
    }
}

/// Where the program holds straight code at the position of the machine,
/// as many steps as the code has instructions execute the code.
pub proof fn lemma_run_straight(
    program: Seq<InstrView>,
    symbols: Map<Seq<char>, int>,
    s: Machine,
    code: Seq<InstrView>,
)
    requires
        holds_at(program, s.pc, code),
        straight(code),
    ensures
        run(program, symbols, s, code.len()) == exec(code, symbols, s),
        exec(code, symbols, s).pc == s.pc + code.len(),
{
    lemma_run_straight_first(program, symbols, s, code, code.len());
}

proof fn lemma_run_straight_first(
    program: Seq<InstrView>,
    symbols: Map<Seq<char>, int>,
    s: Machine,
    code: Seq<InstrView>,
    n: nat,
)
    requires
        holds_at(program, s.pc, code),
        straight(code),
        n <= code.len(),
    ensures
        run(program, symbols, s, n) == exec_first(code, symbols, s, n),
        exec_first(code, symbols, s, n).pc == s.pc + n,
    decreases n,
{
    lemma_exec_first_pc(code, symbols, s, n);
    if n > 0 {
        let k = (n - 1) as nat;
        lemma_run_straight_first(program, symbols, s, code, k);
        lemma_run_split(program, symbols, s, k, 1);
        let t = exec_first(code, symbols, s, k);
        assert(program.subrange(s.pc, s.pc + code.len())[k as int] == program[s.pc + k]);
        assert(program[t.pc] == code[k as int]);
        assert(run(program, symbols, t, 1) == step(program[t.pc], symbols, t)) by {
            reveal_with_fuel(run, 2);
        }
    }
}

/// One step of the machine.
pub proof fn lemma_run_one(program: Seq<InstrView>, symbols: Map<Seq<char>, int>, s: Machine)
    requires
        0 <= s.pc < program.len(),
    ensures
        run(program, symbols, s, 1) == step(program[s.pc], symbols, s),
{
    reveal_with_fuel(run, 2);
}

/// A part of code that the program holds is held by the program.
pub proof fn lemma_holds_part(
    program: Seq<InstrView>,
    at: int,
    a: Seq<InstrView>,
    b: Seq<InstrView>,
)
    requires
        holds_at(program, at, a + b),
    ensures
        holds_at(program, at, a),
        holds_at(program, at + a.len(), b),
{
    let whole = program.subrange(at, at + (a + b).len());
    assert(program.subrange(at, at + a.len()) =~= whole.subrange(0, a.len() as int));
    assert(whole.subrange(0, a.len() as int) =~= a);
    assert(program.subrange(at + a.len(), at + a.len() + b.len()) =~= whole.subrange(
        a.len() as int,
        (a + b).len() as int,
    ));
    assert(whole.subrange(a.len() as int, (a + b).len() as int) =~= b);
}

/// A concatenation of straight code is straight.
pub proof fn lemma_straight_concat(a: Seq<InstrView>, b: Seq<InstrView>)
    requires
        straight(a),
        straight(b),
    ensures
        straight(a + b),
{
    assert forall|i: int| 0 <= i < (a + b).len() implies !(#[trigger] (a + b)[i] is Branch) by {
        if i < a.len() {
            assert((a + b)[i] == a[i]);
        } else {
            assert((a + b)[i] == b[i - a.len()]);
        }
    }
}

} // verus!
