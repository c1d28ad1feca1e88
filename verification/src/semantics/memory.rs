//! What the instructions of a memory access do.

use vstd::prelude::*;
use crate::assembly::{Comp, Dest, InstrView};
use crate::code_generator::memory::{
    address_code, base_cell, direct_cell, is_based, mem_code, pop_d_code, push_d_code, MemOp,
    Segment,
};
use crate::code_generator::{ADDRESS, SP};
use crate::machine::{exec, exec_first, lemma_exec_concat, straight, wrap, Machine};

verus! {

/// The memory after a push of the word `v`: `v` stands where the stack
/// pointer pointed, and the stack pointer is one greater.
pub open spec fn pushed(ram: Map<int, int>, v: int) -> Map<int, int> {
    ram.insert(ram[0], v).insert(0, ram[0] + 1)
}

/// The memory after a pop: the stack pointer is one less.
pub open spec fn popped(ram: Map<int, int>) -> Map<int, int> {
    ram.insert(0, ram[0] - 1)
}

/// The word on top of the stack.
pub open spec fn top(ram: Map<int, int>) -> int {
    ram[ram[0] - 1]
}

/// Whether a word can be pushed: the stack pointer points beyond the
/// sixteen cells of lowest address and not at the last word of the memory.
pub open spec fn can_push(ram: Map<int, int>) -> bool {
    16 <= ram[0] < 65535
}

/// Whether a word can be popped: the stack pointer points beyond the word
/// after the sixteen cells of lowest address.
pub open spec fn can_pop(ram: Map<int, int>) -> bool {
    16 < ram[0] < 65536
}

/// Pushing `D`: memory as after a push of the word in `D`.
pub proof fn lemma_push_d(symbols: Map<Seq<char>, int>, s: Machine)
    requires
        can_push(s.ram),
    ensures
        exec(push_d_code(), symbols, s) == (Machine {
            a: 0,
            d: s.d,
            ram: pushed(s.ram, s.d),
            pc: s.pc + 5,
        }),
{
    reveal_with_fuel(exec_first, 6);
}

/// Popping into `D`: memory as after a pop, and `D` holds what was on top
/// of the stack.
pub proof fn lemma_pop_d(symbols: Map<Seq<char>, int>, s: Machine)
    requires
        can_pop(s.ram),
    ensures
        exec(pop_d_code(), symbols, s) == (Machine {
            a: s.ram[0] - 1,
            d: top(s.ram),
            ram: popped(s.ram),
            pc: s.pc + 5,
        }),
{
    reveal_with_fuel(exec_first, 6);
}

/// The instructions of a memory access hold no jump.
pub proof fn lemma_mem_code_straight(op: MemOp, segment: Segment, index: nat, unit: Seq<char>)
    ensures
        straight(mem_code(op, segment, index, unit)),
{
    let code = mem_code(op, segment, index, unit);
    assert forall|i: int| 0 <= i < code.len() implies !(#[trigger] code[i] is Branch) by {
        assert(!(direct_cell(segment, index, unit) is Branch));
    }
}

/// The address of the cell that a directly addressed segment gives to an
/// index: for `temp` the index beyond the base of the window, for `pointer`
/// and `static` what the symbol table gives to the symbol of the cell, for
/// `general` the index itself.
pub open spec fn direct_address(
    segment: Segment,
    index: nat,
    unit: Seq<char>,
    symbols: Map<Seq<char>, int>,
) -> int {
    match direct_cell(segment, index, unit) {
        InstrView::AtNum(n) => wrap(n as int),
        InstrView::AtSym(name) => symbols[name],
        _ => 0,
    }
}

/// The address of the cell that a segment with a base cell gives to an
/// index in the memory `ram`.
pub open spec fn based_address(ram: Map<int, int>, segment: Segment, index: nat) -> int {
    wrap(ram[base_cell(segment) as int] + wrap(index as int))
}

/// The address of the cell that a segment other than `constant` gives to an
/// index.
pub open spec fn cell_address(
    ram: Map<int, int>,
    segment: Segment,
    index: nat,
    unit: Seq<char>,
    symbols: Map<Seq<char>, int>,
) -> int {
    if is_based(segment) {
        based_address(ram, segment, index)
    } else {
        direct_address(segment, index, unit, symbols)
    }
}

/// Computing an address: the address cell holds the address, and so does
/// `D`.
pub proof fn lemma_address(segment: Segment, index: nat, symbols: Map<Seq<char>, int>, s: Machine)
    requires
        is_based(segment),
    ensures
        exec(address_code(segment, index), symbols, s) == (Machine {
            a: ADDRESS as int,
            d: based_address(s.ram, segment, index),
            ram: s.ram.insert(ADDRESS as int, based_address(s.ram, segment, index)),
            pc: s.pc + 6,
        }),
{
    reveal_with_fuel(exec_first, 7);
}

/// A push from a directly addressed cell pushes the word of the cell.
pub proof fn lemma_push_direct(
    segment: Segment,
    index: nat,
    unit: Seq<char>,
    symbols: Map<Seq<char>, int>,
    s: Machine,
)
    requires
        !is_based(segment),
        !(segment is Constant),
        can_push(s.ram),
    ensures
        exec(mem_code(MemOp::Push, segment, index, unit), symbols, s) == (Machine {
            a: 0,
            d: s.ram[direct_address(segment, index, unit, symbols)],
            ram: pushed(s.ram, s.ram[direct_address(segment, index, unit, symbols)]),
            pc: s.pc + 7,
        }),
{
    let load = seq![direct_cell(segment, index, unit), InstrView::Assign(Dest::D, Comp::M)];
    lemma_exec_concat(load, push_d_code(), symbols, s);
    let t = exec(load, symbols, s);
    assert(t == (Machine {
        a: direct_address(segment, index, unit, symbols),
        d: s.ram[direct_address(segment, index, unit, symbols)],
        ram: s.ram,
        pc: s.pc + 2,
    })) by {
        reveal_with_fuel(exec_first, 3);
    }
    lemma_push_d(symbols, t);
}

/// A push of a constant pushes the word of the constant.
pub proof fn lemma_push_constant(
    value: nat,
    unit: Seq<char>,
    symbols: Map<Seq<char>, int>,
    s: Machine,
)
    requires
        can_push(s.ram),
    ensures
        exec(mem_code(MemOp::Push, Segment::Constant, value, unit), symbols, s) == (Machine {
            a: 0,
            d: wrap(value as int),
            ram: pushed(s.ram, wrap(value as int)),
            pc: s.pc + 7,
        }),
{
    let load = seq![InstrView::AtNum(value), InstrView::Assign(Dest::D, Comp::A)];
    lemma_exec_concat(load, push_d_code(), symbols, s);
    let t = exec(load, symbols, s);
    assert(t == (Machine {
        a: wrap(value as int),
        d: wrap(value as int),
        ram: s.ram,
        pc: s.pc + 2,
    })) by {
        reveal_with_fuel(exec_first, 3);
    }
    lemma_push_d(symbols, t);
}

/// A pop into a directly addressed cell stores the top of the stack in the
/// cell.
pub proof fn lemma_pop_direct(
    segment: Segment,
    index: nat,
    unit: Seq<char>,
    symbols: Map<Seq<char>, int>,
    s: Machine,
)
    requires
        !is_based(segment),
        can_pop(s.ram),
    ensures
        exec(mem_code(MemOp::Pop, segment, index, unit), symbols, s) == (Machine {
            a: direct_address(segment, index, unit, symbols),
            d: top(s.ram),
            ram: popped(s.ram).insert(direct_address(segment, index, unit, symbols), top(s.ram)),
            pc: s.pc + 7,
        }),
{
    let store = seq![direct_cell(segment, index, unit), InstrView::Assign(Dest::M, Comp::D)];
    lemma_exec_concat(pop_d_code(), store, symbols, s);
    lemma_pop_d(symbols, s);
    reveal_with_fuel(exec_first, 3);
}

/// A push from a segment with a base cell pushes the word of the cell
/// that base and index select, and leaves the address of that cell in the
/// address cell.
pub proof fn lemma_push_based(
    segment: Segment,
    index: nat,
    unit: Seq<char>,
    symbols: Map<Seq<char>, int>,
    s: Machine,
)
    requires
        is_based(segment),
        can_push(s.ram),
    ensures
        ({
            let address = based_address(s.ram, segment, index);
            let ram = s.ram.insert(ADDRESS as int, address);
            exec(mem_code(MemOp::Push, segment, index, unit), symbols, s) == (Machine {
                a: 0,
                d: ram[address],
                ram: pushed(ram, ram[address]),
                pc: s.pc + 13,
            })
        }),
{
    let fetch = seq![InstrView::Assign(Dest::A, Comp::M), InstrView::Assign(Dest::D, Comp::M)];
    lemma_exec_concat(address_code(segment, index) + fetch, push_d_code(), symbols, s);
    lemma_exec_concat(address_code(segment, index), fetch, symbols, s);
    lemma_address(segment, index, symbols, s);
    let t = exec(address_code(segment, index), symbols, s);
    let u = exec(fetch, symbols, t);
    assert(u == (Machine { a: t.d, d: t.ram[t.d], ram: t.ram, pc: t.pc + 2 })) by {
        reveal_with_fuel(exec_first, 3);
    }
    lemma_push_d(symbols, u);
}

/// A pop into a segment with a base cell stores the top of the stack in
/// the cell that base and index select, and leaves the address of that cell
/// in the address cell.
pub proof fn lemma_pop_based(
    segment: Segment,
    index: nat,
    unit: Seq<char>,
    symbols: Map<Seq<char>, int>,
    s: Machine,
)
    requires
        is_based(segment),
        can_pop(s.ram),
    ensures
        ({
            let address = based_address(s.ram, segment, index);
            let ram = s.ram.insert(ADDRESS as int, address);
            exec(mem_code(MemOp::Pop, segment, index, unit), symbols, s) == (Machine {
                a: address,
                d: top(ram),
                ram: popped(ram).insert(address, top(ram)),
                pc: s.pc + 14,
            })
        }),
{
    let store = seq![
        InstrView::AtNum(ADDRESS as nat),
        InstrView::Assign(Dest::A, Comp::M),
        InstrView::Assign(Dest::M, Comp::D),
    ];
    lemma_exec_concat(address_code(segment, index) + pop_d_code(), store, symbols, s);
    lemma_exec_concat(address_code(segment, index), pop_d_code(), symbols, s);
    lemma_address(segment, index, symbols, s);
    let t = exec(address_code(segment, index), symbols, s);
    lemma_pop_d(symbols, t);
    reveal_with_fuel(exec_first, 4);
}

/// A push from a cell and a pop into the same cell, one after the other,
/// leave the stack pointer and the cell as they were.  No cell changes
/// but the one that the stack pointer points at and the address cell.
///
/// The cell must not be the address cell itself, which the translator keeps
/// for its own use.
pub proof fn lemma_push_then_pop(
    segment: Segment,
    index: nat,
    unit: Seq<char>,
    symbols: Map<Seq<char>, int>,
    s: Machine,
)
    requires
        !(segment is Constant),
        can_push(s.ram),
        is_based(segment) ==> based_address(s.ram, segment, index) != ADDRESS,
    ensures
        ({
            let after = exec(
                mem_code(MemOp::Push, segment, index, unit) + mem_code(
                    MemOp::Pop,
                    segment,
                    index,
                    unit,
                ),
                symbols,
                s,
            );
            let cell = cell_address(s.ram, segment, index, unit, symbols);
            &&& after.ram[SP as int] == s.ram[SP as int]
            &&& after.ram[cell] == s.ram[cell]
            &&& forall|a: int|
                a != s.ram[SP as int] && a != ADDRESS ==> #[trigger] after.ram[a] == s.ram[a]
        }),
{
    let push = mem_code(MemOp::Push, segment, index, unit);
    let pop = mem_code(MemOp::Pop, segment, index, unit);
    lemma_exec_concat(push, pop, symbols, s);
    if is_based(segment) {
        lemma_push_based(segment, index, unit, symbols, s);
        let t = exec(push, symbols, s);
        lemma_pop_based(segment, index, unit, symbols, t);
    } else {
        lemma_push_direct(segment, index, unit, symbols, s);
        let t = exec(push, symbols, s);
        lemma_pop_direct(segment, index, unit, symbols, t);
    }
}

} // verus!
