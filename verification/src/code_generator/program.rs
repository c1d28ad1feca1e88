//! A program as a sequence of instructions: what the lines of its source
//! units are read as, and that their translation is the translation of those
//! instructions one after the other.

use vstd::prelude::*;
use crate::assembly::{lemma_render_code_concat, render_code, InstrView};
use crate::code_generator::function::{call_code, return_label};
use crate::code_generator::labels::{
    all_labels, all_named_labels, counter_after, declared_labels, disjoint, distinct, fresh_labels,
    generated_labels, lemma_all_labels_concat, lemma_all_labels_distinct, lemma_call_labels,
    lemma_declared_concat, lemma_generated_labels_distinct, lemma_instruction_labels,
    lemma_no_labels, named_labels, no_labels,
};
use crate::code_generator::order::{
    lemma_text_le_antisymmetric, lemma_text_le_reflexive, lemma_unit_order, precedes, text_le,
};
use crate::code_generator::syntax::{parse, InstructionView};
use crate::code_generator::{
    bootstrap_code, bootstrap_text, entry_function, entry_unit, init_cells_code, in_order,
    instruction_code, instruction_text, lemma_bootstrap_text_plain, lemma_instruction_text_plain,
    program_outcome, unit_outcome, translation_order, unit_names, units_outcome, SourceUnitView,
};

verus! {

/// The instruction that a line holds, if it holds one.
pub open spec fn line_instruction(line: Seq<char>) -> Seq<InstructionView> {
    match parse(line) {
        Ok(Some(instr)) => seq![instr],
        _ => Seq::empty(),
    }
}

/// The instructions that the lines of a source unit hold, in order.
pub open spec fn unit_instructions(lines: Seq<Seq<char>>) -> Seq<InstructionView>
    decreases lines.len(),
{
    if lines.len() == 0 {
        Seq::empty()
    } else {
        unit_instructions(lines.drop_last()) + line_instruction(lines.last())
    }
}

/// The lines that the instructions `instrs` of the source unit `unit` are
/// translated to, one instruction after the other, from the value `counter`
/// of the label counter on.
pub open spec fn instructions_text(
    instrs: Seq<InstructionView>,
    counter: nat,
    unit: Seq<char>,
    debug: bool,
) -> Seq<Seq<char>>
    decreases instrs.len(),
{
    if instrs.len() == 0 {
        Seq::empty()
    } else {
        instructions_text(instrs.drop_last(), counter, unit, debug) + instruction_text(
            instrs.last(),
            counter_after(instrs, counter),
            unit,
            debug,
        )
    }
}

/// The instructions of the target machine that the instructions `instrs` of
/// the source unit `unit` are translated to.
pub open spec fn instructions_code(
    instrs: Seq<InstructionView>,
    counter: nat,
    unit: Seq<char>,
) -> Seq<InstrView>
    decreases instrs.len(),
{
    if instrs.len() == 0 {
        Seq::empty()
    } else {
        instructions_code(instrs.drop_last(), counter, unit) + instruction_code(
            instrs.last(),
            counter_after(instrs, counter),
            unit,
        )
    }
}

/// Plain output of a sequence of instructions is exactly the text of the
/// instructions of the target machine that they are translated to.
pub proof fn lemma_instructions_text_plain(
    instrs: Seq<InstructionView>,
    counter: nat,
    unit: Seq<char>,
)
    ensures
        instructions_text(instrs, counter, unit, false) == render_code(
            instructions_code(instrs, counter, unit),
        ),
    decreases instrs.len(),
{
    if instrs.len() == 0 {
        assert(render_code(Seq::<InstrView>::empty()) =~= Seq::<Seq<char>>::empty());
    } else {
        lemma_instructions_text_plain(instrs.drop_last(), counter, unit);
        lemma_instruction_text_plain(instrs.last(), counter_after(instrs, counter), unit);
        lemma_render_code_concat(
            instructions_code(instrs.drop_last(), counter, unit),
            instruction_code(instrs.last(), counter_after(instrs, counter), unit),
        );
    }
}

/// Counting over a concatenation is counting over its parts.
pub proof fn lemma_counter_after_concat(
    a: Seq<InstructionView>,
    b: Seq<InstructionView>,
    counter: nat,
)
    ensures
        counter_after(a + b, counter) == counter_after(b, counter_after(a, counter)),
    decreases b.len(),
{
    if b.len() == 0 {
        assert(a + b =~= a);
    } else {
        assert((a + b).drop_last() =~= a + b.drop_last());
        assert((a + b).last() == b.last());
        lemma_counter_after_concat(a, b.drop_last(), counter);
    }
}

/// Where the lines of a source unit are translated, their translation is
/// the translation of the instructions they hold, one after the other, and
/// the label counter has counted those instructions.
pub proof fn lemma_unit_translation(
    lines: Seq<Seq<char>>,
    counter: nat,
    unit: Seq<char>,
    debug: bool,
)
    requires
        unit_outcome(lines, counter, unit, debug).text is Ok,
    ensures
        unit_outcome(lines, counter, unit, debug).text->Ok_0 == instructions_text(
            unit_instructions(lines),
            counter,
            unit,
            debug,
        ),
        unit_outcome(lines, counter, unit, debug).counter == counter_after(
            unit_instructions(lines),
            counter,
        ),
    decreases lines.len(),
{
    if lines.len() > 0 {
        let before = unit_outcome(lines.drop_last(), counter, unit, debug);
        lemma_unit_translation(lines.drop_last(), counter, unit, debug);
        let instrs = unit_instructions(lines.drop_last());
        let text = instructions_text(instrs, counter, unit, debug);
        match parse(lines.last()) {
            Ok(Some(instr)) => {
                let all = instrs + seq![instr];
                assert(all.drop_last() =~= instrs);
                assert(all.last() == instr);
            },
            _ => {
                assert(instrs + Seq::<InstructionView>::empty() =~= instrs);
                assert(text + Seq::<Seq<char>>::empty() =~= text);
            },
        }
    }
}

/// The call of the entry function that begins every program.
pub open spec fn entry_call() -> InstructionView {
    InstructionView::FunctionCall { name: entry_function(), n_args: 0 }
}

/// The instructions that the source units hold, unit after unit.
pub open spec fn units_instructions(units: Seq<SourceUnitView>) -> Seq<InstructionView>
    decreases units.len(),
{
    if units.len() == 0 {
        Seq::empty()
    } else {
        units_instructions(units.drop_last()) + unit_instructions(units.last().lines)
    }
}

/// The instructions of a program: the call of the entry function, then the
/// instructions of its source units.
pub open spec fn program_instructions(units: Seq<SourceUnitView>) -> Seq<InstructionView> {
    seq![entry_call()] + units_instructions(units)
}

/// The lines that the source units are translated to, unit after unit, each
/// under its own name.
pub open spec fn units_text(units: Seq<SourceUnitView>, counter: nat, debug: bool) -> Seq<
    Seq<char>,
>
    decreases units.len(),
{
    if units.len() == 0 {
        Seq::empty()
    } else {
        units_text(units.drop_last(), counter, debug) + instructions_text(
            unit_instructions(units.last().lines),
            counter_after(units_instructions(units.drop_last()), counter),
            units.last().name,
            debug,
        )
    }
}

/// Where source units are translated, their translation is the translation
/// of the instructions they hold, and the label counter has counted those
/// instructions.
pub proof fn lemma_units_translation(units: Seq<SourceUnitView>, counter: nat, debug: bool)
    requires
        units_outcome(units, counter, debug).text is Ok,
    ensures
        units_outcome(units, counter, debug).text->Ok_0 == units_text(units, counter, debug),
        units_outcome(units, counter, debug).counter == counter_after(
            units_instructions(units),
            counter,
        ),
    decreases units.len(),
{
    if units.len() > 0 {
        let before = units_outcome(units.drop_last(), counter, debug);
        lemma_units_translation(units.drop_last(), counter, debug);
        let unit = units.last();
        lemma_unit_translation(unit.lines, before.counter, unit.name, debug);
        lemma_counter_after_concat(
            units_instructions(units.drop_last()),
            unit_instructions(unit.lines),
            counter,
        );
    }
}

/// Where a program is translated, its translation is the bootstrap followed
/// by the translation of the instructions that its source units hold, and the
/// label counter has counted the instructions of the program.
pub proof fn lemma_program_translation(units: Seq<SourceUnitView>, counter: nat, debug: bool)
    requires
        program_outcome(units, counter, debug).text is Ok,
    ensures
        program_outcome(units, counter, debug).text->Ok_0 == bootstrap_text(counter + 1, debug)
            + units_text(units, counter + 1, debug),
        program_outcome(units, counter, debug).counter == counter_after(
            program_instructions(units),
            counter,
        ),
{
    lemma_units_translation(units, counter + 1, debug);
    let entry = seq![entry_call()];
    lemma_counter_after_concat(entry, units_instructions(units), counter);
    assert(counter_after(entry, counter) == counter + 1) by {
        reveal_with_fuel(counter_after, 2);
        assert(entry.drop_last() =~= Seq::<InstructionView>::empty());
    }
}

/// The labels that the translation of a program generates, in the order in
/// which they are made: the label of the return site of the entry call, then
/// the labels of the comparisons and calls of its source units.
pub open spec fn program_labels(units: Seq<SourceUnitView>, counter: nat) -> Seq<Seq<char>> {
    generated_labels(program_instructions(units), counter)
}

/// No two labels generated in the translation of a program are the same
/// text, however many source units the program has and whatever they hold.
pub proof fn lemma_program_labels_distinct(
    units: Seq<SourceUnitView>,
    counter: nat,
    i: int,
    j: int,
)
    requires
        0 <= i < program_labels(units, counter).len(),
        0 <= j < program_labels(units, counter).len(),
        i != j,
    ensures
        program_labels(units, counter)[i] != program_labels(units, counter)[j],
{
    if i < j {
        lemma_generated_labels_distinct(program_instructions(units), counter, i, j);
    } else {
        lemma_generated_labels_distinct(program_instructions(units), counter, j, i);
    }
}

/// Whether lines are refused, and what the label counter is after them,
/// does not depend on whether the output is annotated.
pub proof fn lemma_unit_outcome_alike(
    lines: Seq<Seq<char>>,
    counter: nat,
    unit: Seq<char>,
)
    ensures
        unit_outcome(lines, counter, unit, true).counter == unit_outcome(
            lines,
            counter,
            unit,
            false,
        ).counter,
        unit_outcome(lines, counter, unit, true).text is Ok <==> unit_outcome(
            lines,
            counter,
            unit,
            false,
        ).text is Ok,
        unit_outcome(lines, counter, unit, true).text matches Err(d) ==> unit_outcome(
            lines,
            counter,
            unit,
            false,
        ).text == Err::<Seq<Seq<char>>, _>(d),
    decreases lines.len(),
{
    if lines.len() > 0 {
        lemma_unit_outcome_alike(lines.drop_last(), counter, unit);
    }
}

/// Whether a program is refused, and what the label counter is after it,
/// does not depend on whether the output is annotated.
pub proof fn lemma_units_outcome_alike(units: Seq<SourceUnitView>, counter: nat)
    ensures
        units_outcome(units, counter, true).counter == units_outcome(units, counter, false).counter,
        units_outcome(units, counter, true).text is Ok <==> units_outcome(
            units,
            counter,
            false,
        ).text is Ok,
        units_outcome(units, counter, true).text matches Err(e) ==> units_outcome(
            units,
            counter,
            false,
        ).text == Err::<Seq<Seq<char>>, _>(e),
    decreases units.len(),
{
    if units.len() > 0 {
        lemma_units_outcome_alike(units.drop_last(), counter);
        let before = units_outcome(units.drop_last(), counter, true);
        lemma_unit_outcome_alike(units.last().lines, before.counter, units.last().name);
    }
}

/// The instructions of the target machine that the source units are
/// translated to, unit after unit.
pub open spec fn units_code(units: Seq<SourceUnitView>, counter: nat) -> Seq<InstrView>
    decreases units.len(),
{
    if units.len() == 0 {
        Seq::empty()
    } else {
        units_code(units.drop_last(), counter) + instructions_code(
            unit_instructions(units.last().lines),
            counter_after(units_instructions(units.drop_last()), counter),
            units.last().name,
        )
    }
}

/// The instructions of the target machine that a program is translated to:
/// the bootstrap, then the instructions of its source units.
pub open spec fn program_code(units: Seq<SourceUnitView>, counter: nat) -> Seq<InstrView> {
    bootstrap_code(counter + 1) + units_code(units, counter + 1)
}

/// Plain output of source units is exactly the text of the instructions
/// that they are translated to.
pub proof fn lemma_units_text_plain(units: Seq<SourceUnitView>, counter: nat)
    ensures
        units_text(units, counter, false) == render_code(units_code(units, counter)),
    decreases units.len(),
{
    if units.len() == 0 {
        assert(render_code(Seq::<InstrView>::empty()) =~= Seq::<Seq<char>>::empty());
    } else {
        lemma_units_text_plain(units.drop_last(), counter);
        let start = counter_after(units_instructions(units.drop_last()), counter);
        let instrs = unit_instructions(units.last().lines);
        lemma_instructions_text_plain(instrs, start, units.last().name);
        lemma_render_code_concat(
            units_code(units.drop_last(), counter),
            instructions_code(instrs, start, units.last().name),
        );
    }
}

/// Where a program is translated to plain output, the output is exactly
/// the text of the instructions that the program is translated to.
pub proof fn lemma_program_text_plain(units: Seq<SourceUnitView>, counter: nat)
    requires
        program_outcome(units, counter, false).text is Ok,
    ensures
        program_outcome(units, counter, false).text->Ok_0 == render_code(
            program_code(units, counter),
        ),
{
    lemma_program_translation(units, counter, false);
    lemma_units_text_plain(units, counter + 1);
    lemma_bootstrap_text_plain(counter + 1);
    lemma_render_code_concat(bootstrap_code(counter + 1), units_code(units, counter + 1));
}

/// The labels that the instructions of the target machine declare which a
/// sequence of instructions is translated to are the labels of those
/// instructions.
pub proof fn lemma_instructions_labels(instrs: Seq<InstructionView>, counter: nat, unit: Seq<char>)
    ensures
        declared_labels(instructions_code(instrs, counter, unit)) == all_labels(instrs, counter),
    decreases instrs.len(),
{
    if instrs.len() == 0 {
        lemma_no_labels(instructions_code(instrs, counter, unit));
    } else {
        let id = counter_after(instrs, counter);
        lemma_instructions_labels(instrs.drop_last(), counter, unit);
        lemma_instruction_labels(instrs.last(), id, unit);
        lemma_declared_concat(
            instructions_code(instrs.drop_last(), counter, unit),
            instruction_code(instrs.last(), id, unit),
        );
        assert(all_labels(instrs, counter) =~= all_labels(instrs.drop_last(), counter) + (
        named_labels(instrs.last()) + fresh_labels(instrs.last(), id)));
    }
}

/// The labels that the translation of source units declares are the labels
/// of the instructions that the units hold.
pub proof fn lemma_units_labels(units: Seq<SourceUnitView>, counter: nat)
    ensures
        declared_labels(units_code(units, counter)) == all_labels(
            units_instructions(units),
            counter,
        ),
    decreases units.len(),
{
    if units.len() == 0 {
        lemma_no_labels(units_code(units, counter));
    } else {
        let before = units_instructions(units.drop_last());
        let instrs = unit_instructions(units.last().lines);
        let start = counter_after(before, counter);
        lemma_units_labels(units.drop_last(), counter);
        lemma_instructions_labels(instrs, start, units.last().name);
        lemma_declared_concat(
            units_code(units.drop_last(), counter),
            instructions_code(instrs, start, units.last().name),
        );
        lemma_all_labels_concat(before, instrs, counter);
    }
}

/// The labels that the translation of a program declares are the labels of
/// the instructions of the program: the label of the return site of the entry
/// call, then the labels of the source units.
pub proof fn lemma_program_declared_labels(units: Seq<SourceUnitView>, counter: nat)
    ensures
        declared_labels(program_code(units, counter)) == all_labels(
            program_instructions(units),
            counter,
        ),
{
    let entry = seq![entry_call()];
    let id = counter + 1;
    let call = call_code(entry_function(), 0, id, entry_unit());
    let site = seq![return_label(entry_function(), id)];
    assert(no_labels(init_cells_code()));
    lemma_no_labels(init_cells_code());
    lemma_call_labels(entry_function(), 0, id, entry_unit());
    lemma_declared_concat(init_cells_code(), call);
    lemma_declared_concat(bootstrap_code(id), units_code(units, id));
    lemma_units_labels(units, id);
    lemma_all_labels_concat(entry, units_instructions(units), counter);
    assert(entry.drop_last() =~= Seq::<InstructionView>::empty());
    assert(counter_after(entry, counter) == id) by {
        reveal_with_fuel(counter_after, 2);
    }
    assert(all_labels(entry, counter) =~= site) by {
        reveal_with_fuel(all_labels, 2);
    }
    assert(declared_labels(bootstrap_code(id)) =~= site);
}

/// Where the labels that a program names, in its `label` instructions and
/// as the names of its functions, are all different, and none of them is a
/// label that the translator generates for the program, no two label
/// declarations in the whole translation of the program declare the same
/// label.
pub proof fn lemma_program_declares_each_label_once(
    units: Seq<SourceUnitView>,
    counter: nat,
    i: int,
    j: int,
)
    requires
        distinct(all_named_labels(program_instructions(units))),
        disjoint(all_named_labels(program_instructions(units)), program_labels(units, counter)),
        0 <= i < declared_labels(program_code(units, counter)).len(),
        0 <= j < declared_labels(program_code(units, counter)).len(),
        i != j,
    ensures
        declared_labels(program_code(units, counter))[i] != declared_labels(
            program_code(units, counter),
        )[j],
{
    lemma_program_declared_labels(units, counter);
    if i < j {
        lemma_all_labels_distinct(program_instructions(units), counter, i, j);
    } else {
        lemma_all_labels_distinct(program_instructions(units), counter, j, i);
    }
}

/// Whether no two of the units have the same name.
pub open spec fn distinct_names(units: Seq<SourceUnitView>) -> bool {
    forall|i: int, j: int|
        #![trigger units[i], units[j]]
        0 <= i < j < units.len() ==> units[i].name != units[j].name
}

/// Whether the names of the units ascend, each coming before the next.
pub open spec fn names_ascend(units: Seq<SourceUnitView>) -> bool {
    forall|i: int, j: int|
        #![trigger units[i], units[j]]
        0 <= i < j < units.len() ==> text_le(units[i].name, units[j].name) && units[i].name
            != units[j].name
}

/// Whether every unit of `a` is a unit of `b`.
pub open spec fn all_among(a: Seq<SourceUnitView>, b: Seq<SourceUnitView>) -> bool {
    forall|i: int| 0 <= i < a.len() ==> b.contains(#[trigger] a[i])
}

/// The units of a program in the order of their translation are the units
/// of the program, each once, and their names ascend.
pub proof fn lemma_in_order(units: Seq<SourceUnitView>)
    requires
        units.len() <= usize::MAX,
        distinct_names(units),
    ensures
        in_order(units).len() == units.len(),
        names_ascend(in_order(units)),
        all_among(in_order(units), units),
        all_among(units, in_order(units)),
{
    let names = unit_names(units);
    let order = translation_order(units);
    let sorted = in_order(units);
    lemma_unit_order(names);
    assert forall|i: int, j: int|
        #![trigger sorted[i], sorted[j]]
        0 <= i < j < sorted.len() implies text_le(sorted[i].name, sorted[j].name)
        && sorted[i].name != sorted[j].name by {
        let x = order[i] as int;
        let y = order[j] as int;
        assert(precedes(names, x, y));
        assert(order[i] != order[j]);
        assert(names[x] == units[x].name && names[y] == units[y].name);
        if x < y {
            assert(units[x].name != units[y].name);
        } else {
            assert(units[y].name != units[x].name);
        }
    }
    assert forall|i: int| 0 <= i < sorted.len() implies units.contains(#[trigger] sorted[i]) by {
        assert(order[i] < units.len());
        assert(units[order[i] as int] == sorted[i]);
    }
    assert forall|k: int| 0 <= k < units.len() implies sorted.contains(#[trigger] units[k]) by {
        assert(order.contains(k as usize));
        let i = choose|i: int| 0 <= i < order.len() && order[i] == k as usize;
        assert(sorted[i] == units[k]);
    }
}

/// Units whose names ascend are arranged in one way only: two such
/// arrangements of the same units are the same.
pub proof fn lemma_ascending_arrangement_is_unique(
    a: Seq<SourceUnitView>,
    b: Seq<SourceUnitView>,
)
    requires
        names_ascend(a),
        names_ascend(b),
        all_among(a, b),
        all_among(b, a),
    ensures
        a == b,
    decreases a.len(),
{
    if a.len() == 0 {
        if b.len() > 0 {
            assert(a.contains(b[0]));
        }
        assert(a =~= b);
    } else if b.len() == 0 {
        assert(b.contains(a[0]));
    } else {
        let x = a.last();
        let y = b.last();
        assert(b.contains(a[a.len() - 1]));
        assert(a.contains(b[b.len() - 1]));
        let p = choose|p: int| 0 <= p < b.len() && b[p] == x;
        let q = choose|q: int| 0 <= q < a.len() && a[q] == y;
        lemma_text_le_reflexive(x.name);
        lemma_text_le_reflexive(y.name);
        assert(text_le(x.name, y.name));
        assert(text_le(y.name, x.name));
        lemma_text_le_antisymmetric(x.name, y.name);
        assert(p == b.len() - 1);
        assert(x == y);
        let a0 = a.drop_last();
        let b0 = b.drop_last();
        assert(names_ascend(a0)) by {
            assert forall|i: int, j: int|
                #![trigger a0[i], a0[j]]
                0 <= i < j < a0.len() implies text_le(a0[i].name, a0[j].name) && a0[i].name
                != a0[j].name by {
                assert(a0[i] == a[i] && a0[j] == a[j]);
            }
        }
        assert(names_ascend(b0)) by {
            assert forall|i: int, j: int|
                #![trigger b0[i], b0[j]]
                0 <= i < j < b0.len() implies text_le(b0[i].name, b0[j].name) && b0[i].name
                != b0[j].name by {
                assert(b0[i] == b[i] && b0[j] == b[j]);
            }
        }
        assert forall|i: int| 0 <= i < a0.len() implies b0.contains(#[trigger] a0[i]) by {
            assert(b.contains(a[i]));
            let r = choose|r: int| 0 <= r < b.len() && b[r] == a[i];
            assert(a[i].name != a[a.len() - 1].name);
            assert(b0[r] == a0[i]);
        }
        assert forall|i: int| 0 <= i < b0.len() implies a0.contains(#[trigger] b0[i]) by {
            assert(a.contains(b[i]));
            let r = choose|r: int| 0 <= r < a.len() && a[r] == b[i];
            assert(b[i].name != b[b.len() - 1].name);
            assert(a0[r] == b0[i]);
        }
        lemma_ascending_arrangement_is_unique(a0, b0);
        assert(a =~= a0.push(x));
        assert(b =~= b0.push(y));
    }
}

/// The translation of a program does not depend on the order in which its
/// source units are given: two sequences of the same units, in each of which
/// no name occurs twice, are translated in the same order, and so to the same
/// lines.
pub proof fn lemma_order_of_units_is_immaterial(
    units: Seq<SourceUnitView>,
    other: Seq<SourceUnitView>,
    counter: nat,
    debug: bool,
)
    requires
        units.len() <= usize::MAX,
        other.len() <= usize::MAX,
        distinct_names(units),
        distinct_names(other),
        all_among(units, other),
        all_among(other, units),
    ensures
        in_order(units) == in_order(other),
        program_outcome(in_order(units), counter, debug) == program_outcome(
            in_order(other),
            counter,
            debug,
        ),
{
    let a = in_order(units);
    let b = in_order(other);
    lemma_in_order(units);
    lemma_in_order(other);
    assert forall|i: int| 0 <= i < a.len() implies b.contains(#[trigger] a[i]) by {
        assert(units.contains(a[i]));
        let k = choose|k: int| 0 <= k < units.len() && units[k] == a[i];
        assert(other.contains(units[k]));
        let m = choose|m: int| 0 <= m < other.len() && other[m] == a[i];
        assert(b.contains(other[m]));
    }
    assert forall|i: int| 0 <= i < b.len() implies a.contains(#[trigger] b[i]) by {
        assert(other.contains(b[i]));
        let k = choose|k: int| 0 <= k < other.len() && other[k] == b[i];
        assert(units.contains(other[k]));
        let m = choose|m: int| 0 <= m < units.len() && units[m] == b[i];
        assert(a.contains(units[m]));
    }
    lemma_ascending_arrangement_is_unique(a, b);
}

} // verus!
