//! The function protocol translator: function entry, call and return.
//!
//! The machine has no call stack, so the operand stack serves as one.  A call
//! pushes a frame of five words: the return address and the caller's base
//! cells of `local`, `argument`, `this` and `that`, in this order.  The
//! callee's arguments lie below the frame and its locals above it.  A return
//! puts the callee's result where its first argument was, restores the four
//! base cells from the frame, last saved first, and makes the result the top
//! of the caller's stack.

use vstd::prelude::*;
use vstd::string::*;
use crate::assembly::{
    append_code, append_line, append_lines, code_view, lemma_render_code_concat, lines_view,
    render, render_code, Comp, Dest, Instr, InstrView, Jump,
};
use crate::code_generator::arithmetic_logic::{
    arith_code, arith_text, is_comparison, lemma_arith_ignores_id, lemma_arith_text_plain,
    translate_arith, ArithOp,
};
use crate::code_generator::branching::{
    branch_code, branch_text, lemma_branch_text_plain, translate_branch, BranchKind,
};
use crate::code_generator::memory::{
    blank_line, blank_line_string, mem_code, mem_text, push_d_code, translate_mem_access, MemOp,
    Segment,
};
use crate::code_generator::{
    ARG, DEFAULT_PADDING, FRAME_END, LCL, NEW_SP, RETURN_ADDRESS, SP, THAT, THIS,
};
use crate::text::{decimal, decimal_string};

verus! {

/// The number of words of a frame: the return address and four base cells.
pub const FRAME_WORDS: usize = 5;

/// The label of the return site of the call numbered `id` to `function`.
pub open spec fn return_label(function: Seq<char>, id: nat) -> Seq<char> {
    function + "_ret_"@ + decimal(id)
}

/// The instructions of a memory access, in short.
pub open spec fn access_code(op: MemOp, segment: Segment, index: nat, unit: Seq<char>) -> Seq<
    InstrView,
> {
    mem_code(op, segment, index, unit)
}

/// The lines of a memory access nested in a block of this module.
pub open spec fn access_text(
    op: MemOp,
    segment: Segment,
    index: nat,
    unit: Seq<char>,
    debug: bool,
) -> Seq<Seq<char>> {
    mem_text(op, segment, index, unit, debug, DEFAULT_PADDING as nat)
}

/// The lines of an operation nested in a block of this module.
pub open spec fn operation_text(op: ArithOp, unit: Seq<char>, debug: bool) -> Seq<Seq<char>> {
    arith_text(op, 0, unit, debug, DEFAULT_PADDING as nat)
}

/// The instructions that push `n` zeros: the locals of a function.
pub open spec fn locals_code(n: nat, unit: Seq<char>) -> Seq<InstrView>
    decreases n,
{
    if n == 0 {
        Seq::empty()
    } else {
        locals_code((n - 1) as nat, unit) + access_code(MemOp::Push, Segment::Constant, 0, unit)
    }
}

/// The lines that push `n` zeros.
pub open spec fn locals_text(n: nat, unit: Seq<char>, debug: bool) -> Seq<Seq<char>>
    decreases n,
{
    if n == 0 {
        Seq::empty()
    } else {
        locals_text((n - 1) as nat, unit, debug) + access_text(
            MemOp::Push,
            Segment::Constant,
            0,
            unit,
            debug,
        )
    }
}

/// The instructions of a function's entry: its label and its locals.
pub open spec fn function_def_code(function: Seq<char>, n_vars: nat, unit: Seq<char>) -> Seq<
    InstrView,
> {
    seq![InstrView::Label(function)] + locals_code(n_vars, unit)
}

/// The lines of a function's entry.
pub open spec fn function_def_text(
    function: Seq<char>,
    n_vars: nat,
    unit: Seq<char>,
    debug: bool,
) -> Seq<Seq<char>> {
    seq![render(InstrView::Label(function))] + locals_text(n_vars, unit, debug)
}

/// Pushes the address that `label` stands for.
pub open spec fn push_label_code(label: Seq<char>) -> Seq<InstrView> {
    seq![InstrView::AtSym(label), InstrView::Assign(Dest::D, Comp::A)] + push_d_code()
}

/// Pushes the caller's four base cells.
pub open spec fn save_frame_code(unit: Seq<char>) -> Seq<InstrView> {
    access_code(MemOp::Push, Segment::General, LCL as nat, unit) + access_code(
        MemOp::Push,
        Segment::General,
        ARG as nat,
        unit,
    ) + access_code(MemOp::Push, Segment::General, THIS as nat, unit) + access_code(
        MemOp::Push,
        Segment::General,
        THAT as nat,
        unit,
    )
}

/// The lines that push the caller's four base cells.
pub open spec fn save_frame_text(unit: Seq<char>, debug: bool) -> Seq<Seq<char>> {
    access_text(MemOp::Push, Segment::General, LCL as nat, unit, debug) + access_text(
        MemOp::Push,
        Segment::General,
        ARG as nat,
        unit,
        debug,
    ) + access_text(MemOp::Push, Segment::General, THIS as nat, unit, debug) + access_text(
        MemOp::Push,
        Segment::General,
        THAT as nat,
        unit,
        debug,
    )
}

/// The instructions that push the constant `c` and then the word of the
/// cell `cell`, and combine the two: with `sub` the word of the cell less
/// the constant, with `add` their sum.
pub open spec fn offset_code(c: nat, cell: nat, op: ArithOp, unit: Seq<char>) -> Seq<InstrView> {
    access_code(MemOp::Push, Segment::Constant, c, unit) + access_code(
        MemOp::Push,
        Segment::General,
        cell,
        unit,
    ) + arith_code(op, 0, unit)
}

/// The lines that push a constant and the word of a cell and combine the
/// two.
pub open spec fn offset_text(c: nat, cell: nat, op: ArithOp, unit: Seq<char>, debug: bool) -> Seq<
    Seq<char>,
> {
    access_text(MemOp::Push, Segment::Constant, c, unit, debug) + access_text(
        MemOp::Push,
        Segment::General,
        cell,
        unit,
        debug,
    ) + operation_text(op, unit, debug)
}

/// What is taken from the stack pointer to find the base of the arguments:
/// the `n_args` arguments, the frame, and the constant itself, which lies
/// on the stack when the stack pointer is read.
pub open spec fn argument_offset(n_args: nat) -> nat {
    n_args + FRAME_WORDS as nat + 1
}

/// Sets the base of `argument` to the stack pointer less the frame and the
/// `n_args` arguments.
pub open spec fn set_argument_base_code(n_args: nat, unit: Seq<char>) -> Seq<InstrView> {
    offset_code(argument_offset(n_args), SP as nat, ArithOp::Sub, unit) + access_code(
        MemOp::Pop,
        Segment::General,
        ARG as nat,
        unit,
    )
}

/// The lines that set the base of `argument`.
pub open spec fn set_argument_base_text(n_args: nat, unit: Seq<char>, debug: bool) -> Seq<
    Seq<char>,
> {
    offset_text(argument_offset(n_args), SP as nat, ArithOp::Sub, unit, debug) + access_text(
        MemOp::Pop,
        Segment::General,
        ARG as nat,
        unit,
        debug,
    )
}

/// Sets the base of `local` to the stack pointer.
pub open spec fn set_local_base_code(unit: Seq<char>) -> Seq<InstrView> {
    access_code(MemOp::Push, Segment::General, SP as nat, unit) + access_code(
        MemOp::Pop,
        Segment::General,
        LCL as nat,
        unit,
    )
}

/// The lines that set the base of `local`.
pub open spec fn set_local_base_text(unit: Seq<char>, debug: bool) -> Seq<Seq<char>> {
    access_text(MemOp::Push, Segment::General, SP as nat, unit, debug) + access_text(
        MemOp::Pop,
        Segment::General,
        LCL as nat,
        unit,
        debug,
    )
}

/// The instructions of the call numbered `id` to `function` with `n_args`
/// arguments: push the return address, save the frame, set the callee's
/// base cells, jump, and declare the return site.
pub open spec fn call_code(function: Seq<char>, n_args: nat, id: nat, unit: Seq<char>) -> Seq<
    InstrView,
> {
    push_label_code(return_label(function, id)) + save_frame_code(unit) + set_argument_base_code(
        n_args,
        unit,
    ) + set_local_base_code(unit) + branch_code(BranchKind::Goto, function, unit) + seq![
        InstrView::Label(return_label(function, id)),
    ]
}

/// The lines of a call.
pub open spec fn call_text(
    function: Seq<char>,
    n_args: nat,
    id: nat,
    unit: Seq<char>,
    debug: bool,
) -> Seq<Seq<char>> {
    render_code(push_label_code(return_label(function, id))) + save_frame_text(unit, debug)
        + set_argument_base_text(n_args, unit, debug) + set_local_base_text(unit, debug)
        + branch_text(BranchKind::Goto, function, unit, debug, DEFAULT_PADDING as nat) + seq![
        render(InstrView::Label(return_label(function, id))),
    ]
}

/// Replaces the address in the return-address cell by the word it points at.
pub open spec fn load_return_address_code() -> Seq<InstrView> {
    seq![
        InstrView::AtNum(RETURN_ADDRESS as nat),
        InstrView::Assign(Dest::A, Comp::M),
        InstrView::Assign(Dest::D, Comp::M),
        InstrView::AtNum(RETURN_ADDRESS as nat),
        InstrView::Assign(Dest::M, Comp::D),
    ]
}

/// Stores the return address, found one frame below the base of `local`, in
/// its cell.
pub open spec fn stash_return_address_code(unit: Seq<char>) -> Seq<InstrView> {
    offset_code(FRAME_WORDS as nat, LCL as nat, ArithOp::Sub, unit) + access_code(
        MemOp::Pop,
        Segment::General,
        RETURN_ADDRESS as nat,
        unit,
    ) + load_return_address_code()
}

/// The lines that store the return address in its cell.
pub open spec fn stash_return_address_text(unit: Seq<char>, debug: bool) -> Seq<Seq<char>> {
    offset_text(FRAME_WORDS as nat, LCL as nat, ArithOp::Sub, unit, debug) + access_text(
        MemOp::Pop,
        Segment::General,
        RETURN_ADDRESS as nat,
        unit,
        debug,
    ) + render_code(load_return_address_code())
}

/// Stores the base of `local`, which is the end of the frame, in its cell.
pub open spec fn stash_frame_end_code(unit: Seq<char>) -> Seq<InstrView> {
    access_code(MemOp::Push, Segment::General, LCL as nat, unit) + access_code(
        MemOp::Pop,
        Segment::General,
        FRAME_END as nat,
        unit,
    )
}

/// The lines that store the end of the frame in its cell.
pub open spec fn stash_frame_end_text(unit: Seq<char>, debug: bool) -> Seq<Seq<char>> {
    access_text(MemOp::Push, Segment::General, LCL as nat, unit, debug) + access_text(
        MemOp::Pop,
        Segment::General,
        FRAME_END as nat,
        unit,
        debug,
    )
}

/// Stores the stack pointer of the caller after the return, one above the
/// base of `argument`, in its cell.
pub open spec fn stash_new_sp_code(unit: Seq<char>) -> Seq<InstrView> {
    offset_code(1, ARG as nat, ArithOp::Add, unit) + access_code(
        MemOp::Pop,
        Segment::General,
        NEW_SP as nat,
        unit,
    )
}

/// The lines that store the caller's stack pointer in its cell.
pub open spec fn stash_new_sp_text(unit: Seq<char>, debug: bool) -> Seq<Seq<char>> {
    offset_text(1, ARG as nat, ArithOp::Add, unit, debug) + access_text(
        MemOp::Pop,
        Segment::General,
        NEW_SP as nat,
        unit,
        debug,
    )
}

/// Replaces the address on top of the stack by the word it points at.
pub open spec fn dereference_top_code() -> Seq<InstrView> {
    seq![
        InstrView::AtNum(SP as nat),
        InstrView::Assign(Dest::A, Comp::MMinusOne),
        InstrView::Assign(Dest::A, Comp::M),
        InstrView::Assign(Dest::D, Comp::M),
        InstrView::AtNum(SP as nat),
        InstrView::Assign(Dest::A, Comp::MMinusOne),
        InstrView::Assign(Dest::M, Comp::D),
    ]
}

/// Restores the base cell saved `n` words below the end of the frame: the
/// cell `5 - n`.
pub open spec fn restore_code(n: nat, unit: Seq<char>) -> Seq<InstrView> {
    offset_code(n, FRAME_END as nat, ArithOp::Sub, unit) + dereference_top_code() + access_code(
        MemOp::Pop,
        Segment::General,
        (FRAME_WORDS - n) as nat,
        unit,
    )
}

/// The comment on the restoring of a base cell in annotated output.
pub open spec fn restore_comment(n: nat) -> Seq<char> {
    "// restoring *(addr - "@ + decimal(n) + seq![')']
}

/// The lines that restore the base cell saved `n` words below the end of
/// the frame.
pub open spec fn restore_text(n: nat, unit: Seq<char>, debug: bool) -> Seq<Seq<char>> {
    (if debug {
        seq![blank_line(), restore_comment(n)]
    } else {
        Seq::empty()
    }) + offset_text(n, FRAME_END as nat, ArithOp::Sub, unit, debug) + render_code(
        dereference_top_code(),
    ) + access_text(MemOp::Pop, Segment::General, (FRAME_WORDS - n) as nat, unit, debug)
}

/// Restores the base cells saved 1 to `n` words below the end of the frame,
/// in this order.
pub open spec fn restore_frame_code(n: nat, unit: Seq<char>) -> Seq<InstrView>
    decreases n,
{
    if n == 0 {
        Seq::empty()
    } else {
        restore_frame_code((n - 1) as nat, unit) + restore_code(n, unit)
    }
}

/// The lines that restore the base cells saved 1 to `n` words below the end
/// of the frame.
pub open spec fn restore_frame_text(n: nat, unit: Seq<char>, debug: bool) -> Seq<Seq<char>>
    decreases n,
{
    if n == 0 {
        Seq::empty()
    } else {
        restore_frame_text((n - 1) as nat, unit, debug) + restore_text(n, unit, debug)
    }
}

/// Makes the stashed stack pointer the stack pointer.
pub open spec fn install_sp_code(unit: Seq<char>) -> Seq<InstrView> {
    access_code(MemOp::Push, Segment::General, NEW_SP as nat, unit) + access_code(
        MemOp::Pop,
        Segment::General,
        SP as nat,
        unit,
    )
}

/// The lines that make the stashed stack pointer the stack pointer.
pub open spec fn install_sp_text(unit: Seq<char>, debug: bool) -> Seq<Seq<char>> {
    access_text(MemOp::Push, Segment::General, NEW_SP as nat, unit, debug) + access_text(
        MemOp::Pop,
        Segment::General,
        SP as nat,
        unit,
        debug,
    )
}

/// Jumps to the stashed return address.
pub open spec fn jump_back_code() -> Seq<InstrView> {
    seq![
        InstrView::AtNum(RETURN_ADDRESS as nat),
        InstrView::Assign(Dest::A, Comp::M),
        InstrView::Branch(Comp::Zero, Jump::Jmp),
    ]
}

/// The instructions of a return: stash the return address and the end of
/// the frame, put the result where the first argument was, stash the
/// caller's stack pointer, restore `that`, `this`, `argument` and `local`,
/// install the stack pointer, jump back.
pub open spec fn return_code(unit: Seq<char>) -> Seq<InstrView> {
    stash_return_address_code(unit) + stash_frame_end_code(unit) + access_code(
        MemOp::Pop,
        Segment::Argument,
        0,
        unit,
    ) + stash_new_sp_code(unit) + restore_frame_code(4, unit) + install_sp_code(unit)
        + jump_back_code()
}

/// The lines of a return.
pub open spec fn return_text(unit: Seq<char>, debug: bool) -> Seq<Seq<char>> {
    stash_return_address_text(unit, debug) + stash_frame_end_text(unit, debug) + access_text(
        MemOp::Pop,
        Segment::Argument,
        0,
        unit,
        debug,
    ) + stash_new_sp_text(unit, debug) + restore_frame_text(4, unit, debug) + install_sp_text(
        unit,
        debug,
    ) + render_code(jump_back_code())
}

/// Plain output of a function's entry is exactly the text of its
/// instructions.
pub proof fn lemma_function_def_text_plain(function: Seq<char>, n_vars: nat, unit: Seq<char>)
    ensures
        function_def_text(function, n_vars, unit, false) == render_code(
            function_def_code(function, n_vars, unit),
        ),
{
    lemma_locals_text_plain(n_vars, unit);
    lemma_render_code_concat(seq![InstrView::Label(function)], locals_code(n_vars, unit));
    assert(render_code(seq![InstrView::Label(function)]) =~= seq![
        render(InstrView::Label(function)),
    ]);
}

proof fn lemma_locals_text_plain(n: nat, unit: Seq<char>)
    ensures
        locals_text(n, unit, false) == render_code(locals_code(n, unit)),
    decreases n,
{
    if n == 0 {
        assert(render_code(Seq::<InstrView>::empty()) =~= Seq::<Seq<char>>::empty());
    } else {
        lemma_locals_text_plain((n - 1) as nat, unit);
        lemma_render_code_concat(
            locals_code((n - 1) as nat, unit),
            access_code(MemOp::Push, Segment::Constant, 0, unit),
        );
    }
}

proof fn lemma_concat4(a: Seq<InstrView>, b: Seq<InstrView>, c: Seq<InstrView>, d: Seq<InstrView>)
    ensures
        render_code(a + b + c + d) == render_code(a) + render_code(b) + render_code(c)
            + render_code(d),
{
    lemma_render_code_concat(a, b);
    lemma_render_code_concat(a + b, c);
    lemma_render_code_concat(a + b + c, d);
}

proof fn lemma_concat5(
    a: Seq<InstrView>,
    b: Seq<InstrView>,
    c: Seq<InstrView>,
    d: Seq<InstrView>,
    e: Seq<InstrView>,
)
    ensures
        render_code(a + b + c + d + e) == render_code(a) + render_code(b) + render_code(c)
            + render_code(d) + render_code(e),
{
    lemma_concat4(a, b, c, d);
    lemma_render_code_concat(a + b + c + d, e);
}

/// Plain output of a call is exactly the text of its instructions.
pub proof fn lemma_call_text_plain(function: Seq<char>, n_args: nat, id: nat, unit: Seq<char>)
    ensures
        call_text(function, n_args, id, unit, false) == render_code(
            call_code(function, n_args, id, unit),
        ),
{
    let label = return_label(function, id);
    let a = push_label_code(label);
    let b = save_frame_code(unit);
    let c = set_argument_base_code(n_args, unit);
    let d = set_local_base_code(unit);
    let e = branch_code(BranchKind::Goto, function, unit);
    let f = seq![InstrView::Label(label)];
    lemma_concat5(a, b, c, d, e);
    lemma_render_code_concat(a + b + c + d + e, f);
    assert(render_code(f) =~= seq![render(InstrView::Label(label))]);
    lemma_branch_text_plain(BranchKind::Goto, function, unit, DEFAULT_PADDING as nat);
    lemma_arith_text_plain(ArithOp::Sub, 0, unit, DEFAULT_PADDING as nat);
    lemma_concat4(
        access_code(MemOp::Push, Segment::General, LCL as nat, unit),
        access_code(MemOp::Push, Segment::General, ARG as nat, unit),
        access_code(MemOp::Push, Segment::General, THIS as nat, unit),
        access_code(MemOp::Push, Segment::General, THAT as nat, unit),
    );
    lemma_concat4(
        access_code(MemOp::Push, Segment::Constant, argument_offset(n_args), unit),
        access_code(MemOp::Push, Segment::General, SP as nat, unit),
        arith_code(ArithOp::Sub, 0, unit),
        access_code(MemOp::Pop, Segment::General, ARG as nat, unit),
    );
    lemma_render_code_concat(
        access_code(MemOp::Push, Segment::General, SP as nat, unit),
        access_code(MemOp::Pop, Segment::General, LCL as nat, unit),
    );
}

proof fn lemma_restore_text_plain(n: nat, unit: Seq<char>)
    ensures
        restore_text(n, unit, false) == render_code(restore_code(n, unit)),
{
    lemma_arith_text_plain(ArithOp::Sub, 0, unit, DEFAULT_PADDING as nat);
    lemma_concat5(
        access_code(MemOp::Push, Segment::Constant, n, unit),
        access_code(MemOp::Push, Segment::General, FRAME_END as nat, unit),
        arith_code(ArithOp::Sub, 0, unit),
        dereference_top_code(),
        access_code(MemOp::Pop, Segment::General, (FRAME_WORDS - n) as nat, unit),
    );
    assert(restore_text(n, unit, false) =~= render_code(restore_code(n, unit)));
}

proof fn lemma_restore_frame_text_plain(n: nat, unit: Seq<char>)
    ensures
        restore_frame_text(n, unit, false) == render_code(restore_frame_code(n, unit)),
    decreases n,
{
    if n == 0 {
        assert(render_code(Seq::<InstrView>::empty()) =~= Seq::<Seq<char>>::empty());
    } else {
        lemma_restore_frame_text_plain((n - 1) as nat, unit);
        lemma_restore_text_plain(n, unit);
        lemma_render_code_concat(restore_frame_code((n - 1) as nat, unit), restore_code(n, unit));
    }
}

/// Plain output of a return is exactly the text of its instructions.
pub proof fn lemma_return_text_plain(unit: Seq<char>)
    ensures
        return_text(unit, false) == render_code(return_code(unit)),
{
    let a = stash_return_address_code(unit);
    let b = stash_frame_end_code(unit);
    let c = access_code(MemOp::Pop, Segment::Argument, 0, unit);
    let d = stash_new_sp_code(unit);
    let e = restore_frame_code(4, unit);
    let f = install_sp_code(unit);
    let g = jump_back_code();
    lemma_concat5(a, b, c, d, e);
    lemma_render_code_concat(a + b + c + d + e, f);
    lemma_render_code_concat(a + b + c + d + e + f, g);
    lemma_restore_frame_text_plain(4, unit);
    lemma_arith_text_plain(ArithOp::Sub, 0, unit, DEFAULT_PADDING as nat);
    lemma_arith_text_plain(ArithOp::Add, 0, unit, DEFAULT_PADDING as nat);
    lemma_concat5(
        access_code(MemOp::Push, Segment::Constant, FRAME_WORDS as nat, unit),
        access_code(MemOp::Push, Segment::General, LCL as nat, unit),
        arith_code(ArithOp::Sub, 0, unit),
        access_code(MemOp::Pop, Segment::General, RETURN_ADDRESS as nat, unit),
        load_return_address_code(),
    );
    lemma_render_code_concat(
        access_code(MemOp::Push, Segment::General, LCL as nat, unit),
        access_code(MemOp::Pop, Segment::General, FRAME_END as nat, unit),
    );
    lemma_concat4(
        access_code(MemOp::Push, Segment::Constant, 1, unit),
        access_code(MemOp::Push, Segment::General, ARG as nat, unit),
        arith_code(ArithOp::Add, 0, unit),
        access_code(MemOp::Pop, Segment::General, NEW_SP as nat, unit),
    );
    lemma_render_code_concat(
        access_code(MemOp::Push, Segment::General, NEW_SP as nat, unit),
        access_code(MemOp::Pop, Segment::General, SP as nat, unit),
    );
}

/// Writes the label of a return site.
pub fn return_label_string(function: &str, id: usize) -> (s: String)
    ensures
        s@ == return_label(function@, id as nat),
{
    let mut s = String::from_str(function);
    s.append("_ret_");
    let digits = decimal_string(id);
    s.append(digits.as_str());
    s
}

fn nested_access(
    block: &mut Vec<String>,
    op: MemOp,
    segment: Segment,
    index: usize,
    unit: &str,
    is_debug_option: bool,
)
    requires
        segment is General || segment is Constant || segment is Argument,
        !(op is Pop && segment is Constant),
    ensures
        lines_view(final(block)@) == lines_view(old(block)@) + access_text(
            op,
            segment,
            index as nat,
            unit@,
            is_debug_option,
        ),
{
    append_lines(
        block,
        translate_mem_access(op, segment, index, unit, is_debug_option, DEFAULT_PADDING),
    );
}

fn nested_operation(
    block: &mut Vec<String>,
    op: ArithOp,
    unit: &str,
    jump_counter: &mut usize,
    is_debug_option: bool,
)
    requires
        !is_comparison(op),
    ensures
        *final(jump_counter) == *old(jump_counter),
        lines_view(final(block)@) == lines_view(old(block)@) + operation_text(
            op,
            unit@,
            is_debug_option,
        ),
{
    proof {
        lemma_arith_ignores_id(
            op,
            *jump_counter as nat,
            0,
            unit@,
            is_debug_option,
            DEFAULT_PADDING as nat,
        );
    }
    append_lines(block, translate_arith(op, unit, jump_counter, is_debug_option, DEFAULT_PADDING));
}

/// Generates the entry of a function: its label, then `n_vars` locals set
/// to zero.  The name is taken to be unique in the program.
pub fn generate_function_def(
    function_name: &str,
    n_vars: usize,
    filename: &str,
    is_debug_option: bool,
) -> (lines: Vec<String>)
    ensures
        lines_view(lines@) == function_def_text(
            function_name@,
            n_vars as nat,
            filename@,
            is_debug_option,
        ),
{
    let mut code_block: Vec<String> = Vec::new();
    assert(lines_view(code_block@) =~= Seq::<Seq<char>>::empty());
    let mut entry: Vec<Instr> = Vec::new();
    entry.push(Instr::Label(String::from_str(function_name)));
    assert(code_view(entry@) =~= seq![InstrView::Label(function_name@)]);
    append_code(&mut code_block, &entry);
    let ghost head = seq![render(InstrView::Label(function_name@))];
    assert(lines_view(code_block@) =~= head + locals_text(0, filename@, is_debug_option));
    let mut i: usize = 0;
    while i < n_vars
        invariant
            i <= n_vars,
            lines_view(code_block@) == head + locals_text(i as nat, filename@, is_debug_option),
        decreases n_vars - i,
    {
        let ghost before = lines_view(code_block@);
        nested_access(
            &mut code_block,
            MemOp::Push,
            Segment::Constant,
            0,
            filename,
            is_debug_option,
        );
        i = i + 1;
        assert(lines_view(code_block@) =~= head + locals_text(
            i as nat,
            filename@,
            is_debug_option,
        ));
    }
    code_block
}

fn save_frame(block: &mut Vec<String>, unit: &str, is_debug_option: bool)
    ensures
        lines_view(final(block)@) == lines_view(old(block)@) + save_frame_text(
            unit@,
            is_debug_option,
        ),
{
    nested_access(block, MemOp::Push, Segment::General, LCL, unit, is_debug_option);
    nested_access(block, MemOp::Push, Segment::General, ARG, unit, is_debug_option);
    nested_access(block, MemOp::Push, Segment::General, THIS, unit, is_debug_option);
    nested_access(block, MemOp::Push, Segment::General, THAT, unit, is_debug_option);
    assert(lines_view(block@) =~= lines_view(old(block)@) + save_frame_text(
        unit@,
        is_debug_option,
    ));
}

fn set_argument_base(
    block: &mut Vec<String>,
    n_args: usize,
    unit: &str,
    jump_counter: &mut usize,
    is_debug_option: bool,
)
    requires
        n_args + FRAME_WORDS + 1 <= usize::MAX,
    ensures
        *final(jump_counter) == *old(jump_counter),
        lines_view(final(block)@) == lines_view(old(block)@) + set_argument_base_text(
            n_args as nat,
            unit@,
            is_debug_option,
        ),
{
    nested_access(
        block,
        MemOp::Push,
        Segment::Constant,
        n_args + FRAME_WORDS + 1,
        unit,
        is_debug_option,
    );
    nested_access(block, MemOp::Push, Segment::General, SP, unit, is_debug_option);
    nested_operation(block, ArithOp::Sub, unit, jump_counter, is_debug_option);
    nested_access(block, MemOp::Pop, Segment::General, ARG, unit, is_debug_option);
    assert(lines_view(block@) =~= lines_view(old(block)@) + set_argument_base_text(
        n_args as nat,
        unit@,
        is_debug_option,
    ));
}

fn set_local_base(block: &mut Vec<String>, unit: &str, is_debug_option: bool)
    ensures
        lines_view(final(block)@) == lines_view(old(block)@) + set_local_base_text(
            unit@,
            is_debug_option,
        ),
{
    nested_access(block, MemOp::Push, Segment::General, SP, unit, is_debug_option);
    nested_access(block, MemOp::Pop, Segment::General, LCL, unit, is_debug_option);
    assert(lines_view(block@) =~= lines_view(old(block)@) + set_local_base_text(
        unit@,
        is_debug_option,
    ));
}

fn build_push_label_code(label: String) -> (code: Vec<Instr>)
    ensures
        code_view(code@) == push_label_code(label@),
{
    let mut code: Vec<Instr> = Vec::new();
    code.push(Instr::AtSym(label));
    code.push(Instr::Assign(Dest::D, Comp::A));
    code.push(Instr::AtNum(SP));
    code.push(Instr::Assign(Dest::A, Comp::M));
    code.push(Instr::Assign(Dest::M, Comp::D));
    code.push(Instr::AtNum(SP));
    code.push(Instr::Assign(Dest::M, Comp::MPlusOne));
    assert(code_view(code@) =~= push_label_code(label@));
    code
}

/// Generates a call.  The caller has pushed the `n_args` arguments before.
/// The label counter advances by one, and the new value numbers the return
/// site.
pub fn generate_function_call(
    function_name: &str,
    n_args: usize,
    filename: &str,
    jump_counter_ref: &mut usize,
    is_debug_option: bool,
) -> (lines: Vec<String>)
    requires
        *old(jump_counter_ref) < usize::MAX,
        n_args + FRAME_WORDS + 1 <= usize::MAX,
    ensures
        *final(jump_counter_ref) == *old(jump_counter_ref) + 1,
        lines_view(lines@) == call_text(
            function_name@,
            n_args as nat,
            *final(jump_counter_ref) as nat,
            filename@,
            is_debug_option,
        ),
{
    let mut code_block: Vec<String> = Vec::new();
    assert(lines_view(code_block@) =~= Seq::<Seq<char>>::empty());
    *jump_counter_ref = *jump_counter_ref + 1;
    let id: usize = *jump_counter_ref;
    let push_label = build_push_label_code(return_label_string(function_name, id));
    append_code(&mut code_block, &push_label);
    save_frame(&mut code_block, filename, is_debug_option);
    set_argument_base(&mut code_block, n_args, filename, jump_counter_ref, is_debug_option);
    set_local_base(&mut code_block, filename, is_debug_option);
    append_lines(
        &mut code_block,
        translate_branch(
            BranchKind::Goto,
            function_name,
            filename,
            is_debug_option,
            DEFAULT_PADDING,
        ),
    );
    let mut site: Vec<Instr> = Vec::new();
    site.push(Instr::Label(return_label_string(function_name, id)));
    assert(code_view(site@) =~= seq![InstrView::Label(return_label(function_name@, id as nat))]);
    append_code(&mut code_block, &site);
    assert(render_code(code_view(site@)) =~= seq![
        render(InstrView::Label(return_label(function_name@, id as nat))),
    ]);
    assert(lines_view(code_block@) =~= call_text(
        function_name@,
        n_args as nat,
        id as nat,
        filename@,
        is_debug_option,
    ));
    code_block
}

fn stash_return_address(
    block: &mut Vec<String>,
    unit: &str,
    jump_counter: &mut usize,
    is_debug_option: bool,
)
    ensures
        *final(jump_counter) == *old(jump_counter),
        lines_view(final(block)@) == lines_view(old(block)@) + stash_return_address_text(
            unit@,
            is_debug_option,
        ),
{
    nested_access(block, MemOp::Push, Segment::Constant, FRAME_WORDS, unit, is_debug_option);
    nested_access(block, MemOp::Push, Segment::General, LCL, unit, is_debug_option);
    nested_operation(block, ArithOp::Sub, unit, jump_counter, is_debug_option);
    nested_access(block, MemOp::Pop, Segment::General, RETURN_ADDRESS, unit, is_debug_option);
    let mut load: Vec<Instr> = Vec::new();
    load.push(Instr::AtNum(RETURN_ADDRESS));
    load.push(Instr::Assign(Dest::A, Comp::M));
    load.push(Instr::Assign(Dest::D, Comp::M));
    load.push(Instr::AtNum(RETURN_ADDRESS));
    load.push(Instr::Assign(Dest::M, Comp::D));
    assert(code_view(load@) =~= load_return_address_code());
    append_code(block, &load);
    assert(lines_view(block@) =~= lines_view(old(block)@) + stash_return_address_text(
        unit@,
        is_debug_option,
    ));
}

fn stash_frame_end(block: &mut Vec<String>, unit: &str, is_debug_option: bool)
    ensures
        lines_view(final(block)@) == lines_view(old(block)@) + stash_frame_end_text(
            unit@,
            is_debug_option,
        ),
{
    nested_access(block, MemOp::Push, Segment::General, LCL, unit, is_debug_option);
    nested_access(block, MemOp::Pop, Segment::General, FRAME_END, unit, is_debug_option);
    assert(lines_view(block@) =~= lines_view(old(block)@) + stash_frame_end_text(
        unit@,
        is_debug_option,
    ));
}

fn stash_new_sp(
    block: &mut Vec<String>,
    unit: &str,
    jump_counter: &mut usize,
    is_debug_option: bool,
)
    ensures
        *final(jump_counter) == *old(jump_counter),
        lines_view(final(block)@) == lines_view(old(block)@) + stash_new_sp_text(
            unit@,
            is_debug_option,
        ),
{
    nested_access(block, MemOp::Push, Segment::Constant, 1, unit, is_debug_option);
    nested_access(block, MemOp::Push, Segment::General, ARG, unit, is_debug_option);
    nested_operation(block, ArithOp::Add, unit, jump_counter, is_debug_option);
    nested_access(block, MemOp::Pop, Segment::General, NEW_SP, unit, is_debug_option);
    assert(lines_view(block@) =~= lines_view(old(block)@) + stash_new_sp_text(
        unit@,
        is_debug_option,
    ));
}

fn restore_comment_string(n: usize) -> (s: String)
    ensures
        s@ == restore_comment(n as nat),
{
    proof {
        reveal_strlit(")");
    }
    let mut s = String::from_str("// restoring *(addr - ");
    let digits = decimal_string(n);
    s.append(digits.as_str());
    s.append(")");
    assert(s@ =~= restore_comment(n as nat));
    s
}

fn restore(
    block: &mut Vec<String>,
    n: usize,
    unit: &str,
    jump_counter: &mut usize,
    is_debug_option: bool,
)
    requires
        1 <= n <= 4,
    ensures
        *final(jump_counter) == *old(jump_counter),
        lines_view(final(block)@) == lines_view(old(block)@) + restore_text(
            n as nat,
            unit@,
            is_debug_option,
        ),
{
    if is_debug_option {
        append_line(block, blank_line_string());
        append_line(block, restore_comment_string(n));
    }
    nested_access(block, MemOp::Push, Segment::Constant, n, unit, is_debug_option);
    nested_access(block, MemOp::Push, Segment::General, FRAME_END, unit, is_debug_option);
    nested_operation(block, ArithOp::Sub, unit, jump_counter, is_debug_option);
    let mut dereference: Vec<Instr> = Vec::new();
    dereference.push(Instr::AtNum(SP));
    dereference.push(Instr::Assign(Dest::A, Comp::MMinusOne));
    dereference.push(Instr::Assign(Dest::A, Comp::M));
    dereference.push(Instr::Assign(Dest::D, Comp::M));
    dereference.push(Instr::AtNum(SP));
    dereference.push(Instr::Assign(Dest::A, Comp::MMinusOne));
    dereference.push(Instr::Assign(Dest::M, Comp::D));
    assert(code_view(dereference@) =~= dereference_top_code());
    append_code(block, &dereference);
    nested_access(block, MemOp::Pop, Segment::General, FRAME_WORDS - n, unit, is_debug_option);
    assert(lines_view(block@) =~= lines_view(old(block)@) + restore_text(
        n as nat,
        unit@,
        is_debug_option,
    ));
}

fn install_sp(block: &mut Vec<String>, unit: &str, is_debug_option: bool)
    ensures
        lines_view(final(block)@) == lines_view(old(block)@) + install_sp_text(
            unit@,
            is_debug_option,
        ),
{
    nested_access(block, MemOp::Push, Segment::General, NEW_SP, unit, is_debug_option);
    nested_access(block, MemOp::Pop, Segment::General, SP, unit, is_debug_option);
    assert(lines_view(block@) =~= lines_view(old(block)@) + install_sp_text(
        unit@,
        is_debug_option,
    ));
}

/// Generates a return.  The label counter advances by one.
pub fn generate_function_return(
    filename: &str,
    jump_counter_ref: &mut usize,
    is_debug_option: bool,
) -> (lines: Vec<String>)
    requires
        *old(jump_counter_ref) < usize::MAX,
    ensures
        *final(jump_counter_ref) == *old(jump_counter_ref) + 1,
        lines_view(lines@) == return_text(filename@, is_debug_option),
{
    *jump_counter_ref = *jump_counter_ref + 1;
    let mut code_block: Vec<String> = Vec::new();
    assert(lines_view(code_block@) =~= Seq::<Seq<char>>::empty());
    stash_return_address(&mut code_block, filename, jump_counter_ref, is_debug_option);
    stash_frame_end(&mut code_block, filename, is_debug_option);
    nested_access(
        &mut code_block,
        MemOp::Pop,
        Segment::Argument,
        0,
        filename,
        is_debug_option,
    );
    stash_new_sp(&mut code_block, filename, jump_counter_ref, is_debug_option);
    let ghost head = lines_view(code_block@);
    assert(lines_view(code_block@) =~= head + restore_frame_text(0, filename@, is_debug_option));
    let mut n: usize = 1;
    while n <= 4
        invariant
            1 <= n <= 5,
            *jump_counter_ref == *old(jump_counter_ref) + 1,
            lines_view(code_block@) == head + restore_frame_text(
                (n - 1) as nat,
                filename@,
                is_debug_option,
            ),
        decreases 5 - n,
    {
        restore(&mut code_block, n, filename, jump_counter_ref, is_debug_option);
        assert(lines_view(code_block@) =~= head + restore_frame_text(
            n as nat,
            filename@,
            is_debug_option,
        ));
        n = n + 1;
    }
    install_sp(&mut code_block, filename, is_debug_option);
    let mut jump_back: Vec<Instr> = Vec::new();
    jump_back.push(Instr::AtNum(RETURN_ADDRESS));
    jump_back.push(Instr::Assign(Dest::A, Comp::M));
    jump_back.push(Instr::Branch(Comp::Zero, Jump::Jmp));
    assert(code_view(jump_back@) =~= jump_back_code());
    append_code(&mut code_block, &jump_back);
    assert(lines_view(code_block@) =~= return_text(filename@, is_debug_option));
    code_block
}

} // verus!
