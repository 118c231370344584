//! The code generator: one pass over the instructions, with the depth of the
//! stack as its only state.

use crate::decoder::{decode, decoded, holds, DecodeError, Dialect};
use crate::instruction::{program, Instruction, Op};
use crate::target::{binary, llvm_line, nasm_line, operands, GenerationError, Target};
use vstd::prelude::*;
use vstd::string::*;

verus! {

/// What the instructions `ops` come to, one after the other, where the stack
/// is `depth` values deep before the first: the text written for each, in
/// order, and the depth after the last. Or the reason why the first
/// instruction that comes to nothing does so.
pub open spec fn lowered(target: Target, ops: Seq<Op>, depth: nat) -> Result<
    (Seq<Seq<char>>, nat),
    GenerationError,
>
    decreases ops.len(),
{
    if ops.len() == 0 {
        Ok((seq![], depth))
    } else {
        match lowered(target, ops.drop_last(), depth) {
            Ok((blocks, before)) => match target.step(ops.last(), before) {
                Ok((block, after)) => Ok((blocks.push(block), after)),
                Err(e) => Err(e),
            },
            Err(e) => Err(e),
        }
    }
}

/// The assembly text for `ops` and the depth of the stack at its end, where
/// the stack is `depth` values deep at its beginning: the prologue, the text
/// of each instruction in order, and the epilogue, which needs a value on
/// the stack to end with.
pub open spec fn artifact(target: Target, ops: Seq<Op>, depth: nat) -> Result<
    (Seq<char>, nat),
    GenerationError,
> {
    match lowered(target, ops, depth) {
        Ok((blocks, after)) => if after == 0 {
            Err(GenerationError::StackUnderflow)
        } else {
            Ok((target.prologue() + blocks.flatten() + target.epilogue(after), after))
        },
        Err(e) => Err(e),
    }
}

/// The assembly text for `ops` on the backend that `target` names, with an
/// empty stack at the beginning.
pub open spec fn generated(ops: Seq<Op>, target: Seq<char>) -> Result<Seq<char>, GenerationError> {
    match Target::named(target) {
        Some(backend) => match artifact(backend, ops, 0) {
            Ok((text, _)) => Ok(text),
            Err(e) => Err(e),
        },
        None => Err(GenerationError::UnsupportedTarget),
    }
}

/// An instruction adds one value to the stack at most.
proof fn lemma_lowered_depth(target: Target, ops: Seq<Op>, depth: nat)
    ensures
        lowered(target, ops, depth) matches Ok((blocks, after)) ==> after <= depth + ops.len(),
    decreases ops.len(),
{
    if ops.len() > 0 {
        lemma_lowered_depth(target, ops.drop_last(), depth);
    }
}

/// Where the first `k` instructions come to nothing, so does the whole
/// sequence, and for the same reason.
proof fn lemma_lowered_fails_early(target: Target, ops: Seq<Op>, depth: nat, k: int)
    requires
        0 <= k <= ops.len(),
        lowered(target, ops.take(k), depth) is Err,
    ensures
        lowered(target, ops, depth) == lowered(target, ops.take(k), depth),
    decreases ops.len(),
{
    if k == ops.len() {
        assert(ops.take(k) == ops);
    } else {
        assert(ops.drop_last().take(k) == ops.take(k));
        lemma_lowered_fails_early(target, ops.drop_last(), depth, k);
    }
}

/// Generates the assembly text for `instructions` on `target`, beginning
/// with a stack that is `depth` values deep, and returns the text with the
/// depth of the stack at the end. The depth is counted in a `usize`: `depth`
/// and the number of instructions together must not exceed the largest one.
pub fn assemble(target: Target, instructions: &[Instruction], depth: usize) -> (r: Result<
    (String, usize),
    GenerationError,
>)
    requires
        depth + instructions.len() <= usize::MAX,
    ensures
        match artifact(target, program(instructions@), depth as nat) {
            Ok((text, after)) => r matches Ok((written, reached)) && written@ == text && reached
                == after,
            Err(e) => r matches Err(reason) && reason == e,
        },
{
    let ghost ops = program(instructions@);
    let mut out = String::new();
    target.push_prologue(&mut out);
    let mut current: usize = depth;
    let mut i: usize = 0;
    let ghost mut blocks: Seq<Seq<char>> = seq![];
    assert(ops.take(0) == Seq::<Op>::empty());
    assert(out@ == target.prologue() + blocks.flatten());
    while i < instructions.len()
        invariant
            i <= instructions.len(),
            ops == program(instructions@),
            depth + instructions.len() <= usize::MAX,
            current <= depth + i,
            lowered(target, ops.take(i as int), depth as nat) == Ok::<
                (Seq<Seq<char>>, nat),
                GenerationError,
            >((blocks, current as nat)),
            out@ == target.prologue() + blocks.flatten(),
        decreases instructions.len() - i,
    {
        let ghost next = ops.take(i + 1);
        assert(next.drop_last() == ops.take(i as int));
        assert(next.last() == instructions@[i as int]@);
        match target.emit(&instructions[i], current, &mut out) {
            Ok(after) => {
                proof {
                    let block = target.step(next.last(), current as nat)->Ok_0.0;
                    blocks.lemma_flatten_push(block);
                    assert(target.prologue() + blocks.flatten() + block == target.prologue() + (
                    blocks.flatten() + block));
                    blocks = blocks.push(block);
                    lemma_lowered_depth(target, next, depth as nat);
                }
                current = after;
            },
            Err(e) => {
                proof {
                    lemma_lowered_fails_early(target, ops, depth as nat, i + 1);
                }
                return Err(e);
            },
        }
        i += 1;
    }
    assert(ops.take(i as int) == ops);
    match target.push_epilogue(current, &mut out) {
        Ok(()) => Ok((out, current)),
        Err(e) => Err(e),
    }
}

/// Generates the assembly text for `instructions` on the backend that
/// `target` names. The result depends on the arguments alone. It is the
/// whole text or an error: a name that names no backend, an instruction for
/// which the backend has no rule, or one that takes a value from the stack
/// that is not there.
pub fn generate(instructions: &[Instruction], target: &str) -> (r: Result<String, GenerationError>)
    ensures
        match generated(program(instructions@), target@) {
            Ok(text) => r matches Ok(written) && written@ == text,
            Err(e) => r matches Err(reason) && reason == e,
        },
{
    match Target::from_name(target) {
        Some(backend) => match assemble(backend, instructions, 0) {
            Ok((text, _)) => Ok(text),
            Err(e) => Err(e),
        },
        None => Err(GenerationError::UnsupportedTarget),
    }
}

/// The state of a compilation: the depth of the stack and the name of the
/// target, which stays the same throughout.
#[derive(Debug)]
pub struct Compiler {
    /// How many values the stack holds.
    pub stack_index: usize,
    /// The name of the backend.
    pub target: String,
}

impl Compiler {
    /// Decodes a source text of one instruction per line.
    pub fn parse_ir(source: &str) -> (r: Result<Vec<Instruction>, DecodeError>)
        ensures
            holds(r, decoded(source@, Dialect::Lines)),
    {
        decode(source, Dialect::Lines)
    }

    /// Generates the assembly text for `bytecodes` on the target of this
    /// compiler, beginning with the stack as deep as `stack_index` says, and
    /// leaves in `stack_index` the depth at the end. Where it fails, the
    /// compiler stays as it was. The depth is counted in a `usize`: the
    /// depth at the beginning and the number of instructions together must
    /// not exceed the largest one.
    pub fn compile(&mut self, bytecodes: Vec<Instruction>) -> (r: Result<String, GenerationError>)
        requires
            old(self).stack_index + bytecodes.len() <= usize::MAX,
        ensures
            final(self).target == old(self).target,
            match Target::named(old(self).target@) {
                Some(backend) => match artifact(
                    backend,
                    program(bytecodes@),
                    old(self).stack_index as nat,
                ) {
                    Ok((text, after)) => r matches Ok(written) && written@ == text
                        && final(self).stack_index == after,
                    Err(e) => r matches Err(reason) && reason == e && final(self).stack_index
                        == old(self).stack_index,
                },
                None => r matches Err(reason) && reason == GenerationError::UnsupportedTarget
                    && final(self).stack_index == old(self).stack_index,
            },
    {
        match Target::from_name(self.target.as_str()) {
            Some(backend) => match assemble(backend, bytecodes.as_slice(), self.stack_index) {
                Ok((text, after)) => {
                    self.stack_index = after;
                    Ok(text)
                },
                Err(e) => Err(e),
            },
            None => Err(GenerationError::UnsupportedTarget),
        }
    }
}

/// How deep the stack is before the instruction at `i`, or after the last
/// one where `i` is the length of `ops`.
pub open spec fn depth_at(target: Target, ops: Seq<Op>, depth: nat, i: int) -> nat
    decreases i,
{
    if i <= 0 {
        depth
    } else {
        target.depth_after(ops[i - 1], depth_at(target, ops, depth, i - 1))
    }
}

/// Whether the backend has a rule for each of `ops`.
pub open spec fn supported(target: Target, ops: Seq<Op>) -> bool {
    forall|i: int| 0 <= i < ops.len() ==> target.supports(#[trigger] ops[i])
}

/// Whether the stack holds, before each of `ops`, the values that it takes.
pub open spec fn operands_present(target: Target, ops: Seq<Op>, depth: nat) -> bool {
    forall|i: int|
        0 <= i < ops.len() ==> operands(ops[i]) <= #[trigger] depth_at(target, ops, depth, i)
}

/// Whether the depth of the stack stays at zero or above throughout: each of
/// `ops` finds the values that it takes, and so does the end of the program,
/// which takes one.
pub open spec fn stack_safe(target: Target, ops: Seq<Op>, depth: nat) -> bool {
    operands_present(target, ops, depth) && depth_at(target, ops, depth, ops.len() as int) >= 1
}

/// The text written for each of `ops`, in order.
pub open spec fn blocks_of(target: Target, ops: Seq<Op>, depth: nat) -> Seq<Seq<char>> {
    Seq::new(ops.len(), |i: int| target.block(ops[i], depth_at(target, ops, depth, i)))
}

/// The depth before an instruction depends on the instructions before it
/// alone.
proof fn lemma_depth_at_prefix(target: Target, ops: Seq<Op>, depth: nat, k: int, i: int)
    requires
        0 <= i <= k <= ops.len(),
    ensures
        depth_at(target, ops.take(k), depth, i) == depth_at(target, ops, depth, i),
    decreases i,
{
    if i > 0 {
        lemma_depth_at_prefix(target, ops, depth, k, i - 1);
    }
}

/// The instructions come to something exactly where the backend has a rule
/// for each and each finds its operands on the stack. Then there is one
/// text for each instruction, the one that the backend writes for it at the
/// depth that the instructions before it leave.
pub proof fn lemma_lowered(target: Target, ops: Seq<Op>, depth: nat)
    ensures
        lowered(target, ops, depth) is Ok <==> supported(target, ops) && operands_present(
            target,
            ops,
            depth,
        ),
        lowered(target, ops, depth) matches Ok((blocks, after)) ==> blocks == blocks_of(
            target,
            ops,
            depth,
        ) && after == depth_at(target, ops, depth, ops.len() as int),
    decreases ops.len(),
{
    if ops.len() == 0 {
        assert(blocks_of(target, ops, depth) == Seq::<Seq<char>>::empty());
    } else {
        let front = ops.drop_last();
        let n = front.len() as int;
        lemma_lowered(target, front, depth);
        assert(front == ops.take(n));
        assert forall|i: int| 0 <= i <= n implies depth_at(target, front, depth, i) == depth_at(
            target,
            ops,
            depth,
            i,
        ) by {
            lemma_depth_at_prefix(target, ops, depth, n, i);
        }
        assert(forall|i: int| 0 <= i < n ==> front[i] == ops[i]);
        if supported(target, ops) && operands_present(target, ops, depth) {
            assert forall|i: int| 0 <= i < n implies target.supports(#[trigger] front[i]) by {
                assert(target.supports(ops[i]));
            }
            assert forall|i: int| 0 <= i < n implies operands(front[i]) <= #[trigger] depth_at(
                target,
                front,
                depth,
                i,
            ) by {
                assert(operands(ops[i]) <= depth_at(target, ops, depth, i));
            }
            assert(target.supports(ops[n]));
            assert(operands(ops[n]) <= depth_at(target, ops, depth, n));
        }
        if let Ok((blocks, after)) = lowered(target, ops, depth) {
            assert(blocks == blocks_of(target, ops, depth));
            assert forall|i: int| 0 <= i < ops.len() implies target.supports(
                #[trigger] ops[i],
            ) by {
                if i < n {
                    assert(target.supports(front[i]));
                }
            }
            assert forall|i: int| 0 <= i < ops.len() implies operands(ops[i]) <= #[trigger] depth_at(
                target,
                ops,
                depth,
                i,
            ) by {
                if i < n {
                    assert(operands(front[i]) <= depth_at(target, front, depth, i));
                }
            }
        }
    }
}

/// An instruction sequence that keeps the depth of the stack at zero or
/// above throughout, on a backend that has a rule for each instruction, has
/// an assembly text: one prologue, then one block for each instruction in
/// order, then one epilogue. No other sequence has one.
pub proof fn lemma_safe_program_generates(target: Target, ops: Seq<Op>, depth: nat)
    ensures
        artifact(target, ops, depth) is Ok <==> supported(target, ops) && stack_safe(
            target,
            ops,
            depth,
        ),
        supported(target, ops) && stack_safe(target, ops, depth) ==> blocks_of(
            target,
            ops,
            depth,
        ).len() == ops.len() && artifact(target, ops, depth) == Ok::<
            (Seq<char>, nat),
            GenerationError,
        >(
            (
                target.prologue() + blocks_of(target, ops, depth).flatten() + target.epilogue(
                    depth_at(target, ops, depth, ops.len() as int),
                ),
                depth_at(target, ops, depth, ops.len() as int),
            ),
        ),
{
    lemma_lowered(target, ops, depth);
}

/// The same for a whole generation, which begins with an empty stack on the
/// backend that `name` names.
pub proof fn lemma_safe_program_generates_by_name(ops: Seq<Op>, name: Seq<char>, target: Target)
    requires
        Target::named(name) == Some(target),
        supported(target, ops),
        stack_safe(target, ops, 0),
    ensures
        generated(ops, name) == Ok::<Seq<char>, GenerationError>(
            target.prologue() + blocks_of(target, ops, 0).flatten() + target.epilogue(
                depth_at(target, ops, 0, ops.len() as int),
            ),
        ),
{
    lemma_safe_program_generates(target, ops, 0);
}

/// An instruction that takes two values reads them from the registers of
/// the slots `depth - 2` and `depth - 1`, in this order, where `depth` is
/// the depth before it. A NASM backend writes the result over the first of
/// them and leaves the stack `depth - 1` values deep. The LLVM backend
/// writes it to the register of the slot `depth` and counts one register
/// more.
pub proof fn lemma_binary_registers(target: Target, op: Op, depth: nat)
    requires
        binary(op),
        target.supports(op),
        depth >= 2,
    ensures
        target.step(op, depth) == Ok::<(Seq<char>, nat), GenerationError>(
            (target.block(op, depth), target.depth_after(op, depth)),
        ),
        target is Llvm ==> target.block(op, depth) == llvm_line(
            target.register(depth),
            target.mnemonic(op),
            target.register((depth - 2) as nat),
            target.register((depth - 1) as nat),
        ) && target.depth_after(op, depth) == depth + 1,
        !(target is Llvm) ==> target.depth_after(op, depth) == depth - 1,
        !(target is Llvm) && !(op is Equal) ==> target.block(op, depth) == nasm_line(
            target.mnemonic(op),
            target.register((depth - 2) as nat),
            target.register((depth - 1) as nat),
        ),
        !(target is Llvm) && op is Equal ==> target.block(op, depth) == nasm_line(
            "cmp"@,
            target.register((depth - 2) as nat),
            target.register((depth - 1) as nat),
        ) + "\tsete al\n"@ + nasm_line("movzx"@, target.register((depth - 2) as nat), "al"@),
{
}

/// A branch reads the topmost value, the register of the slot `depth - 1`,
/// and leaves the stack `depth - 1` values deep.
pub proof fn lemma_branch_register(target: Target, name: Seq<char>, depth: nat)
    requires
        target.supports(Op::BrIf(name)),
        depth >= 1,
    ensures
        target.step(Op::BrIf(name), depth) == Ok::<(Seq<char>, nat), GenerationError>(
            (
                nasm_line("cmp"@, target.register((depth - 1) as nat), "1"@) + "	je "@ + name
                    + "
"@,
                (depth - 1) as nat,
            ),
        ),
{
}

/// A label and a jump to it carry the same name, unchanged: the definition
/// of a label is its name between a line feed and a colon, and a jump ends
/// with the name of its label. Neither changes the depth of the stack.
pub proof fn lemma_label_and_jump_name(target: Target, name: Seq<char>, depth: nat)
    ensures
        target.step(Op::Label(name), depth) == Ok::<(Seq<char>, nat), GenerationError>(
            ("\n"@ + name + ":\n"@, depth),
        ),
        target is Llvm ==> target.step(Op::Jump(name), depth) == Ok::<
            (Seq<char>, nat),
            GenerationError,
        >(("\tbr label %"@ + name + "\n"@, depth)),
        !(target is Llvm) ==> target.step(Op::Jump(name), depth) == Ok::<
            (Seq<char>, nat),
            GenerationError,
        >(("\tjmp "@ + name + "\n"@, depth)),
{
}

/// A name that names no backend has no assembly text, whatever the
/// instructions are.
pub proof fn lemma_unknown_target_fails(ops: Seq<Op>, name: Seq<char>)
    requires
        Target::named(name) is None,
    ensures
        generated(ops, name) == Err::<Seq<char>, GenerationError>(
            GenerationError::UnsupportedTarget,
        ),
{
}

} // verus!
