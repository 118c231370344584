//! The backends: what each target writes for an instruction, before the first
//! one and after the last one, and how it names the registers of the stack.

use crate::instruction::{Instruction, Op};
use crate::text::{decimal, is_word, push_decimal, push_signed, signed_decimal, to_chars};
use vstd::prelude::*;
use vstd::string::*;

verus! {

/// Why no assembly text was generated.
#[derive(Clone, Copy, Debug, PartialEq, Eq, Structural)]
pub enum GenerationError {
    /// The target name is that of no backend.
    UnsupportedTarget,
    /// The backend has no rule for an instruction of the sequence.
    UnsupportedInstruction,
    /// An instruction, or the end of the program, takes a value from the
    /// stack that is not there.
    StackUnderflow,
}

/// A backend.
#[derive(Clone, Copy, Debug, PartialEq, Eq, Structural)]
pub enum Target {
    /// NASM for x86-64, leaving through the `exit` system call of Linux.
    NasmLinux,
    /// NASM for x86-64, leaving through the `exit` system call of macOS.
    NasmMacos,
    /// LLVM assembly, with one fresh virtual register for each result.
    Llvm,
}

/// The number of the register that holds the stack slot `depth` where the
/// slots begin at register `base`.
pub open spec fn register_number(depth: nat, base: nat) -> nat {
    depth + base
}

/// Computes the number of the register that holds the stack slot `depth`.
pub fn register_index(depth: usize, base: usize) -> (index: u128)
    ensures
        index == register_number(depth as nat, base as nat),
{
    depth as u128 + base as u128
}

/// How many values `op` takes from the stack.
pub open spec fn operands(op: Op) -> nat {
    match op {
        Op::Add | Op::Sub | Op::Mul | Op::Equal => 2,
        Op::BrIf(_) => 1,
        _ => 0,
    }
}

/// Whether `op` takes two values and leaves one.
pub open spec fn binary(op: Op) -> bool {
    op is Add || op is Sub || op is Mul || op is Equal
}

/// One line of NASM: a mnemonic and its two operands.
pub open spec fn nasm_line(mnemonic: Seq<char>, left: Seq<char>, right: Seq<char>) -> Seq<char> {
    "\t"@ + mnemonic + " "@ + left + ", "@ + right + "\n"@
}

/// One line of LLVM assembly: a 64-bit operation on two operands, and the
/// register that takes its result.
pub open spec fn llvm_line(
    result: Seq<char>,
    mnemonic: Seq<char>,
    left: Seq<char>,
    right: Seq<char>,
) -> Seq<char> {
    "\t"@ + result + " = "@ + mnemonic + " i64 "@ + left + ", "@ + right + "\n"@
}

fn push_nasm_line(out: &mut String, mnemonic: &str, left: &str, right: &str)
    ensures
        final(out)@ == old(out)@ + nasm_line(mnemonic@, left@, right@),
{
    let ghost before = out@;
    out.append("\t");
    out.append(mnemonic);
    out.append(" ");
    out.append(left);
    out.append(", ");
    out.append(right);
    out.append("\n");
    assert(out@ == before + nasm_line(mnemonic@, left@, right@));
}

fn push_llvm_line(out: &mut String, result: &str, mnemonic: &str, left: &str, right: &str)
    ensures
        final(out)@ == old(out)@ + llvm_line(result@, mnemonic@, left@, right@),
{
    let ghost before = out@;
    out.append("\t");
    out.append(result);
    out.append(" = ");
    out.append(mnemonic);
    out.append(" i64 ");
    out.append(left);
    out.append(", ");
    out.append(right);
    out.append("\n");
    assert(out@ == before + llvm_line(result@, mnemonic@, left@, right@));
}

/// `value` in decimal, as a string.
fn signed_text(value: i64) -> (text: String)
    ensures
        text@ == signed_decimal(value as int),
{
    let mut text = String::new();
    push_signed(&mut text, value);
    assert(Seq::<char>::empty() + signed_decimal(value as int) == signed_decimal(value as int));
    text
}

impl Target {
    /// The backend that `name` names, if any.
    pub open spec fn named(name: Seq<char>) -> Option<Target> {
        if name == "nasm-x86_64-linux"@ {
            Some(Target::NasmLinux)
        } else if name == "nasm-x86_64-macos"@ {
            Some(Target::NasmMacos)
        } else if name == "llvm-unknown-unknown"@ {
            Some(Target::Llvm)
        } else {
            None
        }
    }

    /// Looks up a backend by its name. This is the one place where a target
    /// name is read.
    pub fn from_name(name: &str) -> (target: Option<Target>)
        ensures
            target == Target::named(name@),
    {
        let chars = to_chars(name);
        if is_word(chars.as_slice(), "nasm-x86_64-linux") {
            Some(Target::NasmLinux)
        } else if is_word(chars.as_slice(), "nasm-x86_64-macos") {
            Some(Target::NasmMacos)
        } else if is_word(chars.as_slice(), "llvm-unknown-unknown") {
            Some(Target::Llvm)
        } else {
            None
        }
    }

    /// The number of the register that holds the bottom of the stack. The
    /// NASM backends leave the registers below `r8` to the system call.
    pub open spec fn base(self) -> nat {
        match self {
            Target::Llvm => 0,
            _ => 8,
        }
    }

    /// The number of the register that holds the bottom of the stack.
    pub fn register_base(&self) -> (base: usize)
        ensures
            base == self.base(),
    {
        match self {
            Target::Llvm => 0,
            _ => 8,
        }
    }

    /// The name of the register that holds the stack slot `depth`.
    pub open spec fn register(self, depth: nat) -> Seq<char> {
        match self {
            Target::Llvm => "%r"@ + decimal(register_number(depth, self.base())),
            _ => "r"@ + decimal(register_number(depth, self.base())),
        }
    }

    /// Writes the name of the register that holds the stack slot `depth`.
    pub fn register_name(&self, depth: usize) -> (name: String)
        ensures
            name@ == self.register(depth as nat),
    {
        let mut name = String::new();
        match self {
            Target::Llvm => {
                name.append("%r");
            },
            _ => {
                name.append("r");
            },
        }
        let ghost prefix = name@;
        push_decimal(&mut name, register_index(depth, self.register_base()));
        assert(Seq::<char>::empty() + prefix == prefix);
        name
    }

    /// What stands before the first instruction.
    pub open spec fn prologue(self) -> Seq<char> {
        match self {
            Target::Llvm => "define i64 @main() {\n\tentry:\n"@,
            _ => "section .text\n\tglobal _start\n\n_start:\n"@,
        }
    }

    /// The number of the `exit` system call, as the NASM backends write it.
    pub open spec fn exit_call(self) -> Seq<char> {
        match self {
            Target::NasmMacos => "0x2000001"@,
            _ => "60"@,
        }
    }

    /// The number of the `exit` system call, as the NASM backends write it.
    fn exit_number(&self) -> (text: &'static str)
        ensures
            text@ == self.exit_call(),
    {
        match self {
            Target::NasmMacos => "0x2000001",
            _ => "60",
        }
    }

    /// What stands after the last instruction where it leaves the stack
    /// `depth` values deep, `depth` being one at least: the program ends
    /// with the topmost value as its result.
    pub open spec fn epilogue(self, depth: nat) -> Seq<char> {
        let top = self.register((depth - 1) as nat);
        match self {
            Target::Llvm => "\n\tret i64 "@ + top + "\n}"@,
            _ => "\n"@ + nasm_line("mov"@, "rax"@, self.exit_call()) + nasm_line(
                "mov"@,
                "rdi"@,
                top,
            ) + "\tsyscall"@,
        }
    }

    /// Whether the backend has a rule for `op`.
    pub open spec fn supports(self, op: Op) -> bool {
        match self {
            Target::Llvm => !(op is Equal || op is BrIf),
            _ => true,
        }
    }

    /// The mnemonic of the arithmetic instruction `op`.
    pub open spec fn mnemonic(self, op: Op) -> Seq<char> {
        match op {
            Op::Add => "add"@,
            Op::Sub => "sub"@,
            _ => match self {
                Target::Llvm => "mul"@,
                _ => "imul"@,
            },
        }
    }

    /// What the backend writes for `op` where the stack is `depth` values
    /// deep before it; `op` is one that the backend has a rule for, and
    /// `depth` is at least the number of values that `op` takes. The
    /// operands of an instruction that takes two are the registers of the
    /// slots `depth - 2` and `depth - 1`, in this order.
    pub open spec fn block(self, op: Op, depth: nat) -> Seq<char> {
        let left = self.register((depth - 2) as nat);
        let right = self.register((depth - 1) as nat);
        match self {
            Target::Llvm => match op {
                Op::Push(value) => llvm_line(
                    self.register(depth),
                    "add"@,
                    "0"@,
                    signed_decimal(value as int),
                ),
                Op::Label(name) => "\n"@ + name + ":\n"@,
                Op::Jump(name) => "\tbr label %"@ + name + "\n"@,
                _ => llvm_line(self.register(depth), self.mnemonic(op), left, right),
            },
            _ => match op {
                Op::Push(value) => nasm_line(
                    "mov"@,
                    self.register(depth),
                    signed_decimal(value as int),
                ),
                Op::Equal => nasm_line("cmp"@, left, right) + "\tsete al\n"@ + nasm_line(
                    "movzx"@,
                    left,
                    "al"@,
                ),
                Op::Label(name) => "\n"@ + name + ":\n"@,
                Op::Jump(name) => "\tjmp "@ + name + "\n"@,
                Op::BrIf(name) => nasm_line("cmp"@, right, "1"@) + "\tje "@ + name + "\n"@,
                _ => nasm_line(self.mnemonic(op), left, right),
            },
        }
    }

    /// How deep the stack is after `op`, where it is `depth` values deep
    /// before it. The NASM backends write a result over the lower of its two
    /// operands. The LLVM backend gives each result the next register, so its
    /// depth counts the registers named so far.
    pub open spec fn depth_after(self, op: Op, depth: nat) -> nat {
        match op {
            Op::Push(_) => depth + 1,
            Op::Label(_) | Op::Jump(_) => depth,
            Op::BrIf(_) => (depth - 1) as nat,
            _ => match self {
                Target::Llvm => depth + 1,
                _ => (depth - 1) as nat,
            },
        }
    }

    /// What one instruction comes to where the stack is `depth` values deep
    /// before it: the text written for it and the depth after it; or the
    /// reason why there is none, which is that the backend has no rule for
    /// it or, where it has one, that the stack holds fewer values than the
    /// instruction takes.
    pub open spec fn step(self, op: Op, depth: nat) -> Result<(Seq<char>, nat), GenerationError> {
        if !self.supports(op) {
            Err(GenerationError::UnsupportedInstruction)
        } else if depth < operands(op) {
            Err(GenerationError::StackUnderflow)
        } else {
            Ok((self.block(op, depth), self.depth_after(op, depth)))
        }
    }

    /// Appends to `out` what stands before the first instruction.
    pub fn push_prologue(&self, out: &mut String)
        ensures
            final(out)@ == old(out)@ + self.prologue(),
    {
        match self {
            Target::Llvm => out.append("define i64 @main() {\n\tentry:\n"),
            _ => out.append("section .text\n\tglobal _start\n\n_start:\n"),
        }
    }

    /// Appends to `out` what stands after the last instruction, which left
    /// the stack `depth` values deep. With an empty stack there is no result
    /// to end with.
    pub fn push_epilogue(&self, depth: usize, out: &mut String) -> (r: Result<
        (),
        GenerationError,
    >)
        ensures
            depth == 0 ==> r == Err::<(), GenerationError>(GenerationError::StackUnderflow)
                && final(out)@ == old(out)@,
            depth > 0 ==> r == Ok::<(), GenerationError>(()) && final(out)@ == old(out)@
                + self.epilogue(depth as nat),
    {
        if depth == 0 {
            return Err(GenerationError::StackUnderflow);
        }
        let ghost before = out@;
        let top = self.register_name(depth - 1);
        match self {
            Target::Llvm => {
                out.append("\n\tret i64 ");
                out.append(top.as_str());
                out.append("\n}");
            },
            _ => {
                out.append("\n");
                push_nasm_line(out, "mov", "rax", self.exit_number());
                push_nasm_line(out, "mov", "rdi", top.as_str());
                out.append("\tsyscall");
            },
        }
        assert(out@ == before + self.epilogue(depth as nat));
        Ok(())
    }

    /// The mnemonic of an arithmetic instruction.
    fn mnemonic_of(&self, instruction: &Instruction) -> (text: &'static str)
        ensures
            text@ == self.mnemonic(instruction@),
    {
        match instruction {
            Instruction::Add => "add",
            Instruction::Sub => "sub",
            _ => match self {
                Target::Llvm => "mul",
                _ => "imul",
            },
        }
    }

    /// Appends what the backend writes for a push of `value`.
    fn emit_push(&self, value: i64, depth: usize, out: &mut String)
        ensures
            final(out)@ == old(out)@ + self.block(Op::Push(value), depth as nat),
    {
        let register = self.register_name(depth);
        let literal = signed_text(value);
        match self {
            Target::Llvm => push_llvm_line(out, register.as_str(), "add", "0", literal.as_str()),
            _ => push_nasm_line(out, "mov", register.as_str(), literal.as_str()),
        }
    }

    /// Appends the definition of the label `name`.
    fn emit_label(&self, name: &String, out: &mut String)
        ensures
            final(out)@ == old(out)@ + self.block(Op::Label(name@), 0),
    {
        let ghost before = out@;
        out.append("\n");
        out.append(name.as_str());
        out.append(":\n");
        assert(out@ == before + ("\n"@ + name@ + ":\n"@));
    }

    /// Appends a jump to the label `name`.
    fn emit_jump(&self, name: &String, out: &mut String)
        ensures
            final(out)@ == old(out)@ + self.block(Op::Jump(name@), 0),
    {
        let ghost before = out@;
        match self {
            Target::Llvm => {
                out.append("\tbr label %");
                out.append(name.as_str());
                out.append("\n");
                assert(out@ == before + ("\tbr label %"@ + name@ + "\n"@));
            },
            _ => {
                out.append("\tjmp ");
                out.append(name.as_str());
                out.append("\n");
                assert(out@ == before + ("\tjmp "@ + name@ + "\n"@));
            },
        }
    }

    /// Appends what a NASM backend writes for a branch to the label `name`
    /// on the topmost value.
    fn emit_branch(&self, name: &String, depth: usize, out: &mut String)
        requires
            *self != Target::Llvm,
            depth >= 1,
        ensures
            final(out)@ == old(out)@ + self.block(Op::BrIf(name@), depth as nat),
    {
        let ghost before = out@;
        let top = self.register_name(depth - 1);
        push_nasm_line(out, "cmp", top.as_str(), "1");
        out.append("\tje ");
        out.append(name.as_str());
        out.append("\n");
        assert(out@ == before + (nasm_line("cmp"@, top@, "1"@) + "\tje "@ + name@ + "\n"@));
    }

    /// Appends what the backend writes for an instruction that takes two
    /// values and leaves one.
    fn emit_binary(&self, instruction: &Instruction, depth: usize, out: &mut String)
        requires
            binary(instruction@),
            self.supports(instruction@),
            depth >= 2,
        ensures
            final(out)@ == old(out)@ + self.block(instruction@, depth as nat),
    {
        let ghost before = out@;
        let left = self.register_name(depth - 2);
        let right = self.register_name(depth - 1);
        match self {
            Target::Llvm => {
                let result = self.register_name(depth);
                push_llvm_line(
                    out,
                    result.as_str(),
                    self.mnemonic_of(instruction),
                    left.as_str(),
                    right.as_str(),
                );
            },
            _ => match instruction {
                Instruction::Equal => {
                    push_nasm_line(out, "cmp", left.as_str(), right.as_str());
                    out.append("\tsete al\n");
                    push_nasm_line(out, "movzx", left.as_str(), "al");
                    assert(out@ == before + (nasm_line("cmp"@, left@, right@) + "\tsete al\n"@
                        + nasm_line("movzx"@, left@, "al"@)));
                },
                _ => {
                    push_nasm_line(
                        out,
                        self.mnemonic_of(instruction),
                        left.as_str(),
                        right.as_str(),
                    );
                },
            },
        }
    }

    /// Whether the backend has a rule for `instruction`.
    pub fn has_rule(&self, instruction: &Instruction) -> (b: bool)
        ensures
            b == self.supports(instruction@),
    {
        match self {
            Target::Llvm => match instruction {
                Instruction::Equal | Instruction::BrIf(_) => false,
                _ => true,
            },
            _ => true,
        }
    }

    /// Appends to `out` what the backend writes for `instruction` where the
    /// stack is `depth` values deep, and returns the depth after it. Where
    /// the backend has no rule for the instruction, or the stack holds fewer
    /// values than it takes, nothing is written. The depth is counted in a
    /// `usize`, so `depth` must be below the largest one.
    pub fn emit(&self, instruction: &Instruction, depth: usize, out: &mut String) -> (r: Result<
        usize,
        GenerationError,
    >)
        requires
            depth < usize::MAX,
        ensures
            match self.step(instruction@, depth as nat) {
                Ok((block, after)) => r == Ok::<usize, GenerationError>(after as usize) && after
                    <= usize::MAX && final(out)@ == old(out)@ + block,
                Err(e) => r == Err::<usize, GenerationError>(e) && final(out)@ == old(out)@,
            },
    {
        if !self.has_rule(instruction) {
            return Err(GenerationError::UnsupportedInstruction);
        }
        match instruction {
            Instruction::Push(value) => {
                self.emit_push(*value, depth, out);
                Ok(depth + 1)
            },
            Instruction::Label(name) => {
                self.emit_label(name, out);
                Ok(depth)
            },
            Instruction::Jump(name) => {
                self.emit_jump(name, out);
                Ok(depth)
            },
            Instruction::BrIf(name) => {
                if depth < 1 {
                    return Err(GenerationError::StackUnderflow);
                }
                self.emit_branch(name, depth, out);
                Ok(depth - 1)
            },
            _ => {
                if depth < 2 {
                    return Err(GenerationError::StackUnderflow);
                }
                self.emit_binary(instruction, depth, out);
                match self {
                    Target::Llvm => Ok(depth + 1),
                    _ => Ok(depth - 1),
                }
            },
        }
    }
}

} // verus!
