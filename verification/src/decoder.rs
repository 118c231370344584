//! The decoder: from source text to the sequence of instructions it stands for.

use crate::instruction::{program, Instruction, Op};
use crate::text::{
    integer, is_whitespace, is_word, parse_integer, starts_with, to_chars, to_text, trim, trimmed,
    whitespace,
};
use vstd::prelude::*;
use vstd::slice::slice_subrange;
use vstd::string::*;

verus! {

/// Why a source text stands for no sequence of instructions.
#[derive(Clone, Copy, Debug, PartialEq, Eq, Structural)]
pub enum DecodeError {
    /// A line or token that begins no instruction.
    UnknownInstruction,
    /// An operand that is missing, or is not what its keyword takes.
    InvalidOperand,
}

/// How a source text is laid out.
#[derive(Clone, Copy, Debug, PartialEq, Eq, Structural)]
pub enum Dialect {
    /// One instruction on each line, a keyword and its operand together.
    Lines,
    /// Keywords and operands as tokens with any whitespace between them.
    Tokens,
}

/// Whether `r` holds what `model` holds: the same error, or instructions of
/// which `model` holds the models, in the same order.
pub open spec fn holds(
    r: Result<Vec<Instruction>, DecodeError>,
    model: Result<Seq<Op>, DecodeError>,
) -> bool {
    match r {
        Ok(instructions) => model == Ok::<Seq<Op>, DecodeError>(program(instructions@)),
        Err(e) => model == Err::<Seq<Op>, DecodeError>(e),
    }
}

/// What is left of `line` behind `keyword`, where `line` begins with it.
pub open spec fn stripped(line: Seq<char>, keyword: Seq<char>) -> Option<Seq<char>> {
    if keyword.is_prefix_of(line) {
        Some(line.skip(keyword.len() as int))
    } else {
        None
    }
}

/// A keyword that takes an operand.
#[derive(Clone, Copy, Debug, PartialEq, Eq, Structural)]
pub enum Keyword {
    /// `push` or `const`, with an integer.
    Push,
    /// `label`, with a name.
    Label,
    /// `jump`, with a name.
    Jump,
    /// `jmp_if`, with a name.
    BrIf,
}

/// The keyword that `word` is, if it is one that takes an operand.
pub open spec fn keyword(word: Seq<char>) -> Option<Keyword> {
    if word == "push"@ || word == "const"@ {
        Some(Keyword::Push)
    } else if word == "label"@ {
        Some(Keyword::Label)
    } else if word == "jump"@ {
        Some(Keyword::Jump)
    } else if word == "jmp_if"@ {
        Some(Keyword::BrIf)
    } else {
        None
    }
}

/// The instruction that `keyword` makes of the operand text `operand`. A
/// push takes a 64-bit signed integer literal, the others a name, which is
/// any text but the empty one.
pub open spec fn applied(keyword: Keyword, operand: Seq<char>) -> Result<Op, DecodeError> {
    match keyword {
        Keyword::Push => match integer(operand) {
            Some(value) => Ok(Op::Push(value)),
            None => Err(DecodeError::InvalidOperand),
        },
        _ => if operand.len() == 0 {
            Err(DecodeError::InvalidOperand)
        } else {
            match keyword {
                Keyword::Label => Ok(Op::Label(operand)),
                Keyword::Jump => Ok(Op::Jump(operand)),
                _ => Ok(Op::BrIf(operand)),
            }
        },
    }
}

/// The instruction that the one word `word` stands for, if any.
pub open spec fn plain(word: Seq<char>) -> Option<Op> {
    if word == "add"@ {
        Some(Op::Add)
    } else if word == "sub"@ {
        Some(Op::Sub)
    } else if word == "mul"@ {
        Some(Op::Mul)
    } else if word == "is_eql"@ {
        Some(Op::Equal)
    } else {
        None
    }
}

/// The instruction that one line stands for. A keyword that takes an operand
/// begins the line; its operand is the rest of the line without the
/// whitespace around it. A keyword that takes none is the whole line.
pub open spec fn decoded_line(line: Seq<char>) -> Result<Op, DecodeError> {
    if let Some(rest) = stripped(line, "push"@) {
        applied(Keyword::Push, trimmed(rest))
    } else if let Some(rest) = stripped(line, "const"@) {
        applied(Keyword::Push, trimmed(rest))
    } else if let Some(rest) = stripped(line, "label"@) {
        applied(Keyword::Label, trimmed(rest))
    } else if let Some(rest) = stripped(line, "jump"@) {
        applied(Keyword::Jump, trimmed(rest))
    } else if let Some(rest) = stripped(line, "jmp_if"@) {
        applied(Keyword::BrIf, trimmed(rest))
    } else {
        match plain(line) {
            Some(op) => Ok(op),
            None => Err(DecodeError::UnknownInstruction),
        }
    }
}

fn strip_prefix<'a>(line: &'a [char], keyword: &str) -> (rest: Option<&'a [char]>)
    ensures
        match rest {
            Some(r) => stripped(line@, keyword@) == Some(r@),
            None => stripped(line@, keyword@) is None,
        },
{
    if starts_with(line, keyword) {
        Some(slice_subrange(line, keyword.unicode_len(), line.len()))
    } else {
        None
    }
}

/// Makes the instruction of `keyword` and its operand text.
pub fn apply(keyword: Keyword, operand: &[char]) -> (r: Result<Instruction, DecodeError>)
    ensures
        match r {
            Ok(instruction) => applied(keyword, operand@) == Ok::<Op, DecodeError>(instruction@),
            Err(e) => applied(keyword, operand@) == Err::<Op, DecodeError>(e),
        },
{
    match keyword {
        Keyword::Push => match parse_integer(operand) {
            Some(value) => Ok(Instruction::Push(value)),
            None => Err(DecodeError::InvalidOperand),
        },
        _ => if operand.len() == 0 {
            Err(DecodeError::InvalidOperand)
        } else {
            let name = to_text(operand);
            match keyword {
                Keyword::Label => Ok(Instruction::Label(name)),
                Keyword::Jump => Ok(Instruction::Jump(name)),
                _ => Ok(Instruction::BrIf(name)),
            }
        },
    }
}

/// The instruction that `word` alone stands for, if any.
fn parse_plain(word: &[char]) -> (r: Option<Instruction>)
    ensures
        match r {
            Some(instruction) => plain(word@) == Some(instruction@),
            None => plain(word@) is None,
        },
{
    if is_word(word, "add") {
        Some(Instruction::Add)
    } else if is_word(word, "sub") {
        Some(Instruction::Sub)
    } else if is_word(word, "mul") {
        Some(Instruction::Mul)
    } else if is_word(word, "is_eql") {
        Some(Instruction::Equal)
    } else {
        None
    }
}

/// Decodes one line.
pub fn decode_line(line: &[char]) -> (r: Result<Instruction, DecodeError>)
    ensures
        match r {
            Ok(instruction) => decoded_line(line@) == Ok::<Op, DecodeError>(instruction@),
            Err(e) => decoded_line(line@) == Err::<Op, DecodeError>(e),
        },
{
    if let Some(rest) = strip_prefix(line, "push") {
        apply(Keyword::Push, trim(rest))
    } else if let Some(rest) = strip_prefix(line, "const") {
        apply(Keyword::Push, trim(rest))
    } else if let Some(rest) = strip_prefix(line, "label") {
        apply(Keyword::Label, trim(rest))
    } else if let Some(rest) = strip_prefix(line, "jump") {
        apply(Keyword::Jump, trim(rest))
    } else if let Some(rest) = strip_prefix(line, "jmp_if") {
        apply(Keyword::BrIf, trim(rest))
    } else {
        match parse_plain(line) {
            Some(instruction) => Ok(instruction),
            None => Err(DecodeError::UnknownInstruction),
        }
    }
}

/// How many characters stand before the first line feed of `s`, or in all
/// of `s` where it holds none.
pub open spec fn line_len(s: Seq<char>) -> nat
    decreases s.len(),
{
    if s.len() == 0 || s.first() == '\n' {
        0
    } else {
        1 + line_len(s.drop_first())
    }
}

/// `line` without the carriage return at its end, if it has one.
pub open spec fn without_cr(line: Seq<char>) -> Seq<char> {
    if line.len() > 0 && line.last() == '\r' {
        line.drop_last()
    } else {
        line
    }
}

/// The lines of `s`. A line ends with a line feed, or with a carriage return
/// and a line feed, neither of which belongs to it. What follows the last
/// line feed is a line of its own unless it is empty, and it keeps a carriage
/// return at its end.
pub open spec fn lines(s: Seq<char>) -> Seq<Seq<char>>
    decreases s.len(),
    via lines_decreases
{
    if s.len() == 0 {
        seq![]
    } else if line_len(s) == s.len() {
        seq![s]
    } else {
        seq![without_cr(s.take(line_len(s) as int))] + lines(s.skip(line_len(s) as int + 1))
    }
}

#[via_fn]
proof fn lines_decreases(s: Seq<char>) {
    lemma_line_len(s);
}

/// `line_len(s)` is the index of the first line feed of `s`, or the length
/// of `s` where there is none.
pub proof fn lemma_line_len(s: Seq<char>)
    ensures
        line_len(s) <= s.len(),
        line_len(s) < s.len() ==> s[line_len(s) as int] == '\n',
        forall|i: int| 0 <= i < line_len(s) ==> s[i] != '\n',
    decreases s.len(),
{
    if s.len() == 0 || s.first() == '\n' {
    } else {
        lemma_line_len(s.drop_first());
        assert forall|i: int| 0 <= i < line_len(s) implies s[i] != '\n' by {
            if i > 0 {
                assert(s[i] == s.drop_first()[i - 1]);
            }
        }
    }
}

/// `items` in front of what `rest` holds, or the error that `rest` is.
pub open spec fn prefixed(items: Seq<Op>, rest: Result<Seq<Op>, DecodeError>) -> Result<
    Seq<Op>,
    DecodeError,
> {
    match rest {
        Ok(more) => Ok(items + more),
        Err(e) => Err(e),
    }
}

/// The instructions that `lines` stand for, one for each line, in order; or
/// the error of the first line that stands for none.
pub open spec fn decoded_each(lines: Seq<Seq<char>>) -> Result<Seq<Op>, DecodeError>
    decreases lines.len(),
{
    if lines.len() == 0 {
        Ok(seq![])
    } else {
        match decoded_line(lines.first()) {
            Ok(op) => prefixed(seq![op], decoded_each(lines.drop_first())),
            Err(e) => Err(e),
        }
    }
}

/// The characters of each of `parts`, in order.
pub open spec fn texts(parts: Seq<&[char]>) -> Seq<Seq<char>> {
    parts.map_values(|part: &[char]| part@)
}

/// Splits `source` into its lines.
pub fn split_lines<'a>(source: &'a [char]) -> (parts: Vec<&'a [char]>)
    ensures
        texts(parts@) == lines(source@),
{
    let mut parts: Vec<&'a [char]> = Vec::new();
    let mut pos: usize = 0;
    assert(source@.skip(0) == source@);
    while pos < source.len()
        invariant
            pos <= source.len(),
            lines(source@) == texts(parts@) + lines(source@.skip(pos as int)),
        decreases source.len() - pos,
    {
        let ghost rest = source@.skip(pos as int);
        let mut end: usize = pos;
        assert(rest.skip(0) == rest);
        while end < source.len() && source[end] != '\n'
            invariant
                pos <= end <= source.len(),
                rest == source@.skip(pos as int),
                line_len(rest) == (end - pos) + line_len(rest.skip(end - pos)),
            decreases source.len() - end,
        {
            assert(rest.skip(end - pos).drop_first() == rest.skip(end + 1 - pos));
            end += 1;
        }
        assert(line_len(rest) == end - pos);
        assert(rest.take(end - pos) == source@.subrange(pos as int, end as int));
        let ghost before = texts(parts@);
        if end == source.len() {
            parts.push(slice_subrange(source, pos, end));
            assert(rest.take(end - pos) == rest);
            assert(lines(source@.skip(end as int)) == Seq::<Seq<char>>::empty());
            assert(texts(parts@) == before + seq![rest]);
            pos = end;
        } else {
            let line = slice_subrange(source, pos, end);
            if line.len() > 0 && line[line.len() - 1] == '\r' {
                parts.push(slice_subrange(line, 0, line.len() - 1));
                assert(line@.subrange(0, line@.len() - 1) == line@.drop_last());
            } else {
                parts.push(line);
            }
            assert(rest.skip(end - pos + 1) == source@.skip(end + 1));
            assert(texts(parts@) == before + seq![without_cr(line@)]);
            pos = end + 1;
        }
    }
    assert(lines(source@.skip(pos as int)) == Seq::<Seq<char>>::empty());
    parts
}

proof fn lemma_prefixed_step(done: Seq<Op>, op: Op, rest: Result<Seq<Op>, DecodeError>)
    ensures
        prefixed(done, prefixed(seq![op], rest)) == prefixed(done.push(op), rest),
{
    if let Ok(more) = rest {
        assert(done + (seq![op] + more) == done.push(op) + more);
    }
}

proof fn lemma_prefixed_none(rest: Result<Seq<Op>, DecodeError>)
    ensures
        prefixed(Seq::empty(), rest) == rest,
{
    if let Ok(more) = rest {
        assert(Seq::<Op>::empty() + more == more);
    }
}

/// Decodes a text of one instruction per line.
pub fn decode_lines(source: &[char]) -> (r: Result<Vec<Instruction>, DecodeError>)
    ensures
        holds(r, decoded_each(lines(source@))),
{
    let parts = split_lines(source);
    let mut instructions: Vec<Instruction> = Vec::new();
    let mut k: usize = 0;
    assert(texts(parts@).skip(0) == texts(parts@));
    proof {
        lemma_prefixed_none(decoded_each(texts(parts@)));
    }
    while k < parts.len()
        invariant
            k <= parts.len(),
            texts(parts@) == lines(source@),
            decoded_each(texts(parts@)) == prefixed(
                program(instructions@),
                decoded_each(texts(parts@).skip(k as int)),
            ),
        decreases parts.len() - k,
    {
        let ghost rest = texts(parts@).skip(k as int);
        let ghost done = program(instructions@);
        assert(rest.first() == parts@[k as int]@);
        assert(rest.drop_first() == texts(parts@).skip(k + 1));
        match decode_line(parts[k]) {
            Ok(instruction) => {
                proof {
                    lemma_prefixed_step(done, instruction@, decoded_each(rest.drop_first()));
                }
                instructions.push(instruction);
                assert(program(instructions@) == done.push(instruction@));
            },
            Err(e) => {
                return Err(e);
            },
        }
        k += 1;
    }
    assert(program(instructions@) + Seq::<Op>::empty() == program(instructions@));
    Ok(instructions)
}

/// How many characters stand before the first whitespace of `s`, or in all
/// of `s` where it holds none.
pub open spec fn token_len(s: Seq<char>) -> nat
    decreases s.len(),
{
    if s.len() == 0 || whitespace(s.first()) {
        0
    } else {
        1 + token_len(s.drop_first())
    }
}

/// The tokens of `s`: its longest runs of characters other than whitespace,
/// in order.
pub open spec fn tokens(s: Seq<char>) -> Seq<Seq<char>>
    decreases s.len(),
    via tokens_decreases
{
    if s.len() == 0 {
        seq![]
    } else if whitespace(s.first()) {
        tokens(s.drop_first())
    } else {
        seq![s.take(token_len(s) as int)] + tokens(s.skip(token_len(s) as int))
    }
}

#[via_fn]
proof fn tokens_decreases(s: Seq<char>) {
    lemma_token_len(s);
}

/// `token_len(s)` is the index of the first whitespace of `s`, or the length
/// of `s` where there is none.
pub proof fn lemma_token_len(s: Seq<char>)
    ensures
        token_len(s) <= s.len(),
        token_len(s) < s.len() ==> whitespace(s[token_len(s) as int]),
        forall|i: int| 0 <= i < token_len(s) ==> !whitespace(s[i]),
    decreases s.len(),
{
    if s.len() == 0 || whitespace(s.first()) {
    } else {
        lemma_token_len(s.drop_first());
        assert forall|i: int| 0 <= i < token_len(s) implies !whitespace(s[i]) by {
            if i > 0 {
                assert(s[i] == s.drop_first()[i - 1]);
            }
        }
    }
}

/// The instructions that `tokens` stand for, in order: a keyword that takes
/// an operand with the token behind it, any other instruction alone. Or the
/// error of the first token that begins no instruction, or whose operand is
/// missing or not what the keyword takes.
pub open spec fn decoded_tokens(tokens: Seq<Seq<char>>) -> Result<Seq<Op>, DecodeError>
    decreases tokens.len(),
{
    if tokens.len() == 0 {
        Ok(seq![])
    } else {
        match keyword(tokens.first()) {
            Some(keyword) => if tokens.len() < 2 {
                Err(DecodeError::InvalidOperand)
            } else {
                match applied(keyword, tokens[1]) {
                    Ok(op) => prefixed(seq![op], decoded_tokens(tokens.skip(2))),
                    Err(e) => Err(e),
                }
            },
            None => match plain(tokens.first()) {
                Some(op) => prefixed(seq![op], decoded_tokens(tokens.drop_first())),
                None => Err(DecodeError::UnknownInstruction),
            },
        }
    }
}

/// Splits `source` into its tokens.
pub fn split_tokens<'a>(source: &'a [char]) -> (parts: Vec<&'a [char]>)
    ensures
        texts(parts@) == tokens(source@),
{
    let mut parts: Vec<&'a [char]> = Vec::new();
    let mut pos: usize = 0;
    assert(source@.skip(0) == source@);
    while pos < source.len()
        invariant
            pos <= source.len(),
            tokens(source@) == texts(parts@) + tokens(source@.skip(pos as int)),
        decreases source.len() - pos,
    {
        let ghost rest = source@.skip(pos as int);
        if is_whitespace(source[pos]) {
            assert(rest.drop_first() == source@.skip(pos + 1));
            pos += 1;
        } else {
            let mut end: usize = pos;
            assert(rest.skip(0) == rest);
            while end < source.len() && !is_whitespace(source[end])
                invariant
                    pos <= end <= source.len(),
                    rest == source@.skip(pos as int),
                    token_len(rest) == (end - pos) + token_len(rest.skip(end - pos)),
                decreases source.len() - end,
            {
                assert(rest.skip(end - pos).drop_first() == rest.skip(end + 1 - pos));
                end += 1;
            }
            assert(token_len(rest) == end - pos);
            assert(rest.take(end - pos) == source@.subrange(pos as int, end as int));
            assert(rest.skip(end - pos) == source@.skip(end as int));
            let ghost before = texts(parts@);
            parts.push(slice_subrange(source, pos, end));
            assert(texts(parts@) == before + seq![rest.take(end - pos)]);
            pos = end;
        }
    }
    assert(tokens(source@.skip(pos as int)) == Seq::<Seq<char>>::empty());
    parts
}

/// The keyword that `word` is, if it is one that takes an operand.
fn parse_keyword(word: &[char]) -> (r: Option<Keyword>)
    ensures
        r == keyword(word@),
{
    if is_word(word, "push") || is_word(word, "const") {
        Some(Keyword::Push)
    } else if is_word(word, "label") {
        Some(Keyword::Label)
    } else if is_word(word, "jump") {
        Some(Keyword::Jump)
    } else if is_word(word, "jmp_if") {
        Some(Keyword::BrIf)
    } else {
        None
    }
}

/// Decodes a text of tokens that whitespace separates.
pub fn decode_tokens(source: &[char]) -> (r: Result<Vec<Instruction>, DecodeError>)
    ensures
        holds(r, decoded_tokens(tokens(source@))),
{
    let parts = split_tokens(source);
    let mut instructions: Vec<Instruction> = Vec::new();
    let mut k: usize = 0;
    assert(texts(parts@).skip(0) == texts(parts@));
    proof {
        lemma_prefixed_none(decoded_tokens(texts(parts@)));
    }
    while k < parts.len()
        invariant
            k <= parts.len(),
            texts(parts@) == tokens(source@),
            decoded_tokens(texts(parts@)) == prefixed(
                program(instructions@),
                decoded_tokens(texts(parts@).skip(k as int)),
            ),
        decreases parts.len() - k,
    {
        let ghost rest = texts(parts@).skip(k as int);
        let ghost done = program(instructions@);
        assert(rest.first() == parts@[k as int]@);
        match parse_keyword(parts[k]) {
            Some(keyword) => {
                if k + 1 == parts.len() {
                    return Err(DecodeError::InvalidOperand);
                }
                assert(rest[1] == parts@[k + 1]@);
                assert(rest.skip(2) == texts(parts@).skip(k + 2));
                match apply(keyword, parts[k + 1]) {
                    Ok(instruction) => {
                        proof {
                            lemma_prefixed_step(
                                done,
                                instruction@,
                                decoded_tokens(rest.skip(2)),
                            );
                        }
                        instructions.push(instruction);
                        assert(program(instructions@) == done.push(instruction@));
                    },
                    Err(e) => {
                        return Err(e);
                    },
                }
                k += 2;
            },
            None => {
                assert(rest.drop_first() == texts(parts@).skip(k + 1));
                match parse_plain(parts[k]) {
                    Some(instruction) => {
                        proof {
                            lemma_prefixed_step(
                                done,
                                instruction@,
                                decoded_tokens(rest.drop_first()),
                            );
                        }
                        instructions.push(instruction);
                        assert(program(instructions@) == done.push(instruction@));
                    },
                    None => {
                        return Err(DecodeError::UnknownInstruction);
                    },
                }
                k += 1;
            },
        }
    }
    assert(program(instructions@) + Seq::<Op>::empty() == program(instructions@));
    Ok(instructions)
}

/// What `source` stands for in `dialect`: its instructions in the order of
/// the text, or the error of the first part of it that stands for none.
pub open spec fn decoded(source: Seq<char>, dialect: Dialect) -> Result<Seq<Op>, DecodeError> {
    match dialect {
        Dialect::Lines => decoded_each(lines(source)),
        Dialect::Tokens => decoded_tokens(tokens(source)),
    }
}

/// Decodes `source`, which is written in `dialect`. The result depends on
/// the text and the dialect alone. It is the whole sequence or an error:
/// no part of a text with a fault in it is decoded.
pub fn decode(source: &str, dialect: Dialect) -> (r: Result<Vec<Instruction>, DecodeError>)
    ensures
        holds(r, decoded(source@, dialect)),
{
    let chars = to_chars(source);
    match dialect {
        Dialect::Lines => decode_lines(chars.as_slice()),
        Dialect::Tokens => decode_tokens(chars.as_slice()),
    }
}

/// Decoding is a function of the text. Two results of decoding the same
/// text in the same dialect are the same error, or they are two sequences
/// of the same instructions.
pub proof fn lemma_decode_deterministic(
    first: Result<Vec<Instruction>, DecodeError>,
    second: Result<Vec<Instruction>, DecodeError>,
    source: Seq<char>,
    dialect: Dialect,
)
    requires
        holds(first, decoded(source, dialect)),
        holds(second, decoded(source, dialect)),
    ensures
        match (first, second) {
            (Ok(a), Ok(b)) => program(a@) == program(b@),
            (Err(e), Err(f)) => e == f,
            _ => false,
        },
{
}

/// Lines are decoded one by one and in order. Where every line stands for
/// an instruction, the result holds the instruction of each line at the
/// place of that line. Otherwise the result is the error of the first line
/// that stands for none.
pub proof fn lemma_decoded_each(lines: Seq<Seq<char>>)
    ensures
        match decoded_each(lines) {
            Ok(ops) => ops.len() == lines.len() && forall|i: int|
                0 <= i < lines.len() ==> decoded_line(#[trigger] lines[i]) == Ok::<
                    Op,
                    DecodeError,
                >(ops[i]),
            Err(e) => exists|i: int|
                0 <= i < lines.len() && decoded_line(#[trigger] lines[i]) == Err::<
                    Op,
                    DecodeError,
                >(e) && forall|j: int| 0 <= j < i ==> decoded_line(#[trigger] lines[j]) is Ok,
        },
    decreases lines.len(),
{
    if lines.len() > 0 {
        let rest = lines.drop_first();
        lemma_decoded_each(rest);
        assert(forall|i: int| 0 < i < lines.len() ==> lines[i] == rest[i - 1]);
        if let Ok(op) = decoded_line(lines.first()) {
            match decoded_each(rest) {
                Ok(more) => {
                    let ops = seq![op] + more;
                    assert forall|i: int| 0 <= i < lines.len() implies decoded_line(
                        #[trigger] lines[i],
                    ) == Ok::<Op, DecodeError>(ops[i]) by {
                        if i > 0 {
                            assert(lines[i] == rest[i - 1]);
                            assert(ops[i] == more[i - 1]);
                        }
                    }
                },
                Err(e) => {
                    let k = choose|i: int|
                        0 <= i < rest.len() && decoded_line(#[trigger] rest[i]) == Err::<
                            Op,
                            DecodeError,
                        >(e) && forall|j: int|
                            0 <= j < i ==> decoded_line(#[trigger] rest[j]) is Ok;
                    assert(lines[k + 1] == rest[k]);
                    assert forall|j: int| 0 <= j < k + 1 implies decoded_line(
                        #[trigger] lines[j],
                    ) is Ok by {
                        if j > 0 {
                            assert(lines[j] == rest[j - 1]);
                        }
                    }
                },
            }
        } else {
            assert(lines[0] == lines.first());
        }
    }
}

/// Decoding is all or nothing. A text of which one line stands for no
/// instruction stands for no sequence, whatever its other lines hold.
pub proof fn lemma_malformed_line_fails(source: Seq<char>, i: int)
    requires
        0 <= i < lines(source).len(),
        decoded_line(lines(source)[i]) is Err,
    ensures
        decoded(source, Dialect::Lines) is Err,
{
    lemma_decoded_each(lines(source));
}

} // verus!
