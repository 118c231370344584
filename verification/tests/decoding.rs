use sbir::decoder::{
    apply, decode_line, decode_lines, decode_tokens, split_lines, split_tokens, Keyword,
};
use sbir::{decode, Compiler, DecodeError, Dialect, Instruction};

fn chars(text: &str) -> Vec<char> {
    text.chars().collect()
}

fn label(name: &str) -> Instruction {
    Instruction::Label(name.to_string())
}

fn jump(name: &str) -> Instruction {
    Instruction::Jump(name.to_string())
}

fn br_if(name: &str) -> Instruction {
    Instruction::BrIf(name.to_string())
}

#[test]
fn three_lines_decode_to_three_instructions() {
    let expected = vec![Instruction::Push(2), Instruction::Push(3), Instruction::Add];
    assert_eq!(decode("push 2\npush 3\nadd", Dialect::Lines), Ok(expected.clone()));
    assert_eq!(Compiler::parse_ir("push 2\npush 3\nadd"), Ok(expected));
}

#[test]
fn a_missing_push_is_no_fault_of_the_text() {
    assert_eq!(
        decode("push 2\nsub", Dialect::Lines),
        Ok(vec![Instruction::Push(2), Instruction::Sub])
    );
}

#[test]
fn one_malformed_line_fails_the_whole_text() {
    assert_eq!(decode("push abc", Dialect::Lines), Err(DecodeError::InvalidOperand));
    assert_eq!(
        decode("push 1\npush abc\nadd", Dialect::Lines),
        Err(DecodeError::InvalidOperand)
    );
    assert_eq!(
        decode("push 1\npush 2\nadd\nfrobnicate", Dialect::Lines),
        Err(DecodeError::UnknownInstruction)
    );
    assert_eq!(
        decode("frobnicate\npush 1\npush 2\nadd", Dialect::Lines),
        Err(DecodeError::UnknownInstruction)
    );
}

#[test]
fn the_first_fault_is_reported() {
    assert_eq!(decode("bogus\npush x", Dialect::Lines), Err(DecodeError::UnknownInstruction));
    assert_eq!(decode("push x\nbogus", Dialect::Lines), Err(DecodeError::InvalidOperand));
    assert_eq!(decode("bogus push", Dialect::Tokens), Err(DecodeError::UnknownInstruction));
    assert_eq!(decode("push x bogus", Dialect::Tokens), Err(DecodeError::InvalidOperand));
}

#[test]
fn decoding_twice_gives_the_same_result() {
    let text = "label start\npush -7\njmp_if start\nis_eql\n";
    assert_eq!(decode(text, Dialect::Lines), decode(text, Dialect::Lines));
    assert_eq!(decode(text, Dialect::Tokens), decode(text, Dialect::Tokens));
    assert_eq!(decode("nonsense", Dialect::Lines), decode("nonsense", Dialect::Lines));
}

#[test]
fn empty_text_is_an_empty_program() {
    assert_eq!(decode("", Dialect::Lines), Ok(vec![]));
    assert_eq!(decode("", Dialect::Tokens), Ok(vec![]));
    assert_eq!(decode(" \n\t ", Dialect::Tokens), Ok(vec![]));
}

#[test]
fn every_keyword_decodes() {
    let text = "push 1\nconst 2\nadd\nsub\nmul\nis_eql\nlabel a\njump b\njmp_if c";
    let expected = vec![
        Instruction::Push(1),
        Instruction::Push(2),
        Instruction::Add,
        Instruction::Sub,
        Instruction::Mul,
        Instruction::Equal,
        label("a"),
        jump("b"),
        br_if("c"),
    ];
    assert_eq!(decode(text, Dialect::Lines), Ok(expected.clone()));
    assert_eq!(decode(text, Dialect::Tokens), Ok(expected));
}

#[test]
fn instructions_keep_the_order_of_the_text() {
    assert_eq!(
        decode("mul\nadd\nsub\nadd", Dialect::Lines),
        Ok(vec![Instruction::Mul, Instruction::Add, Instruction::Sub, Instruction::Add])
    );
}

#[test]
fn line_endings() {
    let expected = Ok(vec![Instruction::Push(1), Instruction::Add]);
    assert_eq!(decode("push 1\nadd\n", Dialect::Lines), expected);
    assert_eq!(decode("push 1\r\nadd\r\n", Dialect::Lines), expected);
    assert_eq!(decode("push 1\r\nadd", Dialect::Lines), expected);
    // An operand is trimmed, so a carriage return behind it does no harm.
    assert_eq!(decode("add\npush 1\r", Dialect::Lines), Ok(vec![Instruction::Add, Instruction::Push(1)]));
    // A keyword without operand is the whole line.
    assert_eq!(decode("push 1\nadd\r", Dialect::Lines), Err(DecodeError::UnknownInstruction));
    assert_eq!(decode("push 1\nadd\r\r\n", Dialect::Lines), Err(DecodeError::UnknownInstruction));
}

#[test]
fn an_empty_line_is_no_instruction() {
    assert_eq!(decode("\n", Dialect::Lines), Err(DecodeError::UnknownInstruction));
    assert_eq!(decode("push 1\n\nadd", Dialect::Lines), Err(DecodeError::UnknownInstruction));
    assert_eq!(decode("push 1\nadd\n\n", Dialect::Lines), Err(DecodeError::UnknownInstruction));
}

#[test]
fn a_plain_keyword_is_the_whole_line() {
    assert_eq!(decode("add ", Dialect::Lines), Err(DecodeError::UnknownInstruction));
    assert_eq!(decode(" add", Dialect::Lines), Err(DecodeError::UnknownInstruction));
    assert_eq!(decode("adds", Dialect::Lines), Err(DecodeError::UnknownInstruction));
    assert_eq!(decode("ad", Dialect::Lines), Err(DecodeError::UnknownInstruction));
    assert_eq!(decode("ADD", Dialect::Lines), Err(DecodeError::UnknownInstruction));
    assert_eq!(decode(" add  ", Dialect::Tokens), Ok(vec![Instruction::Add]));
}

#[test]
fn an_operand_is_trimmed() {
    assert_eq!(decode("push    42  ", Dialect::Lines), Ok(vec![Instruction::Push(42)]));
    assert_eq!(decode("push\t42", Dialect::Lines), Ok(vec![Instruction::Push(42)]));
    assert_eq!(decode("push42", Dialect::Lines), Ok(vec![Instruction::Push(42)]));
    assert_eq!(decode("push\u{a0}42\u{3000}", Dialect::Lines), Ok(vec![Instruction::Push(42)]));
    assert_eq!(decode("label   loop  ", Dialect::Lines), Ok(vec![label("loop")]));
    assert_eq!(decode("labelloop", Dialect::Lines), Ok(vec![label("loop")]));
    assert_eq!(decode("jump\u{2003}out\u{85}", Dialect::Lines), Ok(vec![jump("out")]));
    assert_eq!(decode("label two words", Dialect::Lines), Ok(vec![label("two words")]));
    assert_eq!(decode(" push 1", Dialect::Lines), Err(DecodeError::UnknownInstruction));
}

#[test]
fn integer_operands() {
    assert_eq!(decode("push 0", Dialect::Lines), Ok(vec![Instruction::Push(0)]));
    assert_eq!(decode("push -0", Dialect::Lines), Ok(vec![Instruction::Push(0)]));
    assert_eq!(decode("push +17", Dialect::Lines), Ok(vec![Instruction::Push(17)]));
    assert_eq!(decode("push -17", Dialect::Lines), Ok(vec![Instruction::Push(-17)]));
    assert_eq!(decode("push 007", Dialect::Lines), Ok(vec![Instruction::Push(7)]));
    assert_eq!(
        decode("push 9223372036854775807", Dialect::Lines),
        Ok(vec![Instruction::Push(i64::MAX)])
    );
    assert_eq!(
        decode("push -9223372036854775808", Dialect::Lines),
        Ok(vec![Instruction::Push(i64::MIN)])
    );
    assert_eq!(
        decode("push 0000000000000000000000000009223372036854775807", Dialect::Lines),
        Ok(vec![Instruction::Push(i64::MAX)])
    );
}

#[test]
fn operands_that_are_no_integers() {
    for text in [
        "push",
        "push ",
        "push -",
        "push +",
        "push +-1",
        "push 1 2",
        "push 1_000",
        "push 0x10",
        "push 1.5",
        "push one",
        "push 9223372036854775808",
        "push -9223372036854775809",
        "push 99999999999999999999999999999999999999999999",
        "push \u{663}",
        "const",
        "const x",
        "constant 5",
    ] {
        assert_eq!(decode(text, Dialect::Lines), Err(DecodeError::InvalidOperand), "{}", text);
    }
}

#[test]
fn a_name_is_not_empty() {
    for text in ["label", "label ", "jump", "jump   ", "jmp_if", "jmp_if\t"] {
        assert_eq!(decode(text, Dialect::Lines), Err(DecodeError::InvalidOperand), "{}", text);
    }
}

#[test]
fn names_keep_their_characters() {
    assert_eq!(
        decode("label \u{3bb}_1\njump \u{3bb}_1", Dialect::Lines),
        Ok(vec![label("\u{3bb}_1"), jump("\u{3bb}_1")])
    );
    assert_eq!(
        decode("jmp_if .L0$", Dialect::Tokens),
        Ok(vec![br_if(".L0$")])
    );
}

#[test]
fn tokens_are_separated_by_any_whitespace() {
    let expected = Ok(vec![Instruction::Push(2), Instruction::Push(3), Instruction::Add]);
    assert_eq!(decode("push 2 push 3 add", Dialect::Tokens), expected);
    assert_eq!(decode("push 2\npush 3\nadd", Dialect::Tokens), expected);
    assert_eq!(decode("  push\n2\t\tpush\r\n3 \u{2003}add\n", Dialect::Tokens), expected);
    assert_eq!(decode("const 2 const 3 add", Dialect::Tokens), expected);
}

#[test]
fn a_token_is_a_whole_word() {
    assert_eq!(decode("push5", Dialect::Tokens), Err(DecodeError::UnknownInstruction));
    assert_eq!(decode("2 3 add", Dialect::Tokens), Err(DecodeError::UnknownInstruction));
    assert_eq!(decode("labelx", Dialect::Tokens), Err(DecodeError::UnknownInstruction));
}

#[test]
fn a_keyword_needs_its_operand_token() {
    assert_eq!(decode("push", Dialect::Tokens), Err(DecodeError::InvalidOperand));
    assert_eq!(decode("add push", Dialect::Tokens), Err(DecodeError::InvalidOperand));
    assert_eq!(decode("label", Dialect::Tokens), Err(DecodeError::InvalidOperand));
    assert_eq!(decode("push add", Dialect::Tokens), Err(DecodeError::InvalidOperand));
    assert_eq!(decode("push 1 jump", Dialect::Tokens), Err(DecodeError::InvalidOperand));
    // A name may look like a keyword.
    assert_eq!(decode("jump add", Dialect::Tokens), Ok(vec![jump("add")]));
    assert_eq!(decode("label push", Dialect::Tokens), Ok(vec![label("push")]));
}

#[test]
fn the_dialects_differ() {
    assert_eq!(decode("push 1 push 2", Dialect::Lines), Err(DecodeError::InvalidOperand));
    assert_eq!(
        decode("push 1 push 2", Dialect::Tokens),
        Ok(vec![Instruction::Push(1), Instruction::Push(2)])
    );
    assert_eq!(decode("label a b", Dialect::Lines), Ok(vec![label("a b")]));
    assert_eq!(decode("label a b", Dialect::Tokens), Err(DecodeError::UnknownInstruction));
}

#[test]
fn lines_are_split_as_the_standard_library_splits_them() {
    for text in [
        "", "a", "a\n", "a\nb", "\n", "\n\n", "a\n\n", "a\r\n", "a\r", "\r\n", "\r", "a\r\r\n",
        "a\rb\nc", "\n\r\n\r", "push 1\r\nadd\r\n\r\n", "\u{3bb}\n\u{2028}x\n",
    ] {
        let source = chars(text);
        let mine: Vec<Vec<char>> = split_lines(&source).into_iter().map(|l| l.to_vec()).collect();
        let theirs: Vec<Vec<char>> = text.lines().map(chars).collect();
        assert_eq!(mine, theirs, "{:?}", text);
    }
}

#[test]
fn tokens_are_split_as_the_standard_library_splits_them() {
    for text in [
        "", " ", "a", " a", "a ", " a b  c ", "\ta\n\nb\r\nc", "a\u{a0}b\u{3000}c\u{2009}d",
        "\u{200b}x", "push 2 push 3 add",
    ] {
        let source = chars(text);
        let mine: Vec<Vec<char>> = split_tokens(&source).into_iter().map(|l| l.to_vec()).collect();
        let theirs: Vec<Vec<char>> = text.split_whitespace().map(chars).collect();
        assert_eq!(mine, theirs, "{:?}", text);
    }
}

#[test]
fn the_parts_of_the_decoder() {
    assert_eq!(decode_line(&chars("push 5")), Ok(Instruction::Push(5)));
    assert_eq!(decode_line(&chars("")), Err(DecodeError::UnknownInstruction));
    assert_eq!(decode_lines(&chars("add\nsub")), Ok(vec![Instruction::Add, Instruction::Sub]));
    assert_eq!(decode_tokens(&chars("add sub")), Ok(vec![Instruction::Add, Instruction::Sub]));
    assert_eq!(apply(Keyword::Push, &chars("12")), Ok(Instruction::Push(12)));
    assert_eq!(apply(Keyword::Push, &chars(" 12")), Err(DecodeError::InvalidOperand));
    assert_eq!(apply(Keyword::Label, &chars("x")), Ok(label("x")));
    assert_eq!(apply(Keyword::Jump, &chars("x")), Ok(jump("x")));
    assert_eq!(apply(Keyword::BrIf, &chars("x")), Ok(br_if("x")));
    assert_eq!(apply(Keyword::BrIf, &chars("")), Err(DecodeError::InvalidOperand));
}

#[test]
fn an_instruction_can_be_copied() {
    for instruction in [Instruction::Push(-3), Instruction::Equal, label("a"), br_if("b")] {
        assert_eq!(instruction.clone(), instruction);
    }
}
