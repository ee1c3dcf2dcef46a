use twostack::assembler::assemble;
use twostack::codegen::{generate, AsmError};
use twostack::input::ScriptedInput;
use twostack::lexer::tokenize;
use twostack::machine::Computer;
use twostack::token::{BinaryOp, Target, Token, UnaryOp};

fn compile(source: &str) -> Result<String, AsmError> {
    assemble(source.as_bytes()).map(|code| String::from_utf8(code).unwrap())
}

fn run_with(primary: &[u8], secondary: &[u8], tape: &[u8]) -> Computer<u8> {
    let mut machine: Computer<u8> = Computer::new(tape);
    machine.primary = primary.to_vec();
    machine.secondary = secondary.to_vec();
    let mut source = ScriptedInput::new(Vec::new());
    let mut output = String::new();
    assert_eq!(machine.run(&mut source, &mut output, 10_000), Ok(()));
    machine
}

#[test]
fn push_and_print_round_trip() {
    let code = assemble(b"push #65 out").unwrap();
    assert_eq!(code, b"#41;".to_vec());
    let mut machine: Computer<u8> = Computer::new(&code);
    let mut source = ScriptedInput::new(Vec::new());
    let mut output = String::new();
    assert_eq!(machine.run(&mut source, &mut output, 100), Ok(()));
    assert_eq!(output, "A");
}

#[test]
fn hex_literal_passes_through() {
    assert_eq!(compile("push $41 out"), Ok("#41;".to_string()));
    assert_eq!(compile("push $aB"), Ok("#aB".to_string()));
}

#[test]
fn add_of_primary_operands_needs_no_shuffle() {
    assert_eq!(compile("add p1 p2"), Ok("+".to_string()));
    assert_eq!(compile("add p2 p1"), Ok("+".to_string()));
    assert_eq!(compile("add"), Ok("+".to_string()));
}

#[test]
fn add_fetches_from_secondary() {
    let code = assemble(b"add s1 p1").unwrap();
    assert_eq!(code, b"X}x{X}X{X+".to_vec());
    let machine = run_with(&[3], &[5], &code);
    assert_eq!(machine.primary, vec![8]);
    assert!(machine.secondary.is_empty());
    assert_eq!(machine.cell, 0);
}

#[test]
fn symmetric_table() {
    assert_eq!(compile("mul p1 s1"), Ok("X}x{X}X{X*".to_string()));
    assert_eq!(compile("mul p1 s2"), Ok("Xx}x{X}X{X*".to_string()));
    assert_eq!(compile("mul p2 s1"), Ok("xX}x{X}X{X*".to_string()));
    assert_eq!(compile("mul p2 s2"), Ok("xXx}x{X}X{X*".to_string()));
    assert_eq!(compile("mul s1 p2"), Ok("xX}x{X}X{X*".to_string()));
    assert_eq!(compile("mul s2 p1"), Ok("Xx}x{X}X{X*".to_string()));
    assert_eq!(compile("mul s2 p2"), Ok("xXx}x{X}X{X*".to_string()));
    assert_eq!(compile("mul s1 s2"), Ok("X*}x{X}X{X".to_string()));
    assert_eq!(compile("mul s2 s1"), Ok("X*}x{X}X{X".to_string()));
    assert_eq!(compile("and p1 #1"), Ok("#01&".to_string()));
    assert_eq!(compile("or p2 #1"), Ok("x#01|".to_string()));
    assert_eq!(compile("xor s1 #1"), Ok("X}x{X}X{X#01^".to_string()));
    assert_eq!(compile("eq s2 #1"), Ok("Xx}x{X}X{X#01=".to_string()));
    assert_eq!(compile("add #1 p1"), Ok("#01+".to_string()));
    assert_eq!(compile("add #1 p2"), Ok("x#01+".to_string()));
    assert_eq!(compile("add #1 s1"), Ok("X}x{X}X{X#01+".to_string()));
    assert_eq!(compile("add #1 s2"), Ok("Xx}x{X}X{X#01+".to_string()));
    assert_eq!(compile("add #1 #2"), Ok("#02#01+".to_string()));
    assert_eq!(compile("add #1"), Ok("#01+".to_string()));
    assert_eq!(compile("add p2"), Ok("+".to_string()));
    assert_eq!(compile("add s1"), Ok("X}x{X}X{X+".to_string()));
    assert_eq!(compile("add s2"), Ok("Xx}x{X}X{X+".to_string()));
}

#[test]
fn asymmetric_table() {
    assert_eq!(compile("sub p1 p2"), Ok("-".to_string()));
    assert_eq!(compile("sub p2 p1"), Ok("x-".to_string()));
    assert_eq!(compile("sub p1 s1"), Ok("X}x{X}X{Xx-".to_string()));
    assert_eq!(compile("sub p1 s2"), Ok("Xx}x{X}X{Xx-".to_string()));
    assert_eq!(compile("sub p2 s1"), Ok("xX}x{X}X{Xx-".to_string()));
    assert_eq!(compile("sub p2 s2"), Ok("xXx}x{X}X{Xx-".to_string()));
    assert_eq!(compile("sub s1 p1"), Ok("X}x{X}X{X-".to_string()));
    assert_eq!(compile("sub s1 p2"), Ok("xX}x{X}X{X-".to_string()));
    assert_eq!(compile("sub s2 p1"), Ok("Xx}x{X}X{X-".to_string()));
    assert_eq!(compile("sub s2 p2"), Ok("xXx}x{X}X{X-".to_string()));
    assert_eq!(compile("sub s1 s2"), Ok("X-}x{X}X{X".to_string()));
    assert_eq!(compile("sub s2 s1"), Ok("Xx-}x{X}X{X".to_string()));
    assert_eq!(compile("div p1 #2"), Ok("#02x/".to_string()));
    assert_eq!(compile("div p2 #2"), Ok("x#02x/".to_string()));
    assert_eq!(compile("mod s1 #2"), Ok("X}x{X}X{X#02x%".to_string()));
    assert_eq!(compile("lt s2 #2"), Ok("Xx}x{X}X{X#02x<".to_string()));
    assert_eq!(compile("gt #2 p1"), Ok("#02>".to_string()));
    assert_eq!(compile("gt #2 p2"), Ok("x#02>".to_string()));
    assert_eq!(compile("gt #2 s1"), Ok("X}x{X}X{X#02>".to_string()));
    assert_eq!(compile("gt #2 s2"), Ok("Xx}x{X}X{X#02>".to_string()));
    assert_eq!(compile("sub #1 #2"), Ok("#02#01-".to_string()));
    assert_eq!(compile("sub #1"), Ok("#01x-".to_string()));
    assert_eq!(compile("sub p2"), Ok("-".to_string()));
    assert_eq!(compile("sub s1"), Ok("X}x{X}X{Xx-".to_string()));
    assert_eq!(compile("sub s2"), Ok("Xx}x{X}X{Xx-".to_string()));
    assert_eq!(compile("sub"), Ok("-".to_string()));
}

#[test]
fn subtraction_takes_the_named_operands_in_order() {
    // primary [.., p2, p1] = [20, 9], secondary [.., s2, s1] = [50, 4]
    let cases: [(&str, u8, &[u8], &[u8]); 12] = [
        ("sub p1 p2", 245, &[], &[50, 4]),
        ("sub p2 p1", 11, &[], &[50, 4]),
        ("sub p1 s1", 5, &[20], &[50]),
        ("sub s1 p1", 251, &[20], &[50]),
        ("sub p1 s2", 215, &[20], &[4]),
        ("sub s2 p1", 41, &[20], &[4]),
        ("sub p2 s1", 16, &[9], &[50]),
        ("sub s1 p2", 240, &[9], &[50]),
        ("sub p2 s2", 226, &[9], &[4]),
        ("sub s2 p2", 30, &[9], &[4]),
        ("sub s1 s2", 210, &[20, 9], &[]),
        ("sub s2 s1", 46, &[20, 9], &[]),
    ];
    for (source, value, primary, secondary) in cases {
        let code = assemble(source.as_bytes()).unwrap();
        let machine = run_with(&[20, 9], &[50, 4], &code);
        let mut expected = primary.to_vec();
        expected.push(value);
        assert_eq!(machine.primary, expected, "{}", source);
        assert_eq!(machine.secondary, secondary.to_vec(), "{}", source);
        assert_eq!(machine.cell, 0, "{}", source);
    }
}

#[test]
fn same_operand_twice_is_an_error() {
    let ops = [
        ("add", BinaryOp::Add),
        ("sub", BinaryOp::Subtract),
        ("mul", BinaryOp::Multiply),
        ("div", BinaryOp::Divide),
        ("mod", BinaryOp::Modulo),
        ("and", BinaryOp::And),
        ("or", BinaryOp::Or),
        ("xor", BinaryOp::Xor),
        ("eq", BinaryOp::Equal),
        ("lt", BinaryOp::Less),
        ("gt", BinaryOp::Greater),
    ];
    let targets =
        [("p1", Target::P1), ("p2", Target::P2), ("s1", Target::S1), ("s2", Target::S2)];
    for (word, op) in ops {
        for (name, target) in targets {
            let source = format!("{} {} {}", word, name, name);
            assert_eq!(
                assemble(source.as_bytes()),
                Err(AsmError::SameOperand { op, target })
            );
        }
        let source = format!("{} p1", word);
        assert_eq!(assemble(source.as_bytes()), Err(AsmError::ImplicitOperand { op }));
    }
}

#[test]
fn unary_operands() {
    assert_eq!(compile("neg"), Ok("~".to_string()));
    assert_eq!(compile("inv p1"), Ok("~".to_string()));
    assert_eq!(compile("not p2"), Ok("x!".to_string()));
    assert_eq!(compile("dup s1"), Ok("X}x{X}X{X:".to_string()));
    assert_eq!(compile("drop s2"), Ok("Xx}x{X}X{X`".to_string()));
    assert_eq!(compile("jz #0"), Ok("#00?".to_string()));
    assert_eq!(compile("pri 'a'"), Ok("'a;".to_string()));
    assert_eq!(compile("st p2"), Ok("x{".to_string()));
    assert_eq!(compile("ld in get"), Ok("}@@".to_string()));
}

#[test]
fn loops_swaps_and_jumps() {
    assert_eq!(compile("while nonzero cont nonzero"), Ok("[]".to_string()));
    assert_eq!(compile("loop zero next zero"), Ok("()".to_string()));
    assert_eq!(compile("swap values swap stacks"), Ok("xX".to_string()));
    assert_eq!(compile("jmp 3 jmp 9"), Ok("39".to_string()));
}

#[test]
fn missing_qualifiers_are_errors() {
    assert_eq!(
        assemble(b"jmp add"),
        Err(AsmError::ExpectedJumpDistance(Some(Token::Binary(BinaryOp::Add))))
    );
    assert_eq!(assemble(b"jmp"), Err(AsmError::ExpectedJumpDistance(None)));
    assert_eq!(
        assemble(b"while p1"),
        Err(AsmError::ExpectedLoopCondition(Some(Token::Target(Target::P1))))
    );
    assert_eq!(assemble(b"loop"), Err(AsmError::ExpectedLoopCondition(None)));
    assert_eq!(
        assemble(b"cont out"),
        Err(AsmError::ExpectedLoopCondition(Some(Token::Unary(UnaryOp::Print))))
    );
    assert_eq!(
        assemble(b"swap zero"),
        Err(AsmError::ExpectedSwapKind(Some(Token::ConditionZero)))
    );
    assert_eq!(assemble(b"swap"), Err(AsmError::ExpectedSwapKind(None)));
    assert_eq!(assemble(b"push out"), Err(AsmError::ExpectedLiteral(Some(Token::Unary(UnaryOp::Print)))));
    assert_eq!(assemble(b"push"), Err(AsmError::ExpectedLiteral(None)));
    assert_eq!(
        assemble(b"embed #1"),
        Err(AsmError::ExpectedEmbeddedCode(Some(Token::Literal(b"#01".to_vec()))))
    );
    assert_eq!(assemble(b"embed"), Err(AsmError::ExpectedEmbeddedCode(None)));
}

#[test]
fn stray_tokens_are_errors() {
    assert_eq!(assemble(b"p1"), Err(AsmError::UnexpectedToken(Token::Target(Target::P1))));
    assert_eq!(assemble(b"zero"), Err(AsmError::UnexpectedToken(Token::ConditionZero)));
    assert_eq!(assemble(b"nonzero"), Err(AsmError::UnexpectedToken(Token::ConditionNonZero)));
    assert_eq!(assemble(b"values"), Err(AsmError::UnexpectedToken(Token::SwapValues)));
    assert_eq!(assemble(b"stacks"), Err(AsmError::UnexpectedToken(Token::SwapStacks)));
    assert_eq!(assemble(b"5"), Err(AsmError::UnexpectedToken(Token::JumpDistance(5))));
    assert_eq!(
        assemble(b"#7"),
        Err(AsmError::UnexpectedToken(Token::Literal(b"#07".to_vec())))
    );
    assert_eq!(
        assemble(b"\"x\""),
        Err(AsmError::UnexpectedToken(Token::StringLiteral(b"x".to_vec())))
    );
    assert_eq!(
        assemble(b"add p1 p2 s1"),
        Err(AsmError::UnexpectedToken(Token::Target(Target::S1)))
    );
}

#[test]
fn invalid_words_are_errors() {
    assert_eq!(assemble(b"hello"), Err(AsmError::InvalidToken(b"hello".to_vec())));
    assert_eq!(assemble(b"add1"), Err(AsmError::InvalidToken(b"add1".to_vec())));
    assert_eq!(assemble(b"push #256"), Err(AsmError::ExpectedLiteral(Some(Token::Invalid(b"#256".to_vec())))));
    assert_eq!(assemble(b"out \r"), Err(AsmError::InvalidToken(b"\r".to_vec())));
    assert_eq!(assemble(b"push \"abc"), Err(AsmError::ExpectedLiteral(Some(Token::Invalid(b"\"abc".to_vec())))));
    assert_eq!(assemble(b"$4"), Err(AsmError::InvalidToken(b"$".to_vec())));
    assert_eq!(assemble(b"12"), Err(AsmError::InvalidToken(b"12".to_vec())));
    assert_eq!(assemble(b"b0101"), Err(AsmError::InvalidToken(b"b0101".to_vec())));
}

#[test]
fn push_string_is_reversed() {
    let code = assemble(b"push \"abc\"").unwrap();
    assert_eq!(code, b"\"cba\"".to_vec());
    let machine = run_with(&[], &[], &code);
    assert_eq!(machine.primary, vec![b'c', b'b', b'a']);
    assert_eq!(compile("embed \"#41;\""), Ok("#41;".to_string()));
}

#[test]
fn literals_are_normalized() {
    assert_eq!(
        tokenize(b"#0 #9 #10 #99 #100 #255 b00000101 b11111111 'x' $fF"),
        vec![
            Token::Literal(b"#00".to_vec()),
            Token::Literal(b"#09".to_vec()),
            Token::Literal(b"#0a".to_vec()),
            Token::Literal(b"#63".to_vec()),
            Token::Literal(b"#64".to_vec()),
            Token::Literal(b"#ff".to_vec()),
            Token::Literal(b"#05".to_vec()),
            Token::Literal(b"#ff".to_vec()),
            Token::Literal(b"'x".to_vec()),
            Token::Literal(b"#fF".to_vec()),
        ]
    );
    assert_eq!(
        tokenize(b"#300 #07"),
        vec![
            Token::Literal(b"#1e".to_vec()),
            Token::Invalid(b"0".to_vec()),
            Token::Literal(b"#00".to_vec()),
            Token::JumpDistance(7),
        ]
    );
}

#[test]
fn comments_and_blanks_are_dropped() {
    assert_eq!(
        tokenize(b"  add\t# the rest is a comment: sub mul\n\x0c sub #"),
        vec![Token::Binary(BinaryOp::Add), Token::Binary(BinaryOp::Subtract)]
    );
    assert_eq!(compile("while # comment\n nonzero"), Ok("[".to_string()));
    assert_eq!(tokenize(b""), Vec::<Token>::new());
}

#[test]
fn generate_takes_tokens() {
    let tokens = vec![
        Token::Push,
        Token::Literal(b"#41".to_vec()),
        Token::Unary(UnaryOp::Print),
        Token::Jump,
        Token::JumpDistance(0),
    ];
    assert_eq!(
        generate(&tokens),
        Err(AsmError::ExpectedJumpDistance(Some(Token::JumpDistance(0))))
    );
    assert_eq!(generate(&tokens[..3]), Ok(b"#41;".to_vec()));
}

#[test]
fn countdown_program_runs() {
    let source = "push #3 dup while nonzero dup add #48 out sub #1 dup cont nonzero";
    let code = assemble(source.as_bytes()).unwrap();
    let mut machine: Computer<u8> = Computer::new(&code);
    let mut input = ScriptedInput::new(Vec::new());
    let mut output = String::new();
    assert_eq!(machine.run(&mut input, &mut output, 10_000), Ok(()));
    assert_eq!(output, "321");
}
