use vm_inst::inst::{Inst, Op, Segment};
use vm_inst::parser::{
    arith, fun_op, ident, index, inst, label_op, op, parse, segment, stack_op, ErrorKind,
    ParseError,
};

fn failure(kind: ErrorKind, offset: usize) -> ParseError {
    ParseError { kind, offset }
}

const OPS: [(&str, Op); 9] = [
    ("add", Op::Add),
    ("sub", Op::Sub),
    ("neg", Op::Neg),
    ("eq", Op::Eq),
    ("gt", Op::Gt),
    ("lt", Op::Lt),
    ("and", Op::And),
    ("or", Op::Or),
    ("not", Op::Not),
];

const SEGMENTS: [(&str, Segment); 8] = [
    ("argument", Segment::Argument),
    ("local", Segment::Local),
    ("this", Segment::This),
    ("that", Segment::That),
    ("constant", Segment::Constant),
    ("static", Segment::Static),
    ("pointer", Segment::Pointer),
    ("temp", Segment::Temp),
];

#[test]
fn parse_artih() {
    assert_eq!(Ok((&b""[..], Inst::Arith { op: Op::Add })), arith(b"add"));
    assert_eq!(Ok((&b""[..], Inst::Arith { op: Op::Sub })), arith(b"sub"));
    assert_eq!(Ok((&b""[..], Inst::Arith { op: Op::Neg })), arith(b"neg"));
    assert_eq!(Ok((&b""[..], Inst::Arith { op: Op::Eq })), arith(b"eq"));
    assert_eq!(Ok((&b""[..], Inst::Arith { op: Op::Gt })), arith(b"gt"));
    assert_eq!(Ok((&b""[..], Inst::Arith { op: Op::Lt })), arith(b"lt"));
    assert_eq!(Ok((&b""[..], Inst::Arith { op: Op::And })), arith(b"and"));
    assert_eq!(Ok((&b""[..], Inst::Arith { op: Op::Or })), arith(b"or"));
    assert_eq!(Ok((&b""[..], Inst::Arith { op: Op::Not })), arith(b"not"));
    assert!(arith(b"something else").is_err());
}

#[test]
fn parse_segment() {
    assert_eq!(Ok((&b""[..], Segment::Argument)), segment(b"argument"));
    assert_eq!(Ok((&b""[..], Segment::Local)), segment(b"local"));
    assert_eq!(Ok((&b""[..], Segment::This)), segment(b"this"));
    assert_eq!(Ok((&b""[..], Segment::That)), segment(b"that"));
    assert_eq!(Ok((&b""[..], Segment::Constant)), segment(b"constant"));
    assert_eq!(Ok((&b""[..], Segment::Static)), segment(b"static"));
    assert_eq!(Ok((&b""[..], Segment::Pointer)), segment(b"pointer"));
    assert_eq!(Ok((&b""[..], Segment::Temp)), segment(b"temp"));
    assert!(segment(b"something else").is_err());
}

#[test]
fn parse_index() {
    assert_eq!(Ok((&b""[..], 42u16)), index(b"42"));
    assert!(index(b"not-a-number").is_err());
    assert!(index(b"123456789").is_err());
}

#[test]
fn parse_stack_op() {
    assert_eq!(
        Ok((
            &b""[..],
            Inst::Pop {
                segment: Segment::This,
                index: 20
            }
        )),
        stack_op(b"pop this 20")
    );
    assert_eq!(
        Ok((
            &b""[..],
            Inst::Push {
                segment: Segment::That,
                index: 3
            }
        )),
        stack_op(b"push that 3")
    );
}

#[test]
fn parse_ident() {
    assert_eq!(Ok((&b""[..], "some.id$42_start")), ident(b"some.id$42_start"));
    assert!(ident(b"-").is_err());
    assert!(ident(b"42apples").is_err());
}

#[test]
fn parse_label_op() {
    assert_eq!(
        Ok((&b""[..], Inst::DefLabel { label: "START" })),
        label_op(b"label START")
    );
    assert_eq!(
        Ok((&b""[..], Inst::Goto { label: "LOOP" })),
        label_op(b"goto LOOP")
    );
    assert_eq!(
        Ok((&b""[..], Inst::IfGoto { label: "END" })),
        label_op(b"if-goto END")
    );
}

#[test]
fn parse_fun_op() {
    assert_eq!(
        Ok((
            &b""[..],
            Inst::DefFun {
                name: "Foo",
                nvars: 3
            }
        )),
        fun_op(b"function Foo 3")
    );
    assert_eq!(
        Ok((
            &b""[..],
            Inst::Call {
                name: "Bar",
                nargs: 2
            }
        )),
        fun_op(b"call Bar 2")
    );
}

#[test]
fn parse_inst() {
    assert_eq!(Ok((&b""[..], Inst::Return)), inst(b"return"));
}

#[test]
fn canonical_lines_round_trip() {
    let lines = [
        "add",
        "sub",
        "neg",
        "eq",
        "gt",
        "lt",
        "and",
        "or",
        "not",
        "pop local 42",
        "pop temp 0",
        "push static 0",
        "push constant 65535",
        "push argument 10",
        "push pointer 1",
        "label START",
        "label some.id$42_start",
        "goto LOOP",
        "if-goto END",
        "function Main.main 0",
        "function Sys.init 12",
        "call Math.multiply 2",
        "return",
    ];
    for line in lines {
        let parsed = parse(line.as_bytes()).unwrap();
        assert_eq!(line, parsed.render());
    }
}

#[test]
fn rendered_instructions_parse_back() {
    let all = [
        Inst::Arith { op: Op::Or },
        Inst::Pop {
            segment: Segment::That,
            index: 65535,
        },
        Inst::Push {
            segment: Segment::This,
            index: 100,
        },
        Inst::DefLabel { label: "x" },
        Inst::Goto { label: "a.b$c_d9" },
        Inst::IfGoto { label: "Z" },
        Inst::DefFun {
            name: "pop",
            nvars: 9,
        },
        Inst::Call {
            name: "return",
            nargs: 0,
        },
        Inst::Return,
    ];
    for value in all {
        let text = value.render();
        assert_eq!(Ok(value), parse(text.as_bytes()));
    }
}

#[test]
fn every_operator_token_is_an_arithmetic_instruction() {
    for (token, value) in OPS {
        assert_eq!(Ok(Inst::Arith { op: value }), parse(token.as_bytes()));
        assert_eq!(Ok((&b""[..], value)), op(token.as_bytes()));
        assert_eq!(
            Err(failure(ErrorKind::UnrecognizedKeyword, 0)),
            stack_op(token.as_bytes())
        );
        assert_eq!(
            Err(failure(ErrorKind::UnrecognizedKeyword, 0)),
            label_op(token.as_bytes())
        );
        assert_eq!(
            Err(failure(ErrorKind::UnrecognizedKeyword, 0)),
            fun_op(token.as_bytes())
        );
    }
}

#[test]
fn every_segment_is_pushed_and_popped_at_zero() {
    for (token, value) in SEGMENTS {
        let push = format!("push {} 0", token);
        let pop = format!("pop {} 0", token);
        assert_eq!(
            Ok(Inst::Push {
                segment: value,
                index: 0
            }),
            parse(push.as_bytes())
        );
        assert_eq!(
            Ok(Inst::Pop {
                segment: value,
                index: 0
            }),
            parse(pop.as_bytes())
        );
    }
}

#[test]
fn index_above_sixteen_bits_is_malformed() {
    assert_eq!(
        Err(failure(ErrorKind::MalformedIndex, 11)),
        parse(b"push local 99999")
    );
    assert_eq!(
        Err(failure(ErrorKind::MalformedIndex, 11)),
        parse(b"push local 65536")
    );
    assert_eq!(
        Ok(Inst::Push {
            segment: Segment::Local,
            index: 65535
        }),
        parse(b"push local 65535")
    );
    assert_eq!(
        Err(failure(ErrorKind::MalformedIndex, 0)),
        index(b"99999999999999999999999999999999")
    );
}

#[test]
fn unknown_segment_is_refused() {
    assert_eq!(
        Err(failure(ErrorKind::UnrecognizedKeyword, 5)),
        parse(b"push foo 1")
    );
    assert_eq!(
        Err(failure(ErrorKind::UnrecognizedKeyword, 0)),
        segment(b"foo 1")
    );
}

#[test]
fn label_must_start_with_a_letter() {
    assert_eq!(
        Err(failure(ErrorKind::MalformedIdentifier, 6)),
        parse(b"label 1abc")
    );
    assert_eq!(
        Err(failure(ErrorKind::MalformedIdentifier, 6)),
        parse(b"label _abc")
    );
    assert_eq!(Err(failure(ErrorKind::MalformedIdentifier, 0)), ident(b""));
    assert_eq!(
        Err(failure(ErrorKind::MalformedIdentifier, 0)),
        ident("\u{e9}t\u{e9}".as_bytes())
    );
}

#[test]
fn label_with_dots_dollars_and_digits() {
    assert_eq!(
        Ok(Inst::DefLabel {
            label: "some.id$42_start"
        }),
        parse(b"label some.id$42_start")
    );
}

#[test]
fn function_and_call_lines() {
    assert_eq!(
        Ok(Inst::DefFun {
            name: "Main.main",
            nvars: 0
        }),
        parse(b"function Main.main 0")
    );
    assert_eq!(
        Ok(Inst::Call {
            name: "Math.multiply",
            nargs: 2
        }),
        parse(b"call Math.multiply 2")
    );
}

#[test]
fn return_takes_the_whole_line() {
    assert_eq!(Ok(Inst::Return), parse(b"return"));
    assert_eq!(Ok((&b""[..], Inst::Return)), inst(b"return"));
}

#[test]
fn parsing_twice_gives_the_same() {
    let lines: [&[u8]; 6] = [
        b"push local 12",
        b"label L1",
        b"call f 3",
        b"push local 99999",
        b"bogus",
        b"return now",
    ];
    for line in lines {
        assert_eq!(parse(line), parse(line));
        assert_eq!(inst(line), inst(line));
    }
}

#[test]
fn trailing_input_is_an_error() {
    assert_eq!(
        Err(failure(ErrorKind::TrailingInput, 6)),
        parse(b"return now")
    );
    assert_eq!(Err(failure(ErrorKind::TrailingInput, 3)), parse(b"add "));
    assert_eq!(
        Err(failure(ErrorKind::TrailingInput, 12)),
        parse(b"pop local 12 13")
    );
    assert_eq!(
        Err(failure(ErrorKind::TrailingInput, 7)),
        parse(b"label a-b")
    );
    assert_eq!(
        Ok((&b" now"[..], Inst::Return)),
        inst(b"return now")
    );
}

#[test]
fn a_keyword_is_no_prefix_of_a_longer_word() {
    assert_eq!(Err(failure(ErrorKind::UnrecognizedKeyword, 0)), parse(b"addx"));
    assert_eq!(Err(failure(ErrorKind::UnrecognizedKeyword, 0)), parse(b"add1"));
    assert_eq!(Err(failure(ErrorKind::UnrecognizedKeyword, 0)), parse(b"add_"));
    assert_eq!(Err(failure(ErrorKind::UnrecognizedKeyword, 0)), parse(b"returns"));
    assert_eq!(Err(failure(ErrorKind::UnrecognizedKeyword, 0)), parse(b"popx local 1"));
    assert_eq!(Err(failure(ErrorKind::UnrecognizedKeyword, 0)), parse(b"ad"));
    assert_eq!(Err(failure(ErrorKind::UnrecognizedKeyword, 0)), parse(b"ADD"));
    assert_eq!(Err(failure(ErrorKind::UnrecognizedKeyword, 0)), parse(b""));
    assert_eq!(
        Err(failure(ErrorKind::UnrecognizedKeyword, 5)),
        parse(b"push local0 1")
    );
    assert_eq!(Ok((&b"-x"[..], Op::Add)), op(b"add-x"));
}

#[test]
fn exactly_one_space_separates() {
    assert_eq!(
        Err(failure(ErrorKind::UnrecognizedKeyword, 4)),
        parse(b"pop  local 1")
    );
    assert_eq!(
        Err(failure(ErrorKind::UnrecognizedKeyword, 3)),
        parse(b"pop\tlocal 1")
    );
    assert_eq!(
        Err(failure(ErrorKind::MalformedIndex, 10)),
        parse(b"pop local  1")
    );
    assert_eq!(
        Err(failure(ErrorKind::MalformedIdentifier, 6)),
        parse(b"label  X")
    );
    assert_eq!(
        Err(failure(ErrorKind::MalformedIndex, 6)),
        parse(b"call f\t1")
    );
    assert_eq!(
        Err(failure(ErrorKind::UnrecognizedKeyword, 0)),
        parse(b" return")
    );
}

#[test]
fn missing_operands_are_errors() {
    assert_eq!(Err(failure(ErrorKind::UnrecognizedKeyword, 3)), parse(b"pop"));
    assert_eq!(Err(failure(ErrorKind::UnrecognizedKeyword, 5)), parse(b"push "));
    assert_eq!(Err(failure(ErrorKind::MalformedIndex, 9)), parse(b"pop local"));
    assert_eq!(Err(failure(ErrorKind::MalformedIndex, 10)), parse(b"pop local "));
    assert_eq!(Err(failure(ErrorKind::MalformedIdentifier, 5)), parse(b"label"));
    assert_eq!(Err(failure(ErrorKind::MalformedIdentifier, 8)), parse(b"if-goto "));
    assert_eq!(Err(failure(ErrorKind::MalformedIdentifier, 4)), parse(b"call"));
    assert_eq!(Err(failure(ErrorKind::MalformedIndex, 12)), parse(b"function Foo"));
    assert_eq!(Err(failure(ErrorKind::MalformedIndex, 13)), parse(b"function Foo "));
    assert_eq!(Err(failure(ErrorKind::MalformedIndex, 6)), parse(b"call a-b 1"));
}

#[test]
fn an_index_is_digits_and_nothing_else() {
    assert_eq!(Ok((&b""[..], 0u16)), index(b"0"));
    assert_eq!(Ok((&b""[..], 7u16)), index(b"007"));
    assert_eq!(Ok((&b""[..], 65535u16)), index(b"0000065535"));
    assert_eq!(Ok((&b" rest"[..], 42u16)), index(b"42 rest"));
    assert_eq!(Ok((&b"-1"[..], 42u16)), index(b"42-1"));
    assert_eq!(Err(failure(ErrorKind::MalformedIndex, 0)), index(b""));
    assert_eq!(Err(failure(ErrorKind::MalformedIndex, 0)), index(b"+1"));
    assert_eq!(Err(failure(ErrorKind::MalformedIndex, 0)), index(b"-1"));
    assert_eq!(Err(failure(ErrorKind::MalformedIndex, 0)), index(b"12a"));
    assert_eq!(Err(failure(ErrorKind::MalformedIndex, 0)), index(b"1_000"));
    assert_eq!(
        Err(failure(ErrorKind::MalformedIndex, 11)),
        parse(b"push local 12a")
    );
    assert_eq!(
        Ok(Inst::Push {
            segment: Segment::Local,
            index: 7
        }),
        parse(b"push local 007")
    );
}

#[test]
fn an_identifier_is_the_longest_run() {
    assert_eq!(Ok((&b""[..], "a")), ident(b"a"));
    assert_eq!(Ok((&b" def"[..], "abc")), ident(b"abc def"));
    assert_eq!(Ok((&b"-b"[..], "a")), ident(b"a-b"));
    assert_eq!(Ok((&b""[..], "a..$$__")), ident(b"a..$$__"));
    assert_eq!(Ok((&b""[..], "a1.b2$c3_d4")), ident(b"a1.b2$c3_d4"));
    assert_eq!(Ok((&b"\xc3\xa9"[..], "caf")), ident("caf\u{e9}".as_bytes()));
    assert_eq!(Err(failure(ErrorKind::MalformedIdentifier, 0)), ident(b"$a"));
    assert_eq!(Err(failure(ErrorKind::MalformedIdentifier, 0)), ident(b".a"));
    assert_eq!(Err(failure(ErrorKind::MalformedIdentifier, 0)), ident(b" a"));
}

#[test]
fn keywords_may_be_names() {
    assert_eq!(Ok(Inst::DefLabel { label: "add" }), parse(b"label add"));
    assert_eq!(Ok(Inst::Goto { label: "goto" }), parse(b"goto goto"));
    assert_eq!(
        Ok(Inst::Call {
            name: "local",
            nargs: 1
        }),
        parse(b"call local 1")
    );
}
