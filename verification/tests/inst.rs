use vm_inst::inst::{Inst, Keyword, Op, Segment};

#[test]
fn display_op() {
    assert_eq!("add", Op::Add.render());
    assert_eq!("sub", Op::Sub.render());
    assert_eq!("neg", Op::Neg.render());
    assert_eq!("eq", Op::Eq.render());
    assert_eq!("gt", Op::Gt.render());
    assert_eq!("lt", Op::Lt.render());
    assert_eq!("and", Op::And.render());
    assert_eq!("or", Op::Or.render());
    assert_eq!("not", Op::Not.render());
}

#[test]
fn display_segment() {
    assert_eq!("argument", Segment::Argument.render());
    assert_eq!("local", Segment::Local.render());
    assert_eq!("this", Segment::This.render());
    assert_eq!("that", Segment::That.render());
    assert_eq!("constant", Segment::Constant.render());
    assert_eq!("static", Segment::Static.render());
    assert_eq!("pointer", Segment::Pointer.render());
    assert_eq!("temp", Segment::Temp.render());
}

#[test]
fn display_inst() {
    assert_eq!("and", Inst::Arith { op: Op::And }.render());
    assert_eq!(
        "pop local 42",
        Inst::Pop {
            segment: Segment::Local,
            index: 42,
        }
        .render()
    );
    assert_eq!(
        "push static 0",
        Inst::Push {
            segment: Segment::Static,
            index: 0,
        }
        .render()
    );
    assert_eq!("label START", Inst::DefLabel { label: "START" }.render());
    assert_eq!("goto LOOP", Inst::Goto { label: "LOOP" }.render());
    assert_eq!("if-goto END", Inst::IfGoto { label: "END" }.render());
    assert_eq!(
        "function Main 3",
        Inst::DefFun {
            name: "Main",
            nvars: 3,
        }
        .render()
    );
    assert_eq!(
        "call Foo 2",
        Inst::Call {
            name: "Foo",
            nargs: 2,
        }
        .render()
    );
    assert_eq!("return", Inst::Return.render());
}

#[test]
fn names_are_the_tokens() {
    assert_eq!("add", Op::Add.name());
    assert_eq!("not", Op::Not.name());
    assert_eq!("argument", Segment::Argument.name());
    assert_eq!("temp", Segment::Temp.name());
    assert_eq!("pop", Keyword::Pop.name());
    assert_eq!("push", Keyword::Push.name());
    assert_eq!("label", Keyword::Label.name());
    assert_eq!("goto", Keyword::Goto.name());
    assert_eq!("if-goto", Keyword::IfGoto.name());
    assert_eq!("function", Keyword::Function.name());
    assert_eq!("call", Keyword::Call.name());
    assert_eq!("return", Keyword::Return.name());
}

#[test]
fn render_writes_numbers_without_leading_zeros() {
    let cases: [(u16, &str); 11] = [
        (0, "push constant 0"),
        (7, "push constant 7"),
        (9, "push constant 9"),
        (10, "push constant 10"),
        (99, "push constant 99"),
        (100, "push constant 100"),
        (1000, "push constant 1000"),
        (9999, "push constant 9999"),
        (10000, "push constant 10000"),
        (12345, "push constant 12345"),
        (65535, "push constant 65535"),
    ];
    for (index, text) in cases {
        let inst = Inst::Push {
            segment: Segment::Constant,
            index,
        };
        assert_eq!(text, inst.render());
    }
}

#[test]
fn render_has_no_space_at_either_end() {
    let all = [
        Inst::Arith { op: Op::Neg },
        Inst::Pop {
            segment: Segment::Temp,
            index: 5,
        },
        Inst::Push {
            segment: Segment::Pointer,
            index: 1,
        },
        Inst::DefLabel { label: "a" },
        Inst::Goto { label: "b" },
        Inst::IfGoto { label: "c" },
        Inst::DefFun {
            name: "f",
            nvars: 0,
        },
        Inst::Call {
            name: "g",
            nargs: 65535,
        },
        Inst::Return,
    ];
    for inst in all {
        let text = inst.render();
        assert_eq!(text.trim(), text);
        assert!(!text.contains("  "));
    }
}

#[test]
fn render_takes_any_name() {
    assert_eq!("label ", Inst::DefLabel { label: "" }.render());
    assert_eq!("goto d\u{e9}j\u{e0} vu", Inst::Goto { label: "d\u{e9}j\u{e0} vu" }.render());
    assert_eq!(
        "call 1 2 3",
        Inst::Call {
            name: "1 2",
            nargs: 3,
        }
        .render()
    );
}

#[test]
fn equal_instructions_render_alike_and_others_do_not() {
    let a = Inst::DefFun {
        name: "Main.main",
        nvars: 2,
    };
    let b = Inst::DefFun {
        name: "Main.main",
        nvars: 2,
    };
    let c = Inst::Call {
        name: "Main.main",
        nargs: 2,
    };
    let d = Inst::DefFun {
        name: "Main.main",
        nvars: 20,
    };
    assert_eq!(a, b);
    assert_eq!(a.render(), b.render());
    assert_ne!(a.render(), c.render());
    assert_ne!(a.render(), d.render());
}
