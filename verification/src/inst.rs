//! The instruction model: operators, memory segments, instructions, and the
//! canonical text of each.

use crate::text::{
    all_in, decimal_digits, digit_byte, is_alpha, lemma_encode_utf8_concat, space, ByteClass,
};
use vstd::prelude::*;
use vstd::string::{is_ascii_spec_bytes, StringExecFns, StringSliceAdditionalSpecFns};
use vstd::utf8::encode_utf8;

verus! {

/// A stack operation without operands.
#[derive(Clone, Copy, Debug, PartialEq, Eq)]
pub enum Op {
    Add,
    Sub,
    Neg,
    Eq,
    Gt,
    Lt,
    And,
    Or,
    Not,
}

/// A memory segment that `push` and `pop` address.
#[derive(Clone, Copy, Debug, PartialEq, Eq)]
pub enum Segment {
    Argument,
    Local,
    This,
    That,
    Constant,
    Static,
    Pointer,
    Temp,
}

/// The keywords that open an instruction with operands, and `return`.
#[derive(Clone, Copy, Debug, PartialEq, Eq)]
pub enum Keyword {
    Pop,
    Push,
    Label,
    Goto,
    IfGoto,
    Function,
    Call,
    Return,
}

/// One instruction. Labels and function names are borrowed text.
#[derive(Clone, Copy, Debug, PartialEq, Eq)]
pub enum Inst<'a> {
    Arith { op: Op },
    Pop { segment: Segment, index: u16 },
    Push { segment: Segment, index: u16 },
    DefLabel { label: &'a str },
    Goto { label: &'a str },
    IfGoto { label: &'a str },
    DefFun { name: &'a str, nvars: u16 },
    Call { name: &'a str, nargs: u16 },
    Return,
}

/// What an instruction says: the same variants, with each name as the bytes
/// of its text.
pub enum InstView {
    Arith { op: Op },
    Pop { segment: Segment, index: u16 },
    Push { segment: Segment, index: u16 },
    DefLabel { label: Seq<u8> },
    Goto { label: Seq<u8> },
    IfGoto { label: Seq<u8> },
    DefFun { name: Seq<u8>, nvars: u16 },
    Call { name: Seq<u8>, nargs: u16 },
    Return,
}

impl Op {
    /// The operator's token.
    pub open spec fn token(self) -> Seq<u8> {
        match self {
            Op::Add => seq!['a' as u8, 'd' as u8, 'd' as u8],
            Op::Sub => seq!['s' as u8, 'u' as u8, 'b' as u8],
            Op::Neg => seq!['n' as u8, 'e' as u8, 'g' as u8],
            Op::Eq => seq!['e' as u8, 'q' as u8],
            Op::Gt => seq!['g' as u8, 't' as u8],
            Op::Lt => seq!['l' as u8, 't' as u8],
            Op::And => seq!['a' as u8, 'n' as u8, 'd' as u8],
            Op::Or => seq!['o' as u8, 'r' as u8],
            Op::Not => seq!['n' as u8, 'o' as u8, 't' as u8],
        }
    }

    /// The operator's token, as text.
    pub fn name(self) -> (s: &'static str)
        ensures
            s.spec_bytes() == self.token(),
    {
        let s = match self {
            Op::Add => "add",
            Op::Sub => "sub",
            Op::Neg => "neg",
            Op::Eq => "eq",
            Op::Gt => "gt",
            Op::Lt => "lt",
            Op::And => "and",
            Op::Or => "or",
            Op::Not => "not",
        };
        proof {
            reveal_strlit("add");
            reveal_strlit("sub");
            reveal_strlit("neg");
            reveal_strlit("eq");
            reveal_strlit("gt");
            reveal_strlit("lt");
            reveal_strlit("and");
            reveal_strlit("or");
            reveal_strlit("not");
            is_ascii_spec_bytes(s);
        }
        assert(s.spec_bytes() =~= self.token());
        s
    }

    /// The operator's canonical text.
    pub fn render(&self) -> (r: String)
        ensures
            encode_utf8(r@) == self.token(),
    {
        String::from_str(self.name())
    }
}

impl Segment {
    /// The segment's token.
    pub open spec fn token(self) -> Seq<u8> {
        match self {
            Segment::Argument => seq![
                'a' as u8,
                'r' as u8,
                'g' as u8,
                'u' as u8,
                'm' as u8,
                'e' as u8,
                'n' as u8,
                't' as u8,
            ],
            Segment::Local => seq!['l' as u8, 'o' as u8, 'c' as u8, 'a' as u8, 'l' as u8],
            Segment::This => seq!['t' as u8, 'h' as u8, 'i' as u8, 's' as u8],
            Segment::That => seq!['t' as u8, 'h' as u8, 'a' as u8, 't' as u8],
            Segment::Constant => seq![
                'c' as u8,
                'o' as u8,
                'n' as u8,
                's' as u8,
                't' as u8,
                'a' as u8,
                'n' as u8,
                't' as u8,
            ],
            Segment::Static => seq![
                's' as u8,
                't' as u8,
                'a' as u8,
                't' as u8,
                'i' as u8,
                'c' as u8,
            ],
            Segment::Pointer => seq![
                'p' as u8,
                'o' as u8,
                'i' as u8,
                'n' as u8,
                't' as u8,
                'e' as u8,
                'r' as u8,
            ],
            Segment::Temp => seq!['t' as u8, 'e' as u8, 'm' as u8, 'p' as u8],
        }
    }

    /// The segment's token, as text.
    pub fn name(self) -> (s: &'static str)
        ensures
            s.spec_bytes() == self.token(),
    {
        let s = match self {
            Segment::Argument => "argument",
            Segment::Local => "local",
            Segment::This => "this",
            Segment::That => "that",
            Segment::Constant => "constant",
            Segment::Static => "static",
            Segment::Pointer => "pointer",
            Segment::Temp => "temp",
        };
        proof {
            reveal_strlit("argument");
            reveal_strlit("local");
            reveal_strlit("this");
            reveal_strlit("that");
            reveal_strlit("constant");
            reveal_strlit("static");
            reveal_strlit("pointer");
            reveal_strlit("temp");
            is_ascii_spec_bytes(s);
        }
        assert(s.spec_bytes() =~= self.token());
        s
    }

    /// The segment's canonical text.
    pub fn render(&self) -> (r: String)
        ensures
            encode_utf8(r@) == self.token(),
    {
        String::from_str(self.name())
    }
}

impl Keyword {
    /// The keyword's token.
    pub open spec fn token(self) -> Seq<u8> {
        match self {
            Keyword::Pop => seq!['p' as u8, 'o' as u8, 'p' as u8],
            Keyword::Push => seq!['p' as u8, 'u' as u8, 's' as u8, 'h' as u8],
            Keyword::Label => seq!['l' as u8, 'a' as u8, 'b' as u8, 'e' as u8, 'l' as u8],
            Keyword::Goto => seq!['g' as u8, 'o' as u8, 't' as u8, 'o' as u8],
            Keyword::IfGoto => seq![
                'i' as u8,
                'f' as u8,
                '-' as u8,
                'g' as u8,
                'o' as u8,
                't' as u8,
                'o' as u8,
            ],
            Keyword::Function => seq![
                'f' as u8,
                'u' as u8,
                'n' as u8,
                'c' as u8,
                't' as u8,
                'i' as u8,
                'o' as u8,
                'n' as u8,
            ],
            Keyword::Call => seq!['c' as u8, 'a' as u8, 'l' as u8, 'l' as u8],
            Keyword::Return => seq![
                'r' as u8,
                'e' as u8,
                't' as u8,
                'u' as u8,
                'r' as u8,
                'n' as u8,
            ],
        }
    }

    /// The keyword's token, as text.
    pub fn name(self) -> (s: &'static str)
        ensures
            s.spec_bytes() == self.token(),
    {
        let s = match self {
            Keyword::Pop => "pop",
            Keyword::Push => "push",
            Keyword::Label => "label",
            Keyword::Goto => "goto",
            Keyword::IfGoto => "if-goto",
            Keyword::Function => "function",
            Keyword::Call => "call",
            Keyword::Return => "return",
        };
        proof {
            reveal_strlit("pop");
            reveal_strlit("push");
            reveal_strlit("label");
            reveal_strlit("goto");
            reveal_strlit("if-goto");
            reveal_strlit("function");
            reveal_strlit("call");
            reveal_strlit("return");
            is_ascii_spec_bytes(s);
        }
        assert(s.spec_bytes() =~= self.token());
        s
    }
}

/// Whether `s` is an identifier: a letter, then letters, digits, `_`, `.`
/// and `$`.
pub open spec fn is_identifier(s: Seq<u8>) -> bool {
    &&& s.len() >= 1
    &&& is_alpha(s[0])
    &&& all_in(s, ByteClass::IdentTail)
}

impl InstView {
    /// The canonical text: the keyword and the operands, one space between
    /// each two, numbers as decimal numerals without leading zeros.
    pub open spec fn text(self) -> Seq<u8> {
        match self {
            InstView::Arith { op } => op.token(),
            InstView::Pop { segment, index } => stack_text(Keyword::Pop, segment, index),
            InstView::Push { segment, index } => stack_text(Keyword::Push, segment, index),
            InstView::DefLabel { label } => label_text(Keyword::Label, label),
            InstView::Goto { label } => label_text(Keyword::Goto, label),
            InstView::IfGoto { label } => label_text(Keyword::IfGoto, label),
            InstView::DefFun { name, nvars } => fun_text(Keyword::Function, name, nvars),
            InstView::Call { name, nargs } => fun_text(Keyword::Call, name, nargs),
            InstView::Return => Keyword::Return.token(),
        }
    }

    /// Whether every name in the instruction is an identifier.
    pub open spec fn wf(self) -> bool {
        match self {
            InstView::DefLabel { label } => is_identifier(label),
            InstView::Goto { label } => is_identifier(label),
            InstView::IfGoto { label } => is_identifier(label),
            InstView::DefFun { name, nvars } => is_identifier(name),
            InstView::Call { name, nargs } => is_identifier(name),
            _ => true,
        }
    }
}

/// `<keyword> <segment> <index>`
pub open spec fn stack_text(keyword: Keyword, segment: Segment, index: u16) -> Seq<u8> {
    keyword.token() + seq![space()] + segment.token() + seq![space()] + decimal_digits(
        index as nat,
    )
}

/// `<keyword> <identifier>`
pub open spec fn label_text(keyword: Keyword, label: Seq<u8>) -> Seq<u8> {
    keyword.token() + seq![space()] + label
}

/// `<keyword> <identifier> <index>`
pub open spec fn fun_text(keyword: Keyword, name: Seq<u8>, n: u16) -> Seq<u8> {
    keyword.token() + seq![space()] + name + seq![space()] + decimal_digits(n as nat)
}

impl<'a> View for Inst<'a> {
    type V = InstView;

    open spec fn view(&self) -> InstView {
        match *self {
            Inst::Arith { op } => InstView::Arith { op },
            Inst::Pop { segment, index } => InstView::Pop { segment, index },
            Inst::Push { segment, index } => InstView::Push { segment, index },
            Inst::DefLabel { label } => InstView::DefLabel { label: label.spec_bytes() },
            Inst::Goto { label } => InstView::Goto { label: label.spec_bytes() },
            Inst::IfGoto { label } => InstView::IfGoto { label: label.spec_bytes() },
            Inst::DefFun { name, nvars } => InstView::DefFun { name: name.spec_bytes(), nvars },
            Inst::Call { name, nargs } => InstView::Call { name: name.spec_bytes(), nargs },
            Inst::Return => InstView::Return,
        }
    }
}

/// Appends `piece` to `out`.
fn push_text(out: &mut String, piece: &str)
    ensures
        encode_utf8(final(out)@) == encode_utf8(old(out)@) + piece.spec_bytes(),
{
    proof {
        lemma_encode_utf8_concat(out@, piece@);
    }
    out.append(piece);
}

/// The text of one decimal digit.
fn digit_name(d: u16) -> (s: &'static str)
    requires
        d < 10,
    ensures
        s.spec_bytes() == seq![digit_byte(d as nat)],
{
    let s = if d == 0 {
        "0"
    } else if d == 1 {
        "1"
    } else if d == 2 {
        "2"
    } else if d == 3 {
        "3"
    } else if d == 4 {
        "4"
    } else if d == 5 {
        "5"
    } else if d == 6 {
        "6"
    } else if d == 7 {
        "7"
    } else if d == 8 {
        "8"
    } else {
        "9"
    };
    proof {
        reveal_strlit("0");
        reveal_strlit("1");
        reveal_strlit("2");
        reveal_strlit("3");
        reveal_strlit("4");
        reveal_strlit("5");
        reveal_strlit("6");
        reveal_strlit("7");
        reveal_strlit("8");
        reveal_strlit("9");
        is_ascii_spec_bytes(s);
    }
    assert(s.spec_bytes() =~= seq![digit_byte(d as nat)]);
    s
}

/// Appends the decimal numeral of `n` to `out`.
fn push_decimal(out: &mut String, n: u16)
    ensures
        encode_utf8(final(out)@) == encode_utf8(old(out)@) + decimal_digits(n as nat),
    decreases n,
{
    if n >= 10 {
        push_decimal(out, n / 10);
    }
    push_text(out, digit_name(n % 10));
    assert(encode_utf8(out@) =~= encode_utf8(old(out)@) + decimal_digits(n as nat));
}

/// Appends one space to `out`.
fn push_space(out: &mut String)
    ensures
        encode_utf8(final(out)@) == encode_utf8(old(out)@) + seq![space()],
{
    proof {
        reveal_strlit(" ");
        is_ascii_spec_bytes(" ");
    }
    assert(" ".spec_bytes() =~= seq![space()]);
    push_text(out, " ");
}

/// The text `<keyword> <segment> <index>`.
fn render_stack(keyword: Keyword, segment: Segment, index: u16) -> (r: String)
    ensures
        encode_utf8(r@) == stack_text(keyword, segment, index),
{
    let mut r = String::from_str(keyword.name());
    push_space(&mut r);
    push_text(&mut r, segment.name());
    push_space(&mut r);
    push_decimal(&mut r, index);
    r
}

/// The text `<keyword> <identifier>`.
fn render_label(keyword: Keyword, label: &str) -> (r: String)
    ensures
        encode_utf8(r@) == label_text(keyword, label.spec_bytes()),
{
    let mut r = String::from_str(keyword.name());
    push_space(&mut r);
    push_text(&mut r, label);
    r
}

/// The text `<keyword> <identifier> <index>`.
fn render_fun(keyword: Keyword, name: &str, n: u16) -> (r: String)
    ensures
        encode_utf8(r@) == fun_text(keyword, name.spec_bytes(), n),
{
    let mut r = String::from_str(keyword.name());
    push_space(&mut r);
    push_text(&mut r, name);
    push_space(&mut r);
    push_decimal(&mut r, n);
    r
}

impl<'a> Inst<'a> {
    /// The instruction's canonical text. Every instruction has one, whatever
    /// its names hold.
    pub fn render(&self) -> (r: String)
        ensures
            encode_utf8(r@) == self@.text(),
    {
        match *self {
            Inst::Arith { op } => op.render(),
            Inst::Pop { segment, index } => render_stack(Keyword::Pop, segment, index),
            Inst::Push { segment, index } => render_stack(Keyword::Push, segment, index),
            Inst::DefLabel { label } => render_label(Keyword::Label, label),
            Inst::Goto { label } => render_label(Keyword::Goto, label),
            Inst::IfGoto { label } => render_label(Keyword::IfGoto, label),
            Inst::DefFun { name, nvars } => render_fun(Keyword::Function, name, nvars),
            Inst::Call { name, nargs } => render_fun(Keyword::Call, name, nargs),
            Inst::Return => String::from_str(Keyword::Return.name()),
        }
    }
}

} // verus!
