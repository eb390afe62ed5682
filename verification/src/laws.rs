//! What holds of text and instructions together: every instruction is read
//! back from its canonical text, and two instructions that differ have
//! different texts.

use crate::inst::{
    fun_text, is_identifier, label_text, stack_text, Inst, InstView, Keyword, Op, Segment,
};
use crate::parser::{
    after, arith_spec, fun_inst, fun_op_spec, ident_spec, index_spec, inst_spec, is_parse_of,
    keyword_at, keyword_of, label_inst, label_op_spec, line_spec, no_match, op_at, op_spec,
    operand, return_spec, segment_at, segment_spec, stack_inst, stack_op_spec, ErrorKind,
    ParseError, Parsed,
};
use crate::text::{
    all_in, decimal_digits, decimal_value, is_alpha, lemma_decimal_digits, lemma_run_len,
    lemma_run_len_is, run_len, space, ByteClass,
};
use vstd::prelude::*;

verus! {

/// Whether nothing of a token can follow: `rest` is empty or starts with a
/// byte that no identifier holds.
pub open spec fn ends_token(rest: Seq<u8>) -> bool {
    rest.len() == 0 || !ByteClass::IdentTail.has(rest[0])
}

/// The first bytes of a text that starts with a keyword are the keyword's.
proof fn lemma_keyword_head(s: Seq<u8>, kw: Seq<u8>)
    requires
        keyword_at(s, kw),
        kw.len() >= 2,
    ensures
        s[0] == kw[0],
        s[1] == kw[1],
        kw.len() >= 3 ==> s[2] == kw[2],
{
    let t = s.take(kw.len() as int);
    assert(t[0] == s[0]);
    assert(t[1] == s[1]);
    if kw.len() >= 3 {
        assert(t[2] == s[2]);
    }
}

/// A token followed by the end of a token is found at the start.
proof fn lemma_keyword_at_start(kw: Seq<u8>, rest: Seq<u8>)
    requires
        ends_token(rest),
    ensures
        keyword_at(kw + rest, kw),
        rest.len() == 0 ==> kw + rest == kw,
{
    assert(rest.len() == 0 ==> kw + rest =~= kw);
    let s = kw + rest;
    assert(s.take(kw.len() as int) =~= kw);
    if rest.len() > 0 {
        assert(s[kw.len() as int] == rest[0]);
    }
}

/// A text starts with at most one operator.
proof fn lemma_op_unique(s: Seq<u8>, a: Op, b: Op)
    requires
        keyword_at(s, a.token()),
        keyword_at(s, b.token()),
    ensures
        a == b,
{
    lemma_keyword_head(s, a.token());
    lemma_keyword_head(s, b.token());
}

/// A text starts with at most one segment.
proof fn lemma_segment_unique(s: Seq<u8>, a: Segment, b: Segment)
    requires
        keyword_at(s, a.token()),
        keyword_at(s, b.token()),
    ensures
        a == b,
{
    lemma_keyword_head(s, a.token());
    lemma_keyword_head(s, b.token());
}

/// A text starts with at most one keyword.
proof fn lemma_keyword_unique(s: Seq<u8>, a: Keyword, b: Keyword)
    requires
        keyword_at(s, a.token()),
        keyword_at(s, b.token()),
    ensures
        a == b,
{
    lemma_keyword_head(s, a.token());
    lemma_keyword_head(s, b.token());
}

/// A text that starts with a keyword starts with no operator.
proof fn lemma_keyword_no_op(s: Seq<u8>, k: Keyword, op: Op)
    requires
        keyword_at(s, k.token()),
    ensures
        !keyword_at(s, op.token()),
{
    lemma_keyword_head(s, k.token());
    if keyword_at(s, op.token()) {
        lemma_keyword_head(s, op.token());
    }
}

/// The operator that is found at the start of a text is the one whose
/// token stands there: the order in which the tokens are tried is of no
/// account.
pub proof fn lemma_op_at(s: Seq<u8>, op: Op)
    ensures
        op_at(s) == Some(op) <==> keyword_at(s, op.token()),
{
    if keyword_at(s, op.token()) {
        if keyword_at(s, Op::Add.token()) {
            lemma_op_unique(s, Op::Add, op);
        }
        if keyword_at(s, Op::Sub.token()) {
            lemma_op_unique(s, Op::Sub, op);
        }
        if keyword_at(s, Op::Neg.token()) {
            lemma_op_unique(s, Op::Neg, op);
        }
        if keyword_at(s, Op::Eq.token()) {
            lemma_op_unique(s, Op::Eq, op);
        }
        if keyword_at(s, Op::Gt.token()) {
            lemma_op_unique(s, Op::Gt, op);
        }
        if keyword_at(s, Op::Lt.token()) {
            lemma_op_unique(s, Op::Lt, op);
        }
        if keyword_at(s, Op::And.token()) {
            lemma_op_unique(s, Op::And, op);
        }
        if keyword_at(s, Op::Or.token()) {
            lemma_op_unique(s, Op::Or, op);
        }
    }
}

/// The segment that is found at the start of a text is the one whose token
/// stands there.
pub proof fn lemma_segment_at(s: Seq<u8>, segment: Segment)
    ensures
        segment_at(s) == Some(segment) <==> keyword_at(s, segment.token()),
{
    if keyword_at(s, segment.token()) {
        if keyword_at(s, Segment::Argument.token()) {
            lemma_segment_unique(s, Segment::Argument, segment);
        }
        if keyword_at(s, Segment::Local.token()) {
            lemma_segment_unique(s, Segment::Local, segment);
        }
        if keyword_at(s, Segment::This.token()) {
            lemma_segment_unique(s, Segment::This, segment);
        }
        if keyword_at(s, Segment::That.token()) {
            lemma_segment_unique(s, Segment::That, segment);
        }
        if keyword_at(s, Segment::Constant.token()) {
            lemma_segment_unique(s, Segment::Constant, segment);
        }
        if keyword_at(s, Segment::Static.token()) {
            lemma_segment_unique(s, Segment::Static, segment);
        }
        if keyword_at(s, Segment::Pointer.token()) {
            lemma_segment_unique(s, Segment::Pointer, segment);
        }
    }
}

/// A text that starts with a keyword starts with no operator, and among
/// keywords only that one is found.
proof fn lemma_keyword_found(s: Seq<u8>, k: Keyword)
    requires
        keyword_at(s, k.token()),
    ensures
        op_at(s) is None,
        forall|a: Keyword, b: Keyword, c: Keyword|
            #[trigger] keyword_of(s, a, b, c) == if a == k || b == k || c == k {
                Some(k)
            } else {
                None
            },
{
    lemma_keyword_no_op(s, k, Op::Add);
    lemma_keyword_no_op(s, k, Op::Sub);
    lemma_keyword_no_op(s, k, Op::Neg);
    lemma_keyword_no_op(s, k, Op::Eq);
    lemma_keyword_no_op(s, k, Op::Gt);
    lemma_keyword_no_op(s, k, Op::Lt);
    lemma_keyword_no_op(s, k, Op::And);
    lemma_keyword_no_op(s, k, Op::Or);
    lemma_keyword_no_op(s, k, Op::Not);
    assert forall|a: Keyword, b: Keyword, c: Keyword|
        #[trigger] keyword_of(s, a, b, c) == if a == k || b == k || c == k {
            Some(k)
        } else {
            None
        } by {
        if keyword_at(s, a.token()) {
            lemma_keyword_unique(s, a, k);
        }
        if keyword_at(s, b.token()) {
            lemma_keyword_unique(s, b, k);
        }
        if keyword_at(s, c.token()) {
            lemma_keyword_unique(s, c, k);
        }
    }
}

/// An operator's token is read as the operator, whatever follows the
/// token.
pub proof fn lemma_op_token(op: Op, rest: Seq<u8>)
    requires
        ends_token(rest),
    ensures
        op_spec(op.token() + rest) == (Parsed::Done { value: op, len: op.token().len() }),
        rest.len() == 0 ==> op.token() + rest == op.token(),
{
    lemma_keyword_at_start(op.token(), rest);
    lemma_op_at(op.token() + rest, op);
}

/// A segment's token is read as the segment, whatever follows the token.
pub proof fn lemma_segment_token(segment: Segment, rest: Seq<u8>)
    requires
        ends_token(rest),
    ensures
        segment_spec(segment.token() + rest) == (Parsed::Done {
            value: segment,
            len: segment.token().len(),
        }),
{
    lemma_keyword_at_start(segment.token(), rest);
    lemma_segment_at(segment.token() + rest, segment);
}

/// The decimal numeral of a number is read as the number, whatever follows
/// the token.
pub proof fn lemma_index_numeral(n: u16, rest: Seq<u8>)
    requires
        ends_token(rest),
    ensures
        index_spec(decimal_digits(n as nat) + rest) == (Parsed::Done {
            value: n,
            len: decimal_digits(n as nat).len(),
        }),
        rest.len() == 0 ==> decimal_digits(n as nat) + rest == decimal_digits(n as nat),
{
    assert(rest.len() == 0 ==> decimal_digits(n as nat) + rest =~= decimal_digits(n as nat));
    let digits = decimal_digits(n as nat);
    let s = digits + rest;
    lemma_decimal_digits(n as nat);
    assert forall|i: int| 0 <= i < digits.len() implies ByteClass::Digit.has(#[trigger] s[i]) by {
        assert(s[i] == digits[i]);
    }
    if rest.len() > 0 {
        assert(s[digits.len() as int] == rest[0]);
    }
    lemma_run_len_is(s, ByteClass::Digit, digits.len());
    assert(s.take(digits.len() as int) =~= digits);
}

/// An identifier is read as itself, whatever follows the token.
pub proof fn lemma_ident_name(name: Seq<u8>, rest: Seq<u8>)
    requires
        is_identifier(name),
        ends_token(rest),
    ensures
        ident_spec(name + rest) == (Parsed::Done { value: name, len: name.len() }),
        rest.len() == 0 ==> name + rest == name,
{
    assert(rest.len() == 0 ==> name + rest =~= name);
    let s = name + rest;
    assert(s[0] == name[0]);
    assert forall|i: int| 0 <= i < name.len() implies ByteClass::IdentTail.has(#[trigger] s[i]) by {
        assert(s[i] == name[i]);
    }
    if rest.len() > 0 {
        assert(s[name.len() as int] == rest[0]);
    }
    lemma_run_len_is(s, ByteClass::IdentTail, name.len());
    assert(s.take(name.len() as int) =~= name);
}

/// The text `head tail`: the space is found after `head`, `tail` follows
/// it, and `head` is followed by the end of a token.
proof fn lemma_one_operand(s: Seq<u8>, head: Seq<u8>, tail: Seq<u8>)
    requires
        s == head + seq![space()] + tail,
    ensures
        s == head + (seq![space()] + tail),
        ends_token(seq![space()] + tail),
        head.len() < s.len(),
        s[head.len() as int] == space(),
        after(s, head.len()) == tail,
        s.len() == head.len() + 1 + tail.len(),
{
    assert(s =~= head + (seq![space()] + tail));
    assert(after(s, head.len()) =~= tail);
    assert((seq![space()] + tail)[0] == space());
}

/// The text `head first second`: as `lemma_one_operand`, for both spaces.
proof fn lemma_two_operands(s: Seq<u8>, head: Seq<u8>, first: Seq<u8>, second: Seq<u8>)
    requires
        s == head + seq![space()] + first + seq![space()] + second,
    ensures
        s == head + (seq![space()] + (first + (seq![space()] + second))),
        ends_token(seq![space()] + (first + (seq![space()] + second))),
        ends_token(seq![space()] + second),
        head.len() < s.len(),
        s[head.len() as int] == space(),
        after(s, head.len()) == first + (seq![space()] + second),
        head.len() + 1 + first.len() < s.len(),
        s[head.len() + 1 + first.len() as int] == space(),
        after(s, head.len() + 1 + first.len()) == second,
        s.len() == head.len() + 1 + first.len() + 1 + second.len(),
{
    let tail = first + (seq![space()] + second);
    assert(s =~= head + seq![space()] + tail);
    lemma_one_operand(s, head, tail);
    lemma_one_operand(s, head + seq![space()] + first, second);
}

/// A stack operation is read back from its canonical text.
pub proof fn lemma_stack_op_text(keyword: Keyword, segment: Segment, index: u16)
    requires
        keyword == Keyword::Pop || keyword == Keyword::Push,
    ensures
        line_spec(stack_text(keyword, segment, index)) == (Parsed::Done {
            value: stack_inst(keyword, segment, index),
            len: stack_text(keyword, segment, index).len(),
        }),
{
    let s = stack_text(keyword, segment, index);
    let digits = decimal_digits(index as nat);
    lemma_two_operands(s, keyword.token(), segment.token(), digits);
    lemma_keyword_at_start(
        keyword.token(),
        seq![space()] + (segment.token() + (seq![space()] + digits)),
    );
    lemma_keyword_found(s, keyword);
    lemma_segment_token(segment, seq![space()] + digits);
    lemma_index_numeral(index, Seq::empty());
    assert(arith_spec(s) == no_match::<InstView>());
    assert(stack_op_spec(s) == Parsed::Done {
        value: stack_inst(keyword, segment, index),
        len: s.len(),
    });
}

/// A text that starts with an operator starts with no keyword.
proof fn lemma_op_found(s: Seq<u8>, op: Op)
    requires
        keyword_at(s, op.token()),
    ensures
        forall|a: Keyword, b: Keyword, c: Keyword| #[trigger] keyword_of(s, a, b, c) is None,
        !keyword_at(s, Keyword::Return.token()),
{
    assert forall|k: Keyword| !keyword_at(s, #[trigger] k.token()) by {
        if keyword_at(s, k.token()) {
            lemma_keyword_no_op(s, k, op);
        }
    }
}

/// An operator's token, alone on a line, is read as the arithmetic
/// instruction of that operator, which takes the whole line; and no other
/// alternative of the grammar reads anything from it.
pub proof fn lemma_arith_text(op: Op)
    ensures
        line_spec(op.token()) == (Parsed::Done {
            value: InstView::Arith { op },
            len: op.token().len(),
        }),
        arith_spec(op.token()) == line_spec(op.token()),
        stack_op_spec(op.token()) == no_match::<InstView>(),
        label_op_spec(op.token()) == no_match::<InstView>(),
        fun_op_spec(op.token()) == no_match::<InstView>(),
        return_spec(op.token()) == no_match::<InstView>(),
{
    lemma_op_token(op, Seq::empty());
    lemma_keyword_at_start(op.token(), Seq::empty());
    lemma_op_found(op.token(), op);
}

/// A label operation is read back from its canonical text.
pub proof fn lemma_label_op_text(keyword: Keyword, label: Seq<u8>)
    requires
        keyword == Keyword::Label || keyword == Keyword::Goto || keyword == Keyword::IfGoto,
        is_identifier(label),
    ensures
        line_spec(label_text(keyword, label)) == (Parsed::Done {
            value: label_inst(keyword, label),
            len: label_text(keyword, label).len(),
        }),
{
    let s = label_text(keyword, label);
    lemma_one_operand(s, keyword.token(), label);
    lemma_keyword_at_start(keyword.token(), seq![space()] + label);
    lemma_keyword_found(s, keyword);
    lemma_ident_name(label, Seq::empty());
    assert(arith_spec(s) == no_match::<InstView>());
    assert(stack_op_spec(s) == no_match::<InstView>());
    assert(label_op_spec(s) == Parsed::Done { value: label_inst(keyword, label), len: s.len() });
}

/// A function operation is read back from its canonical text.
pub proof fn lemma_fun_op_text(keyword: Keyword, name: Seq<u8>, n: u16)
    requires
        keyword == Keyword::Function || keyword == Keyword::Call,
        is_identifier(name),
    ensures
        line_spec(fun_text(keyword, name, n)) == (Parsed::Done {
            value: fun_inst(keyword, name, n),
            len: fun_text(keyword, name, n).len(),
        }),
{
    let s = fun_text(keyword, name, n);
    let digits = decimal_digits(n as nat);
    lemma_two_operands(s, keyword.token(), name, digits);
    lemma_keyword_at_start(keyword.token(), seq![space()] + (name + (seq![space()] + digits)));
    lemma_keyword_found(s, keyword);
    lemma_ident_name(name, seq![space()] + digits);
    lemma_index_numeral(n, Seq::empty());
    assert(arith_spec(s) == no_match::<InstView>());
    assert(stack_op_spec(s) == no_match::<InstView>());
    assert(label_op_spec(s) == no_match::<InstView>());
    assert(fun_op_spec(s) == Parsed::Done { value: fun_inst(keyword, name, n), len: s.len() });
}

/// `return`, alone on a line, is read as the return instruction.
pub proof fn lemma_return_text()
    ensures
        line_spec(Keyword::Return.token()) == (Parsed::Done {
            value: InstView::Return,
            len: Keyword::Return.token().len(),
        }),
{
    let s = Keyword::Return.token();
    lemma_keyword_at_start(s, Seq::empty());
    lemma_keyword_found(s, Keyword::Return);
    assert(arith_spec(s) == no_match::<InstView>());
    assert(stack_op_spec(s) == no_match::<InstView>());
    assert(label_op_spec(s) == no_match::<InstView>());
    assert(fun_op_spec(s) == no_match::<InstView>());
}

/// Every instruction whose names are identifiers is read back from its
/// canonical text, and the text is read to its end.
pub proof fn lemma_parse_text(value: InstView)
    requires
        value.wf(),
    ensures
        line_spec(value.text()) == (Parsed::Done { value, len: value.text().len() }),
{
    match value {
        InstView::Arith { op } => lemma_arith_text(op),
        InstView::Pop { segment, index } => lemma_stack_op_text(Keyword::Pop, segment, index),
        InstView::Push { segment, index } => lemma_stack_op_text(Keyword::Push, segment, index),
        InstView::DefLabel { label } => lemma_label_op_text(Keyword::Label, label),
        InstView::Goto { label } => lemma_label_op_text(Keyword::Goto, label),
        InstView::IfGoto { label } => lemma_label_op_text(Keyword::IfGoto, label),
        InstView::DefFun { name, nvars } => lemma_fun_op_text(Keyword::Function, name, nvars),
        InstView::Call { name, nargs } => lemma_fun_op_text(Keyword::Call, name, nargs),
        InstView::Return => lemma_return_text(),
    }
}

/// Whether `s` is a canonical line: the canonical text of an instruction
/// whose names are identifiers.
pub open spec fn is_canonical(s: Seq<u8>) -> bool {
    exists|value: InstView| value.wf() && #[trigger] value.text() == s
}

/// A canonical line is read as an instruction whose canonical text is that
/// line, byte for byte.
pub proof fn lemma_round_trip(s: Seq<u8>)
    requires
        is_canonical(s),
    ensures
        line_spec(s) matches Parsed::Done { value, len } && value.text() == s && len == s.len(),
{
    let value = choose|value: InstView| value.wf() && #[trigger] value.text() == s;
    lemma_parse_text(value);
}

/// Two instructions with the same canonical text are the same instruction.
pub proof fn lemma_text_injective(a: InstView, b: InstView)
    requires
        a.wf(),
        b.wf(),
        a.text() == b.text(),
    ensures
        a == b,
{
    lemma_parse_text(a);
    lemma_parse_text(b);
}

/// Parsing has one answer: two results of `parse` on the same line are
/// the same instruction, or the same failure at the same place.
pub proof fn lemma_parse_deterministic<'a, 'b>(
    line: Seq<u8>,
    first: Result<Inst<'a>, ParseError>,
    second: Result<Inst<'b>, ParseError>,
)
    requires
        is_parse_of(line, first),
        is_parse_of(line, second),
    ensures
        match (first, second) {
            (Ok(a), Ok(b)) => a@ == b@,
            (Err(a), Err(b)) => a == b,
            _ => false,
        },
{
}

/// An identifier that was read is an identifier, and it is the text that
/// was read.
pub proof fn lemma_ident_spec(s: Seq<u8>)
    ensures
        match ident_spec(s) {
            Parsed::Done { value, len } => is_identifier(value) && value == s.take(len as int) && 1
                <= len <= s.len(),
            Parsed::Failed { kind, at } => kind == ErrorKind::MalformedIdentifier && at == 0,
        },
{
    lemma_run_len(s, ByteClass::IdentTail);
    if s.len() > 0 && is_alpha(s[0]) {
        let n = run_len(s, ByteClass::IdentTail);
        assert(s.take(n as int)[0] == s[0]);
    }
}

/// An index that was read stands in the text as digits, and at least one.
pub proof fn lemma_index_spec(s: Seq<u8>)
    ensures
        match index_spec(s) {
            Parsed::Done { value, len } => value == decimal_value(s.take(len as int)) && all_in(
                s.take(len as int),
                ByteClass::Digit,
            ) && 1 <= len <= s.len(),
            Parsed::Failed { kind, at } => kind == ErrorKind::MalformedIndex && at == 0,
        },
{
    lemma_run_len(s, ByteClass::Digit);
}

/// What is read lies inside the text. An instruction that was read has
/// identifiers for names; a failure lies at most at the end of the text,
/// and is none of trailing input.
pub proof fn lemma_inst_spec(s: Seq<u8>)
    ensures
        match inst_spec(s) {
            Parsed::Done { value, len } => value.wf() && 1 <= len <= s.len(),
            Parsed::Failed { kind, at } => kind != ErrorKind::TrailingInput && at <= s.len(),
        },
{
    lemma_arith_spec(s);
    lemma_stack_op_spec(s);
    lemma_label_op_spec(s);
    lemma_fun_op_spec(s);
    lemma_return_spec(s);
}

proof fn lemma_arith_spec(s: Seq<u8>)
    ensures
        match arith_spec(s) {
            Parsed::Done { value, len } => value.wf() && 1 <= len <= s.len(),
            Parsed::Failed { kind, at } => kind != ErrorKind::TrailingInput && at <= s.len(),
        },
{
}

proof fn lemma_return_spec(s: Seq<u8>)
    ensures
        match return_spec(s) {
            Parsed::Done { value, len } => value.wf() && 1 <= len <= s.len(),
            Parsed::Failed { kind, at } => kind != ErrorKind::TrailingInput && at <= s.len(),
        },
{
}

proof fn lemma_stack_op_spec(s: Seq<u8>)
    ensures
        match stack_op_spec(s) {
            Parsed::Done { value, len } => value.wf() && 1 <= len <= s.len(),
            Parsed::Failed { kind, at } => kind != ErrorKind::TrailingInput && at <= s.len(),
        },
{
    match keyword_of(s, Keyword::Pop, Keyword::Push, Keyword::Push) {
        None => {},
        Some(keyword) => {
            let p = keyword.token().len();
            match operand(s, p, ErrorKind::UnrecognizedKeyword, segment_spec(after(s, p))) {
                Parsed::Failed { kind, at } => {},
                Parsed::Done { value: segment, len: q } => {
                    lemma_index_spec(after(s, q));
                },
            }
        },
    }
}

proof fn lemma_label_op_spec(s: Seq<u8>)
    ensures
        match label_op_spec(s) {
            Parsed::Done { value, len } => value.wf() && 1 <= len <= s.len(),
            Parsed::Failed { kind, at } => kind != ErrorKind::TrailingInput && at <= s.len(),
        },
{
    match keyword_of(s, Keyword::Label, Keyword::Goto, Keyword::IfGoto) {
        None => {},
        Some(keyword) => {
            lemma_ident_spec(after(s, keyword.token().len()));
        },
    }
}

proof fn lemma_fun_op_spec(s: Seq<u8>)
    ensures
        match fun_op_spec(s) {
            Parsed::Done { value, len } => value.wf() && 1 <= len <= s.len(),
            Parsed::Failed { kind, at } => kind != ErrorKind::TrailingInput && at <= s.len(),
        },
{
    match keyword_of(s, Keyword::Function, Keyword::Call, Keyword::Call) {
        None => {},
        Some(keyword) => {
            let p = keyword.token().len();
            lemma_ident_spec(after(s, p));
            match operand(s, p, ErrorKind::MalformedIdentifier, ident_spec(after(s, p))) {
                Parsed::Failed { kind, at } => {},
                Parsed::Done { value: name, len: q } => {
                    lemma_index_spec(after(s, q));
                },
            }
        },
    }
}

/// A line that is read is an instruction whose names are identifiers, and
/// it is read to its end.
pub proof fn lemma_line_spec(s: Seq<u8>)
    ensures
        match line_spec(s) {
            Parsed::Done { value, len } => value.wf() && len == s.len() && len >= 1,
            Parsed::Failed { kind, at } => at <= s.len(),
        },
{
    lemma_inst_spec(s);
}

/// What was read from a line is read again from its canonical text: the
/// canonical text of a line says what the line says.
pub proof fn lemma_reparse(s: Seq<u8>)
    ensures
        line_spec(s) matches Parsed::Done { value, len } ==> line_spec(value.text()) == (
        Parsed::Done { value, len: value.text().len() }),
{
    lemma_line_spec(s);
    if let Parsed::Done { value, len } = line_spec(s) {
        lemma_parse_text(value);
    }
}

} // verus!
