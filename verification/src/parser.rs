//! The grammar of one instruction, as functions from text to what it
//! means, and the parsers that compute them.
//!
//! Every token ends where a byte follows that no identifier can hold, or at
//! the end of the text: `addx` is not `add`, and `12a` is no number. Exactly
//! one space stands between a keyword and its operand and between two
//! operands; nothing is skipped. An alternative whose keyword was found is
//! the one that decides: what goes wrong after the keyword is the error of
//! the whole.

use crate::inst::{Inst, InstView, Keyword, Op, Segment};
use crate::scan::{alpha_prefix, alphanumeric_prefix, digit_prefix, utf8_text};
use crate::text::{
    decimal_value, is_alpha, is_punct, lemma_ascii_valid_utf8, lemma_decimal_value_prefix,
    lemma_decimal_value_step, lemma_run_len, lemma_run_len_is, run_len, space, ByteClass,
};
use vstd::prelude::*;
use vstd::slice::slice_subrange;
use vstd::string::StringSliceAdditionalSpecFns;

verus! {

/// Why a text is no instruction.
#[derive(Clone, Copy, Debug, PartialEq, Eq)]
pub enum ErrorKind {
    /// No keyword that may stand here was found.
    UnrecognizedKeyword,
    /// No digits, digits with something else in the token, or a number
    /// above 65535.
    MalformedIndex,
    /// No identifier: the text does not start with a letter.
    MalformedIdentifier,
    /// An instruction was read and the line goes on after it.
    TrailingInput,
}

/// A failure and the place of it: `offset` bytes of the text lie before the
/// part that could not be read.
#[derive(Clone, Copy, Debug, PartialEq, Eq)]
pub struct ParseError {
    pub kind: ErrorKind,
    pub offset: usize,
}

/// What the grammar makes of a text: a value read from its first `len`
/// bytes, or a failure `at` bytes into it.
pub enum Parsed<T> {
    Done { value: T, len: nat },
    Failed { kind: ErrorKind, at: nat },
}

/// The failure of an alternative whose keyword was not found.
pub open spec fn no_match<T>() -> Parsed<T> {
    Parsed::Failed { kind: ErrorKind::UnrecognizedKeyword, at: 0 }
}

/// `rest` is what follows the value in `input`, and `p` says so.
pub open spec fn reads<T>(input: Seq<u8>, rest: Seq<u8>, value: T, p: Parsed<T>) -> bool {
    &&& rest.len() <= input.len()
    &&& rest == input.skip(input.len() - rest.len())
    &&& p == Parsed::Done { value, len: (input.len() - rest.len()) as nat }
}

/// `e` is the failure that `p` is, inside `input`.
pub open spec fn fails<T>(input: Seq<u8>, e: ParseError, p: Parsed<T>) -> bool {
    &&& e.offset <= input.len()
    &&& p == Parsed::<T>::Failed { kind: e.kind, at: e.offset as nat }
}

/// Whether `s` starts with the token `kw`, and the token ends there.
pub open spec fn keyword_at(s: Seq<u8>, kw: Seq<u8>) -> bool {
    &&& kw.len() <= s.len()
    &&& s.take(kw.len() as int) =~= kw
    &&& (kw.len() < s.len() ==> !ByteClass::IdentTail.has(s[kw.len() as int]))
}

/// The operator whose token `s` starts with.
pub open spec fn op_at(s: Seq<u8>) -> Option<Op> {
    if keyword_at(s, Op::Add.token()) {
        Some(Op::Add)
    } else if keyword_at(s, Op::Sub.token()) {
        Some(Op::Sub)
    } else if keyword_at(s, Op::Neg.token()) {
        Some(Op::Neg)
    } else if keyword_at(s, Op::Eq.token()) {
        Some(Op::Eq)
    } else if keyword_at(s, Op::Gt.token()) {
        Some(Op::Gt)
    } else if keyword_at(s, Op::Lt.token()) {
        Some(Op::Lt)
    } else if keyword_at(s, Op::And.token()) {
        Some(Op::And)
    } else if keyword_at(s, Op::Or.token()) {
        Some(Op::Or)
    } else if keyword_at(s, Op::Not.token()) {
        Some(Op::Not)
    } else {
        None
    }
}

/// The segment whose token `s` starts with.
pub open spec fn segment_at(s: Seq<u8>) -> Option<Segment> {
    if keyword_at(s, Segment::Argument.token()) {
        Some(Segment::Argument)
    } else if keyword_at(s, Segment::Local.token()) {
        Some(Segment::Local)
    } else if keyword_at(s, Segment::This.token()) {
        Some(Segment::This)
    } else if keyword_at(s, Segment::That.token()) {
        Some(Segment::That)
    } else if keyword_at(s, Segment::Constant.token()) {
        Some(Segment::Constant)
    } else if keyword_at(s, Segment::Static.token()) {
        Some(Segment::Static)
    } else if keyword_at(s, Segment::Pointer.token()) {
        Some(Segment::Pointer)
    } else if keyword_at(s, Segment::Temp.token()) {
        Some(Segment::Temp)
    } else {
        None
    }
}

/// The first of `a`, `b` and `c` that `s` starts with. A keyword may be
/// named twice where there are fewer than three to look for.
pub open spec fn keyword_of(s: Seq<u8>, a: Keyword, b: Keyword, c: Keyword) -> Option<Keyword> {
    if keyword_at(s, a.token()) {
        Some(a)
    } else if keyword_at(s, b.token()) {
        Some(b)
    } else if keyword_at(s, c.token()) {
        Some(c)
    } else {
        None
    }
}

/// An operator: one of its nine tokens.
pub open spec fn op_spec(s: Seq<u8>) -> Parsed<Op> {
    match op_at(s) {
        Some(op) => Parsed::Done { value: op, len: op.token().len() },
        None => no_match(),
    }
}

/// A segment: one of its eight tokens.
pub open spec fn segment_spec(s: Seq<u8>) -> Parsed<Segment> {
    match segment_at(s) {
        Some(segment) => Parsed::Done { value: segment, len: segment.token().len() },
        None => no_match(),
    }
}

/// An index: the longest run of decimal digits that `s` starts with, where
/// there is one, the token ends with it, and the number it stands for is at
/// most 65535. Leading zeros count for nothing.
pub open spec fn index_spec(s: Seq<u8>) -> Parsed<u16> {
    let n = run_len(s, ByteClass::Digit);
    let value = decimal_value(s.take(n as int));
    if n == 0 || (n < s.len() && ByteClass::IdentTail.has(s[n as int])) || value > 0xffff {
        Parsed::Failed { kind: ErrorKind::MalformedIndex, at: 0 }
    } else {
        Parsed::Done { value: value as u16, len: n }
    }
}

/// An identifier: a letter and the longest run of letters, digits, `_`, `.`
/// and `$` that follows it.
pub open spec fn ident_spec(s: Seq<u8>) -> Parsed<Seq<u8>> {
    if s.len() > 0 && is_alpha(s[0]) {
        let n = run_len(s, ByteClass::IdentTail);
        Parsed::Done { value: s.take(n as int), len: n }
    } else {
        Parsed::Failed { kind: ErrorKind::MalformedIdentifier, at: 0 }
    }
}

/// An operand after the first `p` bytes of `s`: one space, and then what
/// `next` says of the bytes after the space. Where no space stands at `p`,
/// the operand is `missing`.
pub open spec fn operand<T>(s: Seq<u8>, p: nat, missing: ErrorKind, next: Parsed<T>) -> Parsed<T> {
    if p < s.len() && s[p as int] == space() {
        match next {
            Parsed::Done { value, len } => Parsed::Done { value, len: p + 1 + len },
            Parsed::Failed { kind, at } => Parsed::Failed { kind, at: p + 1 + at },
        }
    } else {
        Parsed::Failed { kind: missing, at: p }
    }
}

/// The bytes of `s` after the first `p` and the space that follows them.
pub open spec fn after(s: Seq<u8>, p: nat) -> Seq<u8> {
    s.skip(p + 1 as int)
}

/// The instruction that `keyword` makes of a segment and an index.
pub open spec fn stack_inst(keyword: Keyword, segment: Segment, index: u16) -> InstView {
    if keyword == Keyword::Pop {
        InstView::Pop { segment, index }
    } else {
        InstView::Push { segment, index }
    }
}

/// The instruction that `keyword` makes of a label.
pub open spec fn label_inst(keyword: Keyword, label: Seq<u8>) -> InstView {
    if keyword == Keyword::Label {
        InstView::DefLabel { label }
    } else if keyword == Keyword::Goto {
        InstView::Goto { label }
    } else {
        InstView::IfGoto { label }
    }
}

/// The instruction that `keyword` makes of a name and a count.
pub open spec fn fun_inst(keyword: Keyword, name: Seq<u8>, n: u16) -> InstView {
    if keyword == Keyword::Function {
        InstView::DefFun { name, nvars: n }
    } else {
        InstView::Call { name, nargs: n }
    }
}

/// An arithmetic or logical instruction: an operator.
pub open spec fn arith_spec(s: Seq<u8>) -> Parsed<InstView> {
    match op_spec(s) {
        Parsed::Done { value, len } => Parsed::Done { value: InstView::Arith { op: value }, len },
        Parsed::Failed { kind, at } => Parsed::Failed { kind, at },
    }
}

/// A stack operation: `pop` or `push`, a segment and an index.
pub open spec fn stack_op_spec(s: Seq<u8>) -> Parsed<InstView> {
    match keyword_of(s, Keyword::Pop, Keyword::Push, Keyword::Push) {
        None => no_match(),
        Some(keyword) => {
            let p = keyword.token().len();
            match operand(s, p, ErrorKind::UnrecognizedKeyword, segment_spec(after(s, p))) {
                Parsed::Failed { kind, at } => Parsed::Failed { kind, at },
                Parsed::Done { value: segment, len: q } => match operand(
                    s,
                    q,
                    ErrorKind::MalformedIndex,
                    index_spec(after(s, q)),
                ) {
                    Parsed::Failed { kind, at } => Parsed::Failed { kind, at },
                    Parsed::Done { value: index, len } => Parsed::Done {
                        value: stack_inst(keyword, segment, index),
                        len,
                    },
                },
            }
        },
    }
}

/// A label operation: `label`, `goto` or `if-goto`, and an identifier.
pub open spec fn label_op_spec(s: Seq<u8>) -> Parsed<InstView> {
    match keyword_of(s, Keyword::Label, Keyword::Goto, Keyword::IfGoto) {
        None => no_match(),
        Some(keyword) => {
            let p = keyword.token().len();
            match operand(s, p, ErrorKind::MalformedIdentifier, ident_spec(after(s, p))) {
                Parsed::Failed { kind, at } => Parsed::Failed { kind, at },
                Parsed::Done { value: label, len } => Parsed::Done {
                    value: label_inst(keyword, label),
                    len,
                },
            }
        },
    }
}

/// A function operation: `function` or `call`, an identifier and an index.
pub open spec fn fun_op_spec(s: Seq<u8>) -> Parsed<InstView> {
    match keyword_of(s, Keyword::Function, Keyword::Call, Keyword::Call) {
        None => no_match(),
        Some(keyword) => {
            let p = keyword.token().len();
            match operand(s, p, ErrorKind::MalformedIdentifier, ident_spec(after(s, p))) {
                Parsed::Failed { kind, at } => Parsed::Failed { kind, at },
                Parsed::Done { value: name, len: q } => match operand(
                    s,
                    q,
                    ErrorKind::MalformedIndex,
                    index_spec(after(s, q)),
                ) {
                    Parsed::Failed { kind, at } => Parsed::Failed { kind, at },
                    Parsed::Done { value: n, len } => Parsed::Done {
                        value: fun_inst(keyword, name, n),
                        len,
                    },
                },
            }
        },
    }
}

/// The instruction `return`.
pub open spec fn return_spec(s: Seq<u8>) -> Parsed<InstView> {
    if keyword_at(s, Keyword::Return.token()) {
        Parsed::Done { value: InstView::Return, len: Keyword::Return.token().len() }
    } else {
        no_match()
    }
}

/// `first`, unless its keyword was not found: then `second`.
pub open spec fn or_else<T>(first: Parsed<T>, second: Parsed<T>) -> Parsed<T> {
    if first == no_match::<T>() {
        second
    } else {
        first
    }
}

/// An instruction at the start of `s`: the alternatives in their order.
pub open spec fn inst_spec(s: Seq<u8>) -> Parsed<InstView> {
    or_else(
        arith_spec(s),
        or_else(
            stack_op_spec(s),
            or_else(label_op_spec(s), or_else(fun_op_spec(s), return_spec(s))),
        ),
    )
}

/// A line: one instruction and nothing after it.
pub open spec fn line_spec(s: Seq<u8>) -> Parsed<InstView> {
    match inst_spec(s) {
        Parsed::Done { value, len } => if len == s.len() {
            Parsed::Done { value, len }
        } else {
            Parsed::Failed { kind: ErrorKind::TrailingInput, at: len }
        },
        Parsed::Failed { kind, at } => Parsed::Failed { kind, at },
    }
}

/// What `parse` says of a line: the instruction that the line is, or the
/// failure that the grammar finds in it.
pub open spec fn is_parse_of<'a>(line: Seq<u8>, r: Result<Inst<'a>, ParseError>) -> bool {
    match r {
        Ok(value) => line_spec(line) == (Parsed::Done { value: value@, len: line.len() }),
        Err(e) => fails(line, e, line_spec(line)),
    }
}

/// Whether `b` may stand in an identifier after its first byte.
fn is_ident_tail(b: u8) -> (r: bool)
    ensures
        r == ByteClass::IdentTail.has(b),
{
    (0x41 <= b && b <= 0x5a) || (0x61 <= b && b <= 0x7a) || (0x30 <= b && b <= 0x39) || b == 0x5f
        || b == 0x2e || b == 0x24
}

/// The bytes of `input` after the first `n`.
fn tail<'a>(input: &'a [u8], n: usize) -> (rest: &'a [u8])
    requires
        n <= input@.len(),
    ensures
        rest@ == input@.skip(n as int),
{
    slice_subrange(input, n, input.len())
}

/// Whether `input` starts with the keyword `kw`, and the token ends there.
fn keyword_prefix(input: &[u8], kw: &str) -> (r: bool)
    ensures
        r == keyword_at(input@, kw.spec_bytes()),
{
    let k = kw.as_bytes();
    let n = k.len();
    if input.len() < n {
        return false;
    }
    let mut i: usize = 0;
    while i < n
        invariant
            i <= n,
            n == k@.len(),
            k@ == kw.spec_bytes(),
            n <= input@.len(),
            forall|j: int| 0 <= j < i ==> input@[j] == k@[j],
        decreases n - i,
    {
        if input[i] != k[i] {
            assert(input@.take(n as int)[i as int] != k@[i as int]);
            return false;
        }
        i += 1;
    }
    assert(input@.take(n as int) =~= k@);
    !(n < input.len() && is_ident_tail(input[n]))
}

/// The first of `a`, `b` and `c` that `input` starts with.
fn find_keyword(input: &[u8], a: Keyword, b: Keyword, c: Keyword) -> (r: Option<Keyword>)
    ensures
        r == keyword_of(input@, a, b, c),
{
    if keyword_prefix(input, a.name()) {
        Some(a)
    } else if keyword_prefix(input, b.name()) {
        Some(b)
    } else if keyword_prefix(input, c.name()) {
        Some(c)
    } else {
        None
    }
}

/// The failure of an alternative whose keyword was not found.
fn unrecognized() -> (e: ParseError)
    ensures
        e == (ParseError { kind: ErrorKind::UnrecognizedKeyword, offset: 0 }),
{
    ParseError { kind: ErrorKind::UnrecognizedKeyword, offset: 0 }
}

/// Reads an operator.
pub fn op<'a>(input: &'a [u8]) -> (r: Result<(&'a [u8], Op), ParseError>)
    ensures
        match r {
            Ok((rest, value)) => reads(input@, rest@, value, op_spec(input@)),
            Err(e) => fails(input@, e, op_spec(input@)),
        },
{
    let found = if keyword_prefix(input, Op::Add.name()) {
        Some(Op::Add)
    } else if keyword_prefix(input, Op::Sub.name()) {
        Some(Op::Sub)
    } else if keyword_prefix(input, Op::Neg.name()) {
        Some(Op::Neg)
    } else if keyword_prefix(input, Op::Eq.name()) {
        Some(Op::Eq)
    } else if keyword_prefix(input, Op::Gt.name()) {
        Some(Op::Gt)
    } else if keyword_prefix(input, Op::Lt.name()) {
        Some(Op::Lt)
    } else if keyword_prefix(input, Op::And.name()) {
        Some(Op::And)
    } else if keyword_prefix(input, Op::Or.name()) {
        Some(Op::Or)
    } else if keyword_prefix(input, Op::Not.name()) {
        Some(Op::Not)
    } else {
        None
    };
    match found {
        Some(value) => Ok((tail(input, value.name().len()), value)),
        None => Err(unrecognized()),
    }
}

/// Reads an arithmetic or logical instruction.
pub fn arith<'a>(input: &'a [u8]) -> (r: Result<(&'a [u8], Inst<'a>), ParseError>)
    ensures
        match r {
            Ok((rest, value)) => reads(input@, rest@, value@, arith_spec(input@)),
            Err(e) => fails(input@, e, arith_spec(input@)),
        },
{
    match op(input) {
        Ok((rest, value)) => Ok((rest, Inst::Arith { op: value })),
        Err(e) => Err(e),
    }
}

/// Reads a segment.
pub fn segment<'a>(input: &'a [u8]) -> (r: Result<(&'a [u8], Segment), ParseError>)
    ensures
        match r {
            Ok((rest, value)) => reads(input@, rest@, value, segment_spec(input@)),
            Err(e) => fails(input@, e, segment_spec(input@)),
        },
{
    let found = if keyword_prefix(input, Segment::Argument.name()) {
        Some(Segment::Argument)
    } else if keyword_prefix(input, Segment::Local.name()) {
        Some(Segment::Local)
    } else if keyword_prefix(input, Segment::This.name()) {
        Some(Segment::This)
    } else if keyword_prefix(input, Segment::That.name()) {
        Some(Segment::That)
    } else if keyword_prefix(input, Segment::Constant.name()) {
        Some(Segment::Constant)
    } else if keyword_prefix(input, Segment::Static.name()) {
        Some(Segment::Static)
    } else if keyword_prefix(input, Segment::Pointer.name()) {
        Some(Segment::Pointer)
    } else if keyword_prefix(input, Segment::Temp.name()) {
        Some(Segment::Temp)
    } else {
        None
    };
    match found {
        Some(value) => Ok((tail(input, value.name().len()), value)),
        None => Err(unrecognized()),
    }
}

/// The number that the digits of `run` stand for, where it is at most
/// 65535.
fn decimal(run: &[u8]) -> (r: Option<u16>)
    requires
        forall|i: int| 0 <= i < run@.len() ==> ByteClass::Digit.has(#[trigger] run@[i]),
    ensures
        match r {
            Some(value) => value == decimal_value(run@),
            None => decimal_value(run@) > 0xffff,
        },
{
    let mut value: u32 = 0;
    let mut i: usize = 0;
    while i < run.len()
        invariant
            i <= run@.len(),
            value == decimal_value(run@.take(i as int)),
            value <= 0xffff,
            forall|j: int| 0 <= j < run@.len() ==> ByteClass::Digit.has(#[trigger] run@[j]),
        decreases run@.len() - i,
    {
        assert(ByteClass::Digit.has(run@[i as int]));
        let d: u32 = (run[i] - 0x30) as u32;
        proof {
            lemma_decimal_value_step(run@, i as int);
        }
        value = value * 10 + d;
        if value > 0xffff {
            proof {
                lemma_decimal_value_prefix(run@, i + 1);
            }
            return None;
        }
        i += 1;
    }
    assert(run@.take(i as int) =~= run@);
    Some(value as u16)
}

/// Reads an index.
pub fn index<'a>(input: &'a [u8]) -> (r: Result<(&'a [u8], u16), ParseError>)
    ensures
        match r {
            Ok((rest, value)) => reads(input@, rest@, value, index_spec(input@)),
            Err(e) => fails(input@, e, index_spec(input@)),
        },
{
    let malformed = ParseError { kind: ErrorKind::MalformedIndex, offset: 0 };
    proof {
        lemma_run_len(input@, ByteClass::Digit);
    }
    match digit_prefix(input) {
        None => Err(malformed),
        Some((rest, run)) => {
            if rest.len() > 0 && is_ident_tail(rest[0]) {
                return Err(malformed);
            }
            match decimal(run) {
                Some(value) => Ok((rest, value)),
                None => Err(malformed),
            }
        },
    }
}

/// Reads an identifier.
pub fn ident<'a>(input: &'a [u8]) -> (r: Result<(&'a [u8], &'a str), ParseError>)
    ensures
        match r {
            Ok((rest, value)) => reads(input@, rest@, value.spec_bytes(), ident_spec(input@)),
            Err(e) => fails(input@, e, ident_spec(input@)),
        },
{
    let malformed = ParseError { kind: ErrorKind::MalformedIdentifier, offset: 0 };
    proof {
        lemma_run_len(input@, ByteClass::Alpha);
    }
    let mut rest = match alpha_prefix(input) {
        None => {
            return Err(malformed);
        },
        Some((rest, _)) => rest,
    };
    assert(input@.take(run_len(input@, ByteClass::Alpha) as int)[0] == input@[0]);
    let ghost head = run_len(input@, ByteClass::Alpha);
    assert forall|j: int| 0 <= j < head implies ByteClass::IdentTail.has(#[trigger] input@[j]) by {
        assert(input@.take(head as int)[j] == input@[j]);
    }
    loop
        invariant_except_break
            1 <= input@.len() - rest@.len() <= input@.len(),
            rest@ == input@.skip(input@.len() - rest@.len()),
            forall|j: int|
                0 <= j < input@.len() - rest@.len() ==> ByteClass::IdentTail.has(
                    #[trigger] input@[j],
                ),
        ensures
            1 <= input@.len() - rest@.len() <= input@.len(),
            rest@ == input@.skip(input@.len() - rest@.len()),
            input@.len() - rest@.len() == run_len(input@, ByteClass::IdentTail),
        decreases rest@.len(),
    {
        let ghost k = input@.len() - rest@.len();
        proof {
            lemma_run_len(rest@, ByteClass::Alphanumeric);
        }
        match alphanumeric_prefix(rest) {
            Some((more, _)) => {
                let ghost m = run_len(rest@, ByteClass::Alphanumeric);
                assert forall|j: int| 0 <= j < k + m implies ByteClass::IdentTail.has(
                    #[trigger] input@[j],
                ) by {
                    if j >= k {
                        assert(rest@.take(m as int)[j - k] == input@[j]);
                    }
                }
                assert(more@ =~= input@.skip(k + m));
                rest = more;
            },
            None => {
                if rest.len() > 0 && (rest[0] == 0x5f || rest[0] == 0x2e || rest[0] == 0x24) {
                    let more = tail(rest, 1);
                    assert(rest@[0] == input@[k]);
                    assert(more@ =~= input@.skip(k + 1));
                    rest = more;
                } else {
                    proof {
                        if rest@.len() > 0 {
                            assert(rest@[0] == input@[k]);
                            assert(!is_punct(rest@[0]));
                        }
                        lemma_run_len_is(input@, ByteClass::IdentTail, k as nat);
                    }
                    break ;
                }
            },
        }
    }
    let n = input.len() - rest.len();
    let name = slice_subrange(input, 0, n);
    proof {
        lemma_run_len(input@, ByteClass::IdentTail);
        assert forall|j: int| 0 <= j < name@.len() implies #[trigger] name@[j] < 0x80 by {
            assert(ByteClass::IdentTail.has(input@.take(n as int)[j]));
        }
        lemma_ascii_valid_utf8(name@);
    }
    match utf8_text(name) {
        Some(value) => Ok((rest, value)),
        None => Err(malformed),
    }
}

/// The bytes after the space that stands after the first `p` bytes of
/// `input`, where one stands there; else the failure of the operand that is
/// `missing`.
fn operand_start<'a>(input: &'a [u8], p: usize, missing: ErrorKind) -> (r: Result<
    &'a [u8],
    ParseError,
>)
    requires
        p <= input@.len(),
    ensures
        match r {
            Ok(rest) => p < input@.len() && input@[p as int] == space() && rest@ == after(
                input@,
                p as nat,
            ),
            Err(e) => !(p < input@.len() && input@[p as int] == space()) && e == (ParseError {
                kind: missing,
                offset: p,
            }),
        },
{
    if p < input.len() && input[p] == 0x20 {
        Ok(tail(input, p + 1))
    } else {
        Err(ParseError { kind: missing, offset: p })
    }
}

/// The failure `e` of an operand that starts `start` bytes into the text.
fn moved(e: ParseError, start: usize) -> (r: ParseError)
    requires
        e.offset + start <= usize::MAX,
    ensures
        r == (ParseError { kind: e.kind, offset: (e.offset + start) as usize }),
{
    ParseError { kind: e.kind, offset: e.offset + start }
}

/// Reads a stack operation.
pub fn stack_op<'a>(input: &'a [u8]) -> (r: Result<(&'a [u8], Inst<'a>), ParseError>)
    ensures
        match r {
            Ok((rest, value)) => reads(input@, rest@, value@, stack_op_spec(input@)),
            Err(e) => fails(input@, e, stack_op_spec(input@)),
        },
{
    let keyword = match find_keyword(input, Keyword::Pop, Keyword::Push, Keyword::Push) {
        None => {
            return Err(unrecognized());
        },
        Some(keyword) => keyword,
    };
    let p = keyword.name().len();
    let text = match operand_start(input, p, ErrorKind::UnrecognizedKeyword) {
        Err(e) => {
            return Err(e);
        },
        Ok(text) => text,
    };
    let (rest, segment) = match segment(text) {
        Err(e) => {
            return Err(moved(e, p + 1));
        },
        Ok(found) => found,
    };
    let q = input.len() - rest.len();
    assert(rest@ =~= input@.skip(q as int));
    let text = match operand_start(input, q, ErrorKind::MalformedIndex) {
        Err(e) => {
            return Err(e);
        },
        Ok(text) => text,
    };
    let (rest, index) = match index(text) {
        Err(e) => {
            return Err(moved(e, q + 1));
        },
        Ok(found) => found,
    };
    assert(rest@ =~= input@.skip(input@.len() - rest@.len()));
    let value = match keyword {
        Keyword::Pop => Inst::Pop { segment, index },
        _ => Inst::Push { segment, index },
    };
    Ok((rest, value))
}

/// Reads a label operation.
pub fn label_op<'a>(input: &'a [u8]) -> (r: Result<(&'a [u8], Inst<'a>), ParseError>)
    ensures
        match r {
            Ok((rest, value)) => reads(input@, rest@, value@, label_op_spec(input@)),
            Err(e) => fails(input@, e, label_op_spec(input@)),
        },
{
    let keyword = match find_keyword(input, Keyword::Label, Keyword::Goto, Keyword::IfGoto) {
        None => {
            return Err(unrecognized());
        },
        Some(keyword) => keyword,
    };
    let p = keyword.name().len();
    let text = match operand_start(input, p, ErrorKind::MalformedIdentifier) {
        Err(e) => {
            return Err(e);
        },
        Ok(text) => text,
    };
    let (rest, label) = match ident(text) {
        Err(e) => {
            return Err(moved(e, p + 1));
        },
        Ok(found) => found,
    };
    assert(rest@ =~= input@.skip(input@.len() - rest@.len()));
    let value = match keyword {
        Keyword::Label => Inst::DefLabel { label },
        Keyword::Goto => Inst::Goto { label },
        _ => Inst::IfGoto { label },
    };
    Ok((rest, value))
}

/// Reads a function operation.
pub fn fun_op<'a>(input: &'a [u8]) -> (r: Result<(&'a [u8], Inst<'a>), ParseError>)
    ensures
        match r {
            Ok((rest, value)) => reads(input@, rest@, value@, fun_op_spec(input@)),
            Err(e) => fails(input@, e, fun_op_spec(input@)),
        },
{
    let keyword = match find_keyword(input, Keyword::Function, Keyword::Call, Keyword::Call) {
        None => {
            return Err(unrecognized());
        },
        Some(keyword) => keyword,
    };
    let p = keyword.name().len();
    let text = match operand_start(input, p, ErrorKind::MalformedIdentifier) {
        Err(e) => {
            return Err(e);
        },
        Ok(text) => text,
    };
    let (rest, name) = match ident(text) {
        Err(e) => {
            return Err(moved(e, p + 1));
        },
        Ok(found) => found,
    };
    let q = input.len() - rest.len();
    assert(rest@ =~= input@.skip(q as int));
    let text = match operand_start(input, q, ErrorKind::MalformedIndex) {
        Err(e) => {
            return Err(e);
        },
        Ok(text) => text,
    };
    let (rest, n) = match index(text) {
        Err(e) => {
            return Err(moved(e, q + 1));
        },
        Ok(found) => found,
    };
    assert(rest@ =~= input@.skip(input@.len() - rest@.len()));
    let value = match keyword {
        Keyword::Function => Inst::DefFun { name, nvars: n },
        _ => Inst::Call { name, nargs: n },
    };
    Ok((rest, value))
}

/// Reads `return`.
fn return_op<'a>(input: &'a [u8]) -> (r: Result<(&'a [u8], Inst<'a>), ParseError>)
    ensures
        match r {
            Ok((rest, value)) => reads(input@, rest@, value@, return_spec(input@)),
            Err(e) => fails(input@, e, return_spec(input@)),
        },
{
    if keyword_prefix(input, Keyword::Return.name()) {
        Ok((tail(input, Keyword::Return.name().len()), Inst::Return))
    } else {
        Err(unrecognized())
    }
}

/// Whether `e` is the failure of an alternative whose keyword was not
/// found.
fn is_no_match(e: &ParseError) -> (r: bool)
    ensures
        r == (*e == (ParseError { kind: ErrorKind::UnrecognizedKeyword, offset: 0 })),
{
    match e.kind {
        ErrorKind::UnrecognizedKeyword => e.offset == 0,
        _ => false,
    }
}

/// Reads one instruction from the start of `input`.
pub fn inst<'a>(input: &'a [u8]) -> (r: Result<(&'a [u8], Inst<'a>), ParseError>)
    ensures
        match r {
            Ok((rest, value)) => reads(input@, rest@, value@, inst_spec(input@)),
            Err(e) => fails(input@, e, inst_spec(input@)),
        },
{
    match arith(input) {
        Err(e) if is_no_match(&e) => {},
        r => {
            return r;
        },
    }
    match stack_op(input) {
        Err(e) if is_no_match(&e) => {},
        r => {
            return r;
        },
    }
    match label_op(input) {
        Err(e) if is_no_match(&e) => {},
        r => {
            return r;
        },
    }
    match fun_op(input) {
        Err(e) if is_no_match(&e) => {},
        r => {
            return r;
        },
    }
    return_op(input)
}

/// Reads a line: one instruction, and nothing after it.
pub fn parse<'a>(line: &'a [u8]) -> (r: Result<Inst<'a>, ParseError>)
    ensures
        is_parse_of(line@, r),
{
    match inst(line) {
        Ok((rest, value)) => {
            if rest.len() == 0 {
                Ok(value)
            } else {
                Err(ParseError { kind: ErrorKind::TrailingInput, offset: line.len() - rest.len() })
            }
        },
        Err(e) => Err(e),
    }
}

} // verus!
