//! The bytecode compiler and the serialiser of its output.

use crate::ast::{
    AddExp, BinaryOp, Block, BlockItem, CompUnit, Decl, EqExp, Exp, FuncDef, FuncRParams,
    GlobalDef, LAndExp, LOrExp, LVal, MulExp, PrimaryExp, RelExp, Stmt, UnaryExp, UnaryOp, ValDecl,
    VarDecl,
};
use crate::bytecode_translation::environment::{names_view, Environment, Scopes};
use crate::bytecode_translation::laws::lemma_scopes_balanced;
use crate::bytecode_translation::scheme::{
    add_code, add_op, args_code, assign_code, beyond, binary, block_code, decl_code, declaration,
    declare_all, defines_function, else_code, eq_code, eq_op, exp_code, followed, func_code,
    functions_code, globals_code, if_code, if_else_code, item_code, items_code, land_code,
    lor_code, lval_code, mul_code, mul_op, offset, param_names, primary_code, prints_code,
    rejected, rel_code, rel_op, stmt_code, unary_code, unit_code, while_code, Context, Emitted,
};
use crate::error::{Error, TranslateFault};
use crate::vm::OpCode;
use vstd::prelude::*;
use vstd::string::StringExecFns;

verus! {

/// The bits of a packed context that hold the emission offset.
pub const PCMASK: usize = 0x0000FFFF;

/// The bit of a packed context that says whether it is the global one.
pub const SHIFT: usize = 16;

/// The packed form of a context: the block depth above bit 16, the global flag
/// in bit 16, the emission offset below.
pub open spec fn ext_of(dep: usize, in_global: usize, totle_ins: usize) -> usize {
    (dep << 17usize) | (in_global << 16usize) | totle_ins
}

/// The three fields of a packed context.
pub open spec fn ext_fields(extension: usize) -> (usize, usize, usize) {
    (extension >> 17usize, (extension >> 16usize) & 1, extension & 0xFFFFusize)
}

/// Whether `get_ext` packs these fields without loss.
pub open spec fn ext_fits(dep: usize, in_global: usize, totle_ins: usize) -> bool {
    dep <= 0x7FFF && in_global <= 1 && totle_ins <= 0xFFFF
}

/// Packs a block depth, a global flag and an emission offset into one word.
pub fn get_ext(dep: usize, in_global: usize, totle_ins: usize) -> (ext: usize)
    ensures
        ext == ext_of(dep, in_global, totle_ins),
{
    (dep << (SHIFT + 1)) | (in_global << SHIFT) | totle_ins
}

/// Takes a packed context apart: block depth, global flag, emission offset.
pub fn split(extension: usize) -> (fields: (usize, usize, usize))
    ensures
        fields == ext_fields(extension),
        fields.1 <= 1,
        fields.2 <= 0xFFFF,
{
    proof {
        assert((extension >> 16usize) & 1 <= 1) by (bit_vector);
        assert(extension & 0xFFFFusize <= 0xFFFF) by (bit_vector);
    }
    (extension >> (SHIFT + 1), (extension >> SHIFT) & 1, extension & PCMASK)
}

/// What was packed comes apart again, as long as each field fits its bits.
pub proof fn lemma_ext_round_trip(dep: usize, in_global: usize, totle_ins: usize)
    requires
        ext_fits(dep, in_global, totle_ins),
    ensures
        ext_fields(ext_of(dep, in_global, totle_ins)) == (dep, in_global, totle_ins),
{
    let e = ext_of(dep, in_global, totle_ins);
    assert(e >> 17usize == dep) by (bit_vector)
        requires
            e == (dep << 17usize) | (in_global << 16usize) | totle_ins,
            dep <= 0x7FFF,
            in_global <= 1,
            totle_ins <= 0xFFFF,
    ;
    assert((e >> 16usize) & 1 == in_global) by (bit_vector)
        requires
            e == (dep << 17usize) | (in_global << 16usize) | totle_ins,
            dep <= 0x7FFF,
            in_global <= 1,
            totle_ins <= 0xFFFF,
    ;
    assert(e & 0xFFFFusize == totle_ins) by (bit_vector)
        requires
            e == (dep << 17usize) | (in_global << 16usize) | totle_ins,
            dep <= 0x7FFF,
            in_global <= 1,
            totle_ins <= 0xFFFF,
    ;
}

/// The word that carries the constant `c`: its two's-complement bits, sign-extended
/// to the machine word.
pub open spec fn const_word(c: i32) -> usize {
    c as usize
}

/// The constant that the word `w` carries: its low 32 bits.
pub open spec fn word_const(w: usize) -> i32 {
    w as i32
}

/// The words of one instruction: its tag, then its operands.
pub open spec fn encode_op(op: OpCode) -> Seq<usize> {
    match op {
        OpCode::LoadConst(c) => seq![1usize, const_word(c)],
        OpCode::LoadTrue => seq![2usize],
        OpCode::LoadFalse => seq![3usize],
        OpCode::LoadNull => seq![4usize],
        OpCode::LoadGlobal(v) => seq![5usize, v],
        OpCode::StoreGlobal(v) => seq![6usize, v],
        OpCode::Jmp(a) => seq![10usize, a],
        OpCode::JmpTrue(a) => seq![11usize, a],
        OpCode::JmpFalse(a) => seq![12usize, a],
        OpCode::PrintItem => seq![13usize],
        OpCode::PrintNewline => seq![14usize],
        OpCode::GetInt => seq![15usize],
        OpCode::Pop => seq![16usize],
        OpCode::UniOpNot => seq![17usize],
        OpCode::UniOpNeg => seq![18usize],
        OpCode::StorePC => seq![19usize],
        OpCode::LoadPC => seq![20usize],
        OpCode::StoreVar(d, p) => seq![21usize, d, p],
        OpCode::LoadVar(d, p) => seq![22usize, d, p],
        OpCode::EnterScope(n) => seq![23usize, n],
        OpCode::LeaveScope => seq![24usize],
        OpCode::MakeClosure => seq![25usize],
        OpCode::Call(a, n) => seq![26usize, a, n],
        OpCode::Ret => seq![27usize],
        OpCode::BinOpAdd => seq![100usize],
        OpCode::BinOpSub => seq![101usize],
        OpCode::BinOpMul => seq![102usize],
        OpCode::BinOpDiv => seq![103usize],
        OpCode::BinOpGt => seq![104usize],
        OpCode::BinOpGe => seq![105usize],
        OpCode::BinOpLt => seq![106usize],
        OpCode::BinOpLe => seq![107usize],
        OpCode::BinOpEq => seq![108usize],
        OpCode::BinOpNe => seq![109usize],
        OpCode::BinOpOr => seq![110usize],
        OpCode::BinOpAnd => seq![111usize],
    }
}

/// The words of an instruction list: those of its instructions, in order.
pub open spec fn encode(ops: Seq<OpCode>) -> Seq<usize>
    decreases ops.len(),
{
    if ops.len() == 0 {
        Seq::empty()
    } else {
        encode_op(ops.first()) + encode(ops.drop_first())
    }
}

/// The instruction that starts with the tag `tag`, where `a` and `b` are the
/// two words after the tag; `None` for a tag that names no instruction.
pub open spec fn decode_op(tag: usize, a: usize, b: usize) -> Option<OpCode> {
    if tag == 1 {
        Some(OpCode::LoadConst(word_const(a)))
    } else if tag == 2 {
        Some(OpCode::LoadTrue)
    } else if tag == 3 {
        Some(OpCode::LoadFalse)
    } else if tag == 4 {
        Some(OpCode::LoadNull)
    } else if tag == 5 {
        Some(OpCode::LoadGlobal(a))
    } else if tag == 6 {
        Some(OpCode::StoreGlobal(a))
    } else if tag == 10 {
        Some(OpCode::Jmp(a))
    } else if tag == 11 {
        Some(OpCode::JmpTrue(a))
    } else if tag == 12 {
        Some(OpCode::JmpFalse(a))
    } else if tag == 13 {
        Some(OpCode::PrintItem)
    } else if tag == 14 {
        Some(OpCode::PrintNewline)
    } else if tag == 15 {
        Some(OpCode::GetInt)
    } else if tag == 16 {
        Some(OpCode::Pop)
    } else if tag == 17 {
        Some(OpCode::UniOpNot)
    } else if tag == 18 {
        Some(OpCode::UniOpNeg)
    } else if tag == 19 {
        Some(OpCode::StorePC)
    } else if tag == 20 {
        Some(OpCode::LoadPC)
    } else if tag == 21 {
        Some(OpCode::StoreVar(a, b))
    } else if tag == 22 {
        Some(OpCode::LoadVar(a, b))
    } else if tag == 23 {
        Some(OpCode::EnterScope(a))
    } else if tag == 24 {
        Some(OpCode::LeaveScope)
    } else if tag == 25 {
        Some(OpCode::MakeClosure)
    } else if tag == 26 {
        Some(OpCode::Call(a, b))
    } else if tag == 27 {
        Some(OpCode::Ret)
    } else if tag == 100 {
        Some(OpCode::BinOpAdd)
    } else if tag == 101 {
        Some(OpCode::BinOpSub)
    } else if tag == 102 {
        Some(OpCode::BinOpMul)
    } else if tag == 103 {
        Some(OpCode::BinOpDiv)
    } else if tag == 104 {
        Some(OpCode::BinOpGt)
    } else if tag == 105 {
        Some(OpCode::BinOpGe)
    } else if tag == 106 {
        Some(OpCode::BinOpLt)
    } else if tag == 107 {
        Some(OpCode::BinOpLe)
    } else if tag == 108 {
        Some(OpCode::BinOpEq)
    } else if tag == 109 {
        Some(OpCode::BinOpNe)
    } else if tag == 110 {
        Some(OpCode::BinOpOr)
    } else if tag == 111 {
        Some(OpCode::BinOpAnd)
    } else {
        None
    }
}

/// How many operand words follow the tag of `op`.
pub open spec fn operand_count(op: OpCode) -> nat {
    match op {
        OpCode::LoadConst(_) | OpCode::LoadGlobal(_) | OpCode::StoreGlobal(_) | OpCode::Jmp(_)
        | OpCode::JmpTrue(_) | OpCode::JmpFalse(_) | OpCode::EnterScope(_) => 1,
        OpCode::StoreVar(_, _) | OpCode::LoadVar(_, _) | OpCode::Call(_, _) => 2,
        _ => 0,
    }
}

/// The word at index `i`, or 0 past the end.
pub open spec fn word_at(words: Seq<usize>, i: int) -> usize {
    if 0 <= i < words.len() {
        words[i]
    } else {
        0
    }
}

/// What the words from index `pos` on decode to: the instructions, or the index
/// of the first tag that is unknown or whose operands run past the end.
pub open spec fn decode_from(words: Seq<usize>, pos: nat) -> Result<Seq<OpCode>, usize>
    decreases words.len() - pos,
{
    if pos >= words.len() {
        Ok(Seq::empty())
    } else {
        match decode_op(words[pos as int], word_at(words, pos as int + 1), word_at(words, pos as int + 2)) {
            None => Err(pos as usize),
            Some(op) => if pos + operand_count(op) >= words.len() {
                Err(pos as usize)
            } else {
                match decode_from(words, pos + 1 + operand_count(op)) {
                    Ok(rest) => Ok(seq![op] + rest),
                    Err(at) => Err(at),
                }
            },
        }
    }
}

/// What a word stream decodes to.
pub open spec fn decode(words: Seq<usize>) -> Result<Seq<OpCode>, usize> {
    decode_from(words, 0)
}

/// The number of operand words of `op`.
fn operand_words(op: OpCode) -> (n: usize)
    ensures
        n == operand_count(op),
{
    match op {
        OpCode::LoadConst(_) | OpCode::LoadGlobal(_) | OpCode::StoreGlobal(_) | OpCode::Jmp(_)
        | OpCode::JmpTrue(_) | OpCode::JmpFalse(_) | OpCode::EnterScope(_) => 1,
        OpCode::StoreVar(_, _) | OpCode::LoadVar(_, _) | OpCode::Call(_, _) => 2,
        _ => 0,
    }
}

/// The instruction with tag `tag` and the operand words `a` and `b`.
fn decode_word(tag: usize, a: usize, b: usize) -> (r: Option<OpCode>)
    ensures
        r == decode_op(tag, a, b),
{
    match tag {
        1 => Some(OpCode::LoadConst(a as i32)),
        2 => Some(OpCode::LoadTrue),
        3 => Some(OpCode::LoadFalse),
        4 => Some(OpCode::LoadNull),
        5 => Some(OpCode::LoadGlobal(a)),
        6 => Some(OpCode::StoreGlobal(a)),
        10 => Some(OpCode::Jmp(a)),
        11 => Some(OpCode::JmpTrue(a)),
        12 => Some(OpCode::JmpFalse(a)),
        13 => Some(OpCode::PrintItem),
        14 => Some(OpCode::PrintNewline),
        15 => Some(OpCode::GetInt),
        16 => Some(OpCode::Pop),
        17 => Some(OpCode::UniOpNot),
        18 => Some(OpCode::UniOpNeg),
        19 => Some(OpCode::StorePC),
        20 => Some(OpCode::LoadPC),
        21 => Some(OpCode::StoreVar(a, b)),
        22 => Some(OpCode::LoadVar(a, b)),
        23 => Some(OpCode::EnterScope(a)),
        24 => Some(OpCode::LeaveScope),
        25 => Some(OpCode::MakeClosure),
        26 => Some(OpCode::Call(a, b)),
        27 => Some(OpCode::Ret),
        100 => Some(OpCode::BinOpAdd),
        101 => Some(OpCode::BinOpSub),
        102 => Some(OpCode::BinOpMul),
        103 => Some(OpCode::BinOpDiv),
        104 => Some(OpCode::BinOpGt),
        105 => Some(OpCode::BinOpGe),
        106 => Some(OpCode::BinOpLt),
        107 => Some(OpCode::BinOpLe),
        108 => Some(OpCode::BinOpEq),
        109 => Some(OpCode::BinOpNe),
        110 => Some(OpCode::BinOpOr),
        111 => Some(OpCode::BinOpAnd),
        _ => None,
    }
}

/// One unfolding of `decode_from` at a tag that decodes.
proof fn lemma_decode_step(words: Seq<usize>, pos: nat, op: OpCode)
    requires
        pos < words.len(),
        decode_op(
            words[pos as int],
            word_at(words, pos as int + 1),
            word_at(words, pos as int + 2),
        ) == Some(op),
    ensures
        pos + operand_count(op) >= words.len() ==> decode_from(words, pos) == Err::<
            Seq<OpCode>,
            usize,
        >(pos as usize),
        pos + operand_count(op) < words.len() ==> decode_from(words, pos) == match decode_from(
            words,
            pos + 1 + operand_count(op),
        ) {
            Ok(rest) => Ok::<Seq<OpCode>, usize>(seq![op] + rest),
            Err(at) => Err(at),
        },
{
}

/// Reads an instruction list back from its words.
///
/// Fails at the first tag that names no instruction or whose operands are
/// missing, and reports the index of that tag.
pub fn translate_from(bytes: Vec<usize>) -> (res: Result<Vec<OpCode>, Error>)
    ensures
        match decode(bytes@) {
            Ok(ops) => res matches Ok(v) && v@ == ops,
            Err(at) => res matches Err(Error::DecodeError(p)) && p == at,
        },
{
    let mut res: Vec<OpCode> = Vec::new();
    let mut cur: usize = 0;
    let len = bytes.len();
    while cur < len
        invariant
            cur <= len,
            len == bytes.len(),
            decode(bytes@) == match decode_from(bytes@, cur as nat) {
                Ok(rest) => Ok::<Seq<OpCode>, usize>(res@ + rest),
                Err(at) => Err(at),
            },
        decreases len - cur,
    {
        let tag = bytes[cur];
        let a = if len - cur > 1 {
            bytes[cur + 1]
        } else {
            0
        };
        let b = if len - cur > 2 {
            bytes[cur + 2]
        } else {
            0
        };
        let op = match decode_word(tag, a, b) {
            Some(op) => op,
            None => {
                return Err(Error::DecodeError(cur));
            },
        };
        let n = operand_words(op);
        proof {
            lemma_decode_step(bytes@, cur as nat, op);
        }
        if len - cur <= n {
            return Err(Error::DecodeError(cur));
        }
        proof {
            let tail = decode_from(bytes@, (cur + 1 + n) as nat);
            if let Ok(rest) = tail {
                assert(res@.push(op) + rest =~= res@ + (seq![op] + rest));
            }
        }
        res.push(op);
        cur = cur + 1 + n;
    }
    proof {
        assert(res@ + Seq::<OpCode>::empty() =~= res@);
    }
    Ok(res)
}

/// Decoding the words `prefix + encode(ops)` from the end of `prefix` gives `ops`.
proof fn lemma_decode_encoded(prefix: Seq<usize>, ops: Seq<OpCode>)
    ensures
        decode_from(prefix + encode(ops), prefix.len()) == Ok::<Seq<OpCode>, usize>(ops),
    decreases ops.len(),
{
    let words = prefix + encode(ops);
    if ops.len() == 0 {
        assert(ops =~= Seq::<OpCode>::empty());
    } else {
        let op = ops.first();
        let head = encode_op(op);
        let rest = ops.drop_first();
        let pos = prefix.len() as int;
        assert(words =~= (prefix + head) + encode(rest));
        lemma_decode_encoded(prefix + head, rest);
        assert(words[pos] == head[0]);
        assert(head.len() >= 2 ==> word_at(words, pos + 1) == head[1]);
        assert(head.len() >= 3 ==> word_at(words, pos + 2) == head[2]);
        assert(head.len() == 1 + operand_count(op));
        lemma_const_word_round_trip();
        assert(decode_op(words[pos], word_at(words, pos as int + 1), word_at(words, pos as int + 2)) == Some(
            op,
        ));
        assert(seq![op] + rest =~= ops);
    }
}

/// A constant survives the passage through its word.
pub proof fn lemma_const_word_round_trip()
    ensures
        forall|c: i32| word_const(#[trigger] const_word(c)) == c,
{
    assert forall|c: i32| word_const(#[trigger] const_word(c)) == c by {
        assert((c as usize) as i32 == c) by (bit_vector);
    }
}

/// Decoding what was encoded gives back the instruction list.
pub proof fn lemma_round_trip(ops: Seq<OpCode>)
    ensures
        decode(encode(ops)) == Ok::<Seq<OpCode>, usize>(ops),
{
    lemma_decode_encoded(Seq::empty(), ops);
    assert(Seq::<usize>::empty() + encode(ops) =~= encode(ops));
}

/// Appending an instruction appends its words.
pub proof fn lemma_encode_push(ops: Seq<OpCode>, op: OpCode)
    ensures
        encode(ops.push(op)) == encode(ops) + encode_op(op),
    decreases ops.len(),
{
    if ops.len() == 0 {
        assert(ops.push(op).drop_first() =~= Seq::<OpCode>::empty());
        assert(encode(ops.push(op)) =~= encode_op(op) + encode(Seq::<OpCode>::empty()));
        assert(encode(ops) + encode_op(op) =~= encode_op(op));
        assert(encode_op(op) + encode(Seq::<OpCode>::empty()) =~= encode_op(op));
    } else {
        lemma_encode_push(ops.drop_first(), op);
        assert(ops.push(op).drop_first() =~= ops.drop_first().push(op));
        assert(ops.push(op).first() == ops.first());
        assert(encode(ops.push(op)) =~= encode(ops) + encode_op(op));
    }
}

/// Serialises an instruction list: for each instruction its tag, then its operands.
pub fn translate_to(opcodes: Vec<OpCode>) -> (res: Vec<usize>)
    ensures
        res@ == encode(opcodes@),
{
    let mut res: Vec<usize> = Vec::new();
    let mut i: usize = 0;
    while i < opcodes.len()
        invariant
            i <= opcodes.len(),
            res@ == encode(opcodes@.take(i as int)),
        decreases opcodes.len() - i,
    {
        let code = opcodes[i];
        proof {
            lemma_encode_push(opcodes@.take(i as int), code);
            assert(opcodes@.take(i as int).push(code) =~= opcodes@.take(i + 1));
        }
        match code {
            OpCode::LoadConst(c) => {
                res.push(1);
                res.push(c as usize);
            },
            OpCode::LoadTrue => res.push(2),
            OpCode::LoadFalse => res.push(3),
            OpCode::LoadNull => res.push(4),
            OpCode::LoadGlobal(v) => {
                res.push(5);
                res.push(v);
            },
            OpCode::StoreGlobal(v) => {
                res.push(6);
                res.push(v);
            },
            OpCode::BinOpAdd => res.push(100),
            OpCode::BinOpSub => res.push(101),
            OpCode::BinOpMul => res.push(102),
            OpCode::BinOpDiv => res.push(103),
            OpCode::BinOpGt => res.push(104),
            OpCode::BinOpGe => res.push(105),
            OpCode::BinOpLt => res.push(106),
            OpCode::BinOpLe => res.push(107),
            OpCode::BinOpEq => res.push(108),
            OpCode::BinOpNe => res.push(109),
            OpCode::BinOpOr => res.push(110),
            OpCode::BinOpAnd => res.push(111),
            OpCode::Jmp(addr) => {
                res.push(10);
                res.push(addr);
            },
            OpCode::JmpTrue(addr) => {
                res.push(11);
                res.push(addr);
            },
            OpCode::JmpFalse(addr) => {
                res.push(12);
                res.push(addr);
            },
            OpCode::PrintItem => res.push(13),
            OpCode::PrintNewline => res.push(14),
            OpCode::GetInt => res.push(15),
            OpCode::Pop => res.push(16),
            OpCode::UniOpNot => res.push(17),
            OpCode::UniOpNeg => res.push(18),
            OpCode::StorePC => res.push(19),
            OpCode::LoadPC => res.push(20),
            OpCode::StoreVar(dep, pos) => {
                res.push(21);
                res.push(dep);
                res.push(pos);
            },
            OpCode::LoadVar(dep, pos) => {
                res.push(22);
                res.push(dep);
                res.push(pos);
            },
            OpCode::EnterScope(args) => {
                res.push(23);
                res.push(args);
            },
            OpCode::LeaveScope => res.push(24),
            OpCode::MakeClosure => res.push(25),
            OpCode::Call(addr, args) => {
                res.push(26);
                res.push(addr);
                res.push(args);
            },
            OpCode::Ret => res.push(27),
        }
        i = i + 1;
    }
    assert(opcodes@.take(opcodes.len() as int) =~= opcodes@);
    res
}


/// Whether `r` is the outcome `code`.
pub open spec fn yields(r: Result<Vec<OpCode>, Error>, code: Result<Seq<OpCode>, Error>) -> bool {
    match code {
        Ok(c) => r matches Ok(v) && v@ == c,
        Err(e) => r == Err::<Vec<OpCode>, Error>(e),
    }
}

/// The context that a packed context stands for.
pub open spec fn context_of(extension: usize) -> Context {
    Context {
        dep: ext_fields(extension).0,
        in_global: ext_fields(extension).1,
        addr: ext_fields(extension).2,
    }
}

/// Unpacks a context.
pub fn context(extension: usize) -> (ctx: Context)
    ensures
        ctx == context_of(extension),
{
    let (dep, in_global, addr) = split(extension);
    Context { dep, in_global, addr }
}

/// The address `n` instructions after `addr`.
fn address(addr: usize, n: usize) -> (r: Result<usize, Error>)
    ensures
        match offset(addr, n as nat) {
            Some(a) => r == Ok::<usize, Error>(a),
            None => r == Err::<usize, Error>(rejected(TranslateFault::TooLarge)),
        },
{
    match addr.checked_add(n) {
        Some(a) => Ok(a),
        None => Err(Error::TranslateError(TranslateFault::TooLarge)),
    }
}

/// The address one instruction after the `n` instructions that start at `addr`.
fn address_after(addr: usize, n: usize) -> (r: Result<usize, Error>)
    ensures
        match offset(addr, (n + 1) as nat) {
            Some(a) => r == Ok::<usize, Error>(a),
            None => r == Err::<usize, Error>(rejected(TranslateFault::TooLarge)),
        },
{
    match addr.checked_add(n) {
        Some(a) => match a.checked_add(1) {
            Some(b) => Ok(b),
            None => Err(Error::TranslateError(TranslateFault::TooLarge)),
        },
        None => Err(Error::TranslateError(TranslateFault::TooLarge)),
    }
}

/// Whether `ident` is the name `name`.
fn is_name(ident: &String, name: &str) -> (b: bool)
    ensures
        b == (ident@ == name@),
{
    let other = String::from_str(name);
    *ident == other
}

/// `first` followed by `second`.
fn join(first: Vec<OpCode>, second: Vec<OpCode>) -> (r: Vec<OpCode>)
    ensures
        r@ == first@ + second@,
{
    let mut r = first;
    let mut tail = second;
    r.append(&mut tail);
    r
}

/// Assembles a binary node from the code of its operands and its operator.
fn translate_binary(
    lhs: Result<Vec<OpCode>, Error>,
    rhs: Result<Vec<OpCode>, Error>,
    op: Option<OpCode>,
) -> (r: Result<Vec<OpCode>, Error>)
    ensures
        forall|l: Result<Seq<OpCode>, Error>, r2: Result<Seq<OpCode>, Error>|
            yields(lhs, l) && yields(rhs, r2) ==> yields(r, #[trigger] binary(l, r2, op)),
{
    match lhs {
        Err(e) => Err(e),
        Ok(l) => match rhs {
            Err(e) => Err(e),
            Ok(r) => match op {
                None => Err(Error::TranslateError(TranslateFault::OperatorMismatch)),
                Some(o) => {
                    let mut code = join(l, r);
                    code.push(o);
                    Ok(code)
                },
            },
        },
    }
}

/// Appends `op` to `code`.
fn translate_followed(code: Result<Vec<OpCode>, Error>, op: OpCode) -> (r: Result<
    Vec<OpCode>,
    Error,
>)
    ensures
        forall|c: Result<Seq<OpCode>, Error>| yields(code, c) ==> yields(r, #[trigger] followed(c, op)),
{
    match code {
        Err(e) => Err(e),
        Ok(c) => {
            let mut c = c;
            c.push(op);
            Ok(c)
        },
    }
}

/// Compiles an expression.
pub fn translate_exp(e: &Exp, env: &Environment) -> (r: Result<Vec<OpCode>, Error>)
    requires
        env.wf(),
    ensures
        yields(r, exp_code(*e, env@)),
    decreases *e,
{
    translate_lor(&e.lor_exp, env)
}

/// Compiles an expression of `||` rank.
pub fn translate_lor(e: &LOrExp, env: &Environment) -> (r: Result<Vec<OpCode>, Error>)
    requires
        env.wf(),
    ensures
        yields(r, lor_code(*e, env@)),
    decreases *e,
{
    match e {
        LOrExp::And(and) => translate_land(and, env),
        LOrExp::Or(lhs, rhs) => {
            let l = translate_lor(lhs, env);
            let r = translate_land(rhs, env);
            translate_binary(l, r, Some(OpCode::BinOpOr))
        },
    }
}

/// Compiles an expression of `&&` rank.
pub fn translate_land(e: &LAndExp, env: &Environment) -> (r: Result<Vec<OpCode>, Error>)
    requires
        env.wf(),
    ensures
        yields(r, land_code(*e, env@)),
    decreases *e,
{
    match e {
        LAndExp::Eq(eq) => translate_eq(eq, env),
        LAndExp::And(lhs, rhs) => {
            let l = translate_land(lhs, env);
            let r = translate_eq(rhs, env);
            translate_binary(l, r, Some(OpCode::BinOpAnd))
        },
    }
}

/// The instruction of an operator of `==` rank.
fn eq_opcode(op: &BinaryOp) -> (r: Option<OpCode>)
    ensures
        r == eq_op(*op),
{
    match op {
        BinaryOp::Eq => Some(OpCode::BinOpEq),
        BinaryOp::Neq => Some(OpCode::BinOpNe),
        _ => None,
    }
}

/// The instruction of an operator of `<` rank.
fn rel_opcode(op: &BinaryOp) -> (r: Option<OpCode>)
    ensures
        r == rel_op(*op),
{
    match op {
        BinaryOp::Lt => Some(OpCode::BinOpLt),
        BinaryOp::Leq => Some(OpCode::BinOpLe),
        BinaryOp::Gt => Some(OpCode::BinOpGt),
        BinaryOp::Geq => Some(OpCode::BinOpGe),
        _ => None,
    }
}

/// The instruction of an operator of `+` rank.
fn add_opcode(op: &BinaryOp) -> (r: Option<OpCode>)
    ensures
        r == add_op(*op),
{
    match op {
        BinaryOp::Add => Some(OpCode::BinOpAdd),
        BinaryOp::Sub => Some(OpCode::BinOpSub),
        _ => None,
    }
}

/// The instruction of an operator of `*` rank.
fn mul_opcode(op: &BinaryOp) -> (r: Option<OpCode>)
    ensures
        r == mul_op(*op),
{
    match op {
        BinaryOp::Mul => Some(OpCode::BinOpMul),
        BinaryOp::Div => Some(OpCode::BinOpDiv),
        _ => None,
    }
}

/// Compiles an expression of `==` rank.
pub fn translate_eq(e: &EqExp, env: &Environment) -> (r: Result<Vec<OpCode>, Error>)
    requires
        env.wf(),
    ensures
        yields(r, eq_code(*e, env@)),
    decreases *e,
{
    match e {
        EqExp::Rel(rel) => translate_rel(rel, env),
        EqExp::Eq(lhs, op, rhs) => {
            let l = translate_eq(lhs, env);
            let r = translate_rel(rhs, env);
            translate_binary(l, r, eq_opcode(op))
        },
    }
}

/// Compiles an expression of `<` rank.
pub fn translate_rel(e: &RelExp, env: &Environment) -> (r: Result<Vec<OpCode>, Error>)
    requires
        env.wf(),
    ensures
        yields(r, rel_code(*e, env@)),
    decreases *e,
{
    match e {
        RelExp::Add(add) => translate_add(add, env),
        RelExp::Rel(lhs, op, rhs) => {
            let l = translate_rel(lhs, env);
            let r = translate_add(rhs, env);
            translate_binary(l, r, rel_opcode(op))
        },
    }
}

/// Compiles an expression of `+` rank.
pub fn translate_add(e: &AddExp, env: &Environment) -> (r: Result<Vec<OpCode>, Error>)
    requires
        env.wf(),
    ensures
        yields(r, add_code(*e, env@)),
    decreases *e,
{
    match e {
        AddExp::Mul(mul) => translate_mul(mul, env),
        AddExp::Add(lhs, op, rhs) => {
            let l = translate_add(lhs, env);
            let r = translate_mul(rhs, env);
            translate_binary(l, r, add_opcode(op))
        },
    }
}

/// Compiles an expression of `*` rank.
pub fn translate_mul(e: &MulExp, env: &Environment) -> (r: Result<Vec<OpCode>, Error>)
    requires
        env.wf(),
    ensures
        yields(r, mul_code(*e, env@)),
    decreases *e,
{
    match e {
        MulExp::Unary(una) => translate_unary(una, env),
        MulExp::Mul(lhs, op, rhs) => {
            let l = translate_mul(lhs, env);
            let r = translate_unary(rhs, env);
            translate_binary(l, r, mul_opcode(op))
        },
    }
}

/// Compiles a unary expression or a call.
pub fn translate_unary(e: &UnaryExp, env: &Environment) -> (r: Result<Vec<OpCode>, Error>)
    requires
        env.wf(),
    ensures
        yields(r, unary_code(*e, env@)),
    decreases *e,
{
    match e {
        UnaryExp::Pri(pri) => translate_primary(pri, env),
        UnaryExp::Unary(op, una) => {
            let code = translate_unary(una, env);
            let o = match op {
                UnaryOp::Neg => OpCode::UniOpNeg,
                UnaryOp::Not => OpCode::UniOpNot,
            };
            translate_followed(code, o)
        },
        UnaryExp::FuncCall { ident, funcrparams } => {
            if is_name(ident, "print") {
                match funcrparams {
                    Some(params) => translate_prints(params, 0, env),
                    None => Ok(Vec::new()),
                }
            } else if is_name(ident, "getint") {
                let mut res = Vec::new();
                res.push(OpCode::GetInt);
                Ok(res)
            } else {
                match env.get_func_addr(ident.clone()) {
                    Err(_) => Err(Error::TranslateError(TranslateFault::UnknownFunction)),
                    Ok((pc, _)) => match funcrparams {
                        Some(params) => {
                            let count = params.exps.len();
                            let code = translate_args(params, count, env);
                            translate_followed(code, OpCode::Call(pc, count))
                        },
                        None => {
                            let mut res = Vec::new();
                            res.push(OpCode::Call(pc, 0));
                            Ok(res)
                        },
                    },
                }
            }
        },
    }
}

/// Compiles the arguments of `print` from the `i`-th on.
fn translate_prints(params: &FuncRParams, i: usize, env: &Environment) -> (r: Result<
    Vec<OpCode>,
    Error,
>)
    requires
        env.wf(),
    ensures
        yields(r, prints_code(*params, i as nat, env@)),
    decreases *params, params.exps.len() - i,
{
    if i >= params.exps.len() {
        return Ok(Vec::new());
    }
    let item = translate_exp(&params.exps[i], env);
    let item = translate_followed(item, OpCode::PrintItem);
    let item = translate_followed(item, OpCode::PrintNewline);
    match item {
        Err(e) => Err(e),
        Ok(code) => match translate_prints(params, i + 1, env) {
            Err(e) => Err(e),
            Ok(rest) => Ok(join(code, rest)),
        },
    }
}

/// Compiles the first `n` arguments of a call, the last of them first.
fn translate_args(params: &FuncRParams, n: usize, env: &Environment) -> (r: Result<
    Vec<OpCode>,
    Error,
>)
    requires
        env.wf(),
    ensures
        yields(r, args_code(*params, n as nat, env@)),
    decreases *params, n,
{
    if n == 0 || n > params.exps.len() {
        return Ok(Vec::new());
    }
    match translate_exp(&params.exps[n - 1], env) {
        Err(e) => Err(e),
        Ok(code) => match translate_args(params, n - 1, env) {
            Err(e) => Err(e),
            Ok(rest) => Ok(join(code, rest)),
        },
    }
}

/// Compiles a primary expression.
pub fn translate_primary(e: &PrimaryExp, env: &Environment) -> (r: Result<Vec<OpCode>, Error>)
    requires
        env.wf(),
    ensures
        yields(r, primary_code(*e, env@)),
    decreases *e,
{
    match e {
        PrimaryExp::Exp(exp) => translate_exp(exp, env),
        PrimaryExp::Number(num) => {
            let mut res = Vec::new();
            res.push(OpCode::LoadConst(*num));
            Ok(res)
        },
        PrimaryExp::LVal(lval) => translate_lval(lval, env),
    }
}

/// Compiles the reading of a variable.
pub fn translate_lval(lval: &LVal, env: &Environment) -> (r: Result<Vec<OpCode>, Error>)
    requires
        env.wf(),
    ensures
        yields(r, lval_code(*lval, env@)),
{
    match env.get_val(lval.ident.clone()) {
        Err(_) => Err(Error::TranslateError(TranslateFault::UnknownVariable)),
        Ok((dep, pos)) => {
            let mut res = Vec::new();
            if env.is_bottom(dep) {
                res.push(OpCode::LoadGlobal(pos));
            } else {
                res.push(OpCode::LoadVar(dep, pos));
            }
            Ok(res)
        },
    }
}


/// Whether `r` and the environment `after` are the outcome `out`.
pub open spec fn emits(r: Result<Vec<OpCode>, Error>, after: Scopes, out: Emitted) -> bool {
    after == out.env && yields(r, out.code)
}

/// Compiles the declaration of `ident` with the initialiser `init`: see `translate_decl`.
pub fn translate_declaration(ident: &String, init: &Exp, env: &mut Environment, ctx: Context) -> (r:
    Result<Vec<OpCode>, Error>)
    requires
        old(env).wf(),
    ensures
        final(env).wf(),
        emits(r, final(env)@, declaration(ident@, *init, old(env)@, ctx)),
{
    let code = match translate_exp(init, env) {
        Ok(code) => code,
        Err(e) => {
            return Err(e);
        },
    };
    let slot = env.get_values_count(0);
    match env.new_val(ident.clone(), 0) {
        Err(e) => Err(e),
        Ok(()) => {
            let mut res = code;
            if ctx.in_global == 1 {
                res.push(OpCode::StoreGlobal(slot));
            } else {
                res.push(OpCode::StoreVar(0, slot));
            }
            Ok(res)
        },
    }
}

/// Compiles a declaration.
///
/// The initialiser is followed by `StoreGlobal` where the context is the
/// global one and by `StoreVar` elsewhere; the slot is the next one of the
/// innermost scope, in which the name is declared from then on. Fails with
/// `DuplicatedDef` where that scope declares the name already.
pub fn translate_decl(d: &Decl, env: &mut Environment, ctx: Context) -> (r: Result<
    Vec<OpCode>,
    Error,
>)
    requires
        old(env).wf(),
    ensures
        final(env).wf(),
        emits(r, final(env)@, decl_code(*d, old(env)@, ctx)),
{
    match d {
        Decl::VarDecl(decl) => translate_declaration(&decl.ident, &decl.initval.exp, env, ctx),
        Decl::ValDecl(decl) => translate_declaration(&decl.ident, &decl.initval.exp, env, ctx),
    }
}

/// Compiles an assignment.
fn translate_assign(lval: &LVal, exp: &Exp, env: &Environment) -> (r: Result<Vec<OpCode>, Error>)
    requires
        env.wf(),
    ensures
        yields(r, assign_code(*lval, *exp, env@)),
{
    let code = match translate_exp(exp, env) {
        Ok(code) => code,
        Err(e) => {
            return Err(e);
        },
    };
    match env.get_val(lval.ident.clone()) {
        Err(_) => Err(Error::TranslateError(TranslateFault::UnknownVariable)),
        Ok((dep, pos)) => {
            let mut res = code;
            if env.is_bottom(dep) {
                res.push(OpCode::StoreGlobal(pos));
            } else {
                res.push(OpCode::StoreVar(dep, pos));
            }
            Ok(res)
        },
    }
}

/// Compiles a statement that starts at `ctx.addr`.
///
/// The environment afterwards is that of `stmt_code`, on success and on
/// failure: every scope and every loop that the statement opened is closed.
pub fn translate_stmt(s: &Stmt, env: &mut Environment, ctx: Context) -> (r: Result<
    Vec<OpCode>,
    Error,
>)
    requires
        old(env).wf(),
    ensures
        final(env).wf(),
        emits(r, final(env)@, stmt_code(*s, old(env)@, ctx)),
    decreases *s, 1nat,
{
    match s {
        Stmt::Assign(lval, exp) => translate_assign(lval, exp, env),
        Stmt::Block(block) => translate_block(block, env, ctx),
        Stmt::Exp(exp) => match exp {
            Some(exp) => translate_exp(exp, env),
            None => Ok(Vec::new()),
        },
        Stmt::Ret(ret) => match ret {
            Some(exp) => {
                let code = translate_exp(exp, env);
                translate_followed(code, OpCode::Ret)
            },
            None => {
                let mut res = Vec::new();
                res.push(OpCode::Ret);
                Ok(res)
            },
        },
        Stmt::If { .. } => translate_if(s, env, ctx),
        Stmt::While { .. } => translate_while(s, env, ctx),
        Stmt::FuncDef(_) => Err(Error::TranslateError(TranslateFault::NestedFunction)),
        Stmt::Continue => Err(Error::TranslateError(TranslateFault::UnsupportedJump)),
        Stmt::Break => Err(Error::TranslateError(TranslateFault::UnsupportedJump)),
    }
}

/// Lays out `if (c) A`: `cond` is the code of `c`, which starts at `addr`,
/// and `then` the code of `A`.
fn assemble_if(addr: usize, cond: Vec<OpCode>, then: Vec<OpCode>) -> (r: Result<Vec<OpCode>, Error>)
    requires
        addr + cond.len() + 1 <= usize::MAX,
    ensures
        forall|env: Scopes, ctx: Context, after: Scopes|
            ctx.addr == addr ==> yields(
                r,
                (#[trigger] if_code(env, ctx, Ok(cond@), Emitted { env: after, code: Ok(then@) })).code,
            ),
{
    let then_at = addr + cond.len() + 1;
    let end = match address(then_at, then.len()) {
        Ok(a) => a,
        Err(e) => {
            return Err(e);
        },
    };
    let mut res = cond;
    res.push(OpCode::JmpFalse(end));
    Ok(join(res, then))
}

/// Lays out `if (c) A else B`: `cond` is the code of `c`, which starts at
/// `addr`, `then` the code of `A` and `els` the code of `B`.
fn assemble_if_else(addr: usize, cond: Vec<OpCode>, then: Vec<OpCode>, els: Vec<OpCode>) -> (r:
    Result<Vec<OpCode>, Error>)
    requires
        addr + cond.len() + then.len() + 2 <= usize::MAX,
    ensures
        forall|env: Scopes, ctx: Context, mid: Scopes, after: Scopes|
            ctx.addr == addr ==> yields(
                r,
                (#[trigger] if_else_code(
                    env,
                    ctx,
                    Ok(cond@),
                    Emitted { env: mid, code: Ok(then@) },
                    Emitted { env: after, code: Ok(els@) },
                )).code,
            ),
{
    let then_at = addr + cond.len() + 1;
    let else_at = then_at + then.len() + 1;
    let end = match address(else_at, els.len()) {
        Ok(a) => a,
        Err(e) => {
            return Err(e);
        },
    };
    let mut res = cond;
    res.push(OpCode::JmpFalse(else_at));
    let mut res = join(res, then);
    res.push(OpCode::Jmp(end));
    Ok(join(res, els))
}

/// Lays out `while (c) S`: `cond` is the code of `c`, which starts at
/// `addr`, and `body` the code of `S`.
fn assemble_while(addr: usize, cond: Vec<OpCode>, body: Vec<OpCode>) -> (r: Result<
    Vec<OpCode>,
    Error,
>)
    requires
        addr + cond.len() + 1 <= usize::MAX,
    ensures
        forall|env: Scopes, ctx: Context, after: Scopes|
            ctx.addr == addr ==> yields(
                r,
                (#[trigger] while_code(
                    env,
                    ctx,
                    Ok(cond@),
                    Emitted { env: after, code: Ok(body@) },
                )).code,
            ),
{
    let body_at = addr + cond.len() + 1;
    let end = match address_after(body_at, body.len()) {
        Ok(a) => a,
        Err(e) => {
            return Err(e);
        },
    };
    let mut res = cond;
    res.push(OpCode::JmpFalse(end));
    let mut res = join(res, body);
    res.push(OpCode::Jmp(addr));
    Ok(res)
}

/// Compiles the `else` branch of an `if`, where it has one.
fn translate_else(s: &Option<Box<Stmt>>, env: &mut Environment, ctx: Context) -> (r: Option<
    Result<Vec<OpCode>, Error>,
>)
    requires
        old(env).wf(),
    ensures
        final(env).wf(),
        match else_code(*s, old(env)@, ctx) {
            None => r is None && final(env)@ == old(env)@,
            Some(out) => r matches Some(code) && emits(code, final(env)@, out),
        },
    decreases *s, 0nat,
{
    match s {
        None => None,
        Some(other) => Some(translate_stmt(other, env, ctx)),
    }
}

/// What `stmt_code` says of an `if`, step by step.
proof fn lemma_if_unfolded(s: Stmt, env: Scopes, ctx: Context)
    requires
        s is If,
    ensures
        ({
            let cond = exp_code(s->If_condition, env);
            let then_at = beyond(ctx.addr, cond);
            let then = stmt_code(*s->then_branch, env, ctx.at(then_at));
            let els = else_code(s->else_branch, then.env, ctx.at(beyond(then_at, then.code)));
            stmt_code(s, env, ctx) == match els {
                None => if_code(env, ctx, cond, then),
                Some(other) => if_else_code(env, ctx, cond, then, other),
            }
        }),
{
}

/// Compiles an `if`.
fn translate_if(s: &Stmt, env: &mut Environment, ctx: Context) -> (r: Result<Vec<OpCode>, Error>)
    requires
        old(env).wf(),
        *s is If,
    ensures
        final(env).wf(),
        emits(r, final(env)@, stmt_code(*s, old(env)@, ctx)),
    decreases *s, 0nat,
{
    proof {
        lemma_if_unfolded(*s, env@, ctx);
    }
    match s {
        Stmt::If { condition, then_branch, else_branch } => {
            let ghost cond_spec = exp_code(*condition, env@);
            let ghost then_spec = stmt_code(
                **then_branch,
                env@,
                ctx.at(beyond(ctx.addr, cond_spec)),
            );
            let ghost else_spec = else_code(
                *else_branch,
                then_spec.env,
                ctx.at(beyond(beyond(ctx.addr, cond_spec), then_spec.code)),
            );
            let cond = match translate_exp(condition, env) {
                Ok(code) => code,
                Err(e) => {
                    return Err(e);
                },
            };
            let then_at = match address_after(ctx.addr, cond.len()) {
                Ok(a) => a,
                Err(e) => {
                    return Err(e);
                },
            };
            assert(then_at == beyond(ctx.addr, cond_spec));
            let then = match translate_stmt(
                then_branch,
                env,
                Context { dep: ctx.dep, in_global: ctx.in_global, addr: then_at },
            ) {
                Ok(code) => code,
                Err(e) => {
                    return Err(e);
                },
            };
            assert(env@ == then_spec.env);
            let else_at = match else_branch {
                None => 0,
                Some(_) => match address_after(then_at, then.len()) {
                    Ok(a) => a,
                    Err(e) => {
                        return Err(e);
                    },
                },
            };
            assert(else_branch is Some ==> else_at == beyond(then_at, then_spec.code));
            finish_if(else_branch, env, ctx, cond, then, else_at, Ghost(cond_spec), Ghost(then_spec))
        },
        // Not reached: the statement is of the kind that `requires` names.
        _ => Err(Error::MissingExpression),
    }
}

/// Compiles the `else` branch of an `if`, where it has one, and lays the `if` out.
fn finish_if(
    else_branch: &Option<Box<Stmt>>,
    env: &mut Environment,
    ctx: Context,
    cond: Vec<OpCode>,
    then: Vec<OpCode>,
    else_at: usize,
    Ghost(cond_spec): Ghost<Result<Seq<OpCode>, Error>>,
    Ghost(then_spec): Ghost<Emitted>,
) -> (r: Result<Vec<OpCode>, Error>)
    requires
        old(env).wf(),
        cond_spec == Ok::<Seq<OpCode>, Error>(cond@),
        then_spec == (Emitted { env: old(env)@, code: Ok(then@) }),
        ctx.addr + cond.len() + 1 <= usize::MAX,
        *else_branch is Some ==> ctx.addr + cond.len() + then.len() + 2 == else_at,
    ensures
        final(env).wf(),
        emits(
            r,
            final(env)@,
            match else_code(*else_branch, then_spec.env, ctx.at(else_at)) {
                None => if_code(old(env)@, ctx, cond_spec, then_spec),
                Some(other) => if_else_code(old(env)@, ctx, cond_spec, then_spec, other),
            },
        ),
    decreases *else_branch, 1nat,
{
    match translate_else(
        else_branch,
        env,
        Context { dep: ctx.dep, in_global: ctx.in_global, addr: else_at },
    ) {
        None => assemble_if(ctx.addr, cond, then),
        Some(Err(e)) => Err(e),
        Some(Ok(els)) => assemble_if_else(ctx.addr, cond, then, els),
    }
}

/// Compiles a `while`.
fn translate_while(s: &Stmt, env: &mut Environment, ctx: Context) -> (r: Result<
    Vec<OpCode>,
    Error,
>)
    requires
        old(env).wf(),
        *s is While,
    ensures
        final(env).wf(),
        emits(r, final(env)@, stmt_code(*s, old(env)@, ctx)),
    decreases *s, 0nat,
{
    match s {
        Stmt::While { condition, loopbody } => {
            let cond = match translate_exp(condition, env) {
                Ok(code) => code,
                Err(e) => {
                    return Err(e);
                },
            };
            let body_at = match address_after(ctx.addr, cond.len()) {
                Ok(a) => a,
                Err(e) => {
                    return Err(e);
                },
            };
            env.push_pc(ctx.addr);
            proof {
                lemma_scopes_balanced(
                    **loopbody,
                    env@,
                    Context { dep: ctx.dep, in_global: ctx.in_global, addr: body_at },
                );
            }
            let body = translate_stmt(
                loopbody,
                env,
                Context { dep: ctx.dep, in_global: ctx.in_global, addr: body_at },
            );
            let header = env.pop_pc();
            match body {
                Ok(code) => assemble_while(header, cond, code),
                Err(e) => Err(e),
            }
        },
        // Not reached: the statement is of the kind that `requires` names.
        _ => Err(Error::MissingExpression),
    }
}

/// Compiles a block that starts at `ctx.addr`.
///
/// With `ctx.dep == 0` the block is the body of a function, and its items
/// are compiled in the scope of the parameters. Any other block gets a
/// scope of its own, which is closed again on success and on failure, and
/// its code stands between `EnterScope(0)` and `LeaveScope`.
pub fn translate_block(b: &Block, env: &mut Environment, ctx: Context) -> (r: Result<
    Vec<OpCode>,
    Error,
>)
    requires
        old(env).wf(),
    ensures
        final(env).wf(),
        emits(r, final(env)@, block_code(*b, old(env)@, ctx)),
    decreases *b, b.items.len() + 1,
{
    if ctx.dep == 0 {
        return translate_items(
            b,
            0,
            env,
            Context { dep: 1, in_global: ctx.in_global, addr: ctx.addr },
        );
    }
    let first = match address(ctx.addr, 1) {
        Ok(a) => a,
        Err(e) => {
            return Err(e);
        },
    };
    env.new_scope();
    let inner = translate_items(
        b,
        0,
        env,
        Context { dep: 1, in_global: ctx.in_global, addr: first },
    );
    env.leave_scope();
    match inner {
        Err(e) => Err(e),
        Ok(code) => {
            let mut res = Vec::new();
            res.push(OpCode::EnterScope(0));
            let mut res = join(res, code);
            res.push(OpCode::LeaveScope);
            Ok(res)
        },
    }
}

/// Compiles the items of a block from the `i`-th on, the first of them at `ctx.addr`.
fn translate_items(b: &Block, i: usize, env: &mut Environment, ctx: Context) -> (r: Result<
    Vec<OpCode>,
    Error,
>)
    requires
        old(env).wf(),
    ensures
        final(env).wf(),
        emits(r, final(env)@, items_code(*b, i as nat, old(env)@, ctx)),
    decreases *b, b.items.len() - i,
{
    if i >= b.items.len() {
        return Ok(Vec::new());
    }
    let code = match translate_item(&b.items[i], env, ctx) {
        Ok(code) => code,
        Err(e) => {
            return Err(e);
        },
    };
    let next = match address(ctx.addr, code.len()) {
        Ok(a) => a,
        Err(e) => {
            return Err(e);
        },
    };
    match translate_items(
        b,
        i + 1,
        env,
        Context { dep: ctx.dep, in_global: ctx.in_global, addr: next },
    ) {
        Err(e) => Err(e),
        Ok(rest) => Ok(join(code, rest)),
    }
}

/// Compiles an item of a block.
pub fn translate_item(item: &BlockItem, env: &mut Environment, ctx: Context) -> (r: Result<
    Vec<OpCode>,
    Error,
>)
    requires
        old(env).wf(),
    ensures
        final(env).wf(),
        emits(r, final(env)@, item_code(*item, old(env)@, ctx)),
    decreases *item,
{
    match item {
        BlockItem::Decl(decl) => translate_decl(decl, env, ctx),
        BlockItem::Stmt(stmt) => translate_stmt(stmt, env, ctx),
    }
}


/// The names of the formal parameters of `f`.
fn parameter_names(f: &FuncDef) -> (names: Vec<String>)
    ensures
        names_view(names@) == param_names(*f),
{
    let mut names: Vec<String> = Vec::new();
    match &f.funcfparams {
        None => {
            assert(names_view(names@) =~= param_names(*f));
        },
        Some(params) => {
            let mut i: usize = 0;
            while i < params.params.len()
                invariant
                    i <= params.params.len(),
                    names.len() == i,
                    forall|j: int| 0 <= j < i ==> names@[j]@ == params.params@[j].ident@,
                decreases params.params.len() - i,
            {
                names.push(params.params[i].ident.clone());
                i = i + 1;
            }
            assert(names_view(names@) =~= param_names(*f));
        },
    }
    names
}

/// Declares the names from the `i`-th on in the innermost scope.
fn declare_names(env: &mut Environment, names: &Vec<String>, i: usize) -> (r: Result<(), Error>)
    requires
        old(env).wf(),
        old(env)@.scopes.len() >= 2,
    ensures
        final(env).wf(),
        final(env)@.scopes.len() == old(env)@.scopes.len(),
        final(env)@.pop_scope() == old(env)@.pop_scope(),
        match declare_all(old(env)@, names_view(names@), i as nat) {
            Ok(declared) => r is Ok && final(env)@ == declared,
            Err(e) => r == Err::<(), Error>(e),
        },
    decreases names.len() - i,
{
    if i >= names.len() {
        return Ok(());
    }
    match env.new_val(names[i].clone(), 0) {
        Err(e) => Err(e),
        Ok(()) => {
            assert(env@.scopes.drop_last() =~= old(env)@.scopes.drop_last());
            declare_names(env, names, i + 1)
        },
    }
}

/// Compiles a function definition whose code starts at `addr`.
///
/// The function is recorded with `addr` as its entry before its body is
/// compiled, so that it can call itself. Its parameters get the slots 0, 1,
/// ... of a new scope, in which the body is compiled and which is closed
/// again on success and on failure. Fails with `DuplicatedDef` where a
/// function of that name is recorded already, or where two parameters share
/// a name.
pub fn translate_func(f: &FuncDef, env: &mut Environment, addr: usize) -> (r: Result<
    Vec<OpCode>,
    Error,
>)
    requires
        old(env).wf(),
    ensures
        final(env).wf(),
        emits(r, final(env)@, func_code(*f, old(env)@, addr)),
{
    let names = parameter_names(f);
    let args = parameter_names(f);
    match env.new_func(f.ident.clone(), addr, args) {
        Err(e) => {
            return Err(e);
        },
        Ok(()) => {},
    }
    let ghost recorded = env@;
    env.new_scope();
    match declare_names(env, &names, 0) {
        Err(e) => {
            env.leave_scope();
            assert(recorded.push_scope().pop_scope().scopes =~= recorded.scopes);
            return Err(e);
        },
        Ok(()) => {},
    }
    let body = translate_block(&f.block, env, Context { dep: 0, in_global: 0, addr });
    env.leave_scope();
    body
}

/// Compiles the declarations among the global definitions from the `i`-th
/// on, the first of them at `addr`.
fn translate_globals(defs: &Vec<GlobalDef>, i: usize, env: &mut Environment, addr: usize) -> (r:
    Result<Vec<OpCode>, Error>)
    requires
        old(env).wf(),
    ensures
        final(env).wf(),
        emits(r, final(env)@, globals_code(defs@, i as nat, old(env)@, addr)),
    decreases defs.len() - i,
{
    if i >= defs.len() {
        return Ok(Vec::new());
    }
    match &defs[i] {
        GlobalDef::FuncDef(_) => translate_globals(defs, i + 1, env, addr),
        GlobalDef::Decl(decl) => {
            let code = match translate_decl(decl, env, Context { dep: 0, in_global: 1, addr }) {
                Ok(code) => code,
                Err(e) => {
                    return Err(e);
                },
            };
            let next = match address(addr, code.len()) {
                Ok(a) => a,
                Err(e) => {
                    return Err(e);
                },
            };
            match translate_globals(defs, i + 1, env, next) {
                Err(e) => Err(e),
                Ok(rest) => Ok(join(code, rest)),
            }
        },
    }
}

/// Compiles the functions among the global definitions from the `i`-th on,
/// the first of them at `addr`, and finds the entry of `main`.
fn translate_functions(defs: &Vec<GlobalDef>, i: usize, env: &mut Environment, addr: usize) -> (r:
    (Result<Vec<OpCode>, Error>, Option<usize>))
    requires
        old(env).wf(),
    ensures
        final(env).wf(),
        ({
            let out = functions_code(defs@, i as nat, old(env)@, addr);
            &&& final(env)@ == out.env
            &&& yields(r.0, out.code)
            &&& r.1 == out.main
        }),
    decreases defs.len() - i,
{
    if i >= defs.len() {
        return (Ok(Vec::new()), None);
    }
    match &defs[i] {
        GlobalDef::Decl(_) => translate_functions(defs, i + 1, env, addr),
        GlobalDef::FuncDef(f) => {
            let code = match translate_func(f, env, addr) {
                Ok(code) => code,
                Err(e) => {
                    return (Err(e), None);
                },
            };
            let next = match address(addr, code.len()) {
                Ok(a) => a,
                Err(e) => {
                    return (Err(e), None);
                },
            };
            let (rest, entry) = translate_functions(defs, i + 1, env, next);
            let entry = if is_name(&f.ident, "main") {
                Some(addr)
            } else {
                entry
            };
            match rest {
                Err(e) => (Err(e), entry),
                Ok(rest) => (Ok(join(code, rest)), entry),
            }
        },
    }
}

/// Whether a function is among the global definitions from the `i`-th on.
fn has_function(defs: &Vec<GlobalDef>, i: usize) -> (b: bool)
    ensures
        b == defines_function(defs@, i as nat),
    decreases defs.len() - i,
{
    if i >= defs.len() {
        false
    } else {
        match &defs[i] {
            GlobalDef::FuncDef(_) => true,
            GlobalDef::Decl(_) => has_function(defs, i + 1),
        }
    }
}

/// Compiles a program whose code starts at `addr`.
///
/// The code holds the global declarations in source order; then, where the
/// program defines a function, a call of `main` without arguments, and the
/// functions in source order. In a program without `main` that call names
/// the address `no_entry()`, at which nothing can stand.
pub fn translate_unit(unit: &CompUnit, env: &mut Environment, addr: usize) -> (r: Result<
    Vec<OpCode>,
    Error,
>)
    requires
        old(env).wf(),
    ensures
        final(env).wf(),
        emits(r, final(env)@, unit_code(*unit, old(env)@, addr)),
{
    let decls = match translate_globals(&unit.globaldefs, 0, env, addr) {
        Ok(code) => code,
        Err(e) => {
            return Err(e);
        },
    };
    if !has_function(&unit.globaldefs, 0) {
        return Ok(decls);
    }
    let first = match address_after(addr, decls.len()) {
        Ok(a) => a,
        Err(e) => {
            return Err(e);
        },
    };
    let (bodies, entry) = translate_functions(&unit.globaldefs, 0, env, first);
    match bodies {
        Err(e) => Err(e),
        Ok(bodies) => {
            let target = match entry {
                Some(entry) => entry,
                None => usize::MAX,
            };
            let mut res = decls;
            res.push(OpCode::Call(target, 0));
            Ok(join(res, bodies))
        },
    }
}

} // verus!
