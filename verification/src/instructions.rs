use vstd::prelude::*;
use crate::value::{Value, ValueView, value_view, names_view};

verus! {
/// The C types that foreign calls pass and return.
#[derive(Debug, Clone, Copy, PartialEq, Eq, Structural)]
pub enum FfiType {
    Void,
    Int8,
    Int16,
    Int32,
    Int64,
    UInt8,
    UInt16,
    UInt32,
    UInt64,
    Float,
    Double,
    Pointer,
    String,
}

/// One instruction of the stack machine.
#[derive(Debug)]
pub enum Instruction {
    Push(Value),
    Add,
    Sub,
    Mul,
    Div,
    Leq,
    JmpIfFalse(usize),
    Jmp(usize),
    Call(String, usize),
    Ret,
    LoadArg(usize),
    Print,
    Halt,
    Mod,
    Neg,
    Lt,
    Gt,
    Gte,
    Eq,
    Neq,
    Cons,
    Car,
    Cdr,
    IsList,
    IsString,
    IsSymbol,
    SymbolToString,
    StringToSymbol,
    GetLocal(usize),
    PopN(usize),
    Slide(usize),
    CheckArity(usize, usize),
    MakeClosure(Vec<String>, Vec<Instruction>, usize),
    CallClosure(usize),
    LoadCaptured(usize),
    Append,
    MakeList(usize),
    TailCall(String, usize),
    LoadGlobal(String),
    StoreGlobal(String),
    StringLength,
    Substring,
    StringAppend,
    StringToList,
    ListToString,
    ReadFile,
    WriteFile,
    FileExists,
    GetArgs,
    WriteBinaryFile,
    CharCode,
    ListRef,
    ListLength,
    NumberToString,
    MakeHashMap(usize),
    HashMapGet,
    HashMapSet,
    HashMapKeys,
    HashMapValues,
    HashMapContainsKey,
    IsHashMap,
    MakeVector(usize),
    VectorGet,
    VectorSet,
    VectorPush,
    VectorPop,
    VectorLength,
    IsVector,
    IsInteger,
    IsBoolean,
    IsFunction,
    IsClosure,
    IsProcedure,
    StringToNumber,
    ListToVector,
    VectorToList,
    PackRestArgs(usize),
    MakeVariadicClosure(Vec<String>, String, Vec<Instruction>, usize),
    Apply,
    LoadFile,
    RequireFile,
    IsFloat,
    IsNumber,
    IntToFloat,
    FloatToInt,
    Sqrt,
    Sin,
    Cos,
    Floor,
    Ceil,
    Abs,
    Pow,
    Eval,
    FunctionArity,
    FunctionParams,
    ClosureCaptured,
    FunctionName,
    Tan,
    Atan,
    Atan2,
    Log,
    Exp,
    Random,
    RandomInt,
    SeedRandom,
    StringSplit,
    StringJoin,
    StringTrim,
    StringReplace,
    CurrentTimestamp,
    FormatTimestamp,
    SetLocal(usize),
    BeginLoop(usize),
    Recur(usize),
    TypeOf,
    GenSym,
    PMap,
    PFilter,
    PReduce,
    HttpListen,
    HttpAccept,
    HttpReadRequest,
    HttpSendResponse,
    HttpClose,
    HttpListenShared,
    HttpServeParallel,
    StringStartsWith,
    StringEndsWith,
    StringContains,
    StringUpcase,
    StringDowncase,
    Format,
    FfiCall(Vec<FfiType>, FfiType),
}

broadcast use vstd::std_specs::vec::axiom_vec_decreases_to_view;

/// The mathematical content of an instruction. Instructions without operand
/// are told apart by their opcode, so are those with one numeric operand.
pub enum InstrView {
    Push(ValueView),
    Simple(u8),
    Indexed(u8, usize),
    Call(Seq<char>, usize),
    TailCall(Seq<char>, usize),
    CheckArity(usize, usize),
    MakeClosure(Seq<Seq<char>>, Seq<InstrView>, usize),
    MakeVariadicClosure(Seq<Seq<char>>, Seq<char>, Seq<InstrView>, usize),
    LoadGlobal(Seq<char>),
    StoreGlobal(Seq<char>),
    FfiCall(Seq<FfiType>, FfiType),
}

pub open spec fn instr_view(i: Instruction) -> InstrView
    decreases i,
{
    match i {
        Instruction::Push(v) => InstrView::Push(value_view(v)),
        Instruction::Call(name, n) => InstrView::Call(name@, n),
        Instruction::TailCall(name, n) => InstrView::TailCall(name@, n),
        Instruction::CheckArity(a, b) => InstrView::CheckArity(a, b),
        Instruction::MakeClosure(params, body, n) => InstrView::MakeClosure(names_view(params@), instrs_view(body@), n),
        Instruction::MakeVariadicClosure(params, rest, body, n) => InstrView::MakeVariadicClosure(
            names_view(params@),
            rest@,
            instrs_view(body@),
            n,
        ),
        Instruction::LoadGlobal(name) => InstrView::LoadGlobal(name@),
        Instruction::StoreGlobal(name) => InstrView::StoreGlobal(name@),
        Instruction::FfiCall(args, ret) => InstrView::FfiCall(args@, ret),
        _ => match simple_opcode(i) {
            Some(op) => InstrView::Simple(op),
            None => match index_opcode(i) {
                Some((op, a)) => InstrView::Indexed(op, a),
                None => InstrView::Simple(0),
            },
        },
    }
}

pub open spec fn instrs_view(s: Seq<Instruction>) -> Seq<InstrView>
    decreases s,
{
    if s.len() == 0 {
        Seq::empty()
    } else {
        seq![instr_view(s[0])] + instrs_view(s.subrange(1, s.len() as int))
    }
}


pub proof fn lemma_instrs_view_len(s: Seq<Instruction>)
    ensures
        instrs_view(s).len() == s.len(),
    decreases s.len(),
{
    if s.len() > 0 {
        lemma_instrs_view_len(s.subrange(1, s.len() as int));
    }
}

pub proof fn lemma_instrs_view_index(s: Seq<Instruction>, i: int)
    requires
        0 <= i < s.len(),
    ensures
        instrs_view(s)[i] == instr_view(s[i]),
    decreases s.len(),
{
    lemma_instrs_view_len(s);
    if i > 0 {
        lemma_instrs_view_index(s.subrange(1, s.len() as int), i - 1);
        lemma_instrs_view_len(s.subrange(1, s.len() as int));
    }
}

/// The view of a sequence, element by element.
pub proof fn lemma_instrs_view_ext(s: Seq<Instruction>)
    ensures
        instrs_view(s) == Seq::new(s.len(), |i: int| instr_view(s[i])),
{
    lemma_instrs_view_len(s);
    assert forall|i: int| 0 <= i < s.len() implies instrs_view(s)[i] == instr_view(s[i]) by {
        lemma_instrs_view_index(s, i);
    }
    assert(instrs_view(s) =~= Seq::new(s.len(), |i: int| instr_view(s[i])));
}

/// Every instruction has operands of its own kind, or none, or one number.
pub proof fn lemma_classify(i: Instruction)
    ensures
        i is Push || i is Call || i is TailCall || i is CheckArity || i is MakeClosure
            || i is MakeVariadicClosure || i is LoadGlobal || i is StoreGlobal || i is FfiCall
            || simple_opcode(i).is_some() || index_opcode(i).is_some(),
{
}

/// Decoding an operand-free opcode gives an instruction with that opcode.
pub proof fn lemma_simple_roundtrip(op: u8)
    requires
        simple_of_opcode(op).is_some(),
    ensures
        simple_opcode(simple_of_opcode(op).unwrap()) == Some(op),
        instr_view(simple_of_opcode(op).unwrap()) == InstrView::Simple(op),
{
}

/// Decoding a one-number opcode gives an instruction with that opcode and operand.
pub proof fn lemma_indexed_roundtrip(op: u8, a: usize)
    requires
        indexed_of_opcode(op, 0).is_some(),
    ensures
        indexed_of_opcode(op, a).is_some(),
        index_opcode(indexed_of_opcode(op, a).unwrap()) == Some((op, a)),
        instr_view(indexed_of_opcode(op, a).unwrap()) == InstrView::Indexed(op, a),
{
}

pub proof fn lemma_simple_view(i: Instruction)
    requires
        simple_opcode(i).is_some(),
    ensures
        instr_view(i) == InstrView::Simple(simple_opcode(i).unwrap()),
{
}

pub proof fn lemma_indexed_view(i: Instruction)
    requires
        index_opcode(i).is_some(),
    ensures
        instr_view(i) == InstrView::Indexed(index_opcode(i).unwrap().0, index_opcode(i).unwrap().1),
        simple_opcode(i).is_none(),
{
}

/// The opcode of an instruction that has no operand.
pub open spec fn simple_opcode(i: Instruction) -> Option<u8> {
    match i {
        Instruction::Add => Some(1u8),
        Instruction::Sub => Some(2u8),
        Instruction::Mul => Some(3u8),
        Instruction::Div => Some(4u8),
        Instruction::Leq => Some(5u8),
        Instruction::Ret => Some(9u8),
        Instruction::Print => Some(11u8),
        Instruction::Halt => Some(12u8),
        Instruction::Mod => Some(13u8),
        Instruction::Neg => Some(14u8),
        Instruction::Lt => Some(15u8),
        Instruction::Gt => Some(16u8),
        Instruction::Gte => Some(17u8),
        Instruction::Eq => Some(18u8),
        Instruction::Neq => Some(19u8),
        Instruction::Cons => Some(20u8),
        Instruction::Car => Some(21u8),
        Instruction::Cdr => Some(22u8),
        Instruction::IsList => Some(23u8),
        Instruction::IsString => Some(24u8),
        Instruction::IsSymbol => Some(25u8),
        Instruction::SymbolToString => Some(26u8),
        Instruction::StringToSymbol => Some(27u8),
        Instruction::Append => Some(35u8),
        Instruction::StringLength => Some(40u8),
        Instruction::Substring => Some(41u8),
        Instruction::StringAppend => Some(42u8),
        Instruction::StringToList => Some(43u8),
        Instruction::ListToString => Some(44u8),
        Instruction::ReadFile => Some(45u8),
        Instruction::WriteFile => Some(46u8),
        Instruction::FileExists => Some(47u8),
        Instruction::GetArgs => Some(48u8),
        Instruction::WriteBinaryFile => Some(49u8),
        Instruction::CharCode => Some(50u8),
        Instruction::ListRef => Some(51u8),
        Instruction::ListLength => Some(52u8),
        Instruction::NumberToString => Some(53u8),
        Instruction::HashMapGet => Some(55u8),
        Instruction::HashMapSet => Some(56u8),
        Instruction::HashMapKeys => Some(57u8),
        Instruction::HashMapValues => Some(58u8),
        Instruction::HashMapContainsKey => Some(59u8),
        Instruction::IsHashMap => Some(60u8),
        Instruction::VectorGet => Some(62u8),
        Instruction::VectorSet => Some(63u8),
        Instruction::VectorPush => Some(64u8),
        Instruction::VectorPop => Some(65u8),
        Instruction::VectorLength => Some(66u8),
        Instruction::IsVector => Some(67u8),
        Instruction::IsInteger => Some(68u8),
        Instruction::IsBoolean => Some(69u8),
        Instruction::IsFunction => Some(70u8),
        Instruction::IsClosure => Some(71u8),
        Instruction::IsProcedure => Some(72u8),
        Instruction::StringToNumber => Some(73u8),
        Instruction::ListToVector => Some(74u8),
        Instruction::VectorToList => Some(75u8),
        Instruction::Apply => Some(78u8),
        Instruction::LoadFile => Some(79u8),
        Instruction::RequireFile => Some(80u8),
        Instruction::IsFloat => Some(81u8),
        Instruction::IsNumber => Some(82u8),
        Instruction::IntToFloat => Some(83u8),
        Instruction::FloatToInt => Some(84u8),
        Instruction::Sqrt => Some(85u8),
        Instruction::Sin => Some(86u8),
        Instruction::Cos => Some(87u8),
        Instruction::Floor => Some(88u8),
        Instruction::Ceil => Some(89u8),
        Instruction::Abs => Some(90u8),
        Instruction::Pow => Some(91u8),
        Instruction::Eval => Some(92u8),
        Instruction::FunctionArity => Some(93u8),
        Instruction::FunctionParams => Some(94u8),
        Instruction::ClosureCaptured => Some(95u8),
        Instruction::FunctionName => Some(96u8),
        Instruction::Tan => Some(97u8),
        Instruction::Atan => Some(98u8),
        Instruction::Atan2 => Some(99u8),
        Instruction::Log => Some(100u8),
        Instruction::Exp => Some(101u8),
        Instruction::Random => Some(102u8),
        Instruction::RandomInt => Some(103u8),
        Instruction::SeedRandom => Some(104u8),
        Instruction::StringSplit => Some(105u8),
        Instruction::StringJoin => Some(106u8),
        Instruction::StringTrim => Some(107u8),
        Instruction::StringReplace => Some(108u8),
        Instruction::CurrentTimestamp => Some(109u8),
        Instruction::FormatTimestamp => Some(110u8),
        Instruction::TypeOf => Some(114u8),
        Instruction::GenSym => Some(115u8),
        Instruction::PMap => Some(116u8),
        Instruction::PFilter => Some(117u8),
        Instruction::PReduce => Some(118u8),
        Instruction::HttpListen => Some(119u8),
        Instruction::HttpAccept => Some(120u8),
        Instruction::HttpReadRequest => Some(121u8),
        Instruction::HttpSendResponse => Some(122u8),
        Instruction::HttpClose => Some(123u8),
        Instruction::HttpListenShared => Some(124u8),
        Instruction::HttpServeParallel => Some(125u8),
        Instruction::StringStartsWith => Some(126u8),
        Instruction::StringEndsWith => Some(127u8),
        Instruction::StringContains => Some(128u8),
        Instruction::StringUpcase => Some(129u8),
        Instruction::StringDowncase => Some(130u8),
        Instruction::Format => Some(131u8),
        _ => None,
    }
}

/// The opcode of an instruction that has no operand.
pub fn opcode_of_simple(i: &Instruction) -> (r: Option<u8>)
    ensures
        r == simple_opcode(*i),
{
    match i {
        Instruction::Add => Some(1),
        Instruction::Sub => Some(2),
        Instruction::Mul => Some(3),
        Instruction::Div => Some(4),
        Instruction::Leq => Some(5),
        Instruction::Ret => Some(9),
        Instruction::Print => Some(11),
        Instruction::Halt => Some(12),
        Instruction::Mod => Some(13),
        Instruction::Neg => Some(14),
        Instruction::Lt => Some(15),
        Instruction::Gt => Some(16),
        Instruction::Gte => Some(17),
        Instruction::Eq => Some(18),
        Instruction::Neq => Some(19),
        Instruction::Cons => Some(20),
        Instruction::Car => Some(21),
        Instruction::Cdr => Some(22),
        Instruction::IsList => Some(23),
        Instruction::IsString => Some(24),
        Instruction::IsSymbol => Some(25),
        Instruction::SymbolToString => Some(26),
        Instruction::StringToSymbol => Some(27),
        Instruction::Append => Some(35),
        Instruction::StringLength => Some(40),
        Instruction::Substring => Some(41),
        Instruction::StringAppend => Some(42),
        Instruction::StringToList => Some(43),
        Instruction::ListToString => Some(44),
        Instruction::ReadFile => Some(45),
        Instruction::WriteFile => Some(46),
        Instruction::FileExists => Some(47),
        Instruction::GetArgs => Some(48),
        Instruction::WriteBinaryFile => Some(49),
        Instruction::CharCode => Some(50),
        Instruction::ListRef => Some(51),
        Instruction::ListLength => Some(52),
        Instruction::NumberToString => Some(53),
        Instruction::HashMapGet => Some(55),
        Instruction::HashMapSet => Some(56),
        Instruction::HashMapKeys => Some(57),
        Instruction::HashMapValues => Some(58),
        Instruction::HashMapContainsKey => Some(59),
        Instruction::IsHashMap => Some(60),
        Instruction::VectorGet => Some(62),
        Instruction::VectorSet => Some(63),
        Instruction::VectorPush => Some(64),
        Instruction::VectorPop => Some(65),
        Instruction::VectorLength => Some(66),
        Instruction::IsVector => Some(67),
        Instruction::IsInteger => Some(68),
        Instruction::IsBoolean => Some(69),
        Instruction::IsFunction => Some(70),
        Instruction::IsClosure => Some(71),
        Instruction::IsProcedure => Some(72),
        Instruction::StringToNumber => Some(73),
        Instruction::ListToVector => Some(74),
        Instruction::VectorToList => Some(75),
        Instruction::Apply => Some(78),
        Instruction::LoadFile => Some(79),
        Instruction::RequireFile => Some(80),
        Instruction::IsFloat => Some(81),
        Instruction::IsNumber => Some(82),
        Instruction::IntToFloat => Some(83),
        Instruction::FloatToInt => Some(84),
        Instruction::Sqrt => Some(85),
        Instruction::Sin => Some(86),
        Instruction::Cos => Some(87),
        Instruction::Floor => Some(88),
        Instruction::Ceil => Some(89),
        Instruction::Abs => Some(90),
        Instruction::Pow => Some(91),
        Instruction::Eval => Some(92),
        Instruction::FunctionArity => Some(93),
        Instruction::FunctionParams => Some(94),
        Instruction::ClosureCaptured => Some(95),
        Instruction::FunctionName => Some(96),
        Instruction::Tan => Some(97),
        Instruction::Atan => Some(98),
        Instruction::Atan2 => Some(99),
        Instruction::Log => Some(100),
        Instruction::Exp => Some(101),
        Instruction::Random => Some(102),
        Instruction::RandomInt => Some(103),
        Instruction::SeedRandom => Some(104),
        Instruction::StringSplit => Some(105),
        Instruction::StringJoin => Some(106),
        Instruction::StringTrim => Some(107),
        Instruction::StringReplace => Some(108),
        Instruction::CurrentTimestamp => Some(109),
        Instruction::FormatTimestamp => Some(110),
        Instruction::TypeOf => Some(114),
        Instruction::GenSym => Some(115),
        Instruction::PMap => Some(116),
        Instruction::PFilter => Some(117),
        Instruction::PReduce => Some(118),
        Instruction::HttpListen => Some(119),
        Instruction::HttpAccept => Some(120),
        Instruction::HttpReadRequest => Some(121),
        Instruction::HttpSendResponse => Some(122),
        Instruction::HttpClose => Some(123),
        Instruction::HttpListenShared => Some(124),
        Instruction::HttpServeParallel => Some(125),
        Instruction::StringStartsWith => Some(126),
        Instruction::StringEndsWith => Some(127),
        Instruction::StringContains => Some(128),
        Instruction::StringUpcase => Some(129),
        Instruction::StringDowncase => Some(130),
        Instruction::Format => Some(131),
        _ => None,
    }
}

/// The operand-free instruction with the given opcode.
pub open spec fn simple_of_opcode(op: u8) -> Option<Instruction> {
    if op == 1 {
        Some(Instruction::Add)
    } else if op == 2 {
        Some(Instruction::Sub)
    } else if op == 3 {
        Some(Instruction::Mul)
    } else if op == 4 {
        Some(Instruction::Div)
    } else if op == 5 {
        Some(Instruction::Leq)
    } else if op == 9 {
        Some(Instruction::Ret)
    } else if op == 11 {
        Some(Instruction::Print)
    } else if op == 12 {
        Some(Instruction::Halt)
    } else if op == 13 {
        Some(Instruction::Mod)
    } else if op == 14 {
        Some(Instruction::Neg)
    } else if op == 15 {
        Some(Instruction::Lt)
    } else if op == 16 {
        Some(Instruction::Gt)
    } else if op == 17 {
        Some(Instruction::Gte)
    } else if op == 18 {
        Some(Instruction::Eq)
    } else if op == 19 {
        Some(Instruction::Neq)
    } else if op == 20 {
        Some(Instruction::Cons)
    } else if op == 21 {
        Some(Instruction::Car)
    } else if op == 22 {
        Some(Instruction::Cdr)
    } else if op == 23 {
        Some(Instruction::IsList)
    } else if op == 24 {
        Some(Instruction::IsString)
    } else if op == 25 {
        Some(Instruction::IsSymbol)
    } else if op == 26 {
        Some(Instruction::SymbolToString)
    } else if op == 27 {
        Some(Instruction::StringToSymbol)
    } else if op == 35 {
        Some(Instruction::Append)
    } else if op == 40 {
        Some(Instruction::StringLength)
    } else if op == 41 {
        Some(Instruction::Substring)
    } else if op == 42 {
        Some(Instruction::StringAppend)
    } else if op == 43 {
        Some(Instruction::StringToList)
    } else if op == 44 {
        Some(Instruction::ListToString)
    } else if op == 45 {
        Some(Instruction::ReadFile)
    } else if op == 46 {
        Some(Instruction::WriteFile)
    } else if op == 47 {
        Some(Instruction::FileExists)
    } else if op == 48 {
        Some(Instruction::GetArgs)
    } else if op == 49 {
        Some(Instruction::WriteBinaryFile)
    } else if op == 50 {
        Some(Instruction::CharCode)
    } else if op == 51 {
        Some(Instruction::ListRef)
    } else if op == 52 {
        Some(Instruction::ListLength)
    } else if op == 53 {
        Some(Instruction::NumberToString)
    } else if op == 55 {
        Some(Instruction::HashMapGet)
    } else if op == 56 {
        Some(Instruction::HashMapSet)
    } else if op == 57 {
        Some(Instruction::HashMapKeys)
    } else if op == 58 {
        Some(Instruction::HashMapValues)
    } else if op == 59 {
        Some(Instruction::HashMapContainsKey)
    } else if op == 60 {
        Some(Instruction::IsHashMap)
    } else if op == 62 {
        Some(Instruction::VectorGet)
    } else if op == 63 {
        Some(Instruction::VectorSet)
    } else if op == 64 {
        Some(Instruction::VectorPush)
    } else if op == 65 {
        Some(Instruction::VectorPop)
    } else if op == 66 {
        Some(Instruction::VectorLength)
    } else if op == 67 {
        Some(Instruction::IsVector)
    } else if op == 68 {
        Some(Instruction::IsInteger)
    } else if op == 69 {
        Some(Instruction::IsBoolean)
    } else if op == 70 {
        Some(Instruction::IsFunction)
    } else if op == 71 {
        Some(Instruction::IsClosure)
    } else if op == 72 {
        Some(Instruction::IsProcedure)
    } else if op == 73 {
        Some(Instruction::StringToNumber)
    } else if op == 74 {
        Some(Instruction::ListToVector)
    } else if op == 75 {
        Some(Instruction::VectorToList)
    } else if op == 78 {
        Some(Instruction::Apply)
    } else if op == 79 {
        Some(Instruction::LoadFile)
    } else if op == 80 {
        Some(Instruction::RequireFile)
    } else if op == 81 {
        Some(Instruction::IsFloat)
    } else if op == 82 {
        Some(Instruction::IsNumber)
    } else if op == 83 {
        Some(Instruction::IntToFloat)
    } else if op == 84 {
        Some(Instruction::FloatToInt)
    } else if op == 85 {
        Some(Instruction::Sqrt)
    } else if op == 86 {
        Some(Instruction::Sin)
    } else if op == 87 {
        Some(Instruction::Cos)
    } else if op == 88 {
        Some(Instruction::Floor)
    } else if op == 89 {
        Some(Instruction::Ceil)
    } else if op == 90 {
        Some(Instruction::Abs)
    } else if op == 91 {
        Some(Instruction::Pow)
    } else if op == 92 {
        Some(Instruction::Eval)
    } else if op == 93 {
        Some(Instruction::FunctionArity)
    } else if op == 94 {
        Some(Instruction::FunctionParams)
    } else if op == 95 {
        Some(Instruction::ClosureCaptured)
    } else if op == 96 {
        Some(Instruction::FunctionName)
    } else if op == 97 {
        Some(Instruction::Tan)
    } else if op == 98 {
        Some(Instruction::Atan)
    } else if op == 99 {
        Some(Instruction::Atan2)
    } else if op == 100 {
        Some(Instruction::Log)
    } else if op == 101 {
        Some(Instruction::Exp)
    } else if op == 102 {
        Some(Instruction::Random)
    } else if op == 103 {
        Some(Instruction::RandomInt)
    } else if op == 104 {
        Some(Instruction::SeedRandom)
    } else if op == 105 {
        Some(Instruction::StringSplit)
    } else if op == 106 {
        Some(Instruction::StringJoin)
    } else if op == 107 {
        Some(Instruction::StringTrim)
    } else if op == 108 {
        Some(Instruction::StringReplace)
    } else if op == 109 {
        Some(Instruction::CurrentTimestamp)
    } else if op == 110 {
        Some(Instruction::FormatTimestamp)
    } else if op == 114 {
        Some(Instruction::TypeOf)
    } else if op == 115 {
        Some(Instruction::GenSym)
    } else if op == 116 {
        Some(Instruction::PMap)
    } else if op == 117 {
        Some(Instruction::PFilter)
    } else if op == 118 {
        Some(Instruction::PReduce)
    } else if op == 119 {
        Some(Instruction::HttpListen)
    } else if op == 120 {
        Some(Instruction::HttpAccept)
    } else if op == 121 {
        Some(Instruction::HttpReadRequest)
    } else if op == 122 {
        Some(Instruction::HttpSendResponse)
    } else if op == 123 {
        Some(Instruction::HttpClose)
    } else if op == 124 {
        Some(Instruction::HttpListenShared)
    } else if op == 125 {
        Some(Instruction::HttpServeParallel)
    } else if op == 126 {
        Some(Instruction::StringStartsWith)
    } else if op == 127 {
        Some(Instruction::StringEndsWith)
    } else if op == 128 {
        Some(Instruction::StringContains)
    } else if op == 129 {
        Some(Instruction::StringUpcase)
    } else if op == 130 {
        Some(Instruction::StringDowncase)
    } else if op == 131 {
        Some(Instruction::Format)
    } else {
        None
    }
}

/// The operand-free instruction with the given opcode.
pub fn simple_from_opcode(op: u8) -> (r: Option<Instruction>)
    ensures
        r == simple_of_opcode(op),
{
    match op {
        1 => Some(Instruction::Add),
        2 => Some(Instruction::Sub),
        3 => Some(Instruction::Mul),
        4 => Some(Instruction::Div),
        5 => Some(Instruction::Leq),
        9 => Some(Instruction::Ret),
        11 => Some(Instruction::Print),
        12 => Some(Instruction::Halt),
        13 => Some(Instruction::Mod),
        14 => Some(Instruction::Neg),
        15 => Some(Instruction::Lt),
        16 => Some(Instruction::Gt),
        17 => Some(Instruction::Gte),
        18 => Some(Instruction::Eq),
        19 => Some(Instruction::Neq),
        20 => Some(Instruction::Cons),
        21 => Some(Instruction::Car),
        22 => Some(Instruction::Cdr),
        23 => Some(Instruction::IsList),
        24 => Some(Instruction::IsString),
        25 => Some(Instruction::IsSymbol),
        26 => Some(Instruction::SymbolToString),
        27 => Some(Instruction::StringToSymbol),
        35 => Some(Instruction::Append),
        40 => Some(Instruction::StringLength),
        41 => Some(Instruction::Substring),
        42 => Some(Instruction::StringAppend),
        43 => Some(Instruction::StringToList),
        44 => Some(Instruction::ListToString),
        45 => Some(Instruction::ReadFile),
        46 => Some(Instruction::WriteFile),
        47 => Some(Instruction::FileExists),
        48 => Some(Instruction::GetArgs),
        49 => Some(Instruction::WriteBinaryFile),
        50 => Some(Instruction::CharCode),
        51 => Some(Instruction::ListRef),
        52 => Some(Instruction::ListLength),
        53 => Some(Instruction::NumberToString),
        55 => Some(Instruction::HashMapGet),
        56 => Some(Instruction::HashMapSet),
        57 => Some(Instruction::HashMapKeys),
        58 => Some(Instruction::HashMapValues),
        59 => Some(Instruction::HashMapContainsKey),
        60 => Some(Instruction::IsHashMap),
        62 => Some(Instruction::VectorGet),
        63 => Some(Instruction::VectorSet),
        64 => Some(Instruction::VectorPush),
        65 => Some(Instruction::VectorPop),
        66 => Some(Instruction::VectorLength),
        67 => Some(Instruction::IsVector),
        68 => Some(Instruction::IsInteger),
        69 => Some(Instruction::IsBoolean),
        70 => Some(Instruction::IsFunction),
        71 => Some(Instruction::IsClosure),
        72 => Some(Instruction::IsProcedure),
        73 => Some(Instruction::StringToNumber),
        74 => Some(Instruction::ListToVector),
        75 => Some(Instruction::VectorToList),
        78 => Some(Instruction::Apply),
        79 => Some(Instruction::LoadFile),
        80 => Some(Instruction::RequireFile),
        81 => Some(Instruction::IsFloat),
        82 => Some(Instruction::IsNumber),
        83 => Some(Instruction::IntToFloat),
        84 => Some(Instruction::FloatToInt),
        85 => Some(Instruction::Sqrt),
        86 => Some(Instruction::Sin),
        87 => Some(Instruction::Cos),
        88 => Some(Instruction::Floor),
        89 => Some(Instruction::Ceil),
        90 => Some(Instruction::Abs),
        91 => Some(Instruction::Pow),
        92 => Some(Instruction::Eval),
        93 => Some(Instruction::FunctionArity),
        94 => Some(Instruction::FunctionParams),
        95 => Some(Instruction::ClosureCaptured),
        96 => Some(Instruction::FunctionName),
        97 => Some(Instruction::Tan),
        98 => Some(Instruction::Atan),
        99 => Some(Instruction::Atan2),
        100 => Some(Instruction::Log),
        101 => Some(Instruction::Exp),
        102 => Some(Instruction::Random),
        103 => Some(Instruction::RandomInt),
        104 => Some(Instruction::SeedRandom),
        105 => Some(Instruction::StringSplit),
        106 => Some(Instruction::StringJoin),
        107 => Some(Instruction::StringTrim),
        108 => Some(Instruction::StringReplace),
        109 => Some(Instruction::CurrentTimestamp),
        110 => Some(Instruction::FormatTimestamp),
        114 => Some(Instruction::TypeOf),
        115 => Some(Instruction::GenSym),
        116 => Some(Instruction::PMap),
        117 => Some(Instruction::PFilter),
        118 => Some(Instruction::PReduce),
        119 => Some(Instruction::HttpListen),
        120 => Some(Instruction::HttpAccept),
        121 => Some(Instruction::HttpReadRequest),
        122 => Some(Instruction::HttpSendResponse),
        123 => Some(Instruction::HttpClose),
        124 => Some(Instruction::HttpListenShared),
        125 => Some(Instruction::HttpServeParallel),
        126 => Some(Instruction::StringStartsWith),
        127 => Some(Instruction::StringEndsWith),
        128 => Some(Instruction::StringContains),
        129 => Some(Instruction::StringUpcase),
        130 => Some(Instruction::StringDowncase),
        131 => Some(Instruction::Format),
        _ => None,
    }
}

/// The opcode and operand of an instruction whose one operand is a number.
pub open spec fn index_opcode(i: Instruction) -> Option<(u8, usize)> {
    match i {
        Instruction::JmpIfFalse(a) => Some((6u8, a)),
        Instruction::Jmp(a) => Some((7u8, a)),
        Instruction::LoadArg(a) => Some((10u8, a)),
        Instruction::GetLocal(a) => Some((28u8, a)),
        Instruction::PopN(a) => Some((29u8, a)),
        Instruction::Slide(a) => Some((30u8, a)),
        Instruction::CallClosure(a) => Some((33u8, a)),
        Instruction::LoadCaptured(a) => Some((34u8, a)),
        Instruction::MakeList(a) => Some((36u8, a)),
        Instruction::MakeHashMap(a) => Some((54u8, a)),
        Instruction::MakeVector(a) => Some((61u8, a)),
        Instruction::PackRestArgs(a) => Some((76u8, a)),
        Instruction::SetLocal(a) => Some((111u8, a)),
        Instruction::BeginLoop(a) => Some((112u8, a)),
        Instruction::Recur(a) => Some((113u8, a)),
        _ => None,
    }
}

/// The opcode and operand of an instruction whose one operand is a number.
pub fn opcode_of_indexed(i: &Instruction) -> (r: Option<(u8, usize)>)
    ensures
        r == index_opcode(*i),
{
    match i {
        Instruction::JmpIfFalse(a) => Some((6, *a)),
        Instruction::Jmp(a) => Some((7, *a)),
        Instruction::LoadArg(a) => Some((10, *a)),
        Instruction::GetLocal(a) => Some((28, *a)),
        Instruction::PopN(a) => Some((29, *a)),
        Instruction::Slide(a) => Some((30, *a)),
        Instruction::CallClosure(a) => Some((33, *a)),
        Instruction::LoadCaptured(a) => Some((34, *a)),
        Instruction::MakeList(a) => Some((36, *a)),
        Instruction::MakeHashMap(a) => Some((54, *a)),
        Instruction::MakeVector(a) => Some((61, *a)),
        Instruction::PackRestArgs(a) => Some((76, *a)),
        Instruction::SetLocal(a) => Some((111, *a)),
        Instruction::BeginLoop(a) => Some((112, *a)),
        Instruction::Recur(a) => Some((113, *a)),
        _ => None,
    }
}

/// The instruction with one numeric operand that has the given opcode.
pub open spec fn indexed_of_opcode(op: u8, a: usize) -> Option<Instruction> {
    if op == 6 {
        Some(Instruction::JmpIfFalse(a))
    } else if op == 7 {
        Some(Instruction::Jmp(a))
    } else if op == 10 {
        Some(Instruction::LoadArg(a))
    } else if op == 28 {
        Some(Instruction::GetLocal(a))
    } else if op == 29 {
        Some(Instruction::PopN(a))
    } else if op == 30 {
        Some(Instruction::Slide(a))
    } else if op == 33 {
        Some(Instruction::CallClosure(a))
    } else if op == 34 {
        Some(Instruction::LoadCaptured(a))
    } else if op == 36 {
        Some(Instruction::MakeList(a))
    } else if op == 54 {
        Some(Instruction::MakeHashMap(a))
    } else if op == 61 {
        Some(Instruction::MakeVector(a))
    } else if op == 76 {
        Some(Instruction::PackRestArgs(a))
    } else if op == 111 {
        Some(Instruction::SetLocal(a))
    } else if op == 112 {
        Some(Instruction::BeginLoop(a))
    } else if op == 113 {
        Some(Instruction::Recur(a))
    } else {
        None
    }
}

/// The instruction with one numeric operand that has the given opcode.
pub fn indexed_from_opcode(op: u8, a: usize) -> (r: Option<Instruction>)
    ensures
        r == indexed_of_opcode(op, a),
{
    match op {
        6 => Some(Instruction::JmpIfFalse(a)),
        7 => Some(Instruction::Jmp(a)),
        10 => Some(Instruction::LoadArg(a)),
        28 => Some(Instruction::GetLocal(a)),
        29 => Some(Instruction::PopN(a)),
        30 => Some(Instruction::Slide(a)),
        33 => Some(Instruction::CallClosure(a)),
        34 => Some(Instruction::LoadCaptured(a)),
        36 => Some(Instruction::MakeList(a)),
        54 => Some(Instruction::MakeHashMap(a)),
        61 => Some(Instruction::MakeVector(a)),
        76 => Some(Instruction::PackRestArgs(a)),
        111 => Some(Instruction::SetLocal(a)),
        112 => Some(Instruction::BeginLoop(a)),
        113 => Some(Instruction::Recur(a)),
        _ => None,
    }
}

/// The name of an instruction as the disassembler prints it.
pub open spec fn instruction_name(i: Instruction) -> Seq<char> {
    match i {
        Instruction::Push(..) => "Push"@,
        Instruction::Call(..) => "Call"@,
        Instruction::TailCall(..) => "TailCall"@,
        Instruction::CheckArity(..) => "CheckArity"@,
        Instruction::MakeClosure(..) => "MakeClosure"@,
        Instruction::MakeVariadicClosure(..) => "MakeVariadicClosure"@,
        Instruction::LoadGlobal(..) => "LoadGlobal"@,
        Instruction::StoreGlobal(..) => "StoreGlobal"@,
        Instruction::FfiCall(..) => "FfiCall"@,
        Instruction::JmpIfFalse(..) => "JmpIfFalse"@,
        Instruction::Jmp(..) => "Jmp"@,
        Instruction::LoadArg(..) => "LoadArg"@,
        Instruction::GetLocal(..) => "GetLocal"@,
        Instruction::PopN(..) => "PopN"@,
        Instruction::Slide(..) => "Slide"@,
        Instruction::CallClosure(..) => "CallClosure"@,
        Instruction::LoadCaptured(..) => "LoadCaptured"@,
        Instruction::MakeList(..) => "MakeList"@,
        Instruction::MakeHashMap(..) => "MakeHashMap"@,
        Instruction::MakeVector(..) => "MakeVector"@,
        Instruction::PackRestArgs(..) => "PackRestArgs"@,
        Instruction::SetLocal(..) => "SetLocal"@,
        Instruction::BeginLoop(..) => "BeginLoop"@,
        Instruction::Recur(..) => "Recur"@,
        Instruction::Add => "Add"@,
        Instruction::Sub => "Sub"@,
        Instruction::Mul => "Mul"@,
        Instruction::Div => "Div"@,
        Instruction::Leq => "Leq"@,
        Instruction::Ret => "Ret"@,
        Instruction::Print => "Print"@,
        Instruction::Halt => "Halt"@,
        Instruction::Mod => "Mod"@,
        Instruction::Neg => "Neg"@,
        Instruction::Lt => "Lt"@,
        Instruction::Gt => "Gt"@,
        Instruction::Gte => "Gte"@,
        Instruction::Eq => "Eq"@,
        Instruction::Neq => "Neq"@,
        Instruction::Cons => "Cons"@,
        Instruction::Car => "Car"@,
        Instruction::Cdr => "Cdr"@,
        Instruction::IsList => "IsList"@,
        Instruction::IsString => "IsString"@,
        Instruction::IsSymbol => "IsSymbol"@,
        Instruction::SymbolToString => "SymbolToString"@,
        Instruction::StringToSymbol => "StringToSymbol"@,
        Instruction::Append => "Append"@,
        Instruction::StringLength => "StringLength"@,
        Instruction::Substring => "Substring"@,
        Instruction::StringAppend => "StringAppend"@,
        Instruction::StringToList => "StringToList"@,
        Instruction::ListToString => "ListToString"@,
        Instruction::ReadFile => "ReadFile"@,
        Instruction::WriteFile => "WriteFile"@,
        Instruction::FileExists => "FileExists"@,
        Instruction::GetArgs => "GetArgs"@,
        Instruction::WriteBinaryFile => "WriteBinaryFile"@,
        Instruction::CharCode => "CharCode"@,
        Instruction::ListRef => "ListRef"@,
        Instruction::ListLength => "ListLength"@,
        Instruction::NumberToString => "NumberToString"@,
        Instruction::HashMapGet => "HashMapGet"@,
        Instruction::HashMapSet => "HashMapSet"@,
        Instruction::HashMapKeys => "HashMapKeys"@,
        Instruction::HashMapValues => "HashMapValues"@,
        Instruction::HashMapContainsKey => "HashMapContainsKey"@,
        Instruction::IsHashMap => "IsHashMap"@,
        Instruction::VectorGet => "VectorGet"@,
        Instruction::VectorSet => "VectorSet"@,
        Instruction::VectorPush => "VectorPush"@,
        Instruction::VectorPop => "VectorPop"@,
        Instruction::VectorLength => "VectorLength"@,
        Instruction::IsVector => "IsVector"@,
        Instruction::IsInteger => "IsInteger"@,
        Instruction::IsBoolean => "IsBoolean"@,
        Instruction::IsFunction => "IsFunction"@,
        Instruction::IsClosure => "IsClosure"@,
        Instruction::IsProcedure => "IsProcedure"@,
        Instruction::StringToNumber => "StringToNumber"@,
        Instruction::ListToVector => "ListToVector"@,
        Instruction::VectorToList => "VectorToList"@,
        Instruction::Apply => "Apply"@,
        Instruction::LoadFile => "LoadFile"@,
        Instruction::RequireFile => "RequireFile"@,
        Instruction::IsFloat => "IsFloat"@,
        Instruction::IsNumber => "IsNumber"@,
        Instruction::IntToFloat => "IntToFloat"@,
        Instruction::FloatToInt => "FloatToInt"@,
        Instruction::Sqrt => "Sqrt"@,
        Instruction::Sin => "Sin"@,
        Instruction::Cos => "Cos"@,
        Instruction::Floor => "Floor"@,
        Instruction::Ceil => "Ceil"@,
        Instruction::Abs => "Abs"@,
        Instruction::Pow => "Pow"@,
        Instruction::Eval => "Eval"@,
        Instruction::FunctionArity => "FunctionArity"@,
        Instruction::FunctionParams => "FunctionParams"@,
        Instruction::ClosureCaptured => "ClosureCaptured"@,
        Instruction::FunctionName => "FunctionName"@,
        Instruction::Tan => "Tan"@,
        Instruction::Atan => "Atan"@,
        Instruction::Atan2 => "Atan2"@,
        Instruction::Log => "Log"@,
        Instruction::Exp => "Exp"@,
        Instruction::Random => "Random"@,
        Instruction::RandomInt => "RandomInt"@,
        Instruction::SeedRandom => "SeedRandom"@,
        Instruction::StringSplit => "StringSplit"@,
        Instruction::StringJoin => "StringJoin"@,
        Instruction::StringTrim => "StringTrim"@,
        Instruction::StringReplace => "StringReplace"@,
        Instruction::CurrentTimestamp => "CurrentTimestamp"@,
        Instruction::FormatTimestamp => "FormatTimestamp"@,
        Instruction::TypeOf => "TypeOf"@,
        Instruction::GenSym => "GenSym"@,
        Instruction::PMap => "PMap"@,
        Instruction::PFilter => "PFilter"@,
        Instruction::PReduce => "PReduce"@,
        Instruction::HttpListen => "HttpListen"@,
        Instruction::HttpAccept => "HttpAccept"@,
        Instruction::HttpReadRequest => "HttpReadRequest"@,
        Instruction::HttpSendResponse => "HttpSendResponse"@,
        Instruction::HttpClose => "HttpClose"@,
        Instruction::HttpListenShared => "HttpListenShared"@,
        Instruction::HttpServeParallel => "HttpServeParallel"@,
        Instruction::StringStartsWith => "StringStartsWith"@,
        Instruction::StringEndsWith => "StringEndsWith"@,
        Instruction::StringContains => "StringContains"@,
        Instruction::StringUpcase => "StringUpcase"@,
        Instruction::StringDowncase => "StringDowncase"@,
        Instruction::Format => "Format"@,
    }
}

/// The name of an instruction's variant.
pub fn name_of(i: &Instruction) -> (r: &'static str)
    ensures
        r@ == instruction_name(*i),
{
    match i {
        Instruction::Push(..) => "Push",
        Instruction::Call(..) => "Call",
        Instruction::TailCall(..) => "TailCall",
        Instruction::CheckArity(..) => "CheckArity",
        Instruction::MakeClosure(..) => "MakeClosure",
        Instruction::MakeVariadicClosure(..) => "MakeVariadicClosure",
        Instruction::LoadGlobal(..) => "LoadGlobal",
        Instruction::StoreGlobal(..) => "StoreGlobal",
        Instruction::FfiCall(..) => "FfiCall",
        Instruction::JmpIfFalse(..) => "JmpIfFalse",
        Instruction::Jmp(..) => "Jmp",
        Instruction::LoadArg(..) => "LoadArg",
        Instruction::GetLocal(..) => "GetLocal",
        Instruction::PopN(..) => "PopN",
        Instruction::Slide(..) => "Slide",
        Instruction::CallClosure(..) => "CallClosure",
        Instruction::LoadCaptured(..) => "LoadCaptured",
        Instruction::MakeList(..) => "MakeList",
        Instruction::MakeHashMap(..) => "MakeHashMap",
        Instruction::MakeVector(..) => "MakeVector",
        Instruction::PackRestArgs(..) => "PackRestArgs",
        Instruction::SetLocal(..) => "SetLocal",
        Instruction::BeginLoop(..) => "BeginLoop",
        Instruction::Recur(..) => "Recur",
        Instruction::Add => "Add",
        Instruction::Sub => "Sub",
        Instruction::Mul => "Mul",
        Instruction::Div => "Div",
        Instruction::Leq => "Leq",
        Instruction::Ret => "Ret",
        Instruction::Print => "Print",
        Instruction::Halt => "Halt",
        Instruction::Mod => "Mod",
        Instruction::Neg => "Neg",
        Instruction::Lt => "Lt",
        Instruction::Gt => "Gt",
        Instruction::Gte => "Gte",
        Instruction::Eq => "Eq",
        Instruction::Neq => "Neq",
        Instruction::Cons => "Cons",
        Instruction::Car => "Car",
        Instruction::Cdr => "Cdr",
        Instruction::IsList => "IsList",
        Instruction::IsString => "IsString",
        Instruction::IsSymbol => "IsSymbol",
        Instruction::SymbolToString => "SymbolToString",
        Instruction::StringToSymbol => "StringToSymbol",
        Instruction::Append => "Append",
        Instruction::StringLength => "StringLength",
        Instruction::Substring => "Substring",
        Instruction::StringAppend => "StringAppend",
        Instruction::StringToList => "StringToList",
        Instruction::ListToString => "ListToString",
        Instruction::ReadFile => "ReadFile",
        Instruction::WriteFile => "WriteFile",
        Instruction::FileExists => "FileExists",
        Instruction::GetArgs => "GetArgs",
        Instruction::WriteBinaryFile => "WriteBinaryFile",
        Instruction::CharCode => "CharCode",
        Instruction::ListRef => "ListRef",
        Instruction::ListLength => "ListLength",
        Instruction::NumberToString => "NumberToString",
        Instruction::HashMapGet => "HashMapGet",
        Instruction::HashMapSet => "HashMapSet",
        Instruction::HashMapKeys => "HashMapKeys",
        Instruction::HashMapValues => "HashMapValues",
        Instruction::HashMapContainsKey => "HashMapContainsKey",
        Instruction::IsHashMap => "IsHashMap",
        Instruction::VectorGet => "VectorGet",
        Instruction::VectorSet => "VectorSet",
        Instruction::VectorPush => "VectorPush",
        Instruction::VectorPop => "VectorPop",
        Instruction::VectorLength => "VectorLength",
        Instruction::IsVector => "IsVector",
        Instruction::IsInteger => "IsInteger",
        Instruction::IsBoolean => "IsBoolean",
        Instruction::IsFunction => "IsFunction",
        Instruction::IsClosure => "IsClosure",
        Instruction::IsProcedure => "IsProcedure",
        Instruction::StringToNumber => "StringToNumber",
        Instruction::ListToVector => "ListToVector",
        Instruction::VectorToList => "VectorToList",
        Instruction::Apply => "Apply",
        Instruction::LoadFile => "LoadFile",
        Instruction::RequireFile => "RequireFile",
        Instruction::IsFloat => "IsFloat",
        Instruction::IsNumber => "IsNumber",
        Instruction::IntToFloat => "IntToFloat",
        Instruction::FloatToInt => "FloatToInt",
        Instruction::Sqrt => "Sqrt",
        Instruction::Sin => "Sin",
        Instruction::Cos => "Cos",
        Instruction::Floor => "Floor",
        Instruction::Ceil => "Ceil",
        Instruction::Abs => "Abs",
        Instruction::Pow => "Pow",
        Instruction::Eval => "Eval",
        Instruction::FunctionArity => "FunctionArity",
        Instruction::FunctionParams => "FunctionParams",
        Instruction::ClosureCaptured => "ClosureCaptured",
        Instruction::FunctionName => "FunctionName",
        Instruction::Tan => "Tan",
        Instruction::Atan => "Atan",
        Instruction::Atan2 => "Atan2",
        Instruction::Log => "Log",
        Instruction::Exp => "Exp",
        Instruction::Random => "Random",
        Instruction::RandomInt => "RandomInt",
        Instruction::SeedRandom => "SeedRandom",
        Instruction::StringSplit => "StringSplit",
        Instruction::StringJoin => "StringJoin",
        Instruction::StringTrim => "StringTrim",
        Instruction::StringReplace => "StringReplace",
        Instruction::CurrentTimestamp => "CurrentTimestamp",
        Instruction::FormatTimestamp => "FormatTimestamp",
        Instruction::TypeOf => "TypeOf",
        Instruction::GenSym => "GenSym",
        Instruction::PMap => "PMap",
        Instruction::PFilter => "PFilter",
        Instruction::PReduce => "PReduce",
        Instruction::HttpListen => "HttpListen",
        Instruction::HttpAccept => "HttpAccept",
        Instruction::HttpReadRequest => "HttpReadRequest",
        Instruction::HttpSendResponse => "HttpSendResponse",
        Instruction::HttpClose => "HttpClose",
        Instruction::HttpListenShared => "HttpListenShared",
        Instruction::HttpServeParallel => "HttpServeParallel",
        Instruction::StringStartsWith => "StringStartsWith",
        Instruction::StringEndsWith => "StringEndsWith",
        Instruction::StringContains => "StringContains",
        Instruction::StringUpcase => "StringUpcase",
        Instruction::StringDowncase => "StringDowncase",
        Instruction::Format => "Format",
    }
}
} // verus!
