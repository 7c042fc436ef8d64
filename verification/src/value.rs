use vstd::prelude::*;
use crate::instructions::{
    Instruction, InstrView, FfiType, instr_view, instrs_view, opcode_of_simple, simple_from_opcode,
    opcode_of_indexed, indexed_from_opcode, lemma_classify, lemma_simple_roundtrip, lemma_indexed_roundtrip,
    lemma_simple_view, lemma_indexed_view, lemma_instrs_view_len, lemma_instrs_view_index, lemma_instrs_view_ext,
    simple_opcode, index_opcode,
};
use crate::text::owned;

verus! {
broadcast use vstd::std_specs::vec::axiom_vec_decreases_to_view;

/// A list of values, first element first.
#[derive(Debug)]
pub struct List {
    pub items: Vec<Value>,
}

/// What a closure holds: its parameters, an optional rest parameter, its
/// code, and the values it captured by name.
#[derive(Debug)]
pub struct ClosureData {
    pub params: Vec<String>,
    pub rest_param: Option<String>,
    pub body: Vec<Instruction>,
    pub captured: Vec<(String, Value)>,
}

/// A value of the language. A float is held as its IEEE-754 bit pattern;
/// a hash map as its (key, value) entries.
#[derive(Debug)]
pub enum Value {
    Integer(i64),
    Float(u64),
    Boolean(bool),
    List(List),
    Symbol(String),
    String(String),
    Function(String),
    Closure(Box<ClosureData>),
    HashMap(Vec<(String, Value)>),
    Vector(Vec<Value>),
    Pointer(i64),
}

pub enum ValueView {
    Integer(i64),
    Float(u64),
    Boolean(bool),
    List(Seq<ValueView>),
    Symbol(Seq<char>),
    String(Seq<char>),
    Function(Seq<char>),
    Closure(Seq<Seq<char>>, Option<Seq<char>>, Seq<InstrView>, Seq<(Seq<char>, ValueView)>),
    HashMap(Seq<(Seq<char>, ValueView)>),
    Vector(Seq<ValueView>),
    Pointer(i64),
}

impl List {
    /// The elements of the list.
    pub closed spec fn elements(&self) -> Seq<Value> {
        self.items@
    }

    /// The elements of the list.
    pub fn items(&self) -> (r: &Vec<Value>)
        ensures
            r@ == self.elements(),
            values_view(r@) == list_view(*self),
    {
        &self.items
    }

    /// The empty list.
    pub fn nil() -> (r: Self)
        ensures
            list_view(r) == Seq::<ValueView>::empty(),
    {
        proof {
            assert(values_view(Seq::<Value>::empty()) == Seq::<ValueView>::empty());
        }
        List { items: Vec::new() }
    }

    /// The list with `head` in front of the elements of `tail`.
    pub fn cons(head: Value, tail: List) -> (r: Self)
        ensures
            list_view(r) == seq![value_view(head)] + list_view(tail),
    {
        let ghost hv = value_view(head);
        let mut items = tail.items;
        let ghost old_items = items@;
        items.insert(0, head);
        proof {
            assert(items@.subrange(1, items@.len() as int) =~= old_items);
        }
        List { items }
    }

    /// Whether the list is empty.
    pub fn is_nil(&self) -> (r: bool)
        ensures
            r == (list_view(*self).len() == 0),
    {
        proof {
            lemma_values_view_len(self.items@);
        }
        self.items.len() == 0
    }

    /// The first element, if any.
    pub fn car(&self) -> (r: Option<&Value>)
        ensures
            list_view(*self).len() == 0 ==> r.is_none(),
            list_view(*self).len() > 0 ==> r.is_some() && value_view(*r.unwrap()) == list_view(*self)[0],
    {
        proof {
            lemma_values_view_len(self.items@);
        }
        if self.items.len() == 0 {
            None
        } else {
            Some(&self.items[0])
        }
    }

    /// The list of all elements but the first, if there is a first.
    pub fn cdr(&self) -> (r: Option<List>)
        ensures
            list_view(*self).len() == 0 ==> r.is_none(),
            list_view(*self).len() > 0 ==> r.is_some() && list_view(r.unwrap()) == list_view(*self).subrange(
                1,
                list_view(*self).len() as int,
            ),
    {
        proof {
            lemma_values_view_len(self.items@);
        }
        if self.items.len() == 0 {
            None
        } else {
            let mut items: Vec<Value> = Vec::new();
            let mut k: usize = 1;
            while k < self.items.len()
                invariant
                    1 <= k <= self.items@.len(),
                    items@.len() == k - 1,
                    forall|j: int| 0 <= j < k - 1 ==> #[trigger] value_view(items@[j]) == value_view(self.items@[j + 1]),
                decreases self.items@.len() - k,
            {
                items.push(copy_value(&self.items[k]));
                k = k + 1;
            }
            proof {
                lemma_values_view_ext(items@);
                lemma_values_view_ext(self.items@);
                assert(values_view(items@) =~= values_view(self.items@).subrange(1, self.items@.len() as int));
            }
            Some(List { items })
        }
    }

    /// The number of elements.
    pub fn len(&self) -> (n: usize)
        ensures
            n == list_view(*self).len(),
    {
        proof {
            lemma_values_view_len(self.items@);
        }
        self.items.len()
    }

    /// Whether the list is empty.
    pub fn is_empty(&self) -> (r: bool)
        ensures
            r == (list_view(*self).len() == 0),
    {
        self.is_nil()
    }

    /// The list of the given elements, in order.
    pub fn from_vec(items: Vec<Value>) -> (r: Self)
        ensures
            list_view(r) == values_view(items@),
    {
        List { items }
    }

    /// The elements, copied into a vector.
    pub fn to_vec(&self) -> (r: Vec<Value>)
        ensures
            values_view(r@) == list_view(*self),
    {
        copy_values(&self.items)
    }
}

pub open spec fn names_view(s: Seq<String>) -> Seq<Seq<char>> {
    Seq::new(s.len(), |i: int| s[i]@)
}

pub open spec fn opt_name_view(o: Option<String>) -> Option<Seq<char>> {
    match o {
        Some(s) => Some(s@),
        None => None,
    }
}

pub open spec fn value_view(v: Value) -> ValueView
    decreases v,
{
    match v {
        Value::Integer(n) => ValueView::Integer(n),
        Value::Float(b) => ValueView::Float(b),
        Value::Boolean(b) => ValueView::Boolean(b),
        Value::List(l) => ValueView::List(list_view(l)),
        Value::Symbol(s) => ValueView::Symbol(s@),
        Value::String(s) => ValueView::String(s@),
        Value::Function(s) => ValueView::Function(s@),
        Value::Closure(c) => ValueView::Closure(
            names_view(c.params@),
            opt_name_view(c.rest_param),
            instrs_view(c.body@),
            pairs_view(c.captured@),
        ),
        Value::HashMap(m) => ValueView::HashMap(pairs_view(m@)),
        Value::Vector(items) => ValueView::Vector(values_view(items@)),
        Value::Pointer(p) => ValueView::Pointer(p),
    }
}

pub open spec fn list_view(l: List) -> Seq<ValueView>
    decreases l,
{
    values_view(l.items@)
}

pub open spec fn values_view(s: Seq<Value>) -> Seq<ValueView>
    decreases s,
{
    if s.len() == 0 {
        Seq::empty()
    } else {
        seq![value_view(s[0])] + values_view(s.subrange(1, s.len() as int))
    }
}

pub open spec fn pairs_view(s: Seq<(String, Value)>) -> Seq<(Seq<char>, ValueView)>
    decreases s,
{
    if s.len() == 0 {
        Seq::empty()
    } else {
        seq![(s[0].0@, value_view(s[0].1))] + pairs_view(s.subrange(1, s.len() as int))
    }
}


pub proof fn lemma_values_view_len(s: Seq<Value>)
    ensures
        values_view(s).len() == s.len(),
    decreases s.len(),
{
    if s.len() > 0 {
        lemma_values_view_len(s.subrange(1, s.len() as int));
    }
}

pub proof fn lemma_values_view_index(s: Seq<Value>, i: int)
    requires
        0 <= i < s.len(),
    ensures
        values_view(s)[i] == value_view(s[i]),
    decreases s.len(),
{
    lemma_values_view_len(s);
    if i > 0 {
        lemma_values_view_index(s.subrange(1, s.len() as int), i - 1);
        lemma_values_view_len(s.subrange(1, s.len() as int));
    }
}

/// The view of a sequence, element by element.
pub proof fn lemma_values_view_ext(s: Seq<Value>)
    ensures
        values_view(s) == Seq::new(s.len(), |i: int| value_view(s[i])),
{
    lemma_values_view_len(s);
    assert forall|i: int| 0 <= i < s.len() implies values_view(s)[i] == value_view(s[i]) by {
        lemma_values_view_index(s, i);
    }
    assert(values_view(s) =~= Seq::new(s.len(), |i: int| value_view(s[i])));
}

/// The view of a sequence with one more value.
pub proof fn lemma_values_view_push(s: Seq<Value>, v: Value)
    ensures
        values_view(s.push(v)) == values_view(s).push(value_view(v)),
{
    lemma_values_view_ext(s);
    lemma_values_view_ext(s.push(v));
    assert(values_view(s.push(v)) =~= values_view(s).push(value_view(v)));
}

pub proof fn lemma_pairs_view_len(s: Seq<(String, Value)>)
    ensures
        pairs_view(s).len() == s.len(),
    decreases s.len(),
{
    if s.len() > 0 {
        lemma_pairs_view_len(s.subrange(1, s.len() as int));
    }
}

pub proof fn lemma_pairs_view_index(s: Seq<(String, Value)>, i: int)
    requires
        0 <= i < s.len(),
    ensures
        pairs_view(s)[i] == (s[i].0@, value_view(s[i].1)),
    decreases s.len(),
{
    lemma_pairs_view_len(s);
    if i > 0 {
        lemma_pairs_view_index(s.subrange(1, s.len() as int), i - 1);
        lemma_pairs_view_len(s.subrange(1, s.len() as int));
    }
}

/// The view of a sequence, element by element.
pub proof fn lemma_pairs_view_ext(s: Seq<(String, Value)>)
    ensures
        pairs_view(s) == Seq::new(s.len(), |i: int| (s[i].0@, value_view(s[i].1))),
{
    lemma_pairs_view_len(s);
    assert forall|i: int| 0 <= i < s.len() implies pairs_view(s)[i] == (s[i].0@, value_view(s[i].1)) by {
        lemma_pairs_view_index(s, i);
    }
    assert(pairs_view(s) =~= Seq::new(s.len(), |i: int| (s[i].0@, value_view(s[i].1))));
}

// ---------------------------------------------------------------------------
// Copies

/// A copy of a string.
fn copy_string(s: &String) -> (r: String)
    ensures
        r@ == s@,
{
    owned(s.as_str())
}

/// A copy of a list of names.
pub(crate) fn copy_names(v: &Vec<String>) -> (r: Vec<String>)
    ensures
        names_view(r@) == names_view(v@),
{
    let mut r: Vec<String> = Vec::new();
    let mut k: usize = 0;
    while k < v.len()
        invariant
            k <= v@.len(),
            r@.len() == k,
            forall|j: int| 0 <= j < k ==> #[trigger] r@[j]@ == v@[j]@,
        decreases v@.len() - k,
    {
        r.push(copy_string(&v[k]));
        k = k + 1;
    }
    assert(names_view(r@) =~= names_view(v@));
    r
}

/// A copy of a list of FFI types.
fn copy_ffi_types(v: &Vec<FfiType>) -> (r: Vec<FfiType>)
    ensures
        r@ == v@,
{
    let mut r: Vec<FfiType> = Vec::new();
    let mut k: usize = 0;
    while k < v.len()
        invariant
            k <= v@.len(),
            r@ == v@.subrange(0, k as int),
        decreases v@.len() - k,
    {
        r.push(v[k]);
        k = k + 1;
    }
    r
}

/// A copy of a value, equal to it in every part.
pub fn copy_value(v: &Value) -> (r: Value)
    ensures
        value_view(r) == value_view(*v),
    decreases *v, 0int,
{
    match v {
        Value::Integer(n) => Value::Integer(*n),
        Value::Float(f) => Value::Float(*f),
        Value::Boolean(b) => Value::Boolean(*b),
        Value::List(l) => Value::List(List { items: copy_values(&l.items) }),
        Value::Symbol(s) => Value::Symbol(copy_string(s)),
        Value::String(s) => Value::String(copy_string(s)),
        Value::Function(s) => Value::Function(copy_string(s)),
        Value::Closure(c) => {
            let rest_param = match &c.rest_param {
                Some(r) => Some(copy_string(r)),
                None => None,
            };
            let data = ClosureData {
                params: copy_names(&c.params),
                rest_param,
                body: copy_instructions(&c.body),
                captured: copy_pairs(&c.captured),
            };
            Value::Closure(Box::new(data))
        },
        Value::HashMap(m) => Value::HashMap(copy_pairs(m)),
        Value::Vector(items) => Value::Vector(copy_values(items)),
        Value::Pointer(p) => Value::Pointer(*p),
    }
}

/// A copy of a list of values.
pub fn copy_values(v: &Vec<Value>) -> (r: Vec<Value>)
    ensures
        values_view(r@) == values_view(v@),
    decreases *v, 1int,
{
    let mut r: Vec<Value> = Vec::new();
    let mut k: usize = 0;
    while k < v.len()
        invariant
            k <= v@.len(),
            r@.len() == k,
            forall|j: int| 0 <= j < k ==> #[trigger] value_view(r@[j]) == value_view(v@[j]),
        decreases v@.len() - k,
    {
        r.push(copy_value(&v[k]));
        k = k + 1;
    }
    proof {
        lemma_values_view_ext(r@);
        lemma_values_view_ext(v@);
        assert(values_view(r@) =~= values_view(v@));
    }
    r
}

/// A copy of a list of (name, value) entries.
pub(crate) fn copy_pairs(v: &Vec<(String, Value)>) -> (r: Vec<(String, Value)>)
    ensures
        pairs_view(r@) == pairs_view(v@),
    decreases *v, 1int,
{
    let mut r: Vec<(String, Value)> = Vec::new();
    let mut k: usize = 0;
    while k < v.len()
        invariant
            k <= v@.len(),
            r@.len() == k,
            forall|j: int| 0 <= j < k ==> #[trigger] r@[j].0@ == v@[j].0@ && value_view(r@[j].1) == value_view(v@[j].1),
        decreases v@.len() - k,
    {
        let (name, value) = &v[k];
        r.push((copy_string(name), copy_value(value)));
        k = k + 1;
    }
    proof {
        lemma_pairs_view_ext(r@);
        lemma_pairs_view_ext(v@);
        assert(pairs_view(r@) =~= pairs_view(v@));
    }
    r
}

/// A copy of an instruction, equal to it in every part.
pub fn copy_instruction(i: &Instruction) -> (r: Instruction)
    ensures
        instr_view(r) == instr_view(*i),
    decreases *i, 0int,
{
    match i {
        Instruction::Push(v) => Instruction::Push(copy_value(v)),
        Instruction::Call(name, n) => Instruction::Call(copy_string(name), *n),
        Instruction::TailCall(name, n) => Instruction::TailCall(copy_string(name), *n),
        Instruction::CheckArity(a, b) => Instruction::CheckArity(*a, *b),
        Instruction::MakeClosure(params, body, n) => Instruction::MakeClosure(
            copy_names(params),
            copy_instructions(body),
            *n,
        ),
        Instruction::MakeVariadicClosure(params, rest, body, n) => Instruction::MakeVariadicClosure(
            copy_names(params),
            copy_string(rest),
            copy_instructions(body),
            *n,
        ),
        Instruction::LoadGlobal(name) => Instruction::LoadGlobal(copy_string(name)),
        Instruction::StoreGlobal(name) => Instruction::StoreGlobal(copy_string(name)),
        Instruction::FfiCall(args, ret) => Instruction::FfiCall(copy_ffi_types(args), *ret),
        _ => {
            proof {
                lemma_classify(*i);
            }
            match opcode_of_simple(i) {
                Some(op) => {
                    proof {
                        lemma_simple_view(*i);
                        lemma_simple_roundtrip(op);
                    }
                    simple_from_opcode(op).unwrap()
                },
                None => {
                    let (op, a) = opcode_of_indexed(i).unwrap();
                    proof {
                        lemma_indexed_view(*i);
                        lemma_indexed_roundtrip(op, a);
                    }
                    indexed_from_opcode(op, a).unwrap()
                },
            }
        },
    }
}

/// A copy of a list of instructions.
pub fn copy_instructions(v: &Vec<Instruction>) -> (r: Vec<Instruction>)
    ensures
        instrs_view(r@) == instrs_view(v@),
    decreases *v, 1int,
{
    let mut r: Vec<Instruction> = Vec::new();
    let mut k: usize = 0;
    while k < v.len()
        invariant
            k <= v@.len(),
            r@.len() == k,
            forall|j: int| 0 <= j < k ==> #[trigger] instr_view(r@[j]) == instr_view(v@[j]),
        decreases v@.len() - k,
    {
        r.push(copy_instruction(&v[k]));
        k = k + 1;
    }
    proof {
        lemma_instrs_view_ext(r@);
        lemma_instrs_view_ext(v@);
        assert(instrs_view(r@) =~= instrs_view(v@));
    }
    r
}

impl Value {
    pub fn is_int(&self) -> (r: bool)
        ensures
            r == value_view(*self) is Integer,
    {
        match self {
            Value::Integer(_) => true,
            _ => false,
        }
    }

    pub fn is_float(&self) -> (r: bool)
        ensures
            r == value_view(*self) is Float,
    {
        match self {
            Value::Float(_) => true,
            _ => false,
        }
    }

    pub fn is_number(&self) -> (r: bool)
        ensures
            r == (value_view(*self) is Integer || value_view(*self) is Float),
    {
        match self {
            Value::Integer(_) | Value::Float(_) => true,
            _ => false,
        }
    }

    pub fn is_bool(&self) -> (r: bool)
        ensures
            r == value_view(*self) is Boolean,
    {
        match self {
            Value::Boolean(_) => true,
            _ => false,
        }
    }

    pub fn is_list(&self) -> (r: bool)
        ensures
            r == value_view(*self) is List,
    {
        match self {
            Value::List(_) => true,
            _ => false,
        }
    }

    pub fn is_string(&self) -> (r: bool)
        ensures
            r == value_view(*self) is String,
    {
        match self {
            Value::String(_) => true,
            _ => false,
        }
    }

    pub fn is_symbol(&self) -> (r: bool)
        ensures
            r == value_view(*self) is Symbol,
    {
        match self {
            Value::Symbol(_) => true,
            _ => false,
        }
    }

    pub fn is_closure(&self) -> (r: bool)
        ensures
            r == value_view(*self) is Closure,
    {
        match self {
            Value::Closure(_) => true,
            _ => false,
        }
    }

    pub fn is_function(&self) -> (r: bool)
        ensures
            r == value_view(*self) is Function,
    {
        match self {
            Value::Function(_) => true,
            _ => false,
        }
    }

    pub fn is_hashmap(&self) -> (r: bool)
        ensures
            r == value_view(*self) is HashMap,
    {
        match self {
            Value::HashMap(_) => true,
            _ => false,
        }
    }

    pub fn is_vector(&self) -> (r: bool)
        ensures
            r == value_view(*self) is Vector,
    {
        match self {
            Value::Vector(_) => true,
            _ => false,
        }
    }

    pub fn is_pointer(&self) -> (r: bool)
        ensures
            r == value_view(*self) is Pointer,
    {
        match self {
            Value::Pointer(_) => true,
            _ => false,
        }
    }

    /// The integer, if this is one.
    pub fn as_int(&self) -> (r: Option<i64>)
        ensures
            r == (match value_view(*self) {
                ValueView::Integer(n) => Some(n),
                _ => None,
            }),
    {
        match self {
            Value::Integer(n) => Some(*n),
            _ => None,
        }
    }

    /// The bit pattern of the float, if this is one.
    pub fn as_float(&self) -> (r: Option<u64>)
        ensures
            r == (match value_view(*self) {
                ValueView::Float(f) => Some(f),
                _ => None,
            }),
    {
        match self {
            Value::Float(f) => Some(*f),
            _ => None,
        }
    }

    /// The boolean, if this is one.
    pub fn as_bool(&self) -> (r: Option<bool>)
        ensures
            r == (match value_view(*self) {
                ValueView::Boolean(b) => Some(b),
                _ => None,
            }),
    {
        match self {
            Value::Boolean(b) => Some(*b),
            _ => None,
        }
    }

    /// The text of a string value.
    pub fn as_string(&self) -> (r: Option<&str>)
        ensures
            value_view(*self) is String ==> r.is_some() && r.unwrap()@ == value_view(*self)->String_0,
            !(value_view(*self) is String) ==> r.is_none(),
    {
        match self {
            Value::String(s) => Some(s.as_str()),
            _ => None,
        }
    }

    /// The name of a symbol.
    pub fn as_symbol(&self) -> (r: Option<&str>)
        ensures
            value_view(*self) is Symbol ==> r.is_some() && r.unwrap()@ == value_view(*self)->Symbol_0,
            !(value_view(*self) is Symbol) ==> r.is_none(),
    {
        match self {
            Value::Symbol(s) => Some(s.as_str()),
            _ => None,
        }
    }

    /// The list, if this is one.
    pub fn as_list(&self) -> (r: Option<&List>)
        ensures
            value_view(*self) is List ==> r.is_some() && list_view(*r.unwrap()) == value_view(*self)->List_0,
            !(value_view(*self) is List) ==> r.is_none(),
    {
        match self {
            Value::List(l) => Some(l),
            _ => None,
        }
    }

    /// The name of a function value.
    pub fn as_function(&self) -> (r: Option<&str>)
        ensures
            value_view(*self) is Function ==> r.is_some() && r.unwrap()@ == value_view(*self)->Function_0,
            !(value_view(*self) is Function) ==> r.is_none(),
    {
        match self {
            Value::Function(s) => Some(s.as_str()),
            _ => None,
        }
    }

    /// The entries of a hash map.
    pub fn as_hashmap(&self) -> (r: Option<&Vec<(String, Value)>>)
        ensures
            value_view(*self) is HashMap ==> r.is_some() && pairs_view(r.unwrap()@) == value_view(*self)->HashMap_0,
            !(value_view(*self) is HashMap) ==> r.is_none(),
    {
        match self {
            Value::HashMap(m) => Some(m),
            _ => None,
        }
    }

    /// The items of a vector.
    pub fn as_vector(&self) -> (r: Option<&Vec<Value>>)
        ensures
            value_view(*self) is Vector ==> r.is_some() && values_view(r.unwrap()@) == value_view(*self)->Vector_0,
            !(value_view(*self) is Vector) ==> r.is_none(),
    {
        match self {
            Value::Vector(v) => Some(v),
            _ => None,
        }
    }

    /// The address of a pointer.
    pub fn as_pointer(&self) -> (r: Option<i64>)
        ensures
            r == (match value_view(*self) {
                ValueView::Pointer(p) => Some(p),
                _ => None,
            }),
    {
        match self {
            Value::Pointer(p) => Some(*p),
            _ => None,
        }
    }

    /// The symbol with the given name.
    pub fn symbol(s: &str) -> (r: Value)
        ensures
            value_view(r) == ValueView::Symbol(s@),
    {
        Value::Symbol(owned(s))
    }

    /// The string value with the given text.
    pub fn string(s: &str) -> (r: Value)
        ensures
            value_view(r) == ValueView::String(s@),
    {
        Value::String(owned(s))
    }

    /// The function value with the given name.
    pub fn function(name: &str) -> (r: Value)
        ensures
            value_view(r) == ValueView::Function(name@),
    {
        Value::Function(owned(name))
    }

    /// The empty list.
    pub fn empty_list() -> (r: Value)
        ensures
            value_view(r) == ValueView::List(Seq::empty()),
    {
        Value::List(List::nil())
    }

    /// The list of the given items.
    pub fn list_from_vec(items: Vec<Value>) -> (r: Value)
        ensures
            value_view(r) == ValueView::List(values_view(items@)),
    {
        Value::List(List::from_vec(items))
    }

    /// The null pointer.
    pub fn null_pointer() -> (r: Value)
        ensures
            value_view(r) == ValueView::Pointer(0),
    {
        Value::Pointer(0)
    }

    /// A pointer to the given address.
    pub fn pointer(addr: i64) -> (r: Value)
        ensures
            value_view(r) == ValueView::Pointer(addr),
    {
        Value::Pointer(addr)
    }
}
} // verus!
