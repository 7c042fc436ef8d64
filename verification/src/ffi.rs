use vstd::prelude::*;
use crate::errors::RuntimeError;
use crate::instructions::FfiType;
use crate::text::{chars_of, chars_eq_str, owned, push_str};
use crate::value::{Value, ValueView, value_view};

verus! {
/// The size in bytes of a value of an FFI type.
pub open spec fn ffi_size(t: FfiType) -> nat {
    match t {
        FfiType::Void => 0,
        FfiType::Int8 | FfiType::UInt8 => 1,
        FfiType::Int16 | FfiType::UInt16 => 2,
        FfiType::Int32 | FfiType::UInt32 | FfiType::Float => 4,
        FfiType::Int64 | FfiType::UInt64 | FfiType::Double | FfiType::Pointer | FfiType::String => 8,
    }
}

/// The size in bytes of a value of an FFI type.
pub fn ffi_type_size(ffi_type: &FfiType) -> (r: usize)
    ensures
        r == ffi_size(*ffi_type),
{
    match ffi_type {
        FfiType::Void => 0,
        FfiType::Int8 | FfiType::UInt8 => 1,
        FfiType::Int16 | FfiType::UInt16 => 2,
        FfiType::Int32 | FfiType::UInt32 | FfiType::Float => 4,
        FfiType::Int64 | FfiType::UInt64 | FfiType::Double | FfiType::Pointer | FfiType::String => 8,
    }
}

/// The FFI type a type name stands for, with or without a leading colon.
pub open spec fn ffi_type_named(s: Seq<char>) -> Option<FfiType> {
    if s == ":void"@ || s == "void"@ {
        Some(FfiType::Void)
    } else if s == ":int8"@ || s == "int8"@ || s == ":char"@ || s == "char"@ {
        Some(FfiType::Int8)
    } else if s == ":int16"@ || s == "int16"@ || s == ":short"@ || s == "short"@ {
        Some(FfiType::Int16)
    } else if s == ":int32"@ || s == "int32"@ || s == ":int"@ || s == "int"@ {
        Some(FfiType::Int32)
    } else if s == ":int64"@ || s == "int64"@ || s == ":long"@ || s == "long"@ {
        Some(FfiType::Int64)
    } else if s == ":uint8"@ || s == "uint8"@ || s == ":uchar"@ || s == "uchar"@ {
        Some(FfiType::UInt8)
    } else if s == ":uint16"@ || s == "uint16"@ || s == ":ushort"@ || s == "ushort"@ {
        Some(FfiType::UInt16)
    } else if s == ":uint32"@ || s == "uint32"@ || s == ":uint"@ || s == "uint"@ {
        Some(FfiType::UInt32)
    } else if s == ":uint64"@ || s == "uint64"@ || s == ":ulong"@ || s == "ulong"@ {
        Some(FfiType::UInt64)
    } else if s == ":float"@ || s == "float"@ {
        Some(FfiType::Float)
    } else if s == ":double"@ || s == "double"@ {
        Some(FfiType::Double)
    } else if s == ":pointer"@ || s == "pointer"@ || s == ":ptr"@ || s == "ptr"@ || s == ":void*"@ || s
        == "void*"@ {
        Some(FfiType::Pointer)
    } else if s == ":string"@ || s == "string"@ || s == ":char*"@ || s == "char*"@ {
        Some(FfiType::String)
    } else {
        None
    }
}

/// Adding a colon to a name or taking it away changes nothing: `s`, with a
/// colon before it or not, names the same FFI type, or none.
pub proof fn law_colon_is_optional(s: Seq<char>)
    requires
        s.len() == 0 || s[0] != ':',
    ensures
        ffi_type_named(seq![':'] + s) == ffi_type_named(s),
{
    reveal_strlit("void");
    reveal_strlit(":void");
    reveal_strlit("int8");
    reveal_strlit(":int8");
    reveal_strlit("char");
    reveal_strlit(":char");
    reveal_strlit("int16");
    reveal_strlit(":int16");
    reveal_strlit("short");
    reveal_strlit(":short");
    reveal_strlit("int32");
    reveal_strlit(":int32");
    reveal_strlit("int");
    reveal_strlit(":int");
    reveal_strlit("int64");
    reveal_strlit(":int64");
    reveal_strlit("long");
    reveal_strlit(":long");
    reveal_strlit("uint8");
    reveal_strlit(":uint8");
    reveal_strlit("uchar");
    reveal_strlit(":uchar");
    reveal_strlit("uint16");
    reveal_strlit(":uint16");
    reveal_strlit("ushort");
    reveal_strlit(":ushort");
    reveal_strlit("uint32");
    reveal_strlit(":uint32");
    reveal_strlit("uint");
    reveal_strlit(":uint");
    reveal_strlit("uint64");
    reveal_strlit(":uint64");
    reveal_strlit("ulong");
    reveal_strlit(":ulong");
    reveal_strlit("float");
    reveal_strlit(":float");
    reveal_strlit("double");
    reveal_strlit(":double");
    reveal_strlit("pointer");
    reveal_strlit(":pointer");
    reveal_strlit("ptr");
    reveal_strlit(":ptr");
    reveal_strlit("void*");
    reveal_strlit(":void*");
    reveal_strlit("string");
    reveal_strlit(":string");
    reveal_strlit("char*");
    reveal_strlit(":char*");
    lemma_colon_name(s, "void"@, ":void"@);
    lemma_colon_name(s, "int8"@, ":int8"@);
    lemma_colon_name(s, "char"@, ":char"@);
    lemma_colon_name(s, "int16"@, ":int16"@);
    lemma_colon_name(s, "short"@, ":short"@);
    lemma_colon_name(s, "int32"@, ":int32"@);
    lemma_colon_name(s, "int"@, ":int"@);
    lemma_colon_name(s, "int64"@, ":int64"@);
    lemma_colon_name(s, "long"@, ":long"@);
    lemma_colon_name(s, "uint8"@, ":uint8"@);
    lemma_colon_name(s, "uchar"@, ":uchar"@);
    lemma_colon_name(s, "uint16"@, ":uint16"@);
    lemma_colon_name(s, "ushort"@, ":ushort"@);
    lemma_colon_name(s, "uint32"@, ":uint32"@);
    lemma_colon_name(s, "uint"@, ":uint"@);
    lemma_colon_name(s, "uint64"@, ":uint64"@);
    lemma_colon_name(s, "ulong"@, ":ulong"@);
    lemma_colon_name(s, "float"@, ":float"@);
    lemma_colon_name(s, "double"@, ":double"@);
    lemma_colon_name(s, "pointer"@, ":pointer"@);
    lemma_colon_name(s, "ptr"@, ":ptr"@);
    lemma_colon_name(s, "void*"@, ":void*"@);
    lemma_colon_name(s, "string"@, ":string"@);
    lemma_colon_name(s, "char*"@, ":char*"@);
}

proof fn lemma_colon_name(s: Seq<char>, bare: Seq<char>, colon: Seq<char>)
    requires
        s.len() == 0 || s[0] != ':',
        bare.len() > 0,
        bare[0] != ':',
        colon =~= seq![':'] + bare,
    ensures
        (seq![':'] + s == colon) == (s == bare),
        seq![':'] + s != bare,
        s != colon,
{
    if seq![':'] + s == colon {
        assert(s =~= colon.subrange(1, colon.len() as int));
        assert(bare =~= colon.subrange(1, colon.len() as int));
    }
    if s == bare {
        assert(seq![':'] + s =~= colon);
    }
    assert((seq![':'] + s)[0] == ':');
    if s == colon {
        assert(s[0] == ':');
    }
}

/// Whether the characters `v` spell one of the names.
fn is_one_of(v: &Vec<char>, names: &[&str]) -> (r: bool)
    ensures
        r == exists|k: int| 0 <= k < names@.len() && v@ == #[trigger] names@[k]@,
{
    let mut k: usize = 0;
    while k < names.len()
        invariant
            k <= names@.len(),
            forall|j: int| 0 <= j < k ==> v@ != #[trigger] names@[j]@,
        decreases names@.len() - k,
    {
        if chars_eq_str(v, names[k]) {
            return true;
        }
        k = k + 1;
    }
    false
}

/// Parses an FFI type name (`int`, `:double`, `char*`, ...).
pub fn parse_ffi_type(s: &str) -> (r: Result<FfiType, String>)
    ensures
        match ffi_type_named(s@) {
            Some(t) => r == Ok::<FfiType, String>(t),
            None => r is Err && r->Err_0@ == "Unknown FFI type: "@ + s@,
        },
{
    let v = chars_of(s);
    if is_one_of(&v, &[":void", "void"]) {
        Ok(FfiType::Void)
    } else if is_one_of(&v, &[":int8", "int8", ":char", "char"]) {
        Ok(FfiType::Int8)
    } else if is_one_of(&v, &[":int16", "int16", ":short", "short"]) {
        Ok(FfiType::Int16)
    } else if is_one_of(&v, &[":int32", "int32", ":int", "int"]) {
        Ok(FfiType::Int32)
    } else if is_one_of(&v, &[":int64", "int64", ":long", "long"]) {
        Ok(FfiType::Int64)
    } else if is_one_of(&v, &[":uint8", "uint8", ":uchar", "uchar"]) {
        Ok(FfiType::UInt8)
    } else if is_one_of(&v, &[":uint16", "uint16", ":ushort", "ushort"]) {
        Ok(FfiType::UInt16)
    } else if is_one_of(&v, &[":uint32", "uint32", ":uint", "uint"]) {
        Ok(FfiType::UInt32)
    } else if is_one_of(&v, &[":uint64", "uint64", ":ulong", "ulong"]) {
        Ok(FfiType::UInt64)
    } else if is_one_of(&v, &[":float", "float"]) {
        Ok(FfiType::Float)
    } else if is_one_of(&v, &[":double", "double"]) {
        Ok(FfiType::Double)
    } else if is_one_of(&v, &[":pointer", "pointer", ":ptr", "ptr", ":void*", "void*"]) {
        Ok(FfiType::Pointer)
    } else if is_one_of(&v, &[":string", "string", ":char*", "char*"]) {
        Ok(FfiType::String)
    } else {
        let mut msg = owned("Unknown FFI type: ");
        push_str(&mut msg, s);
        Err(msg)
    }
}

/// The name of a value's type, as error messages give it.
pub open spec fn type_name_of(v: ValueView) -> Seq<char> {
    match v {
        ValueView::Integer(_) => "integer"@,
        ValueView::Float(_) => "float"@,
        ValueView::Boolean(_) => "boolean"@,
        ValueView::List(_) => "list"@,
        ValueView::Symbol(_) => "symbol"@,
        ValueView::String(_) => "string"@,
        ValueView::Function(_) => "function"@,
        ValueView::Closure(..) => "closure"@,
        ValueView::HashMap(_) => "hashmap"@,
        ValueView::Vector(_) => "vector"@,
        ValueView::Pointer(_) => "pointer"@,
    }
}

/// The name of a value's type, as error messages give it.
pub fn value_type_name(value: &Value) -> (r: &'static str)
    ensures
        r@ == type_name_of(value_view(*value)),
{
    match value {
        Value::Integer(_) => "integer",
        Value::Float(_) => "float",
        Value::Boolean(_) => "boolean",
        Value::List(_) => "list",
        Value::Symbol(_) => "symbol",
        Value::String(_) => "string",
        Value::Function(_) => "function",
        Value::Closure(_) => "closure",
        Value::HashMap(_) => "hashmap",
        Value::Vector(_) => "vector",
        Value::Pointer(_) => "pointer",
    }
}

/// The error of a value that cannot be passed as `what`.
fn conversion_error(value: &Value, what: &str) -> (r: RuntimeError)
    ensures
        r.message@ == "FFI: Cannot convert "@ + type_name_of(value_view(*value)) + " to "@ + what@,
        r.call_stack@.len() == 0,
        r.location.is_none(),
{
    let mut msg = owned("FFI: Cannot convert ");
    push_str(&mut msg, value_type_name(value));
    push_str(&mut msg, " to ");
    push_str(&mut msg, what);
    RuntimeError::new(msg)
}

/// The address a value passes as a pointer: a pointer's own, or an integer
/// taken as an address.
pub fn value_to_pointer(value: &Value) -> (r: Result<i64, RuntimeError>)
    ensures
        value_view(*value) is Pointer ==> r is Ok && r->Ok_0 == value_view(*value)->Pointer_0,
        value_view(*value) is Integer ==> r is Ok && r->Ok_0 == value_view(*value)->Integer_0,
        !(value_view(*value) is Pointer || value_view(*value) is Integer) ==> r is Err
            && r->Err_0.message@ == "FFI: Cannot convert "@ + type_name_of(value_view(*value)) + " to pointer"@
            && r->Err_0.call_stack@.len() == 0 && r->Err_0.location.is_none(),
{
    match value {
        Value::Pointer(p) => {
            assert(value_view(*value) == ValueView::Pointer(*p));
            Ok(*p)
        },
        Value::Integer(n) => Ok(*n),
        _ => {
            proof {
                reveal_strlit(" to ");
                reveal_strlit("pointer");
                reveal_strlit(" to pointer");
                assert(" to "@ + "pointer"@ =~= " to pointer"@);
            }
            let e = conversion_error(value, "pointer");
            assert(e.message@ =~= "FFI: Cannot convert "@ + type_name_of(value_view(*value)) + " to pointer"@);
            Err(e)
        },
    }
}

/// The text a value passes as a C string: a string value's characters.
pub fn value_to_string(value: &Value) -> (r: Result<String, RuntimeError>)
    ensures
        value_view(*value) is String ==> r is Ok && r->Ok_0@ == value_view(*value)->String_0,
        !(value_view(*value) is String) ==> r is Err
            && r->Err_0.message@ == "FFI: Cannot convert "@ + type_name_of(value_view(*value)) + " to string"@
            && r->Err_0.call_stack@.len() == 0 && r->Err_0.location.is_none(),
{
    match value {
        Value::String(s) => {
            assert(value_view(*value) == ValueView::String(s@));
            let mut t = String::new();
            push_str(&mut t, s.as_str());
            Ok(t)
        },
        _ => {
            proof {
                reveal_strlit(" to ");
                reveal_strlit("string");
                reveal_strlit(" to string");
                assert(" to "@ + "string"@ =~= " to string"@);
            }
            let e = conversion_error(value, "string");
            assert(e.message@ =~= "FFI: Cannot convert "@ + type_name_of(value_view(*value)) + " to string"@);
            Err(e)
        },
    }
}
} // verus!
