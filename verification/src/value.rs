//! Dynamic values of the runtime, their mathematical model, and the closed
//! kind and error taxonomies.

use vstd::prelude::*;

verus! {

/// A dynamically typed slot value.
///
/// Numbers come in two flavours, mirroring the runtime's integer pushes and
/// its floating-point pushes: `Int` carries a signed integer, `Num` carries
/// the raw 64-bit pattern of a floating-point number.  The library never
/// interprets the pattern; the host encodes and decodes it at the boundary.
/// `Table` holds the identifier of a table owned by the runtime handle, and
/// `Fn` holds the token of a host-registered callable.
pub enum Value {
    Nil,
    Bool(bool),
    Int(i64),
    Num(u64),
    Str(String),
    Table(usize),
    Fn(u64),
}

/// The mathematical shape of a `Value`: integers widen to `int` and strings
/// become character sequences, so that contracts speak of abstract values.
#[verifier::ext_equal]
pub enum SVal {
    Nil,
    Bool(bool),
    Int(int),
    Num(u64),
    Str(Seq<char>),
    Table(int),
    Fn(u64),
}

impl View for Value {
    type V = SVal;

    open spec fn view(&self) -> SVal {
        match self {
            Value::Nil => SVal::Nil,
            Value::Bool(b) => SVal::Bool(*b),
            Value::Int(i) => SVal::Int(*i as int),
            Value::Num(n) => SVal::Num(*n),
            Value::Str(s) => SVal::Str(s@),
            Value::Table(t) => SVal::Table(*t as int),
            Value::Fn(f) => SVal::Fn(*f),
        }
    }
}

/// The closed set of slot kinds reported by the type query.
#[derive(Clone, Copy, PartialEq, Eq, Structural, Debug)]
pub enum LuaType {
    TNone,
    TNil,
    TBoolean,
    TLightUserData,
    TNumber,
    TString,
    TTable,
    TFunction,
    TUserData,
    TThread,
    TUnknown(i64),
}

/// The kind of a model value.  Both number flavours report as `TNumber`.
pub open spec fn kind_of(v: SVal) -> LuaType {
    match v {
        SVal::Nil => LuaType::TNil,
        SVal::Bool(_) => LuaType::TBoolean,
        SVal::Int(_) => LuaType::TNumber,
        SVal::Num(_) => LuaType::TNumber,
        SVal::Str(_) => LuaType::TString,
        SVal::Table(_) => LuaType::TTable,
        SVal::Fn(_) => LuaType::TFunction,
    }
}

impl Value {
    /// A fresh copy with the same model.
    pub fn duplicate(&self) -> (r: Value)
        ensures
            r@ == self@,
    {
        match self {
            Value::Nil => Value::Nil,
            Value::Bool(b) => Value::Bool(*b),
            Value::Int(i) => Value::Int(*i),
            Value::Num(n) => Value::Num(*n),
            Value::Str(s) => Value::Str(s.clone()),
            Value::Table(t) => Value::Table(*t),
            Value::Fn(f) => Value::Fn(*f),
        }
    }

    /// Model equality: raw equality of the payloads, character for
    /// character on strings and bit for bit on number patterns.
    pub fn same_as(&self, other: &Value) -> (r: bool)
        ensures
            r == (self@ == other@),
    {
        match self {
            Value::Nil => match other {
                Value::Nil => true,
                _ => false,
            },
            Value::Bool(a) => match other {
                Value::Bool(b) => *a == *b,
                _ => false,
            },
            Value::Int(a) => match other {
                Value::Int(b) => *a == *b,
                _ => false,
            },
            Value::Num(a) => match other {
                Value::Num(b) => *a == *b,
                _ => false,
            },
            Value::Str(a) => match other {
                Value::Str(b) => a.eq(b),
                _ => false,
            },
            Value::Table(a) => match other {
                Value::Table(b) => *a == *b,
                _ => false,
            },
            Value::Fn(a) => match other {
                Value::Fn(b) => *a == *b,
                _ => false,
            },
        }
    }

    /// The kind this value reports to the type query.
    pub fn kind(&self) -> (r: LuaType)
        ensures
            r == kind_of(self@),
    {
        match self {
            Value::Nil => LuaType::TNil,
            Value::Bool(_) => LuaType::TBoolean,
            Value::Int(_) => LuaType::TNumber,
            Value::Num(_) => LuaType::TNumber,
            Value::Str(_) => LuaType::TString,
            Value::Table(_) => LuaType::TTable,
            Value::Fn(_) => LuaType::TFunction,
        }
    }
}

/// The closed error taxonomy of the protected-call protocol.  Every variant
/// carries the message captured from the top of the stack at failure time.
#[derive(Debug)]
pub enum LuaErr {
    Yield(String),
    Runtime(String),
    Syntax(String),
    MemAlloc(String),
    ErrFunc(String),
    Unknown(String),
}

/// The mathematical shape of a `LuaErr`: the same taxonomy over character
/// sequences.
#[verifier::ext_equal]
pub enum SErr {
    Yield(Seq<char>),
    Runtime(Seq<char>),
    Syntax(Seq<char>),
    MemAlloc(Seq<char>),
    ErrFunc(Seq<char>),
    Unknown(Seq<char>),
}

impl View for LuaErr {
    type V = SErr;

    open spec fn view(&self) -> SErr {
        match self {
            LuaErr::Yield(m) => SErr::Yield(m@),
            LuaErr::Runtime(m) => SErr::Runtime(m@),
            LuaErr::Syntax(m) => SErr::Syntax(m@),
            LuaErr::MemAlloc(m) => SErr::MemAlloc(m@),
            LuaErr::ErrFunc(m) => SErr::ErrFunc(m@),
            LuaErr::Unknown(m) => SErr::Unknown(m@),
        }
    }
}

impl LuaErr {
    /// The message carried by the error.
    pub fn message(&self) -> (r: &String)
        ensures
            self@ == match self@ {
                SErr::Yield(_) => SErr::Yield(r@),
                SErr::Runtime(_) => SErr::Runtime(r@),
                SErr::Syntax(_) => SErr::Syntax(r@),
                SErr::MemAlloc(_) => SErr::MemAlloc(r@),
                SErr::ErrFunc(_) => SErr::ErrFunc(r@),
                SErr::Unknown(_) => SErr::Unknown(r@),
            },
    {
        match self {
            LuaErr::Yield(m) => m,
            LuaErr::Runtime(m) => m,
            LuaErr::Syntax(m) => m,
            LuaErr::MemAlloc(m) => m,
            LuaErr::ErrFunc(m) => m,
            LuaErr::Unknown(m) => m,
        }
    }
}

} // verus!
