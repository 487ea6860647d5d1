//! The classified value attached to each env entry, and its rendering as
//! source text.

use vstd::prelude::*;
use crate::numfmt::{dec_rep, int_rep, u128_to_string, i128_to_string};

verus! {

/// Implement this capability to attach a type outside the built-in set to an
/// entry.  Each method returns a piece of source text: the type name, the
/// bare literal, the fully-typed literal expression, and the accessor
/// expression used inside a lazily-initialized block.
pub trait CustomMap {
    fn rust_type(&self) -> String;

    fn raw_value(&self) -> String;

    fn value(&self) -> String;

    fn transform(&self) -> String;
}

/// A snapshot of the four pieces of text a [`CustomMap`] provides.
pub struct CustomValue {
    pub rust_type: String,
    pub raw_value: String,
    pub value: String,
    pub transform: String,
}

/// The mathematical content of a [`CustomValue`].
pub ghost struct CustomModel {
    pub rust_type: Seq<char>,
    pub raw_value: Seq<char>,
    pub value: Seq<char>,
    pub transform: Seq<char>,
}

impl View for CustomValue {
    type V = CustomModel;

    open spec fn view(&self) -> CustomModel {
        CustomModel {
            rust_type: self.rust_type@,
            raw_value: self.raw_value@,
            value: self.value@,
            transform: self.transform@,
        }
    }
}

impl CustomValue {
    /// Takes a snapshot of a capability object.
    pub fn from_map<C: CustomMap>(map: &C) -> CustomValue {
        CustomValue {
            rust_type: map.rust_type(),
            raw_value: map.raw_value(),
            value: map.value(),
            transform: map.transform(),
        }
    }
}

/// The different values an env entry can hold.  Classification only produces
/// the 32-bit integer, 32-bit float and string variants; the wider variants
/// exist for transformers that re-tag a value downstream.  The float variants
/// carry the literal text of the value, passed through unchanged.
pub enum EnvType {
    I32(i32),
    I64(i64),
    I128(i128),
    U32(u32),
    U128(u128),
    F32(String),
    F64(String),
    USize(usize),
    StaticStr(String),
    Custom(CustomValue),
}

/// The mathematical content of an [`EnvType`].
pub ghost enum ValueModel {
    I32(int),
    I64(int),
    I128(int),
    U32(int),
    U128(int),
    F32(Seq<char>),
    F64(Seq<char>),
    USize(int),
    Str(Seq<char>),
    Custom(CustomModel),
}

impl View for EnvType {
    type V = ValueModel;

    open spec fn view(&self) -> ValueModel {
        match self {
            EnvType::I32(v) => ValueModel::I32(*v as int),
            EnvType::I64(v) => ValueModel::I64(*v as int),
            EnvType::I128(v) => ValueModel::I128(*v as int),
            EnvType::U32(v) => ValueModel::U32(*v as int),
            EnvType::U128(v) => ValueModel::U128(*v as int),
            EnvType::F32(s) => ValueModel::F32(s@),
            EnvType::F64(s) => ValueModel::F64(s@),
            EnvType::USize(v) => ValueModel::USize(*v as int),
            EnvType::StaticStr(s) => ValueModel::Str(s@),
            EnvType::Custom(c) => ValueModel::Custom(c@),
        }
    }
}

/// `s` with every double-quote character removed.
pub open spec fn strip_quotes(s: Seq<char>) -> Seq<char>
    decreases s.len(),
{
    if s.len() == 0 {
        s
    } else if s.last() == '"' {
        strip_quotes(s.drop_last())
    } else {
        strip_quotes(s.drop_last()).push(s.last())
    }
}

/// The name of the Rust type a value renders as.
pub open spec fn rust_type_spec(m: ValueModel) -> Seq<char> {
    match m {
        ValueModel::I32(_) => "i32"@,
        ValueModel::I64(_) => "i64"@,
        ValueModel::I128(_) => "i128"@,
        ValueModel::U32(_) => "u32"@,
        ValueModel::U128(_) => "u128"@,
        ValueModel::F32(_) => "f32"@,
        ValueModel::F64(_) => "f64"@,
        ValueModel::USize(_) => "usize"@,
        ValueModel::Str(_) => "&'static str"@,
        ValueModel::Custom(c) => strip_quotes(c.rust_type),
    }
}

/// The bare literal a value renders as: decimal digits for the integer
/// variants, the carried text for the float variants, the text in double
/// quotes for strings, and the capability's own literal otherwise.
pub open spec fn raw_value_spec(m: ValueModel) -> Seq<char> {
    match m {
        ValueModel::I32(v) => int_rep(v),
        ValueModel::I64(v) => int_rep(v),
        ValueModel::I128(v) => int_rep(v),
        ValueModel::U32(v) => dec_rep(v as nat),
        ValueModel::U128(v) => dec_rep(v as nat),
        ValueModel::F32(t) => t,
        ValueModel::F64(t) => t,
        ValueModel::USize(v) => dec_rep(v as nat),
        ValueModel::Str(t) => seq!['"'] + t + seq!['"'],
        ValueModel::Custom(c) => c.raw_value,
    }
}

/// The fully-typed literal expression: strings stay bare, a capability
/// supplies its own expression, and every other variant gets its type name
/// appended so the literal carries its type.
pub open spec fn typed_value_spec(m: ValueModel) -> Seq<char> {
    match m {
        ValueModel::Str(_) => raw_value_spec(m),
        ValueModel::Custom(c) => c.value,
        _ => raw_value_spec(m) + rust_type_spec(m),
    }
}

fn remove_quotes(s: &str) -> (r: String)
    ensures
        r@ == strip_quotes(s@),
{
    let n = s.unicode_len();
    let mut out: Vec<char> = Vec::new();
    let mut i: usize = 0;
    while i < n
        invariant
            n == s@.len(),
            i <= n,
            out@ == strip_quotes(s@.take(i as int)),
        decreases n - i,
    {
        let c = s.get_char(i);
        assert(s@.take(i + 1 as int).drop_last() =~= s@.take(i as int));
        if c != '"' {
            out.push(c);
        }
        i = i + 1;
    }
    assert(s@.take(n as int) =~= s@);
    crate::text::chars_to_string(&out)
}

impl EnvType {
    /// The name of the Rust type this value renders as, with any
    /// double-quote characters removed.
    pub fn rust_type(&self) -> (r: String)
        ensures
            r@ == rust_type_spec(self@),
    {
        match self {
            EnvType::I32(_) => String::from_str("i32"),
            EnvType::I64(_) => String::from_str("i64"),
            EnvType::I128(_) => String::from_str("i128"),
            EnvType::U32(_) => String::from_str("u32"),
            EnvType::U128(_) => String::from_str("u128"),
            EnvType::F32(_) => String::from_str("f32"),
            EnvType::F64(_) => String::from_str("f64"),
            EnvType::USize(_) => String::from_str("usize"),
            EnvType::StaticStr(_) => String::from_str("&'static str"),
            EnvType::Custom(c) => remove_quotes(c.rust_type.as_str()),
        }
    }

    /// The bare literal this value renders as.
    pub fn raw_value(&self) -> (r: String)
        ensures
            r@ == raw_value_spec(self@),
    {
        match self {
            EnvType::I32(v) => i128_to_string(*v as i128),
            EnvType::I64(v) => i128_to_string(*v as i128),
            EnvType::I128(v) => i128_to_string(*v),
            EnvType::U32(v) => u128_to_string(*v as u128),
            EnvType::U128(v) => u128_to_string(*v),
            EnvType::F32(t) => t.clone(),
            EnvType::F64(t) => t.clone(),
            EnvType::USize(v) => u128_to_string(*v as u128),
            EnvType::StaticStr(t) => {
                let mut quoted = String::from_str("\"");
                quoted.append(t.as_str());
                quoted.append("\"");
                proof {
                    reveal_strlit("\"");
                    assert(quoted@ =~= seq!['"'] + t@ + seq!['"']);
                }
                quoted
            },
            EnvType::Custom(c) => c.raw_value.clone(),
        }
    }

    /// The fully-typed literal expression, suitable for the right-hand side
    /// of a declaration.
    pub fn value(&self) -> (r: String)
        ensures
            r@ == typed_value_spec(self@),
    {
        match self {
            EnvType::StaticStr(_) => self.raw_value(),
            EnvType::Custom(c) => c.value.clone(),
            _ => {
                let mut out = self.raw_value();
                let ty = self.rust_type();
                out.append(ty.as_str());
                out
            },
        }
    }
}

} // verus!
