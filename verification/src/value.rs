use vstd::prelude::*;
use crate::node_id::RuntimeNodeId;
use crate::text::{int_text, bool_text, i64_to_string, bool_to_string};

verus! {

#[derive(Debug)]
pub enum EnumValuePayload {
    Unit,
    Tuple(Vec<Value>),
    Struct(Vec<(String, Value)>),
}

/// A function value: its parameters and body.
#[derive(Debug, Clone)]
pub struct Function {
    pub params: Vec<String>,
    pub body: RuntimeNodeId,
    /// Whether a call runs the body in the environment the function was
    /// defined in.
    pub is_closure: bool,
}

/// A value of the language at run time.
#[derive(Debug)]
pub enum Value {
    Int(i64),
    String(String),
    Bool(bool),
    Struct { struct_name: String, fields: Vec<(String, Value)> },
    Enum { enum_name: String, variant: String, payload: EnumValuePayload },
    List(Vec<Value>),
    Tuple(Vec<Value>),
    Function(Function),
    /// A module namespace: its exports by name.
    Module(Vec<(String, Value)>),
    Unit,
}

/// A value as `{}` shows it: numbers, strings and booleans as themselves,
/// lists in `[..]`, tuples in `(..)`, structs as `Name {k: v, ..}`, enums by
/// variant with their payload, and nothing for functions, modules and unit.
pub open spec fn value_text(v: Value) -> Seq<char>
    decreases v, 0nat,
{
    match v {
        Value::Int(n) => int_text(n as int),
        Value::String(s) => s@,
        Value::Bool(b) => bool_text(b),
        Value::List(items) => "["@ + values_text(items@, items@.len()) + "]"@,
        Value::Tuple(items) => "("@ + values_text(items@, items@.len()) + ")"@,
        Value::Struct { struct_name, fields } => struct_name@ + " {"@ + fields_text(fields@, fields@.len()) + "}"@,
        Value::Enum { variant, payload, .. } => match payload {
            EnumValuePayload::Unit => variant@,
            EnumValuePayload::Tuple(items) => variant@ + "("@ + values_text(items@, items@.len()) + ")"@,
            EnumValuePayload::Struct(fields) => variant@ + " {"@ + fields_text(fields@, fields@.len()) + "}"@,
        },
        _ => Seq::empty(),
    }
}

/// The first `n` values, shown and separated by `, `.
pub open spec fn values_text(vs: Seq<Value>, n: nat) -> Seq<char>
    decreases vs, n,
{
    if n == 0 || n > vs.len() {
        Seq::empty()
    } else if n == 1 {
        value_text(vs[0])
    } else {
        values_text(vs, (n - 1) as nat) + ", "@ + value_text(vs[n - 1])
    }
}

/// The first `n` fields as `name: value`, separated by `, `.
pub open spec fn fields_text(fs: Seq<(String, Value)>, n: nat) -> Seq<char>
    decreases fs, n,
{
    if n == 0 || n > fs.len() {
        Seq::empty()
    } else if n == 1 {
        fs[0].0@ + ": "@ + value_text(fs[0].1)
    } else {
        fields_text(fs, (n - 1) as nat) + ", "@ + fs[n - 1].0@ + ": "@ + value_text(fs[n - 1].1)
    }
}

impl Value {
    /// The value as `{}` shows it.
    pub fn to_string(&self) -> (s: String)
        ensures
            s@ == value_text(*self),
        decreases self, 2nat,
    {
        match self {
            Value::Int(n) => i64_to_string(*n),
            Value::String(s) => s.clone(),
            Value::Bool(b) => bool_to_string(*b),
            Value::List(items) => {
                let mut out = String::from_str("[");
                Self::write_values(items, &mut out);
                out.append("]");
                out
            },
            Value::Tuple(items) => {
                let mut out = String::from_str("(");
                Self::write_values(items, &mut out);
                out.append(")");
                out
            },
            Value::Struct { struct_name, fields } => {
                let mut out = struct_name.clone();
                out.append(" {");
                Self::write_fields(fields, &mut out);
                out.append("}");
                out
            },
            Value::Enum { variant, payload, .. } => match payload {
                EnumValuePayload::Unit => variant.clone(),
                EnumValuePayload::Tuple(items) => {
                    let mut out = variant.clone();
                    out.append("(");
                    Self::write_values(items, &mut out);
                    out.append(")");
                    out
                },
                EnumValuePayload::Struct(fields) => {
                    let mut out = variant.clone();
                    out.append(" {");
                    Self::write_fields(fields, &mut out);
                    out.append("}");
                    out
                },
            },
            _ => String::new(),
        }
    }

    fn write_values(items: &Vec<Value>, out: &mut String)
        ensures
            final(out)@ == old(out)@ + values_text(items@, items@.len()),
        decreases items, 1nat,
    {
        let ghost start = out@;
        let mut i: usize = 0;
        while i < items.len()
            invariant
                i <= items@.len(),
                out@ == start + values_text(items@, i as nat),
            decreases items@.len() - i,
        {
            if i > 0 {
                out.append(", ");
            }
            let s = items[i].to_string();
            out.append(s.as_str());
            proof {
                if i == 0 {
                    assert(values_text(items@, 1) == value_text(items@[0]));
                }
                assert(out@ =~= start + values_text(items@, (i + 1) as nat));
            }
            i = i + 1;
        }
    }

    fn write_fields(fields: &Vec<(String, Value)>, out: &mut String)
        ensures
            final(out)@ == old(out)@ + fields_text(fields@, fields@.len()),
        decreases fields, 1nat,
    {
        let ghost start = out@;
        let mut i: usize = 0;
        while i < fields.len()
            invariant
                i <= fields@.len(),
                out@ == start + fields_text(fields@, i as nat),
            decreases fields@.len() - i,
        {
            if i > 0 {
                out.append(", ");
            }
            out.append(fields[i].0.as_str());
            out.append(": ");
            let s = fields[i].1.to_string();
            out.append(s.as_str());
            proof { assert(out@ =~= start + fields_text(fields@, (i + 1) as nat)); }
            i = i + 1;
        }
    }

    /// The items of a list, or an error naming the value that is not one.
    pub fn enumerate(&self) -> (r: Result<&Vec<Value>, String>)
        ensures
            match r {
                Ok(items) => *self == Value::List(*items),
                Err(msg) => !(*self is List) && msg@ == "value is not iterable: "@ + value_text(*self),
            },
    {
        match self {
            Value::List(items) => Ok(items),
            _ => {
                let mut msg = String::from_str("value is not iterable: ");
                let s = self.to_string();
                msg.append(s.as_str());
                Err(msg)
            },
        }
    }
}

/// How a statement finished.
pub enum ExecResult {
    Continue,
    Return(Value),
    /// A `ctl` handler called `resume expr`: the value goes back to the
    /// effect call site.
    Resumed(Value),
}

/// Showing the first `k` items of a longer sequence does not look past them.
proof fn lemma_values_text_prefix(vs: Seq<Value>, v: Value, k: nat)
    requires
        k <= vs.len(),
    ensures
        values_text(vs.push(v), k) == values_text(vs, k),
    decreases k,
{
    if k > 1 {
        lemma_values_text_prefix(vs, v, (k - 1) as nat);
        assert(vs.push(v)[k - 1] == vs[k - 1]);
    } else if k == 1 {
        assert(vs.push(v)[0] == vs[0]);
    }
}

/// Items are shown all, in order, separated by `, `: one more item adds
/// `, ` and its text to what the others show (or is the whole text when it
/// is the only one).
pub proof fn law_items_all_shown(vs: Seq<Value>, v: Value)
    ensures
        values_text(vs.push(v), vs.len() + 1) == if vs.len() == 0 {
            value_text(v)
        } else {
            values_text(vs, vs.len()) + ", "@ + value_text(v)
        },
{
    lemma_values_text_prefix(vs, v, vs.len());
    assert(vs.push(v)[vs.len() as int] == v);
}

/// A tuple shows all its items between `(` and `)`.
pub proof fn law_tuple_text(items: Vec<Value>)
    ensures
        value_text(Value::Tuple(items)) == "("@ + values_text(items@, items@.len()) + ")"@,
{
}

/// An enum value with a tuple payload shows as its variant followed by the
/// tuple of its payload items: every item is shown.
pub proof fn law_enum_tuple_text(enum_name: String, variant: String, items: Vec<Value>)
    ensures
        value_text(Value::Enum { enum_name, variant, payload: EnumValuePayload::Tuple(items) })
            == variant@ + value_text(Value::Tuple(items)),
{
    assert(variant@ + ("("@ + values_text(items@, items@.len()) + ")"@)
        =~= variant@ + "("@ + values_text(items@, items@.len()) + ")"@);
}

/// An enum value with a struct payload shows as a struct named after its
/// variant.
pub proof fn law_enum_struct_text(enum_name: String, variant: String, fields: Vec<(String, Value)>)
    ensures
        value_text(Value::Enum { enum_name, variant, payload: EnumValuePayload::Struct(fields) })
            == value_text(Value::Struct { struct_name: variant, fields }),
{
}

} // verus!
