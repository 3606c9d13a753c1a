//! The D-Bus value tree and its mathematical model.

use vstd::prelude::*;

verus! {

/// An object path, as its text.
#[derive(Clone, PartialEq, Eq, Debug, Hash)]
pub struct Path(pub String);

/// A type signature, as its text.
#[derive(Clone, PartialEq, Eq, Debug, Hash)]
pub struct Signature(pub String);

/// The basic D-Bus types: those that may key a dictionary.
#[derive(Clone, PartialEq, Eq, Debug, Hash)]
pub enum BasicValue {
    Byte(u8),
    Boolean(bool),
    Int16(i16),
    Uint16(u16),
    Int32(i32),
    Uint32(u32),
    Int64(i64),
    Uint64(u64),
    String(String),
    ObjectPath(Path),
    Signature(Signature),
}

/// An ordered sequence of values of possibly different types.
#[derive(PartialEq, Eq, Debug)]
pub struct Struct {
    pub objects: Vec<Value>,
    pub signature: Signature,
}

/// A value that travels together with its own signature.
#[derive(PartialEq, Eq, Debug)]
pub struct Variant {
    pub object: Box<Value>,
    pub signature: Signature,
}

/// An ordered sequence of values of one type.
#[derive(PartialEq, Eq, Debug)]
pub struct Array {
    pub objects: Vec<Value>,
    pub signature: Signature,
}

/// The entries of a dictionary, in the order in which they were written.
#[derive(PartialEq, Eq, Debug)]
pub struct Dictionary {
    pub entries: Vec<(BasicValue, Value)>,
    pub signature: Signature,
}

/// Any D-Bus value.  A double is held as its IEEE 754 bit pattern.
#[derive(PartialEq, Eq, Debug)]
pub enum Value {
    BasicValue(BasicValue),
    Double(u64),
    Array(Array),
    Variant(Variant),
    Struct(Struct),
    Dictionary(Dictionary),
}

/// What a `BasicValue` stands for.
pub enum BasicModel {
    Byte(u8),
    Boolean(bool),
    Int16(i16),
    Uint16(u16),
    Int32(i32),
    Uint32(u32),
    Int64(i64),
    Uint64(u64),
    String(Seq<char>),
    ObjectPath(Seq<char>),
    Signature(Seq<char>),
}

/// What a `Value` stands for.
pub enum ValueModel {
    Basic(BasicModel),
    Double(u64),
    Array(Seq<ValueModel>, Seq<char>),
    Variant(Box<ValueModel>, Seq<char>),
    Struct(Seq<ValueModel>, Seq<char>),
    Dictionary(Seq<(BasicModel, ValueModel)>, Seq<char>),
}

impl View for BasicValue {
    type V = BasicModel;

    open spec fn view(&self) -> BasicModel {
        match self {
            BasicValue::Byte(x) => BasicModel::Byte(*x),
            BasicValue::Boolean(x) => BasicModel::Boolean(*x),
            BasicValue::Int16(x) => BasicModel::Int16(*x),
            BasicValue::Uint16(x) => BasicModel::Uint16(*x),
            BasicValue::Int32(x) => BasicModel::Int32(*x),
            BasicValue::Uint32(x) => BasicModel::Uint32(*x),
            BasicValue::Int64(x) => BasicModel::Int64(*x),
            BasicValue::Uint64(x) => BasicModel::Uint64(*x),
            BasicValue::String(s) => BasicModel::String(s@),
            BasicValue::ObjectPath(p) => BasicModel::ObjectPath(p.0@),
            BasicValue::Signature(s) => BasicModel::Signature(s.0@),
        }
    }
}

impl BasicValue {
    /// A copy of the value.
    pub fn duplicate(&self) -> (copy: BasicValue)
        ensures
            copy@ == self@,
    {
        match self {
            BasicValue::Byte(x) => BasicValue::Byte(*x),
            BasicValue::Boolean(x) => BasicValue::Boolean(*x),
            BasicValue::Int16(x) => BasicValue::Int16(*x),
            BasicValue::Uint16(x) => BasicValue::Uint16(*x),
            BasicValue::Int32(x) => BasicValue::Int32(*x),
            BasicValue::Uint32(x) => BasicValue::Uint32(*x),
            BasicValue::Int64(x) => BasicValue::Int64(*x),
            BasicValue::Uint64(x) => BasicValue::Uint64(*x),
            BasicValue::String(x) => BasicValue::String(x.clone()),
            BasicValue::ObjectPath(x) => BasicValue::ObjectPath(Path(x.0.clone())),
            BasicValue::Signature(x) => BasicValue::Signature(Signature(x.0.clone())),
        }
    }
}

impl Value {
    /// The value tree that this value stands for.
    pub open spec fn model(&self) -> ValueModel
        decreases self,
    {
        match self {
            Value::BasicValue(b) => ValueModel::Basic(b@),
            Value::Double(bits) => ValueModel::Double(*bits),
            Value::Array(a) => ValueModel::Array(
                Seq::new(
                    a.objects.len() as nat,
                    |i: int|
                        if 0 <= i < a.objects.len() {
                            a.objects[i].model()
                        } else {
                            ValueModel::Double(0)
                        },
                ),
                a.signature.0@,
            ),
            Value::Variant(v) => ValueModel::Variant(Box::new((*v.object).model()), v.signature.0@),
            Value::Struct(s) => ValueModel::Struct(
                Seq::new(
                    s.objects.len() as nat,
                    |i: int|
                        if 0 <= i < s.objects.len() {
                            s.objects[i].model()
                        } else {
                            ValueModel::Double(0)
                        },
                ),
                s.signature.0@,
            ),
            Value::Dictionary(d) => ValueModel::Dictionary(
                Seq::new(
                    d.entries.len() as nat,
                    |i: int|
                        if 0 <= i < d.entries.len() {
                            (d.entries[i].0@, d.entries[i].1.model())
                        } else {
                            (BasicModel::Byte(0), ValueModel::Double(0))
                        },
                ),
                d.signature.0@,
            ),
        }
    }
}

impl View for Value {
    type V = ValueModel;

    open spec fn view(&self) -> ValueModel {
        self.model()
    }
}

/// What a sequence of values stands for, element by element.
pub open spec fn models(values: Seq<Value>) -> Seq<ValueModel> {
    Seq::new(values.len(), |k: int| values[k].model())
}

/// What a sequence of dictionary entries stands for, entry by entry.
pub open spec fn entry_models(entries: Seq<(BasicValue, Value)>) -> Seq<(BasicModel, ValueModel)> {
    Seq::new(entries.len(), |k: int| (entries[k].0@, entries[k].1.model()))
}

/// The model of a container is made of the models of what it holds.
pub proof fn lemma_container_models(value: Value)
    ensures
        value matches Value::Array(a) ==> value.model() == ValueModel::Array(
            models(a.objects@),
            a.signature.0@,
        ),
        value matches Value::Struct(s) ==> value.model() == ValueModel::Struct(
            models(s.objects@),
            s.signature.0@,
        ),
        value matches Value::Dictionary(d) ==> value.model() == ValueModel::Dictionary(
            entry_models(d.entries@),
            d.signature.0@,
        ),
        value matches Value::Variant(v) ==> value.model() == ValueModel::Variant(
            Box::new((*v.object).model()),
            v.signature.0@,
        ),
        value matches Value::BasicValue(b) ==> value.model() == ValueModel::Basic(b@),
        value matches Value::Double(bits) ==> value.model() == ValueModel::Double(bits),
{
    match value {
        Value::Array(a) => {
            assert(value.model()->Array_0 =~= models(a.objects@));
        },
        Value::Struct(s) => {
            assert(value.model()->Struct_0 =~= models(s.objects@));
        },
        Value::Dictionary(d) => {
            assert(value.model()->Dictionary_0 =~= entry_models(d.entries@));
        },
        _ => {},
    }
}

} // verus!
