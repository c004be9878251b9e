//! The nine citizen kinds of a CLD world and the recursive `Value` type
//! used for all of their field values.

use crate::name_map::NameMap;
use vstd::prelude::*;

verus! {

broadcast use vstd::std_specs::vec::group_vec_axioms;

/// Mathematical model of a field value: the same five shapes as [`Value`],
/// with text abstracted to sequences of characters.
pub enum ValueModel {
    Str(Seq<char>),
    Num(Seq<char>),
    Bool(bool),
    List(Seq<ValueModel>),
    Ident(Seq<char>),
}

/// A field value: the recursive literal type of the CLD language.
///
/// `Number` keeps the numeric literal exactly as it was matched in the
/// source; the text is guaranteed by the value parser to be a well-formed
/// decimal numeral, and turning it into machine arithmetic is left to
/// callers outside this library.
#[derive(Debug, PartialEq)]
pub enum Value {
    String(String),
    Number(String),
    Boolean(bool),
    List(Vec<Value>),
    Identifier(String),
}

/// The model of a whole value, structure for structure.
pub open spec fn value_model(v: Value) -> ValueModel
    decreases v,
    via value_model_decreases
{
    match v {
        Value::String(s) => ValueModel::Str(s@),
        Value::Number(n) => ValueModel::Num(n@),
        Value::Boolean(b) => ValueModel::Bool(b),
        Value::List(l) => ValueModel::List(value_models(l@)),
        Value::Identifier(i) => ValueModel::Ident(i@),
    }
}

/// The models of a sequence of values, element for element.
pub open spec fn value_models(s: Seq<Value>) -> Seq<ValueModel>
    decreases s,
    via value_models_decreases
{
    if s.len() == 0 {
        Seq::empty()
    } else {
        value_models(s.drop_last()).push(value_model(s.last()))
    }
}

#[via_fn]
proof fn value_model_decreases(v: Value) {
    match v {
        Value::List(l) => {
            assert(decreases_to!(v => l));
            assert(decreases_to!(l => l@));
        },
        _ => (),
    }
}

#[via_fn]
proof fn value_models_decreases(s: Seq<Value>) {
    if s.len() != 0 {
        vstd::seq::axiom_seq_subrange_decreases(s, 0, s.len() - 1);
        vstd::seq::axiom_seq_index_decreases(s, s.len() - 1);
    }
}

/// Every element's model is taken in place: `value_models` is the
/// pointwise image of `value_model`.
pub proof fn lemma_value_models_pointwise(s: Seq<Value>)
    ensures
        value_models(s).len() == s.len(),
        forall|i: int| 0 <= i < s.len() ==> value_models(s)[i] == value_model(s[i]),
    decreases s.len(),
{
    if s.len() != 0 {
        lemma_value_models_pointwise(s.drop_last());
    }
}

impl DeepView for Value {
    type V = ValueModel;

    open spec fn deep_view(&self) -> ValueModel {
        value_model(*self)
    }
}

impl Value {
    /// The string payload, when the value is a `String`.
    pub fn as_string(&self) -> (r: Option<&String>)
        ensures
            r == (match self {
                Value::String(s) => Some(s),
                _ => None::<&String>,
            }),
    {
        match self {
            Value::String(s) => Some(s),
            _ => None,
        }
    }

    /// The numeric literal's matched text, when the value is a `Number`.
    pub fn as_number(&self) -> (r: Option<&String>)
        ensures
            r == (match self {
                Value::Number(n) => Some(n),
                _ => None::<&String>,
            }),
    {
        match self {
            Value::Number(n) => Some(n),
            _ => None,
        }
    }

    /// The boolean payload, when the value is a `Boolean`.
    pub fn as_boolean(&self) -> (r: Option<bool>)
        ensures
            r == (match self {
                Value::Boolean(b) => Some(*b),
                _ => None::<bool>,
            }),
    {
        match self {
            Value::Boolean(b) => Some(*b),
            _ => None,
        }
    }

    /// The element vector, when the value is a `List`.
    pub fn as_list(&self) -> (r: Option<&Vec<Value>>)
        ensures
            r == (match self {
                Value::List(l) => Some(l),
                _ => None::<&Vec<Value>>,
            }),
    {
        match self {
            Value::List(l) => Some(l),
            _ => None,
        }
    }

    /// The identifier's text, when the value is an `Identifier`.
    pub fn as_identifier(&self) -> (r: Option<&String>)
        ensures
            r == (match self {
                Value::Identifier(i) => Some(i),
                _ => None::<&String>,
            }),
    {
        match self {
            Value::Identifier(i) => Some(i),
            _ => None,
        }
    }
}

/// The rendering of a value as text: strings, numerals and identifiers
/// by their text, booleans by their spelling, lists bracketed with
/// elements separated by a comma and a space.
pub open spec fn value_text(m: ValueModel) -> Seq<char>
    decreases m,
    via value_text_decreases
{
    match m {
        ValueModel::Str(s) => s,
        ValueModel::Num(s) => s,
        ValueModel::Bool(b) => if b {
            "true"@
        } else {
            "false"@
        },
        ValueModel::List(ms) => "["@ + list_text(ms) + "]"@,
        ValueModel::Ident(s) => s,
    }
}

/// The rendering of a list's elements, separated by a comma and a space.
pub open spec fn list_text(ms: Seq<ValueModel>) -> Seq<char>
    decreases ms,
    via list_text_decreases
{
    if ms.len() == 0 {
        Seq::empty()
    } else if ms.len() == 1 {
        value_text(ms[0])
    } else {
        list_text(ms.drop_last()) + ", "@ + value_text(ms.last())
    }
}

#[via_fn]
proof fn value_text_decreases(m: ValueModel) {
    match m {
        ValueModel::List(ms) => {
            assert(decreases_to!(m => ms));
        },
        _ => (),
    }
}

#[via_fn]
proof fn list_text_decreases(ms: Seq<ValueModel>) {
    if ms.len() != 0 {
        vstd::seq::axiom_seq_index_decreases(ms, 0);
        vstd::seq::axiom_seq_index_decreases(ms, ms.len() - 1);
        vstd::seq::axiom_seq_subrange_decreases(ms, 0, ms.len() - 1);
        assert(ms.drop_last() == ms.subrange(0, ms.len() - 1));
    }
}

impl Value {
    /// Renders the value as text, as [`value_text`] lays it out.
    #[verifier::loop_isolation(false)]
    pub fn to_text(&self) -> (s: String)
        ensures
            s@ == value_text(self.deep_view()),
        decreases *self,
    {
        match self {
            Value::String(s) => s.clone(),
            Value::Number(n) => n.clone(),
            Value::Boolean(b) => if *b {
                "true".to_owned()
            } else {
                "false".to_owned()
            },
            Value::Identifier(i) => i.clone(),
            Value::List(l) => {
                let ghost ems = value_models(l@);
                proof {
                    lemma_value_models_pointwise(l@);
                }
                let mut out = "[".to_owned();
                let n = l.len();
                let mut i: usize = 0;
                proof {
                    assert(ems.take(0) =~= Seq::<ValueModel>::empty());
                }
                while i < n
                    invariant
                        *self == Value::List(*l),
                        n == l@.len(),
                        i <= n,
                        ems == value_models(l@),
                        ems.len() == n,
                        forall|j: int| 0 <= j < n ==> ems[j] == value_model(l@[j]),
                        out@ == "["@ + list_text(ems.take(i as int)),
                    decreases n - i,
                {
                    proof {
                        assert(decreases_to!(*self => *l));
                        vstd::std_specs::vec::axiom_vec_index_decreases(*l, i as int);
                    }
                    if i > 0 {
                        out.append(", ");
                    }
                    let t = l[i].to_text();
                    out.append(t.as_str());
                    proof {
                        assert(ems.take(i + 1).drop_last() =~= ems.take(i as int));
                        assert(ems.take(i + 1).last() == ems[i as int]);
                        if i == 0 {
                            assert(out@ =~= "["@ + list_text(ems.take(i + 1)));
                        } else {
                            assert(out@ =~= "["@ + (list_text(ems.take(i as int)) + ", "@
                                + value_text(ems[i as int])));
                        }
                    }
                    i += 1;
                }
                out.append("]");
                proof {
                    assert(ems.take(n as int) =~= ems);
                    assert(out@ =~= "["@ + list_text(ems) + "]"@);
                }
                out
            },
        }
    }
}

/// Mathematical model of one declaration: its name and its field mapping.
/// All nine citizen kinds share this shape; the kind itself is carried by
/// the surrounding context (a [`crate::parser::CitizenModel`] tag or a
/// world collection).
pub struct RecordModel {
    pub name: Seq<char>,
    pub fields: Map<Seq<char>, ValueModel>,
}

/// The world's initial singularity; must be unique within a world.
#[derive(Debug, PartialEq)]
pub struct Origin {
    pub name: String,
    pub fields: NameMap<Value>,
}

/// The time manifold of a world.
#[derive(Debug, PartialEq)]
pub struct Timeline {
    pub name: String,
    pub fields: NameMap<Value>,
}

/// The minimal causal change unit.
#[derive(Debug, PartialEq)]
pub struct Event {
    pub name: String,
    pub fields: NameMap<Value>,
}

/// An immutable historical cornerstone, citable as a core anchor; a kind
/// of its own, distinct from `Event`.
#[derive(Debug, PartialEq)]
pub struct CoreEvent {
    pub name: String,
    pub fields: NameMap<Value>,
}

/// A behavioral niche.
#[derive(Debug, PartialEq)]
pub struct Niche {
    pub name: String,
    pub fields: NameMap<Value>,
}

/// A historical semantic layer.
#[derive(Debug, PartialEq)]
pub struct Era {
    pub name: String,
    pub fields: NameMap<Value>,
}

/// A dynamic content generator.
#[derive(Debug, PartialEq)]
pub struct Generator {
    pub name: String,
    pub fields: NameMap<Value>,
}

/// A collective memory bank.
#[derive(Debug, PartialEq)]
pub struct Memory {
    pub name: String,
    pub fields: NameMap<Value>,
}

/// A world immune system.
#[derive(Debug, PartialEq)]
pub struct Immune {
    pub name: String,
    pub fields: NameMap<Value>,
}

impl DeepView for Origin {
    type V = RecordModel;

    open spec fn deep_view(&self) -> RecordModel {
        RecordModel { name: self.name@, fields: self.fields.deep_view() }
    }
}

impl DeepView for Timeline {
    type V = RecordModel;

    open spec fn deep_view(&self) -> RecordModel {
        RecordModel { name: self.name@, fields: self.fields.deep_view() }
    }
}

impl DeepView for Event {
    type V = RecordModel;

    open spec fn deep_view(&self) -> RecordModel {
        RecordModel { name: self.name@, fields: self.fields.deep_view() }
    }
}

impl DeepView for CoreEvent {
    type V = RecordModel;

    open spec fn deep_view(&self) -> RecordModel {
        RecordModel { name: self.name@, fields: self.fields.deep_view() }
    }
}

impl DeepView for Niche {
    type V = RecordModel;

    open spec fn deep_view(&self) -> RecordModel {
        RecordModel { name: self.name@, fields: self.fields.deep_view() }
    }
}

impl DeepView for Era {
    type V = RecordModel;

    open spec fn deep_view(&self) -> RecordModel {
        RecordModel { name: self.name@, fields: self.fields.deep_view() }
    }
}

impl DeepView for Generator {
    type V = RecordModel;

    open spec fn deep_view(&self) -> RecordModel {
        RecordModel { name: self.name@, fields: self.fields.deep_view() }
    }
}

impl DeepView for Memory {
    type V = RecordModel;

    open spec fn deep_view(&self) -> RecordModel {
        RecordModel { name: self.name@, fields: self.fields.deep_view() }
    }
}

impl DeepView for Immune {
    type V = RecordModel;

    open spec fn deep_view(&self) -> RecordModel {
        RecordModel { name: self.name@, fields: self.fields.deep_view() }
    }
}

} // verus!
