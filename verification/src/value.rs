//! The dynamically typed values that events carry and that condition
//! literals are written in: null, booleans, integers, strings, and nested
//! lists and objects. Equality between values is strict and structural: a
//! value of one kind is never equal to a value of another kind.

use vstd::prelude::*;

verus! {

/// A dynamically typed value, as it appears in an event field or as a
/// literal operand of a condition. An object holds its entries as an
/// ordered list: two objects are equal iff their entries agree pairwise,
/// in order. The document parsers hand objects over sorted by key, so
/// objects read from documents compare as maps.
#[derive(Debug, PartialEq, Eq)]
pub enum Value {
    Null,
    Bool(bool),
    Int(i64),
    Str(String),
    List(Vec<Value>),
    Object(Vec<(String, Value)>),
}

/// The mathematical model of a [`Value`]: integers are unbounded, strings
/// are character sequences, lists are sequences of models, objects are
/// sequences of `(key, model)` pairs.
pub enum ValueModel {
    Null,
    Bool(bool),
    Int(int),
    Str(Seq<char>),
    List(Seq<ValueModel>),
    Object(Seq<(Seq<char>, ValueModel)>),
}

impl Value {
    /// The model of this value.
    pub open spec fn model(self) -> ValueModel
        decreases self,
    {
        match self {
            Value::Null => ValueModel::Null,
            Value::Bool(b) => ValueModel::Bool(b),
            Value::Int(i) => ValueModel::Int(i as int),
            Value::Str(s) => ValueModel::Str(s@),
            Value::List(items) => ValueModel::List(
                Seq::new(
                    items@.len(),
                    |i: int|
                        if 0 <= i < items@.len() {
                            items@[i].model()
                        } else {
                            ValueModel::Null
                        },
                ),
            ),
            Value::Object(entries) => ValueModel::Object(
                Seq::new(
                    entries@.len(),
                    |i: int|
                        if 0 <= i < entries@.len() {
                            (entries@[i].0@, entries@[i].1.model())
                        } else {
                            (Seq::empty(), ValueModel::Null)
                        },
                ),
            ),
        }
    }
}

impl Clone for Value {
    /// A clone of a value has the same model.
    fn clone(&self) -> (r: Value)
        ensures
            r.model() == self.model(),
        decreases *self,
    {
        match self {
            Value::Null => Value::Null,
            Value::Bool(b) => Value::Bool(*b),
            Value::Int(i) => Value::Int(*i),
            Value::Str(s) => Value::Str(s.clone()),
            Value::List(items) => {
                let mut out: Vec<Value> = Vec::new();
                let n = items.len();
                let mut i: usize = 0;
                while i < n
                    invariant
                        i <= n,
                        n == items@.len(),
                        out@.len() == i,
                        self == Value::List(*items),
                        forall|j: int| 0 <= j < i ==> #[trigger] out@[j].model()
                            == items@[j].model(),
                    decreases n - i,
                {
                    let item = &items[i];
                    proof {
                        assert(*item == items@[i as int]);
                        assert(decreases_to!(*self => self->List_0));
                        assert(decreases_to!(self->List_0 => self->List_0[i as int]));
                        assert(decreases_to!(*self => *item));
                    }
                    out.push(item.clone());
                    i += 1;
                }
                let r = Value::List(out);
                proof {
                    let ma = r.model()->List_0;
                    let mb = self.model()->List_0;
                    assert(forall|j: int| 0 <= j < ma.len() ==> ma[j] == out@[j].model());
                    assert(forall|j: int| 0 <= j < mb.len() ==> mb[j] == items@[j].model());
                    assert(ma =~= mb);
                }
                r
            },
            Value::Object(entries) => {
                let mut out: Vec<(String, Value)> = Vec::new();
                let n = entries.len();
                let mut i: usize = 0;
                while i < n
                    invariant
                        i <= n,
                        n == entries@.len(),
                        out@.len() == i,
                        self == Value::Object(*entries),
                        forall|j: int| 0 <= j < i ==> #[trigger] out@[j].0@ == entries@[j].0@
                            && out@[j].1.model() == entries@[j].1.model(),
                    decreases n - i,
                {
                    let entry = &entries[i];
                    proof {
                        assert(*entry == entries@[i as int]);
                        assert(decreases_to!(*self => self->Object_0));
                        assert(decreases_to!(self->Object_0 => self->Object_0[i as int]));
                        assert(decreases_to!(
                            self->Object_0[i as int] => self->Object_0[i as int].1));
                        assert(decreases_to!(*self => entry.1));
                    }
                    out.push((entry.0.clone(), entry.1.clone()));
                    i += 1;
                }
                let r = Value::Object(out);
                proof {
                    let ma = r.model()->Object_0;
                    let mb = self.model()->Object_0;
                    assert(forall|j: int| 0 <= j < ma.len() ==> ma[j] == (
                        out@[j].0@,
                        out@[j].1.model(),
                    ));
                    assert(forall|j: int| 0 <= j < mb.len() ==> mb[j] == (
                        entries@[j].0@,
                        entries@[j].1.model(),
                    ));
                    assert(ma =~= mb);
                }
                r
            },
        }
    }
}

/// The model of a list of `(name, value)` entries, as it appears in events,
/// outcomes and metadata: names become character sequences, values their
/// models, order is kept.
pub open spec fn entries_model(entries: Seq<(String, Value)>) -> Seq<(Seq<char>, ValueModel)> {
    Seq::new(entries.len(), |i: int| (entries[i].0@, entries[i].1.model()))
}

/// True iff the two models are values of the same kind (both null, both
/// booleans, both integers, both strings, both lists, or both objects).
pub open spec fn same_kind(a: ValueModel, b: ValueModel) -> bool {
    match (a, b) {
        (ValueModel::Null, ValueModel::Null) => true,
        (ValueModel::Bool(_), ValueModel::Bool(_)) => true,
        (ValueModel::Int(_), ValueModel::Int(_)) => true,
        (ValueModel::Str(_), ValueModel::Str(_)) => true,
        (ValueModel::List(_), ValueModel::List(_)) => true,
        (ValueModel::Object(_), ValueModel::Object(_)) => true,
        _ => false,
    }
}

/// Equality between values is strict: two values of different kinds are
/// never equal, whatever they hold. In particular the number `1` and the
/// string `"1"` differ.
pub proof fn lemma_strict_typing(a: ValueModel, b: ValueModel)
    requires
        !same_kind(a, b),
    ensures
        a != b,
{
}

/// A value's model is of the same kind as the value itself.
pub proof fn lemma_model_kind(v: Value)
    ensures
        (v is Null <==> v.model() is Null),
        (v is Bool <==> v.model() is Bool),
        (v is Int <==> v.model() is Int),
        (v is Str <==> v.model() is Str),
        (v is List <==> v.model() is List),
        (v is Object <==> v.model() is Object),
{
    match v {
        Value::Null => {},
        Value::Bool(_) => {},
        Value::Int(_) => {},
        Value::Str(_) => {},
        Value::List(_) => {},
        Value::Object(_) => {},
    }
}

/// Strict structural equality of two values: their models are equal.
pub fn value_eq(a: &Value, b: &Value) -> (r: bool)
    ensures
        r == (a.model() == b.model()),
    decreases *a,
{
    match (a, b) {
        (Value::Null, Value::Null) => true,
        (Value::Bool(x), Value::Bool(y)) => x == y,
        (Value::Int(x), Value::Int(y)) => x == y,
        (Value::Str(x), Value::Str(y)) => *x == *y,
        (Value::List(x), Value::List(y)) => {
            if x.len() != y.len() {
                proof {
                    assert(a.model() matches ValueModel::List(s) && s.len() == x@.len());
                    assert(b.model() matches ValueModel::List(s) && s.len() == y@.len());
                }
                return false;
            }
            let mut i: usize = 0;
            while i < x.len()
                invariant
                    i <= x@.len(),
                    x@.len() == y@.len(),
                    a == Value::List(*x),
                    b == Value::List(*y),
                    forall|j: int| 0 <= j < i ==> x@[j].model() == y@[j].model(),
                decreases x@.len() - i,
            {
                if !value_eq(&x[i], &y[i]) {
                    proof {
                        assert(a.model() matches ValueModel::List(s)
                            && s[i as int] == x@[i as int].model());
                        assert(b.model() matches ValueModel::List(s)
                            && s[i as int] == y@[i as int].model());
                    }
                    return false;
                }
                i += 1;
            }
            proof {
                let ma = a.model()->List_0;
                let mb = b.model()->List_0;
                assert(a.model() is List && ma.len() == x@.len());
                assert(b.model() is List && mb.len() == y@.len());
                assert(forall|j: int| 0 <= j < ma.len() ==> ma[j] == x@[j].model());
                assert(forall|j: int| 0 <= j < mb.len() ==> mb[j] == y@[j].model());
                assert(ma =~= mb);
            }
            true
        },
        (Value::Object(x), Value::Object(y)) => {
            if x.len() != y.len() {
                proof {
                    assert(a.model() matches ValueModel::Object(s) && s.len() == x@.len());
                    assert(b.model() matches ValueModel::Object(s) && s.len() == y@.len());
                }
                return false;
            }
            let mut i: usize = 0;
            while i < x.len()
                invariant
                    i <= x@.len(),
                    x@.len() == y@.len(),
                    a == Value::Object(*x),
                    b == Value::Object(*y),
                    forall|j: int| 0 <= j < i ==> #[trigger] x@[j].0@ == y@[j].0@,
                    forall|j: int| 0 <= j < i ==> #[trigger] x@[j].1.model()
                        == y@[j].1.model(),
                decreases x@.len() - i,
            {
                let same_key = x[i].0 == y[i].0;
                let entry = &x[i];
                proof {
                    assert(*entry == x@[i as int]);
                    assert(decreases_to!(*a => a->Object_0));
                    assert(decreases_to!(a->Object_0 => a->Object_0[i as int]));
                    assert(decreases_to!(a->Object_0[i as int] => a->Object_0[i as int].1));
                    assert(decreases_to!(*a => entry.1));
                }
                if !(same_key && value_eq(&x[i].1, &y[i].1)) {
                    proof {
                        assert(a.model() matches ValueModel::Object(s) && s[i as int] == (
                            x@[i as int].0@,
                            x@[i as int].1.model(),
                        ));
                        assert(b.model() matches ValueModel::Object(s) && s[i as int] == (
                            y@[i as int].0@,
                            y@[i as int].1.model(),
                        ));
                    }
                    return false;
                }
                proof {
                    assert(x@[i as int].0@ == y@[i as int].0@);
                    assert(x@[i as int].1.model() == y@[i as int].1.model());
                }
                i += 1;
            }
            proof {
                let ma = a.model()->Object_0;
                let mb = b.model()->Object_0;
                assert(a.model() is Object && ma.len() == x@.len());
                assert(b.model() is Object && mb.len() == y@.len());
                assert(forall|j: int| 0 <= j < ma.len() ==> ma[j] == (
                    x@[j].0@,
                    x@[j].1.model(),
                ));
                assert(forall|j: int| 0 <= j < mb.len() ==> mb[j] == (
                    y@[j].0@,
                    y@[j].1.model(),
                ));
                assert(ma =~= mb);
            }
            true
        },
        _ => {
            proof {
                lemma_model_kind(*a);
                lemma_model_kind(*b);
            }
            false
        },
    }
}

} // verus!
