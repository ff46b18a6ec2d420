use vstd::prelude::*;

verus! {

/// A structured value as the host engine hands it over.
#[derive(Debug, PartialEq, Eq)]
pub enum Value {
    Null,
    Boolean(bool),
    Integer(i64),
    /// IEEE-754 bit pattern of a double.
    Float(u64),
    Bytes(Vec<u8>),
    /// Nanoseconds since the Unix epoch.
    Timestamp(i64),
    /// The source of a regular expression.
    Regex(String),
    Array(Vec<Value>),
    Object(Vec<(String, Value)>),
}

/// The mathematical model of a `Value`.
pub enum ValueView {
    Null,
    Boolean(bool),
    Integer(i64),
    Float(u64),
    Bytes(Seq<u8>),
    Timestamp(i64),
    Regex(Seq<char>),
    Array(Seq<ValueView>),
    Object(Seq<(Seq<char>, ValueView)>),
}

impl Value {
    /// The model of this value.
    pub open spec fn view(&self) -> ValueView
        decreases self,
    {
        match self {
            Value::Null => ValueView::Null,
            Value::Boolean(b) => ValueView::Boolean(*b),
            Value::Integer(n) => ValueView::Integer(*n),
            Value::Float(bits) => ValueView::Float(*bits),
            Value::Bytes(b) => ValueView::Bytes(b@),
            Value::Timestamp(t) => ValueView::Timestamp(*t),
            Value::Regex(s) => ValueView::Regex(s@),
            Value::Array(items) => ValueView::Array(
                Seq::new(items.len() as nat, |i: int|
                    if 0 <= i < items.len() { items[i].view() } else { ValueView::Null }),
            ),
            Value::Object(fields) => ValueView::Object(
                Seq::new(fields.len() as nat, |i: int|
                    if 0 <= i < fields.len() { (fields[i].0@, fields[i].1.view()) } else { (Seq::empty(), ValueView::Null) }),
            ),
        }
    }
}

} // verus!
verus! {

/// The models of an object's fields.
pub open spec fn fields_view(fields: Seq<(String, Value)>) -> Seq<(Seq<char>, ValueView)> {
    Seq::new(fields.len(), |i: int| (fields[i].0@, fields[i].1@))
}

/// The value of the first field with the given name, if there is one.
pub open spec fn field_value(fields: Seq<(Seq<char>, ValueView)>, name: Seq<char>) -> Option<
    ValueView,
>
    decreases fields.len(),
{
    if fields.len() == 0 {
        None
    } else if fields[0].0 == name {
        Some(fields[0].1)
    } else {
        field_value(fields.drop_first(), name)
    }
}

impl Value {
    /// A deep copy of this value.
    pub fn duplicate(&self) -> (r: Value)
        ensures
            r@ == self@,
        decreases self,
    {
        match self {
            Value::Null => Value::Null,
            Value::Boolean(b) => Value::Boolean(*b),
            Value::Integer(n) => Value::Integer(*n),
            Value::Float(bits) => Value::Float(*bits),
            Value::Bytes(b) => {
                let c = b.clone();
                assert(c@ =~= b@);
                Value::Bytes(c)
            },
            Value::Timestamp(t) => Value::Timestamp(*t),
            Value::Regex(s) => Value::Regex(s.clone()),
            Value::Array(items) => {
                let mut out: Vec<Value> = Vec::new();
                let mut i: usize = 0;
                while i < items.len()
                    invariant
                        *self == Value::Array(*items),
                        i <= items@.len(),
                        out@.len() == i,
                        forall|j: int| 0 <= j < i ==> (#[trigger] out@[j])@ == items@[j]@,
                    decreases items@.len() - i,
                {
                    proof {
                        vstd::std_specs::vec::axiom_vec_index_decreases(*items, i as int);
                        assert(decreases_to!(*self => (*self)->Array_0));
                    }
                    out.push(items[i].duplicate());
                    i = i + 1;
                }
                let r = Value::Array(out);
                assert(r@->Array_0 =~= self@->Array_0);
                r
            },
            Value::Object(fields) => {
                let mut out: Vec<(String, Value)> = Vec::new();
                let mut i: usize = 0;
                while i < fields.len()
                    invariant
                        *self == Value::Object(*fields),
                        i <= fields@.len(),
                        out@.len() == i,
                        forall|j: int|
                            0 <= j < i ==> (#[trigger] out@[j]).0@ == fields@[j].0@ && out@[j].1@
                                == fields@[j].1@,
                    decreases fields@.len() - i,
                {
                    proof {
                        vstd::std_specs::vec::axiom_vec_index_decreases(*fields, i as int);
                        assert(decreases_to!(*self => (*self)->Object_0));
                        assert(decreases_to!(fields[i as int] => fields[i as int].1));
                    }
                    let name = fields[i].0.clone();
                    let inner = fields[i].1.duplicate();
                    out.push((name, inner));
                    i = i + 1;
                }
                let r = Value::Object(out);
                assert(r@->Object_0 =~= self@->Object_0);
                r
            },
        }
    }
}

/// Looks up the first field with the given name.
pub fn find_field<'a>(fields: &'a Vec<(String, Value)>, name: &String) -> (r: Option<&'a Value>)
    ensures
        match r {
            Some(v) => field_value(fields_view(fields@), name@) == Some(v@),
            None => field_value(fields_view(fields@), name@) is None,
        },
{
    let ghost fv = fields_view(fields@);
    assert(fv.subrange(0, fv.len() as int) =~= fv);
    let mut i: usize = 0;
    while i < fields.len()
        invariant
            fv == fields_view(fields@),
            i <= fields@.len(),
            field_value(fv, name@) == field_value(fv.subrange(i as int, fv.len() as int), name@),
        decreases fields@.len() - i,
    {
        let ghost rest = fv.subrange(i as int, fv.len() as int);
        if fields[i].0 == *name {
            return Some(&fields[i].1);
        }
        assert(rest.drop_first() =~= fv.subrange(i + 1, fv.len() as int));
        i = i + 1;
    }
    None
}

} // verus!
