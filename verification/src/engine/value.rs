//! The values that a query computes.

use crate::model::article::{Article, ArticleModel};
use crate::text::str_equal;
use vstd::prelude::*;

verus! {

/// A primitive value.
#[derive(Debug, Hash)]
pub enum RuntimeVariableAbstractPrimitiveData<'a> {
    Article(Article),
    Category(&'a str),
    Integer(i64),
    String(String),
}

/// A value: nothing, a primitive, or a collection of values. The elements
/// of a `SetOf` are distinct and stand in the order in which they were first
/// seen.
#[derive(Debug, Hash)]
pub enum RuntimeVariableAbstractData<'a> {
    Void,
    Primitive(RuntimeVariableAbstractPrimitiveData<'a>),
    Array(Box<Vec<RuntimeVariableAbstractData<'a>>>),
    SetOf(Box<Vec<RuntimeVariableAbstractData<'a>>>),
    Tuple(Vec<RuntimeVariableAbstractData<'a>>),
}

/// The mathematical value of a primitive value.
pub enum PrimitiveModel {
    Article(ArticleModel),
    Category(Seq<char>),
    Integer(int),
    String(Seq<char>),
}

/// The mathematical value of a value.
pub enum ValueModel {
    Void,
    Primitive(PrimitiveModel),
    Array(Seq<ValueModel>),
    SetOf(Seq<ValueModel>),
    Tuple(Seq<ValueModel>),
}

impl<'a> View for RuntimeVariableAbstractPrimitiveData<'a> {
    type V = PrimitiveModel;

    open spec fn view(&self) -> PrimitiveModel {
        match self {
            RuntimeVariableAbstractPrimitiveData::Article(article) => PrimitiveModel::Article(
                article@,
            ),
            RuntimeVariableAbstractPrimitiveData::Category(name) => PrimitiveModel::Category(name@),
            RuntimeVariableAbstractPrimitiveData::Integer(n) => PrimitiveModel::Integer(*n as int),
            RuntimeVariableAbstractPrimitiveData::String(text) => PrimitiveModel::String(text@),
        }
    }
}

/// The mathematical values of a sequence of values.
pub open spec fn values<'a>(items: Seq<RuntimeVariableAbstractData<'a>>) -> Seq<ValueModel> {
    Seq::new(items.len(), |i: int| items[i]@)
}

impl<'a> RuntimeVariableAbstractData<'a> {
    /// The mathematical value of this value.
    pub open spec fn model(&self) -> ValueModel
        decreases self,
    {
        match self {
            RuntimeVariableAbstractData::Void => ValueModel::Void,
            RuntimeVariableAbstractData::Primitive(p) => ValueModel::Primitive(p@),
            RuntimeVariableAbstractData::Array(items) => ValueModel::Array(
                Seq::new(
                    items.len() as nat,
                    |i: int|
                        if 0 <= i < items.len() {
                            items[i].model()
                        } else {
                            ValueModel::Void
                        },
                ),
            ),
            RuntimeVariableAbstractData::SetOf(items) => ValueModel::SetOf(
                Seq::new(
                    items.len() as nat,
                    |i: int|
                        if 0 <= i < items.len() {
                            items[i].model()
                        } else {
                            ValueModel::Void
                        },
                ),
            ),
            RuntimeVariableAbstractData::Tuple(items) => ValueModel::Tuple(
                Seq::new(
                    items.len() as nat,
                    |i: int|
                        if 0 <= i < items.len() {
                            items[i].model()
                        } else {
                            ValueModel::Void
                        },
                ),
            ),
        }
    }
}

impl<'a> View for RuntimeVariableAbstractData<'a> {
    type V = ValueModel;

    open spec fn view(&self) -> ValueModel {
        self.model()
    }
}

impl<'a> Clone for RuntimeVariableAbstractPrimitiveData<'a> {
    fn clone(&self) -> (res: Self)
        ensures
            res@ == self@,
    {
        match self {
            RuntimeVariableAbstractPrimitiveData::Article(article) => {
                RuntimeVariableAbstractPrimitiveData::Article(article.clone())
            },
            RuntimeVariableAbstractPrimitiveData::Category(name) => {
                RuntimeVariableAbstractPrimitiveData::Category(*name)
            },
            RuntimeVariableAbstractPrimitiveData::Integer(n) => {
                RuntimeVariableAbstractPrimitiveData::Integer(*n)
            },
            RuntimeVariableAbstractPrimitiveData::String(text) => {
                RuntimeVariableAbstractPrimitiveData::String(text.clone())
            },
        }
    }
}

/// A copy of each of the values.
pub fn clone_values<'a>(items: &Vec<RuntimeVariableAbstractData<'a>>) -> (copy: Vec<
    RuntimeVariableAbstractData<'a>,
>)
    ensures
        values(copy@) == values(items@),
    decreases items,
{
    let mut copy: Vec<RuntimeVariableAbstractData<'a>> = Vec::new();
    let mut i: usize = 0;
    while i < items.len()
        invariant
            0 <= i <= items.len(),
            copy.len() == i,
            forall|j: int| 0 <= j < i ==> copy[j]@ == items[j]@,
        decreases items.len() - i,
    {
        copy.push(items[i].clone());
        i += 1;
    }
    assert(values(copy@) =~= values(items@));
    copy
}

impl<'a> Clone for RuntimeVariableAbstractData<'a> {
    fn clone(&self) -> (res: Self)
        ensures
            res@ == self@,
        decreases self,
    {
        match self {
            RuntimeVariableAbstractData::Void => RuntimeVariableAbstractData::Void,
            RuntimeVariableAbstractData::Primitive(p) => RuntimeVariableAbstractData::Primitive(
                p.clone(),
            ),
            RuntimeVariableAbstractData::Array(items) => {
                let copy = clone_values(&**items);
                let res = RuntimeVariableAbstractData::Array(Box::new(copy));
                assert(res@->Array_0 =~= values(copy@));
                assert(self@->Array_0 =~= values(items@));
                res
            },
            RuntimeVariableAbstractData::SetOf(items) => {
                let copy = clone_values(&**items);
                let res = RuntimeVariableAbstractData::SetOf(Box::new(copy));
                assert(res@->SetOf_0 =~= values(copy@));
                assert(self@->SetOf_0 =~= values(items@));
                res
            },
            RuntimeVariableAbstractData::Tuple(items) => {
                let copy = clone_values(items);
                let res = RuntimeVariableAbstractData::Tuple(copy);
                assert(res@->Tuple_0 =~= values(copy@));
                assert(self@->Tuple_0 =~= values(items@));
                res
            },
        }
    }
}

impl<'a> RuntimeVariableAbstractPrimitiveData<'a> {
    /// Whether two primitive values are equal: of the same kind, and equal
    /// in what they hold.
    pub fn same(&self, other: &RuntimeVariableAbstractPrimitiveData<'a>) -> (r: bool)
        ensures
            r == (self@ == other@),
    {
        match self {
            RuntimeVariableAbstractPrimitiveData::Article(a) => match other {
                RuntimeVariableAbstractPrimitiveData::Article(b) => str_equal(
                    a.title.as_str(),
                    b.title.as_str(),
                ) && str_equal(a.text.as_str(), b.text.as_str()),
                _ => false,
            },
            RuntimeVariableAbstractPrimitiveData::Category(a) => match other {
                RuntimeVariableAbstractPrimitiveData::Category(b) => str_equal(a, b),
                _ => false,
            },
            RuntimeVariableAbstractPrimitiveData::Integer(a) => match other {
                RuntimeVariableAbstractPrimitiveData::Integer(b) => *a == *b,
                _ => false,
            },
            RuntimeVariableAbstractPrimitiveData::String(a) => match other {
                RuntimeVariableAbstractPrimitiveData::String(b) => str_equal(
                    a.as_str(),
                    b.as_str(),
                ),
                _ => false,
            },
        }
    }

    pub fn article(&self) -> (r: Option<&Article>)
        ensures
            match r {
                Some(article) => *self == RuntimeVariableAbstractPrimitiveData::Article(*article),
                None => !(self is Article),
            },
    {
        match self {
            RuntimeVariableAbstractPrimitiveData::Article(e) => Some(e),
            _ => None,
        }
    }

    pub fn unwrap_article(&self) -> (r: &Article)
        requires
            self is Article,
        ensures
            *self == RuntimeVariableAbstractPrimitiveData::Article(*r),
    {
        match self {
            RuntimeVariableAbstractPrimitiveData::Article(e) => e,
            _ => vstd::pervasive::unreached(),
        }
    }

    pub fn category(&self) -> (r: Option<&str>)
        ensures
            match r {
                Some(name) => self@ == PrimitiveModel::Category(name@),
                None => !(self is Category),
            },
    {
        match self {
            RuntimeVariableAbstractPrimitiveData::Category(e) => Some(e),
            _ => None,
        }
    }

    pub fn unwrap_category(&self) -> (r: &str)
        requires
            self is Category,
        ensures
            self@ == PrimitiveModel::Category(r@),
    {
        match self {
            RuntimeVariableAbstractPrimitiveData::Category(e) => e,
            _ => vstd::pervasive::unreached(),
        }
    }

    pub fn integer(&self) -> (r: Option<&i64>)
        ensures
            match r {
                Some(n) => *self == RuntimeVariableAbstractPrimitiveData::Integer(*n),
                None => !(self is Integer),
            },
    {
        match self {
            RuntimeVariableAbstractPrimitiveData::Integer(e) => Some(e),
            _ => None,
        }
    }

    pub fn unwrap_integer(&self) -> (r: &i64)
        requires
            self is Integer,
        ensures
            *self == RuntimeVariableAbstractPrimitiveData::Integer(*r),
    {
        match self {
            RuntimeVariableAbstractPrimitiveData::Integer(e) => e,
            _ => vstd::pervasive::unreached(),
        }
    }

    pub fn string(&self) -> (r: Option<&String>)
        ensures
            match r {
                Some(text) => *self == RuntimeVariableAbstractPrimitiveData::String(*text),
                None => !(self is String),
            },
    {
        match self {
            RuntimeVariableAbstractPrimitiveData::String(e) => Some(e),
            _ => None,
        }
    }

    pub fn unwrap_string(&self) -> (r: &String)
        requires
            self is String,
        ensures
            *self == RuntimeVariableAbstractPrimitiveData::String(*r),
    {
        match self {
            RuntimeVariableAbstractPrimitiveData::String(e) => e,
            _ => vstd::pervasive::unreached(),
        }
    }
}

/// Whether two sequences of values are equal, element by element.
pub fn same_values<'a>(
    a: &Vec<RuntimeVariableAbstractData<'a>>,
    b: &Vec<RuntimeVariableAbstractData<'a>>,
) -> (r: bool)
    ensures
        r == (values(a@) == values(b@)),
    decreases a,
{
    if a.len() != b.len() {
        assert(values(a@).len() != values(b@).len());
        return false;
    }
    let mut i: usize = 0;
    while i < a.len()
        invariant
            a.len() == b.len(),
            0 <= i <= a.len(),
            forall|j: int| 0 <= j < i ==> a[j]@ == b[j]@,
        decreases a.len() - i,
    {
        if !a[i].same(&b[i]) {
            assert(values(a@)[i as int] != values(b@)[i as int]);
            return false;
        }
        i += 1;
    }
    assert(values(a@) =~= values(b@));
    true
}

/// Whether `item` is among `items`.
pub fn contains_value<'a>(
    items: &Vec<RuntimeVariableAbstractData<'a>>,
    item: &RuntimeVariableAbstractData<'a>,
) -> (r: bool)
    ensures
        r == values(items@).contains(item@),
{
    let mut i: usize = 0;
    while i < items.len()
        invariant
            0 <= i <= items.len(),
            forall|j: int| 0 <= j < i ==> items[j]@ != item@,
        decreases items.len() - i,
    {
        if items[i].same(item) {
            assert(values(items@)[i as int] == item@);
            return true;
        }
        i += 1;
    }
    assert(!values(items@).contains(item@)) by {
        if values(items@).contains(item@) {
            let j = choose|j: int| 0 <= j < values(items@).len() && values(items@)[j] == item@;
            assert(items[j]@ != item@);
        }
    }
    false
}

impl<'a> RuntimeVariableAbstractData<'a> {
    /// Whether two values are equal: of the same kind, and equal in what
    /// they hold, collections element by element in their order.
    pub fn same(&self, other: &RuntimeVariableAbstractData<'a>) -> (r: bool)
        ensures
            r == (self@ == other@),
        decreases self,
    {
        match self {
            RuntimeVariableAbstractData::Void => matches!(other, RuntimeVariableAbstractData::Void),
            RuntimeVariableAbstractData::Primitive(a) => match other {
                RuntimeVariableAbstractData::Primitive(b) => a.same(b),
                _ => false,
            },
            RuntimeVariableAbstractData::Array(a) => match other {
                RuntimeVariableAbstractData::Array(b) => {
                    assert(self@->Array_0 =~= values(a@));
                    assert(other@->Array_0 =~= values(b@));
                    same_values(&**a, &**b)
                },
                _ => false,
            },
            RuntimeVariableAbstractData::SetOf(a) => match other {
                RuntimeVariableAbstractData::SetOf(b) => {
                    assert(self@->SetOf_0 =~= values(a@));
                    assert(other@->SetOf_0 =~= values(b@));
                    same_values(&**a, &**b)
                },
                _ => false,
            },
            RuntimeVariableAbstractData::Tuple(a) => match other {
                RuntimeVariableAbstractData::Tuple(b) => {
                    assert(self@->Tuple_0 =~= values(a@));
                    assert(other@->Tuple_0 =~= values(b@));
                    same_values(a, b)
                },
                _ => false,
            },
        }
    }

    /// An array of the given values.
    pub fn array_of(items: Vec<RuntimeVariableAbstractData<'a>>) -> (r: Self)
        ensures
            r@ == ValueModel::Array(values(items@)),
    {
        let r = RuntimeVariableAbstractData::Array(Box::new(items));
        assert(r@->Array_0 =~= values(items@));
        r
    }

    /// A set of the given values.
    pub fn set_of(items: Vec<RuntimeVariableAbstractData<'a>>) -> (r: Self)
        ensures
            r@ == ValueModel::SetOf(values(items@)),
    {
        let r = RuntimeVariableAbstractData::SetOf(Box::new(items));
        assert(r@->SetOf_0 =~= values(items@));
        r
    }

    /// A tuple of the given values.
    pub fn tuple_of(items: Vec<RuntimeVariableAbstractData<'a>>) -> (r: Self)
        ensures
            r@ == ValueModel::Tuple(values(items@)),
    {
        let r = RuntimeVariableAbstractData::Tuple(items);
        assert(r@->Tuple_0 =~= values(items@));
        r
    }

    /// The integer `n` as a value.
    pub fn integer_of(n: i64) -> (r: Self)
        ensures
            r@ == ValueModel::Primitive(PrimitiveModel::Integer(n as int)),
    {
        RuntimeVariableAbstractData::Primitive(RuntimeVariableAbstractPrimitiveData::Integer(n))
    }

    pub fn primitive(&self) -> (r: Option<&RuntimeVariableAbstractPrimitiveData<'a>>)
        ensures
            match r {
                Some(p) => *self == RuntimeVariableAbstractData::Primitive(*p),
                None => !(self is Primitive),
            },
    {
        match self {
            RuntimeVariableAbstractData::Primitive(e) => Some(e),
            _ => None,
        }
    }

    pub fn unwrap_primitive(&self) -> (r: &RuntimeVariableAbstractPrimitiveData<'a>)
        requires
            self is Primitive,
        ensures
            *self == RuntimeVariableAbstractData::Primitive(*r),
    {
        match self {
            RuntimeVariableAbstractData::Primitive(e) => e,
            _ => vstd::pervasive::unreached(),
        }
    }

    pub fn array(&self) -> (r: Option<&Box<Vec<RuntimeVariableAbstractData<'a>>>>)
        ensures
            match r {
                Some(items) => *self == RuntimeVariableAbstractData::Array(*items) && self@
                    == ValueModel::Array(values(items@)),
                None => !(self is Array),
            },
    {
        match self {
            RuntimeVariableAbstractData::Array(e) => {
                assert(self@->Array_0 =~= values(e@));
                Some(e)
            },
            _ => None,
        }
    }

    pub fn unwrap_array(&self) -> (r: &Box<Vec<RuntimeVariableAbstractData<'a>>>)
        requires
            self is Array,
        ensures
            *self == RuntimeVariableAbstractData::Array(*r),
            self@ == ValueModel::Array(values(r@)),
    {
        match self {
            RuntimeVariableAbstractData::Array(e) => {
                assert(self@->Array_0 =~= values(e@));
                e
            },
            _ => vstd::pervasive::unreached(),
        }
    }

    pub fn setof(&self) -> (r: Option<&Box<Vec<RuntimeVariableAbstractData<'a>>>>)
        ensures
            match r {
                Some(items) => *self == RuntimeVariableAbstractData::SetOf(*items) && self@
                    == ValueModel::SetOf(values(items@)),
                None => !(self is SetOf),
            },
    {
        match self {
            RuntimeVariableAbstractData::SetOf(e) => {
                assert(self@->SetOf_0 =~= values(e@));
                Some(e)
            },
            _ => None,
        }
    }

    pub fn unwrap_setof(&self) -> (r: &Box<Vec<RuntimeVariableAbstractData<'a>>>)
        requires
            self is SetOf,
        ensures
            *self == RuntimeVariableAbstractData::SetOf(*r),
            self@ == ValueModel::SetOf(values(r@)),
    {
        match self {
            RuntimeVariableAbstractData::SetOf(e) => {
                assert(self@->SetOf_0 =~= values(e@));
                e
            },
            _ => vstd::pervasive::unreached(),
        }
    }

    pub fn tuple(&self) -> (r: Option<&Vec<RuntimeVariableAbstractData<'a>>>)
        ensures
            match r {
                Some(items) => *self == RuntimeVariableAbstractData::Tuple(*items) && self@
                    == ValueModel::Tuple(values(items@)),
                None => !(self is Tuple),
            },
    {
        match self {
            RuntimeVariableAbstractData::Tuple(e) => {
                assert(self@->Tuple_0 =~= values(e@));
                Some(e)
            },
            _ => None,
        }
    }

    pub fn unwrap_tuple(&self) -> (r: &Vec<RuntimeVariableAbstractData<'a>>)
        requires
            self is Tuple,
        ensures
            *self == RuntimeVariableAbstractData::Tuple(*r),
            self@ == ValueModel::Tuple(values(r@)),
    {
        match self {
            RuntimeVariableAbstractData::Tuple(e) => {
                assert(self@->Tuple_0 =~= values(e@));
                e
            },
            _ => vstd::pervasive::unreached(),
        }
    }
}

impl<'a> PartialEq for RuntimeVariableAbstractPrimitiveData<'a> {
    fn eq(&self, other: &Self) -> (r: bool) {
        self.same(other)
    }
}

impl<'a> vstd::std_specs::cmp::PartialEqSpecImpl for RuntimeVariableAbstractPrimitiveData<'a> {
    open spec fn obeys_eq_spec() -> bool {
        true
    }

    open spec fn eq_spec(&self, other: &Self) -> bool {
        self@ == other@
    }
}

impl<'a> Eq for RuntimeVariableAbstractPrimitiveData<'a> {

}

impl<'a> PartialEq for RuntimeVariableAbstractData<'a> {
    fn eq(&self, other: &Self) -> (r: bool) {
        self.same(other)
    }
}

impl<'a> vstd::std_specs::cmp::PartialEqSpecImpl for RuntimeVariableAbstractData<'a> {
    open spec fn obeys_eq_spec() -> bool {
        true
    }

    open spec fn eq_spec(&self, other: &Self) -> bool {
        self@ == other@
    }
}

impl<'a> Eq for RuntimeVariableAbstractData<'a> {

}

} // verus!
