//! The algebraic types of the query language, their equality and the two
//! inference operators that combine the operand types of `|` and `&`.

use vstd::prelude::*;

verus! {

/// The primitive kinds a value can have.
#[derive(PartialEq, Eq, Structural, Clone, Copy, Debug)]
pub enum SemanticPrimitiveType {
    Article,
    Category,
    Integer,
    String,
    Boolean,
}

/// The first-class functions that can be named as an argument.
#[derive(PartialEq, Eq, Structural, Clone, Copy, Debug)]
pub enum SemanticFunctionType {
    Category,
    Select,
    Redirect,
    UnwrapTuple1,
    UnwrapTuple2,
    CmpArray,
    CmpTuple1,
    CmpTuple2,
}

/// The type of an expression.
///
/// `Void` is the bottom type; inside a container it also stands for the
/// element type of an empty generic container.
#[derive(Debug)]
pub enum SemanticType {
    Void,
    Primitive(SemanticPrimitiveType),
    Array(Box<SemanticType>),
    SetOf(Box<SemanticType>),
    Tuple(Vec<Box<SemanticType>>),
    Function(SemanticFunctionType),
}

/// The mathematical value of a [`SemanticType`].
pub enum TypeModel {
    Void,
    Primitive(SemanticPrimitiveType),
    Array(Box<TypeModel>),
    SetOf(Box<TypeModel>),
    Tuple(Seq<TypeModel>),
    Function(SemanticFunctionType),
}

/// Why two types could not be combined, or why a call is ill-typed.
#[derive(Debug)]
#[allow(inconsistent_fields)]
pub enum SemanticError {
    /// No builtin has this name.
    FunctionNotFound { name: String },
    /// The builtin is reserved and has no signature yet.
    NotImplemented { name: String },
    /// The call has `found` arguments where the builtin takes `expected`.
    ArityMismatch { name: String, expected: usize, found: usize },
    /// The argument at `position` (counted from 1) has type `found`, which
    /// does not match `expected`; a `Void` inside `expected` stands for any
    /// type.
    ParameterMismatch {
        name: String,
        position: usize,
        expected: SemanticType,
        found: SemanticType,
    },
    /// The argument at `position` (counted from 1) has type `found`, where
    /// the builtin takes a function reference.
    FunctionExpected { name: String, position: usize, found: SemanticType },
    /// The builtin takes an array of primitives, and the elements of the
    /// array it was given have type `found`.
    ElementNotPrimitive { name: String, found: SemanticType },
    /// A first-class function was applied to fewer operands than it takes.
    OperandMissing { function: SemanticFunctionType, expected: usize },
    /// A first-class function was applied to an operand it does not accept.
    OperandMismatch { function: SemanticFunctionType, found: SemanticType },
    /// The comparator handed to `sort` returns `found`, not an integer.
    ComparatorMismatch { found: SemanticType },
    /// The operands of `|` do not combine.
    CannotConcat { left: SemanticType, right: SemanticType },
    /// The operands of `&` do not combine.
    CannotIntercross { left: SemanticType, right: SemanticType },
    /// The command as a whole is a function reference, not a value.
    FunctionAsValue { function: SemanticFunctionType },
}

/// The mathematical value of a [`SemanticError`].
#[allow(inconsistent_fields)]
pub enum SemanticErrorModel {
    FunctionNotFound { name: Seq<char> },
    NotImplemented { name: Seq<char> },
    ArityMismatch { name: Seq<char>, expected: nat, found: nat },
    ParameterMismatch { name: Seq<char>, position: nat, expected: TypeModel, found: TypeModel },
    FunctionExpected { name: Seq<char>, position: nat, found: TypeModel },
    ElementNotPrimitive { name: Seq<char>, found: TypeModel },
    OperandMissing { function: SemanticFunctionType, expected: nat },
    OperandMismatch { function: SemanticFunctionType, found: TypeModel },
    ComparatorMismatch { found: TypeModel },
    CannotConcat { left: TypeModel, right: TypeModel },
    CannotIntercross { left: TypeModel, right: TypeModel },
    FunctionAsValue { function: SemanticFunctionType },
}

/// What type inference yields: a type, or the first error met.
pub type Typing = Result<TypeModel, SemanticErrorModel>;

/// Structural equality of types: `Void` equals only `Void`, primitives are
/// equal when they are the same primitive, containers when their element
/// types are equal, tuples when they have the same arity and are pointwise
/// equal, function references when they name the same function.
pub open spec fn type_equal(a: TypeModel, b: TypeModel) -> bool
    decreases a,
{
    match a {
        TypeModel::Void => b is Void,
        TypeModel::Primitive(p) => b matches TypeModel::Primitive(q) && p == q,
        TypeModel::Array(t) => b matches TypeModel::Array(u) && type_equal(*t, *u),
        TypeModel::SetOf(t) => b matches TypeModel::SetOf(u) && type_equal(*t, *u),
        TypeModel::Tuple(ts) => b matches TypeModel::Tuple(us) && ts.len() == us.len() && forall|
            i: int,
        |
            0 <= i < ts.len() ==> type_equal(#[trigger] ts[i], us[i]),
        TypeModel::Function(f) => b matches TypeModel::Function(g) && f == g,
    }
}

/// The type of the primitive `p`.
pub open spec fn primitive(p: SemanticPrimitiveType) -> TypeModel {
    TypeModel::Primitive(p)
}

/// The type of arrays of `element`.
pub open spec fn array_of(element: TypeModel) -> TypeModel {
    TypeModel::Array(Box::new(element))
}

/// The type of sets of `element`.
pub open spec fn set_of(element: TypeModel) -> TypeModel {
    TypeModel::SetOf(Box::new(element))
}

/// The type of tuples of a `first` and a `second`.
pub open spec fn pair_of(first: TypeModel, second: TypeModel) -> TypeModel {
    TypeModel::Tuple(seq![first, second])
}

/// The element type `inner` of a container accepts a primitive `p` when the
/// container is still generic or already holds that primitive.
pub open spec fn element_accepts(inner: TypeModel, p: SemanticPrimitiveType) -> bool {
    inner is Void || inner == TypeModel::Primitive(p)
}

/// The type of `left | right`.
pub open spec fn concat_type(left: TypeModel, right: TypeModel) -> Typing {
    let mismatch = Err(SemanticErrorModel::CannotConcat { left, right });
    match left {
        TypeModel::Void => Ok(right),
        TypeModel::Primitive(p) => match right {
            TypeModel::Void => Ok(TypeModel::Void),
            TypeModel::Primitive(q) => if p == q {
                Ok(left)
            } else {
                mismatch
            },
            TypeModel::Array(u) => if element_accepts(*u, p) {
                Ok(right)
            } else {
                mismatch
            },
            TypeModel::SetOf(u) => if element_accepts(*u, p) {
                Ok(right)
            } else {
                mismatch
            },
            _ => mismatch,
        },
        TypeModel::Array(t) => match right {
            TypeModel::Void => Ok(left),
            TypeModel::Primitive(q) => if element_accepts(*t, q) {
                Ok(left)
            } else {
                mismatch
            },
            TypeModel::Array(u) => if type_equal(*t, *u) {
                Ok(left)
            } else {
                mismatch
            },
            _ => mismatch,
        },
        TypeModel::SetOf(t) => match right {
            TypeModel::Void => Ok(left),
            TypeModel::Primitive(q) => if element_accepts(*t, q) {
                Ok(left)
            } else {
                mismatch
            },
            TypeModel::SetOf(u) => if type_equal(*t, *u) {
                Ok(left)
            } else {
                mismatch
            },
            _ => mismatch,
        },
        TypeModel::Tuple(_) => if type_equal(left, right) {
            Ok(TypeModel::Array(Box::new(left)))
        } else {
            mismatch
        },
        TypeModel::Function(_) => mismatch,
    }
}

/// The type of `left & right`: two arrays, or two sets, of equal element
/// type intercross to that same type; nothing else intercrosses.
pub open spec fn intercross_type(left: TypeModel, right: TypeModel) -> Typing {
    let mismatch = Err(SemanticErrorModel::CannotIntercross { left, right });
    match left {
        TypeModel::Array(t) => if right matches TypeModel::Array(u) && type_equal(*t, *u) {
            Ok(left)
        } else {
            mismatch
        },
        TypeModel::SetOf(t) => if right matches TypeModel::SetOf(u) && type_equal(*t, *u) {
            Ok(left)
        } else {
            mismatch
        },
        _ => mismatch,
    }
}

impl SemanticType {
    /// The mathematical value of this type.
    pub open spec fn model(&self) -> TypeModel
        decreases self,
    {
        match self {
            SemanticType::Void => TypeModel::Void,
            SemanticType::Primitive(p) => TypeModel::Primitive(*p),
            SemanticType::Array(e) => TypeModel::Array(Box::new(e.model())),
            SemanticType::SetOf(e) => TypeModel::SetOf(Box::new(e.model())),
            SemanticType::Tuple(es) => TypeModel::Tuple(
                Seq::new(
                    es.len() as nat,
                    |i: int|
                        if 0 <= i < es.len() {
                            es[i].model()
                        } else {
                            TypeModel::Void
                        },
                ),
            ),
            SemanticType::Function(f) => TypeModel::Function(*f),
        }
    }
}

impl View for SemanticType {
    type V = TypeModel;

    open spec fn view(&self) -> TypeModel {
        self.model()
    }
}

impl View for SemanticError {
    type V = SemanticErrorModel;

    open spec fn view(&self) -> SemanticErrorModel {
        match self {
            SemanticError::FunctionNotFound { name } => SemanticErrorModel::FunctionNotFound {
                name: name@,
            },
            SemanticError::NotImplemented { name } => SemanticErrorModel::NotImplemented {
                name: name@,
            },
            SemanticError::ArityMismatch {
                name,
                expected,
                found,
            } => SemanticErrorModel::ArityMismatch {
                name: name@,
                expected: *expected as nat,
                found: *found as nat,
            },
            SemanticError::ParameterMismatch {
                name,
                position,
                expected,
                found,
            } => SemanticErrorModel::ParameterMismatch {
                name: name@,
                position: *position as nat,
                expected: expected@,
                found: found@,
            },
            SemanticError::FunctionExpected {
                name,
                position,
                found,
            } => SemanticErrorModel::FunctionExpected {
                name: name@,
                position: *position as nat,
                found: found@,
            },
            SemanticError::ElementNotPrimitive {
                name,
                found,
            } => SemanticErrorModel::ElementNotPrimitive { name: name@, found: found@ },
            SemanticError::OperandMissing {
                function,
                expected,
            } => SemanticErrorModel::OperandMissing {
                function: *function,
                expected: *expected as nat,
            },
            SemanticError::OperandMismatch {
                function,
                found,
            } => SemanticErrorModel::OperandMismatch { function: *function, found: found@ },
            SemanticError::ComparatorMismatch { found } => SemanticErrorModel::ComparatorMismatch {
                found: found@,
            },
            SemanticError::CannotConcat { left, right } => SemanticErrorModel::CannotConcat {
                left: left@,
                right: right@,
            },
            SemanticError::CannotIntercross {
                left,
                right,
            } => SemanticErrorModel::CannotIntercross { left: left@, right: right@ },
            SemanticError::FunctionAsValue { function } => SemanticErrorModel::FunctionAsValue {
                function: *function,
            },
        }
    }
}

/// The mathematical value of an inference result.
pub open spec fn typing_of(r: Result<SemanticType, SemanticError>) -> Typing {
    match r {
        Ok(t) => Ok(t@),
        Err(e) => Err(e@),
    }
}

impl Clone for SemanticType {
    #[verifier::loop_isolation(false)]
    fn clone(&self) -> (res: Self)
        ensures
            res@ == self@,
        decreases self,
    {
        match self {
            SemanticType::Void => SemanticType::Void,
            SemanticType::Primitive(p) => SemanticType::Primitive(*p),
            SemanticType::Array(e) => SemanticType::Array(Box::new((&**e).clone())),
            SemanticType::SetOf(e) => SemanticType::SetOf(Box::new((&**e).clone())),
            SemanticType::Tuple(es) => {
                let mut out: Vec<Box<SemanticType>> = Vec::new();
                let mut i: usize = 0;
                while i < es.len()
                    invariant
                        0 <= i <= es.len(),
                        out.len() == i,
                        forall|j: int| 0 <= j < i ==> out[j]@ == es[j]@,
                    decreases es.len() - i,
                {
                    out.push(Box::new((&*es[i]).clone()));
                    i += 1;
                }
                let res = SemanticType::Tuple(out);
                assert(res@->Tuple_0 =~= self@->Tuple_0);
                res
            },
            SemanticType::Function(f) => SemanticType::Function(*f),
        }
    }
}

impl SemanticType {
    /// The type of the primitive `p`.
    pub fn primitive(p: SemanticPrimitiveType) -> (r: SemanticType)
        ensures
            r@ == primitive(p),
    {
        SemanticType::Primitive(p)
    }

    /// The type of arrays of `element`.
    pub fn array_of(element: SemanticType) -> (r: SemanticType)
        ensures
            r@ == array_of(element@),
    {
        SemanticType::Array(Box::new(element))
    }

    /// The type of sets of `element`.
    pub fn set_of(element: SemanticType) -> (r: SemanticType)
        ensures
            r@ == set_of(element@),
    {
        SemanticType::SetOf(Box::new(element))
    }

    /// The type of tuples of a `first` and a `second`.
    pub fn pair_of(first: SemanticType, second: SemanticType) -> (r: SemanticType)
        ensures
            r@ == pair_of(first@, second@),
    {
        let mut parts: Vec<Box<SemanticType>> = Vec::new();
        parts.push(Box::new(first));
        parts.push(Box::new(second));
        let r = SemanticType::Tuple(parts);
        assert(r@->Tuple_0 =~= seq![first@, second@]);
        r
    }

    /// Whether two types are structurally equal.
    #[verifier::loop_isolation(false)]
    pub fn eq(&self, other: &SemanticType) -> (r: bool)
        ensures
            r == type_equal(self@, other@),
        decreases self,
    {
        match self {
            SemanticType::Void => matches!(other, SemanticType::Void),
            SemanticType::Primitive(e) => match other {
                SemanticType::Primitive(o) => *e == *o,
                _ => false,
            },
            SemanticType::Array(e) => match other {
                SemanticType::Array(o) => e.eq(o),
                _ => false,
            },
            SemanticType::SetOf(e) => match other {
                SemanticType::SetOf(o) => e.eq(o),
                _ => false,
            },
            SemanticType::Tuple(e) => match other {
                SemanticType::Tuple(o) => {
                    if e.len() != o.len() {
                        return false;
                    }
                    let mut i: usize = 0;
                    while i < e.len()
                        invariant
                            0 <= i <= e.len(),
                            forall|j: int| 0 <= j < i ==> type_equal(e[j]@, o[j]@),
                        decreases e.len() - i,
                    {
                        if !e[i].eq(&o[i]) {
                            assert(!type_equal(
                                self@->Tuple_0[i as int],
                                other@->Tuple_0[i as int],
                            ));
                            return false;
                        }
                        i += 1;
                    }
                    true
                },
                _ => false,
            },
            SemanticType::Function(e) => match other {
                SemanticType::Function(o) => *e == *o,
                _ => false,
            },
        }
    }

    /// Whether this type is the primitive `p`, or `Void`.
    fn accepts(&self, p: SemanticPrimitiveType) -> (r: bool)
        ensures
            r == element_accepts(self@, p),
    {
        match self {
            SemanticType::Void => true,
            SemanticType::Primitive(q) => *q == p,
            _ => false,
        }
    }

    /// The error of a failed `|`.
    fn concat_error(&self, other: &SemanticType) -> (r: Result<SemanticType, SemanticError>)
        ensures
            typing_of(r) == Err::<TypeModel, _>(
                SemanticErrorModel::CannotConcat { left: self@, right: other@ },
            ),
    {
        Err(SemanticError::CannotConcat { left: self.clone(), right: other.clone() })
    }

    /// The error of a failed `&`.
    fn intercross_error(&self, other: &SemanticType) -> (r: Result<SemanticType, SemanticError>)
        ensures
            typing_of(r) == Err::<TypeModel, _>(
                SemanticErrorModel::CannotIntercross { left: self@, right: other@ },
            ),
    {
        Err(SemanticError::CannotIntercross { left: self.clone(), right: other.clone() })
    }

    /// The type of the union `self | other`.
    pub fn infer_concat(&self, other: &SemanticType) -> (r: Result<SemanticType, SemanticError>)
        ensures
            typing_of(r) == concat_type(self@, other@),
    {
        match self {
            SemanticType::Void => Ok(other.clone()),
            SemanticType::Primitive(e) => match other {
                SemanticType::Void => Ok(SemanticType::Void),
                SemanticType::Primitive(p) => {
                    if *e == *p {
                        Ok(self.clone())
                    } else {
                        self.concat_error(other)
                    }
                },
                SemanticType::Array(o) => {
                    if o.accepts(*e) {
                        Ok(other.clone())
                    } else {
                        self.concat_error(other)
                    }
                },
                SemanticType::SetOf(o) => {
                    if o.accepts(*e) {
                        Ok(other.clone())
                    } else {
                        self.concat_error(other)
                    }
                },
                SemanticType::Tuple(_) => self.concat_error(other),
                SemanticType::Function(_) => self.concat_error(other),
            },
            SemanticType::Array(e) => match other {
                SemanticType::Void => Ok(self.clone()),
                SemanticType::Primitive(p) => {
                    if e.accepts(*p) {
                        Ok(self.clone())
                    } else {
                        self.concat_error(other)
                    }
                },
                SemanticType::Array(o) => {
                    if e.eq(o) {
                        Ok(self.clone())
                    } else {
                        self.concat_error(other)
                    }
                },
                _ => self.concat_error(other),
            },
            SemanticType::SetOf(e) => match other {
                SemanticType::Void => Ok(self.clone()),
                SemanticType::Primitive(p) => {
                    if e.accepts(*p) {
                        Ok(self.clone())
                    } else {
                        self.concat_error(other)
                    }
                },
                SemanticType::SetOf(o) => {
                    if e.eq(o) {
                        Ok(self.clone())
                    } else {
                        self.concat_error(other)
                    }
                },
                _ => self.concat_error(other),
            },
            SemanticType::Tuple(_) => {
                if self.eq(other) {
                    Ok(SemanticType::Array(Box::new(self.clone())))
                } else {
                    self.concat_error(other)
                }
            },
            SemanticType::Function(_) => self.concat_error(other),
        }
    }

    /// The type of the intersection `self & other`.
    pub fn infer_intercross(&self, other: &SemanticType) -> (r: Result<
        SemanticType,
        SemanticError,
    >)
        ensures
            typing_of(r) == intercross_type(self@, other@),
    {
        match self {
            SemanticType::Array(e) => match other {
                SemanticType::Array(o) => {
                    if e.eq(o) {
                        Ok(self.clone())
                    } else {
                        self.intercross_error(other)
                    }
                },
                _ => self.intercross_error(other),
            },
            SemanticType::SetOf(e) => match other {
                SemanticType::SetOf(o) => {
                    if e.eq(o) {
                        Ok(self.clone())
                    } else {
                        self.intercross_error(other)
                    }
                },
                _ => self.intercross_error(other),
            },
            _ => self.intercross_error(other),
        }
    }
}

/// Equality of types is equality of their mathematical values.
pub proof fn lemma_type_equal_is_equality(a: TypeModel, b: TypeModel)
    ensures
        type_equal(a, b) <==> a == b,
    decreases a,
{
    match a {
        TypeModel::Array(t) => {
            if let TypeModel::Array(u) = b {
                lemma_type_equal_is_equality(*t, *u);
            }
        },
        TypeModel::SetOf(t) => {
            if let TypeModel::SetOf(u) = b {
                lemma_type_equal_is_equality(*t, *u);
            }
        },
        TypeModel::Tuple(ts) => {
            if let TypeModel::Tuple(us) = b {
                if ts.len() == us.len() {
                    assert forall|i: int| 0 <= i < ts.len() implies (type_equal(
                        #[trigger] ts[i],
                        us[i],
                    ) <==> ts[i] == us[i]) by {
                        lemma_type_equal_is_equality(ts[i], us[i]);
                    }
                    if type_equal(a, b) {
                        assert(ts =~= us);
                    }
                }
            }
        },
        _ => {},
    }
}

/// Type equality is reflexive: every type equals itself.
pub proof fn lemma_type_equal_reflexive(a: TypeModel)
    ensures
        type_equal(a, a),
{
    lemma_type_equal_is_equality(a, a);
}

/// Type equality is symmetric.
pub proof fn lemma_type_equal_symmetric(a: TypeModel, b: TypeModel)
    ensures
        type_equal(a, b) == type_equal(b, a),
{
    lemma_type_equal_is_equality(a, b);
    lemma_type_equal_is_equality(b, a);
}

/// Type equality is transitive.
pub proof fn lemma_type_equal_transitive(a: TypeModel, b: TypeModel, c: TypeModel)
    requires
        type_equal(a, b),
        type_equal(b, c),
    ensures
        type_equal(a, c),
{
    lemma_type_equal_is_equality(a, b);
    lemma_type_equal_is_equality(b, c);
    lemma_type_equal_is_equality(a, c);
}

/// `Void` is a left identity of `|`: `Void | t` is `t`, whatever `t` is.
pub proof fn lemma_concat_void_left(t: TypeModel)
    ensures
        concat_type(TypeModel::Void, t) == Ok::<_, SemanticErrorModel>(t),
{
}

/// `Void` is a right identity of `|` on `Void` and on the containers:
/// `t | Void` is `t` when `t` is `Void`, an array or a set.
pub proof fn lemma_concat_void_right(t: TypeModel)
    requires
        t is Void || t is Array || t is SetOf,
    ensures
        concat_type(t, TypeModel::Void) == Ok::<_, SemanticErrorModel>(t),
{
}

/// An array type intercrossed with itself is that array type.
pub proof fn lemma_intercross_array_idempotent(t: TypeModel)
    ensures
        intercross_type(TypeModel::Array(Box::new(t)), TypeModel::Array(Box::new(t))) == Ok::<
            _,
            SemanticErrorModel,
        >(TypeModel::Array(Box::new(t))),
{
    lemma_type_equal_reflexive(t);
}

} // verus!
