//! Runtime values and the operators of the language on them.
use crate::bytecode::{clone_function, CompiledFunction, FunctionView};
use crate::number::{
    number_add, number_at_most, number_difference, number_divide, number_eq, number_equal,
    number_format, number_le, number_less, number_lt, number_multiply, number_negate,
    number_negation, number_product, number_quotient, number_subtract, number_sum, number_text,
};
use vstd::prelude::*;
use vstd::string::StringExecFns;

verus! {

/// The name of a heap cell as the arena hands it out.
#[derive(Clone, Copy, Debug, PartialEq, Eq, Structural)]
pub struct Handle {
    pub index: usize,
    pub generation: u64,
}

/// Why a program stopped before its end.
#[derive(Clone, Copy, Debug, PartialEq, Eq, Structural)]
pub enum RuntimeError {
    /// An instruction needed more values than the stack holds.
    StackUnderflow,
    /// A stack slot or a captured variable names a cell that is gone.
    DanglingCell,
    /// A local slot lies outside the stack.
    BadSlot,
    /// An index into the captured variables is out of range.
    BadUpvalue,
    /// A global variable was read before it was defined.
    UndefinedVariable,
    /// An operator was applied to values it is not defined on.
    TypeMismatch,
    /// A value that is not a closure was called.
    NotCallable,
    /// The heap cannot release any more cells.
    HeapExhausted,
}

/// A runtime value. A closure holds the cells of its captured variables.
#[derive(Debug)]
pub enum Value {
    Number(eq_float::F64),
    Boolean(bool),
    Nil,
    String(String),
    Closure { function: CompiledFunction, upvalues: Vec<Handle> },
}

/// A value as a mathematical object; `C` is what names a cell.
pub enum ValueView<C> {
    Number(eq_float::F64),
    Boolean(bool),
    Nil,
    String(Seq<char>),
    Closure { function: FunctionView, upvalues: Seq<C> },
}

impl View for Value {
    type V = ValueView<Handle>;

    open spec fn view(&self) -> ValueView<Handle> {
        match self {
            Value::Number(n) => ValueView::Number(*n),
            Value::Boolean(b) => ValueView::Boolean(*b),
            Value::Nil => ValueView::Nil,
            Value::String(s) => ValueView::String(s@),
            Value::Closure { function, upvalues } => ValueView::Closure {
                function: function@,
                upvalues: upvalues@,
            },
        }
    }
}

/// The message of an error.
pub open spec fn error_text(e: RuntimeError) -> Seq<char> {
    match e {
        RuntimeError::StackUnderflow => "stack underflow"@,
        RuntimeError::DanglingCell => "value is no longer alive"@,
        RuntimeError::BadSlot => "local slot out of range"@,
        RuntimeError::BadUpvalue => "captured variable out of range"@,
        RuntimeError::UndefinedVariable => "undefined variable"@,
        RuntimeError::TypeMismatch => "operands have the wrong type"@,
        RuntimeError::NotCallable => "can only call functions"@,
        RuntimeError::HeapExhausted => "heap exhausted"@,
    }
}

impl RuntimeError {
    /// The message that describes this error.
    pub fn message(&self) -> (r: String)
        ensures
            r@ == error_text(*self),
    {
        match self {
            RuntimeError::StackUnderflow => String::from_str("stack underflow"),
            RuntimeError::DanglingCell => String::from_str("value is no longer alive"),
            RuntimeError::BadSlot => String::from_str("local slot out of range"),
            RuntimeError::BadUpvalue => String::from_str("captured variable out of range"),
            RuntimeError::UndefinedVariable => String::from_str("undefined variable"),
            RuntimeError::TypeMismatch => String::from_str("operands have the wrong type"),
            RuntimeError::NotCallable => String::from_str("can only call functions"),
            RuntimeError::HeapExhausted => String::from_str("heap exhausted"),
        }
    }
}

/// `a + b`: the sum of two numbers or the concatenation of two strings.
pub open spec fn add_values<C>(a: ValueView<C>, b: ValueView<C>) -> Result<
    ValueView<C>,
    RuntimeError,
> {
    match (a, b) {
        (ValueView::Number(x), ValueView::Number(y)) => Ok(ValueView::Number(number_sum(x, y))),
        (ValueView::String(x), ValueView::String(y)) => Ok(ValueView::String(x + y)),
        _ => Err(RuntimeError::TypeMismatch),
    }
}

/// `a - b`, on numbers only.
pub open spec fn subtract_values<C>(a: ValueView<C>, b: ValueView<C>) -> Result<
    ValueView<C>,
    RuntimeError,
> {
    match (a, b) {
        (ValueView::Number(x), ValueView::Number(y)) => Ok(
            ValueView::Number(number_difference(x, y)),
        ),
        _ => Err(RuntimeError::TypeMismatch),
    }
}

/// `a * b`, on numbers only.
pub open spec fn multiply_values<C>(a: ValueView<C>, b: ValueView<C>) -> Result<
    ValueView<C>,
    RuntimeError,
> {
    match (a, b) {
        (ValueView::Number(x), ValueView::Number(y)) => Ok(
            ValueView::Number(number_product(x, y)),
        ),
        _ => Err(RuntimeError::TypeMismatch),
    }
}

/// `a / b`, on numbers only.
pub open spec fn divide_values<C>(a: ValueView<C>, b: ValueView<C>) -> Result<
    ValueView<C>,
    RuntimeError,
> {
    match (a, b) {
        (ValueView::Number(x), ValueView::Number(y)) => Ok(
            ValueView::Number(number_quotient(x, y)),
        ),
        _ => Err(RuntimeError::TypeMismatch),
    }
}

/// `-a`, on numbers only.
pub open spec fn negate_value<C>(a: ValueView<C>) -> Result<ValueView<C>, RuntimeError> {
    match a {
        ValueView::Number(x) => Ok(ValueView::Number(number_negation(x))),
        _ => Err(RuntimeError::TypeMismatch),
    }
}

/// `!a`, on booleans only.
pub open spec fn not_value<C>(a: ValueView<C>) -> Result<ValueView<C>, RuntimeError> {
    match a {
        ValueView::Boolean(x) => Ok(ValueView::Boolean(!x)),
        _ => Err(RuntimeError::TypeMismatch),
    }
}

/// `a == b`: numbers, booleans and nil compare by value; values of different
/// kinds, strings and closures are never equal.
pub open spec fn values_equal<C>(a: ValueView<C>, b: ValueView<C>) -> bool {
    match (a, b) {
        (ValueView::Number(x), ValueView::Number(y)) => number_equal(x, y),
        (ValueView::Boolean(x), ValueView::Boolean(y)) => x == y,
        (ValueView::Nil, ValueView::Nil) => true,
        _ => false,
    }
}

/// `a < b`: false unless both are numbers.
pub open spec fn value_less<C>(a: ValueView<C>, b: ValueView<C>) -> bool {
    match (a, b) {
        (ValueView::Number(x), ValueView::Number(y)) => number_less(x, y),
        _ => false,
    }
}

/// `a <= b`: false unless both are numbers.
pub open spec fn value_at_most<C>(a: ValueView<C>, b: ValueView<C>) -> bool {
    match (a, b) {
        (ValueView::Number(x), ValueView::Number(y)) => number_at_most(x, y),
        _ => false,
    }
}

/// Whether a conditional jump is taken on `a`: only on the boolean false.
pub open spec fn value_is_false<C>(a: ValueView<C>) -> bool {
    a == ValueView::<C>::Boolean(false)
}

/// The line that `print` writes for a value.
pub open spec fn value_text<C>(a: ValueView<C>) -> Seq<char> {
    match a {
        ValueView::Number(x) => number_text(x),
        ValueView::Boolean(b) => if b {
            "true"@
        } else {
            "false"@
        },
        ValueView::Nil => "nil"@,
        ValueView::String(s) => s,
        ValueView::Closure { function, upvalues } => "<func "@ + function.name + ">"@,
    }
}

impl Clone for Value {
    fn clone(&self) -> (r: Self)
        ensures
            r@ == self@,
    {
        match self {
            Value::Number(n) => Value::Number(*n),
            Value::Boolean(b) => Value::Boolean(*b),
            Value::Nil => Value::Nil,
            Value::String(s) => Value::String(s.clone()),
            Value::Closure { function, upvalues } => {
                let f = clone_function(function);
                let u = upvalues.clone();
                assert(u@ =~= upvalues@);
                Value::Closure { function: f, upvalues: u }
            },
        }
    }
}

impl PartialEq for Value {
    /// The `==` of the language, which holds of no string and of no closure.
    fn eq(&self, other: &Self) -> (r: bool) {
        self.equals(other)
    }
}

impl vstd::std_specs::cmp::PartialEqSpecImpl for Value {
    open spec fn obeys_eq_spec() -> bool {
        true
    }

    open spec fn eq_spec(&self, other: &Self) -> bool {
        values_equal(self@, other@)
    }
}

impl From<bool> for Value {
    fn from(b: bool) -> (r: Self) {
        Value::Boolean(b)
    }
}

impl vstd::std_specs::convert::FromSpecImpl<bool> for Value {
    open spec fn obeys_from_spec() -> bool {
        true
    }

    open spec fn from_spec(b: bool) -> Self {
        Value::Boolean(b)
    }
}

impl From<String> for Value {
    fn from(s: String) -> (r: Self) {
        Value::String(s)
    }
}

impl vstd::std_specs::convert::FromSpecImpl<String> for Value {
    open spec fn obeys_from_spec() -> bool {
        true
    }

    open spec fn from_spec(s: String) -> Self {
        Value::String(s)
    }
}

impl From<eq_float::F64> for Value {
    fn from(n: eq_float::F64) -> (r: Self) {
        Value::Number(n)
    }
}

impl vstd::std_specs::convert::FromSpecImpl<eq_float::F64> for Value {
    open spec fn obeys_from_spec() -> bool {
        true
    }

    open spec fn from_spec(n: eq_float::F64) -> Self {
        Value::Number(n)
    }
}

impl Value {
    pub fn add(&self, rhs: &Value) -> (r: Result<Value, RuntimeError>)
        ensures
            match r {
                Ok(v) => add_values(self@, rhs@) == Ok::<_, RuntimeError>(v@),
                Err(e) => add_values(self@, rhs@) == Err::<ValueView<Handle>, _>(e),
            },
    {
        match (self, rhs) {
            (Value::Number(a), Value::Number(b)) => Ok(Value::Number(number_add(*a, *b))),
            (Value::String(a), Value::String(b)) => {
                let s = a.clone().concat(b.as_str());
                Ok(Value::String(s))
            },
            _ => Err(RuntimeError::TypeMismatch),
        }
    }

    pub fn sub(&self, rhs: &Value) -> (r: Result<Value, RuntimeError>)
        ensures
            match r {
                Ok(v) => subtract_values(self@, rhs@) == Ok::<_, RuntimeError>(v@),
                Err(e) => subtract_values(self@, rhs@) == Err::<ValueView<Handle>, _>(e),
            },
    {
        match (self, rhs) {
            (Value::Number(a), Value::Number(b)) => Ok(Value::Number(number_subtract(*a, *b))),
            _ => Err(RuntimeError::TypeMismatch),
        }
    }

    pub fn mul(&self, rhs: &Value) -> (r: Result<Value, RuntimeError>)
        ensures
            match r {
                Ok(v) => multiply_values(self@, rhs@) == Ok::<_, RuntimeError>(v@),
                Err(e) => multiply_values(self@, rhs@) == Err::<ValueView<Handle>, _>(e),
            },
    {
        match (self, rhs) {
            (Value::Number(a), Value::Number(b)) => Ok(Value::Number(number_multiply(*a, *b))),
            _ => Err(RuntimeError::TypeMismatch),
        }
    }

    pub fn div(&self, rhs: &Value) -> (r: Result<Value, RuntimeError>)
        ensures
            match r {
                Ok(v) => divide_values(self@, rhs@) == Ok::<_, RuntimeError>(v@),
                Err(e) => divide_values(self@, rhs@) == Err::<ValueView<Handle>, _>(e),
            },
    {
        match (self, rhs) {
            (Value::Number(a), Value::Number(b)) => Ok(Value::Number(number_divide(*a, *b))),
            _ => Err(RuntimeError::TypeMismatch),
        }
    }

    pub fn neg(&self) -> (r: Result<Value, RuntimeError>)
        ensures
            match r {
                Ok(v) => negate_value(self@) == Ok::<_, RuntimeError>(v@),
                Err(e) => negate_value(self@) == Err::<ValueView<Handle>, _>(e),
            },
    {
        match self {
            Value::Number(a) => Ok(Value::Number(number_negate(*a))),
            _ => Err(RuntimeError::TypeMismatch),
        }
    }

    pub fn not(&self) -> (r: Result<Value, RuntimeError>)
        ensures
            match r {
                Ok(v) => not_value(self@) == Ok::<_, RuntimeError>(v@),
                Err(e) => not_value(self@) == Err::<ValueView<Handle>, _>(e),
            },
    {
        match self {
            Value::Boolean(a) => Ok(Value::Boolean(!*a)),
            _ => Err(RuntimeError::TypeMismatch),
        }
    }

    /// The `==` of the language.
    pub fn equals(&self, other: &Value) -> (r: bool)
        ensures
            r == values_equal(self@, other@),
    {
        match (self, other) {
            (Value::Number(a), Value::Number(b)) => number_eq(*a, *b),
            (Value::Boolean(a), Value::Boolean(b)) => *a == *b,
            (Value::Nil, Value::Nil) => true,
            _ => false,
        }
    }

    /// The `<` of the language.
    pub fn less(&self, other: &Value) -> (r: bool)
        ensures
            r == value_less(self@, other@),
    {
        match (self, other) {
            (Value::Number(a), Value::Number(b)) => number_lt(*a, *b),
            _ => false,
        }
    }

    /// The `<=` of the language.
    pub fn at_most(&self, other: &Value) -> (r: bool)
        ensures
            r == value_at_most(self@, other@),
    {
        match (self, other) {
            (Value::Number(a), Value::Number(b)) => number_le(*a, *b),
            _ => false,
        }
    }

    /// Whether a conditional jump is taken on this value.
    pub fn is_false(&self) -> (r: bool)
        ensures
            r == value_is_false(self@),
    {
        match self {
            Value::Boolean(b) => !*b,
            _ => false,
        }
    }

    /// The line that `print` writes for this value.
    pub fn to_text(&self) -> (r: String)
        ensures
            r@ == value_text(self@),
    {
        match self {
            Value::Number(n) => number_format(*n),
            Value::Boolean(b) => {
                if *b {
                    String::from_str("true")
                } else {
                    String::from_str("false")
                }
            },
            Value::Nil => String::from_str("nil"),
            Value::String(s) => s.clone(),
            Value::Closure { function, upvalues } => {
                let mut s = String::from_str("<func ");
                s.append(function.name.as_str());
                s.append(">");
                s
            },
        }
    }
}

} // verus!
