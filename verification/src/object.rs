//! Runtime values.

use std::rc::Rc;
use vstd::prelude::*;
use crate::ast::{BlockStatement, BlockView};
use crate::text::{integer_text, integer_to_string, join, joined, texts};

verus! {

/// A handle on a scope of an environment.
pub type Env = usize;

/// A function value: parameter names, a body, and the scope in which the
/// function literal was evaluated.
#[derive(Debug)]
pub struct FunctionObject {
    pub parameters: Vec<String>,
    pub body: Rc<BlockStatement>,
    pub env: Env,
}

/// A runtime value.
#[derive(Debug)]
pub enum Object {
    Integer(i64),
    Boolean(bool),
    Null,
    ReturnValue(Box<Object>),
    Function(FunctionObject),
    Error(String),
}

/// What a runtime value is, as a mathematical value.
pub enum ObjectView {
    Integer(i64),
    Boolean(bool),
    Null,
    ReturnValue(Box<ObjectView>),
    Function { parameters: Seq<Seq<char>>, body: BlockView, env: nat },
    Error(Seq<char>),
}

/// The value of a runtime value.
pub open spec fn object_view(o: Object) -> ObjectView
    decreases o,
{
    match o {
        Object::Integer(v) => ObjectView::Integer(v),
        Object::Boolean(v) => ObjectView::Boolean(v),
        Object::Null => ObjectView::Null,
        Object::ReturnValue(inner) => ObjectView::ReturnValue(Box::new(object_view(*inner))),
        Object::Function(f) => ObjectView::Function {
            parameters: texts(f.parameters@),
            body: (*f.body)@,
            env: f.env as nat,
        },
        Object::Error(message) => ObjectView::Error(message@),
    }
}

impl View for Object {
    type V = ObjectView;

    open spec fn view(&self) -> ObjectView {
        object_view(*self)
    }
}

/// The values of a list of runtime values.
pub open spec fn object_views(list: Seq<Object>) -> Seq<ObjectView> {
    Seq::new(list.len(), |i: int| list[i]@)
}

/// The name of a value's type in error messages.
pub open spec fn type_label(o: ObjectView) -> Seq<char> {
    match o {
        ObjectView::Integer(_) => "INTEGER"@,
        ObjectView::Boolean(_) => "BOOLEAN"@,
        ObjectView::Null => "NULL"@,
        ObjectView::ReturnValue(_) => "RETURN_VALUE"@,
        ObjectView::Function { .. } => "FUNCTION"@,
        ObjectView::Error(_) => "ERROR"@,
    }
}

/// The canonical text of a value: integers in decimal, booleans as `true`
/// and `false`, the null value as `null`, a function by its parameters, an
/// error by its message behind `ERROR: `, and a returned value as the value
/// it carries.
pub open spec fn object_text(o: ObjectView) -> Seq<char>
    decreases o,
{
    match o {
        ObjectView::Integer(v) => integer_text(v as int),
        ObjectView::Boolean(v) => if v {
            "true"@
        } else {
            "false"@
        },
        ObjectView::Null => "null"@,
        ObjectView::ReturnValue(inner) => object_text(*inner),
        ObjectView::Function { parameters, .. } => "fn("@ + joined(parameters, ", "@)
            + ") { ... }"@,
        ObjectView::Error(message) => "ERROR: "@ + message,
    }
}

/// Shares a function body.
///
/// Trusted: stands for `Rc::clone` of the standard library, which yields
/// another pointer to the same allocation, so that both hold the same block.
#[verifier::external_body]
pub(crate) fn share(body: &Rc<BlockStatement>) -> (r: Rc<BlockStatement>)
    ensures
        r == *body,
{
    Rc::clone(body)
}

/// Copies a list of strings.
pub fn clone_strings(list: &Vec<String>) -> (r: Vec<String>)
    ensures
        texts(r@) == texts(list@),
{
    let mut r: Vec<String> = Vec::new();
    let mut i: usize = 0;
    while i < list.len()
        invariant
            0 <= i <= list.len(),
            r@.len() == i,
            forall|k: int| 0 <= k < i ==> (#[trigger] r@[k])@ == list@[k]@,
        decreases list.len() - i,
    {
        r.push(list[i].clone());
        i = i + 1;
    }
    proof {
        assert(texts(r@) =~= texts(list@));
    }
    r
}

/// Copies a value; a function's body is shared, not copied.
pub fn clone_object(o: &Object) -> (r: Object)
    ensures
        r@ == o@,
    decreases o,
{
    match o {
        Object::Integer(v) => Object::Integer(*v),
        Object::Boolean(v) => Object::Boolean(*v),
        Object::Null => Object::Null,
        Object::ReturnValue(inner) => Object::ReturnValue(Box::new(clone_object(inner))),
        Object::Function(f) => Object::Function(
            FunctionObject {
                parameters: clone_strings(&f.parameters),
                body: share(&f.body),
                env: f.env,
            },
        ),
        Object::Error(message) => Object::Error(message.clone()),
    }
}

impl Clone for FunctionObject {
    fn clone(&self) -> (r: Self)
        ensures
            texts(r.parameters@) == texts(self.parameters@),
            r.body == self.body,
            r.env == self.env,
    {
        FunctionObject {
            parameters: clone_strings(&self.parameters),
            body: share(&self.body),
            env: self.env,
        }
    }
}

impl Clone for Object {
    fn clone(&self) -> (r: Self)
        ensures
            r@ == self@,
    {
        clone_object(self)
    }
}

/// The name of a value's type in error messages.
pub fn object_type(obj: &Object) -> (r: &'static str)
    ensures
        r@ == type_label(obj@),
{
    match obj {
        Object::Integer(_) => "INTEGER",
        Object::Boolean(_) => "BOOLEAN",
        Object::Null => "NULL",
        Object::ReturnValue(_) => "RETURN_VALUE",
        Object::Function(_) => "FUNCTION",
        Object::Error(_) => "ERROR",
    }
}

impl Object {
    /// The canonical text of the value.
    pub fn to_string(&self) -> (r: String)
        ensures
            r@ == object_text(self@),
        decreases self,
    {
        match self {
            Object::Integer(v) => integer_to_string(*v),
            Object::Boolean(v) => if *v {
                String::from_str("true")
            } else {
                String::from_str("false")
            },
            Object::Null => String::from_str("null"),
            Object::ReturnValue(inner) => inner.to_string(),
            Object::Function(f) => String::from_str("fn(").concat(
                join(&f.parameters, ", ").as_str(),
            ).concat(") { ... }"),
            Object::Error(message) => String::from_str("ERROR: ").concat(message.as_str()),
        }
    }
}

} // verus!
