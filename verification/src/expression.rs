//! The expression model: the closed set of values and terms of the language,
//! and the mathematical view that the contracts of this crate speak of.

use crate::exception::{Exception, ExceptionView};
use crate::list::ExprList;
use crate::quat::Quat;
use std::rc::Rc;
use vstd::prelude::*;
use vstd::string::StringExecFns;
use vstd::std_specs::convert::FromSpecImpl;

verus! {

/// A built-in function that is given its arguments evaluated.
#[derive(Clone, Copy, Debug)]
pub enum Intrinsic {
    /// Reads the field at this position of a struct.
    Field(usize),
    /// Tells whether a value is a struct of the type with this id.
    IsStruct(usize),
    /// `eval`: evaluates its one argument once more.
    Eval,
    /// `set!`: replaces the value that a bound symbol has.
    Assign,
    /// One of the functions on values that need neither the context nor
    /// the host's arithmetic.
    Pure(Builtin),
    /// `<`, `<=`, `>` and `>=`: compares two numbers.
    Compare(crate::numeric::Comparison),
    /// `quat`: makes a quaternion of four numbers.
    Quaternion,
    /// `parse`: reads an expression from a string.
    Parse,
    /// `string-concat`: writes its arguments out, one after the other.
    Concat,
    /// `format`: puts the values of the expressions between `#{` and `}`
    /// into a string.
    Format,
    /// `import`: reads a file through the host and evaluates what it
    /// holds.
    Import,
    /// `repeat`: calls a procedure a number of times.
    Repeat,
    /// An operation of the host, by the number under which it was
    /// registered.
    Native(usize),
}

/// The built-in functions on values.
#[derive(Clone, Copy, Debug)]
pub enum Builtin {
    And,
    Or,
    Not,
    Cons,
    Head,
    Tail,
    Append,
    Empty,
    Eq,
    TypeOf,
}

/// The special forms that are part of the language itself.
#[derive(Clone, Copy, Debug)]
pub enum SpecialForm {
    Define,
    Lambda,
    Env,
    If,
    Cond,
    Let,
    Try,
    DefineStruct,
    Begin,
    DefineSyntaxRule,
}

/// A pattern macro that a program defined: calls are matched against
/// `pattern`, and what the pattern's symbols matched is put into `body`.
#[derive(Debug)]
pub struct SyntaxRule {
    /// The macro's own name, which a call must repeat literally.
    pub name: String,
    /// The whole pattern, name included.
    pub pattern: Expression,
    /// The template that is filled in and evaluated.
    pub body: Expression,
}

/// A form that is given its arguments unevaluated.
#[derive(Debug)]
pub enum Macro {
    /// One of the language's own special forms.
    Form(SpecialForm),
    /// The constructor of a struct type: its name and number of fields.
    Construct(Rc<StructShape>),
    /// A pattern macro.
    Rule(Rc<SyntaxRule>),
}

/// What a struct constructor knows of its type.
#[derive(Debug)]
pub struct StructShape {
    /// The name of the struct type.
    pub name: String,
    /// How many fields an instance has.
    pub fields: usize,
}

/// What a lambda consists of.
#[derive(Debug)]
pub struct LambdaData {
    /// The parameters, each a symbol.
    pub params: ExprList,
    /// The body.
    pub body: Rc<Expression>,
    /// The bindings captured where the lambda was made, oldest first, no
    /// name twice. A list of pairs and no hash map: a value holds itself
    /// through this field, which `StringHashMap` does not admit for its
    /// values, and of a std map keyed by `String` Verus learns nothing.
    pub capture: Option<Vec<(String, Expression)>>,
}

/// The data stored by an instance of a struct type.
#[derive(Debug)]
pub struct StructData {
    /// The name of the struct type.
    pub name: String,
    /// The field values, in the order of the fields.
    pub data: Vec<Expression>,
}

/// Any value that may stand at the head of a call.
#[derive(Debug)]
pub enum Callable {
    /// `(quote x)` gives `x` unevaluated.
    Quote,
    /// `(quasiquote x)` gives `x` with its unquoted parts evaluated.
    Quasiquote,
    /// `(unquote x)` marks a part of a quasiquoted expression.
    Unquote,
    /// A function of the program, with what it captured.
    Lambda(Rc<LambdaData>),
    /// A built-in function.
    Intrinsic(Intrinsic),
    /// A form that receives its arguments unevaluated.
    Macro(Macro),
}

/// An expression of the language: both what is evaluated and what
/// evaluation gives.
#[derive(Debug)]
pub enum Expression {
    /// A truth value.
    Bool(bool),
    /// A number: an IEEE double, held as its 64 bits.
    Num(u64),
    /// A string.
    Str(String),
    /// A symbol, which evaluation looks up.
    Symbol(String),
    /// A list: a call when evaluated, a list value otherwise.
    Cons(ExprList),
    /// Something callable.
    Callable(Callable),
    /// An error, which is an ordinary value.
    Error(Rc<Exception>),
    /// An instance of a struct type.
    Struct(Rc<StructData>),
    /// A quaternion.
    Quaternion(Rc<Quat>),
}

/// The view of a [`SyntaxRule`].
pub struct RuleView {
    pub name: Seq<char>,
    pub pattern: Box<ExprView>,
    pub body: Box<ExprView>,
}

/// The view of a [`Macro`].
pub enum MacroView {
    Form(SpecialForm),
    Construct(Seq<char>, usize),
    Rule(RuleView),
}

/// The view of a [`LambdaData`].
pub struct LambdaView {
    pub params: Seq<ExprView>,
    pub body: Box<ExprView>,
    pub capture: Option<Seq<(Seq<char>, ExprView)>>,
}

/// The view of a [`StructData`].
pub struct StructView {
    pub name: Seq<char>,
    pub data: Seq<ExprView>,
}

/// The view of a [`Callable`].
pub enum CallableView {
    Quote,
    Quasiquote,
    Unquote,
    Lambda(LambdaView),
    Intrinsic(Intrinsic),
    Macro(MacroView),
}

/// The view of an [`Expression`]: the same tree with every string as a
/// sequence of characters and every list as a sequence.
pub enum ExprView {
    Bool(bool),
    Num(u64),
    Str(Seq<char>),
    Symbol(Seq<char>),
    Cons(Seq<ExprView>),
    Callable(CallableView),
    Error(ExceptionView),
    Struct(StructView),
    Quaternion(Quat),
}

/// The views of a sequence of expressions.
pub open spec fn views_of(s: Seq<Expression>) -> Seq<ExprView>
    decreases s,
{
    if s.len() == 0 {
        Seq::empty()
    } else {
        views_of(s.drop_last()).push(s.last()@)
    }
}

/// The views of a sequence of bindings.
pub open spec fn bindings_of(s: Seq<(String, Expression)>) -> Seq<(Seq<char>, ExprView)>
    decreases s,
{
    if s.len() == 0 {
        Seq::empty()
    } else {
        bindings_of(s.drop_last()).push((s.last().0@, s.last().1@))
    }
}

proof fn views_of_by_index(s: Seq<Expression>)
    ensures
        views_of(s).len() == s.len(),
        forall|i: int| 0 <= i < s.len() ==> #[trigger] views_of(s)[i] == s[i]@,
    decreases s.len(),
{
    if s.len() > 0 {
        views_of_by_index(s.drop_last());
        assert(views_of(s) == views_of(s.drop_last()).push(s.last()@));
    } else {
        assert(views_of(s) == Seq::<ExprView>::empty());
    }
}

proof fn bindings_of_by_index(s: Seq<(String, Expression)>)
    ensures
        bindings_of(s).len() == s.len(),
        forall|i: int| 0 <= i < s.len() ==> #[trigger] bindings_of(s)[i] == (s[i].0@, s[i].1@),
    decreases s.len(),
{
    if s.len() > 0 {
        bindings_of_by_index(s.drop_last());
        assert(bindings_of(s) == bindings_of(s.drop_last()).push((s.last().0@, s.last().1@)));
    } else {
        assert(bindings_of(s) == Seq::<(Seq<char>, ExprView)>::empty());
    }
}

/// The views of a sequence with one more item are the views of the
/// sequence with the view of the item.
pub proof fn lemma_views_of_push(s: Seq<Expression>, e: Expression)
    ensures
        views_of(s.push(e)) == views_of(s).push(e@),
{
    assert(s.push(e).drop_last() =~= s);
    assert(views_of(s.push(e)) == views_of(s.push(e).drop_last()).push(s.push(e).last()@));
}

/// `views_of` keeps the length and views each item in place.
pub broadcast proof fn lemma_views_of(s: Seq<Expression>)
    ensures
        #![trigger views_of(s)]
        views_of(s).len() == s.len(),
        forall|i: int| 0 <= i < s.len() ==> #[trigger] views_of(s)[i] == s[i]@,
{
    views_of_by_index(s);
}

/// `bindings_of` keeps the length and views each binding in place.
pub broadcast proof fn lemma_bindings_of(s: Seq<(String, Expression)>)
    ensures
        #![trigger bindings_of(s)]
        bindings_of(s).len() == s.len(),
        forall|i: int| 0 <= i < s.len() ==> #[trigger] bindings_of(s)[i] == (s[i].0@, s[i].1@),
{
    bindings_of_by_index(s);
}

impl View for SyntaxRule {
    type V = RuleView;

    open spec fn view(&self) -> RuleView
        decreases self,
    {
        RuleView { name: self.name@, pattern: Box::new(self.pattern@), body: Box::new(self.body@) }
    }
}

impl View for Macro {
    type V = MacroView;

    open spec fn view(&self) -> MacroView
        decreases self,
    {
        match self {
            Macro::Form(f) => MacroView::Form(*f),
            Macro::Construct(s) => MacroView::Construct(s.name@, s.fields),
            Macro::Rule(r) => MacroView::Rule((**r)@),
        }
    }
}

impl View for LambdaData {
    type V = LambdaView;

    open spec fn view(&self) -> LambdaView
        decreases self,
    {
        LambdaView {
            params: self.params@,
            body: Box::new((*self.body)@),
            capture: match self.capture {
                Some(c) => Some(bindings_of(c@)),
                None => None,
            },
        }
    }
}

impl View for StructData {
    type V = StructView;

    open spec fn view(&self) -> StructView
        decreases self,
    {
        StructView { name: self.name@, data: views_of(self.data@) }
    }
}

impl View for Callable {
    type V = CallableView;

    open spec fn view(&self) -> CallableView
        decreases self,
    {
        match self {
            Callable::Quote => CallableView::Quote,
            Callable::Quasiquote => CallableView::Quasiquote,
            Callable::Unquote => CallableView::Unquote,
            Callable::Lambda(l) => CallableView::Lambda((**l)@),
            Callable::Intrinsic(i) => CallableView::Intrinsic(*i),
            Callable::Macro(m) => CallableView::Macro(m@),
        }
    }
}

impl View for Expression {
    type V = ExprView;

    open spec fn view(&self) -> ExprView
        decreases self,
    {
        match self {
            Expression::Bool(b) => ExprView::Bool(*b),
            Expression::Num(n) => ExprView::Num(*n),
            Expression::Str(s) => ExprView::Str(s@),
            Expression::Symbol(s) => ExprView::Symbol(s@),
            Expression::Cons(l) => ExprView::Cons(l@),
            Expression::Callable(c) => ExprView::Callable(c@),
            Expression::Error(e) => ExprView::Error((**e)@),
            Expression::Struct(d) => ExprView::Struct((**d)@),
            Expression::Quaternion(q) => ExprView::Quaternion(**q),
        }
    }
}

} // verus!

verus! {

/// Another pointer to the value that `r` points to.
///
/// Trusted: `Rc::clone` raises the reference count and gives a pointer to
/// the same allocation, so both point to one value.
#[verifier::external_body]
pub(crate) fn share<T>(r: &Rc<T>) -> (s: Rc<T>)
    ensures
        s == *r,
{
    Rc::clone(r)
}

impl Clone for Macro {
    fn clone(&self) -> (r: Macro)
        ensures
            r@ == self@,
    {
        match self {
            Macro::Form(f) => Macro::Form(*f),
            Macro::Construct(s) => Macro::Construct(share(s)),
            Macro::Rule(rule) => Macro::Rule(share(rule)),
        }
    }
}

impl Clone for Callable {
    fn clone(&self) -> (r: Callable)
        ensures
            r@ == self@,
    {
        match self {
            Callable::Quote => Callable::Quote,
            Callable::Quasiquote => Callable::Quasiquote,
            Callable::Unquote => Callable::Unquote,
            Callable::Lambda(l) => Callable::Lambda(share(l)),
            Callable::Intrinsic(i) => Callable::Intrinsic(*i),
            Callable::Macro(m) => Callable::Macro(m.clone()),
        }
    }
}

impl Clone for Expression {
    /// A copy with the same view. Lists, lambdas, errors and structs are
    /// shared, not copied.
    fn clone(&self) -> (r: Expression)
        ensures
            r@ == self@,
    {
        match self {
            Expression::Bool(b) => Expression::Bool(*b),
            Expression::Num(n) => Expression::Num(*n),
            Expression::Str(s) => Expression::Str(s.clone()),
            Expression::Symbol(s) => Expression::Symbol(s.clone()),
            Expression::Cons(l) => Expression::Cons(l.clone()),
            Expression::Callable(c) => Expression::Callable(c.clone()),
            Expression::Error(e) => Expression::Error(share(e)),
            Expression::Struct(d) => Expression::Struct(share(d)),
            Expression::Quaternion(q) => Expression::Quaternion(share(q)),
        }
    }
}

/// The name of the type of a value.
pub open spec fn kind_name(e: ExprView) -> Seq<char> {
    match e {
        ExprView::Num(_) => "num"@,
        ExprView::Bool(_) => "bool"@,
        ExprView::Str(_) => "string"@,
        ExprView::Cons(_) => "cons"@,
        ExprView::Error(_) => "error"@,
        ExprView::Symbol(_) => "symbol"@,
        ExprView::Callable(_) => "procedure"@,
        ExprView::Struct(d) => d.name,
        ExprView::Quaternion(_) => "quaternion"@,
    }
}

/// Whether a name is one of the words that no definition may bind.
pub open spec fn is_reserved(name: Seq<char>) -> bool {
    name == "define"@ || name == "cond"@ || name == "lambda"@ || name == "if"@ || name == "let"@
}

/// Tells whether a value may be used as the name of a binding.
pub trait ValidIdentifier {
    /// Whether the value is a valid identifier.
    fn is_valid_identifier(&self) -> bool;
}

impl ValidIdentifier for String {
    /// Every string but the five reserved words.
    fn is_valid_identifier(&self) -> (r: bool)
        ensures
            r == !is_reserved(self@),
    {
        let s = self.as_str();
        !(crate::text::same_text(s, "define") || crate::text::same_text(s, "cond")
            || crate::text::same_text(s, "lambda") || crate::text::same_text(s, "if")
            || crate::text::same_text(s, "let"))
    }
}

impl ValidIdentifier for Expression {
    /// A symbol whose name is not reserved.
    fn is_valid_identifier(&self) -> (r: bool)
        ensures
            r == (self@ matches ExprView::Symbol(s) && !is_reserved(s)),
    {
        match self {
            Expression::Symbol(s) => s.is_valid_identifier(),
            _ => false,
        }
    }
}

impl Expression {
    /// The name of the value's type: `num`, `bool`, `string`, `cons`,
    /// `error`, `symbol`, `procedure`, `quaternion`, or the name of its
    /// struct type.
    pub fn type_of(&self) -> (r: String)
        ensures
            r@ == kind_name(self@),
    {
        match self {
            Expression::Num(_) => String::from_str("num"),
            Expression::Bool(_) => String::from_str("bool"),
            Expression::Str(_) => String::from_str("string"),
            Expression::Cons(_) => String::from_str("cons"),
            Expression::Error(_) => String::from_str("error"),
            Expression::Symbol(_) => String::from_str("symbol"),
            Expression::Callable(_) => String::from_str("procedure"),
            Expression::Struct(d) => d.name.clone(),
            Expression::Quaternion(_) => String::from_str("quaternion"),
        }
    }

    /// Whether the value is the empty list.
    pub fn is_nil(&self) -> (r: bool)
        ensures
            r == (self@ matches ExprView::Cons(l) && l.len() == 0),
    {
        match self {
            Expression::Cons(list) => list.is_empty(),
            _ => false,
        }
    }

    /// Whether the value is an error.
    pub fn is_exception(&self) -> (r: bool)
        ensures
            r == (self@ is Error),
    {
        match self {
            Expression::Error(_) => true,
            _ => false,
        }
    }

    /// Whether the value can stand at the head of a call.
    pub fn is_callable(&self) -> (r: bool)
        ensures
            r == (self@ is Callable),
    {
        match self {
            Expression::Callable(_) => true,
            _ => false,
        }
    }
}

impl Default for Expression {
    /// The empty list.
    fn default() -> (r: Expression)
        ensures
            r@ == ExprView::Cons(Seq::empty()),
    {
        let l = ExprList::new();
        assert(l@ =~= Seq::empty());
        Expression::Cons(l)
    }
}

} // verus!

verus! {

impl From<bool> for Expression {
    fn from(b: bool) -> (r: Expression) {
        Expression::Bool(b)
    }
}

impl FromSpecImpl<bool> for Expression {
    open spec fn obeys_from_spec() -> bool {
        true
    }

    open spec fn from_spec(b: bool) -> Expression {
        Expression::Bool(b)
    }
}

impl From<String> for Expression {
    fn from(s: String) -> (r: Expression) {
        Expression::Str(s)
    }
}

impl FromSpecImpl<String> for Expression {
    open spec fn obeys_from_spec() -> bool {
        true
    }

    open spec fn from_spec(s: String) -> Expression {
        Expression::Str(s)
    }
}

impl Expression {
    /// The string with the given characters.
    pub fn from_str(s: &str) -> (r: Expression)
        ensures
            r@ == ExprView::Str(s@),
    {
        Expression::Str(String::from_str(s))
    }

    /// The number that equals `n`.
    pub fn from_u16(n: u16) -> (r: Expression)
        ensures
            r@ == ExprView::Num(crate::number::double_of(n as nat) as u64),
    {
        Expression::Num(crate::number::double_from_u16(n))
    }

    /// An error as `Err`, any other value as `Ok`.
    pub fn into_result(self) -> (r: Result<Expression, Exception>)
        ensures
            match self@ {
                ExprView::Error(e) => r is Err && r->Err_0@ == e,
                _ => r is Ok && r->Ok_0@ == self@,
            },
    {
        match self {
            Expression::Error(e) => Err((*e).clone()),
            other => Ok(other),
        }
    }
}

} // verus!
