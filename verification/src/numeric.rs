//! The numeric tower: real numbers, and quaternions to which reals are
//! promoted. Numbers are compared here; the arithmetic itself is the
//! host's.

use crate::display::{number_free, text_of, written};
use crate::eval::{arity_error, custom_error, fail, signature_error};
use crate::expression::kind_name;
use std::rc::Rc;
use crate::exception::Exception;
use crate::expression::{lemma_views_of, views_of, ExprView, Expression};
use crate::host::Host;
use crate::quat::{is_nan, num_eq, num_equals, Quat};
use vstd::prelude::*;
use vstd::string::StringExecFns;

verus! {

/// The bits of a double without its sign.
pub open spec fn magnitude(bits: u64) -> u64 {
    bits & 0x7fff_ffff_ffff_ffff
}

/// Whether the sign bit of a double is set.
pub open spec fn negative(bits: u64) -> bool {
    bits >> 63 == 1
}

/// A whole number that is smaller for the smaller of two doubles that are
/// no NaN: the magnitude, taken negative where the sign is set.
pub open spec fn num_key(bits: u64) -> int {
    if negative(bits) {
        -(magnitude(bits) as int)
    } else {
        magnitude(bits) as int
    }
}

/// Whether the double `a` is less than the double `b`, as IEEE says: a NaN
/// is less than nothing and nothing is less than it, and the two zeros are
/// equal.
pub open spec fn num_lt(a: u64, b: u64) -> bool {
    !is_nan(a) && !is_nan(b) && num_key(a) < num_key(b)
}

/// Tells whether the double `a` is less than the double `b`.
pub fn num_less(a: u64, b: u64) -> (r: bool)
    ensures
        r == num_lt(a, b),
{
    let ma = a & 0x7fff_ffff_ffff_ffff;
    let mb = b & 0x7fff_ffff_ffff_ffff;
    if ma > 0x7ff0_0000_0000_0000 || mb > 0x7ff0_0000_0000_0000 {
        return false;
    }
    let na = a >> 63 == 1;
    let nb = b >> 63 == 1;
    if na {
        if nb {
            ma > mb
        } else {
            !(ma == 0 && mb == 0)
        }
    } else {
        if nb {
            false
        } else {
            ma < mb
        }
    }
}

/// The order relations on numbers.
#[derive(Clone, Copy, Debug)]
pub enum Comparison {
    /// `<`
    Lt,
    /// `<=`
    Lte,
    /// `>`
    Gt,
    /// `>=`
    Gte,
}

/// Whether the relation holds of the doubles `a` and `b`.
pub open spec fn holds(kind: Comparison, a: u64, b: u64) -> bool {
    match kind {
        Comparison::Lt => num_lt(a, b),
        Comparison::Lte => num_lt(a, b) || num_eq(a, b),
        Comparison::Gt => num_lt(b, a),
        Comparison::Gte => num_lt(b, a) || num_eq(a, b),
    }
}

/// The error of a comparison of what are not two numbers.
pub open spec fn comparison_error(a: ExprView, b: ExprView) -> ExprView {
    signature_error("(num, num)"@, "("@ + text_of(a) + ", "@ + text_of(b) + ")"@)
}

/// What a comparison gives; `None` where the answer is an error that shows
/// a number as the host prints it.
pub open spec fn compare_result(kind: Comparison, args: Seq<ExprView>) -> Option<ExprView> {
    if args.len() != 2 {
        Some(arity_error(2, args.len() as usize))
    } else {
        match (args[0], args[1]) {
            (ExprView::Num(a), ExprView::Num(b)) => Some(ExprView::Bool(holds(kind, a, b))),
            (a, b) => if number_free(a) && number_free(b) {
                Some(comparison_error(a, b))
            } else {
                None
            },
        }
    }
}

/// `< :: num num -> bool`, and likewise `<=`, `>` and `>=`
///
/// Compares its two arguments, which must be numbers; anything else gives
/// a signature error that shows the two.
pub fn compare<H: Host>(kind: Comparison, args: &Vec<Expression>, host: &H) -> (r: Expression)
    ensures
        compare_result(kind, views_of(args@)) matches Some(v) ==> r@ == v,
        r@ is Bool || r@ is Error,
        args@.len() == 2 && !(args@[0]@ is Num && args@[1]@ is Num) ==> exists|
            parts: Seq<Seq<char>>,
        |
            #![trigger written(host, views_of(args@), parts)]
            written(host, views_of(args@), parts) && r@ == signature_error(
                "(num, num)"@,
                "("@ + parts[0] + ", "@ + parts[1] + ")"@,
            ),
{
    proof {
        lemma_views_of(args@);
    }
    if args.len() != 2 {
        return fail(Exception::arity(2, args.len()));
    }
    match (&args[0], &args[1]) {
        (Expression::Num(a), Expression::Num(b)) => {
            let a = *a;
            let b = *b;
            Expression::Bool(
                match kind {
                    Comparison::Lt => num_less(a, b),
                    Comparison::Lte => num_less(a, b) || num_equals(a, b),
                    Comparison::Gt => num_less(b, a),
                    Comparison::Gte => num_less(b, a) || num_equals(a, b),
                },
            )
        },
        (a, b) => {
            let mut found = String::from_str("(");
            let ta = a.to_text(host);
            found.append(ta.as_str());
            found.append(", ");
            let tb = b.to_text(host);
            found.append(tb.as_str());
            found.append(")");
            proof {
                let parts = seq![ta@, tb@];
                assert(written(host, views_of(args@), parts));
                assert(found@ == "("@ + parts[0] + ", "@ + parts[1] + ")"@);
            }
            fail(Exception::signature("(num, num)", found.as_str()))
        },
    }
}

/// `< :: num num -> bool`
pub fn lt<H: Host>(args: &Vec<Expression>, host: &H) -> (r: Expression)
    ensures
        compare_result(Comparison::Lt, views_of(args@)) matches Some(v) ==> r@ == v,
        r@ is Bool || r@ is Error,
{
    compare(Comparison::Lt, args, host)
}

/// `<= :: num num -> bool`
pub fn lte<H: Host>(args: &Vec<Expression>, host: &H) -> (r: Expression)
    ensures
        compare_result(Comparison::Lte, views_of(args@)) matches Some(v) ==> r@ == v,
        r@ is Bool || r@ is Error,
{
    compare(Comparison::Lte, args, host)
}

/// `> :: num num -> bool`
pub fn gt<H: Host>(args: &Vec<Expression>, host: &H) -> (r: Expression)
    ensures
        compare_result(Comparison::Gt, views_of(args@)) matches Some(v) ==> r@ == v,
        r@ is Bool || r@ is Error,
{
    compare(Comparison::Gt, args, host)
}

/// `>= :: num num -> bool`
pub fn gte<H: Host>(args: &Vec<Expression>, host: &H) -> (r: Expression)
    ensures
        compare_result(Comparison::Gte, views_of(args@)) matches Some(v) ==> r@ == v,
        r@ is Bool || r@ is Error,
{
    compare(Comparison::Gte, args, host)
}

/// The quaternion that a number or a quaternion stands for in the
/// quaternion tower: a real `n` is `(n, 0, 0, 0)`.
pub open spec fn promoted(e: ExprView) -> Option<Quat> {
    match e {
        ExprView::Num(n) => Some(Quat(n, 0, 0, 0)),
        ExprView::Quaternion(q) => Some(q),
        _ => None,
    }
}

/// The operands of an arithmetic operation.
#[derive(Debug)]
pub enum Operands {
    /// Every argument is a real number; these are their bits.
    Reals(Vec<u64>),
    /// Every argument is a number or a quaternion, and one at least is a
    /// quaternion; these are all of them, promoted.
    Quats(Vec<Quat>),
    /// The argument at this position is neither, and it is the first such.
    Other(usize),
}

/// Sorts the arguments of an arithmetic operation into the tower in which
/// it is carried out: the reals where all are real numbers, the quaternions
/// where all are numbers or quaternions; otherwise the first argument that
/// is neither is pointed out.
pub fn operands(args: &Vec<Expression>) -> (r: Operands)
    ensures
        match r {
            Operands::Reals(v) => v@.len() == args@.len() && forall|i: int|
                0 <= i < args@.len() ==> (#[trigger] args@[i])@ == ExprView::Num(v@[i]),
            Operands::Quats(v) => v@.len() == args@.len() && (forall|i: int|
                0 <= i < args@.len() ==> promoted((#[trigger] args@[i])@) == Some(v@[i])) && exists|
                i: int,
            | 0 <= i < args@.len() && (#[trigger] args@[i])@ is Quaternion,
            Operands::Other(k) => k < args@.len() && promoted(args@[k as int]@) is None && forall|
                i: int,
            | 0 <= i < k ==> promoted((#[trigger] args@[i])@) is Some,
        },
{
    let mut reals: Vec<u64> = Vec::new();
    let mut quats: Vec<Quat> = Vec::new();
    let mut all_real = true;
    let mut i: usize = 0;
    let ghost mut witness: int = 0;
    while i < args.len()
        invariant
            i <= args.len(),
            quats@.len() == i,
            all_real ==> reals@.len() == i,
            all_real ==> forall|j: int| 0 <= j < i ==> (#[trigger] args@[j])@ == ExprView::Num(reals@[j]),
            forall|j: int| 0 <= j < i ==> promoted((#[trigger] args@[j])@) == Some(quats@[j]),
            !all_real ==> 0 <= witness < i && args@[witness]@ is Quaternion,
        decreases args.len() - i,
    {
        match &args[i] {
            Expression::Num(n) => {
                if all_real {
                    reals.push(*n);
                }
                quats.push(Quat::from_real(*n));
            },
            Expression::Quaternion(q) => {
                proof {
                    witness = i as int;
                }
                all_real = false;
                quats.push(**q);
            },
            _ => {
                return Operands::Other(i);
            },
        }
        i += 1;
    }
    if all_real {
        Operands::Reals(reals)
    } else {
        Operands::Quats(quats)
    }
}

/// What a function of one number gets: the bits of its one argument, or
/// the error of an argument that is no number or of another number of
/// arguments than one.
pub open spec fn unary_result(args: Seq<ExprView>) -> Result<u64, ExprView> {
    if args.len() == 1 {
        match args[0] {
            ExprView::Num(x) => Ok(x),
            other => Err(signature_error("num"@, kind_name(other))),
        }
    } else {
        Err(arity_error(1, args.len() as usize))
    }
}

/// The operand of a function of one number, as [`unary_result`] says.
pub fn unary_operand(args: &Vec<Expression>) -> (r: Result<u64, Expression>)
    ensures
        match (r, unary_result(views_of(args@))) {
            (Ok(x), Ok(y)) => x == y,
            (Err(e), Err(v)) => e@ == v,
            _ => false,
        },
{
    proof {
        lemma_views_of(args@);
    }
    if args.len() == 1 {
        match &args[0] {
            Expression::Num(x) => Ok(*x),
            other => Err(fail(Exception::signature("num", other.type_of().as_str()))),
        }
    } else {
        Err(fail(Exception::arity(1, args.len())))
    }
}

/// One operand of a function that takes a real number or a quaternion.
#[derive(Debug)]
pub enum Scalar {
    /// The bits of a real number.
    Real(u64),
    /// A quaternion.
    Quat(Quat),
}

/// What a function of one real number or quaternion gets: its one argument,
/// or the error of an argument that is neither or of another number of
/// arguments than one.
pub open spec fn scalar_result(args: Seq<ExprView>) -> Result<Scalar, ExprView> {
    if args.len() == 1 {
        match args[0] {
            ExprView::Num(x) => Ok(Scalar::Real(x)),
            ExprView::Quaternion(q) => Ok(Scalar::Quat(q)),
            other => Err(signature_error("num"@, kind_name(other))),
        }
    } else {
        Err(arity_error(1, args.len() as usize))
    }
}

/// The operand of a function of one real number or quaternion, as
/// [`scalar_result`] says.
pub fn scalar_operand(args: &Vec<Expression>) -> (r: Result<Scalar, Expression>)
    ensures
        match (r, scalar_result(views_of(args@))) {
            (Ok(x), Ok(y)) => x == y,
            (Err(e), Err(v)) => e@ == v,
            _ => false,
        },
{
    proof {
        lemma_views_of(args@);
    }
    if args.len() == 1 {
        match &args[0] {
            Expression::Num(x) => Ok(Scalar::Real(*x)),
            Expression::Quaternion(q) => Ok(Scalar::Quat(**q)),
            other => Err(fail(Exception::signature("num", other.type_of().as_str()))),
        }
    } else {
        Err(fail(Exception::arity(1, args.len())))
    }
}

/// What a function of two numbers gets: the bits of its two arguments, or
/// the error of arguments that are not two numbers.
pub open spec fn binary_result(args: Seq<ExprView>) -> Result<(u64, u64), ExprView> {
    if args.len() == 2 {
        match (args[0], args[1]) {
            (ExprView::Num(x), ExprView::Num(y)) => Ok((x, y)),
            (a, b) => Err(signature_error("num, num"@, kind_name(a) + ", "@ + kind_name(b))),
        }
    } else {
        Err(arity_error(2, args.len() as usize))
    }
}

/// The operands of a function of two numbers, as [`binary_result`] says.
pub fn binary_operands(args: &Vec<Expression>) -> (r: Result<(u64, u64), Expression>)
    ensures
        match (r, binary_result(views_of(args@))) {
            (Ok(x), Ok(y)) => x == y,
            (Err(e), Err(v)) => e@ == v,
            _ => false,
        },
{
    proof {
        lemma_views_of(args@);
    }
    if args.len() == 2 {
        match (&args[0], &args[1]) {
            (Expression::Num(x), Expression::Num(y)) => Ok((*x, *y)),
            (a, b) => {
                let mut found = a.type_of();
                found.append(", ");
                found.append(b.type_of().as_str());
                Err(fail(Exception::signature("num, num", found.as_str())))
            },
        }
    } else {
        Err(fail(Exception::arity(2, args.len())))
    }
}

/// The operands of a subtraction or a division.
#[derive(Debug)]
pub enum Chain {
    /// Every argument is a real number, and there is one at least; these are
    /// their bits, in order.
    Reals(Vec<u64>),
    /// Every argument is a number or a quaternion, one at least is a
    /// quaternion; these are all of them, promoted, in order.
    Quats(Vec<Quat>),
    /// The operation cannot be carried out; this is its error.
    Stop(Expression),
}

/// The error of a subtraction or division without arguments.
pub open spec fn no_operand_error() -> ExprView {
    custom_error(4, "arity mismatch: expected at least 1 argument, found 0"@)
}

/// Whether `k` is the position of the first of `args` that is neither a
/// number nor a quaternion.
pub open spec fn first_neither(args: Seq<ExprView>, k: int) -> bool {
    0 <= k < args.len() && promoted(args[k]) is None && forall|i: int|
        0 <= i < k ==> promoted(#[trigger] args[i]) is Some
}

/// Sorts the arguments of a subtraction or a division into the tower in
/// which it is carried out, as [`operands`] does for a sum: the reals where
/// all are real numbers, the quaternions where all are numbers or
/// quaternions. An argument that is neither fails the whole operation with
/// a signature error that names the type of the first such; no argument at
/// all gives a custom error with code 4.
pub fn chain_operands(args: &Vec<Expression>) -> (r: Chain)
    ensures
        match r {
            Chain::Reals(v) => args@.len() > 0 && v@.len() == args@.len() && forall|i: int|
                0 <= i < args@.len() ==> (#[trigger] args@[i])@ == ExprView::Num(v@[i]),
            Chain::Quats(v) => args@.len() > 0 && v@.len() == args@.len() && (forall|i: int|
                0 <= i < args@.len() ==> promoted((#[trigger] args@[i])@) == Some(v@[i])) && exists|
                i: int,
            | 0 <= i < args@.len() && (#[trigger] args@[i])@ is Quaternion,
            Chain::Stop(e) => if args@.len() == 0 {
                e@ == no_operand_error()
            } else {
                exists|k: int|
                    first_neither(views_of(args@), k) && e@ == signature_error(
                        "num"@,
                        kind_name(#[trigger] views_of(args@)[k]),
                    )
            },
        },
        (exists|i: int| 0 <= i < args@.len() && promoted((#[trigger] args@[i])@) is None)
            ==> r is Stop,
{
    proof {
        lemma_views_of(args@);
    }
    if args.len() == 0 {
        return Chain::Stop(
            fail(Exception::custom(4, "arity mismatch: expected at least 1 argument, found 0")),
        );
    }
    match operands(args) {
        Operands::Reals(v) => Chain::Reals(v),
        Operands::Quats(v) => Chain::Quats(v),
        Operands::Other(k) => {
            let e = fail(Exception::signature("num", args[k].type_of().as_str()));
            assert(first_neither(views_of(args@), k as int));
            Chain::Stop(e)
        },
    }
}

/// What `quat` gives; `None` where the answer is an error that shows a
/// number as the host prints it.
pub open spec fn quaternion_result(args: Seq<ExprView>) -> Option<ExprView> {
    if args.len() != 4 {
        Some(arity_error(4, args.len() as usize))
    } else {
        match (args[0], args[1], args[2], args[3]) {
            (ExprView::Num(a), ExprView::Num(b), ExprView::Num(c), ExprView::Num(d)) => Some(
                ExprView::Quaternion(Quat(a, b, c, d)),
            ),
            _ => None,
        }
    }
}

/// `quat :: num num num num -> quaternion`
///
/// The quaternion with its four arguments, which must be numbers, as
/// components; anything else gives a signature error that shows the four.
pub fn quaternion<H: Host>(args: &Vec<Expression>, host: &H) -> (r: Expression)
    ensures
        quaternion_result(views_of(args@)) matches Some(v) ==> r@ == v,
        r@ is Quaternion || r@ is Error,
        quaternion_result(views_of(args@)) is None ==> exists|parts: Seq<Seq<char>>|
            #![trigger written(host, views_of(args@), parts)]
            written(host, views_of(args@), parts) && r@ == signature_error(
                "(num, num, num, num)"@,
                "("@ + parts[0] + ", "@ + parts[1] + ", "@ + parts[2] + ", "@ + parts[3] + ")"@,
            ),
{
    proof {
        lemma_views_of(args@);
    }
    if args.len() != 4 {
        return fail(Exception::arity(4, args.len()));
    }
    match (&args[0], &args[1], &args[2], &args[3]) {
        (Expression::Num(a), Expression::Num(b), Expression::Num(c), Expression::Num(d)) => {
            Expression::Quaternion(Rc::new(Quat(*a, *b, *c, *d)))
        },
        _ => {
            let mut found = String::from_str("(");
            let ta = args[0].to_text(host);
            found.append(ta.as_str());
            found.append(", ");
            let tb = args[1].to_text(host);
            found.append(tb.as_str());
            found.append(", ");
            let tc = args[2].to_text(host);
            found.append(tc.as_str());
            found.append(", ");
            let td = args[3].to_text(host);
            found.append(td.as_str());
            found.append(")");
            proof {
                let parts = seq![ta@, tb@, tc@, td@];
                assert(written(host, views_of(args@), parts));
                assert(found@ == "("@ + parts[0] + ", "@ + parts[1] + ", "@ + parts[2] + ", "@
                    + parts[3] + ")"@);
            }
            fail(Exception::signature("(num, num, num, num)", found.as_str()))
        },
    }
}

} // verus!
