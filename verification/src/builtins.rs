//! The native procedures and the root environment that binds them.
//!
//! Every procedure takes the list of its evaluated arguments and gives an
//! optional value or a failure. Only `print` has an effect besides: it adds
//! one line to the output.

use vstd::prelude::*;
use crate::alike::{alike_result, lemma_alike_result_reflexive};
use crate::env::{Env, Scope};
use crate::error::SchemeError;
use crate::float::{
    is_zero, is_zero_bits, prints, serves, FloatModel, FloatOp, NEG_ONE_BITS, NEG_ZERO_BITS,
    ONE_BITS, PI_BITS, ZERO_BITS,
};
use crate::numeric::{lemma_wrap_add, lemma_wrap_fits, lemma_wrap_mul, wrap};
use crate::printer::{datatype2str, external_text};
use crate::value::{
    data_views, float_free, lemma_list_view, option_view, DataType, DataView, Function, Number,
};

verus! {

/// Every argument is a number.
pub open spec fn all_numbers(args: Seq<DataView>) -> bool {
    forall|i: int| 0 <= i < args.len() ==> #[trigger] args[i] is Number
}

/// Every argument is an integer.
pub open spec fn all_integers(args: Seq<DataView>) -> bool {
    forall|i: int| 0 <= i < args.len() ==> is_integer(#[trigger] args[i])
}

/// The value is an integer.
pub open spec fn is_integer(value: DataView) -> bool {
    value matches DataView::Number(Number::Integer(_))
}

/// The integer that a value holds; zero where it holds none.
pub open spec fn integer_of(value: DataView) -> int {
    match value {
        DataView::Number(Number::Integer(i)) => i as int,
        _ => 0,
    }
}

/// The float that a value holds: a float itself, and for an integer the
/// float nearest to it; positive zero where the value is no number.
pub open spec fn float_of(fm: FloatModel, value: DataView) -> u64 {
    match value {
        DataView::Number(Number::Integer(i)) => fm.from_int(i),
        DataView::Number(Number::Float(bits)) => bits,
        _ => ZERO_BITS,
    }
}

/// The sum of the integers of `args`.
pub open spec fn integer_sum(args: Seq<DataView>) -> int
    decreases args.len(),
{
    if args.len() == 0 {
        0
    } else {
        integer_sum(args.drop_last()) + integer_of(args.last())
    }
}

/// The product of the integers of `args`.
pub open spec fn integer_product(args: Seq<DataView>) -> int
    decreases args.len(),
{
    if args.len() == 0 {
        1
    } else {
        integer_product(args.drop_last()) * integer_of(args.last())
    }
}

/// The floats of `args` added up from left to right, starting from negative
/// zero, the neutral element of floating-point addition.
pub open spec fn float_sum(fm: FloatModel, args: Seq<DataView>) -> u64
    decreases args.len(),
{
    if args.len() == 0 {
        NEG_ZERO_BITS
    } else {
        fm.sum(float_sum(fm, args.drop_last()), float_of(fm, args.last()))
    }
}

/// The floats of `args` multiplied from left to right, starting from one.
pub open spec fn float_product(fm: FloatModel, args: Seq<DataView>) -> u64
    decreases args.len(),
{
    if args.len() == 0 {
        ONE_BITS
    } else {
        fm.product(float_product(fm, args.drop_last()), float_of(fm, args.last()))
    }
}

/// The floats of `args` divided from left to right. The running value starts
/// at positive zero; an argument replaces a running value that is zero, and
/// divides one that is not.
pub open spec fn float_quotient(fm: FloatModel, args: Seq<DataView>) -> u64
    decreases args.len(),
{
    if args.len() == 0 {
        ZERO_BITS
    } else {
        let running = float_quotient(fm, args.drop_last());
        if is_zero_bits(running) {
            float_of(fm, args.last())
        } else {
            fm.quotient(running, float_of(fm, args.last()))
        }
    }
}

/// The failure, if any, in which applying `f` to `args` ends.
pub open spec fn failure(f: Function, args: Seq<DataView>) -> Option<SchemeError> {
    match f {
        Function::Begin | Function::List => None,
        Function::Print => if args.len() != 1 {
            Some(SchemeError::PrintArity)
        } else {
            None
        },
        Function::Multiply | Function::Add | Function::Subtract | Function::Divide => {
            if all_numbers(args) {
                None
            } else {
                Some(SchemeError::NotANumber)
            }
        },
        Function::Car => if args.len() != 1 {
            Some(SchemeError::CarArity)
        } else if !(args[0] is List) {
            Some(SchemeError::CarNotList)
        } else if args[0]->List_0.len() == 0 {
            Some(SchemeError::CarEmptyList)
        } else {
            None
        },
        Function::Cdr => if args.len() != 1 {
            Some(SchemeError::CdrArity)
        } else if !(args[0] is List) {
            Some(SchemeError::CdrNotList)
        } else if args[0]->List_0.len() == 0 {
            Some(SchemeError::CdrEmptyList)
        } else {
            None
        },
    }
}

/// The value, if any, that applying `f` to `args` gives where it does not
/// fail.
///
/// An arithmetic result is an integer if and only if every argument is an
/// integer; integer results are kept to 64 bits by wrapping. `-` negates the
/// sum of its arguments. `/` always gives a float.
pub open spec fn value_of(fm: FloatModel, f: Function, args: Seq<DataView>) -> Option<DataView> {
    match f {
        Function::Begin => if args.len() == 0 {
            None
        } else {
            Some(args.last())
        },
        Function::Print => None,
        Function::Add => Some(
            DataView::Number(
                if all_integers(args) {
                    Number::Integer(wrap(integer_sum(args)))
                } else {
                    Number::Float(float_sum(fm, args))
                },
            ),
        ),
        Function::Multiply => Some(
            DataView::Number(
                if all_integers(args) {
                    Number::Integer(wrap(integer_product(args)))
                } else {
                    Number::Float(float_product(fm, args))
                },
            ),
        ),
        Function::Subtract => Some(
            DataView::Number(
                if all_integers(args) {
                    Number::Integer(wrap(-integer_sum(args)))
                } else {
                    Number::Float(fm.product(float_sum(fm, args), NEG_ONE_BITS))
                },
            ),
        ),
        Function::Divide => Some(DataView::Number(Number::Float(float_quotient(fm, args)))),
        Function::List => Some(DataView::List(args)),
        Function::Car => Some(args[0]->List_0[0]),
        Function::Cdr => Some(DataView::List(args[0]->List_0.skip(1))),
    }
}

/// The result of applying `f` to `args`: its failure, or else its value.
pub open spec fn result_of(fm: FloatModel, f: Function, args: Seq<DataView>) -> Result<
    Option<DataView>,
    SchemeError,
> {
    match failure(f, args) {
        Some(e) => Err(e),
        None => Ok(value_of(fm, f, args)),
    }
}

/// What applying a procedure ends in: its result, and the output after it.
pub struct Applied {
    pub result: Result<Option<DataView>, SchemeError>,
    pub output: Seq<Seq<char>>,
}

/// The outcome of applying `f` to `args` where the output so far is `output`.
/// `print` adds the external representation of its argument to the output;
/// nothing else changes it, and a failure changes nothing.
pub open spec fn apply(
    fm: FloatModel,
    f: Function,
    args: Seq<DataView>,
    output: Seq<Seq<char>>,
) -> Applied {
    Applied {
        result: result_of(fm, f, args),
        output: if f == Function::Print && failure(f, args) is None {
            output.push(external_text(fm, args[0]))
        } else {
            output
        },
    }
}

/// The mathematical value of a result of evaluation.
pub open spec fn result_view(r: Result<Option<DataType>, SchemeError>) -> Result<
    Option<DataView>,
    SchemeError,
> {
    match r {
        Ok(value) => Ok(option_view(value)),
        Err(e) => Err(e),
    }
}

/// The bindings of the root environment: the constant `pi` and the nine
/// native procedures, each under its name.
pub open spec fn root_scope() -> Scope {
    Map::<Seq<char>, DataView>::empty().insert(
        "pi"@,
        DataView::Number(Number::Float(PI_BITS)),
    ).insert("begin"@, DataView::Proc(Function::Begin)).insert(
        "print"@,
        DataView::Proc(Function::Print),
    ).insert("*"@, DataView::Proc(Function::Multiply)).insert(
        "+"@,
        DataView::Proc(Function::Add),
    ).insert("-"@, DataView::Proc(Function::Subtract)).insert(
        "/"@,
        DataView::Proc(Function::Divide),
    ).insert("list"@, DataView::Proc(Function::List)).insert(
        "car"@,
        DataView::Proc(Function::Car),
    ).insert("cdr"@, DataView::Proc(Function::Cdr))
}

/// Whether every argument is a number.
fn only_numbers(args: &Vec<DataType>) -> (r: bool)
    ensures
        r == all_numbers(data_views(args@)),
{
    let mut i: usize = 0;
    while i < args.len()
        invariant
            i <= args.len(),
            forall|j: int| 0 <= j < i ==> #[trigger] data_views(args@)[j] is Number,
        decreases args.len() - i,
    {
        match &args[i] {
            DataType::Number(_) => {},
            _ => {
                assert(!(data_views(args@)[i as int] is Number));
                return false;
            },
        }
        i += 1;
    }
    true
}

/// Whether every argument is an integer.
fn only_integers(args: &Vec<DataType>) -> (r: bool)
    ensures
        r == all_integers(data_views(args@)),
{
    let mut i: usize = 0;
    while i < args.len()
        invariant
            i <= args.len(),
            forall|j: int| 0 <= j < i ==> is_integer(#[trigger] data_views(args@)[j]),
        decreases args.len() - i,
    {
        match &args[i] {
            DataType::Number(Number::Integer(_)) => {},
            _ => {
                assert(!is_integer(data_views(args@)[i as int]));
                return false;
            },
        }
        i += 1;
    }
    true
}

/// The integer that a value holds.
fn to_integer(value: &DataType) -> (i: i64)
    requires
        is_integer(value@),
    ensures
        i == integer_of(value@),
{
    match value {
        DataType::Number(Number::Integer(i)) => *i,
        _ => 0,
    }
}

/// The float that a value holds; for an integer, the float nearest to it.
fn to_float<A: Fn(FloatOp) -> u64>(value: &DataType, arith: &A) -> (bits: u64)
    requires
        serves(arith),
        value@ is Number,
    ensures
        forall|fm: FloatModel| #[trigger] fm.computed_by(arith) ==> bits == float_of(fm, value@),
{
    match value {
        DataType::Number(Number::Integer(i)) => arith(FloatOp::FromInt(*i)),
        DataType::Number(Number::Float(bits)) => *bits,
        _ => ZERO_BITS,
    }
}

/// The sum of integer arguments, wrapped to 64 bits.
fn sum_integers(args: &Vec<DataType>) -> (sum: i64)
    requires
        all_integers(data_views(args@)),
    ensures
        sum == wrap(integer_sum(data_views(args@))),
{
    let ghost views = data_views(args@);
    let mut sum: i64 = 0;
    let mut i: usize = 0;
    proof {
        assert(views.take(0) =~= Seq::<DataView>::empty());
        lemma_wrap_fits(0);
    }
    while i < args.len()
        invariant
            views == data_views(args@),
            i <= args.len(),
            sum == wrap(integer_sum(views.take(i as int))),
            all_integers(views),
        decreases args.len() - i,
    {
        assert(is_integer(views[i as int]));
        let x = to_integer(&args[i]);
        proof {
            assert(views.take(i + 1).drop_last() =~= views.take(i as int));
            lemma_wrap_add(integer_sum(views.take(i as int)), x);
        }
        sum = sum.wrapping_add(x);
        i += 1;
    }
    assert(views.take(args.len() as int) =~= views);
    sum
}

/// The product of integer arguments, wrapped to 64 bits.
fn multiply_integers(args: &Vec<DataType>) -> (product: i64)
    requires
        all_integers(data_views(args@)),
    ensures
        product == wrap(integer_product(data_views(args@))),
{
    let ghost views = data_views(args@);
    let mut product: i64 = 1;
    let mut i: usize = 0;
    proof {
        assert(views.take(0) =~= Seq::<DataView>::empty());
        lemma_wrap_fits(1);
    }
    while i < args.len()
        invariant
            views == data_views(args@),
            i <= args.len(),
            product == wrap(integer_product(views.take(i as int))),
            all_integers(views),
        decreases args.len() - i,
    {
        assert(is_integer(views[i as int]));
        let x = to_integer(&args[i]);
        proof {
            assert(views.take(i + 1).drop_last() =~= views.take(i as int));
            lemma_wrap_mul(integer_product(views.take(i as int)), x);
        }
        product = product.wrapping_mul(x);
        i += 1;
    }
    assert(views.take(args.len() as int) =~= views);
    product
}

/// The floats of the arguments added up from left to right.
fn sum_floats<A: Fn(FloatOp) -> u64>(args: &Vec<DataType>, arith: &A) -> (sum: u64)
    requires
        serves(arith),
        all_numbers(data_views(args@)),
    ensures
        forall|fm: FloatModel| #[trigger]
            fm.computed_by(arith) ==> sum == float_sum(fm, data_views(args@)),
{
    let ghost views = data_views(args@);
    let mut sum: u64 = NEG_ZERO_BITS;
    let mut i: usize = 0;
    assert(views.take(0) =~= Seq::<DataView>::empty());
    while i < args.len()
        invariant
            serves(arith),
            all_numbers(views),
            views == data_views(args@),
            i <= args.len(),
            forall|fm: FloatModel| #[trigger]
                fm.computed_by(arith) ==> sum == float_sum(fm, views.take(i as int)),
        decreases args.len() - i,
    {
        assert(views[i as int] is Number);
        let x = to_float(&args[i], arith);
        assert(views.take(i + 1).drop_last() =~= views.take(i as int));
        sum = arith(FloatOp::Add(sum, x));
        i += 1;
    }
    assert(views.take(args.len() as int) =~= views);
    sum
}

/// The floats of the arguments multiplied from left to right.
fn multiply_floats<A: Fn(FloatOp) -> u64>(args: &Vec<DataType>, arith: &A) -> (product: u64)
    requires
        serves(arith),
        all_numbers(data_views(args@)),
    ensures
        forall|fm: FloatModel| #[trigger]
            fm.computed_by(arith) ==> product == float_product(fm, data_views(args@)),
{
    let ghost views = data_views(args@);
    let mut product: u64 = ONE_BITS;
    let mut i: usize = 0;
    assert(views.take(0) =~= Seq::<DataView>::empty());
    while i < args.len()
        invariant
            serves(arith),
            all_numbers(views),
            views == data_views(args@),
            i <= args.len(),
            forall|fm: FloatModel| #[trigger]
                fm.computed_by(arith) ==> product == float_product(fm, views.take(i as int)),
        decreases args.len() - i,
    {
        assert(views[i as int] is Number);
        let x = to_float(&args[i], arith);
        assert(views.take(i + 1).drop_last() =~= views.take(i as int));
        product = arith(FloatOp::Mul(product, x));
        i += 1;
    }
    assert(views.take(args.len() as int) =~= views);
    product
}

/// `begin`: the last argument; no value where there is no argument.
pub fn begin(args: Vec<DataType>) -> (r: Result<Option<DataType>, SchemeError>)
    ensures
        result_view(r) == Ok::<Option<DataView>, SchemeError>(
            if args.len() == 0 {
                None
            } else {
                Some(data_views(args@).last())
            },
        ),
{
    let mut args = args;
    Ok(args.pop())
}

/// `print`: adds the external representation of its one argument to the
/// output as one line, and gives no value. Fails where it is not given
/// exactly one argument.
pub fn print<S: Fn(u64) -> String>(args: Vec<DataType>, out: &mut Vec<String>, show: &S) -> (r:
    Result<Option<DataType>, SchemeError>)
    requires
        prints(show),
    ensures
        args.len() != 1 ==> r == Err::<Option<DataType>, SchemeError>(SchemeError::PrintArity)
            && *final(out) == *old(out),
        args.len() == 1 ==> r == Ok::<Option<DataType>, SchemeError>(None) && final(out).len()
            == old(out).len() + 1 && forall|i: int|
            0 <= i < old(out).len() ==> final(out)[i] == old(out)[i],
        forall|fm: FloatModel|
            args.len() == 1 && (fm.rendered_by(show) || float_free(args[0]@))
                ==> final(out).deep_view() == old(out).deep_view().push(
                #[trigger] external_text(fm, args[0]@),
            ),
{
    if args.len() != 1 {
        return Err(SchemeError::PrintArity);
    }
    let ghost before = out.deep_view();
    let line = datatype2str(&args[0], show);
    out.push(line);
    assert(out.deep_view() =~= before.push(line@));
    Ok(None)
}

/// `+`: the sum of the arguments. An integer, wrapped to 64 bits, where every
/// argument is an integer; else a float. Fails where an argument is no number.
pub fn plus<A: Fn(FloatOp) -> u64>(args: Vec<DataType>, arith: &A) -> (r: Result<
    Option<DataType>,
    SchemeError,
>)
    requires
        serves(arith),
    ensures
        forall|fm: FloatModel|
            alike_result(
                result_view(r),
                #[trigger] result_of(fm, Function::Add, data_views(args@)),
            ),
        forall|fm: FloatModel| #[trigger]
            fm.computed_by(arith) ==> result_view(r) == result_of(
                fm,
                Function::Add,
                data_views(args@),
            ),
{
    if !only_numbers(&args) {
        return Err(SchemeError::NotANumber);
    }
    if only_integers(&args) {
        Ok(Some(DataType::Number(Number::Integer(sum_integers(&args)))))
    } else {
        Ok(Some(DataType::Number(Number::Float(sum_floats(&args, arith)))))
    }
}

/// `*`: the product of the arguments, typed as `+` types its sum.
pub fn times<A: Fn(FloatOp) -> u64>(args: Vec<DataType>, arith: &A) -> (r: Result<
    Option<DataType>,
    SchemeError,
>)
    requires
        serves(arith),
    ensures
        forall|fm: FloatModel|
            alike_result(
                result_view(r),
                #[trigger] result_of(fm, Function::Multiply, data_views(args@)),
            ),
        forall|fm: FloatModel| #[trigger]
            fm.computed_by(arith) ==> result_view(r) == result_of(
                fm,
                Function::Multiply,
                data_views(args@),
            ),
{
    if !only_numbers(&args) {
        return Err(SchemeError::NotANumber);
    }
    if only_integers(&args) {
        Ok(Some(DataType::Number(Number::Integer(multiply_integers(&args)))))
    } else {
        Ok(Some(DataType::Number(Number::Float(multiply_floats(&args, arith)))))
    }
}

/// `-`: the negated sum of the arguments, typed as `+` types its sum. It does
/// not subtract from left to right: `(- 1 2 3)` is `-6`.
pub fn minus<A: Fn(FloatOp) -> u64>(args: Vec<DataType>, arith: &A) -> (r: Result<
    Option<DataType>,
    SchemeError,
>)
    requires
        serves(arith),
    ensures
        forall|fm: FloatModel|
            alike_result(
                result_view(r),
                #[trigger] result_of(fm, Function::Subtract, data_views(args@)),
            ),
        forall|fm: FloatModel| #[trigger]
            fm.computed_by(arith) ==> result_view(r) == result_of(
                fm,
                Function::Subtract,
                data_views(args@),
            ),
{
    if !only_numbers(&args) {
        return Err(SchemeError::NotANumber);
    }
    if only_integers(&args) {
        let sum = sum_integers(&args);
        proof {
            lemma_wrap_mul(integer_sum(data_views(args@)), -1i64);
            assert(integer_sum(data_views(args@)) * (-1i64) == -integer_sum(data_views(args@)));
        }
        Ok(Some(DataType::Number(Number::Integer(sum.wrapping_mul(-1)))))
    } else {
        let sum = sum_floats(&args, arith);
        Ok(Some(DataType::Number(Number::Float(arith(FloatOp::Mul(sum, NEG_ONE_BITS))))))
    }
}

/// `/`: the arguments divided from left to right, always a float. The first
/// argument starts the running value, and so does every argument that meets
/// a running value of zero; every other argument divides it. Fails where an
/// argument is no number.
pub fn divide<A: Fn(FloatOp) -> u64>(args: Vec<DataType>, arith: &A) -> (r: Result<
    Option<DataType>,
    SchemeError,
>)
    requires
        serves(arith),
    ensures
        forall|fm: FloatModel|
            alike_result(
                result_view(r),
                #[trigger] result_of(fm, Function::Divide, data_views(args@)),
            ),
        forall|fm: FloatModel| #[trigger]
            fm.computed_by(arith) ==> result_view(r) == result_of(
                fm,
                Function::Divide,
                data_views(args@),
            ),
{
    if !only_numbers(&args) {
        return Err(SchemeError::NotANumber);
    }
    let ghost views = data_views(args@);
    let mut running: u64 = ZERO_BITS;
    let mut i: usize = 0;
    assert(views.take(0) =~= Seq::<DataView>::empty());
    while i < args.len()
        invariant
            serves(arith),
            all_numbers(views),
            views == data_views(args@),
            i <= args.len(),
            forall|fm: FloatModel| #[trigger]
                fm.computed_by(arith) ==> running == float_quotient(fm, views.take(i as int)),
        decreases args.len() - i,
    {
        assert(views[i as int] is Number);
        let x = to_float(&args[i], arith);
        assert(views.take(i + 1).drop_last() =~= views.take(i as int));
        if is_zero(running) {
            running = x;
        } else {
            running = arith(FloatOp::Div(running, x));
        }
        i += 1;
    }
    assert(views.take(args.len() as int) =~= views);
    Ok(Some(DataType::Number(Number::Float(running))))
}

/// `list`: the list of the arguments, in their order.
pub fn list(args: Vec<DataType>) -> (r: Result<Option<DataType>, SchemeError>)
    ensures
        result_view(r) == Ok::<Option<DataView>, SchemeError>(
            Some(DataView::List(data_views(args@))),
        ),
{
    proof {
        lemma_list_view(args);
    }
    Ok(Some(DataType::List(args)))
}

/// `car`: the first element of the one argument, which is a list that is not
/// empty.
pub fn car(args: Vec<DataType>) -> (r: Result<Option<DataType>, SchemeError>)
    ensures
        result_view(r) == match failure(Function::Car, data_views(args@)) {
            Some(e) => Err::<Option<DataView>, SchemeError>(e),
            None => Ok(Some(data_views(args@)[0]->List_0[0])),
        },
{
    if args.len() != 1 {
        return Err(SchemeError::CarArity);
    }
    let mut args = args;
    let ghost views = data_views(args@);
    match args.pop() {
        Some(DataType::List(items)) => {
            proof {
                lemma_list_view(items);
            }
            if items.len() == 0 {
                Err(SchemeError::CarEmptyList)
            } else {
                let mut items = items;
                let first = items.swap_remove(0);
                Ok(Some(first))
            }
        },
        _ => Err(SchemeError::CarNotList),
    }
}

/// `cdr`: the list of the elements after the first of the one argument, which
/// is a list that is not empty.
pub fn cdr(args: Vec<DataType>) -> (r: Result<Option<DataType>, SchemeError>)
    ensures
        result_view(r) == match failure(Function::Cdr, data_views(args@)) {
            Some(e) => Err::<Option<DataView>, SchemeError>(e),
            None => Ok(Some(DataView::List(data_views(args@)[0]->List_0.skip(1)))),
        },
{
    if args.len() != 1 {
        return Err(SchemeError::CdrArity);
    }
    let mut args = args;
    let ghost views = data_views(args@);
    match args.pop() {
        Some(DataType::List(items)) => {
            proof {
                lemma_list_view(items);
            }
            if items.len() == 0 {
                Err(SchemeError::CdrEmptyList)
            } else {
                let mut items = items;
                let rest = items.split_off(1);
                proof {
                    lemma_list_view(rest);
                    assert(data_views(rest@) =~= views[0]->List_0.skip(1));
                }
                Ok(Some(DataType::List(rest)))
            }
        },
        _ => Err(SchemeError::CdrNotList),
    }
}

impl Function {
    /// Applies the procedure to its evaluated arguments. What the procedure
    /// gives is the result of the call.
    ///
    /// Whether the call fails, and with what, depends on the arguments alone.
    pub fn call<A: Fn(FloatOp) -> u64, S: Fn(u64) -> String>(
        &self,
        args: Vec<DataType>,
        out: &mut Vec<String>,
        arith: &A,
        show: &S,
    ) -> (r: Result<Option<DataType>, SchemeError>)
        requires
            serves(arith),
            prints(show),
        ensures
            forall|fm: FloatModel|
                {
                    let applied = #[trigger] apply(
                        fm,
                        *self,
                        data_views(args@),
                        old(out).deep_view(),
                    );
                    &&& alike_result(result_view(r), applied.result)
                    &&& final(out).len() == applied.output.len()
                },
            forall|fm: FloatModel| #[trigger]
                fm.describes(arith, show) ==> {
                    let applied = apply(fm, *self, data_views(args@), old(out).deep_view());
                    &&& result_view(r) == applied.result
                    &&& final(out).deep_view() == applied.output
                },
    {
        let r = match self {
            Function::Begin => begin(args),
            Function::Print => print(args, out, show),
            Function::Multiply => times(args, arith),
            Function::Add => plus(args, arith),
            Function::Subtract => minus(args, arith),
            Function::Divide => divide(args, arith),
            Function::List => list(args),
            Function::Car => car(args),
            Function::Cdr => cdr(args),
        };
        proof {
            lemma_alike_result_reflexive(result_view(r));
        }
        r
    }
}

/// The root environment: one scope, without a parent, that binds `pi` and the
/// native procedures.
pub fn setup() -> (env: Env)
    ensures
        env@ == seq![root_scope()],
{
    let mut env = Env::new();
    env.define("pi".to_string(), DataType::Number(Number::Float(PI_BITS)));
    env.define("begin".to_string(), DataType::Proc(Function::Begin));
    env.define("print".to_string(), DataType::Proc(Function::Print));
    env.define("*".to_string(), DataType::Proc(Function::Multiply));
    env.define("+".to_string(), DataType::Proc(Function::Add));
    env.define("-".to_string(), DataType::Proc(Function::Subtract));
    env.define("/".to_string(), DataType::Proc(Function::Divide));
    env.define("list".to_string(), DataType::Proc(Function::List));
    env.define("car".to_string(), DataType::Proc(Function::Car));
    env.define("cdr".to_string(), DataType::Proc(Function::Cdr));
    assert(env@ =~= seq![root_scope()]);
    env
}

} // verus!
