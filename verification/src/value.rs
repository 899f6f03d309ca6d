//! The values that evaluation produces.

use vstd::prelude::*;

verus! {

/// A number: an integer or a float. The tag is part of the value; a float is
/// never silently turned into an integer.
#[derive(Clone, Copy, Debug, PartialEq, Eq, Structural)]
pub enum Number {
    /// A 64-bit signed integer.
    Integer(i64),
    /// A binary64 float, by its bits.
    Float(u64),
}

/// A native procedure. Procedures capture no environment: each is one of
/// these nine operations on a list of evaluated arguments.
#[derive(Clone, Copy, Debug, PartialEq, Eq, Structural)]
pub enum Function {
    /// `begin`: the last argument.
    Begin,
    /// `print`: writes its one argument to the output.
    Print,
    /// `*`: the product of the arguments.
    Multiply,
    /// `+`: the sum of the arguments.
    Add,
    /// `-`: the negated sum of the arguments.
    Subtract,
    /// `/`: the arguments divided from left to right.
    Divide,
    /// `list`: the list of the arguments.
    List,
    /// `car`: the first element of a list.
    Car,
    /// `cdr`: a list without its first element.
    Cdr,
}

/// An evaluated value.
#[derive(Debug, PartialEq)]
pub enum DataType {
    /// A number.
    Number(Number),
    /// A symbol, by its text.
    Symbol(String),
    /// A native procedure.
    Proc(Function),
    /// A list of values. The order of the elements is significant.
    List(Vec<DataType>),
}

/// An evaluated value as a mathematical value.
pub enum DataView {
    Number(Number),
    Symbol(Seq<char>),
    Proc(Function),
    List(Seq<DataView>),
}

/// The mathematical value of a value.
pub open spec fn data_view(value: DataType) -> DataView
    decreases value, 0int,
{
    match value {
        DataType::Number(n) => DataView::Number(n),
        DataType::Symbol(s) => DataView::Symbol(s@),
        DataType::Proc(f) => DataView::Proc(f),
        DataType::List(items) => DataView::List(data_views_upto(items@, items@.len() as int)),
    }
}

/// The mathematical values of the first `k` values of a sequence.
pub open spec fn data_views_upto(items: Seq<DataType>, k: int) -> Seq<DataView>
    decreases items, k,
{
    if k <= 0 || k > items.len() {
        Seq::empty()
    } else {
        data_views_upto(items, k - 1).push(data_view(items[k - 1]))
    }
}

impl View for DataType {
    type V = DataView;

    open spec fn view(&self) -> DataView {
        data_view(*self)
    }
}

/// The mathematical values of a sequence of values.
pub open spec fn data_views(items: Seq<DataType>) -> Seq<DataView> {
    Seq::new(items.len(), |i: int| items[i]@)
}

/// The mathematical value of an optional value.
pub open spec fn option_view(value: Option<DataType>) -> Option<DataView> {
    match value {
        Some(v) => Some(v@),
        None => None,
    }
}

/// The value holds no float, nor does any list in it.
pub open spec fn float_free(a: DataView) -> bool
    decreases a, 0int,
{
    match a {
        DataView::Number(Number::Float(_)) => false,
        DataView::List(xs) => float_free_upto(xs, xs.len() as int),
        _ => true,
    }
}

/// None of the first `k` values of `xs` holds a float.
pub open spec fn float_free_upto(xs: Seq<DataView>, k: int) -> bool
    decreases xs, k,
{
    if k <= 0 || k > xs.len() {
        true
    } else {
        float_free_upto(xs, k - 1) && float_free(xs[k - 1])
    }
}

proof fn lemma_data_views_upto(items: Seq<DataType>, k: int)
    requires
        0 <= k <= items.len(),
    ensures
        data_views_upto(items, k) == data_views(items.take(k)),
    decreases k,
{
    if k > 0 {
        lemma_data_views_upto(items, k - 1);
        assert(data_views(items.take(k - 1)).push(items[k - 1]@) =~= data_views(items.take(k)));
    } else {
        assert(data_views(items.take(k)) =~= Seq::<DataView>::empty());
    }
}

/// The value of a list is the list of the values of its elements.
pub proof fn lemma_list_view(items: Vec<DataType>)
    ensures
        DataType::List(items)@ == DataView::List(data_views(items@)),
{
    lemma_data_views_upto(items@, items@.len() as int);
    assert(items@.take(items@.len() as int) =~= items@);
}

impl Function {
    /// The name under which the root environment binds this procedure.
    pub open spec fn name_text(self) -> Seq<char> {
        match self {
            Function::Begin => "begin"@,
            Function::Print => "print"@,
            Function::Multiply => "*"@,
            Function::Add => "+"@,
            Function::Subtract => "-"@,
            Function::Divide => "/"@,
            Function::List => "list"@,
            Function::Car => "car"@,
            Function::Cdr => "cdr"@,
        }
    }

    /// The name under which the root environment binds this procedure.
    pub fn name(self) -> (r: &'static str)
        ensures
            r@ == self.name_text(),
    {
        match self {
            Function::Begin => "begin",
            Function::Print => "print",
            Function::Multiply => "*",
            Function::Add => "+",
            Function::Subtract => "-",
            Function::Divide => "/",
            Function::List => "list",
            Function::Car => "car",
            Function::Cdr => "cdr",
        }
    }
}

impl DataType {
    /// A copy with the same mathematical value.
    fn duplicate(&self) -> (copy: DataType)
        ensures
            copy@ == self@,
        decreases self,
    {
        match self {
            DataType::Number(n) => DataType::Number(*n),
            DataType::Symbol(s) => DataType::Symbol(s.clone()),
            DataType::Proc(f) => DataType::Proc(*f),
            DataType::List(items) => {
                let mut copies: Vec<DataType> = Vec::new();
                let mut i: usize = 0;
                while i < items.len()
                    invariant
                        *self == DataType::List(*items),
                        i <= items.len(),
                        copies.len() == i,
                        forall|j: int| 0 <= j < i ==> copies@[j]@ == items@[j]@,
                    decreases items.len() - i,
                {
                    assert(self->List_0 == *items);
                    copies.push(items[i].duplicate());
                    i += 1;
                }
                proof {
                    lemma_list_view(*items);
                    lemma_list_view(copies);
                    assert(data_views(copies@) =~= data_views(items@));
                }
                DataType::List(copies)
            },
        }
    }
}

impl Clone for DataType {
    /// A copy with the same mathematical value.
    fn clone(&self) -> (copy: DataType)
        ensures
            copy@ == self@,
    {
        self.duplicate()
    }
}

} // verus!
