//! The external representation of values: the text that stands for a value
//! where it is printed.

use vstd::prelude::*;
use crate::float::{prints, FloatModel};
use crate::value::{float_free, float_free_upto, DataType, DataView, Number};

verus! {

/// The character of a decimal digit.
pub open spec fn digit_char(d: int) -> char {
    ('0' as int + d) as char
}

/// The decimal digits of a natural number, without leading zeros.
pub open spec fn natural_text(n: nat) -> Seq<char>
    decreases n,
{
    if n < 10 {
        seq![digit_char(n as int)]
    } else {
        natural_text(n / 10).push(digit_char((n % 10) as int))
    }
}

/// The decimal text of an integer: its digits, after a minus sign where it is
/// negative.
pub open spec fn integer_text(i: int) -> Seq<char> {
    if i < 0 {
        seq!['-'] + natural_text((-i) as nat)
    } else {
        natural_text(i as nat)
    }
}

/// The external representation of a value.
///
/// An integer is its decimal digits, a float the decimal text that the
/// printer gives for it, a symbol its own text. A procedure is its name
/// between `#<procedure:` and `>`. A list is `'(`, the representations of its
/// elements with one space between neighbours, and `)`.
pub open spec fn external_text(fm: FloatModel, value: DataView) -> Seq<char>
    decreases value, 0int,
{
    match value {
        DataView::Number(Number::Integer(i)) => integer_text(i as int),
        DataView::Number(Number::Float(bits)) => fm.render(bits),
        DataView::Symbol(s) => s,
        DataView::Proc(f) => "#<procedure:"@ + f.name_text() + ">"@,
        DataView::List(items) => "'("@ + joined_text(fm, items, items.len() as int) + ")"@,
    }
}

/// The external representations of the first `k` of `items`, with one space
/// between neighbours.
pub open spec fn joined_text(fm: FloatModel, items: Seq<DataView>, k: int) -> Seq<char>
    decreases items, k,
{
    if k <= 0 || k > items.len() {
        Seq::empty()
    } else if k == 1 {
        external_text(fm, items[0])
    } else {
        joined_text(fm, items, k - 1) + " "@ + external_text(fm, items[k - 1])
    }
}

/// The text of one decimal digit.
fn digit_str(d: u64) -> (r: &'static str)
    requires
        d < 10,
    ensures
        r@ == seq![digit_char(d as int)],
{
    proof {
        reveal_strlit("0");
        reveal_strlit("1");
        reveal_strlit("2");
        reveal_strlit("3");
        reveal_strlit("4");
        reveal_strlit("5");
        reveal_strlit("6");
        reveal_strlit("7");
        reveal_strlit("8");
        reveal_strlit("9");
    }
    let r = if d == 0 {
        "0"
    } else if d == 1 {
        "1"
    } else if d == 2 {
        "2"
    } else if d == 3 {
        "3"
    } else if d == 4 {
        "4"
    } else if d == 5 {
        "5"
    } else if d == 6 {
        "6"
    } else if d == 7 {
        "7"
    } else if d == 8 {
        "8"
    } else {
        "9"
    };
    assert(r@ =~= seq![digit_char(d as int)]);
    r
}

/// The decimal text of an integer.
pub fn integer_to_string(i: i64) -> (text: String)
    ensures
        text@ == integer_text(i as int),
{
    let magnitude: u64 = if i < 0 {
        ((-(i + 1)) as u64) + 1
    } else {
        i as u64
    };
    let mut text = String::from_str(digit_str(magnitude % 10));
    let mut rest = magnitude / 10;
    while rest > 0
        invariant
            natural_text(magnitude as nat) == (if rest == 0 {
                text@
            } else {
                natural_text(rest as nat) + text@
            }),
        decreases rest,
    {
        let mut longer = String::from_str(digit_str(rest % 10));
        longer.append(text.as_str());
        proof {
            let d = seq![digit_char((rest % 10) as int)];
            if rest < 10 {
                assert(natural_text(rest as nat) + text@ =~= d + text@);
            } else {
                assert(natural_text((rest / 10) as nat).push(digit_char((rest % 10) as int))
                    + text@ =~= natural_text((rest / 10) as nat) + (d + text@));
            }
        }
        text = longer;
        rest = rest / 10;
    }
    if i < 0 {
        proof {
            reveal_strlit("-");
            assert("-"@ =~= seq!['-']);
        }
        String::from_str("-").concat(text.as_str())
    } else {
        text
    }
}

/// The external representation of a value. The decimal text of a float is
/// asked of the printer `show`.
///
/// The text is the one that `external_text` gives for every floating-point
/// model that `show` computes, and for every model where the value holds no
/// float.
pub fn datatype2str<S: Fn(u64) -> String>(value: &DataType, show: &S) -> (text: String)
    requires
        prints(show),
    ensures
        forall|fm: FloatModel|
            fm.rendered_by(show) || float_free(value@) ==> text@ == #[trigger] external_text(
                fm,
                value@,
            ),
    decreases value,
{
    match value {
        DataType::Number(Number::Integer(i)) => integer_to_string(*i),
        DataType::Number(Number::Float(bits)) => {
            let text = show(*bits);
            assert forall|fm: FloatModel| fm.rendered_by(show) implies text@
                == #[trigger] external_text(fm, value@) by {}
            text
        },
        DataType::Symbol(s) => s.clone(),
        DataType::Proc(f) => {
            let mut text = String::from_str("#<procedure:");
            text.append(f.name());
            text.append(">");
            text
        },
        DataType::List(items) => {
            let mut text = String::from_str("'(");
            let mut i: usize = 0;
            while i < items.len()
                invariant
                    prints(show),
                    *value == DataType::List(*items),
                    i <= items.len(),
                    forall|fm: FloatModel|
                        fm.rendered_by(show) || float_free_upto(value@->List_0, i as int) ==> text@
                            == "'("@ + #[trigger] joined_text(fm, value@->List_0, i as int),
                decreases items.len() - i,
            {
                assert(value->List_0 == *items);
                if i > 0 {
                    text.append(" ");
                }
                let item = datatype2str(&items[i], show);
                text.append(item.as_str());
                proof {
                    crate::value::lemma_list_view(*items);
                    assert forall|fm: FloatModel|
                        fm.rendered_by(show) || float_free_upto(
                            value@->List_0,
                            i + 1,
                        ) implies text@ == "'("@ + #[trigger] joined_text(
                        fm,
                        value@->List_0,
                        i + 1,
                    ) by {
                        let all = value@->List_0;
                        assert(all[i as int] == items@[i as int]@);
                        assert(item@ == external_text(fm, all[i as int]));
                        if i == 0 {
                            assert(joined_text(fm, all, 0) =~= Seq::<char>::empty());
                            assert("'("@ + joined_text(fm, all, 0) + item@ =~= "'("@ + item@);
                        } else {
                            assert(("'("@ + joined_text(fm, all, i as int)) + " "@ + item@ =~= "'("@
                                + (joined_text(fm, all, i as int) + " "@ + item@));
                        }
                    }
                }
                i += 1;
            }
            let ghost inner = text@;
            text.append(")");
            proof {
                crate::value::lemma_list_view(*items);
                assert forall|fm: FloatModel|
                    fm.rendered_by(show) || float_free(value@) implies text@
                    == #[trigger] external_text(fm, value@) by {
                    let all = value@->List_0;
                    assert(inner == "'("@ + joined_text(fm, all, all.len() as int));
                }
            }
            text
        },
    }
}

} // verus!
