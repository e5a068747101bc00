//! Printed expressions read back as themselves.
//!
//! Printing and reading agree on most expressions: the exceptions are
//! booleans (printed `true`/`false`, read from `#t`/`#f`), integers that are
//! not negative (printed without a sign, which reads as unsigned), characters
//! `\` and `'`, strings holding `"` or `\` (printed without escapes), and
//! symbols whose text would read as something else.
use vstd::prelude::*;
use crate::context::{AtomModel, SExprModel};
use crate::parser::{
    classify_word, digit_value, digits_value, first_dot, is_delim, is_digit, is_digits,
    is_float_text, is_int_text, is_sign, is_unsigned_float, is_ws, parse_all, parse_expr,
    parse_items, skip_ws, spec_parse, string_end, unescape, word_end,
};
use crate::printer::{show, show_atom, show_int, show_items};
use crate::utils::{decimal, digit_char};
use crate::laws::law_unescape_plain_text;

verus! {

/// A word: one or more characters, none of which ends a word.
pub open spec fn is_word(t: Seq<char>) -> bool {
    t.len() > 0 && forall|i: int| 0 <= i < t.len() ==> !is_delim(#[trigger] t[i])
}

/// An atom whose text reads back as itself.
pub open spec fn printable_atom(a: AtomModel) -> bool {
    match a {
        AtomModel::Nil => true,
        AtomModel::Bool(_) => false,
        AtomModel::Int(v) => v < 0,
        AtomModel::Uint(_) => true,
        AtomModel::Float(t) => is_float_text(t),
        AtomModel::Char(c) => c != '\\' && c != '\'',
        AtomModel::Str(t) => forall|i: int| 0 <= i < t.len() ==> #[trigger] t[i] != '"' && t[i] != '\\',
        AtomModel::Sym(t) => is_word(t) && classify_word(t) == Some(AtomModel::Sym(t)),
    }
}

/// An expression whose text reads back as itself: its atoms do.
pub open spec fn printable(e: SExprModel) -> bool
    decreases e, 1int,
{
    match e {
        SExprModel::Atom(a) => printable_atom(a),
        SExprModel::List(l) => all_printable(l),
    }
}

/// Every expression of `l` is printable.
pub open spec fn all_printable(l: Seq<SExprModel>) -> bool
    decreases l, 0int,
{
    l.len() == 0 || (printable(l[0]) && all_printable(l.drop_first()))
}

/// Where an item's text may end: at the end of the text, a space or `)`.
pub open spec fn item_end(s: Seq<char>, j: int) -> bool {
    j == s.len() || (0 <= j < s.len() && (s[j] == ' ' || s[j] == ')'))
}

/// A character that may open an item's text.
pub open spec fn opens_item(c: char) -> bool {
    !is_ws(c) && c != ';' && c != ')' && c != ']'
}

// ----- numerals -----

/// A digit's character is a digit worth the digit.
proof fn lemma_digit_char(d: nat)
    requires
        d < 10,
    ensures
        is_digit(digit_char(d)),
        digit_value(digit_char(d)) == d,
{
}

/// A numeral is digits and worth its number.
pub proof fn lemma_decimal_digits(n: nat)
    ensures
        is_digits(decimal(n)),
        digits_value(decimal(n)) == n,
        first_dot(decimal(n)) == decimal(n).len(),
    decreases n,
{
    let w = decimal(n);
    if n < 10 {
        lemma_digit_char(n);
        assert(w.drop_last() =~= Seq::<char>::empty());
        assert(digits_value(w.drop_last()) == 0);
        assert(is_digit(w[0]));
        lemma_digits_no_dot(w);
    } else {
        lemma_decimal_digits(n / 10);
        lemma_digit_char(n % 10);
        let p = decimal(n / 10);
        assert(w.drop_last() =~= p);
        assert forall|i: int| 0 <= i < w.len() implies is_digit(#[trigger] w[i]) by {
            if i < p.len() {
                assert(w[i] == p[i]);
            }
        }
        assert(n == (n / 10) * 10 + n % 10);
        lemma_digits_no_dot(w);
    }
}

/// Without a dot, the first dot is at the end.
proof fn lemma_first_dot_no_dot(w: Seq<char>)
    requires
        forall|i: int| 0 <= i < w.len() ==> #[trigger] w[i] != '.',
    ensures
        first_dot(w) == w.len(),
    decreases w.len(),
{
    if w.len() > 0 {
        assert forall|i: int| 0 <= i < w.skip(1).len() implies #[trigger] w.skip(1)[i] != '.' by {
            assert(w.skip(1)[i] == w[i + 1]);
        }
        lemma_first_dot_no_dot(w.skip(1));
    }
}

/// Digits hold no dot.
proof fn lemma_digits_no_dot(w: Seq<char>)
    requires
        is_digits(w),
    ensures
        first_dot(w) == w.len(),
{
    assert forall|i: int| 0 <= i < w.len() implies #[trigger] w[i] != '.' by {
        assert(is_digit(w[i]));
    }
    lemma_first_dot_no_dot(w);
}

/// The first dot of `w` lies at `first_dot(w)` when it lies inside `w`.
proof fn lemma_first_dot_is_dot(w: Seq<char>)
    ensures
        0 <= first_dot(w) <= w.len(),
        first_dot(w) < w.len() ==> w[first_dot(w)] == '.',
    decreases w.len(),
{
    if w.len() > 0 && w[0] != '.' {
        lemma_first_dot_is_dot(w.skip(1));
    }
}

/// A float's text is made of a sign, digits and a dot, and starts with a
/// sign or a digit.
proof fn lemma_float_chars(t: Seq<char>)
    requires
        is_float_text(t),
    ensures
        is_word(t),
        is_sign(t[0]) || is_digit(t[0]),
{
    let u = if is_sign(t[0]) {
        t.skip(1)
    } else {
        t
    };
    let off: int = if is_sign(t[0]) {
        1
    } else {
        0
    };
    let p = first_dot(u);
    lemma_first_dot_is_dot(u);
    assert forall|i: int| 0 <= i < t.len() implies !is_delim(#[trigger] t[i]) by {
        if i >= off {
            let k = i - off;
            assert(u[k] == t[i]);
            if k < p {
                assert(u.take(p)[k] == u[k]);
                assert(is_digit(u.take(p)[k]));
            } else if k > p {
                assert(u.skip(p + 1)[k - p - 1] == u[k]);
                assert(is_digit(u.skip(p + 1)[k - p - 1]));
            }
        }
    }
    if !is_sign(t[0]) {
        assert(u.take(p)[0] == t[0]);
        assert(is_digit(u.take(p)[0]));
    }
}

// ----- words -----

/// A word in the text ends where its characters stop.
proof fn lemma_word_end_at(s: Seq<char>, i: int, n: int)
    requires
        0 <= i,
        0 <= n,
        i + n <= s.len(),
        forall|k: int| i <= k < i + n ==> !is_delim(#[trigger] s[k]),
        i + n == s.len() || is_delim(s[i + n]),
    ensures
        word_end(s, i) == i + n,
    decreases n,
{
    if n > 0 {
        lemma_word_end_at(s, i + 1, n - 1);
    }
}

/// The atoms whose texts are words read back from their words.
proof fn lemma_classify_printed(a: AtomModel)
    requires
        printable_atom(a),
        !(a is Char || a is Str),
    ensures
        is_word(show_atom(a)),
        classify_word(show_atom(a)) == Some(a),
{
    match a {
        AtomModel::Nil => {
            let w = seq!['n', 'i', 'l'];
            assert(show_atom(a) =~= w);
        },
        AtomModel::Uint(v) => {
            let w = decimal(v as nat);
            lemma_decimal_digits(v as nat);
            assert(is_digit(w[0]));
            assert(w != seq!['n', 'i', 'l']) by {
                if w == seq!['n', 'i', 'l'] {
                    assert(w[0] == 'n');
                }
            }
            assert(w != seq!['#', 't']) by {
                if w == seq!['#', 't'] {
                    assert(w[0] == '#');
                }
            }
            assert(w != seq!['#', 'f']) by {
                if w == seq!['#', 'f'] {
                    assert(w[0] == '#');
                }
            }
            assert(!is_sign(w[0]));
            assert(!is_unsigned_float(w));
            assert(!is_int_text(w));
            assert forall|i: int| 0 <= i < w.len() implies !is_delim(#[trigger] w[i]) by {
                assert(is_digit(w[i]));
            }
        },
        AtomModel::Int(v) => {
            let m = (-v) as nat;
            let d = decimal(m);
            let w = show_atom(a);
            lemma_decimal_digits(m);
            assert(w =~= seq!['-'] + d);
            assert(w.skip(1) =~= d);
            assert(w[0] == '-');
            assert(w != seq!['n', 'i', 'l']) by {
                if w == seq!['n', 'i', 'l'] {
                    assert(w[0] == 'n');
                }
            }
            assert(w != seq!['#', 't']) by {
                if w == seq!['#', 't'] {
                    assert(w[0] == '#');
                }
            }
            assert(w != seq!['#', 'f']) by {
                if w == seq!['#', 'f'] {
                    assert(w[0] == '#');
                }
            }
            assert(!is_unsigned_float(w.skip(1)));
            assert(is_int_text(w));
            assert forall|i: int| 0 <= i < w.len() implies !is_delim(#[trigger] w[i]) by {
                if i > 0 {
                    assert(w[i] == d[i - 1]);
                    assert(is_digit(d[i - 1]));
                }
            }
        },
        AtomModel::Float(t) => {
            lemma_float_chars(t);
            assert(t != seq!['n', 'i', 'l']) by {
                if t == seq!['n', 'i', 'l'] {
                    assert(t[0] == 'n');
                }
            }
            assert(t != seq!['#', 't']) by {
                if t == seq!['#', 't'] {
                    assert(t[0] == '#');
                }
            }
            assert(t != seq!['#', 'f']) by {
                if t == seq!['#', 'f'] {
                    assert(t[0] == '#');
                }
            }
        },
        AtomModel::Sym(t) => {},
        _ => {},
    }
}

// ----- slices -----

/// Where `t` stands at `i` in `s`, each piece of `t` stands at its place.
proof fn lemma_slice(s: Seq<char>, i: int, t: Seq<char>, a: int, b: int)
    requires
        0 <= i,
        i + t.len() <= s.len(),
        s.subrange(i, i + t.len()) == t,
        0 <= a <= b <= t.len(),
    ensures
        s.subrange(i + a, i + b) == t.subrange(a, b),
        forall|k: int| a <= k < b ==> s[i + k] == #[trigger] t[k],
{
    assert forall|k: int| a <= k < b implies s[i + k] == #[trigger] t[k] by {
        assert(s.subrange(i, i + t.len())[k] == s[i + k]);
    }
    assert(s.subrange(i + a, i + b) =~= t.subrange(a, b));
}

// ----- strings -----

/// A string's text ends at the first `"` when it holds no escape.
proof fn lemma_string_end_at(s: Seq<char>, i: int, n: int)
    requires
        0 <= i,
        0 <= n,
        i + n < s.len(),
        forall|k: int| i <= k < i + n ==> #[trigger] s[k] != '"' && s[k] != '\\',
        s[i + n] == '"',
    ensures
        string_end(s, i) == Some(i + n),
    decreases n,
{
    if n > 0 {
        lemma_string_end_at(s, i + 1, n - 1);
    }
}

// ----- lists -----

/// A printable expression's text is not empty and opens as an item may.
pub proof fn lemma_show_opens(e: SExprModel)
    requires
        printable(e),
    ensures
        show(e).len() > 0,
        opens_item(show(e)[0]),
{
    match e {
        SExprModel::Atom(a) => {
            match a {
                AtomModel::Char(c) => {},
                AtomModel::Str(t) => {},
                _ => {
                    lemma_classify_printed(a);
                    assert(!is_delim(show_atom(a)[0]));
                },
            }
        },
        SExprModel::List(l) => {},
    }
}

/// The items' text read from the front: the first item's text, then a space
/// and the rest's text.
proof fn lemma_show_items_front(l: Seq<SExprModel>)
    requires
        l.len() > 0,
        forall|i: int| 0 <= i < l.len() ==> show(#[trigger] l[i]).len() > 0,
    ensures
        show_items(l).len() > 0,
        show_items(l) == show(l[0]) + (if l.len() > 1 {
            seq![' '] + show_items(l.drop_first())
        } else {
            Seq::empty()
        }),
    decreases l.len(),
{
    if l.len() == 1 {
        assert(show_items(l.drop_last()) =~= Seq::<char>::empty());
        assert(show_items(l) =~= show(l[0]));
    } else {
        let dl = l.drop_last();
        assert forall|i: int| 0 <= i < dl.len() implies show(#[trigger] dl[i]).len() > 0 by {
            assert(dl[i] == l[i]);
        }
        lemma_show_items_front(dl);
        let lf = l.drop_first();
        assert(lf.drop_last() =~= dl.drop_first());
        assert(lf.last() == l.last());
        assert(show(l.last()).len() > 0);
        if dl.len() > 1 {
            assert forall|i: int| 0 <= i < lf.len() implies show(#[trigger] lf[i]).len() > 0 by {
                assert(lf[i] == l[i + 1]);
            }
            assert forall|i: int| 0 <= i < dl.drop_first().len() implies show(
                #[trigger] dl.drop_first()[i],
            ).len() > 0 by {
                assert(dl.drop_first()[i] == l[i + 1]);
            }
            lemma_show_items_front(dl.drop_first());
            assert(show_items(lf) == show_items(dl.drop_first()).push(' ') + show(l.last()));
            assert(show_items(l) =~= show(l[0]) + (seq![' '] + show_items(lf)));
        } else {
            assert(dl.drop_first().len() == 0);
            assert(show_items(dl.drop_first()) =~= Seq::<char>::empty());
            assert(show_items(lf) =~= show(l.last()));
            assert(show_items(l) =~= show(l[0]) + (seq![' '] + show_items(lf)));
        }
    }
}

/// The printable items of a list have texts.
proof fn lemma_all_printable(l: Seq<SExprModel>)
    requires
        all_printable(l),
    ensures
        forall|i: int| 0 <= i < l.len() ==> printable(#[trigger] l[i]),
    decreases l.len(),
{
    if l.len() > 0 {
        lemma_all_printable(l.drop_first());
        assert forall|i: int| 0 <= i < l.len() implies printable(#[trigger] l[i]) by {
            if i > 0 {
                assert(l.drop_first()[i - 1] == l[i]);
            }
        }
    }
}

// ----- reading -----

/// Reading the text of a printable expression, where that text stands at `i`
/// and an item may end after it, gives back the expression.
pub proof fn lemma_read_printed(s: Seq<char>, i: int, e: SExprModel)
    requires
        printable(e),
        0 <= i,
        i + show(e).len() <= s.len(),
        s.subrange(i, i + show(e).len()) == show(e),
        item_end(s, i + show(e).len()),
    ensures
        parse_expr(s, i) == Some((e, i + show(e).len())),
    decreases e, 1int,
{
    let t = show(e);
    let n = t.len() as int;
    lemma_show_opens(e);
    lemma_slice(s, i, t, 0, n);
    assert(s[i] == t[0]);
    match e {
        SExprModel::Atom(a) => {
            match a {
                AtomModel::Char(c) => {
                    assert(t =~= seq!['\'', c, '\'']);
                    assert(s[i + 1] == t[1] && s[i + 2] == t[2]);
                },
                AtomModel::Str(x) => {
                    assert(t =~= seq!['"'] + x + seq!['"']);
                    lemma_slice(s, i, t, 0, n);
                    lemma_slice(s, i, t, 1, 1 + x.len() as int);
                    assert(t.subrange(1, 1 + x.len() as int) =~= x);
                    assert forall|k: int| i + 1 <= k < i + 1 + x.len() implies #[trigger] s[k]
                        != '"' && s[k] != '\\' by {
                        assert(s[i + (k - i)] == t[k - i]);
                        assert(t[k - i] == x[k - i - 1]);
                    }
                    assert(s[i + (n - 1)] == t[n - 1]);
                    lemma_string_end_at(s, i + 1, x.len() as int);
                    law_unescape_plain_text(x);
                },
                _ => {
                    lemma_classify_printed(a);
                    lemma_slice(s, i, t, 0, n);
                    assert forall|k: int| i <= k < i + n implies !is_delim(#[trigger] s[k]) by {
                        assert(s[i + (k - i)] == t[k - i]);
                    }
                    lemma_word_end_at(s, i, n);
                    assert(s.subrange(i, i + n) == t);
                    if n == 1 {
                        assert(!(i + 1 < s.len() && s[i + 1] == '"'));
                    } else {
                        assert(s[i + 1] == t[1]);
                    }
                },
            }
        },
        SExprModel::List(l) => {
            let body = show_items(l);
            assert(t =~= seq!['('] + body + seq![')']);
            lemma_slice(s, i, t, 1, 1 + body.len() as int);
            assert(t.subrange(1, 1 + body.len() as int) =~= body);
            assert(s[i + (n - 1)] == t[n - 1]);
            lemma_read_printed_items(s, i + 1, l);
        },
    }
}

/// Reading the items' text of printable expressions, followed by `)`, gives
/// back the items.
pub proof fn lemma_read_printed_items(s: Seq<char>, j: int, l: Seq<SExprModel>)
    requires
        all_printable(l),
        0 <= j,
        j + show_items(l).len() < s.len(),
        s.subrange(j, j + show_items(l).len()) == show_items(l),
        s[j + show_items(l).len()] == ')',
    ensures
        parse_items(s, j, ')') == Some((l, j + show_items(l).len() + 1)),
    decreases l, 0int,
{
    lemma_all_printable(l);
    if l.len() == 0 {
        assert(show_items(l).len() == 0);
        assert(skip_ws(s, j, false) == j);
        assert(l =~= Seq::<SExprModel>::empty());
    } else {
        assert forall|i: int| 0 <= i < l.len() implies show(#[trigger] l[i]).len() > 0 by {
            lemma_show_opens(l[i]);
        }
        lemma_show_items_front(l);
        let first = show(l[0]);
        let n0 = first.len() as int;
        let whole = show_items(l);
        let m = whole.len() as int;
        lemma_show_opens(l[0]);
        lemma_slice(s, j, whole, 0, n0);
        assert(whole.subrange(0, n0) =~= first);
        assert(whole[0] == first[0]);
        assert(s[j] == first[0]);
        assert(skip_ws(s, j, false) == j);
        if l.len() > 1 {
            let rest = show_items(l.drop_first());
            lemma_slice(s, j, whole, n0, m);
            assert(whole[n0] == ' ');
            assert(s[j + n0] == ' ');
            lemma_read_printed(s, j, l[0]);
            assert(all_printable(l.drop_first()));
            assert forall|i: int| 0 <= i < l.drop_first().len() implies show(
                #[trigger] l.drop_first()[i],
            ).len() > 0 by {
                assert(l.drop_first()[i] == l[i + 1]);
            }
            lemma_show_items_front(l.drop_first());
            lemma_show_opens(l.drop_first()[0]);
            lemma_slice(s, j, whole, n0 + 1, m);
            assert(whole.subrange(n0 + 1, m) =~= rest);
            assert(whole[n0 + 1] == rest[0]);
            assert(s[j + n0 + 1] == rest[0]);
            assert(skip_ws(s, j + n0, false) == skip_ws(s, j + n0 + 1, false));
            lemma_read_printed_items(s, j + n0 + 1, l.drop_first());
            assert(skip_ws(s, j + n0 + 1, false) == j + n0 + 1);
            assert(m == n0 + 1 + rest.len());
            assert(parse_items(s, j + n0, ')') == parse_items(s, j + n0 + 1, ')'));
            assert(parse_expr(s, j) == Some((l[0], j + n0)));
            assert(seq![l[0]] + l.drop_first() =~= l);
            assert(parse_items(s, j, ')') == Some((seq![l[0]] + l.drop_first(), j + m + 1)));
        } else {
            assert(m == n0);
            assert(s[j + n0] == ')');
            lemma_read_printed(s, j, l[0]);
            assert(skip_ws(s, j + n0, false) == j + n0);
            assert(parse_items(s, j + n0, ')') == Some((Seq::<SExprModel>::empty(), j + n0 + 1)));
            assert(seq![l[0]] + Seq::<SExprModel>::empty() =~= l);
            assert(parse_expr(s, j) == Some((l[0], j + n0)));
        }
    }
}

/// The text of a printable expression reads back as that expression alone.
pub proof fn law_printed_text_reads_back(e: SExprModel)
    requires
        printable(e),
    ensures
        spec_parse(show(e)) == Some(seq![e]),
{
    let s = show(e);
    lemma_show_opens(e);
    assert(s.subrange(0, s.len() as int) =~= s);
    lemma_read_printed(s, 0, e);
    assert(skip_ws(s, 0, false) == 0);
    assert(skip_ws(s, s.len() as int, false) == s.len());
    assert(parse_all(s, s.len() as int) == Some(Seq::<SExprModel>::empty()));
    assert(seq![e] + Seq::<SExprModel>::empty() =~= seq![e]);
}

/// The text of an integer reads back as its value: a negative integer as
/// that integer, any other as the unsigned integer of the same value; the
/// text starts with `-` exactly when the integer is negative.
pub proof fn law_integer_text_reads_back(v: i64)
    ensures
        classify_word(show_atom(AtomModel::Int(v))) == (if v < 0 {
            Some(AtomModel::Int(v))
        } else {
            Some(AtomModel::Uint(v as u64))
        }),
        show_atom(AtomModel::Int(v)).len() > 0,
        (show_atom(AtomModel::Int(v))[0] == '-') == (v < 0),
{
    if v < 0 {
        lemma_classify_printed(AtomModel::Int(v));
        lemma_decimal_digits((-v) as nat);
    } else {
        assert(show_atom(AtomModel::Int(v)) == show_atom(AtomModel::Uint(v as u64)));
        lemma_classify_printed(AtomModel::Uint(v as u64));
        lemma_decimal_digits(v as nat);
        let d = decimal(v as nat);
        assert(is_digit(d[0]));
    }
}

} // verus!
