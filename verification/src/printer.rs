//! Printing expressions as text.
use vstd::prelude::*;
use crate::context::{Atom, AtomModel, PMNI, SExpr, SExprModel, lemma_list_view};
use crate::text::push_char;
use vstd::string::StringExecFns;
use crate::utils::{decimal, push_decimal};

verus! {

/// The text of an integer: its decimal numeral, after a `-` when negative.
pub open spec fn show_int(v: int) -> Seq<char> {
    if v < 0 {
        seq!['-'] + decimal((-v) as nat)
    } else {
        decimal(v as nat)
    }
}

/// The text of an atom.
pub open spec fn show_atom(a: AtomModel) -> Seq<char> {
    match a {
        AtomModel::Nil => seq!['n', 'i', 'l'],
        AtomModel::Bool(b) => if b {
            seq!['t', 'r', 'u', 'e']
        } else {
            seq!['f', 'a', 'l', 's', 'e']
        },
        AtomModel::Int(v) => show_int(v as int),
        AtomModel::Uint(v) => decimal(v as nat),
        AtomModel::Float(t) => t,
        AtomModel::Char(c) => seq!['\'', c, '\''],
        AtomModel::Str(t) => seq!['"'] + t + seq!['"'],
        AtomModel::Sym(t) => t,
    }
}

/// The text of an expression: a list is its items' texts between
/// parentheses, separated by spaces.
pub open spec fn show(e: SExprModel) -> Seq<char>
    decreases e, 1int,
{
    match e {
        SExprModel::Atom(a) => show_atom(a),
        SExprModel::List(l) => seq!['('] + show_items(l) + seq![')'],
    }
}

/// The texts of `l` in order, a space before each but where nothing precedes it.
pub open spec fn show_items(l: Seq<SExprModel>) -> Seq<char>
    decreases l, 0int,
{
    if l.len() == 0 {
        Seq::empty()
    } else {
        let a = show_items(l.drop_last());
        (if a.len() != 0 {
            a.push(' ')
        } else {
            a
        }) + show(l.last())
    }
}

/// Appends `t` to `s`.
fn push_str_of(s: &mut String, t: &String)
    ensures
        final(s)@ == old(s)@ + t@,
{
    s.append(t.as_str());
}

impl Atom {
    /// The text of this atom.
    pub fn to_string(&self) -> (r: String)
        ensures
            r@ == show_atom(self@),
    {
        let mut s = String::new();
        let ghost empty = s@;
        match self {
            Atom::Nil => {
                push_char(&mut s, 'n');
                push_char(&mut s, 'i');
                push_char(&mut s, 'l');
            },
            Atom::Bool(b) => {
                if *b {
                    push_char(&mut s, 't');
                    push_char(&mut s, 'r');
                    push_char(&mut s, 'u');
                    push_char(&mut s, 'e');
                } else {
                    push_char(&mut s, 'f');
                    push_char(&mut s, 'a');
                    push_char(&mut s, 'l');
                    push_char(&mut s, 's');
                    push_char(&mut s, 'e');
                }
            },
            Atom::Int(v) => {
                if *v < 0 {
                    push_char(&mut s, '-');
                    let m: u64 = if *v == i64::MIN {
                        9223372036854775808u64
                    } else {
                        (-*v) as u64
                    };
                    push_decimal(&mut s, m);
                } else {
                    push_decimal(&mut s, *v as u64);
                }
            },
            Atom::Uint(v) => {
                push_decimal(&mut s, *v);
            },
            Atom::Float(t) => {
                push_str_of(&mut s, t);
            },
            Atom::Char(c) => {
                push_char(&mut s, '\'');
                push_char(&mut s, *c);
                push_char(&mut s, '\'');
            },
            Atom::Str(t) => {
                push_char(&mut s, '"');
                push_str_of(&mut s, t);
                push_char(&mut s, '"');
            },
            Atom::Sym(t) => {
                push_str_of(&mut s, t);
            },
        }
        assert(s@ =~= show_atom(self@));
        s
    }
}

impl SExpr {
    /// The text of this expression.
    pub fn to_string(&self) -> (r: String)
        ensures
            r@ == show(self@),
        decreases self,
    {
        match self {
            SExpr::Atom(a) => a.to_string(),
            SExpr::List(l) => {
                proof {
                    lemma_list_view(*l);
                }
                let ghost ls = self@->List_0;
                let mut s = String::new();
                push_char(&mut s, '(');
                let mut items = String::new();
                let mut i: usize = 0;
                assert(ls.take(0) =~= Seq::<SExprModel>::empty());
                while i < l.len()
                    invariant
                        *self == SExpr::List(*l),
                        ls == self@->List_0,
                        ls.len() == l@.len(),
                        forall|j: int| 0 <= j < l@.len() ==> #[trigger] ls[j] == l@[j]@,
                        i <= l@.len(),
                        items@ == show_items(ls.take(i as int)),
                    decreases l@.len() - i,
                {
                    assert(decreases_to!(self => l@[i as int]));
                    let ghost before = items@;
                    if !items.as_str().is_empty() {
                        push_char(&mut items, ' ');
                    }
                    let t = l[i].to_string();
                    push_str_of(&mut items, &t);
                    proof {
                        assert(ls.take(i + 1).drop_last() =~= ls.take(i as int));
                        assert(ls.take(i + 1).last() == l@[i as int]@);
                        
                    }
                    i = i + 1;
                }
                assert(ls.take(l@.len() as int) =~= ls);
                push_str_of(&mut s, &items);
                push_char(&mut s, ')');
                assert(s@ =~= show(self@));
                s
            },
        }
    }
}

impl PMNI {
    /// How a process macro shows itself: `<process-macro 'NAME'>`.
    pub fn to_string(&self) -> (r: String)
        ensures
            r@ == "<process-macro '"@ + self.0@ + "'>"@,
    {
        let mut s = String::from_str("<process-macro '");
        s.append(self.0.as_str());
        s.append("'>");
        s
    }
}

} // verus!
