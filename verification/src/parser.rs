//! The reader: text to S-expressions.
//!
//! The grammar, over characters:
//! ```text
//! corn    := ws (sexpr ws)*
//! ws      := (' ' | '\t' | '\n' | '\r' | ';' <anything up to and including a newline>)*
//! sexpr   := '(' ws (sexpr ws)* ')' | '[' ws (sexpr ws)* ']'
//!          | char | '\'' sexpr | ',' sexpr
//!          | '"' (<char but '"' and '\'> | '\' esc)* '"'
//!          | 'r"' <chars but '"'> '"'
//!          | word
//! char    := '\'' <char but '\'' and '\'> '\'' | '\'' '\' esc '\''
//! esc     := 'n' | 'r' | 't' | '\' | '\'' | '"'
//! word    := <one or more chars, none of them whitespace, '(' ')' '[' ']' '"' '\'' ',' ';'>
//! ```
//! `'e` reads as `(quote e)` and `,e` as `(unquote e)`. A word is `nil`, a
//! boolean `#t` or `#f`, a float (an optional sign, digits, `.`, digits), an
//! integer (a sign and digits), an unsigned integer (digits) or else a
//! symbol. An integer that does not fit its type makes the text unreadable.
use vstd::prelude::*;
use crate::context::{
    Atom, AtomModel, SExpr, SExprModel, lemma_atom_view, lemma_list_view, lemma_models, models,
    sym_model,
};
use crate::matching::quote_name;
use crate::preprocessor::unquote_name;
use crate::text::{chars_of, push_char, string_of};

verus! {

// ----- characters -----

/// Whitespace between expressions.
pub open spec fn is_ws(c: char) -> bool {
    c == ' ' || c == '\t' || c == '\n' || c == '\r'
}

/// A character that ends a word.
pub open spec fn is_delim(c: char) -> bool {
    is_ws(c) || c == '(' || c == ')' || c == '[' || c == ']' || c == '"' || c == '\'' || c == ','
        || c == ';'
}

/// A character that may follow a backslash.
pub open spec fn is_escapable(c: char) -> bool {
    c == 'n' || c == 'r' || c == 't' || c == '\\' || c == '\'' || c == '"'
}

/// The character that a backslash followed by `c` stands for.
pub open spec fn escape_char(c: char) -> char {
    if c == 'n' {
        '\n'
    } else if c == 'r' {
        '\r'
    } else if c == 't' {
        '\t'
    } else {
        c
    }
}

/// Every backslash of `s` but a last one is followed by an escapable character.
pub open spec fn escapes_valid(s: Seq<char>) -> bool
    decreases s.len(),
{
    if s.len() == 0 {
        true
    } else if s[0] == '\\' {
        s.len() == 1 || (is_escapable(s[1]) && escapes_valid(s.skip(2)))
    } else {
        escapes_valid(s.skip(1))
    }
}

/// `s` with each backslash and the character after it replaced by the
/// character they stand for; a last lone backslash is dropped.
pub open spec fn unescape(s: Seq<char>) -> Seq<char>
    decreases s.len(),
{
    if s.len() == 0 {
        Seq::empty()
    } else if s[0] == '\\' {
        if s.len() == 1 {
            Seq::empty()
        } else {
            seq![escape_char(s[1])] + unescape(s.skip(2))
        }
    } else {
        seq![s[0]] + unescape(s.skip(1))
    }
}

/// The character that a backslash followed by `c` stands for.
pub fn escape_char_map(c: char) -> (r: char)
    requires
        is_escapable(c),
    ensures
        r == escape_char(c),
{
    if c == 'n' {
        '\n'
    } else if c == 'r' {
        '\r'
    } else if c == 't' {
        '\t'
    } else {
        c
    }
}

/// `v[from..to]` with its escapes replaced.
pub fn unescape_range(v: &Vec<char>, from: usize, to: usize) -> (r: String)
    requires
        from <= to <= v@.len(),
        escapes_valid(v@.subrange(from as int, to as int)),
    ensures
        r@ == unescape(v@.subrange(from as int, to as int)),
{
    let ghost s = v@.subrange(from as int, to as int);
    let mut out = String::new();
    let mut esc = false;
    let mut i = from;
    assert(s.skip(0) =~= s);
    assert(out@ + unescape(s) =~= unescape(s));
    while i < to
        invariant
            s == v@.subrange(from as int, to as int),
            from <= i <= to <= v@.len(),
            !esc ==> out@ + unescape(s.skip(i - from)) == unescape(s) && escapes_valid(
                s.skip(i - from),
            ),
            esc ==> from < i && s[i - from - 1] == '\\' && out@ + unescape(s.skip(i - from - 1))
                == unescape(s) && escapes_valid(s.skip(i - from - 1)),
        decreases to - i,
    {
        let c = v[i];
        let ghost k = i - from;
        assert(s[k] == c);
        if esc {
            let ghost t = s.skip(k - 1);
            assert(t[0] == '\\' && t.len() > 1 && t[1] == c);
            assert(t.skip(2) =~= s.skip(k + 1));
            let d = escape_char_map(c);
            let ghost before = out@;
            push_char(&mut out, d);
            assert(out@ + unescape(s.skip(k + 1)) =~= before + unescape(t));
            esc = false;
        } else if c == '\\' {
            esc = true;
        } else {
            let ghost t = s.skip(k);
            assert(t.skip(1) =~= s.skip(k + 1));
            let ghost before = out@;
            push_char(&mut out, c);
            assert(out@ + unescape(s.skip(k + 1)) =~= before + unescape(t));
        }
        i = i + 1;
    }
    proof {
        if esc {
            let t = s.skip(i - from - 1);
            assert(t.len() == 1);
            assert(unescape(t) =~= Seq::<char>::empty());
            assert(out@ =~= unescape(s));
        } else {
            assert(s.skip(i - from).len() == 0);
            assert(out@ =~= unescape(s));
        }
    }
    out
}

/// `s` with its escapes replaced.
pub fn escape(s: &str) -> (r: String)
    requires
        escapes_valid(s@),
    ensures
        r@ == unescape(s@),
{
    let v = chars_of(s);
    assert(v@.subrange(0, v@.len() as int) =~= v@);
    unescape_range(&v, 0, v.len())
}

// ----- layout -----

/// The position of the first character at or after `i` that is not
/// whitespace or inside a comment (`in_comment`: `i` is inside one).
pub open spec fn skip_ws(s: Seq<char>, i: int, in_comment: bool) -> int
    decreases s.len() - i,
{
    if i < 0 || i >= s.len() {
        i
    } else if in_comment {
        skip_ws(s, i + 1, s[i] != '\n')
    } else if is_ws(s[i]) {
        skip_ws(s, i + 1, false)
    } else if s[i] == ';' {
        skip_ws(s, i + 1, true)
    } else {
        i
    }
}

/// Skipping layout never moves back, nor past the end.
pub proof fn lemma_skip_ws(s: Seq<char>, i: int, in_comment: bool)
    requires
        0 <= i <= s.len(),
    ensures
        i <= skip_ws(s, i, in_comment) <= s.len(),
    decreases s.len() - i,
{
    if i < s.len() {
        if in_comment {
            lemma_skip_ws(s, i + 1, s[i] != '\n');
        } else if is_ws(s[i]) {
            lemma_skip_ws(s, i + 1, false);
        } else if s[i] == ';' {
            lemma_skip_ws(s, i + 1, true);
        }
    }
}

/// The first position at or after `i` whose character ends a word.
pub open spec fn word_end(s: Seq<char>, i: int) -> int
    decreases s.len() - i,
{
    if i < 0 || i >= s.len() || is_delim(s[i]) {
        i
    } else {
        word_end(s, i + 1)
    }
}

/// A word ends at or after its start, and not past the text.
pub proof fn lemma_word_end(s: Seq<char>, i: int)
    requires
        0 <= i <= s.len(),
    ensures
        i <= word_end(s, i) <= s.len(),
        forall|j: int| i <= j < word_end(s, i) ==> !is_delim(#[trigger] s[j]),
    decreases s.len() - i,
{
    if i < s.len() && !is_delim(s[i]) {
        lemma_word_end(s, i + 1);
    }
}

/// The position of the `"` that closes a string whose text starts at `i`;
/// `None` if there is none or an escape is invalid.
pub open spec fn string_end(s: Seq<char>, i: int) -> Option<int>
    decreases s.len() - i,
{
    if i < 0 || i >= s.len() {
        None
    } else if s[i] == '"' {
        Some(i)
    } else if s[i] == '\\' {
        if i + 1 < s.len() && is_escapable(s[i + 1]) {
            string_end(s, i + 2)
        } else {
            None
        }
    } else {
        string_end(s, i + 1)
    }
}

/// The position of the first `"` at or after `i`.
pub open spec fn raw_end(s: Seq<char>, i: int) -> Option<int>
    decreases s.len() - i,
{
    if i < 0 || i >= s.len() {
        None
    } else if s[i] == '"' {
        Some(i)
    } else {
        raw_end(s, i + 1)
    }
}

/// A string's end lies in the text, and its escapes are valid.
pub proof fn lemma_string_end(s: Seq<char>, i: int)
    requires
        0 <= i <= s.len(),
    ensures
        string_end(s, i) matches Some(j) ==> i <= j < s.len() && s[j] == '"' && escapes_valid(
            s.subrange(i, j),
        ),
    decreases s.len() - i,
{
    if i < s.len() {
        if s[i] == '"' {
            assert(s.subrange(i, i).len() == 0);
        } else if s[i] == '\\' {
            if i + 1 < s.len() && is_escapable(s[i + 1]) {
                lemma_string_end(s, i + 2);
                if let Some(j) = string_end(s, i + 2) {
                    assert(s.subrange(i, j).skip(2) =~= s.subrange(i + 2, j));
                }
            }
        } else {
            lemma_string_end(s, i + 1);
            if let Some(j) = string_end(s, i + 1) {
                assert(s.subrange(i, j).skip(1) =~= s.subrange(i + 1, j));
            }
        }
    }
}

/// A raw string's end lies in the text.
pub proof fn lemma_raw_end(s: Seq<char>, i: int)
    requires
        0 <= i <= s.len(),
    ensures
        raw_end(s, i) matches Some(j) ==> i <= j < s.len() && s[j] == '"',
    decreases s.len() - i,
{
    if i < s.len() && s[i] != '"' {
        lemma_raw_end(s, i + 1);
    }
}

// ----- words -----

/// A decimal digit.
pub open spec fn is_digit(c: char) -> bool {
    '0' <= c <= '9'
}

/// One or more decimal digits.
pub open spec fn is_digits(w: Seq<char>) -> bool {
    w.len() > 0 && forall|i: int| 0 <= i < w.len() ==> is_digit(#[trigger] w[i])
}

/// The value of a digit.
pub open spec fn digit_value(c: char) -> nat {
    (c as nat - '0' as nat) as nat
}

/// The value of a sequence of decimal digits.
pub open spec fn digits_value(w: Seq<char>) -> nat
    decreases w.len(),
{
    if w.len() == 0 {
        0
    } else {
        digits_value(w.drop_last()) * 10 + digit_value(w.last())
    }
}

/// A sign.
pub open spec fn is_sign(c: char) -> bool {
    c == '+' || c == '-'
}

/// The position of the first `.` of `w`, or its length.
pub open spec fn first_dot(w: Seq<char>) -> int
    decreases w.len(),
{
    if w.len() == 0 {
        0
    } else if w[0] == '.' {
        0
    } else {
        1 + first_dot(w.skip(1))
    }
}

/// Digits, a dot, digits.
pub open spec fn is_unsigned_float(w: Seq<char>) -> bool {
    let p = first_dot(w);
    0 < p < w.len() && is_digits(w.take(p)) && is_digits(w.skip(p + 1))
}

/// A float literal: an optional sign, digits, a dot, digits.
pub open spec fn is_float_text(w: Seq<char>) -> bool {
    if w.len() > 0 && is_sign(w[0]) {
        is_unsigned_float(w.skip(1))
    } else {
        is_unsigned_float(w)
    }
}

/// An integer literal: a sign and digits.
pub open spec fn is_int_text(w: Seq<char>) -> bool {
    w.len() > 0 && is_sign(w[0]) && is_digits(w.skip(1))
}

/// The value of an integer literal.
pub open spec fn int_text_value(w: Seq<char>) -> int {
    if w[0] == '-' {
        -digits_value(w.skip(1))
    } else {
        digits_value(w.skip(1) ) as int
    }
}

/// The atom that the word `w` reads as; `None` for an integer out of range.
pub open spec fn classify_word(w: Seq<char>) -> Option<AtomModel> {
    if w == seq!['n', 'i', 'l'] {
        Some(AtomModel::Nil)
    } else if w == seq!['#', 't'] {
        Some(AtomModel::Bool(true))
    } else if w == seq!['#', 'f'] {
        Some(AtomModel::Bool(false))
    } else if is_float_text(w) {
        Some(AtomModel::Float(w))
    } else if is_int_text(w) {
        let v = int_text_value(w);
        if i64::MIN <= v <= i64::MAX {
            Some(AtomModel::Int(v as i64))
        } else {
            None
        }
    } else if is_digits(w) {
        let v = digits_value(w);
        if v <= u64::MAX {
            Some(AtomModel::Uint(v as u64))
        } else {
            None
        }
    } else {
        Some(AtomModel::Sym(w))
    }
}

// ----- expressions -----

/// The char literal that starts at `i` (with `'`), and the position after it.
pub open spec fn char_literal(s: Seq<char>, i: int) -> Option<(char, int)> {
    if 0 <= i && i + 2 < s.len() && s[i + 1] != '\\' && s[i + 1] != '\'' && s[i + 2] == '\'' {
        Some((s[i + 1], i + 3))
    } else if 0 <= i && i + 3 < s.len() && s[i + 1] == '\\' && is_escapable(s[i + 2]) && s[i + 3]
        == '\'' {
        Some((escape_char(s[i + 2]), i + 4))
    } else {
        None
    }
}

/// The list `(head e)`.
pub open spec fn wrap_form(head: Seq<char>, e: SExprModel) -> SExprModel {
    SExprModel::List(seq![sym_model(head), e])
}

/// The expression that starts at `i`, and the position after it.
pub open spec fn parse_expr(s: Seq<char>, i: int) -> Option<(SExprModel, int)>
    decreases s.len() - i, 0int,
{
    if i < 0 || i >= s.len() {
        None
    } else {
        let c = s[i];
        if c == '(' {
            match parse_items(s, i + 1, ')') {
                Some((es, j)) => Some((SExprModel::List(es), j)),
                None => None,
            }
        } else if c == '[' {
            match parse_items(s, i + 1, ']') {
                Some((es, j)) => Some((SExprModel::List(es), j)),
                None => None,
            }
        } else if c == '\'' {
            match char_literal(s, i) {
                Some((ch, j)) => Some((SExprModel::Atom(AtomModel::Char(ch)), j)),
                None => match parse_expr(s, i + 1) {
                    Some((e, j)) => Some((wrap_form(quote_name(), e), j)),
                    None => None,
                },
            }
        } else if c == ',' {
            match parse_expr(s, i + 1) {
                Some((e, j)) => Some((wrap_form(unquote_name(), e), j)),
                None => None,
            }
        } else if c == '"' {
            match string_end(s, i + 1) {
                Some(j) => Some(
                    (SExprModel::Atom(AtomModel::Str(unescape(s.subrange(i + 1, j)))), j + 1),
                ),
                None => None,
            }
        } else if c == 'r' && i + 1 < s.len() && s[i + 1] == '"' {
            match raw_end(s, i + 2) {
                Some(j) => Some((SExprModel::Atom(AtomModel::Str(s.subrange(i + 2, j))), j + 1)),
                None => None,
            }
        } else if is_delim(c) {
            None
        } else {
            let j = word_end(s, i);
            match classify_word(s.subrange(i, j)) {
                Some(a) => Some((SExprModel::Atom(a), j)),
                None => None,
            }
        }
    }
}

/// The items of a list from `i` up to its closing `close`, and the position
/// after the closer.
pub open spec fn parse_items(s: Seq<char>, i: int, close: char) -> Option<(Seq<SExprModel>, int)>
    decreases s.len() - i, 1int,
{
    if i < 0 || i > s.len() {
        None
    } else {
        let k = skip_ws(s, i, false);
        proof {
            lemma_skip_ws(s, i, false);
        }
        if k >= s.len() {
            None
        } else if s[k] == close {
            Some((Seq::empty(), k + 1))
        } else {
            match parse_expr(s, k) {
                None => None,
                Some((e, j)) => if k < j <= s.len() {
                    match parse_items(s, j, close) {
                        Some((es, m)) => Some((seq![e] + es, m)),
                        None => None,
                    }
                } else {
                    None
                },
            }
        }
    }
}

/// The expressions from `i` to the end of the text.
pub open spec fn parse_all(s: Seq<char>, i: int) -> Option<Seq<SExprModel>>
    decreases s.len() - i,
{
    if i < 0 || i > s.len() {
        None
    } else {
        let k = skip_ws(s, i, false);
        proof {
            lemma_skip_ws(s, i, false);
        }
        if k >= s.len() {
            Some(Seq::empty())
        } else {
            match parse_expr(s, k) {
                None => None,
                Some((e, j)) => if k < j <= s.len() {
                    match parse_all(s, j) {
                        Some(es) => Some(seq![e] + es),
                        None => None,
                    }
                } else {
                    None
                },
            }
        }
    }
}

/// The expressions that the text `s` reads as; `None` if it does not read.
pub open spec fn spec_parse(s: Seq<char>) -> Option<Seq<SExprModel>> {
    parse_all(s, 0)
}

// ----- the reader -----

/// The position of the first character at or after `i` that is not layout.
fn skip_layout(s: &Vec<char>, i: usize) -> (k: usize)
    requires
        i <= s@.len(),
    ensures
        k == skip_ws(s@, i as int, false),
        i <= k <= s@.len(),
{
    proof {
        lemma_skip_ws(s@, i as int, false);
    }
    let mut k = i;
    let mut in_comment = false;
    while k < s.len()
        invariant
            i <= k <= s@.len(),
            skip_ws(s@, i as int, false) == skip_ws(s@, k as int, in_comment),
        decreases s@.len() - k,
    {
        let c = s[k];
        if in_comment {
            in_comment = c != '\n';
        } else if c == ' ' || c == '\t' || c == '\n' || c == '\r' {
        } else if c == ';' {
            in_comment = true;
        } else {
            return k;
        }
        k = k + 1;
    }
    k
}

/// The end of the word that starts at `i`.
fn find_word_end(s: &Vec<char>, i: usize) -> (j: usize)
    requires
        i <= s@.len(),
    ensures
        j == word_end(s@, i as int),
{
    proof {
        lemma_word_end(s@, i as int);
    }
    let mut j = i;
    while j < s.len()
        invariant
            i <= j <= s@.len(),
            word_end(s@, i as int) == word_end(s@, j as int),
        decreases s@.len() - j,
    {
        let c = s[j];
        if c == ' ' || c == '\t' || c == '\n' || c == '\r' || c == '(' || c == ')' || c == '['
            || c == ']' || c == '"' || c == '\'' || c == ',' || c == ';' {
            return j;
        }
        j = j + 1;
    }
    j
}

/// Whether `c` may follow a backslash.
fn escapable(c: char) -> (r: bool)
    ensures
        r == is_escapable(c),
{
    c == 'n' || c == 'r' || c == 't' || c == '\\' || c == '\'' || c == '"'
}

/// The `"` that closes the string text starting at `i`.
fn find_string_end(s: &Vec<char>, i: usize) -> (r: Option<usize>)
    requires
        i <= s@.len(),
    ensures
        r matches Some(j) ==> string_end(s@, i as int) == Some(j as int),
        r is None ==> string_end(s@, i as int) is None,
{
    let mut j = i;
    while j < s.len()
        invariant
            i <= j <= s@.len() + 1,
            string_end(s@, i as int) == string_end(s@, j as int),
        decreases s@.len() + 1 - j,
    {
        let c = s[j];
        if c == '"' {
            return Some(j);
        } else if c == '\\' {
            if j + 1 < s.len() && escapable(s[j + 1]) {
                j = j + 2;
            } else {
                return None;
            }
        } else {
            j = j + 1;
        }
    }
    None
}

/// The first `"` at or after `i`.
fn find_raw_end(s: &Vec<char>, i: usize) -> (r: Option<usize>)
    requires
        i <= s@.len(),
    ensures
        r matches Some(j) ==> raw_end(s@, i as int) == Some(j as int),
        r is None ==> raw_end(s@, i as int) is None,
{
    let mut j = i;
    while j < s.len()
        invariant
            i <= j <= s@.len(),
            raw_end(s@, i as int) == raw_end(s@, j as int),
        decreases s@.len() - j,
    {
        if s[j] == '"' {
            return Some(j);
        }
        j = j + 1;
    }
    None
}

/// Whether `s[from..to]` is one or more digits.
fn all_digits(s: &Vec<char>, from: usize, to: usize) -> (r: bool)
    requires
        from <= to <= s@.len(),
    ensures
        r == is_digits(s@.subrange(from as int, to as int)),
{
    if from == to {
        return false;
    }
    let mut i = from;
    while i < to
        invariant
            from <= i <= to <= s@.len(),
            forall|j: int| from <= j < i ==> is_digit(#[trigger] s@[j]),
        decreases to - i,
    {
        if !('0' <= s[i] && s[i] <= '9') {
            assert(!is_digit(s@.subrange(from as int, to as int)[i - from]));
            return false;
        }
        i = i + 1;
    }
    assert forall|j: int| 0 <= j < to - from implies is_digit(
        #[trigger] s@.subrange(from as int, to as int)[j],
    ) by {
        assert(is_digit(s@[from + j]));
    }
    true
}

/// The value of the digits `s[from..to]`, if it fits in a `u64`.
fn digits_to_u64(s: &Vec<char>, from: usize, to: usize) -> (r: Option<u64>)
    requires
        from <= to <= s@.len(),
        is_digits(s@.subrange(from as int, to as int)),
    ensures
        r matches Some(v) ==> v == digits_value(s@.subrange(from as int, to as int)),
        r is None ==> digits_value(s@.subrange(from as int, to as int)) > u64::MAX,
{
    let ghost w = s@.subrange(from as int, to as int);
    let mut v: u64 = 0;
    let mut i = from;
    assert(w.take(0).len() == 0);
    while i < to
        invariant
            w == s@.subrange(from as int, to as int),
            is_digits(w),
            from <= i <= to <= s@.len(),
            v == digits_value(w.take(i - from)),
        decreases to - i,
    {
        let ghost k = i - from;
        assert(w.take(k + 1).drop_last() =~= w.take(k));
        assert(w.take(k + 1).last() == w[k]);
        assert(is_digit(w[k]));
        let c = s[i];
        assert(c == w[k]);
        let d = (c as u32 - '0' as u32) as u64;
        assert(d == digit_value(c));
        if v > (u64::MAX - d) / 10 {
            proof {
                lemma_digits_value_prefix(w, k + 1);
            }
            return None;
        }
        v = v * 10 + d;
        i = i + 1;
    }
    assert(w.take(to - from) =~= w);
    Some(v)
}

/// A prefix of digits is worth no more than all of them.
proof fn lemma_digits_value_prefix(w: Seq<char>, n: int)
    requires
        0 <= n <= w.len(),
        is_digits(w) || w.len() == 0,
    ensures
        digits_value(w.take(n)) <= digits_value(w),
    decreases w.len(),
{
    if n < w.len() {
        assert(w.drop_last().take(n) =~= w.take(n));
        if w.len() > 1 {
            assert forall|i: int| 0 <= i < w.drop_last().len() implies is_digit(
                #[trigger] w.drop_last()[i],
            ) by {
                assert(is_digit(w[i]));
            }
        }
        lemma_digits_value_prefix(w.drop_last(), n);
    } else {
        assert(w.take(n) =~= w);
    }
}

/// The position of the first `.` in `s[from..to]`, counted from `from`.
fn find_dot(s: &Vec<char>, from: usize, to: usize) -> (r: usize)
    requires
        from <= to <= s@.len(),
    ensures
        r as int == first_dot(s@.subrange(from as int, to as int)),
        r <= to - from,
{
    let ghost w = s@.subrange(from as int, to as int);
    let mut i = from;
    assert(w.skip(0) =~= w);
    while i < to
        invariant
            w == s@.subrange(from as int, to as int),
            from <= i <= to <= s@.len(),
            first_dot(w) == (i - from) + first_dot(w.skip(i - from)),
        decreases to - i,
    {
        assert(w.skip(i - from)[0] == s@[i as int]);
        if s[i] == '.' {
            return i - from;
        }
        assert(w.skip(i - from).skip(1) =~= w.skip(i + 1 - from));
        i = i + 1;
    }
    i - from
}

/// Whether `s[from..to]` is digits, a dot, digits.
fn unsigned_float(s: &Vec<char>, from: usize, to: usize) -> (r: bool)
    requires
        from <= to <= s@.len(),
    ensures
        r == is_unsigned_float(s@.subrange(from as int, to as int)),
{
    let ghost w = s@.subrange(from as int, to as int);
    let p = find_dot(s, from, to);
    if !(0 < p && p < to - from) {
        return false;
    }
    assert(w.take(p as int) =~= s@.subrange(from as int, from + p));
    assert(w.skip(p + 1) =~= s@.subrange(from + p + 1, to as int));
    all_digits(s, from, from + p) && all_digits(s, from + p + 1, to)
}

/// The atom that the word `s[from..to]` reads as.
fn parse_atom(s: &Vec<char>, from: usize, to: usize) -> (r: Option<Atom>)
    requires
        from < to <= s@.len(),
    ensures
        r matches Some(a) ==> classify_word(s@.subrange(from as int, to as int)) == Some(a@),
        r is None ==> classify_word(s@.subrange(from as int, to as int)) is None,
{
    let ghost w = s@.subrange(from as int, to as int);
    let n = to - from;
    if n == 3 && s[from] == 'n' && s[from + 1] == 'i' && s[from + 2] == 'l' {
        assert(w =~= seq!['n', 'i', 'l']);
        return Some(Atom::Nil);
    }
    assert(w != seq!['n', 'i', 'l'] ==> !(n == 3 && w[0] == 'n' && w[1] == 'i' && w[2] == 'l')) by {
        if n == 3 && w[0] == 'n' && w[1] == 'i' && w[2] == 'l' {
            assert(w =~= seq!['n', 'i', 'l']);
        }
    }
    if n == 2 && s[from] == '#' && s[from + 1] == 't' {
        assert(w =~= seq!['#', 't']);
        return Some(Atom::Bool(true));
    }
    if n == 2 && s[from] == '#' && s[from + 1] == 'f' {
        assert(w =~= seq!['#', 'f']);
        return Some(Atom::Bool(false));
    }
    assert(w != seq!['#', 't']) by {
        let t = seq!['#', 't'];
        assert(t.len() == 2 && t[0] == '#' && t[1] == 't');
        if w == t {
            assert(w[0] == s@[from as int] && w[1] == s@[from + 1]);
        }
    }
    assert(w != seq!['#', 'f']) by {
        let t = seq!['#', 'f'];
        assert(t.len() == 2 && t[0] == '#' && t[1] == 'f');
        if w == t {
            assert(w[0] == s@[from as int] && w[1] == s@[from + 1]);
        }
    }
    let signed = s[from] == '+' || s[from] == '-';
    let float = if signed {
        assert(w.skip(1) =~= s@.subrange(from + 1, to as int));
        unsigned_float(s, from + 1, to)
    } else {
        unsigned_float(s, from, to)
    };
    if float {
        return Some(Atom::Float(string_of(s, from, to)));
    }
    if signed {
        assert(w.skip(1) =~= s@.subrange(from + 1, to as int));
        if all_digits(s, from + 1, to) {
            match digits_to_u64(s, from + 1, to) {
                None => {
                    return None;
                },
                Some(m) => {
                    if s[from] == '-' {
                        if m <= 9223372036854775807u64 {
                            return Some(Atom::Int(-(m as i64)));
                        } else if m == 9223372036854775808u64 {
                            return Some(Atom::Int(i64::MIN));
                        } else {
                            return None;
                        }
                    } else {
                        if m <= 9223372036854775807u64 {
                            return Some(Atom::Int(m as i64));
                        } else {
                            return None;
                        }
                    }
                },
            }
        }
    }
    assert(!is_int_text(w));
    if all_digits(s, from, to) {
        match digits_to_u64(s, from, to) {
            None => {
                return None;
            },
            Some(m) => {
                return Some(Atom::Uint(m));
            },
        }
    }
    Some(Atom::Sym(string_of(s, from, to)))
}

/// The items `pre` followed by the outcome `rest`.
pub open spec fn prepend_items(pre: Seq<SExprModel>, rest: Option<(Seq<SExprModel>, int)>) -> Option<
    (Seq<SExprModel>, int),
> {
    match rest {
        Some((es, m)) => Some((pre + es, m)),
        None => None,
    }
}

/// The model of a read expression and the position after it.
pub open spec fn expr_outcome(r: Option<(SExpr, usize)>) -> Option<(SExprModel, int)> {
    match r {
        Some((e, j)) => Some((e@, j as int)),
        None => None,
    }
}

/// The expression that starts at `i`, and the position after it.
fn parse_sexpr(s: &Vec<char>, i: usize) -> (r: Option<(SExpr, usize)>)
    requires
        i <= s@.len(),
    ensures
        expr_outcome(r) == parse_expr(s@, i as int),
    decreases s@.len() - i, 0nat,
{
    if i >= s.len() {
        return None;
    }
    let c = s[i];
    if c == '(' || c == '[' {
        let close = if c == '(' {
            ')'
        } else {
            ']'
        };
        return match parse_list_items(s, i + 1, close) {
            Some((es, j)) => {
                proof {
                    lemma_list_view(es);
                }
                Some((SExpr::List(es), j))
            },
            None => None,
        };
    }
    if c == '\'' {
        if s.len() - i > 2 && s[i + 1] != '\\' && s[i + 1] != '\'' && s[i + 2] == '\'' {
            assert(char_literal(s@, i as int) == Some((s@[i + 1], i + 3)));
            let e = char_expr(s[i + 1]);
            return Some((e, i + 3));
        }
        if s.len() - i > 3 && s[i + 1] == '\\' && escapable(s[i + 2]) && s[i + 3] == '\'' {
            let d = escape_char_map(s[i + 2]);
            return Some((char_expr(d), i + 4));
        }
        return match parse_sexpr(s, i + 1) {
            Some((e, j)) => Some((wrap(quote_literal(), e), j)),
            None => None,
        };
    }
    if c == ',' {
        return match parse_sexpr(s, i + 1) {
            Some((e, j)) => Some((wrap(unquote_literal(), e), j)),
            None => None,
        };
    }
    if c == '"' {
        return match find_string_end(s, i + 1) {
            Some(j) => {
                proof {
                    lemma_string_end(s@, i + 1);
                }
                let text = unescape_range(s, i + 1, j);
                Some((SExpr::Atom(Atom::Str(text)), j + 1))
            },
            None => None,
        };
    }
    if c == 'r' && i + 1 < s.len() && s[i + 1] == '"' {
        return match find_raw_end(s, i + 2) {
            Some(j) => {
                proof {
                    lemma_raw_end(s@, i + 2);
                }
                let text = string_of(s, i + 2, j);
                Some((SExpr::Atom(Atom::Str(text)), j + 1))
            },
            None => None,
        };
    }
    if c == ' ' || c == '\t' || c == '\n' || c == '\r' || c == ')' || c == ']' || c == '"' || c
        == ',' || c == ';' {
        return None;
    }
    let j = find_word_end(s, i);
    proof {
        assert(!is_delim(s@[i as int]));
        lemma_word_end(s@, i + 1);
    }
    match parse_atom(s, i, j) {
        Some(a) => Some((SExpr::Atom(a), j)),
        None => None,
    }
}

/// The character `c` as an expression.
fn char_expr(c: char) -> (r: SExpr)
    ensures
        r@ == SExprModel::Atom(AtomModel::Char(c)),
{
    let a = Atom::Char(c);
    proof {
        lemma_atom_view(a);
    }
    SExpr::Atom(a)
}

/// The name `quote`.
fn quote_literal() -> (r: String)
    ensures
        r@ == quote_name(),
{
    proof {
        crate::matching::lemma_quote_literal();
    }
    String::from_str("quote")
}

/// The name `unquote`.
fn unquote_literal() -> (r: String)
    ensures
        r@ == unquote_name(),
{
    proof {
        reveal_strlit("unquote");
        assert("unquote"@ =~= unquote_name());
    }
    String::from_str("unquote")
}

/// The list `(head e)`.
fn wrap(head: String, e: SExpr) -> (r: SExpr)
    ensures
        r@ == wrap_form(head@, e@),
{
    let mut v: Vec<SExpr> = Vec::new();
    let ghost em = e@;
    v.push(SExpr::Atom(Atom::Sym(head)));
    v.push(e);
    proof {
        lemma_list_view(v);
        assert(models(v@) =~= seq![sym_model(head@), em]);
    }
    SExpr::List(v)
}

/// The items of a list from `i` up to its closer `close`, and the position after it.
fn parse_list_items(s: &Vec<char>, i: usize, close: char) -> (r: Option<(Vec<SExpr>, usize)>)
    requires
        i <= s@.len(),
    ensures
        r matches Some((es, j)) ==> parse_items(s@, i as int, close) == Some((models(es@), j as int)),
        r is None ==> parse_items(s@, i as int, close) is None,
    decreases s@.len() - i, 1nat,
{
    let mut items: Vec<SExpr> = Vec::new();
    let mut pos = i;
    assert(models(items@) =~= Seq::<SExprModel>::empty()) by {
        lemma_models(items@);
    }
    assert(prepend_items(Seq::empty(), parse_items(s@, i as int, close)) == parse_items(
        s@,
        i as int,
        close,
    )) by {
        match parse_items(s@, i as int, close) {
            Some((es, m)) => {
                assert(Seq::<SExprModel>::empty() + es =~= es);
            },
            None => {},
        }
    }
    loop
        invariant
            i <= pos <= s@.len(),
            parse_items(s@, i as int, close) == prepend_items(
                models(items@),
                parse_items(s@, pos as int, close),
            ),
        decreases s@.len() - pos,
    {
        let k = skip_layout(s, pos);
        if k >= s.len() {
            return None;
        }
        if s[k] == close {
            proof {
                assert(models(items@) + Seq::<SExprModel>::empty() =~= models(items@));
            }
            return Some((items, k + 1));
        }
        match parse_sexpr(s, k) {
            None => {
                return None;
            },
            Some((e, j)) => {
                if !(k < j && j <= s.len()) {
                    return None;
                }
                let ghost pre = models(items@);
                let ghost em = e@;
                let ghost before = items@;
                items.push(e);
                proof {
                    lemma_models(items@);
                    lemma_models(before);
                    assert(models(items@) =~= pre.push(em));
                    match parse_items(s@, j as int, close) {
                        Some((es, m)) => {
                            assert(pre + (seq![em] + es) =~= pre.push(em) + es);
                        },
                        None => {},
                    }
                }
                pos = j;
            },
        }
    }
}

/// Reads the text `src` as a sequence of expressions; `None` if it does not
/// read.
pub fn parse(src: &str) -> (r: Option<Vec<SExpr>>)
    ensures
        r matches Some(es) ==> spec_parse(src@) == Some(models(es@)),
        r is None ==> spec_parse(src@) is None,
{
    let s = chars_of(src);
    let mut items: Vec<SExpr> = Vec::new();
    let mut pos: usize = 0;
    assert(models(items@) =~= Seq::<SExprModel>::empty()) by {
        lemma_models(items@);
    }
    
    loop
        invariant
            s@ == src@,
            pos <= s@.len(),
            parse_all(s@, 0) == (match parse_all(s@, pos as int) {
                Some(es) => Some(models(items@) + es),
                None => None,
            }),
        decreases s@.len() - pos,
    {
        let k = skip_layout(&s, pos);
        if k >= s.len() {
            proof {
                assert(models(items@) + Seq::<SExprModel>::empty() =~= models(items@));
            }
            return Some(items);
        }
        match parse_sexpr(&s, k) {
            None => {
                return None;
            },
            Some((e, j)) => {
                if !(k < j && j <= s.len()) {
                    return None;
                }
                let ghost pre = models(items@);
                let ghost em = e@;
                let ghost before = items@;
                items.push(e);
                proof {
                    lemma_models(items@);
                    lemma_models(before);
                    assert(models(items@) =~= pre.push(em));
                    match parse_all(s@, j as int) {
                        Some(es) => {
                            assert(pre + (seq![em] + es) =~= pre.push(em) + es);
                        },
                        None => {},
                    }
                }
                pos = j;
            },
        }
    }
}

} // verus!
