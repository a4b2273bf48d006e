//! How each input is passed to the worker script: at a positional slot
//! (`$N`), through a template of shell words holding `$1`, or after a named flag.
use vstd::prelude::*;
use crate::quote::{quoted, shell_quote};
use crate::text::{push_char, shell_words, split_words, views};

verus! {

/// The convention as a mathematical value.
pub ghost enum ConventionView {
    Slot(int),
    Template(Seq<Seq<char>>),
    Flag(Seq<char>),
}

/// The convention chosen from the text given for it.
#[derive(Debug, Clone, PartialEq, Eq)]
pub enum Convention {
    /// The input goes at this one-based position among the trailing arguments.
    Slot(usize),
    /// These words, with every `$1` replaced by the input, each quoted.
    Template(Vec<String>),
    /// This flag, then the input.
    Flag(String),
}

impl View for Convention {
    type V = ConventionView;

    open spec fn view(&self) -> ConventionView {
        match self {
            Convention::Slot(n) => ConventionView::Slot(*n as int),
            Convention::Template(ts) => ConventionView::Template(views(ts@)),
            Convention::Flag(f) => ConventionView::Flag(f@),
        }
    }
}

pub open spec fn is_digit(c: char) -> bool {
    '0' <= c && c <= '9'
}

pub open spec fn digit_value(c: char) -> int {
    if c == '0' {
        0
    } else if c == '1' {
        1
    } else if c == '2' {
        2
    } else if c == '3' {
        3
    } else if c == '4' {
        4
    } else if c == '5' {
        5
    } else if c == '6' {
        6
    } else if c == '7' {
        7
    } else if c == '8' {
        8
    } else {
        9
    }
}

fn digit_of(c: char) -> (d: usize)
    requires
        is_digit(c),
    ensures
        d == digit_value(c),
{
    if c == '0' {
        0
    } else if c == '1' {
        1
    } else if c == '2' {
        2
    } else if c == '3' {
        3
    } else if c == '4' {
        4
    } else if c == '5' {
        5
    } else if c == '6' {
        6
    } else if c == '7' {
        7
    } else if c == '8' {
        8
    } else {
        9
    }
}

pub open spec fn all_digits(s: Seq<char>) -> bool {
    forall|i: int| 0 <= i < s.len() ==> is_digit(#[trigger] s[i])
}

/// The number that a string of decimal digits denotes.
pub open spec fn decimal_value(s: Seq<char>) -> int
    decreases s.len(),
{
    if s.len() == 0 {
        0
    } else {
        decimal_value(s.drop_last()) * 10 + digit_value(s.last())
    }
}

/// `Some(n)` where `s` is `$` followed by the decimal digits of a number `n`
/// from 1 to `usize::MAX`.
pub open spec fn slot_of(s: Seq<char>) -> Option<int> {
    if s.len() >= 2 && s[0] == '$' && all_digits(s.drop_first()) && 1 <= decimal_value(
        s.drop_first(),
    ) <= usize::MAX {
        Some(decimal_value(s.drop_first()))
    } else {
        None
    }
}

pub open spec fn has_placeholder(t: Seq<char>) -> bool {
    exists|i: int| 0 <= i && i + 1 < t.len() && #[trigger] t[i] == '$' && t[i + 1] == '1'
}

/// The words of a template: the shell words of `s`, or `s` as one word where
/// it does not split.
pub open spec fn template_words(s: Seq<char>) -> Seq<Seq<char>> {
    match shell_words(s) {
        Some(ws) => ws,
        None => seq![s],
    }
}

pub open spec fn any_placeholder(ws: Seq<Seq<char>>) -> bool {
    exists|i: int| 0 <= i < ws.len() && has_placeholder(#[trigger] ws[i])
}

/// The convention that the text `s` selects: a slot wins over a template, and
/// a template over a flag. A template is text that splits into shell words,
/// one of which holds `$1`; any other text is a flag.
pub open spec fn convention_of(s: Seq<char>) -> ConventionView {
    if slot_of(s) is Some {
        ConventionView::Slot(slot_of(s)->0)
    } else {
        match shell_words(s) {
            Some(ws) => if any_placeholder(ws) {
                ConventionView::Template(ws)
            } else {
                ConventionView::Flag(s)
            },
            None => ConventionView::Flag(s),
        }
    }
}

/// `t` with every `$1`, read from the left, replaced by `x`.
pub open spec fn substitute(t: Seq<char>, x: Seq<char>) -> Seq<char>
    decreases t.len(),
{
    if t.len() == 0 {
        Seq::empty()
    } else if t.len() >= 2 && t[0] == '$' && t[1] == '1' {
        x + substitute(t.subrange(2, t.len() as int), x)
    } else {
        seq![t[0]] + substitute(t.drop_first(), x)
    }
}

/// Where the input goes for slot `n` among `len` arguments: position `n - 1`,
/// or the end where there are fewer arguments.
pub open spec fn slot_index(n: int, len: int) -> int {
    let k = if n >= 1 {
        n - 1
    } else {
        0
    };
    if k < len {
        k
    } else {
        len
    }
}

/// The arguments for one input under convention `c`, given the trailing
/// arguments already quoted.
pub open spec fn invocation(input: Seq<char>, c: ConventionView, qargs: Seq<Seq<char>>) -> Seq<
    Seq<char>,
> {
    match c {
        ConventionView::Slot(n) => qargs.insert(slot_index(n, qargs.len() as int), quoted(input)),
        ConventionView::Template(ts) => ts.map_values(|t: Seq<char>| quoted(substitute(t, input)))
            + qargs,
        ConventionView::Flag(f) => seq![quoted(f), quoted(input)] + qargs,
    }
}

proof fn lemma_decimal_prefix(a: Seq<char>, b: Seq<char>)
    requires
        all_digits(a + b),
    ensures
        decimal_value(a + b) >= decimal_value(a),
    decreases b.len(),
{
    if b.len() > 0 {
        assert((a + b).drop_last() =~= a + b.drop_last());
        assert(is_digit((a + b)[(a + b).len() - 1]));
        assert(all_digits(a + b.drop_last()));
        lemma_decimal_prefix(a, b.drop_last());
        lemma_decimal_nonneg(a + b.drop_last());
    } else {
        assert(a + b =~= a);
    }
}

proof fn lemma_decimal_nonneg(s: Seq<char>)
    requires
        all_digits(s),
    ensures
        decimal_value(s) >= 0,
    decreases s.len(),
{
    if s.len() > 0 {
        assert(is_digit(s[s.len() - 1]));
        assert(all_digits(s.drop_last()));
        lemma_decimal_nonneg(s.drop_last());
    }
}

/// The slot number of a `$N` convention, if `input_flag` is one.
pub fn parse_positional_slot(s: &str) -> (r: Option<usize>)
    ensures
        r is Some <==> slot_of(s@) is Some,
        r is Some ==> slot_of(s@) == Some(r->0 as int),
{
    let n = s.unicode_len();
    if n < 2 || s.get_char(0) != '$' {
        return None;
    }
    let ghost digits = s@.drop_first();
    let mut v: usize = 0;
    let mut i: usize = 1;
    while i < n
        invariant
            n == s@.len(),
            n >= 2,
            s@[0] == '$',
            digits == s@.drop_first(),
            1 <= i <= n,
            all_digits(s@.subrange(1, i as int)),
            v == decimal_value(s@.subrange(1, i as int)),
        decreases n - i,
    {
        let c = s.get_char(i);
        let ghost pre = s@.subrange(1, i as int);
        let ghost next = s@.subrange(1, i + 1);
        assert(next.drop_last() =~= pre);
        if !('0' <= c && c <= '9') {
            assert(digits[i - 1] == c);
            assert(!all_digits(digits));
            assert(slot_of(s@) is None);
            return None;
        }
        let d = digit_of(c);
        assert(next.last() == c);
        assert(decimal_value(next) == v * 10 + d);
        if v > (usize::MAX - d) / 10 {
            proof {
                assert(decimal_value(next) > usize::MAX) by (nonlinear_arith)
                    requires
                        decimal_value(next) == v * 10 + d,
                        v > (usize::MAX - d) / 10,
                        d <= 9,
                ;
                if all_digits(digits) {
                    assert(digits =~= next + s@.subrange(i + 1, n as int));
                    lemma_decimal_prefix(next, s@.subrange(i + 1, n as int));
                }
                assert(slot_of(s@) is None);
            }
            return None;
        }
        assert(v * 10 + d <= usize::MAX) by (nonlinear_arith)
            requires
                v <= (usize::MAX - d) / 10,
                d <= 9,
        ;
        v = v * 10 + d;
        i = i + 1;
    }
    assert(s@.subrange(1, n as int) =~= digits);
    if v == 0 {
        None
    } else {
        Some(v)
    }
}

/// Whether `t` holds `$1`.
pub fn contains_placeholder(t: &str) -> (r: bool)
    ensures
        r == has_placeholder(t@),
{
    let n = t.unicode_len();
    let mut i: usize = 0;
    while i < n
        invariant
            n == t@.len(),
            i <= n,
            forall|j: int| 0 <= j < i && j + 1 < n ==> !(#[trigger] t@[j] == '$' && t@[j + 1] == '1'),
        decreases n - i,
    {
        if i + 1 < n && t.get_char(i) == '$' && t.get_char(i + 1) == '1' {
            return true;
        }
        i = i + 1;
    }
    false
}

/// `t` with every `$1` replaced by `input`.
pub fn substitute_placeholder(t: &str, input: &str) -> (r: String)
    ensures
        r@ == substitute(t@, input@),
{
    let n = t.unicode_len();
    let mut out = String::new();
    let mut i: usize = 0;
    assert(t@.subrange(0, n as int) =~= t@);
    assert(out@ + substitute(t@, input@) =~= substitute(t@, input@));
    while i < n
        invariant
            n == t@.len(),
            i <= n,
            out@ + substitute(t@.subrange(i as int, n as int), input@) == substitute(t@, input@),
        decreases n - i,
    {
        let ghost rest = t@.subrange(i as int, n as int);
        if i + 1 < n && t.get_char(i) == '$' && t.get_char(i + 1) == '1' {
            assert(rest.subrange(2, rest.len() as int) =~= t@.subrange(i + 2, n as int));
            out.append(input);
            assert(out@ + substitute(t@.subrange(i + 2, n as int), input@) =~= substitute(
                t@,
                input@,
            ));
            i = i + 2;
        } else {
            let c = t.get_char(i);
            assert(rest.drop_first() =~= t@.subrange(i + 1, n as int));
            push_char(&mut out, c);
            assert(out@ + substitute(t@.subrange(i + 1, n as int), input@) =~= substitute(
                t@,
                input@,
            ));
            i = i + 1;
        }
    }
    assert(t@.subrange(n as int, n as int) =~= Seq::<char>::empty());
    assert(out@ + Seq::<char>::empty() =~= out@);
    out
}

/// The words of `input_flag` read as a template.
pub fn parse_template_tokens(input_flag: &str) -> (r: Vec<String>)
    ensures
        views(r@) == template_words(input_flag@),
        forall|i: int, j: int|
            0 <= i < r@.len() && 0 <= j < r@[i]@.len() ==> input_flag@.contains(
                #[trigger] r@[i]@[j],
            ),
{
    match split_words(input_flag) {
        Some(ws) => ws,
        None => {
            let mut v: Vec<String> = Vec::new();
            v.push(String::from_str(input_flag));
            assert(views(v@) =~= seq![input_flag@]);
            assert forall|i: int, j: int|
                0 <= i < v@.len() && 0 <= j < v@[i]@.len() implies input_flag@.contains(
                #[trigger] v@[i]@[j],
            ) by {
                assert(input_flag@[j] == v@[i]@[j]);
            }
            v
        },
    }
}

/// A slot is never read as a template, even `$1`; a template is never read
/// as a flag; text that does not split into shell words is never a template;
/// and `$1` and `$2` are slots.
pub proof fn lemma_convention_precedence(s: Seq<char>)
    ensures
        slot_of(s) is Some ==> convention_of(s) == ConventionView::Slot(slot_of(s)->0),
        slot_of(s) is None && shell_words(s) is Some && any_placeholder(shell_words(s)->0)
            ==> convention_of(s) == ConventionView::Template(shell_words(s)->0),
        shell_words(s) is None ==> convention_of(s) is Slot || convention_of(s)
            == ConventionView::Flag(s),
        convention_of(seq!['$', '1']) == ConventionView::Slot(1),
        convention_of(seq!['$', '2']) == ConventionView::Slot(2),
{
    let one = seq!['$', '1'];
    let two = seq!['$', '2'];
    assert(one.drop_first() =~= seq!['1']);
    assert(two.drop_first() =~= seq!['2']);
    assert(seq!['1'].drop_last() =~= Seq::<char>::empty());
    assert(seq!['2'].drop_last() =~= Seq::<char>::empty());
    assert(decimal_value(Seq::<char>::empty()) == 0);
    assert(decimal_value(seq!['1']) == decimal_value(seq!['1'].drop_last()) * 10 + digit_value('1'));
    assert(decimal_value(seq!['2']) == decimal_value(seq!['2'].drop_last()) * 10 + digit_value('2'));
    assert(is_digit(one.drop_first()[0]));
    assert(is_digit(two.drop_first()[0]));
}

/// Chooses the convention that `input_flag` selects.
pub fn classify(input_flag: &str) -> (c: Convention)
    ensures
        c@ == convention_of(input_flag@),
        !input_flag@.contains('$') ==> c is Flag,
{
    if let Some(n) = parse_positional_slot(input_flag) {
        return Convention::Slot(n);
    }
    let tokens = match split_words(input_flag) {
        Some(ws) => ws,
        None => {
            return Convention::Flag(String::from_str(input_flag));
        },
    };
    let mut i: usize = 0;
    while i < tokens.len()
        invariant
            slot_of(input_flag@) is None,
            shell_words(input_flag@) == Some(views(tokens@)),
            forall|a: int, b: int|
                0 <= a < tokens@.len() && 0 <= b < tokens@[a]@.len() ==> input_flag@.contains(
                    #[trigger] tokens@[a]@[b],
                ),
            forall|j: int| 0 <= j < i ==> !has_placeholder(#[trigger] views(tokens@)[j]),
        decreases tokens.len() - i,
    {
        if contains_placeholder(tokens[i].as_str()) {
            assert(has_placeholder(views(tokens@)[i as int]));
            assert(any_placeholder(views(tokens@)));
            proof {
                let k = choose|k: int|
                    0 <= k && k + 1 < tokens@[i as int]@.len() && #[trigger] tokens@[i as int]@[k]
                        == '$' && tokens@[i as int]@[k + 1] == '1';
                assert(input_flag@.contains(tokens@[i as int]@[k]));
            }
            return Convention::Template(tokens);
        }
        i = i + 1;
    }
    Convention::Flag(String::from_str(input_flag))
}

} // verus!
