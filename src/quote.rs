//! Quoting of arbitrary text as a single POSIX shell word.
use vstd::prelude::*;
use crate::text::push_char;

verus! {

/// Characters that a shell reads as themselves outside any quotes.
pub open spec fn is_safe_char(c: char) -> bool {
    ('a' <= c && c <= 'z') || ('A' <= c && c <= 'Z') || ('0' <= c && c <= '9') || c == '@'
        || c == '%' || c == '_' || c == '+' || c == '=' || c == ':' || c == ',' || c == '.'
        || c == '/' || c == '-'
}

pub open spec fn all_safe(s: Seq<char>) -> bool {
    forall|i: int| 0 <= i < s.len() ==> is_safe_char(#[trigger] s[i])
}

/// What one character becomes inside a single-quoted word: a quote closes the
/// quoting, is written escaped, and opens it again.
pub open spec fn escape_char(c: char) -> Seq<char> {
    if c == '\'' {
        seq!['\'', '\\', '\'', '\'']
    } else {
        seq![c]
    }
}

pub open spec fn escape_quotes(s: Seq<char>) -> Seq<char>
    decreases s.len(),
{
    if s.len() == 0 {
        Seq::empty()
    } else {
        escape_quotes(s.drop_last()) + escape_char(s.last())
    }
}

/// The quoted form of `s`: `''` when empty, `s` itself when every character is
/// safe, else `s` in single quotes with each quote escaped.
pub open spec fn quoted(s: Seq<char>) -> Seq<char> {
    if s.len() == 0 {
        seq!['\'', '\'']
    } else if all_safe(s) {
        s
    } else {
        seq!['\''] + escape_quotes(s) + seq!['\'']
    }
}

pub open spec fn cons_opt(c: char, r: Option<Seq<char>>) -> Option<Seq<char>> {
    match r {
        Some(t) => Some(seq![c] + t),
        None => None,
    }
}

/// How a POSIX shell reads one word made of safe characters, single-quoted
/// runs and backslash escapes; `None` where the word holds anything else
/// unquoted or leaves a quote open. `quoting` is whether a single quote is open.
pub open spec fn read_word(w: Seq<char>, quoting: bool) -> Option<Seq<char>>
    decreases w.len(),
{
    if w.len() == 0 {
        if quoting {
            None
        } else {
            Some(Seq::empty())
        }
    } else if quoting {
        if w[0] == '\'' {
            read_word(w.drop_first(), false)
        } else {
            cons_opt(w[0], read_word(w.drop_first(), true))
        }
    } else if w[0] == '\'' {
        read_word(w.drop_first(), true)
    } else if w[0] == '\\' && w.len() >= 2 && w[1] != '\n' {
        cons_opt(w[1], read_word(w.subrange(2, w.len() as int), false))
    } else if is_safe_char(w[0]) {
        cons_opt(w[0], read_word(w.drop_first(), false))
    } else {
        None
    }
}

proof fn lemma_escape_concat(a: Seq<char>, b: Seq<char>)
    ensures
        escape_quotes(a + b) == escape_quotes(a) + escape_quotes(b),
    decreases b.len(),
{
    if b.len() == 0 {
        assert(a + b =~= a);
        assert(escape_quotes(a) + escape_quotes(b) =~= escape_quotes(a));
    } else {
        assert((a + b).drop_last() =~= a + b.drop_last());
        assert((a + b).last() == b.last());
        lemma_escape_concat(a, b.drop_last());
        assert(escape_quotes(a + b) =~= escape_quotes(a) + escape_quotes(b));
    }
}

proof fn lemma_escape_cons(s: Seq<char>)
    requires
        s.len() > 0,
    ensures
        escape_quotes(s) == escape_char(s[0]) + escape_quotes(s.drop_first()),
{
    let h = seq![s[0]];
    assert(s =~= h + s.drop_first());
    lemma_escape_concat(h, s.drop_first());
    assert(h.drop_last() =~= Seq::<char>::empty());
    assert(escape_quotes(h) == escape_quotes(h.drop_last()) + escape_char(h.last()));
    assert(escape_quotes(h) =~= escape_char(s[0]));
}

proof fn lemma_read_safe(s: Seq<char>)
    requires
        all_safe(s),
    ensures
        read_word(s, false) == Some(s),
    decreases s.len(),
{
    if s.len() > 0 {
        assert(is_safe_char(s[0]));
        assert(all_safe(s.drop_first()));
        lemma_read_safe(s.drop_first());
        assert(seq![s[0]] + s.drop_first() =~= s);
    }
}

proof fn lemma_read_escaped(s: Seq<char>)
    ensures
        read_word(escape_quotes(s) + seq!['\''], true) == Some(s),
    decreases s.len(),
{
    let close = seq!['\''];
    if s.len() == 0 {
        assert(escape_quotes(s) + close =~= close);
        assert(close.drop_first() =~= Seq::<char>::empty());
        assert(read_word(close, true) == read_word(close.drop_first(), false));
        assert(s =~= Seq::<char>::empty());
    } else {
        let rest = s.drop_first();
        let tail = escape_quotes(rest) + close;
        lemma_escape_cons(s);
        lemma_read_escaped(rest);
        let w = escape_quotes(s) + close;
        assert(w =~= escape_char(s[0]) + tail);
        assert(seq![s[0]] + rest =~= s);
        if s[0] == '\'' {
            let w1 = w.drop_first();
            assert(w[0] == '\'');
            assert(w1[0] == '\\' && w1[1] == '\'');
            let w2 = w1.subrange(2, w1.len() as int);
            assert(w2[0] == '\'');
            assert(w2.drop_first() =~= tail);
            assert(read_word(w2, false) == read_word(tail, true));
            assert(read_word(w1, false) == cons_opt('\'', read_word(w2, false)));
            assert(read_word(w, true) == read_word(w1, false));
        } else {
            assert(w[0] == s[0]);
            assert(w.drop_first() =~= tail);
            assert(read_word(w, true) == cons_opt(s[0], read_word(tail, true)));
        }
    }
}

/// A shell reads the quoted form of any text back as exactly that text.
pub proof fn lemma_quote_round_trip(s: Seq<char>)
    ensures
        read_word(quoted(s), false) == Some(s),
{
    if s.len() == 0 {
        let q = quoted(s);
        assert(q.drop_first() =~= seq!['\'']);
        assert(q.drop_first().drop_first() =~= Seq::<char>::empty());
        assert(s =~= Seq::<char>::empty());
        assert(read_word(q.drop_first(), true) == read_word(q.drop_first().drop_first(), false));
        assert(read_word(q, false) == read_word(q.drop_first(), true));
    } else if all_safe(s) {
        lemma_read_safe(s);
    } else {
        let q = quoted(s);
        lemma_read_escaped(s);
        assert(q[0] == '\'');
        assert(q.drop_first() =~= escape_quotes(s) + seq!['\'']);
        assert(read_word(q, false) == read_word(q.drop_first(), true));
    }
}

/// Quoting leaves non-empty text made only of safe characters unchanged.
pub proof fn lemma_quote_safe_unchanged(s: Seq<char>)
    requires
        s.len() > 0,
        all_safe(s),
    ensures
        quoted(s) == s,
{
}

pub fn is_safe(c: char) -> (r: bool)
    ensures
        r == is_safe_char(c),
{
    ('a' <= c && c <= 'z') || ('A' <= c && c <= 'Z') || ('0' <= c && c <= '9') || c == '@'
        || c == '%' || c == '_' || c == '+' || c == '=' || c == ':' || c == ',' || c == '.'
        || c == '/' || c == '-'
}

/// Quotes `s` so that a POSIX shell reads it back as one word equal to `s`.
pub fn shell_quote(s: &str) -> (r: String)
    ensures
        r@ == quoted(s@),
{
    let n = s.unicode_len();
    if n == 0 {
        let mut e = String::new();
        push_char(&mut e, '\'');
        push_char(&mut e, '\'');
        assert(e@ =~= seq!['\'', '\'']);
        return e;
    }
    let mut safe = true;
    let mut i: usize = 0;
    while i < n
        invariant
            n == s@.len(),
            i <= n,
            safe <==> forall|j: int| 0 <= j < i ==> is_safe_char(#[trigger] s@[j]),
        decreases n - i,
    {
        let c = s.get_char(i);
        if !is_safe(c) {
            safe = false;
        }
        i = i + 1;
    }
    if safe {
        return String::from_str(s);
    }
    let mut out = String::new();
    push_char(&mut out, '\'');
    let mut k: usize = 0;
    while k < n
        invariant
            n == s@.len(),
            k <= n,
            out@ == seq!['\''] + escape_quotes(s@.take(k as int)),
        decreases n - k,
    {
        let c = s.get_char(k);
        if c == '\'' {
            push_char(&mut out, '\'');
            push_char(&mut out, '\\');
            push_char(&mut out, '\'');
            push_char(&mut out, '\'');
        } else {
            push_char(&mut out, c);
        }
        assert(s@.take(k + 1).drop_last() =~= s@.take(k as int));
        assert(out@ =~= seq!['\''] + escape_quotes(s@.take(k + 1)));
        k = k + 1;
    }
    assert(s@.take(n as int) =~= s@);
    push_char(&mut out, '\'');
    assert(out@ =~= quoted(s@));
    out
}

/// Quotes a path, given as text, as one shell word.
pub fn shell_quote_path(path: &str) -> (r: String)
    ensures
        r@ == quoted(path@),
{
    shell_quote(path)
}

} // verus!
