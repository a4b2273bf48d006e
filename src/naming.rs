//! Names of job scripts, the test that picks out stale ones, and the text
//! of a dry-run line.
use vstd::prelude::*;
use crate::quote::{quoted, shell_quote};
use crate::text::{lemma_views_push, push_char, views};

verus! {

pub open spec fn digit_char(d: int) -> char {
    if d == 0 {
        '0'
    } else if d == 1 {
        '1'
    } else if d == 2 {
        '2'
    } else if d == 3 {
        '3'
    } else if d == 4 {
        '4'
    } else if d == 5 {
        '5'
    } else if d == 6 {
        '6'
    } else if d == 7 {
        '7'
    } else if d == 8 {
        '8'
    } else {
        '9'
    }
}

/// The decimal digits of `n`, most significant first, without leading zeros.
pub open spec fn decimal_digits(n: nat) -> Seq<char>
    decreases n,
{
    if n < 10 {
        seq![digit_char(n as int)]
    } else {
        decimal_digits(n / 10) + seq![digit_char((n % 10) as int)]
    }
}

/// The digits of `n`, with zeros in front up to four digits.
pub open spec fn zero_padded(n: nat) -> Seq<char> {
    let d = decimal_digits(n);
    if d.len() < 4 {
        Seq::new((4 - d.len()) as nat, |i: int| '0') + d
    } else {
        d
    }
}

/// The name of job `index`: the prefix, a dash, the padded index.
pub open spec fn job_name_of(prefix: Seq<char>, index: nat) -> Seq<char> {
    prefix + seq!['-'] + zero_padded(index)
}

pub open spec fn script_suffix() -> Seq<char> {
    ".batch.sh"@
}

/// The file name of the script of job `index`.
pub open spec fn script_file_name(prefix: Seq<char>, index: nat) -> Seq<char> {
    job_name_of(prefix, index) + script_suffix()
}

pub open spec fn starts_with(s: Seq<char>, p: Seq<char>) -> bool {
    p.len() <= s.len() && s.subrange(0, p.len() as int) == p
}

pub open spec fn ends_with(s: Seq<char>, p: Seq<char>) -> bool {
    p.len() <= s.len() && s.subrange(s.len() - p.len(), s.len() as int) == p
}

/// A file that the cleanup pass removes: its name starts with the prefix and
/// a dash, and ends with `.batch.sh`.
pub open spec fn is_stale_script(name: Seq<char>, prefix: Seq<char>) -> bool {
    starts_with(name, prefix + seq!['-']) && ends_with(name, script_suffix())
}

/// The line printed for a group in a dry run.
pub open spec fn dry_run_text(submit: Seq<char>, script_path: Seq<char>) -> Seq<char> {
    "[dry-run] "@ + submit + seq![' '] + quoted(script_path)
}

fn digit_of(d: usize) -> (c: char)
    ensures
        c == digit_char(d as int),
{
    if d == 0 {
        '0'
    } else if d == 1 {
        '1'
    } else if d == 2 {
        '2'
    } else if d == 3 {
        '3'
    } else if d == 4 {
        '4'
    } else if d == 5 {
        '5'
    } else if d == 6 {
        '6'
    } else if d == 7 {
        '7'
    } else if d == 8 {
        '8'
    } else {
        '9'
    }
}

fn push_decimal(out: &mut String, n: usize)
    ensures
        final(out)@ == old(out)@ + decimal_digits(n as nat),
    decreases n,
{
    if n >= 10 {
        push_decimal(out, n / 10);
    }
    push_char(out, digit_of(n % 10));
    assert(final(out)@ =~= old(out)@ + decimal_digits(n as nat));
}

fn digit_count(n: usize) -> (c: usize)
    ensures
        c == decimal_digits(n as nat).len(),
        c <= n + 1,
        n >= 10 ==> c <= n / 10 + 1,
    decreases n,
{
    if n < 10 {
        1
    } else {
        let c = digit_count(n / 10);
        c + 1
    }
}

/// The name of job `index` for `prefix`, its index padded to four digits.
pub fn job_name(prefix: &str, index: usize) -> (r: String)
    ensures
        r@ == job_name_of(prefix@, index as nat),
{
    let mut out = String::from_str(prefix);
    push_char(&mut out, '-');
    let c = digit_count(index);
    let zeros: usize = if c < 4 {
        4 - c
    } else {
        0
    };
    let ghost start = out@;
    let mut j: usize = 0;
    while j < zeros
        invariant
            j <= zeros,
            out@ == start + Seq::new(j as nat, |i: int| '0'),
        decreases zeros - j,
    {
        push_char(&mut out, '0');
        assert(out@ =~= start + Seq::new((j + 1) as nat, |i: int| '0'));
        j = j + 1;
    }
    push_decimal(&mut out, index);
    let ghost d = decimal_digits(index as nat);
    assert(start =~= prefix@ + seq!['-']);
    assert(Seq::new(zeros as nat, |i: int| '0') + d =~= zero_padded(index as nat));
    assert(out@ =~= job_name_of(prefix@, index as nat));
    out
}

/// The file name of the script of job `index` for `prefix`.
pub fn job_file_name(prefix: &str, index: usize) -> (r: String)
    ensures
        r@ == script_file_name(prefix@, index as nat),
{
    let mut name = job_name(prefix, index);
    name.append(".batch.sh");
    name
}

fn text_starts_with(s: &str, p: &str) -> (r: bool)
    ensures
        r == starts_with(s@, p@),
{
    let n = s.unicode_len();
    let m = p.unicode_len();
    if m > n {
        return false;
    }
    let mut i: usize = 0;
    while i < m
        invariant
            n == s@.len(),
            m == p@.len(),
            m <= n,
            i <= m,
            forall|j: int| 0 <= j < i ==> s@[j] == p@[j],
        decreases m - i,
    {
        if s.get_char(i) != p.get_char(i) {
            assert(s@.subrange(0, m as int)[i as int] != p@[i as int]);
            return false;
        }
        i = i + 1;
    }
    assert(s@.subrange(0, m as int) =~= p@);
    true
}

fn text_ends_with(s: &str, p: &str) -> (r: bool)
    ensures
        r == ends_with(s@, p@),
{
    let n = s.unicode_len();
    let m = p.unicode_len();
    if m > n {
        return false;
    }
    let off = n - m;
    let mut i: usize = 0;
    while i < m
        invariant
            n == s@.len(),
            m == p@.len(),
            off == n - m,
            i <= m,
            forall|j: int| 0 <= j < i ==> s@[off + j] == p@[j],
        decreases m - i,
    {
        if s.get_char(off + i) != p.get_char(i) {
            assert(s@.subrange(off as int, n as int)[i as int] != p@[i as int]);
            return false;
        }
        i = i + 1;
    }
    assert(s@.subrange(off as int, n as int) =~= p@);
    true
}

/// Whether the file `name` is a job script left by an earlier run with
/// `prefix`.
pub fn is_stale_script_name(name: &str, prefix: &str) -> (r: bool)
    ensures
        r == is_stale_script(name@, prefix@),
{
    let mut p = String::from_str(prefix);
    push_char(&mut p, '-');
    let a = text_starts_with(name, p.as_str());
    let b = text_ends_with(name, ".batch.sh");
    assert(p@ == prefix@ + seq!['-']);
    assert(b == ends_with(name@, script_suffix()));
    a && b
}

/// The cleanup pass removes every script that a run with the same prefix
/// writes, and only files named with that prefix, a dash and `.batch.sh`.
pub proof fn lemma_cleanup_specific(prefix: Seq<char>, index: nat, name: Seq<char>)
    ensures
        is_stale_script(script_file_name(prefix, index), prefix),
        is_stale_script(name, prefix) ==> name.subrange(0, prefix.len() + 1 as int) == prefix + seq!['-']
            && name.subrange(name.len() - script_suffix().len(), name.len() as int)
            == script_suffix(),
{
    let f = script_file_name(prefix, index);
    let p = prefix + seq!['-'];
    assert(f.subrange(0, p.len() as int) =~= p);
    assert(f.subrange(f.len() - script_suffix().len(), f.len() as int) =~= script_suffix());
}

/// The names among `names` that the cleanup pass removes, in order.
pub open spec fn stale_names(names: Seq<Seq<char>>, prefix: Seq<char>) -> Seq<Seq<char>>
    decreases names.len(),
{
    if names.len() == 0 {
        Seq::empty()
    } else if is_stale_script(names.last(), prefix) {
        stale_names(names.drop_last(), prefix).push(names.last())
    } else {
        stale_names(names.drop_last(), prefix)
    }
}

/// Of the files in a directory, cleanup removes exactly those whose names
/// start with the prefix and a dash and end with `.batch.sh`: every script
/// of an earlier run with that prefix, and no other file.
pub proof fn lemma_cleanup_exact(names: Seq<Seq<char>>, prefix: Seq<char>, name: Seq<char>)
    ensures
        stale_names(names, prefix).contains(name) <==> names.contains(name) && is_stale_script(
            name,
            prefix,
        ),
    decreases names.len(),
{
    if names.len() > 0 {
        let rest = names.drop_last();
        lemma_cleanup_exact(rest, prefix, name);
        assert(names =~= rest.push(names.last()));
        if names.contains(name) && !rest.contains(name) {
            let i = choose|i: int| 0 <= i < names.len() && names[i] == name;
            if i < names.len() - 1 {
                assert(rest[i] == name);
            }
        }
        if rest.contains(name) {
            let i = choose|i: int| 0 <= i < rest.len() && rest[i] == name;
            assert(names[i] == name);
        }
        let r = stale_names(rest, prefix);
        if is_stale_script(names.last(), prefix) {
            if r.push(names.last()).contains(name) && !r.contains(name) {
                let i = choose|i: int| 0 <= i < r.len() + 1 && r.push(names.last())[i] == name;
                if i < r.len() {
                    assert(r[i] == name);
                }
            }
            if r.contains(name) {
                let i = choose|i: int| 0 <= i < r.len() && r[i] == name;
                assert(r.push(names.last())[i] == name);
            }
            assert(r.push(names.last())[r.len() as int] == names.last());
        }
        assert(names[names.len() - 1] == names.last());
    }
}

/// The names among `names` of job scripts left by an earlier run with
/// `prefix`.
pub fn select_stale_scripts(names: &Vec<String>, prefix: &str) -> (r: Vec<String>)
    ensures
        views(r@) == stale_names(views(names@), prefix@),
{
    let mut out: Vec<String> = Vec::new();
    let mut i: usize = 0;
    while i < names.len()
        invariant
            i <= names@.len(),
            views(out@) == stale_names(views(names@).take(i as int), prefix@),
        decreases names@.len() - i,
    {
        let ghost taken = views(names@).take(i + 1);
        assert(taken.drop_last() =~= views(names@).take(i as int));
        assert(taken.last() == names@[i as int]@);
        if is_stale_script_name(names[i].as_str(), prefix) {
            let ghost before = out@;
            let x = names[i].clone();
            out.push(x);
            proof {
                lemma_views_push(before, x);
            }
        }
        i = i + 1;
    }
    assert(views(names@).take(i as int) =~= views(names@));
    out
}

/// The line that a dry run prints for the script at `script_path`.
pub fn dry_run_line(submit: &str, script_path: &str) -> (r: String)
    ensures
        r@ == dry_run_text(submit@, script_path@),
{
    let mut out = String::from_str("[dry-run] ");
    out.append(submit);
    push_char(&mut out, ' ');
    let q = shell_quote(script_path);
    out.append(q.as_str());
    out
}

} // verus!
