//! The text of a job script: a fixed header, then one line per input that
//! runs the worker script with that input's arguments.
use vstd::prelude::*;
use crate::convention::{classify, invocation, substitute_placeholder, Convention, ConventionView, convention_of};
use crate::quote::{quoted, shell_quote};
use crate::text::{lemma_views_insert, lemma_views_push, push_char, views};

verus! {

pub open spec fn script_header() -> Seq<char> {
    "#!/usr/bin/env bash\nset -euo pipefail\n\n"@
}

/// Each argument preceded by one space.
pub open spec fn spaced(args: Seq<Seq<char>>) -> Seq<char>
    decreases args.len(),
{
    if args.len() == 0 {
        Seq::empty()
    } else {
        spaced(args.drop_last()) + seq![' '] + args.last()
    }
}

/// One line of a job script: `bash`, the quoted worker, the arguments.
pub open spec fn script_line(worker_q: Seq<char>, args: Seq<Seq<char>>) -> Seq<char> {
    seq!['b', 'a', 's', 'h', ' '] + worker_q + spaced(args) + seq!['\n']
}

/// The lines for `inputs`, in order.
pub open spec fn script_lines(
    worker_q: Seq<char>,
    c: ConventionView,
    inputs: Seq<Seq<char>>,
    qargs: Seq<Seq<char>>,
) -> Seq<char>
    decreases inputs.len(),
{
    if inputs.len() == 0 {
        Seq::empty()
    } else {
        script_lines(worker_q, c, inputs.drop_last(), qargs) + script_line(
            worker_q,
            invocation(inputs.last(), c, qargs),
        )
    }
}

pub open spec fn quote_each(args: Seq<Seq<char>>) -> Seq<Seq<char>> {
    args.map_values(|a: Seq<char>| quoted(a))
}

/// The whole text of the job script for `inputs`.
pub open spec fn script_text(
    worker: Seq<char>,
    input_flag: Seq<char>,
    inputs: Seq<Seq<char>>,
    args: Seq<Seq<char>>,
) -> Seq<char> {
    script_header() + script_lines(quoted(worker), convention_of(input_flag), inputs, quote_each(args))
}

/// Quotes each argument.
pub fn quote_all(args: &[String]) -> (r: Vec<String>)
    ensures
        views(r@) == quote_each(views(args@)),
{
    let mut out: Vec<String> = Vec::new();
    let mut i: usize = 0;
    while i < args.len()
        invariant
            i <= args@.len(),
            views(out@) == quote_each(views(args@)).take(i as int),
        decreases args@.len() - i,
    {
        let ghost before = out@;
        let q = shell_quote(args[i].as_str());
        out.push(q);
        proof {
            lemma_views_push(before, q);
        }
        assert(views(out@) =~= quote_each(views(args@)).take(i + 1));
        i = i + 1;
    }
    assert(quote_each(views(args@)).take(i as int) =~= quote_each(views(args@)));
    out
}

/// Appends copies of `src` to `dst`.
fn extend_cloned(dst: &mut Vec<String>, src: &Vec<String>)
    ensures
        views(final(dst)@) == views(old(dst)@) + views(src@),
{
    let ghost start = views(dst@);
    let mut i: usize = 0;
    while i < src.len()
        invariant
            i <= src@.len(),
            views(dst@) == start + views(src@).take(i as int),
        decreases src@.len() - i,
    {
        let ghost before = dst@;
        let x = src[i].clone();
        dst.push(x);
        proof {
            lemma_views_push(before, x);
        }
        assert(views(dst@) =~= start + views(src@).take(i + 1));
        i = i + 1;
    }
    assert(views(src@).take(i as int) =~= views(src@));
}

/// The arguments for one invocation of the worker: the input placed by
/// convention `c` among the already quoted trailing arguments.
pub fn format_invocation(input: &str, c: &Convention, quoted_args: &Vec<String>) -> (r: Vec<
    String,
>)
    ensures
        views(r@) == invocation(input@, c@, views(quoted_args@)),
{
    match c {
        Convention::Slot(n) => {
            let mut args: Vec<String> = Vec::new();
            extend_cloned(&mut args, quoted_args);
            let k: usize = if *n >= 1 {
                *n - 1
            } else {
                0
            };
            let idx = if k < args.len() {
                k
            } else {
                args.len()
            };
            let ghost before = args@;
            let q = shell_quote(input);
            args.insert(idx, q);
            proof {
                lemma_views_insert(before, idx as int, q);
            }
            assert(views(args@) == views(before).insert(idx as int, quoted(input@)));
            args
        },
        Convention::Template(ts) => {
            let mut args: Vec<String> = Vec::new();
            let mut i: usize = 0;
            while i < ts.len()
                invariant
                    i <= ts@.len(),
                    views(args@) == views(ts@).map_values(
                        |t: Seq<char>| quoted(crate::convention::substitute(t, input@)),
                    ).take(i as int),
                decreases ts@.len() - i,
            {
                let t = substitute_placeholder(ts[i].as_str(), input);
                let ghost before = args@;
                let q = shell_quote(t.as_str());
                args.push(q);
                proof {
                    lemma_views_push(before, q);
                }
                assert(views(args@) =~= views(ts@).map_values(
                    |t: Seq<char>| quoted(crate::convention::substitute(t, input@)),
                ).take(i + 1));
                i = i + 1;
            }
            assert(views(ts@).map_values(
                |t: Seq<char>| quoted(crate::convention::substitute(t, input@)),
            ).take(i as int) =~= views(ts@).map_values(
                |t: Seq<char>| quoted(crate::convention::substitute(t, input@)),
            ));
            extend_cloned(&mut args, quoted_args);
            args
        },
        Convention::Flag(f) => {
            let mut args: Vec<String> = Vec::new();
            args.push(shell_quote(f.as_str()));
            args.push(shell_quote(input));
            assert(views(args@) =~= seq![quoted(f@), quoted(input@)]);
            extend_cloned(&mut args, quoted_args);
            args
        },
    }
}

/// The text of the job script that runs `worker` once for each of `inputs`,
/// passing each as `input_flag` selects, with `script_args` as trailing
/// arguments.
pub fn job_script_text(worker: &str, input_flag: &str, inputs: &[String], script_args: &[String]) -> (r:
    String)
    ensures
        r@ == script_text(worker@, input_flag@, views(inputs@), views(script_args@)),
{
    let mut text = String::from_str("#!/usr/bin/env bash\nset -euo pipefail\n\n");
    let worker_q = shell_quote(worker);
    let qargs = quote_all(script_args);
    let c = classify(input_flag);
    let mut i: usize = 0;
    while i < inputs.len()
        invariant
            i <= inputs@.len(),
            worker_q@ == quoted(worker@),
            views(qargs@) == quote_each(views(script_args@)),
            c@ == convention_of(input_flag@),
            text@ == script_header() + script_lines(
                quoted(worker@),
                c@,
                views(inputs@).take(i as int),
                views(qargs@),
            ),
        decreases inputs@.len() - i,
    {
        let args = format_invocation(inputs[i].as_str(), &c, &qargs);
        text.append("bash ");
        proof {
            reveal_strlit("bash ");
        }
        text.append(worker_q.as_str());
        let mut j: usize = 0;
        let ghost line_start = text@;
        while j < args.len()
            invariant
                j <= args@.len(),
                text@ == line_start + spaced(views(args@).take(j as int)),
            decreases args@.len() - j,
        {
            push_char(&mut text, ' ');
            text.append(args[j].as_str());
            assert(views(args@).take(j + 1).drop_last() =~= views(args@).take(j as int));
            assert(text@ =~= line_start + spaced(views(args@).take(j + 1)));
            j = j + 1;
        }
        assert(views(args@).take(j as int) =~= views(args@));
        push_char(&mut text, '\n');
        let ghost ins = views(inputs@).take(i + 1);
        assert(ins.drop_last() =~= views(inputs@).take(i as int));
        assert(ins.last() == inputs@[i as int]@);
        assert(text@ =~= script_header() + script_lines(quoted(worker@), c@, ins, views(qargs@)));
        i = i + 1;
    }
    assert(views(inputs@).take(i as int) =~= views(inputs@));
    text
}

} // verus!
