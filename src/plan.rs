//! The run's configuration, and the decisions of a run: which scripts to
//! write, under which names, and what command submits each.
use vstd::prelude::*;
use vstd::relations::sorted_by;
use crate::naming::{job_file_name, job_name, job_name_of, script_file_name};
use crate::order::{lemma_sorted_order_unique, lex_leq, sort_texts};
use crate::partition::{groups_of, split_evenly};
use crate::script::{job_script_text, script_text};
use crate::text::{lemma_views_push, shell_words, split_words, views};

verus! {

/// The configuration of a run.
#[derive(Debug, Clone)]
pub struct Cli {
    /// Path to the worker script run for each input.
    pub script: String,
    /// Glob patterns or literal input tokens.
    pub glob: Vec<String>,
    /// A named flag such as `--input`, a slot such as `$2`, or a template
    /// holding `$1`.
    pub input_flag: String,
    /// How many job scripts to make.
    pub batch: usize,
    /// Directory that holds the job scripts.
    pub out_dir: String,
    /// The submission command, split into words as a shell would.
    pub submit: String,
    /// Prefix of the job names.
    pub job_name_prefix: String,
    /// Arguments passed to the worker after the input.
    pub script_args: Vec<String>,
    /// Print the submissions instead of running them.
    pub dry_run: bool,
    /// Keep the job scripts after a successful submission.
    pub keep: bool,
}

/// The failures that the run's own rules decide.
#[derive(Debug, Clone, Copy, PartialEq, Eq, Structural)]
pub enum BatchError {
    /// The number of jobs is zero.
    BadConfig,
    /// No input was found.
    NoInputs,
    /// The submission command does not split into words, or has none.
    SubmitParse,
}

/// One job: its name, the file name of its script, and the script's text.
#[derive(Debug, Clone)]
pub struct JobScript {
    pub name: String,
    pub file_name: String,
    pub text: String,
}

impl View for JobScript {
    type V = (Seq<char>, Seq<char>, Seq<char>);

    open spec fn view(&self) -> (Seq<char>, Seq<char>, Seq<char>) {
        (self.name@, self.file_name@, self.text@)
    }
}

pub open spec fn job_views(v: Seq<JobScript>) -> Seq<(Seq<char>, Seq<char>, Seq<char>)> {
    v.map_values(|j: JobScript| j@)
}

pub open spec fn job_count(requested: int, n: int) -> int {
    if requested < n {
        requested
    } else {
        n
    }
}

/// The jobs for the inputs `order`, already sorted: `min(batch, n)` groups,
/// job `g` named with index `g + 1`.
pub open spec fn planned_jobs(
    cli: Cli,
    worker: Seq<char>,
    order: Seq<Seq<char>>,
) -> Seq<(Seq<char>, Seq<char>, Seq<char>)> {
    let m = job_count(cli.batch as int, order.len() as int);
    Seq::new(
        m as nat,
        |g: int|
            (
                job_name_of(cli.job_name_prefix@, (g + 1) as nat),
                script_file_name(cli.job_name_prefix@, (g + 1) as nat),
                script_text(
                    worker,
                    cli.input_flag@,
                    groups_of(order, m)[g],
                    views(cli.script_args@),
                ),
            ),
    )
}

/// Fails with `BadConfig` when no job is asked for.
pub fn check_batch(batch: usize) -> (r: Result<(), BatchError>)
    ensures
        r is Err <==> batch == 0,
        r is Err ==> r->Err_0 == BatchError::BadConfig,
{
    if batch == 0 {
        Err(BatchError::BadConfig)
    } else {
        Ok(())
    }
}

/// The jobs for inputs that are already in order.
pub fn jobs_for(cli: &Cli, worker: &str, order: &Vec<String>) -> (r: Vec<JobScript>)
    requires
        cli.batch >= 1,
        order@.len() >= 1,
    ensures
        job_views(r@) == planned_jobs(*cli, worker@, views(order@)),
{
    let n = order.len();
    let m = if cli.batch < n {
        cli.batch
    } else {
        n
    };
    let groups = split_evenly(order.as_slice(), m);
    let mut out: Vec<JobScript> = Vec::new();
    let mut g: usize = 0;
    while g < m
        invariant
            m == job_count(cli.batch as int, order@.len() as int),
            1 <= m <= n,
            n == order@.len(),
            g <= m,
            groups@.len() == m,
            forall|i: int| 0 <= i < m ==> (#[trigger] groups@[i])@ == groups_of(order@, m as int)[i],
            job_views(out@) == planned_jobs(*cli, worker@, views(order@)).take(g as int),
        decreases m - g,
    {
        let name = job_name(cli.job_name_prefix.as_str(), g + 1);
        let file_name = job_file_name(cli.job_name_prefix.as_str(), g + 1);
        let text = job_script_text(
            worker,
            cli.input_flag.as_str(),
            groups[g],
            cli.script_args.as_slice(),
        );
        proof {
            crate::partition::lemma_group_step(n as int, m as int, g as int);
            let gi = groups@[g as int]@;
            let vo = views(order@);
            let s = crate::partition::group_start(n as int, m as int, g as int);
            let e = s + crate::partition::group_size(n as int, m as int, g as int);
            assert(vo.len() == n);
            assert(gi == order@.subrange(s, e));
            assert(groups_of(vo, m as int)[g as int] == vo.subrange(s, e));
            assert(views(gi) =~= vo.subrange(s, e));
        }
        let job = JobScript { name, file_name, text };
        let ghost before = out@;
        out.push(job);
        assert(job_views(out@) =~= job_views(before).push(job@));
        assert(job_views(out@) =~= planned_jobs(*cli, worker@, views(order@)).take(g + 1));
        g = g + 1;
    }
    assert(planned_jobs(*cli, worker@, views(order@)).take(m as int) =~= planned_jobs(
        *cli,
        worker@,
        views(order@),
    ));
    out
}

/// Sorts the inputs and makes the jobs for them. Fails with `BadConfig` when
/// no job is asked for, else with `NoInputs` when there is no input.
pub fn plan_jobs(cli: &Cli, worker: &str, inputs: Vec<String>) -> (r: Result<
    Vec<JobScript>,
    BatchError,
>)
    ensures
        cli.batch == 0 ==> r == Err::<Vec<JobScript>, BatchError>(BatchError::BadConfig),
        cli.batch > 0 && inputs@.len() == 0 ==> r == Err::<Vec<JobScript>, BatchError>(
            BatchError::NoInputs,
        ),
        cli.batch > 0 && inputs@.len() > 0 ==> r is Ok,
        r is Ok ==> exists|order: Seq<Seq<char>>|
            sorted_by(order, lex_leq()) && order.to_multiset() == views(inputs@).to_multiset()
                && job_views(r->Ok_0@) == #[trigger] planned_jobs(*cli, worker@, order),
{
    if cli.batch == 0 {
        return Err(BatchError::BadConfig);
    }
    if inputs.len() == 0 {
        return Err(BatchError::NoInputs);
    }
    let sorted = sort_texts(inputs);
    proof {
        vstd::seq_lib::to_multiset_len(views(sorted@));
        vstd::seq_lib::to_multiset_len(views(inputs@));
    }
    let jobs = jobs_for(cli, worker, &sorted);
    Ok(jobs)
}

/// Scripts and their names depend on the configuration and on the set of
/// inputs alone, not on the order in which the inputs were found.
pub proof fn lemma_plan_deterministic(
    cli: Cli,
    worker: Seq<char>,
    inputs1: Seq<Seq<char>>,
    inputs2: Seq<Seq<char>>,
    order1: Seq<Seq<char>>,
    order2: Seq<Seq<char>>,
)
    requires
        inputs1.to_multiset() == inputs2.to_multiset(),
        sorted_by(order1, lex_leq()),
        order1.to_multiset() == inputs1.to_multiset(),
        sorted_by(order2, lex_leq()),
        order2.to_multiset() == inputs2.to_multiset(),
    ensures
        planned_jobs(cli, worker, order1) == planned_jobs(cli, worker, order2),
{
    lemma_sorted_order_unique(order1, order2);
}

/// With `n >= 1` sorted inputs and `k >= 1` asked for, a run makes
/// `m = min(k, n)` jobs. Job `g` is named with index `g + 1`, and its script
/// runs the inputs of group `g`. The group sizes differ by at most one, none
/// is empty, and the groups taken in order give back the sorted inputs.
pub proof fn lemma_plan_shape(cli: Cli, worker: Seq<char>, order: Seq<Seq<char>>, m: int)
    requires
        cli.batch >= 1,
        order.len() >= 1,
        m == job_count(cli.batch as int, order.len() as int),
    ensures
        planned_jobs(cli, worker, order).len() == m,
        forall|g: int|
            0 <= g < m ==> (#[trigger] planned_jobs(cli, worker, order)[g]).0 == job_name_of(
                cli.job_name_prefix@,
                (g + 1) as nat,
            ) && planned_jobs(cli, worker, order)[g].1 == script_file_name(
                cli.job_name_prefix@,
                (g + 1) as nat,
            ) && planned_jobs(cli, worker, order)[g].2 == script_text(
                worker,
                cli.input_flag@,
                groups_of(order, m)[g],
                views(cli.script_args@),
            ),
        forall|g1: int, g2: int|
            0 <= g1 < m && 0 <= g2 < m ==> #[trigger] groups_of(order, m)[g1].len()
                <= #[trigger] groups_of(order, m)[g2].len() + 1,
        forall|g: int| 0 <= g < m ==> #[trigger] groups_of(order, m)[g].len() >= 1,
        groups_of(order, m).flatten() == order,
{
    crate::partition::lemma_split_balanced(order, cli.batch as int, m);
}

/// The command that submits the script at `script_path`: the words of
/// `submit`, then the path. Fails with `SubmitParse` when `submit` does not
/// split into words or has none.
pub fn submit_command(submit: &str, script_path: &str) -> (r: Result<Vec<String>, BatchError>)
    ensures
        r is Err <==> (shell_words(submit@) is None || shell_words(submit@)->0.len() == 0),
        r is Err ==> r->Err_0 == BatchError::SubmitParse,
        r is Ok ==> views(r->Ok_0@) == shell_words(submit@)->0.push(script_path@),
{
    match split_words(submit) {
        None => Err(BatchError::SubmitParse),
        Some(words) => {
            if words.len() == 0 {
                return Err(BatchError::SubmitParse);
            }
            let mut argv = words;
            let ghost before = argv@;
            let p = String::from_str(script_path);
            argv.push(p);
            proof {
                lemma_views_push(before, p);
            }
            Ok(argv)
        },
    }
}

} // verus!
