use batchelor::{
    check_batch, classify, dry_run_line, format_invocation, has_glob_meta, is_stale_script_name,
    job_file_name, job_name, job_script_text, parse_positional_slot, parse_template_tokens,
    plan_jobs, quote_all, shell_quote, shell_quote_path, sort_texts, split_evenly, submit_command,
    select_stale_scripts, BatchError, Cli, Convention,
};

const HEADER: &str = "#!/usr/bin/env bash\nset -euo pipefail\n\n";

fn strings(v: &[&str]) -> Vec<String> {
    v.iter().map(|s| s.to_string()).collect()
}

fn config(batch: usize, input_flag: &str, script_args: &[&str]) -> Cli {
    Cli {
        script: "w.sh".to_string(),
        glob: Vec::new(),
        input_flag: input_flag.to_string(),
        batch,
        out_dir: ".batchelor".to_string(),
        submit: "sbatch".to_string(),
        job_name_prefix: "batch".to_string(),
        script_args: strings(script_args),
        dry_run: false,
        keep: false,
    }
}

#[test]
fn quote_empty_is_two_quotes() {
    assert_eq!(shell_quote(""), "''");
}

#[test]
fn quote_safe_text_unchanged() {
    assert_eq!(shell_quote("abc/DEF-0_9.txt@%+=:,"), "abc/DEF-0_9.txt@%+=:,");
}

#[test]
fn quote_wraps_space() {
    assert_eq!(shell_quote("a b"), "'a b'");
}

#[test]
fn quote_escapes_single_quote() {
    assert_eq!(shell_quote("it's"), "'it'\\''s'");
}

#[test]
fn quote_never_adds_dollar_or_double_quote() {
    assert_eq!(shell_quote("$HOME \"x\""), "'$HOME \"x\"'");
    assert_eq!(shell_quote("`id`"), "'`id`'");
}

#[test]
fn quote_non_ascii_is_quoted() {
    assert_eq!(shell_quote("caf\u{e9}"), "'caf\u{e9}'");
}

#[test]
fn quote_path_same_as_text() {
    assert_eq!(shell_quote_path("/tmp/my dir/x.sh"), "'/tmp/my dir/x.sh'");
}

#[test]
fn split_seven_into_three() {
    let items: Vec<u32> = (0..7).collect();
    let groups = split_evenly(&items, 3);
    let sizes: Vec<usize> = groups.iter().map(|g| g.len()).collect();
    assert_eq!(sizes, vec![3, 2, 2]);
    let joined: Vec<u32> = groups.iter().flat_map(|g| g.iter().copied()).collect();
    assert_eq!(joined, items);
}

#[test]
fn split_balance_over_many_sizes() {
    for n in 1usize..30 {
        for k in 1usize..12 {
            let items: Vec<usize> = (0..n).collect();
            let m = k.min(n);
            let groups = split_evenly(&items, m);
            assert_eq!(groups.len(), m);
            let max = groups.iter().map(|g| g.len()).max().unwrap();
            let min = groups.iter().map(|g| g.len()).min().unwrap();
            assert!(max - min <= 1);
            assert!(min >= 1);
            let joined: Vec<usize> = groups.iter().flat_map(|g| g.iter().copied()).collect();
            assert_eq!(joined, items);
        }
    }
}

#[test]
fn split_more_groups_than_items() {
    let items = vec!['a', 'b'];
    let groups = split_evenly(&items, 4);
    let sizes: Vec<usize> = groups.iter().map(|g| g.len()).collect();
    assert_eq!(sizes, vec![1, 1, 0, 0]);
}

#[test]
fn slot_parsing() {
    assert_eq!(parse_positional_slot("$2"), Some(2));
    assert_eq!(parse_positional_slot("$1"), Some(1));
    assert_eq!(parse_positional_slot("$01"), Some(1));
    assert_eq!(parse_positional_slot("$0"), None);
    assert_eq!(parse_positional_slot("$"), None);
    assert_eq!(parse_positional_slot("$x"), None);
    assert_eq!(parse_positional_slot("$2x"), None);
    assert_eq!(parse_positional_slot("--input"), None);
    assert_eq!(parse_positional_slot("$99999999999999999999999"), None);
}

#[test]
fn convention_precedence() {
    assert_eq!(classify("$2"), Convention::Slot(2));
    assert_eq!(classify("$1"), Convention::Slot(1));
    assert_eq!(classify("--foo"), Convention::Flag("--foo".to_string()));
    assert_eq!(
        classify("echo $1 done"),
        Convention::Template(strings(&["echo", "$1", "done"]))
    );
    assert_eq!(classify("--input"), Convention::Flag("--input".to_string()));
}

#[test]
fn template_tokens_fall_back_to_whole_text() {
    assert_eq!(parse_template_tokens("-i $1 -o out/$1.done"), strings(&["-i", "$1", "-o", "out/$1.done"]));
    assert_eq!(parse_template_tokens("'$1"), strings(&["'$1"]));
}

#[test]
fn unsplittable_text_with_placeholder_is_flag() {
    assert_eq!(classify("'x $1"), Convention::Flag("'x $1".to_string()));
    assert_eq!(classify("'$1"), Convention::Flag("'$1".to_string()));
}

#[test]
fn script_unsplittable_convention_is_named_flag() {
    let text = job_script_text("/abs/w.sh", "'$1", &strings(&["x"]), &[]);
    assert_eq!(text, format!("{}bash /abs/w.sh ''\\''$1' x\n", HEADER));
}

#[test]
fn invocation_positional_slot() {
    let qargs = quote_all(&strings(&["foo", "bar"]));
    let args = format_invocation("x.dat", &Convention::Slot(2), &qargs);
    assert_eq!(args, strings(&["foo", "x.dat", "bar"]));
}

#[test]
fn invocation_slot_past_end() {
    let qargs = quote_all(&strings(&["foo"]));
    let args = format_invocation("x", &Convention::Slot(5), &qargs);
    assert_eq!(args, strings(&["foo", "x"]));
}

#[test]
fn invocation_slot_without_args() {
    let args = format_invocation("in put", &Convention::Slot(1), &Vec::new());
    assert_eq!(args, strings(&["'in put'"]));
}

#[test]
fn invocation_named_flag() {
    let qargs = quote_all(&strings(&["a b"]));
    let args = format_invocation("x", &Convention::Flag("--in".to_string()), &qargs);
    assert_eq!(args, strings(&["--in", "x", "'a b'"]));
}

#[test]
fn invocation_template() {
    let c = classify("-i $1 -o out/$1.done");
    let args = format_invocation("one", &c, &Vec::new());
    assert_eq!(args, strings(&["-i", "one", "-o", "out/one.done"]));
    let c = classify("'-i $1' '-o out/$1.done'");
    let args = format_invocation("my file", &c, &Vec::new());
    assert_eq!(args, strings(&["'-i my file'", "'-o out/my file.done'"]));
}

#[test]
fn script_named_flag_one_group() {
    let text = job_script_text(
        "/abs/w.sh",
        "--input",
        &strings(&["/abs/a.txt", "/abs/b.txt"]),
        &[],
    );
    let expected = format!(
        "{}bash /abs/w.sh --input /abs/a.txt\nbash /abs/w.sh --input /abs/b.txt\n",
        HEADER
    );
    assert_eq!(text, expected);
}

#[test]
fn script_positional_slot() {
    let text = job_script_text("/abs/w.sh", "$2", &strings(&["x.dat"]), &strings(&["foo", "bar"]));
    assert_eq!(text, format!("{}bash /abs/w.sh foo x.dat bar\n", HEADER));
}

#[test]
fn script_template() {
    let text = job_script_text(
        "/abs/w.sh",
        "'-i $1' '-o out/$1.done'",
        &strings(&["one", "two"]),
        &[],
    );
    let expected = format!(
        "{}bash /abs/w.sh '-i one' '-o out/one.done'\nbash /abs/w.sh '-i two' '-o out/two.done'\n",
        HEADER
    );
    assert_eq!(text, expected);
    let text = job_script_text("/abs/w.sh", "-i $1 -o out/$1.done", &strings(&["one"]), &[]);
    assert_eq!(text, format!("{}bash /abs/w.sh -i one -o out/one.done\n", HEADER));
}

#[test]
fn script_slot_with_empty_args_has_input_alone() {
    let text = job_script_text("/w s.sh", "$1", &strings(&["x"]), &[]);
    assert_eq!(text, format!("{}bash '/w s.sh' x\n", HEADER));
}

#[test]
fn script_no_inputs_is_header_only() {
    assert_eq!(job_script_text("/w.sh", "--input", &[], &[]), HEADER);
}

#[test]
fn job_names_padded() {
    assert_eq!(job_name("batch", 1), "batch-0001");
    assert_eq!(job_name("batch", 42), "batch-0042");
    assert_eq!(job_name("run", 9999), "run-9999");
    assert_eq!(job_name("run", 12345), "run-12345");
    assert_eq!(job_name("p", 0), "p-0000");
    assert_eq!(job_file_name("batch", 3), "batch-0003.batch.sh");
}

#[test]
fn cleanup_selects_only_own_scripts() {
    assert!(is_stale_script_name("batch-0001.batch.sh", "batch"));
    assert!(is_stale_script_name("batch-old.batch.sh", "batch"));
    assert!(!is_stale_script_name("other-0001.batch.sh", "batch"));
    assert!(!is_stale_script_name("batch-0001.batch.sh.bak", "batch"));
    assert!(!is_stale_script_name("batch-0001.sh", "batch"));
    assert!(!is_stale_script_name("batch0001.batch.sh", "batch"));
    assert!(!is_stale_script_name("batchx-0001.batch.sh", "batch"));
    assert!(is_stale_script_name(&job_file_name("run", 7), "run"));
}

#[test]
fn dry_run_line_shows_submit_and_path() {
    assert_eq!(
        dry_run_line("sbatch --mem 4G", "/tmp/out/batch-0001.batch.sh"),
        "[dry-run] sbatch --mem 4G /tmp/out/batch-0001.batch.sh"
    );
    assert_eq!(dry_run_line("bash", "/tmp/a b/x.sh"), "[dry-run] bash '/tmp/a b/x.sh'");
}

#[test]
fn submit_command_appends_script() {
    assert_eq!(
        submit_command("sbatch --mem 4G", "/o/batch-0001.batch.sh"),
        Ok(strings(&["sbatch", "--mem", "4G", "/o/batch-0001.batch.sh"]))
    );
    assert_eq!(submit_command("false", "/o/s.sh"), Ok(strings(&["false", "/o/s.sh"])));
    assert_eq!(
        submit_command("sbatch --comment 'a b'", "/o/s.sh"),
        Ok(strings(&["sbatch", "--comment", "a b", "/o/s.sh"]))
    );
}

#[test]
fn submit_command_errors() {
    assert_eq!(submit_command("", "/o/s.sh"), Err(BatchError::SubmitParse));
    assert_eq!(submit_command("   ", "/o/s.sh"), Err(BatchError::SubmitParse));
    assert_eq!(submit_command("sbatch 'open", "/o/s.sh"), Err(BatchError::SubmitParse));
}

#[test]
fn batch_zero_is_bad_config() {
    assert_eq!(check_batch(0), Err(BatchError::BadConfig));
    assert_eq!(check_batch(1), Ok(()));
    let r = plan_jobs(&config(0, "--input", &[]), "/w.sh", strings(&["a"]));
    assert!(matches!(r, Err(BatchError::BadConfig)));
}

#[test]
fn no_inputs_error() {
    let r = plan_jobs(&config(2, "--input", &[]), "/w.sh", Vec::new());
    assert!(matches!(r, Err(BatchError::NoInputs)));
}

#[test]
fn sort_orders_by_bytes_and_keeps_duplicates() {
    let sorted = sort_texts(strings(&["b", "a", "B", "ab", "a", "\u{e9}", "z"]));
    assert_eq!(sorted, strings(&["B", "a", "a", "ab", "b", "z", "\u{e9}"]));
    let mut expected = strings(&["b", "a", "B", "ab", "a", "\u{e9}", "z"]);
    expected.sort();
    assert_eq!(sorted, expected);
}

#[test]
fn plan_balanced_split_of_seven() {
    let inputs = strings(&["g", "c", "a", "e", "b", "f", "d"]);
    let jobs = plan_jobs(&config(3, "--input", &[]), "/w.sh", inputs).unwrap();
    let names: Vec<&str> = jobs.iter().map(|j| j.name.as_str()).collect();
    assert_eq!(names, vec!["batch-0001", "batch-0002", "batch-0003"]);
    let files: Vec<&str> = jobs.iter().map(|j| j.file_name.as_str()).collect();
    assert_eq!(
        files,
        vec!["batch-0001.batch.sh", "batch-0002.batch.sh", "batch-0003.batch.sh"]
    );
    let lines: Vec<usize> = jobs.iter().map(|j| j.text.lines().count() - 3).collect();
    assert_eq!(lines, vec![3, 2, 2]);
    assert_eq!(
        jobs[0].text,
        format!(
            "{}bash /w.sh --input a\nbash /w.sh --input b\nbash /w.sh --input c\n",
            HEADER
        )
    );
    assert_eq!(jobs[2].text, format!("{}bash /w.sh --input f\nbash /w.sh --input g\n", HEADER));
}

#[test]
fn plan_caps_jobs_at_input_count() {
    let jobs = plan_jobs(&config(5, "--input", &[]), "/w.sh", strings(&["x", "y"])).unwrap();
    assert_eq!(jobs.len(), 2);
}

#[test]
fn plan_is_independent_of_input_order() {
    let c = config(2, "-i $1", &["--fast"]);
    let a = plan_jobs(&c, "/w.sh", strings(&["c", "a", "b"])).unwrap();
    let b = plan_jobs(&c, "/w.sh", strings(&["b", "c", "a"])).unwrap();
    assert_eq!(a.len(), b.len());
    for (x, y) in a.iter().zip(b.iter()) {
        assert_eq!(x.name, y.name);
        assert_eq!(x.file_name, y.file_name);
        assert_eq!(x.text, y.text);
    }
}

#[test]
fn glob_meta_detection() {
    assert!(has_glob_meta("*.txt"));
    assert!(has_glob_meta("a?.txt"));
    assert!(has_glob_meta("[ab].txt"));
    assert!(!has_glob_meta("plain.txt"));
    assert!(!has_glob_meta(""));
}

#[test]
fn quoted_text_reads_back_as_one_word() {
    let cases = [
        "",
        "plain",
        "a b",
        "it's",
        "''",
        "'\\''",
        "$1 `x` \"y\" \\z",
        "tab\there",
        "new\nline",
        "caf\u{e9} \u{1f600}",
        "-",
    ];
    for s in cases {
        let q = shell_quote(s);
        assert_eq!(shlex::split(&q), Some(vec![s.to_string()]), "quoted form {:?}", q);
    }
}

#[test]
fn cleanup_selection_from_listing() {
    let names = strings(&[
        "batch-0001.batch.sh",
        "other-0001.batch.sh",
        "batchX-0001.batch.sh",
        "batch-0009.batch.sh",
        "batch-0001.batch.sh.bak",
        "batch-notes.txt",
    ]);
    assert_eq!(
        select_stale_scripts(&names, "batch"),
        strings(&["batch-0001.batch.sh", "batch-0009.batch.sh"])
    );
    assert_eq!(select_stale_scripts(&Vec::new(), "batch"), Vec::<String>::new());
}
