use f_boom::cli::{
    cli_job, cli_stats, iqr_stats, median_u64, successful_times, tick_stats, z_score_stats,
    CliSkip, RunOutcome,
};
use f_boom::config::{App, CliConfig, Command};

fn app_with(command: Option<Command>, cli: Option<CliConfig>) -> App {
    App {
        command,
        terminal: None,
        perf: None,
        http: None,
        ws: None,
        grpc: None,
        cli,
    }
}

#[test]
fn median_of_odd_and_even() {
    assert_eq!(median_u64(&[1, 5, 9]), 5);
    assert_eq!(median_u64(&[1, 4, 7, 10]), 5);
    assert_eq!(median_u64(&[3]), 3);
    assert_eq!(median_u64(&[2, 3]), 2);
}

#[test]
fn median_of_huge_values() {
    assert_eq!(median_u64(&[u64::MAX - 1, u64::MAX]), u64::MAX - 1);
    assert_eq!(median_u64(&[u64::MAX, u64::MAX]), u64::MAX);
}

#[test]
fn iqr_leaves_out_outliers() {
    // sorted: 10 11 12 13 14 15 16 1000; q1 = s[2] = 12, q3 = s[6] = 16,
    // iqr = 4, reach = 6: kept values lie in 6..=22
    let ns = [1000, 14, 10, 16, 12, 13, 11, 15];
    assert_eq!(iqr_stats(&ns), (10, 16, 13));
}

#[test]
fn iqr_of_nothing_is_zero() {
    assert_eq!(iqr_stats(&[]), (0, 0, 0));
}

#[test]
fn iqr_of_one_value() {
    assert_eq!(iqr_stats(&[7]), (7, 7, 7));
}

#[test]
fn iqr_lower_fence_stops_at_zero() {
    // q1 = 1, q3 = 100, iqr = 99, reach = 148: lower fence 0, upper 248
    let ns = [0, 1, 2, 100, 100, 300];
    assert_eq!(iqr_stats(&ns), (0, 100, 40));
}

#[test]
fn z_score_uses_the_kept_values() {
    let ns = [5, 100, 7, 6];
    let keep = [true, false, true, true];
    assert_eq!(z_score_stats(&ns, &keep), (5, 7, 6));
}

#[test]
fn z_score_with_few_values() {
    assert_eq!(z_score_stats(&[], &[]), (0, 0, 0));
    assert_eq!(z_score_stats(&[9], &[]), (9, 9, 9));
}

#[test]
fn z_score_keeping_nothing() {
    assert_eq!(z_score_stats(&[1, 2], &[false, false]), (0, 0, 0));
}

#[test]
fn tick_stats_of_values_and_of_nothing() {
    assert_eq!(tick_stats(&[30, 10, 20]), (10, 30, 20));
    assert_eq!(tick_stats(&[]), (0, 0, 0));
}

#[test]
fn cli_stats_of_unsorted_times() {
    let s = cli_stats(&[40, 10, 30, 20]);
    assert_eq!(s.sorted, vec![10, 20, 30, 40]);
    assert_eq!(s.min_ns, 10);
    assert_eq!(s.max_ns, 40);
    assert_eq!(s.avg_ns, 25);
    assert_eq!(s.median_ns, 25);
    assert_eq!(s.iqr, (10, 40, 25));
}

#[test]
fn only_successful_runs_are_timed() {
    let runs = [
        RunOutcome { ok: true, time: 3 },
        RunOutcome { ok: false, time: 99 },
        RunOutcome { ok: true, time: 1 },
    ];
    assert_eq!(successful_times(&runs), vec![3, 1]);
    assert!(successful_times(&[]).is_empty());
}

#[test]
fn cli_job_needs_a_command() {
    let app = app_with(None, Some(CliConfig { max_run: 3, max_duration: 1, tick: false }));
    assert_eq!(cli_job(&app).unwrap_err(), CliSkip::MissingCommand);
}

#[test]
fn cli_job_needs_cli_settings() {
    let app = app_with(Some(Command { first: "ls".to_string(), args: None }), None);
    assert_eq!(cli_job(&app).unwrap_err(), CliSkip::MissingCli);
}

#[test]
fn cli_job_takes_command_and_settings() {
    let app = app_with(
        Some(Command { first: "echo".to_string(), args: Some(vec!["hi".to_string()]) }),
        Some(CliConfig { max_run: 12, max_duration: 5, tick: true }),
    );
    let job = cli_job(&app).unwrap();
    assert_eq!(job.exe, "echo");
    assert_eq!(job.args, vec!["hi".to_string()]);
    assert_eq!(job.runs, 12);
    assert!(job.tick);
    let bare = app_with(
        Some(Command { first: "true".to_string(), args: None }),
        Some(CliConfig { max_run: 1, max_duration: 5, tick: false }),
    );
    assert!(cli_job(&bare).unwrap().args.is_empty());
}

#[test]
fn median_lies_between_extremes() {
    for v in [vec![1u64, 2, 3, 4, 1000], vec![5, 5], vec![0, u64::MAX], vec![2, 9, 9, 11]] {
        let m = median_u64(&v);
        assert!(v[0] <= m && m <= *v.last().unwrap());
    }
}

#[test]
fn iqr_always_keeps_the_quartiles() {
    // sorted: 1 2 3 4 5 6 7 8; q1 = s[2] = 3, q3 = s[6] = 7
    let (lo, hi, _) = iqr_stats(&[8, 7, 6, 5, 4, 3, 2, 1]);
    assert!(lo <= 3 && 7 <= hi);
    let (lo, hi, avg) = iqr_stats(&[1_000_000, 1, 1, 1]);
    assert!(lo <= 1 && 1 <= hi && lo <= avg && avg <= hi);
}
