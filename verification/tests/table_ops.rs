use dpr::status::ExperimentStatus;
use dpr::table::JobTable;

fn loaded_table(contents: &str) -> JobTable {
    let mut t = JobTable::new();
    t.load_commands(contents, false);
    t
}

#[test]
fn status_codes_round_trip() {
    for code in 0..5usize {
        let st = ExperimentStatus::new(code);
        assert_eq!(st.to_db_code(), code);
        assert_eq!(ExperimentStatus::new(st.to_db_code()), st);
    }
}

#[test]
fn status_names() {
    assert_eq!(ExperimentStatus::NotRunning.status_name(), "Available");
    assert_eq!(ExperimentStatus::Running.status_name(), "Running");
    assert_eq!(ExperimentStatus::SuccessFinished.status_name(), "Success");
    assert_eq!(ExperimentStatus::FailedFinished.status_name(), "Failure");
    assert_eq!(ExperimentStatus::TimedOut.status_name(), "Timeout");
}

#[test]
fn terminal_statuses() {
    assert!(!ExperimentStatus::NotRunning.is_terminal());
    assert!(!ExperimentStatus::Running.is_terminal());
    assert!(ExperimentStatus::SuccessFinished.is_terminal());
    assert!(ExperimentStatus::FailedFinished.is_terminal());
    assert!(ExperimentStatus::TimedOut.is_terminal());
}

#[test]
fn load_assigns_sequential_ids_from_one() {
    let t = loaded_table("echo a\nfalse\n");
    let ids: Vec<usize> = t.rows.iter().map(|r| r.id).collect();
    assert_eq!(ids, vec![1, 2]);
    assert!(t.rows.iter().all(|r| r.status == ExperimentStatus::NotRunning));
    assert_eq!(t.get_number_of_available_jobs(), 2);
}

#[test]
fn create_table_drops_all_rows() {
    let mut t = loaded_table("echo a\nfalse\n");
    t.create_table();
    assert_eq!(t.rows.len(), 0);
    assert_eq!(t.get_number_of_available_jobs(), 0);
}

#[test]
fn shuffled_load_is_a_permutation() {
    let contents = "cmd one\ncmd two\ncmd three\ncmd four\ncmd five\n";
    let plain = loaded_table(contents);
    let shuffled = {
        let mut t = JobTable::new();
        t.load_commands(contents, true);
        t
    };
    let mut a: Vec<String> = plain.rows.iter().map(|r| r.command.clone()).collect();
    let mut b: Vec<String> = shuffled.rows.iter().map(|r| r.command.clone()).collect();
    a.sort();
    b.sort();
    assert_eq!(a, b);
}

#[test]
fn claim_returns_at_most_available() {
    // Claim 5 against a table with 2 available rows: exactly 2 jobs come
    // back, and both rows are now running.
    let mut t = loaded_table("echo a\nfalse\n");
    let jobs = t.claim_available(5, false);
    assert_eq!(jobs.len(), 2);
    assert!(t.rows.iter().all(|r| r.status == ExperimentStatus::Running));
    assert_eq!(t.get_number_of_available_jobs(), 0);
}

#[test]
fn claim_takes_first_rows_in_order() {
    let mut t = loaded_table("a\nb\nc\n");
    let jobs = t.claim_available(2, false);
    let ids: Vec<usize> = jobs.iter().map(|j| j.id).collect();
    assert_eq!(ids, vec![1, 2]);
    let commands: Vec<String> = jobs.iter().map(|j| j.command.clone()).collect();
    assert_eq!(commands, vec!["a".to_string(), "b".to_string()]);
    assert_eq!(t.rows[2].status, ExperimentStatus::NotRunning);
}

#[test]
fn two_claims_never_share_a_job() {
    let mut t = loaded_table("a\nb\nc\nd\n");
    let first = t.claim_available(2, false);
    let second = t.claim_available(5, false);
    for j1 in &first {
        for j2 in &second {
            assert_ne!(j1.id, j2.id);
        }
    }
    assert_eq!(first.len(), 2);
    assert_eq!(second.len(), 2);
}

#[test]
fn shuffled_claim_drains_the_same_jobs() {
    let contents = "a\nb\nc\nd\n";
    let mut plain = loaded_table(contents);
    let mut shuffled = loaded_table(contents);
    let mut ids_plain: Vec<usize> = plain.claim_available(10, false).iter().map(|j| j.id).collect();
    let mut ids_shuffled: Vec<usize> =
        shuffled.claim_available(10, true).iter().map(|j| j.id).collect();
    ids_plain.sort();
    ids_shuffled.sort();
    assert_eq!(ids_plain, ids_shuffled);
}

#[test]
fn change_status_updates_only_listed_ids() {
    let mut t = loaded_table("a\nb\nc\n");
    t.change_status_given_ids(vec![2], ExperimentStatus::FailedFinished);
    assert_eq!(t.rows[0].status, ExperimentStatus::NotRunning);
    assert_eq!(t.rows[1].status, ExperimentStatus::FailedFinished);
    assert_eq!(t.rows[2].status, ExperimentStatus::NotRunning);
}

#[test]
fn reset_where_touches_only_that_status() {
    // Two running rows and one failed row: resetting the running ones frees
    // exactly those two, the failed row is untouched.
    let mut t = loaded_table("a\nb\nc\n");
    t.change_status_given_ids(vec![1, 2], ExperimentStatus::Running);
    t.change_status_given_ids(vec![3], ExperimentStatus::FailedFinished);
    t.reset_jobs_with_status(ExperimentStatus::Running);
    assert_eq!(t.rows[0].status, ExperimentStatus::NotRunning);
    assert_eq!(t.rows[1].status, ExperimentStatus::NotRunning);
    assert_eq!(t.rows[2].status, ExperimentStatus::FailedFinished);
}

#[test]
fn reset_all_frees_everything() {
    let mut t = loaded_table("a\nb\nc\n");
    t.change_status_given_ids(vec![1], ExperimentStatus::Running);
    t.change_status_given_ids(vec![2], ExperimentStatus::TimedOut);
    t.reset_all_jobs();
    assert!(t.rows.iter().all(|r| r.status == ExperimentStatus::NotRunning));
    assert_eq!(t.get_number_of_available_jobs(), 3);
}

#[test]
fn histogram_counts_sum_to_row_count() {
    let mut t = loaded_table("a\nb\nc\nd\ne\n");
    t.change_status_given_ids(vec![1], ExperimentStatus::Running);
    t.change_status_given_ids(vec![2], ExperimentStatus::SuccessFinished);
    t.change_status_given_ids(vec![3], ExperimentStatus::TimedOut);
    let h = t.status_histogram();
    assert_eq!(h.len(), 5);
    assert_eq!(h.iter().sum::<usize>(), t.rows.len());
    assert_eq!(h, vec![2, 1, 1, 0, 1]);
}

#[test]
fn all_rows_reports_commands_and_statuses() {
    let mut t = loaded_table("a\nb\n");
    t.change_status_given_ids(vec![2], ExperimentStatus::Running);
    let rows = t.all_rows();
    assert_eq!(rows.len(), 2);
    assert_eq!(rows[0], ("a".to_string(), ExperimentStatus::NotRunning));
    assert_eq!(rows[1], ("b".to_string(), ExperimentStatus::Running));
}

#[test]
fn shuffled_partial_claim_takes_distinct_available_rows() {
    let mut t = loaded_table("a\nb\nc\nd\n");
    let jobs = t.claim_available(2, true);
    assert_eq!(jobs.len(), 2);
    assert_ne!(jobs[0].id, jobs[1].id);
    for j in &jobs {
        assert!((1..=4).contains(&j.id));
        let row = &t.rows[j.id - 1];
        assert_eq!(row.id, j.id);
        assert_eq!(row.command, j.command);
        assert_eq!(row.status, ExperimentStatus::Running);
    }
    assert_eq!(t.get_number_of_available_jobs(), 2);
}
