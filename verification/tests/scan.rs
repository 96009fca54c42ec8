use sas_scan::finding::{Finding, ScannerKind};
use sas_scan::runner::run_scanners;
use sas_scan::scanners::{
    export_count, find_date, find_file_name, get_libname, get_password, line_count, null_count,
};
use sas_scan::sql::{get_sql, sql_count, sql_step_exec, SqlState};

fn b(s: &str) -> Vec<u8> {
    s.as_bytes().to_vec()
}

fn payloads(findings: &[Finding]) -> Vec<String> {
    findings
        .iter()
        .map(|f| String::from_utf8(f.payload.clone()).unwrap())
        .collect()
}

#[test]
fn line_count_counts_terminated_and_unterminated_lines() {
    let id = b("id");
    assert_eq!(payloads(&line_count(&id, &b(""))), vec!["0"]);
    assert_eq!(payloads(&line_count(&id, &b("abc"))), vec!["1"]);
    assert_eq!(payloads(&line_count(&id, &b("abc\n"))), vec!["1"]);
    assert_eq!(payloads(&line_count(&id, &b("abc\ndef"))), vec!["2"]);
    assert_eq!(payloads(&line_count(&id, &b("\n"))), vec!["1"]);
    assert_eq!(payloads(&line_count(&id, &b("a\r\nb\r\n"))), vec!["2"]);
    assert_eq!(payloads(&line_count(&id, &b("a\n\nb"))), vec!["3"]);
}

#[test]
fn sql_count_one_block() {
    let id = b("id");
    let text = b("data x;\nProc Sql;\nselect 1;\nQuit;\nrun;\n");
    assert_eq!(payloads(&sql_count(&id, &text)), vec!["1"]);
}

#[test]
fn sql_count_two_blocks() {
    let id = b("id");
    let text = b("PROC SQL; a; QUIT; middle PROC\n\tSQL b QUIT; end");
    assert_eq!(payloads(&sql_count(&id, &text)), vec!["2"]);
}

#[test]
fn sql_count_unterminated_block_is_zero() {
    let id = b("id");
    let text = b("proc sql;\nselect 1;\nrun;\n");
    assert_eq!(payloads(&sql_count(&id, &text)), vec!["0"]);
}

#[test]
fn sql_count_needs_whitespace_between_keywords() {
    let id = b("id");
    assert_eq!(payloads(&sql_count(&id, &b("PROCSQL x QUIT;"))), vec!["0"]);
}

#[test]
fn get_sql_extracts_block_with_start_line_and_verbatim_text() {
    let id = b("id");
    let text = b("first line\nProc Sql;\nselect * from t;\nquit;\nlast line\n");
    let found = get_sql(&id, &text);
    assert_eq!(found.len(), 1);
    assert_eq!(
        payloads(&found),
        vec!["(2, Proc Sql;\nselect * from t;\nquit;)"]
    );
    assert_eq!(found[0].scanner, ScannerKind::GetSql);
}

#[test]
fn get_sql_single_line_block() {
    let id = b("id");
    let text = b("x\nproc sql; quit;\ny\n");
    assert_eq!(payloads(&get_sql(&id, &text)), vec!["(2, proc sql; quit;)"]);
}

#[test]
fn get_sql_unterminated_block_emits_nothing() {
    let id = b("id");
    let text = b("proc sql;\nselect 1;\n");
    assert_eq!(get_sql(&id, &text).len(), 0);
}

#[test]
fn sql_step_tracks_state_across_lines() {
    let (st, out) = sql_step_exec(SqlState::Outside, &b("proc sql;"), 3);
    assert!(out.is_none());
    let (st, out) = match st {
        SqlState::Inside { start_line, buf } => {
            assert_eq!(start_line, 3);
            assert_eq!(buf.len(), 1);
            sql_step_exec(SqlState::Inside { start_line, buf }, &b("quit;"), 4)
        }
        SqlState::Outside => panic!("expected the opener to enter a block"),
    };
    assert!(matches!(st, SqlState::Outside));
    let block = out.unwrap();
    assert_eq!(block.start_line, 3);
    assert_eq!(block.text, b("proc sql;\nquit;"));
}

#[test]
fn libname_flags_lines_starting_with_keyword() {
    let id = b("id");
    let text = b("libname mylib 'path';\n  libname indented;\nLIBNAME UP;\n");
    assert_eq!(
        payloads(&get_libname(&id, &text)),
        vec!["(1, libname mylib 'path';)", "(3, LIBNAME UP;)"]
    );
}

#[test]
fn password_flags_literal_but_not_placeholder() {
    let id = b("id");
    let flagged = get_password(&id, &b("PASSWORD=abc123\n"));
    assert_eq!(payloads(&flagged), vec!["(1, PASSWORD=ABC123)"]);
    let guarded = get_password(&id, &b("PASSWORD=&PASSWORD.\n"));
    assert_eq!(guarded.len(), 0);
}

#[test]
fn password_normalizes_whitespace_and_case() {
    let id = b("id");
    let found = get_password(&id, &b("x\nuser pass word = secret; password = hunter2\n"));
    assert_eq!(payloads(&found), vec!["(2, USERPASSWORD=SECRET;PASSWORD=HUNTER2)"]);
}

#[test]
fn date_finder_needs_two_digit_month_and_day() {
    let id = b("id");
    assert_eq!(
        payloads(&find_date(&id, &b("run on 2023-06-30 ok\n"))),
        vec!["(1, run on 2023-06-30 ok)"]
    );
    assert_eq!(find_date(&id, &b("run on 2023-6-30 bad\n")).len(), 0);
}

#[test]
fn date_finder_requires_token_boundaries() {
    let id = b("id");
    assert_eq!(find_date(&id, &b("x2023-06-30\n")).len(), 0);
    assert_eq!(find_date(&id, &b("2023-06-301\n")).len(), 0);
    assert_eq!(find_date(&id, &b("(2023-06-30)\n")).len(), 1);
}

#[test]
fn export_and_null_counts_fold_case() {
    let id = b("id");
    let text = b("proc export; Export _null_ data _NULL_;");
    assert_eq!(payloads(&export_count(&id, &text)), vec!["2"]);
    assert_eq!(payloads(&null_count(&id, &text)), vec!["2"]);
}

#[test]
fn null_count_is_non_overlapping() {
    let id = b("id");
    assert_eq!(payloads(&null_count(&id, &b("_NULL_NULL_"))), vec!["1"]);
    assert_eq!(payloads(&null_count(&id, &b("_NULL__NULL_"))), vec!["2"]);
}

#[test]
fn find_file_name_reports_once_per_line() {
    let id = b("id");
    let names = vec![b("alpha.sas"), b("beta.sas")];
    let text = b("uses alpha.sas and beta.sas\nnothing here\nbeta.sas only\n");
    let found = find_file_name(&id, &text, &names);
    assert_eq!(
        payloads(&found),
        vec!["(1):uses alpha.sas and beta.sas", "(3):beta.sas only"]
    );
}

#[test]
fn find_file_name_with_no_names_finds_nothing() {
    let id = b("id");
    let names: Vec<Vec<u8>> = Vec::new();
    assert_eq!(find_file_name(&id, &b("anything\n"), &names).len(), 0);
}

#[test]
fn runner_applies_scanners_in_registration_order() {
    let id = b("file-1");
    let text = b("libname a;\nproc sql;\nquit;\n");
    let found = run_scanners(&id, &text);
    let kinds: Vec<ScannerKind> = found.iter().map(|f| f.scanner).collect();
    assert_eq!(
        kinds,
        vec![
            ScannerKind::LineCount,
            ScannerKind::SqlCount,
            ScannerKind::GetSql,
            ScannerKind::GetLibname,
            ScannerKind::ExportCount,
            ScannerKind::NullCount,
        ]
    );
    assert_eq!(
        payloads(&found),
        vec!["3", "1", "(2, proc sql;\nquit;)", "(1, libname a;)", "0", "0"]
    );
    for f in &found {
        assert_eq!(f.file_id, id);
    }
}

#[test]
fn openers_inside_a_block_do_not_nest() {
    let id = b("id");
    let text = b("proc sql;\nproc sql;\nquit;\nquit;\n");
    assert_eq!(
        payloads(&get_sql(&id, &text)),
        vec!["(1, proc sql;\nproc sql;\nquit;)"]
    );
}

#[test]
fn empty_content_yields_only_zero_counts() {
    let id = b("id");
    let found = run_scanners(&id, &b(""));
    let kinds: Vec<ScannerKind> = found.iter().map(|f| f.scanner).collect();
    assert_eq!(
        kinds,
        vec![
            ScannerKind::LineCount,
            ScannerKind::SqlCount,
            ScannerKind::ExportCount,
            ScannerKind::NullCount,
        ]
    );
    assert_eq!(payloads(&found), vec!["0", "0", "0", "0"]);
}

#[test]
fn rescanning_unchanged_content_yields_identical_findings() {
    let id = b("same-id");
    let text = b("libname a;\npassword=x\n2023-01-02\nproc sql; quit;\nexport _null_\n");
    let first = run_scanners(&id, &text);
    let second = run_scanners(&id, &text);
    assert_eq!(first.len(), second.len());
    for (f, s) in first.iter().zip(second.iter()) {
        assert_eq!(f.file_id, s.file_id);
        assert_eq!(f.scanner, s.scanner);
        assert_eq!(f.payload, s.payload);
    }
}

#[test]
fn rescanning_under_fresh_identity_changes_only_the_id_column() {
    let text = b("libname a;\n2023-01-02\n");
    let first = run_scanners(&b("run-one"), &text);
    let second = run_scanners(&b("run-two"), &text);
    assert_eq!(first.len(), second.len());
    for (f, s) in first.iter().zip(second.iter()) {
        assert_eq!(f.scanner, s.scanner);
        assert_eq!(f.payload, s.payload);
        assert_ne!(f.file_id, s.file_id);
    }
}
