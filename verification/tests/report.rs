use sas_scan::finding::{Finding, ScannerKind};
use sas_scan::record::FileRecord;
use sas_scan::report::{
    detail_header_bytes, enc_field_bytes, encode_detail_rows, parse_detail_rows,
    summary_header_bytes, summary_row_bytes,
};
use sas_scan::runner::run_scanners;

fn b(s: &str) -> Vec<u8> {
    s.as_bytes().to_vec()
}

#[test]
fn plain_fields_are_written_verbatim() {
    assert_eq!(enc_field_bytes(&b("plain_value")), b("plain_value"));
}

#[test]
fn special_fields_are_quoted_and_escaped() {
    assert_eq!(enc_field_bytes(&b("a,b")), b("\"a,b\""));
    assert_eq!(enc_field_bytes(&b("a\nb")), b("\"a\nb\""));
    assert_eq!(enc_field_bytes(&b("say \"hi\"")), b("\"say \"\"hi\"\"\""));
}

#[test]
fn detail_rows_round_trip_with_embedded_newlines_and_commas() {
    let findings = vec![
        Finding {
            file_id: b("f-1"),
            scanner: ScannerKind::GetSql,
            payload: b("(2, proc sql;\nselect a,b from t;\nquit;)"),
        },
        Finding {
            file_id: b("f-1"),
            scanner: ScannerKind::LineCount,
            payload: b("12"),
        },
        Finding {
            file_id: b("f-2"),
            scanner: ScannerKind::GetPassword,
            payload: b("(3, PASSWORD=\"X,Y\")"),
        },
    ];
    let bytes = encode_detail_rows(&findings);
    let parsed = parse_detail_rows(&bytes).expect("well-formed rows must parse");
    assert_eq!(parsed.len(), findings.len());
    for (p, f) in parsed.iter().zip(findings.iter()) {
        assert_eq!(p.file_id, f.file_id);
        assert_eq!(p.scanner, f.scanner);
        assert_eq!(p.payload, f.payload);
    }
}

#[test]
fn a_full_scan_round_trips_through_the_detail_report() {
    let id = b("run-1");
    let text = b("libname a;\npassword=x,y\nproc sql;\nselect 1;\nquit;\n2023-06-30\n");
    let findings = run_scanners(&id, &text);
    let bytes = encode_detail_rows(&findings);
    let parsed = parse_detail_rows(&bytes).expect("well-formed rows must parse");
    assert_eq!(parsed.len(), findings.len());
    for (p, f) in parsed.iter().zip(findings.iter()) {
        assert_eq!(p.file_id, f.file_id);
        assert_eq!(p.scanner, f.scanner);
        assert_eq!(p.payload, f.payload);
    }
}

#[test]
fn malformed_detail_bytes_are_refused() {
    assert!(parse_detail_rows(&b("no trailing newline")).is_none());
    assert!(parse_detail_rows(&b("only,two\n")).is_none());
    assert!(parse_detail_rows(&b("id,unknown_scanner,payload\n")).is_none());
    assert!(parse_detail_rows(&b("id,line_count,\"unclosed\n")).is_none());
}

#[test]
fn empty_detail_report_is_empty_bytes() {
    let findings: Vec<Finding> = Vec::new();
    assert_eq!(encode_detail_rows(&findings), b(""));
    assert_eq!(parse_detail_rows(&b("")).unwrap().len(), 0);
}

#[test]
fn headers_match_the_report_columns() {
    assert_eq!(detail_header_bytes(), b("uuid,func_nm,result\n"));
    assert_eq!(
        summary_header_bytes(),
        b("uuid,file_nm,file_dir,create_dt,modify_dt,size_bytes\n")
    );
}

#[test]
fn file_records_get_fresh_36_byte_identities() {
    let one = FileRecord::new(b("a.sas"), b("/data"), 0, 0, 10);
    let two = FileRecord::new(b("a.sas"), b("/data"), 0, 0, 10);
    assert_eq!(one.id.len(), 36);
    assert_eq!(two.id.len(), 36);
    assert_ne!(one.id, two.id);
    for &byte in &one.id {
        assert!(byte == b'-' || byte.is_ascii_hexdigit());
    }
}

#[test]
fn summary_row_renders_timestamps_on_the_calendar() {
    let rec = FileRecord::new(b("a.sas"), b("/data/in"), 0, 1688083200, 2048);
    let row = summary_row_bytes(&rec);
    let text = String::from_utf8(row).unwrap();
    let mut expected = String::from_utf8(rec.id.clone()).unwrap();
    expected.push_str(",a.sas,/data/in,1970-01-01 00:00:00,2023-06-30 00:00:00,2048\n");
    assert_eq!(text, expected);
}

#[test]
fn summary_row_renders_the_largest_size_exactly() {
    let rec = FileRecord::new(b("big.sas"), b("/data"), 0, 0, u64::MAX);
    let text = String::from_utf8(summary_row_bytes(&rec)).unwrap();
    assert!(text.ends_with(",18446744073709551615\n"));
}

#[test]
fn summary_row_quotes_names_holding_commas() {
    let rec = FileRecord::new(b("odd,name.sas"), b("/data"), 0, 0, 1);
    let row = summary_row_bytes(&rec);
    let text = String::from_utf8(row).unwrap();
    assert!(text.contains(",\"odd,name.sas\",/data,"));
}
