//! The scan runner: applies the registered scanners to one file's content,
//! in their fixed registration order, and collects the tagged findings.

use vstd::prelude::*;

use crate::finding::{finding_views, Finding, FindingView};
use crate::scanners::{
    date_findings, date_findings_from, export_count_findings, export_count, find_date,
    get_libname, get_password, libname_findings, libname_findings_from, line_count,
    line_count_findings, null_count, null_count_findings, password_findings,
    password_findings_from,
};
use crate::sql::{get_sql, get_sql_findings, sql_count, sql_count_findings};
use crate::text::lines_of;

verus! {

/// Every finding the registered scanners emit for one file, in registration
/// order: line count, SQL block count, SQL block extraction, libname,
/// password, export count, null count, date.
pub open spec fn scan_findings(id: Seq<u8>, content: Seq<u8>) -> Seq<FindingView> {
    line_count_findings(id, content) + sql_count_findings(id, content) + get_sql_findings(
        id,
        content,
    ) + libname_findings(id, content) + password_findings(id, content) + export_count_findings(
        id,
        content,
    ) + null_count_findings(id, content) + date_findings(id, content)
}

/// Runs every registered scanner over the file's content, in registration
/// order, tagging each finding with the file's identity.
pub fn run_scanners(file_id: &Vec<u8>, content: &Vec<u8>) -> (r: Vec<Finding>)
    ensures
        finding_views(r@) == scan_findings(file_id@, content@),
{
    let mut r = line_count(file_id, content);
    let mut part = sql_count(file_id, content);
    let ghost v0 = r@;
    let ghost p0 = part@;
    r.append(&mut part);
    proof {
        assert(finding_views(r@) =~= finding_views(v0) + finding_views(p0));
    }
    let mut part = get_sql(file_id, content);
    let ghost v1 = r@;
    let ghost p1 = part@;
    r.append(&mut part);
    proof {
        assert(finding_views(r@) =~= finding_views(v1) + finding_views(p1));
    }
    let mut part = get_libname(file_id, content);
    let ghost v2 = r@;
    let ghost p2 = part@;
    r.append(&mut part);
    proof {
        assert(finding_views(r@) =~= finding_views(v2) + finding_views(p2));
    }
    let mut part = get_password(file_id, content);
    let ghost v3 = r@;
    let ghost p3 = part@;
    r.append(&mut part);
    proof {
        assert(finding_views(r@) =~= finding_views(v3) + finding_views(p3));
    }
    let mut part = export_count(file_id, content);
    let ghost v4 = r@;
    let ghost p4 = part@;
    r.append(&mut part);
    proof {
        assert(finding_views(r@) =~= finding_views(v4) + finding_views(p4));
    }
    let mut part = null_count(file_id, content);
    let ghost v5 = r@;
    let ghost p5 = part@;
    r.append(&mut part);
    proof {
        assert(finding_views(r@) =~= finding_views(v5) + finding_views(p5));
    }
    let mut part = find_date(file_id, content);
    let ghost v6 = r@;
    let ghost p6 = part@;
    r.append(&mut part);
    proof {
        assert(finding_views(r@) =~= finding_views(v6) + finding_views(p6));
        assert(finding_views(r@) =~= scan_findings(file_id@, content@));
    }
    r
}

/// The finding, re-tagged with the given identity.
pub open spec fn with_id(f: FindingView, id: Seq<u8>) -> FindingView {
    FindingView { file_id: id, scanner: f.scanner, payload: f.payload }
}

/// The findings, each re-tagged with the given identity.
pub open spec fn retag(fs: Seq<FindingView>, id: Seq<u8>) -> Seq<FindingView> {
    fs.map_values(|f: FindingView| with_id(f, id))
}

proof fn lemma_libname_retag(id1: Seq<u8>, id2: Seq<u8>, lines: Seq<Seq<u8>>, i: int)
    ensures
        libname_findings_from(id1, lines, i) == retag(libname_findings_from(id2, lines, i), id1),
    decreases lines.len() - i,
{
    if i < 0 || i >= lines.len() {
        assert(libname_findings_from(id1, lines, i) =~= retag(
            libname_findings_from(id2, lines, i),
            id1,
        ));
    } else {
        lemma_libname_retag(id1, id2, lines, i + 1);
        assert(libname_findings_from(id1, lines, i) =~= retag(
            libname_findings_from(id2, lines, i),
            id1,
        ));
    }
}

proof fn lemma_password_retag(id1: Seq<u8>, id2: Seq<u8>, lines: Seq<Seq<u8>>, i: int)
    ensures
        password_findings_from(id1, lines, i) == retag(
            password_findings_from(id2, lines, i),
            id1,
        ),
    decreases lines.len() - i,
{
    if i < 0 || i >= lines.len() {
        assert(password_findings_from(id1, lines, i) =~= retag(
            password_findings_from(id2, lines, i),
            id1,
        ));
    } else {
        lemma_password_retag(id1, id2, lines, i + 1);
        assert(password_findings_from(id1, lines, i) =~= retag(
            password_findings_from(id2, lines, i),
            id1,
        ));
    }
}

proof fn lemma_date_retag(id1: Seq<u8>, id2: Seq<u8>, lines: Seq<Seq<u8>>, i: int)
    ensures
        date_findings_from(id1, lines, i) == retag(date_findings_from(id2, lines, i), id1),
    decreases lines.len() - i,
{
    if i < 0 || i >= lines.len() {
        assert(date_findings_from(id1, lines, i) =~= retag(
            date_findings_from(id2, lines, i),
            id1,
        ));
    } else {
        lemma_date_retag(id1, id2, lines, i + 1);
        assert(date_findings_from(id1, lines, i) =~= retag(
            date_findings_from(id2, lines, i),
            id1,
        ));
    }
}

/// The file's identity tags the findings but steers no scanner: a scan
/// under one identity is the scan under another, re-tagged.
pub proof fn lemma_scan_independent_of_id(id1: Seq<u8>, id2: Seq<u8>, content: Seq<u8>)
    ensures
        scan_findings(id1, content) == retag(scan_findings(id2, content), id1),
{
    lemma_libname_retag(id1, id2, lines_of(content), 0);
    lemma_password_retag(id1, id2, lines_of(content), 0);
    lemma_date_retag(id1, id2, lines_of(content), 0);
    assert(line_count_findings(id1, content) =~= retag(line_count_findings(id2, content), id1));
    assert(sql_count_findings(id1, content) =~= retag(sql_count_findings(id2, content), id1));
    assert(get_sql_findings(id1, content) =~= retag(get_sql_findings(id2, content), id1));
    assert(export_count_findings(id1, content) =~= retag(
        export_count_findings(id2, content),
        id1,
    ));
    assert(null_count_findings(id1, content) =~= retag(null_count_findings(id2, content), id1));
    assert(scan_findings(id1, content) =~= retag(scan_findings(id2, content), id1));
}

/// Every finding of a scan carries the identity the scan ran under: the
/// detail report never references a file record the run did not produce.
pub proof fn lemma_scan_findings_tagged(id: Seq<u8>, content: Seq<u8>)
    ensures
        forall|j: int|
            0 <= j < scan_findings(id, content).len() ==> #[trigger] scan_findings(
                id,
                content,
            )[j].file_id == id,
{
    lemma_scan_independent_of_id(id, id, content);
    assert forall|j: int|
        0 <= j < scan_findings(id, content).len() implies #[trigger] scan_findings(
        id,
        content,
    )[j].file_id == id by {
        assert(scan_findings(id, content)[j] == retag(scan_findings(id, content), id)[j]);
    }
}

/// Re-scanning unchanged content yields the same detail rows but for the
/// identity column, however the per-run identities were generated.
pub proof fn lemma_rescan_same_details(id1: Seq<u8>, id2: Seq<u8>, content: Seq<u8>)
    ensures
        scan_findings(id1, content).len() == scan_findings(id2, content).len(),
        forall|j: int|
            0 <= j < scan_findings(id1, content).len() ==> {
                &&& (#[trigger] scan_findings(id1, content)[j]).scanner == scan_findings(
                    id2,
                    content,
                )[j].scanner
                &&& scan_findings(id1, content)[j].payload == scan_findings(
                    id2,
                    content,
                )[j].payload
            },
{
    lemma_scan_independent_of_id(id1, id2, content);
    assert forall|j: int|
        0 <= j < scan_findings(id1, content).len() implies {
        &&& (#[trigger] scan_findings(id1, content)[j]).scanner == scan_findings(
            id2,
            content,
        )[j].scanner
        &&& scan_findings(id1, content)[j].payload == scan_findings(id2, content)[j].payload
    } by {
        assert(scan_findings(id1, content)[j] == retag(scan_findings(id2, content), id1)[j]);
    }
}

} // verus!
