//! The closed set of scanners, and the findings they emit.

use vstd::prelude::*;

use crate::text::{dec_of, push_all};

verus! {

/// One content scanner of the fixed registration set.
#[derive(Clone, Copy, PartialEq, Eq, Structural, Debug)]
pub enum ScannerKind {
    LineCount,
    SqlCount,
    GetSql,
    GetLibname,
    GetPassword,
    ExportCount,
    NullCount,
    FindDate,
    FindFileName,
}

/// The report name of a scanner.
pub open spec fn spec_scanner_name(k: ScannerKind) -> Seq<u8> {
    match k {
        ScannerKind::LineCount => seq![108u8, 105, 110, 101, 95, 99, 111, 117, 110, 116],
        ScannerKind::SqlCount => seq![115u8, 113, 108, 95, 99, 111, 117, 110, 116],
        ScannerKind::GetSql => seq![103u8, 101, 116, 95, 115, 113, 108],
        ScannerKind::GetLibname => seq![103u8, 101, 116, 95, 108, 105, 98, 110, 97, 109, 101],
        ScannerKind::GetPassword => seq![103u8, 101, 116, 95, 112, 97, 115, 115, 119, 111, 114, 100],
        ScannerKind::ExportCount => seq![101u8, 120, 112, 111, 114, 116, 95, 99, 111, 117, 110, 116],
        ScannerKind::NullCount => seq![110u8, 117, 108, 108, 95, 99, 111, 117, 110, 116],
        ScannerKind::FindDate => seq![102u8, 105, 110, 100, 95, 100, 97, 116, 101],
        ScannerKind::FindFileName => seq![
            102u8,
            105,
            110,
            100,
            95,
            102,
            105,
            108,
            101,
            95,
            110,
            97,
            109,
            101,
        ],
    }
}

/// The report name of a scanner, as bytes.
pub fn scanner_name(k: ScannerKind) -> (r: Vec<u8>)
    ensures
        r@ == spec_scanner_name(k),
{
    let r: Vec<u8> = match k {
        ScannerKind::LineCount => vec![108u8, 105, 110, 101, 95, 99, 111, 117, 110, 116],
        ScannerKind::SqlCount => vec![115u8, 113, 108, 95, 99, 111, 117, 110, 116],
        ScannerKind::GetSql => vec![103u8, 101, 116, 95, 115, 113, 108],
        ScannerKind::GetLibname => vec![103u8, 101, 116, 95, 108, 105, 98, 110, 97, 109, 101],
        ScannerKind::GetPassword => vec![103u8, 101, 116, 95, 112, 97, 115, 115, 119, 111, 114, 100],
        ScannerKind::ExportCount => vec![101u8, 120, 112, 111, 114, 116, 95, 99, 111, 117, 110, 116],
        ScannerKind::NullCount => vec![110u8, 117, 108, 108, 95, 99, 111, 117, 110, 116],
        ScannerKind::FindDate => vec![102u8, 105, 110, 100, 95, 100, 97, 116, 101],
        ScannerKind::FindFileName => vec![
            102u8,
            105,
            110,
            100,
            95,
            102,
            105,
            108,
            101,
            95,
            110,
            97,
            109,
            101,
        ],
    };
    proof {
        assert(r@ =~= spec_scanner_name(k));
    }
    r
}

/// One scanner's reported result for one file.
pub struct Finding {
    pub file_id: Vec<u8>,
    pub scanner: ScannerKind,
    pub payload: Vec<u8>,
}

/// Mathematical image of a `Finding`.
#[verifier::ext_equal]
pub struct FindingView {
    pub file_id: Seq<u8>,
    pub scanner: ScannerKind,
    pub payload: Seq<u8>,
}

impl View for Finding {
    type V = FindingView;

    open spec fn view(&self) -> FindingView {
        FindingView { file_id: self.file_id@, scanner: self.scanner, payload: self.payload@ }
    }
}

/// The views of a sequence of findings.
pub open spec fn finding_views(fs: Seq<Finding>) -> Seq<FindingView> {
    fs.map_values(|f: Finding| f@)
}

/// Payload of an aggregate scanner: the count in decimal.
pub open spec fn count_payload(n: nat) -> Seq<u8> {
    dec_of(n)
}

/// Payload of a positional scanner: `(line_number, text)`.
pub open spec fn pos_payload(line_no: nat, text: Seq<u8>) -> Seq<u8> {
    seq![40u8] + dec_of(line_no) + seq![44u8, 32u8] + text + seq![41u8]
}

/// Payload of the file-name reference scanner: `(line_number):text`.
pub open spec fn ref_payload(line_no: nat, text: Seq<u8>) -> Seq<u8> {
    seq![40u8] + dec_of(line_no) + seq![41u8, 58u8] + text
}

/// Builds the `(line_number, text)` payload.
pub fn make_pos_payload(line_no: usize, text: &Vec<u8>) -> (r: Vec<u8>)
    ensures
        r@ == pos_payload(line_no as nat, text@),
{
    let mut r: Vec<u8> = Vec::new();
    r.push(40);
    let d = crate::text::dec_bytes(line_no as u64);
    push_all(&mut r, &d);
    r.push(44);
    r.push(32);
    push_all(&mut r, text);
    r.push(41);
    assert(r@ =~= pos_payload(line_no as nat, text@));
    r
}

/// Builds the `(line_number):text` payload.
pub fn make_ref_payload(line_no: usize, text: &Vec<u8>) -> (r: Vec<u8>)
    ensures
        r@ == ref_payload(line_no as nat, text@),
{
    let mut r: Vec<u8> = Vec::new();
    r.push(40);
    let d = crate::text::dec_bytes(line_no as u64);
    push_all(&mut r, &d);
    r.push(41);
    r.push(58);
    push_all(&mut r, text);
    assert(r@ =~= ref_payload(line_no as nat, text@));
    r
}

} // verus!
