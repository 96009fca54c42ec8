//! The content scanners: each consumes a file's bytes (or its lines) and
//! emits zero or more findings tagged with the file's identity.

use vstd::prelude::*;

use crate::finding::{
    count_payload, finding_views, make_pos_payload, make_ref_payload, pos_payload, ref_payload,
    Finding, FindingView, ScannerKind,
};
use crate::text::{
    check_match_at, contains_bytes, contains_seq, copy_range, dec_bytes, dec_of, lines_of,
    match_at, spec_upper_seq, split_lines, starts_with_bytes, upper_bytes,
};

verus! {

/// The SQL block opener keyword, `PROC SQL`.
pub open spec fn kw_proc_sql() -> Seq<u8> {
    seq![80u8, 82, 79, 67, 32, 83, 81, 76]
}

/// The SQL block closer keyword, `QUIT;`.
pub open spec fn kw_quit() -> Seq<u8> {
    seq![81u8, 85, 73, 84, 59]
}

/// The `LIBNAME` keyword.
pub open spec fn kw_libname() -> Seq<u8> {
    seq![76u8, 73, 66, 78, 65, 77, 69]
}

/// The `PASSWORD=` token.
pub open spec fn kw_password_eq() -> Seq<u8> {
    seq![80u8, 65, 83, 83, 87, 79, 82, 68, 61]
}

/// The `&PASSWORD` placeholder token.
pub open spec fn kw_amp_password() -> Seq<u8> {
    seq![38u8, 80, 65, 83, 83, 87, 79, 82, 68]
}

/// The `EXPORT` token.
pub open spec fn kw_export() -> Seq<u8> {
    seq![69u8, 88, 80, 79, 82, 84]
}

/// The `_NULL_` token.
pub open spec fn kw_null() -> Seq<u8> {
    seq![95u8, 78, 85, 76, 76, 95]
}

pub fn kw_proc_sql_bytes() -> (r: Vec<u8>)
    ensures
        r@ == kw_proc_sql(),
{
    let r: Vec<u8> = vec![80u8, 82, 79, 67, 32, 83, 81, 76];
    proof {
        assert(r@ =~= kw_proc_sql());
    }
    r
}

pub fn kw_quit_bytes() -> (r: Vec<u8>)
    ensures
        r@ == kw_quit(),
{
    let r: Vec<u8> = vec![81u8, 85, 73, 84, 59];
    proof {
        assert(r@ =~= kw_quit());
    }
    r
}

pub fn kw_libname_bytes() -> (r: Vec<u8>)
    ensures
        r@ == kw_libname(),
{
    let r: Vec<u8> = vec![76u8, 73, 66, 78, 65, 77, 69];
    proof {
        assert(r@ =~= kw_libname());
    }
    r
}

pub fn kw_password_eq_bytes() -> (r: Vec<u8>)
    ensures
        r@ == kw_password_eq(),
{
    let r: Vec<u8> = vec![80u8, 65, 83, 83, 87, 79, 82, 68, 61];
    proof {
        assert(r@ =~= kw_password_eq());
    }
    r
}

pub fn kw_amp_password_bytes() -> (r: Vec<u8>)
    ensures
        r@ == kw_amp_password(),
{
    let r: Vec<u8> = vec![38u8, 80, 65, 83, 83, 87, 79, 82, 68];
    proof {
        assert(r@ =~= kw_amp_password());
    }
    r
}

pub fn kw_export_bytes() -> (r: Vec<u8>)
    ensures
        r@ == kw_export(),
{
    let r: Vec<u8> = vec![69u8, 88, 80, 79, 82, 84];
    proof {
        assert(r@ =~= kw_export());
    }
    r
}

pub fn kw_null_bytes() -> (r: Vec<u8>)
    ensures
        r@ == kw_null(),
{
    let r: Vec<u8> = vec![95u8, 78, 85, 76, 76, 95];
    proof {
        assert(r@ =~= kw_null());
    }
    r
}

/// A finding with the given identity, scanner and payload.
pub open spec fn fv(id: Seq<u8>, k: ScannerKind, payload: Seq<u8>) -> FindingView {
    FindingView { file_id: id, scanner: k, payload: payload }
}

/// Builds one finding, copying the file identity.
pub(crate) fn mk_finding(file_id: &Vec<u8>, k: ScannerKind, payload: Vec<u8>) -> (f: Finding)
    ensures
        f@ == fv(file_id@, k, payload@),
{
    let id = copy_range(file_id, 0, file_id.len());
    proof {
        assert(id@ =~= file_id@);
    }
    Finding { file_id: id, scanner: k, payload }
}

/// How many lines the file has.
pub open spec fn spec_line_count(content: Seq<u8>) -> nat {
    lines_of(content).len()
}

/// The single finding of the line-count scanner.
pub open spec fn line_count_findings(id: Seq<u8>, content: Seq<u8>) -> Seq<FindingView> {
    seq![fv(id, ScannerKind::LineCount, count_payload(spec_line_count(content)))]
}

/// Counts the lines of the file and reports the count as one finding.
pub fn line_count(file_id: &Vec<u8>, content: &Vec<u8>) -> (r: Vec<Finding>)
    ensures
        finding_views(r@) == line_count_findings(file_id@, content@),
{
    let lines = split_lines(content);
    let payload = dec_bytes(lines.len() as u64);
    proof {
        assert(lines.deep_view().len() == lines@.len());
    }
    let f = mk_finding(file_id, ScannerKind::LineCount, payload);
    let mut r: Vec<Finding> = Vec::new();
    r.push(f);
    proof {
        assert(finding_views(r@) =~= line_count_findings(file_id@, content@));
    }
    r
}

/// Non-overlapping occurrences of `pat` in `s` at or after `pos`, scanning
/// left to right and resuming after each occurrence.
pub open spec fn token_count_from(s: Seq<u8>, pat: Seq<u8>, pos: int) -> nat
    decreases s.len() - pos,
{
    if pos < 0 || pos >= s.len() || pat.len() == 0 {
        0
    } else if match_at(s, pat, pos) {
        1 + token_count_from(s, pat, pos + pat.len())
    } else {
        token_count_from(s, pat, pos + 1)
    }
}

/// Counts non-overlapping occurrences of `pat` in `s`.
pub fn count_tokens(s: &Vec<u8>, pat: &Vec<u8>) -> (n: usize)
    requires
        1 <= pat@.len(),
    ensures
        n == token_count_from(s@, pat@, 0),
{
    let mut pos: usize = 0;
    let mut n: usize = 0;
    while pos < s.len()
        invariant
            1 <= pat.len(),
            pos <= s.len(),
            n <= pos,
            token_count_from(s@, pat@, 0) == n + token_count_from(s@, pat@, pos as int),
        decreases s.len() - pos,
    {
        if pat.len() <= s.len() - pos && check_match_at(s, pat, pos) {
            n = n + 1;
            pos = pos + pat.len();
        } else {
            pos = pos + 1;
        }
    }
    n
}

/// The number the export-count scanner reports: occurrences of `EXPORT`
/// in the ASCII-upper-cased file content.
pub open spec fn spec_export_count(content: Seq<u8>) -> nat {
    token_count_from(spec_upper_seq(content), kw_export(), 0)
}

/// The single finding of the export-count scanner.
pub open spec fn export_count_findings(id: Seq<u8>, content: Seq<u8>) -> Seq<FindingView> {
    seq![fv(id, ScannerKind::ExportCount, count_payload(spec_export_count(content)))]
}

/// Counts `EXPORT` tokens, case-folded, and reports the count as one finding.
pub fn export_count(file_id: &Vec<u8>, content: &Vec<u8>) -> (r: Vec<Finding>)
    ensures
        finding_views(r@) == export_count_findings(file_id@, content@),
{
    let upper = upper_bytes(content);
    let pat = kw_export_bytes();
    let n = count_tokens(&upper, &pat);
    let payload = dec_bytes(n as u64);
    let f = mk_finding(file_id, ScannerKind::ExportCount, payload);
    let mut r: Vec<Finding> = Vec::new();
    r.push(f);
    proof {
        assert(finding_views(r@) =~= export_count_findings(file_id@, content@));
    }
    r
}

/// The number the null-count scanner reports: occurrences of `_NULL_`
/// in the ASCII-upper-cased file content.
pub open spec fn spec_null_count(content: Seq<u8>) -> nat {
    token_count_from(spec_upper_seq(content), kw_null(), 0)
}

/// The single finding of the null-count scanner.
pub open spec fn null_count_findings(id: Seq<u8>, content: Seq<u8>) -> Seq<FindingView> {
    seq![fv(id, ScannerKind::NullCount, count_payload(spec_null_count(content)))]
}

/// ASCII whitespace: tab, newline, vertical tab, form feed, carriage return, space.
pub open spec fn is_space_byte(b: u8) -> bool {
    b == 9 || b == 10 || b == 11 || b == 12 || b == 13 || b == 32
}

/// `s` with every whitespace byte removed.
pub open spec fn drop_ws(s: Seq<u8>) -> Seq<u8>
    decreases s.len(),
{
    if s.len() == 0 {
        Seq::empty()
    } else if is_space_byte(s[0]) {
        drop_ws(s.skip(1))
    } else {
        seq![s[0]] + drop_ws(s.skip(1))
    }
}

/// Removes every whitespace byte of `s`.
pub fn drop_ws_bytes(s: &Vec<u8>) -> (r: Vec<u8>)
    ensures
        r@ == drop_ws(s@),
{
    let mut r: Vec<u8> = Vec::new();
    let mut i: usize = 0;
    proof {
        assert(s@.skip(0) =~= s@);
    }
    while i < s.len()
        invariant
            i <= s.len(),
            drop_ws(s@) =~= r@ + drop_ws(s@.skip(i as int)),
        decreases s.len() - i,
    {
        proof {
            assert(s@.skip(i as int).skip(1) =~= s@.skip(i + 1));
            assert(s@.skip(i as int)[0] == s@[i as int]);
        }
        let b = s[i];
        if !(b == 9 || b == 10 || b == 11 || b == 12 || b == 13 || b == 32) {
            r.push(b);
            assert(drop_ws(s@) =~= r@ + drop_ws(s@.skip(i + 1)));
        }
        i = i + 1;
    }
    proof {
        assert(s@.skip(s@.len() as int) =~= Seq::<u8>::empty());
        assert(r@ =~= drop_ws(s@));
    }
    r
}

/// The line, ASCII-upper-cased with all whitespace removed, as the
/// password scanner normalizes it.
pub open spec fn normalized_line(line: Seq<u8>) -> Seq<u8> {
    drop_ws(spec_upper_seq(line))
}

/// The libname scanner flags a line whose upper-cased form starts with `LIBNAME`.
pub open spec fn libname_hit(line: Seq<u8>) -> bool {
    match_at(spec_upper_seq(line), kw_libname(), 0)
}

/// The password scanner flags a line whose normalized form contains
/// `PASSWORD=` but not the substitution placeholder `&PASSWORD`.
pub open spec fn password_hit(line: Seq<u8>) -> bool {
    &&& contains_seq(normalized_line(line), kw_password_eq())
    &&& !contains_seq(normalized_line(line), kw_amp_password())
}

/// A decimal digit byte.
pub open spec fn is_digit_byte(b: u8) -> bool {
    48 <= b && b <= 57
}

/// A word byte: an ASCII letter, digit or underscore.
pub open spec fn is_word_byte(b: u8) -> bool {
    is_digit_byte(b) || (65 <= b && b <= 90) || (97 <= b && b <= 122) || b == 95
}

/// An ISO-date-shaped token `dddd-dd-dd` occupies `s[i..i + 10]`, with word
/// boundaries on both sides.
pub open spec fn date_token_at(s: Seq<u8>, i: int) -> bool {
    &&& 0 <= i
    &&& i + 10 <= s.len()
    &&& is_digit_byte(s[i]) && is_digit_byte(s[i + 1]) && is_digit_byte(s[i + 2]) && is_digit_byte(
        s[i + 3],
    )
    &&& s[i + 4] == 45
    &&& is_digit_byte(s[i + 5]) && is_digit_byte(s[i + 6])
    &&& s[i + 7] == 45
    &&& is_digit_byte(s[i + 8]) && is_digit_byte(s[i + 9])
    &&& (i == 0 || !is_word_byte(s[i - 1]))
    &&& (i + 10 == s.len() || !is_word_byte(s[i + 10]))
}

/// The date scanner flags a line holding an ISO-date-shaped token.
pub open spec fn date_hit(line: Seq<u8>) -> bool {
    exists|i: int| date_token_at(line, i)
}

/// Checks for an ISO-date-shaped token at index `i`.
fn check_date_at(line: &Vec<u8>, i: usize) -> (r: bool)
    requires
        i + 10 <= line.len(),
    ensures
        r == date_token_at(line@, i as int),
{
    let digits = (48 <= line[i] && line[i] <= 57) && (48 <= line[i + 1] && line[i + 1] <= 57) && (48
        <= line[i + 2] && line[i + 2] <= 57) && (48 <= line[i + 3] && line[i + 3] <= 57) && line[i
        + 4] == 45 && (48 <= line[i + 5] && line[i + 5] <= 57) && (48 <= line[i + 6] && line[i + 6]
        <= 57) && line[i + 7] == 45 && (48 <= line[i + 8] && line[i + 8] <= 57) && (48 <= line[i
        + 9] && line[i + 9] <= 57);
    if !digits {
        return false;
    }
    if i > 0 {
        let b = line[i - 1];
        if (48 <= b && b <= 57) || (65 <= b && b <= 90) || (97 <= b && b <= 122) || b == 95 {
            return false;
        }
    }
    if i + 10 < line.len() {
        let b = line[i + 10];
        if (48 <= b && b <= 57) || (65 <= b && b <= 90) || (97 <= b && b <= 122) || b == 95 {
            return false;
        }
    }
    true
}

/// Whether the line holds an ISO-date-shaped token.
pub fn has_date_token(line: &Vec<u8>) -> (r: bool)
    ensures
        r == date_hit(line@),
{
    if line.len() < 10 {
        assert forall|k: int| !date_token_at(line@, k) by {}
        return false;
    }
    let last = line.len() - 10;
    let mut i: usize = 0;
    while i <= last
        invariant
            line.len() >= 10,
            last == line.len() - 10,
            i <= last + 1,
            forall|k: int| 0 <= k < i ==> !date_token_at(line@, k),
        decreases line.len() - i,
    {
        if check_date_at(line, i) {
            return true;
        }
        i = i + 1;
    }
    assert forall|k: int| !date_token_at(line@, k) by {
        if 0 <= k < i {
        } else {
        }
    }
    false
}

/// The file-name reference scanner flags a line containing any known name.
pub open spec fn fname_hit(line: Seq<u8>, names: Seq<Seq<u8>>) -> bool {
    exists|j: int| 0 <= j < names.len() && contains_seq(line, names[j])
}

/// Whether the line contains one of the known names as a substring.
fn check_fname_hit(line: &Vec<u8>, names: &Vec<Vec<u8>>) -> (r: bool)
    ensures
        r == fname_hit(line@, names.deep_view()),
{
    let ghost nv = names.deep_view();
    let mut j: usize = 0;
    while j < names.len()
        invariant
            j <= names.len(),
            nv == names.deep_view(),
            forall|k: int| 0 <= k < j ==> !contains_seq(line@, nv[k]),
        decreases names.len() - j,
    {
        proof {
            assert(nv[j as int] =~= names@[j as int]@);
        }
        let name = &names[j];
        if name.len() == 0 {
            proof {
                assert(line@.subrange(0, 0) =~= name@);
                assert(match_at(line@, nv[j as int], 0));
            }
            return true;
        }
        if contains_bytes(line, name) {
            return true;
        }
        j = j + 1;
    }
    false
}

/// The findings of the libname scanner for `lines[i..]`.
pub open spec fn libname_findings_from(id: Seq<u8>, lines: Seq<Seq<u8>>, i: int) -> Seq<
    FindingView,
>
    decreases lines.len() - i,
{
    if i < 0 || i >= lines.len() {
        Seq::empty()
    } else {
        let rest = libname_findings_from(id, lines, i + 1);
        if libname_hit(lines[i]) {
            seq![fv(id, ScannerKind::GetLibname, pos_payload((i + 1) as nat, lines[i]))] + rest
        } else {
            rest
        }
    }
}

/// The findings of the libname scanner: one per line starting with `LIBNAME`.
pub open spec fn libname_findings(id: Seq<u8>, content: Seq<u8>) -> Seq<FindingView> {
    libname_findings_from(id, lines_of(content), 0)
}

/// Reports each line whose upper-cased form starts with `LIBNAME`,
/// with its 1-based line number and original text.
pub fn get_libname(file_id: &Vec<u8>, content: &Vec<u8>) -> (r: Vec<Finding>)
    ensures
        finding_views(r@) == libname_findings(file_id@, content@),
{
    let lines = split_lines(content);
    let ghost lv = lines.deep_view();
    let kw = kw_libname_bytes();
    let mut r: Vec<Finding> = Vec::new();
    let mut i: usize = 0;
    while i < lines.len()
        invariant
            i <= lines.len(),
            lv == lines.deep_view(),
            kw@ == kw_libname(),
            libname_findings_from(file_id@, lv, 0) =~= finding_views(r@)
                + libname_findings_from(file_id@, lv, i as int),
        decreases lines.len() - i,
    {
        proof {
            assert(lv[i as int] =~= lines@[i as int]@);
        }
        let line = &lines[i];
        let upper = upper_bytes(line);
        if starts_with_bytes(&upper, &kw) {
            let payload = make_pos_payload(i + 1, line);
            let f = mk_finding(file_id, ScannerKind::GetLibname, payload);
            r.push(f);
            proof {
                assert(finding_views(r@) =~= finding_views(r@.drop_last()).push(f@));
            }
        }
        i = i + 1;
    }
    proof {
        assert(finding_views(r@) =~= libname_findings(file_id@, content@));
    }
    r
}

/// The findings of the password scanner for `lines[i..]`.
pub open spec fn password_findings_from(id: Seq<u8>, lines: Seq<Seq<u8>>, i: int) -> Seq<
    FindingView,
>
    decreases lines.len() - i,
{
    if i < 0 || i >= lines.len() {
        Seq::empty()
    } else {
        let rest = password_findings_from(id, lines, i + 1);
        if password_hit(lines[i]) {
            seq![
                fv(
                    id,
                    ScannerKind::GetPassword,
                    pos_payload((i + 1) as nat, normalized_line(lines[i])),
                ),
            ] + rest
        } else {
            rest
        }
    }
}

/// The findings of the password scanner: one per line whose normalized form
/// holds a literal `PASSWORD=` and no `&PASSWORD` placeholder.
pub open spec fn password_findings(id: Seq<u8>, content: Seq<u8>) -> Seq<FindingView> {
    password_findings_from(id, lines_of(content), 0)
}

/// Reports each line holding a literal password assignment, with its 1-based
/// line number and the normalized line text.
pub fn get_password(file_id: &Vec<u8>, content: &Vec<u8>) -> (r: Vec<Finding>)
    ensures
        finding_views(r@) == password_findings(file_id@, content@),
{
    let lines = split_lines(content);
    let ghost lv = lines.deep_view();
    let kw_pw = kw_password_eq_bytes();
    let kw_amp = kw_amp_password_bytes();
    let mut r: Vec<Finding> = Vec::new();
    let mut i: usize = 0;
    while i < lines.len()
        invariant
            i <= lines.len(),
            lv == lines.deep_view(),
            kw_pw@ == kw_password_eq(),
            kw_amp@ == kw_amp_password(),
            password_findings_from(file_id@, lv, 0) =~= finding_views(r@)
                + password_findings_from(file_id@, lv, i as int),
        decreases lines.len() - i,
    {
        proof {
            assert(lv[i as int] =~= lines@[i as int]@);
        }
        let line = &lines[i];
        let upper = upper_bytes(line);
        let norm = drop_ws_bytes(&upper);
        if contains_bytes(&norm, &kw_pw) && !contains_bytes(&norm, &kw_amp) {
            let payload = make_pos_payload(i + 1, &norm);
            let f = mk_finding(file_id, ScannerKind::GetPassword, payload);
            r.push(f);
            proof {
                assert(finding_views(r@) =~= finding_views(r@.drop_last()).push(f@));
            }
        }
        i = i + 1;
    }
    proof {
        assert(finding_views(r@) =~= password_findings(file_id@, content@));
    }
    r
}

/// The findings of the date scanner for `lines[i..]`.
pub open spec fn date_findings_from(id: Seq<u8>, lines: Seq<Seq<u8>>, i: int) -> Seq<FindingView>
    decreases lines.len() - i,
{
    if i < 0 || i >= lines.len() {
        Seq::empty()
    } else {
        let rest = date_findings_from(id, lines, i + 1);
        if date_hit(lines[i]) {
            seq![fv(id, ScannerKind::FindDate, pos_payload((i + 1) as nat, lines[i]))] + rest
        } else {
            rest
        }
    }
}

/// The findings of the date scanner: one per line holding an
/// ISO-date-shaped token.
pub open spec fn date_findings(id: Seq<u8>, content: Seq<u8>) -> Seq<FindingView> {
    date_findings_from(id, lines_of(content), 0)
}

/// Reports each line holding an ISO-date-shaped token, with its 1-based line
/// number and original text.
pub fn find_date(file_id: &Vec<u8>, content: &Vec<u8>) -> (r: Vec<Finding>)
    ensures
        finding_views(r@) == date_findings(file_id@, content@),
{
    let lines = split_lines(content);
    let ghost lv = lines.deep_view();
    let mut r: Vec<Finding> = Vec::new();
    let mut i: usize = 0;
    while i < lines.len()
        invariant
            i <= lines.len(),
            lv == lines.deep_view(),
            date_findings_from(file_id@, lv, 0) =~= finding_views(r@) + date_findings_from(
                file_id@,
                lv,
                i as int,
            ),
        decreases lines.len() - i,
    {
        proof {
            assert(lv[i as int] =~= lines@[i as int]@);
        }
        let line = &lines[i];
        if has_date_token(line) {
            let payload = make_pos_payload(i + 1, line);
            let f = mk_finding(file_id, ScannerKind::FindDate, payload);
            r.push(f);
            proof {
                assert(finding_views(r@) =~= finding_views(r@.drop_last()).push(f@));
            }
        }
        i = i + 1;
    }
    proof {
        assert(finding_views(r@) =~= date_findings(file_id@, content@));
    }
    r
}

/// The findings of the file-name reference scanner for `lines[i..]`.
pub open spec fn fname_findings_from(
    id: Seq<u8>,
    lines: Seq<Seq<u8>>,
    names: Seq<Seq<u8>>,
    i: int,
) -> Seq<FindingView>
    decreases lines.len() - i,
{
    if i < 0 || i >= lines.len() {
        Seq::empty()
    } else {
        let rest = fname_findings_from(id, lines, names, i + 1);
        if fname_hit(lines[i], names) {
            seq![fv(id, ScannerKind::FindFileName, ref_payload((i + 1) as nat, lines[i]))] + rest
        } else {
            rest
        }
    }
}

/// The findings of the file-name reference scanner: one per line containing
/// any of the known names, however many of them match.
pub open spec fn fname_findings(id: Seq<u8>, content: Seq<u8>, names: Seq<Seq<u8>>) -> Seq<
    FindingView,
> {
    fname_findings_from(id, lines_of(content), names, 0)
}

/// Reports each line containing one of the known file names, with its
/// 1-based line number and original text; a line is reported once even when
/// several names match.
pub fn find_file_name(file_id: &Vec<u8>, content: &Vec<u8>, file_list: &Vec<Vec<u8>>) -> (r: Vec<
    Finding,
>)
    ensures
        finding_views(r@) == fname_findings(file_id@, content@, file_list.deep_view()),
{
    let lines = split_lines(content);
    let ghost lv = lines.deep_view();
    let ghost nv = file_list.deep_view();
    let mut r: Vec<Finding> = Vec::new();
    let mut i: usize = 0;
    while i < lines.len()
        invariant
            i <= lines.len(),
            lv == lines.deep_view(),
            nv == file_list.deep_view(),
            fname_findings_from(file_id@, lv, nv, 0) =~= finding_views(r@) + fname_findings_from(
                file_id@,
                lv,
                nv,
                i as int,
            ),
        decreases lines.len() - i,
    {
        proof {
            assert(lv[i as int] =~= lines@[i as int]@);
        }
        let line = &lines[i];
        if check_fname_hit(line, file_list) {
            let payload = make_ref_payload(i + 1, line);
            let f = mk_finding(file_id, ScannerKind::FindFileName, payload);
            r.push(f);
            proof {
                assert(finding_views(r@) =~= finding_views(r@.drop_last()).push(f@));
            }
        }
        i = i + 1;
    }
    proof {
        assert(finding_views(r@) =~= fname_findings(file_id@, content@, nv));
    }
    r
}

/// Counts `_NULL_` tokens, case-folded, and reports the count as one finding.
pub fn null_count(file_id: &Vec<u8>, content: &Vec<u8>) -> (r: Vec<Finding>)
    ensures
        finding_views(r@) == null_count_findings(file_id@, content@),
{
    let upper = upper_bytes(content);
    let pat = kw_null_bytes();
    let n = count_tokens(&upper, &pat);
    let payload = dec_bytes(n as u64);
    let f = mk_finding(file_id, ScannerKind::NullCount, payload);
    let mut r: Vec<Finding> = Vec::new();
    r.push(f);
    proof {
        assert(finding_views(r@) =~= null_count_findings(file_id@, content@));
    }
    r
}

} // verus!
