//! The two SQL scanners.
//!
//! `sql_count` counts blocks with a lazy full-text scan: each block is the
//! shortest span from a `PROC` + whitespace + `SQL` occurrence to the next
//! `QUIT;`, on the case-folded content. `get_sql` extracts blocks with a
//! line-by-line state machine whose block opener is the literal `PROC SQL`.
//! The two deliberately diverge on malformed input (an unterminated or
//! oddly spaced block); neither is corrected against the other.

use vstd::prelude::*;

use crate::finding::{
    count_payload, finding_views, make_pos_payload, pos_payload, Finding, FindingView, ScannerKind,
};
use crate::scanners::{fv, is_space_byte, kw_proc_sql, kw_quit, kw_quit_bytes, mk_finding};
use crate::text::{
    check_match_at, contains_bytes, contains_seq, copy_range, dec_bytes, find_from, join_lines,
    join_lines_bytes, lines_of, match_at, spec_upper_seq, split_lines, upper_bytes,
};

verus! {

/// The `PROC` keyword.
pub open spec fn kw_proc() -> Seq<u8> {
    seq![80u8, 82, 79, 67]
}

/// The `SQL` keyword.
pub open spec fn kw_sql_word() -> Seq<u8> {
    seq![83u8, 81, 76]
}

fn kw_proc_bytes() -> (r: Vec<u8>)
    ensures
        r@ == kw_proc(),
{
    let r: Vec<u8> = vec![80u8, 82, 79, 67];
    proof {
        assert(r@ =~= kw_proc());
    }
    r
}

fn kw_sql_word_bytes() -> (r: Vec<u8>)
    ensures
        r@ == kw_sql_word(),
{
    let r: Vec<u8> = vec![83u8, 81, 76];
    proof {
        assert(r@ =~= kw_sql_word());
    }
    r
}

/// The first index at or after `from` holding a non-whitespace byte,
/// or `s.len()` if whitespace runs to the end.
pub open spec fn ws_end(s: Seq<u8>, from: int) -> int
    decreases s.len() - from,
{
    if from < 0 || from >= s.len() {
        s.len() as int
    } else if is_space_byte(s[from]) {
        ws_end(s, from + 1)
    } else {
        from
    }
}

/// `ws_end` really bounds the whitespace run that starts at `from`.
pub proof fn lemma_ws_end(s: Seq<u8>, from: int)
    requires
        0 <= from <= s.len(),
    ensures
        from <= ws_end(s, from) <= s.len(),
        ws_end(s, from) < s.len() ==> !is_space_byte(s[ws_end(s, from)]),
        forall|k: int| from <= k < ws_end(s, from) ==> is_space_byte(s[k]),
    decreases s.len() - from,
{
    if from < s.len() && is_space_byte(s[from]) {
        lemma_ws_end(s, from + 1);
    }
}

/// Where a block opener `PROC` + whitespace + `SQL` starting exactly at `i`
/// ends (exclusive), if one starts there. The `SQL` must sit at the end of
/// the whitespace run, which is where any such match must place it.
pub open spec fn proc_sql_end(s: Seq<u8>, i: int) -> Option<int> {
    if match_at(s, kw_proc(), i) {
        let w = ws_end(s, i + 4);
        if i + 4 < w && match_at(s, kw_sql_word(), w) {
            Some(w + 3)
        } else {
            None
        }
    } else {
        None
    }
}

/// The first index at or after `from` where `pat` occurs, if any.
pub open spec fn first_match(s: Seq<u8>, pat: Seq<u8>, from: int) -> Option<int>
    decreases s.len() - from,
{
    if from < 0 || pat.len() == 0 || from + pat.len() > s.len() {
        None
    } else if match_at(s, pat, from) {
        Some(from)
    } else {
        first_match(s, pat, from + 1)
    }
}

/// `first_match` really is the first occurrence at or after `from`.
pub proof fn lemma_first_match(s: Seq<u8>, pat: Seq<u8>, from: int)
    requires
        0 <= from,
        1 <= pat.len(),
    ensures
        match first_match(s, pat, from) {
            Some(k) => {
                &&& from <= k
                &&& match_at(s, pat, k)
                &&& forall|j: int| from <= j < k ==> !match_at(s, pat, j)
            },
            None => forall|j: int| from <= j ==> !match_at(s, pat, j),
        },
    decreases s.len() - from,
{
    if from + pat.len() > s.len() {
    } else if match_at(s, pat, from) {
    } else {
        lemma_first_match(s, pat, from + 1);
    }
}

/// Where the lazily matched block starting exactly at `i` ends (exclusive):
/// the end of the first `QUIT;` after the opener, if both are present.
pub open spec fn sql_block_end(s: Seq<u8>, i: int) -> Option<int> {
    match proc_sql_end(s, i) {
        Some(e) => match first_match(s, kw_quit(), e) {
            Some(k) => Some(k + 5),
            None => None,
        },
        None => None,
    }
}

/// A block's end lies strictly beyond its start and within the text.
pub proof fn lemma_sql_block_end(s: Seq<u8>, i: int)
    requires
        0 <= i < s.len(),
    ensures
        match sql_block_end(s, i) {
            Some(e) => i < e <= s.len(),
            None => true,
        },
{
    if match_at(s, kw_proc(), i) {
        lemma_ws_end(s, i + 4);
        let w = ws_end(s, i + 4);
        if i + 4 < w && match_at(s, kw_sql_word(), w) {
            lemma_first_match(s, kw_quit(), w + 3);
        }
    }
}

/// Non-overlapping lazily matched blocks at or after `pos`, scanning left to
/// right and resuming after each block.
pub open spec fn sql_count_from(s: Seq<u8>, pos: int) -> nat
    decreases s.len() - pos,
    via sql_count_from_decreases
{
    if pos < 0 || pos >= s.len() {
        0
    } else {
        match sql_block_end(s, pos) {
            Some(e) => 1 + sql_count_from(s, e),
            None => sql_count_from(s, pos + 1),
        }
    }
}

#[via_fn]
proof fn sql_count_from_decreases(s: Seq<u8>, pos: int) {
    if 0 <= pos < s.len() {
        lemma_sql_block_end(s, pos);
    }
}

/// The number the SQL-count scanner reports: blocks of the case-folded
/// content, each the shortest span from a `PROC` + whitespace + `SQL`
/// opener to the next `QUIT;`.
pub open spec fn spec_sql_count(content: Seq<u8>) -> nat {
    sql_count_from(spec_upper_seq(content), 0)
}

proof fn lemma_sql_count_no_closer_from(s: Seq<u8>, pos: int)
    requires
        !contains_seq(s, kw_quit()),
    ensures
        sql_count_from(s, pos) == 0,
    decreases s.len() - pos,
{
    if pos < 0 || pos >= s.len() {
    } else {
        match sql_block_end(s, pos) {
            Some(e) => {
                let w = ws_end(s, pos + 4);
                lemma_ws_end(s, pos + 4);
                lemma_first_match(s, kw_quit(), w + 3);
                let k = first_match(s, kw_quit(), w + 3).unwrap();
                assert(match_at(s, kw_quit(), k) && 0 <= k);
                assert(contains_seq(s, kw_quit()));
            },
            None => {
                lemma_sql_count_no_closer_from(s, pos + 1);
            },
        }
    }
}

/// An opener with no closer anywhere counts for nothing: content whose
/// case-folded form holds no `QUIT;` has a block count of zero, however
/// many `PROC SQL` openers it holds.
pub proof fn lemma_sql_count_without_closer(content: Seq<u8>)
    requires
        !contains_seq(spec_upper_seq(content), kw_quit()),
    ensures
        spec_sql_count(content) == 0,
{
    lemma_sql_count_no_closer_from(spec_upper_seq(content), 0);
}

/// The single finding of the SQL-count scanner.
pub open spec fn sql_count_findings(id: Seq<u8>, content: Seq<u8>) -> Seq<FindingView> {
    seq![fv(id, ScannerKind::SqlCount, count_payload(spec_sql_count(content)))]
}

/// Whether `b` is an ASCII whitespace byte.
fn is_space_exec(b: u8) -> (r: bool)
    ensures
        r == is_space_byte(b),
{
    b == 9 || b == 10 || b == 11 || b == 12 || b == 13 || b == 32
}

/// Computes `proc_sql_end` at `i`.
fn proc_sql_end_exec(s: &Vec<u8>, i: usize, proc_kw: &Vec<u8>, sql_kw: &Vec<u8>) -> (r: Option<
    usize,
>)
    requires
        i < s.len(),
        proc_kw@ == kw_proc(),
        sql_kw@ == kw_sql_word(),
    ensures
        match r {
            Some(e) => proc_sql_end(s@, i as int) == Some(e as int),
            None => proc_sql_end(s@, i as int) is None,
        },
{
    if s.len() - i < 4 || !check_match_at(s, proc_kw, i) {
        return None;
    }
    let mut w: usize = i + 4;
    while w < s.len() && is_space_exec(s[w])
        invariant
            i + 4 <= w <= s.len(),
            forall|k: int| i + 4 <= k < w ==> is_space_byte(s@[k]),
        decreases s.len() - w,
    {
        w = w + 1;
    }
    proof {
        lemma_ws_end(s@, i + 4);
        let we = ws_end(s@, i + 4);
        if we < w {
            assert(is_space_byte(s@[we]));
        }
        if w < we {
            assert(is_space_byte(s@[w as int]));
        }
        assert(w == we);
    }
    if w == i + 4 {
        return None;
    }
    if s.len() - w < 3 {
        return None;
    }
    if check_match_at(s, sql_kw, w) {
        Some(w + 3)
    } else {
        None
    }
}

/// Computes `sql_block_end` at `i`.
fn sql_block_end_exec(
    s: &Vec<u8>,
    i: usize,
    proc_kw: &Vec<u8>,
    sql_kw: &Vec<u8>,
    quit_kw: &Vec<u8>,
) -> (r: Option<usize>)
    requires
        i < s.len(),
        proc_kw@ == kw_proc(),
        sql_kw@ == kw_sql_word(),
        quit_kw@ == kw_quit(),
    ensures
        match r {
            Some(e) => sql_block_end(s@, i as int) == Some(e as int),
            None => sql_block_end(s@, i as int) is None,
        },
{
    let e0 = match proc_sql_end_exec(s, i, proc_kw, sql_kw) {
        Some(e0) => e0,
        None => {
            return None;
        },
    };
    match find_from(s, quit_kw, e0) {
        Some(k) => {
            proof {
                lemma_first_match(s@, kw_quit(), e0 as int);
                match first_match(s@, kw_quit(), e0 as int) {
                    Some(k2) => {
                        if k2 < k as int {
                            assert(!match_at(s@, kw_quit(), k2));
                        }
                        if (k as int) < k2 {
                            assert(!match_at(s@, kw_quit(), k as int));
                        }
                        assert(k2 == k as int);
                    },
                    None => {
                        assert(!match_at(s@, kw_quit(), k as int));
                    },
                }
            }
            Some(k + 5)
        },
        None => {
            proof {
                lemma_first_match(s@, kw_quit(), e0 as int);
                if let Some(k2) = first_match(s@, kw_quit(), e0 as int) {
                    assert(match_at(s@, kw_quit(), k2));
                }
            }
            None
        },
    }
}

/// Counts SQL blocks of the case-folded content, lazily matched, and
/// reports the count as one finding.
pub fn sql_count(file_id: &Vec<u8>, content: &Vec<u8>) -> (r: Vec<Finding>)
    ensures
        finding_views(r@) == sql_count_findings(file_id@, content@),
{
    let upper = upper_bytes(content);
    let proc_kw = kw_proc_bytes();
    let sql_kw = kw_sql_word_bytes();
    let quit_kw = kw_quit_bytes();
    let mut pos: usize = 0;
    let mut n: usize = 0;
    while pos < upper.len()
        invariant
            pos <= upper.len(),
            n <= pos,
            upper@ == spec_upper_seq(content@),
            proc_kw@ == kw_proc(),
            sql_kw@ == kw_sql_word(),
            quit_kw@ == kw_quit(),
            sql_count_from(upper@, 0) == n + sql_count_from(upper@, pos as int),
        decreases upper.len() - pos,
    {
        proof {
            lemma_sql_block_end(upper@, pos as int);
        }
        match sql_block_end_exec(&upper, pos, &proc_kw, &sql_kw, &quit_kw) {
            Some(e) => {
                n = n + 1;
                pos = e;
            },
            None => {
                pos = pos + 1;
            },
        }
    }
    let payload = dec_bytes(n as u64);
    let f = mk_finding(file_id, ScannerKind::SqlCount, payload);
    let mut r: Vec<Finding> = Vec::new();
    r.push(f);
    proof {
        assert(finding_views(r@) =~= sql_count_findings(file_id@, content@));
    }
    r
}

/// The extractor's state while walking a file's lines: outside any block,
/// or inside one, holding the 1-based line number where it opened and the
/// lines accumulated so far.
pub enum SqlState {
    Outside,
    Inside { start_line: usize, buf: Vec<Vec<u8>> },
}

/// Mathematical image of `SqlState`.
pub enum SqlStateV {
    Outside,
    Inside { start_line: nat, buf: Seq<Seq<u8>> },
}

impl View for SqlState {
    type V = SqlStateV;

    open spec fn view(&self) -> SqlStateV {
        match self {
            SqlState::Outside => SqlStateV::Outside,
            SqlState::Inside { start_line, buf } => SqlStateV::Inside {
                start_line: *start_line as nat,
                buf: buf.deep_view(),
            },
        }
    }
}

/// One extracted block: where it opened and its lines, joined verbatim.
pub struct SqlBlock {
    pub start_line: usize,
    pub text: Vec<u8>,
}

/// Mathematical image of `SqlBlock`.
pub struct SqlBlockV {
    pub start_line: nat,
    pub text: Seq<u8>,
}

impl View for SqlBlock {
    type V = SqlBlockV;

    open spec fn view(&self) -> SqlBlockV {
        SqlBlockV { start_line: self.start_line as nat, text: self.text@ }
    }
}

/// One step of the extractor on one line. Outside a block, a line whose
/// case-folded form contains `PROC SQL` opens a block at that line; inside,
/// every line is buffered verbatim, and a line whose case-folded form
/// contains `QUIT;` closes the block and emits it. A line that opens a
/// block and also holds `QUIT;` emits a one-line block; blocks never nest.
pub open spec fn sql_step(st: SqlStateV, line: Seq<u8>, line_no: nat) -> (SqlStateV, Option<
    SqlBlockV,
>) {
    let up = spec_upper_seq(line);
    match st {
        SqlStateV::Outside => {
            if contains_seq(up, kw_proc_sql()) {
                if contains_seq(up, kw_quit()) {
                    (
                        SqlStateV::Outside,
                        Some(SqlBlockV { start_line: line_no, text: join_lines(seq![line]) }),
                    )
                } else {
                    (SqlStateV::Inside { start_line: line_no, buf: seq![line] }, None)
                }
            } else {
                (SqlStateV::Outside, None)
            }
        },
        SqlStateV::Inside { start_line, buf } => {
            let buf2 = buf.push(line);
            if contains_seq(up, kw_quit()) {
                (SqlStateV::Outside, Some(SqlBlockV { start_line, text: join_lines(buf2) }))
            } else {
                (SqlStateV::Inside { start_line, buf: buf2 }, None)
            }
        },
    }
}

/// Runs one extractor step on one line.
pub fn sql_step_exec(st: SqlState, line: &Vec<u8>, line_no: usize) -> (r: (SqlState, Option<
    SqlBlock,
>))
    ensures
        ({
            let (stv, outv) = sql_step(st@, line@, line_no as nat);
            &&& r.0@ == stv
            &&& match (r.1, outv) {
                (Some(b), Some(bv)) => b@ == bv,
                (None, None) => true,
                _ => false,
            }
        }),
{
    let opener = crate::scanners::kw_proc_sql_bytes();
    let closer = kw_quit_bytes();
    let up = upper_bytes(line);
    match st {
        SqlState::Outside => {
            if contains_bytes(&up, &opener) {
                let own_line = copy_range(line, 0, line.len());
                proof {
                    assert(own_line@ =~= line@);
                }
                let mut buf: Vec<Vec<u8>> = Vec::new();
                buf.push(own_line);
                proof {
                    assert(buf.deep_view() =~~= seq![line@]);
                }
                if contains_bytes(&up, &closer) {
                    let text = join_lines_bytes(&buf);
                    (SqlState::Outside, Some(SqlBlock { start_line: line_no, text }))
                } else {
                    (SqlState::Inside { start_line: line_no, buf }, None)
                }
            } else {
                (SqlState::Outside, None)
            }
        },
        SqlState::Inside { start_line, buf } => {
            let mut buf = buf;
            let ghost old_buf = buf.deep_view();
            let own_line = copy_range(line, 0, line.len());
            proof {
                assert(own_line@ =~= line@);
            }
            buf.push(own_line);
            proof {
                assert(buf.deep_view() =~~= old_buf.push(line@));
            }
            if contains_bytes(&up, &closer) {
                let text = join_lines_bytes(&buf);
                (SqlState::Outside, Some(SqlBlock { start_line, text }))
            } else {
                (SqlState::Inside { start_line, buf }, None)
            }
        },
    }
}

/// The blocks the extractor emits from `lines[i..]`, entered in state `st`
/// with `i` lines already consumed. A block still open at end of input is
/// dropped: an unterminated trailing block emits nothing.
pub open spec fn sql_blocks_from(lines: Seq<Seq<u8>>, i: int, st: SqlStateV) -> Seq<SqlBlockV>
    decreases lines.len() - i,
{
    if i < 0 || i >= lines.len() {
        Seq::empty()
    } else {
        let (st2, out) = sql_step(st, lines[i], (i + 1) as nat);
        let rest = sql_blocks_from(lines, i + 1, st2);
        match out {
            Some(b) => seq![b] + rest,
            None => rest,
        }
    }
}

/// The blocks the extractor emits for the whole file.
pub open spec fn sql_blocks(content: Seq<u8>) -> Seq<SqlBlockV> {
    sql_blocks_from(lines_of(content), 0, SqlStateV::Outside)
}

/// The findings carrying the given blocks: payload `(start_line, text)`.
pub open spec fn block_findings(id: Seq<u8>, bs: Seq<SqlBlockV>) -> Seq<FindingView> {
    bs.map_values(|b: SqlBlockV| fv(id, ScannerKind::GetSql, pos_payload(b.start_line, b.text)))
}

/// The findings of the SQL block extractor.
pub open spec fn get_sql_findings(id: Seq<u8>, content: Seq<u8>) -> Seq<FindingView> {
    block_findings(id, sql_blocks(content))
}

/// Extracts every terminated SQL block, walking the lines in order with the
/// two-state extractor, and reports one finding per block with its 1-based
/// opening line number and verbatim text.
pub fn get_sql(file_id: &Vec<u8>, content: &Vec<u8>) -> (r: Vec<Finding>)
    ensures
        finding_views(r@) == get_sql_findings(file_id@, content@),
{
    let lines = split_lines(content);
    let ghost lv = lines.deep_view();
    let mut st = SqlState::Outside;
    let mut r: Vec<Finding> = Vec::new();
    let mut i: usize = 0;
    while i < lines.len()
        invariant
            i <= lines.len(),
            lv == lines.deep_view(),
            block_findings(file_id@, sql_blocks_from(lv, 0, SqlStateV::Outside)) =~= finding_views(
                r@,
            ) + block_findings(file_id@, sql_blocks_from(lv, i as int, st@)),
        decreases lines.len() - i,
    {
        proof {
            assert(lv[i as int] =~= lines@[i as int]@);
        }
        let ghost st_before = st@;
        let line = &lines[i];
        let (st2, out) = sql_step_exec(st, line, i + 1);
        st = st2;
        match out {
            Some(b) => {
                let payload = make_pos_payload(b.start_line, &b.text);
                let f = mk_finding(file_id, ScannerKind::GetSql, payload);
                r.push(f);
                proof {
                    let (stv, outv) = sql_step(st_before, lv[i as int], (i + 1) as nat);
                    assert(sql_blocks_from(lv, i as int, st_before) == seq![outv.unwrap()]
                        + sql_blocks_from(lv, i + 1, stv));
                    assert(finding_views(r@) =~= finding_views(r@.drop_last()).push(f@));
                    assert(block_findings(file_id@, seq![outv.unwrap()] + sql_blocks_from(lv, i + 1, stv))
                        =~= seq![f@] + block_findings(file_id@, sql_blocks_from(lv, i + 1, stv)));
                }
            },
            None => {
                proof {
                    let (stv, outv) = sql_step(st_before, lv[i as int], (i + 1) as nat);
                    assert(sql_blocks_from(lv, i as int, st_before) == sql_blocks_from(
                        lv,
                        i + 1,
                        stv,
                    ));
                }
            },
        }
        i = i + 1;
    }
    proof {
        assert(sql_blocks_from(lv, lines@.len() as int, st@) =~= Seq::<SqlBlockV>::empty());
        assert(block_findings(file_id@, Seq::<SqlBlockV>::empty()) =~= Seq::<FindingView>::empty());
        assert(finding_views(r@) =~= block_findings(file_id@, sql_blocks_from(lv, 0, SqlStateV::Outside)));
    }
    r
}

} // verus!
