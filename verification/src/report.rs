//! The delimited report format. Fields holding a comma, quote or line break
//! are quoted with embedded quotes doubled, records are comma-joined and
//! newline-terminated, and the matching parser recovers every field
//! byte-for-byte: the round trip is proved below.

use vstd::prelude::*;

use crate::finding::{finding_views, scanner_name, spec_scanner_name, Finding, FindingView,
    ScannerKind};
use crate::record::{record_wf, timestamp_text, FileRecord};
use crate::text::{copy_range, dec_bytes, dec_of, eq_bytes, push_all};

verus! {

/// A byte that forces a field into quotes: comma, quote, newline, carriage
/// return.
pub open spec fn is_special_byte(b: u8) -> bool {
    b == 44 || b == 34 || b == 10 || b == 13
}

/// Whether the field must be written quoted.
pub open spec fn field_needs_quote(f: Seq<u8>) -> bool {
    exists|i: int| 0 <= i < f.len() && is_special_byte(f[i])
}

/// The field's bytes with every quote doubled.
pub open spec fn escape_quotes(f: Seq<u8>) -> Seq<u8>
    decreases f.len(),
{
    if f.len() == 0 {
        Seq::empty()
    } else if f[0] == 34 {
        seq![34u8, 34u8] + escape_quotes(f.skip(1))
    } else {
        seq![f[0]] + escape_quotes(f.skip(1))
    }
}

/// One encoded field: quoted and escaped when it holds a special byte,
/// verbatim otherwise.
pub open spec fn enc_field(f: Seq<u8>) -> Seq<u8> {
    if field_needs_quote(f) {
        seq![34u8] + escape_quotes(f) + seq![34u8]
    } else {
        f
    }
}

/// One encoded record: its fields, comma-joined.
pub open spec fn enc_record(fields: Seq<Seq<u8>>) -> Seq<u8>
    decreases fields.len(),
{
    if fields.len() == 0 {
        Seq::empty()
    } else if fields.len() == 1 {
        enc_field(fields[0])
    } else {
        enc_field(fields[0]) + seq![44u8] + enc_record(fields.skip(1))
    }
}

/// An encoded table: each record followed by a newline.
pub open spec fn enc_table(rows: Seq<Seq<Seq<u8>>>) -> Seq<u8>
    decreases rows.len(),
{
    if rows.len() == 0 {
        Seq::empty()
    } else {
        enc_record(rows[0]) + seq![10u8] + enc_table(rows.skip(1))
    }
}

/// Whether the field must be written quoted.
fn needs_quote_exec(f: &Vec<u8>) -> (r: bool)
    ensures
        r == field_needs_quote(f@),
{
    let mut i: usize = 0;
    while i < f.len()
        invariant
            i <= f.len(),
            forall|k: int| 0 <= k < i ==> !is_special_byte(f@[k]),
        decreases f.len() - i,
    {
        let b = f[i];
        if b == 44 || b == 34 || b == 10 || b == 13 {
            return true;
        }
        i = i + 1;
    }
    false
}

/// The field's bytes with every quote doubled.
fn escape_bytes(f: &Vec<u8>) -> (r: Vec<u8>)
    ensures
        r@ == escape_quotes(f@),
{
    let mut r: Vec<u8> = Vec::new();
    let mut i: usize = 0;
    proof {
        assert(f@.skip(0) =~= f@);
    }
    while i < f.len()
        invariant
            i <= f.len(),
            escape_quotes(f@) =~= r@ + escape_quotes(f@.skip(i as int)),
        decreases f.len() - i,
    {
        proof {
            assert(f@.skip(i as int).skip(1) =~= f@.skip(i + 1));
            assert(f@.skip(i as int)[0] == f@[i as int]);
        }
        let b = f[i];
        if b == 34 {
            r.push(34);
            r.push(34);
        } else {
            r.push(b);
        }
        proof {
            assert(escape_quotes(f@) =~= r@ + escape_quotes(f@.skip(i + 1)));
        }
        i = i + 1;
    }
    proof {
        assert(f@.skip(f@.len() as int) =~= Seq::<u8>::empty());
        assert(r@ =~= escape_quotes(f@));
    }
    r
}

/// Encodes one field.
pub fn enc_field_bytes(f: &Vec<u8>) -> (r: Vec<u8>)
    ensures
        r@ == enc_field(f@),
{
    if needs_quote_exec(f) {
        let mut r: Vec<u8> = Vec::new();
        r.push(34);
        let esc = escape_bytes(f);
        push_all(&mut r, &esc);
        r.push(34);
        proof {
            assert(r@ =~= enc_field(f@));
        }
        r
    } else {
        let r = copy_range(f, 0, f.len());
        proof {
            assert(r@ =~= f@);
        }
        r
    }
}

/// Encodes one record: comma-joined fields.
pub fn enc_record_bytes(fields: &Vec<Vec<u8>>) -> (r: Vec<u8>)
    ensures
        r@ == enc_record(fields.deep_view()),
{
    let ghost fv = fields.deep_view();
    let mut r: Vec<u8> = Vec::new();
    let mut i: usize = 0;
    proof {
        assert(fv.skip(0) =~= fv);
    }
    while i < fields.len()
        invariant
            i <= fields.len(),
            fv == fields.deep_view(),
            enc_record(fv) =~= r@ + enc_record(fv.skip(i as int)),
        decreases fields.len() - i,
    {
        proof {
            assert(fv[i as int] =~= fields@[i as int]@);
            assert(fv.skip(i as int)[0] == fv[i as int]);
            assert(fv.skip(i as int).skip(1) =~= fv.skip(i + 1));
        }
        let ef = enc_field_bytes(&fields[i]);
        push_all(&mut r, &ef);
        if i + 1 < fields.len() {
            r.push(44);
        }
        proof {
            assert(enc_record(fv) =~= r@ + enc_record(fv.skip(i + 1)));
        }
        i = i + 1;
    }
    proof {
        assert(fv.skip(fields@.len() as int) =~= Seq::<Seq<u8>>::empty());
        assert(r@ =~= enc_record(fv));
    }
    r
}

/// Encodes a table: each record followed by a newline.
pub fn enc_table_bytes(rows: &Vec<Vec<Vec<u8>>>) -> (r: Vec<u8>)
    ensures
        r@ == enc_table(rows.deep_view()),
{
    let ghost rv = rows.deep_view();
    let mut r: Vec<u8> = Vec::new();
    let mut i: usize = 0;
    proof {
        assert(rv.skip(0) =~= rv);
    }
    while i < rows.len()
        invariant
            i <= rows.len(),
            rv == rows.deep_view(),
            enc_table(rv) =~= r@ + enc_table(rv.skip(i as int)),
        decreases rows.len() - i,
    {
        proof {
            assert(rv[i as int] =~~= rows@[i as int].deep_view());
            assert(rv.skip(i as int)[0] == rv[i as int]);
            assert(rv.skip(i as int).skip(1) =~= rv.skip(i + 1));
        }
        let er = enc_record_bytes(&rows[i]);
        push_all(&mut r, &er);
        r.push(10);
        proof {
            assert(enc_table(rv) =~= r@ + enc_table(rv.skip(i + 1)));
        }
        i = i + 1;
    }
    proof {
        assert(rv.skip(rows@.len() as int) =~= Seq::<Seq<Seq<u8>>>::empty());
        assert(r@ =~= enc_table(rv));
    }
    r
}

/// Parses a quoted field after its opening quote: the content up to the
/// closing quote (doubled quotes read as one), and the remainder after it.
pub open spec fn parse_quoted(s: Seq<u8>) -> Option<(Seq<u8>, Seq<u8>)>
    decreases s.len(),
{
    if s.len() == 0 {
        None
    } else if s[0] == 34 {
        if s.len() >= 2 && s[1] == 34 {
            match parse_quoted(s.skip(2)) {
                Some(p) => Some((seq![34u8] + p.0, p.1)),
                None => None,
            }
        } else {
            Some((Seq::empty(), s.skip(1)))
        }
    } else {
        match parse_quoted(s.skip(1)) {
            Some(p) => Some((seq![s[0]] + p.0, p.1)),
            None => None,
        }
    }
}

/// A parsed quoted field consumes at least its closing quote.
pub proof fn lemma_parse_quoted_len(s: Seq<u8>)
    ensures
        match parse_quoted(s) {
            Some(p) => p.1.len() < s.len(),
            None => true,
        },
    decreases s.len(),
{
    if s.len() == 0 {
    } else if s[0] == 34 {
        if s.len() >= 2 && s[1] == 34 {
            lemma_parse_quoted_len(s.skip(2));
        }
    } else {
        lemma_parse_quoted_len(s.skip(1));
    }
}

/// Parses an unquoted field: the content up to the next comma or newline,
/// and the remainder from that byte on.
pub open spec fn parse_raw(s: Seq<u8>) -> (Seq<u8>, Seq<u8>)
    decreases s.len(),
{
    if s.len() == 0 {
        (Seq::empty(), Seq::empty())
    } else if s[0] == 44 || s[0] == 10 {
        (Seq::empty(), s)
    } else {
        let p = parse_raw(s.skip(1));
        (seq![s[0]] + p.0, p.1)
    }
}

/// An unquoted field leaves at most the whole input.
pub proof fn lemma_parse_raw_len(s: Seq<u8>)
    ensures
        parse_raw(s).1.len() <= s.len(),
    decreases s.len(),
{
    if s.len() == 0 {
    } else if s[0] == 44 || s[0] == 10 {
    } else {
        lemma_parse_raw_len(s.skip(1));
    }
}

/// Parses one field, quoted or not.
pub open spec fn parse_field(s: Seq<u8>) -> Option<(Seq<u8>, Seq<u8>)> {
    if s.len() > 0 && s[0] == 34 {
        parse_quoted(s.skip(1))
    } else {
        Some(parse_raw(s))
    }
}

/// A parsed field leaves at most the whole input.
pub proof fn lemma_parse_field_len(s: Seq<u8>)
    ensures
        match parse_field(s) {
            Some(p) => p.1.len() <= s.len(),
            None => true,
        },
{
    if s.len() > 0 && s[0] == 34 {
        lemma_parse_quoted_len(s.skip(1));
    } else {
        lemma_parse_raw_len(s);
    }
}

/// Parses one record: comma-separated fields closed by a newline, and the
/// remainder after the newline. A record without its newline is refused.
pub open spec fn parse_record(s: Seq<u8>) -> Option<(Seq<Seq<u8>>, Seq<u8>)>
    decreases s.len(),
    via parse_record_decreases
{
    match parse_field(s) {
        None => None,
        Some(p) => {
            if p.1.len() > 0 && p.1[0] == 44 {
                match parse_record(p.1.skip(1)) {
                    Some(q) => Some((seq![p.0] + q.0, q.1)),
                    None => None,
                }
            } else if p.1.len() > 0 && p.1[0] == 10 {
                Some((seq![p.0], p.1.skip(1)))
            } else {
                None
            }
        },
    }
}

#[via_fn]
proof fn parse_record_decreases(s: Seq<u8>) {
    lemma_parse_field_len(s);
}

/// A parsed record consumes at least its closing newline.
pub proof fn lemma_parse_record_len(s: Seq<u8>)
    ensures
        match parse_record(s) {
            Some(q) => q.1.len() < s.len(),
            None => true,
        },
    decreases s.len(),
{
    lemma_parse_field_len(s);
    match parse_field(s) {
        None => {},
        Some(p) => {
            if p.1.len() > 0 && p.1[0] == 44 {
                lemma_parse_record_len(p.1.skip(1));
            }
        },
    }
}

/// Parses a whole table: records until the input is exhausted.
pub open spec fn parse_table(s: Seq<u8>) -> Option<Seq<Seq<Seq<u8>>>>
    decreases s.len(),
    via parse_table_decreases
{
    if s.len() == 0 {
        Some(Seq::empty())
    } else {
        match parse_record(s) {
            Some(p) => match parse_table(p.1) {
                Some(rs) => Some(seq![p.0] + rs),
                None => None,
            },
            None => None,
        }
    }
}

#[via_fn]
proof fn parse_table_decreases(s: Seq<u8>) {
    if s.len() > 0 {
        lemma_parse_record_len(s);
    }
}

/// Parses a quoted field of `s` after its opening quote, from `pos`.
fn parse_quoted_exec(s: &Vec<u8>, pos: usize) -> (r: Option<(Vec<u8>, usize)>)
    requires
        pos <= s.len(),
    ensures
        match r {
            Some(p) => {
                &&& pos < p.1 <= s.len()
                &&& parse_quoted(s@.skip(pos as int)) == Some((p.0@, s@.skip(p.1 as int)))
            },
            None => parse_quoted(s@.skip(pos as int)) is None,
        },
    decreases s.len() - pos,
{
    let ghost suf = s@.skip(pos as int);
    if pos >= s.len() {
        proof {
            assert(suf.len() == 0);
        }
        return None;
    }
    proof {
        assert(suf[0] == s@[pos as int]);
        assert(suf.skip(1) =~= s@.skip(pos + 1));
        if pos + 2 <= s.len() {
            assert(suf[1] == s@[pos + 1]);
            assert(suf.skip(2) =~= s@.skip(pos + 2));
        }
    }
    if s[pos] == 34 {
        if pos + 1 < s.len() && s[pos + 1] == 34 {
            match parse_quoted_exec(s, pos + 2) {
                Some((c, p2)) => {
                    let mut v: Vec<u8> = Vec::new();
                    v.push(34);
                    push_all(&mut v, &c);
                    proof {
                        assert(v@ =~= seq![34u8] + c@);
                    }
                    Some((v, p2))
                },
                None => None,
            }
        } else {
            Some((Vec::new(), pos + 1))
        }
    } else {
        match parse_quoted_exec(s, pos + 1) {
            Some((c, p2)) => {
                let mut v: Vec<u8> = Vec::new();
                v.push(s[pos]);
                push_all(&mut v, &c);
                proof {
                    assert(v@ =~= seq![suf[0]] + c@);
                }
                Some((v, p2))
            },
            None => None,
        }
    }
}

/// Parses an unquoted field of `s` from `pos`.
fn parse_raw_exec(s: &Vec<u8>, pos: usize) -> (r: (Vec<u8>, usize))
    requires
        pos <= s.len(),
    ensures
        pos <= r.1 <= s.len(),
        parse_raw(s@.skip(pos as int)) == (r.0@, s@.skip(r.1 as int)),
    decreases s.len() - pos,
{
    let ghost suf = s@.skip(pos as int);
    if pos >= s.len() {
        proof {
            assert(suf.len() == 0);
            assert(s@.skip(pos as int) =~= Seq::<u8>::empty());
        }
        return (Vec::new(), pos);
    }
    proof {
        assert(suf[0] == s@[pos as int]);
        assert(suf.skip(1) =~= s@.skip(pos + 1));
    }
    let b = s[pos];
    if b == 44 || b == 10 {
        (Vec::new(), pos)
    } else {
        let (c, p2) = parse_raw_exec(s, pos + 1);
        let mut v: Vec<u8> = Vec::new();
        v.push(b);
        push_all(&mut v, &c);
        proof {
            assert(v@ =~= seq![suf[0]] + c@);
        }
        (v, p2)
    }
}

/// Parses one field of `s` from `pos`, quoted or not.
fn parse_field_exec(s: &Vec<u8>, pos: usize) -> (r: Option<(Vec<u8>, usize)>)
    requires
        pos <= s.len(),
    ensures
        match r {
            Some(p) => {
                &&& pos <= p.1 <= s.len()
                &&& parse_field(s@.skip(pos as int)) == Some((p.0@, s@.skip(p.1 as int)))
            },
            None => parse_field(s@.skip(pos as int)) is None,
        },
{
    let ghost suf = s@.skip(pos as int);
    if pos < s.len() && s[pos] == 34 {
        proof {
            assert(suf[0] == s@[pos as int]);
            assert(suf.skip(1) =~= s@.skip(pos + 1));
        }
        parse_quoted_exec(s, pos + 1)
    } else {
        proof {
            if suf.len() > 0 {
                assert(suf[0] == s@[pos as int]);
            }
        }
        Some(parse_raw_exec(s, pos))
    }
}

/// Parses one record of `s` from `pos`, through its closing newline.
fn parse_record_exec(s: &Vec<u8>, pos: usize) -> (r: Option<(Vec<Vec<u8>>, usize)>)
    requires
        pos <= s.len(),
    ensures
        match r {
            Some(p) => {
                &&& pos < p.1 <= s.len()
                &&& parse_record(s@.skip(pos as int)) == Some(
                    (p.0.deep_view(), s@.skip(p.1 as int)),
                )
            },
            None => parse_record(s@.skip(pos as int)) is None,
        },
    decreases s.len() - pos,
{
    let ghost suf = s@.skip(pos as int);
    let (f, p) = match parse_field_exec(s, pos) {
        Some(fp) => fp,
        None => {
            return None;
        },
    };
    let ghost fsuf = s@.skip(p as int);
    proof {
        if p < s.len() {
            assert(fsuf[0] == s@[p as int]);
            assert(fsuf.skip(1) =~= s@.skip(p + 1));
        }
    }
    if p < s.len() && s[p] == 44 {
        match parse_record_exec(s, p + 1) {
            Some((mut fs, p2)) => {
                let ghost tail_dv = fs.deep_view();
                fs.insert(0, f);
                proof {
                    assert(fs.deep_view() =~~= seq![f@] + tail_dv);
                }
                Some((fs, p2))
            },
            None => None,
        }
    } else if p < s.len() && s[p] == 10 {
        let mut fs: Vec<Vec<u8>> = Vec::new();
        fs.push(f);
        proof {
            assert(fs.deep_view() =~~= seq![fs@[0]@]);
        }
        Some((fs, p + 1))
    } else {
        proof {
            assert(fsuf.len() == s@.len() - p);
        }
        None
    }
}

/// Parses a whole table of `s` from `pos`: records until the end.
fn parse_table_exec(s: &Vec<u8>, pos: usize) -> (r: Option<Vec<Vec<Vec<u8>>>>)
    requires
        pos <= s.len(),
    ensures
        match r {
            Some(rows) => parse_table(s@.skip(pos as int)) == Some(rows.deep_view()),
            None => parse_table(s@.skip(pos as int)) is None,
        },
    decreases s.len() - pos,
{
    let ghost suf = s@.skip(pos as int);
    if pos >= s.len() {
        let empty_rows: Vec<Vec<Vec<u8>>> = Vec::new();
        proof {
            assert(suf.len() == 0);
            assert(empty_rows.deep_view() =~~= Seq::<Seq<Seq<u8>>>::empty());
        }
        return Some(empty_rows);
    }
    match parse_record_exec(s, pos) {
        Some((row, p2)) => {
            match parse_table_exec(s, p2) {
                Some(mut rows) => {
                    let ghost tail_dv = rows.deep_view();
                    let ghost row_dv = row.deep_view();
                    rows.insert(0, row);
                    proof {
                        assert(rows.deep_view() =~~= seq![row_dv] + tail_dv);
                    }
                    Some(rows)
                },
                None => None,
            }
        },
        None => None,
    }
}

/// Parsing undoes quoting: the escaped field, its closing quote and any
/// remainder not opening with a quote parse back to the field exactly.
pub proof fn lemma_parse_quoted_enc(f: Seq<u8>, rest: Seq<u8>)
    requires
        rest.len() > 0 ==> rest[0] != 34,
    ensures
        parse_quoted(escape_quotes(f) + seq![34u8] + rest) == Some((f, rest)),
    decreases f.len(),
{
    let s = escape_quotes(f) + seq![34u8] + rest;
    if f.len() == 0 {
        assert(s =~= seq![34u8] + rest);
        assert(s[0] == 34);
        if s.len() >= 2 {
            assert(s[1] == rest[0]);
        }
        assert(s.skip(1) =~= rest);
    } else if f[0] == 34 {
        assert(escape_quotes(f) == seq![34u8, 34u8] + escape_quotes(f.skip(1)));
        assert(s =~= seq![34u8, 34u8] + (escape_quotes(f.skip(1)) + seq![34u8] + rest));
        assert(s[0] == 34 && s[1] == 34);
        assert(s.skip(2) =~= escape_quotes(f.skip(1)) + seq![34u8] + rest);
        lemma_parse_quoted_enc(f.skip(1), rest);
        assert(seq![34u8] + f.skip(1) =~= f);
    } else {
        assert(escape_quotes(f) == seq![f[0]] + escape_quotes(f.skip(1)));
        assert(s =~= seq![f[0]] + (escape_quotes(f.skip(1)) + seq![34u8] + rest));
        assert(s[0] == f[0]);
        assert(s.skip(1) =~= escape_quotes(f.skip(1)) + seq![34u8] + rest);
        lemma_parse_quoted_enc(f.skip(1), rest);
        assert(seq![f[0]] + f.skip(1) =~= f);
    }
}

/// Parsing undoes a verbatim field: a field without special bytes followed
/// by a comma or newline parses back exactly.
pub proof fn lemma_parse_raw_enc(f: Seq<u8>, rest: Seq<u8>)
    requires
        !field_needs_quote(f),
        rest.len() > 0 ==> (rest[0] == 44 || rest[0] == 10),
    ensures
        parse_raw(f + rest) == (f, rest),
    decreases f.len(),
{
    let s = f + rest;
    if f.len() == 0 {
        assert(s =~= rest);
    } else {
        assert(!is_special_byte(f[0]));
        assert(s[0] == f[0]);
        assert(s.skip(1) =~= f.skip(1) + rest);
        assert(!field_needs_quote(f.skip(1))) by {
            if field_needs_quote(f.skip(1)) {
                let i = choose|i: int|
                    0 <= i < f.skip(1).len() && is_special_byte(f.skip(1)[i]);
                assert(is_special_byte(f[i + 1]));
            }
        }
        lemma_parse_raw_enc(f.skip(1), rest);
        assert(seq![f[0]] + f.skip(1) =~= f);
    }
}

/// Parsing undoes field encoding, whichever form it took.
pub proof fn lemma_parse_field_enc(f: Seq<u8>, rest: Seq<u8>)
    requires
        rest.len() > 0,
        rest[0] == 44 || rest[0] == 10,
    ensures
        parse_field(enc_field(f) + rest) == Some((f, rest)),
{
    let s = enc_field(f) + rest;
    if field_needs_quote(f) {
        assert(s =~= seq![34u8] + (escape_quotes(f) + seq![34u8] + rest));
        assert(s[0] == 34);
        assert(s.skip(1) =~= escape_quotes(f) + seq![34u8] + rest);
        lemma_parse_quoted_enc(f, rest);
    } else {
        assert(s =~= f + rest);
        if f.len() > 0 {
            assert(!is_special_byte(f[0]));
            assert(s[0] == f[0]);
        } else {
            assert(s[0] == rest[0]);
        }
        assert(!(s[0] == 34));
        lemma_parse_raw_enc(f, rest);
    }
}

/// Parsing undoes record encoding: an encoded non-empty record, its closing
/// newline and any remainder parse back to the fields exactly.
pub proof fn lemma_parse_record_enc(fields: Seq<Seq<u8>>, rest: Seq<u8>)
    requires
        fields.len() >= 1,
    ensures
        parse_record(enc_record(fields) + seq![10u8] + rest) == Some((fields, rest)),
    decreases fields.len(),
{
    let s = enc_record(fields) + seq![10u8] + rest;
    if fields.len() == 1 {
        let tail = seq![10u8] + rest;
        assert(s =~= enc_field(fields[0]) + tail);
        assert(tail[0] == 10);
        lemma_parse_field_enc(fields[0], tail);
        assert(tail.skip(1) =~= rest);
        assert(seq![fields[0]] =~= fields);
    } else {
        let tail = seq![44u8] + (enc_record(fields.skip(1)) + seq![10u8] + rest);
        assert(enc_record(fields) == enc_field(fields[0]) + seq![44u8] + enc_record(
            fields.skip(1),
        ));
        assert(s =~= enc_field(fields[0]) + tail);
        assert(tail[0] == 44);
        lemma_parse_field_enc(fields[0], tail);
        assert(tail.skip(1) =~= enc_record(fields.skip(1)) + seq![10u8] + rest);
        lemma_parse_record_enc(fields.skip(1), rest);
        assert(seq![fields[0]] + fields.skip(1) =~= fields);
    }
}

/// Parsing undoes table encoding: every record round-trips, provided no
/// record is empty of fields.
pub proof fn lemma_parse_table_enc(rows: Seq<Seq<Seq<u8>>>)
    requires
        forall|i: int| 0 <= i < rows.len() ==> rows[i].len() >= 1,
    ensures
        parse_table(enc_table(rows)) == Some(rows),
    decreases rows.len(),
{
    if rows.len() == 0 {
    } else {
        let s = enc_record(rows[0]) + seq![10u8] + enc_table(rows.skip(1));
        assert(enc_table(rows) == s);
        assert(s.len() > 0) by {
            assert(s[enc_record(rows[0]).len() as int] == 10);
        }
        lemma_parse_record_enc(rows[0], enc_table(rows.skip(1)));
        assert(forall|i: int|
            0 <= i < rows.skip(1).len() ==> #[trigger] rows.skip(1)[i].len() >= 1) by {
            assert(forall|i: int|
                0 <= i < rows.skip(1).len() ==> rows.skip(1)[i] == rows[i + 1]);
        }
        lemma_parse_table_enc(rows.skip(1));
        assert(seq![rows[0]] + rows.skip(1) =~= rows);
    }
}

/// The detail-report fields of one finding: identity, scanner name, payload.
pub open spec fn detail_fields(f: FindingView) -> Seq<Seq<u8>> {
    seq![f.file_id, spec_scanner_name(f.scanner), f.payload]
}

/// The detail-report rows of a findings sequence, in order.
pub open spec fn detail_rows(fs: Seq<FindingView>) -> Seq<Seq<Seq<u8>>> {
    fs.map_values(|f: FindingView| detail_fields(f))
}

/// The encoded detail rows (header not included).
pub open spec fn enc_detail(fs: Seq<FindingView>) -> Seq<u8> {
    enc_table(detail_rows(fs))
}

/// The scanner a report name denotes, if any.
pub open spec fn scanner_of_name(name: Seq<u8>) -> Option<ScannerKind> {
    if name == spec_scanner_name(ScannerKind::LineCount) {
        Some(ScannerKind::LineCount)
    } else if name == spec_scanner_name(ScannerKind::SqlCount) {
        Some(ScannerKind::SqlCount)
    } else if name == spec_scanner_name(ScannerKind::GetSql) {
        Some(ScannerKind::GetSql)
    } else if name == spec_scanner_name(ScannerKind::GetLibname) {
        Some(ScannerKind::GetLibname)
    } else if name == spec_scanner_name(ScannerKind::GetPassword) {
        Some(ScannerKind::GetPassword)
    } else if name == spec_scanner_name(ScannerKind::ExportCount) {
        Some(ScannerKind::ExportCount)
    } else if name == spec_scanner_name(ScannerKind::NullCount) {
        Some(ScannerKind::NullCount)
    } else if name == spec_scanner_name(ScannerKind::FindDate) {
        Some(ScannerKind::FindDate)
    } else if name == spec_scanner_name(ScannerKind::FindFileName) {
        Some(ScannerKind::FindFileName)
    } else {
        None
    }
}

/// Scanner names denote their own scanners: the names are pairwise distinct.
pub proof fn lemma_scanner_name_round_trip(k: ScannerKind)
    ensures
        scanner_of_name(spec_scanner_name(k)) == Some(k),
{
    assert(spec_scanner_name(ScannerKind::NullCount)[0] != spec_scanner_name(
        ScannerKind::LineCount,
    )[0]);
    assert(spec_scanner_name(ScannerKind::FindDate)[0] != spec_scanner_name(
        ScannerKind::SqlCount,
    )[0]);
    assert(spec_scanner_name(ScannerKind::ExportCount)[0] != spec_scanner_name(
        ScannerKind::GetPassword,
    )[0]);
}

/// Looks the scanner up by its report name.
fn scanner_of_name_exec(name: &Vec<u8>) -> (r: Option<ScannerKind>)
    ensures
        r == scanner_of_name(name@),
{
    let n = scanner_name(ScannerKind::LineCount);
    if eq_bytes(name, &n) {
        return Some(ScannerKind::LineCount);
    }
    let n = scanner_name(ScannerKind::SqlCount);
    if eq_bytes(name, &n) {
        return Some(ScannerKind::SqlCount);
    }
    let n = scanner_name(ScannerKind::GetSql);
    if eq_bytes(name, &n) {
        return Some(ScannerKind::GetSql);
    }
    let n = scanner_name(ScannerKind::GetLibname);
    if eq_bytes(name, &n) {
        return Some(ScannerKind::GetLibname);
    }
    let n = scanner_name(ScannerKind::GetPassword);
    if eq_bytes(name, &n) {
        return Some(ScannerKind::GetPassword);
    }
    let n = scanner_name(ScannerKind::ExportCount);
    if eq_bytes(name, &n) {
        return Some(ScannerKind::ExportCount);
    }
    let n = scanner_name(ScannerKind::NullCount);
    if eq_bytes(name, &n) {
        return Some(ScannerKind::NullCount);
    }
    let n = scanner_name(ScannerKind::FindDate);
    if eq_bytes(name, &n) {
        return Some(ScannerKind::FindDate);
    }
    let n = scanner_name(ScannerKind::FindFileName);
    if eq_bytes(name, &n) {
        return Some(ScannerKind::FindFileName);
    }
    None
}

/// The findings a table of detail rows denotes: each row must hold exactly
/// identity, a known scanner name and payload.
pub open spec fn findings_of_rows(rows: Seq<Seq<Seq<u8>>>) -> Option<Seq<FindingView>>
    decreases rows.len(),
{
    if rows.len() == 0 {
        Some(Seq::empty())
    } else if rows[0].len() == 3 {
        match scanner_of_name(rows[0][1]) {
            Some(k) => match findings_of_rows(rows.skip(1)) {
                Some(fs) => Some(
                    seq![FindingView { file_id: rows[0][0], scanner: k, payload: rows[0][2] }] + fs,
                ),
                None => None,
            },
            None => None,
        }
    } else {
        None
    }
}

/// What encoded detail bytes denote, if they parse.
pub open spec fn parse_detail(bytes: Seq<u8>) -> Option<Seq<FindingView>> {
    match parse_table(bytes) {
        Some(rows) => findings_of_rows(rows),
        None => None,
    }
}

/// The detail rows of a findings sequence denote those findings exactly.
proof fn lemma_findings_of_detail_rows(fs: Seq<FindingView>)
    ensures
        findings_of_rows(detail_rows(fs)) == Some(fs),
    decreases fs.len(),
{
    let rows = detail_rows(fs);
    if fs.len() == 0 {
        assert(rows.len() == 0);
    } else {
        assert(rows[0] == detail_fields(fs[0]));
        lemma_scanner_name_round_trip(fs[0].scanner);
        assert(rows.skip(1) =~= detail_rows(fs.skip(1)));
        lemma_findings_of_detail_rows(fs.skip(1));
        assert(FindingView { file_id: rows[0][0], scanner: fs[0].scanner, payload: rows[0][2] }
            =~= fs[0]);
        assert(seq![fs[0]] + fs.skip(1) =~= fs);
    }
}

/// Round trip: every findings sequence written as detail rows and re-parsed
/// yields the identical sequence of (identity, scanner, payload) triples,
/// payloads with embedded newlines, commas and quotes included.
pub proof fn lemma_detail_round_trip(fs: Seq<FindingView>)
    ensures
        parse_detail(enc_detail(fs)) == Some(fs),
{
    let rows = detail_rows(fs);
    assert(forall|i: int| 0 <= i < rows.len() ==> #[trigger] rows[i].len() >= 1) by {
        assert(forall|i: int|
            0 <= i < fs.len() ==> #[trigger] rows[i] == detail_fields(fs[i]));
    }
    lemma_parse_table_enc(rows);
    lemma_findings_of_detail_rows(fs);
}

/// Encodes the findings as detail rows (header not included).
pub fn encode_detail_rows(findings: &Vec<Finding>) -> (r: Vec<u8>)
    ensures
        r@ == enc_detail(finding_views(findings@)),
{
    let ghost dv = detail_rows(finding_views(findings@));
    let mut rows: Vec<Vec<Vec<u8>>> = Vec::new();
    let mut i: usize = 0;
    while i < findings.len()
        invariant
            i <= findings.len(),
            dv == detail_rows(finding_views(findings@)),
            rows.deep_view() =~~= dv.take(i as int),
        decreases findings.len() - i,
    {
        let f = &findings[i];
        let mut row: Vec<Vec<u8>> = Vec::new();
        row.push(copy_range(&f.file_id, 0, f.file_id.len()));
        row.push(scanner_name(f.scanner));
        row.push(copy_range(&f.payload, 0, f.payload.len()));
        proof {
            assert(row@[0]@ =~= f.file_id@);
            assert(row@[2]@ =~= f.payload@);
            assert(row.deep_view() =~~= detail_fields(findings@[i as int]@));
            assert(dv[i as int] == detail_fields(findings@[i as int]@));
        }
        rows.push(row);
        proof {
            assert(rows.deep_view() =~~= dv.take(i + 1));
        }
        i = i + 1;
    }
    proof {
        assert(dv.take(findings@.len() as int) =~= dv);
        assert(rows.deep_view() =~~= dv);
    }
    enc_table_bytes(&rows)
}

/// Converts parsed rows back to findings, from row `i` on.
fn rows_to_findings(rows: &Vec<Vec<Vec<u8>>>, i: usize) -> (r: Option<Vec<Finding>>)
    requires
        i <= rows.len(),
    ensures
        match r {
            Some(fs) => findings_of_rows(rows.deep_view().skip(i as int)) == Some(
                finding_views(fs@),
            ),
            None => findings_of_rows(rows.deep_view().skip(i as int)) is None,
        },
    decreases rows.len() - i,
{
    let ghost rv = rows.deep_view();
    let ghost suf = rv.skip(i as int);
    if i >= rows.len() {
        let fs: Vec<Finding> = Vec::new();
        proof {
            assert(suf.len() == 0);
            assert(finding_views(fs@) =~= Seq::<FindingView>::empty());
        }
        return Some(fs);
    }
    proof {
        assert(suf[0] =~~= rows@[i as int].deep_view());
        assert(suf.skip(1) =~= rv.skip(i + 1));
    }
    let row = &rows[i];
    if row.len() != 3 {
        return None;
    }
    proof {
        assert(suf[0].len() == 3);
        assert(suf[0][1] =~= row@[1]@);
        assert(suf[0][0] =~= row@[0]@);
        assert(suf[0][2] =~= row@[2]@);
    }
    let k = match scanner_of_name_exec(&row[1]) {
        Some(k) => k,
        None => {
            return None;
        },
    };
    match rows_to_findings(rows, i + 1) {
        Some(mut fs) => {
            let ghost tail = fs@;
            let f = Finding {
                file_id: copy_range(&row[0], 0, row[0].len()),
                scanner: k,
                payload: copy_range(&row[2], 0, row[2].len()),
            };
            proof {
                assert(f@ =~= FindingView { file_id: suf[0][0], scanner: k, payload: suf[0][2] });
            }
            fs.insert(0, f);
            proof {
                assert(finding_views(fs@) =~= seq![f@] + finding_views(tail));
            }
            Some(fs)
        },
        None => None,
    }
}

/// Parses detail rows (no header) back to findings. Returns `None` exactly
/// when the bytes are not a well-formed encoding of detail rows.
pub fn parse_detail_rows(bytes: &Vec<u8>) -> (r: Option<Vec<Finding>>)
    ensures
        match r {
            Some(fs) => parse_detail(bytes@) == Some(finding_views(fs@)),
            None => parse_detail(bytes@) is None,
        },
{
    proof {
        assert(bytes@.skip(0) =~= bytes@);
    }
    match parse_table_exec(bytes, 0) {
        Some(rows) => {
            proof {
                assert(rows.deep_view().skip(0) =~= rows.deep_view());
            }
            rows_to_findings(&rows, 0)
        },
        None => None,
    }
}

/// The header row of the detail report.
pub open spec fn detail_header() -> Seq<u8> {
    seq![
        117u8,
        117,
        105,
        100,
        44,
        102,
        117,
        110,
        99,
        95,
        110,
        109,
        44,
        114,
        101,
        115,
        117,
        108,
        116,
        10,
    ]
}

/// The header row of the detail report, as bytes.
pub fn detail_header_bytes() -> (r: Vec<u8>)
    ensures
        r@ == detail_header(),
{
    let r: Vec<u8> = vec![
        117u8,
        117,
        105,
        100,
        44,
        102,
        117,
        110,
        99,
        95,
        110,
        109,
        44,
        114,
        101,
        115,
        117,
        108,
        116,
        10,
    ];
    proof {
        assert(r@ =~= detail_header());
    }
    r
}

/// The header row of the summary report.
pub open spec fn summary_header() -> Seq<u8> {
    seq![
        117u8,
        117,
        105,
        100,
        44,
        102,
        105,
        108,
        101,
        95,
        110,
        109,
        44,
        102,
        105,
        108,
        101,
        95,
        100,
        105,
        114,
        44,
        99,
        114,
        101,
        97,
        116,
        101,
        95,
        100,
        116,
        44,
        109,
        111,
        100,
        105,
        102,
        121,
        95,
        100,
        116,
        44,
        115,
        105,
        122,
        101,
        95,
        98,
        121,
        116,
        101,
        115,
        10,
    ]
}

/// The header row of the summary report, as bytes.
pub fn summary_header_bytes() -> (r: Vec<u8>)
    ensures
        r@ == summary_header(),
{
    let r: Vec<u8> = vec![
        117u8,
        117,
        105,
        100,
        44,
        102,
        105,
        108,
        101,
        95,
        110,
        109,
        44,
        102,
        105,
        108,
        101,
        95,
        100,
        105,
        114,
        44,
        99,
        114,
        101,
        97,
        116,
        101,
        95,
        100,
        116,
        44,
        109,
        111,
        100,
        105,
        102,
        121,
        95,
        100,
        116,
        44,
        115,
        105,
        122,
        101,
        95,
        98,
        121,
        116,
        101,
        115,
        10,
    ];
    proof {
        assert(r@ =~= summary_header());
    }
    r
}

/// The summary-report fields of one file record: identity, name, directory,
/// both timestamps rendered on the calendar, and the size in decimal.
pub open spec fn summary_fields(rec: FileRecord) -> Seq<Seq<u8>> {
    seq![
        rec.id@,
        rec.name@,
        rec.directory@,
        timestamp_text(rec.created_secs as int),
        timestamp_text(rec.modified_secs as int),
        dec_of(rec.size_bytes as nat),
    ]
}

/// Encodes one summary row, newline-terminated.
pub fn summary_row_bytes(rec: &FileRecord) -> (r: Vec<u8>)
    requires
        record_wf(*rec),
    ensures
        r@ == enc_record(summary_fields(*rec)) + seq![10u8],
{
    let mut fields: Vec<Vec<u8>> = Vec::new();
    fields.push(copy_range(&rec.id, 0, rec.id.len()));
    fields.push(copy_range(&rec.name, 0, rec.name.len()));
    fields.push(copy_range(&rec.directory, 0, rec.directory.len()));
    fields.push(rec.created_text());
    fields.push(rec.modified_text());
    fields.push(dec_bytes(rec.size_bytes));
    proof {
        assert(fields@[0]@ =~= rec.id@);
        assert(fields@[1]@ =~= rec.name@);
        assert(fields@[2]@ =~= rec.directory@);
        assert(fields.deep_view() =~~= summary_fields(*rec));
    }
    let mut r = enc_record_bytes(&fields);
    r.push(10);
    proof {
        assert(r@ =~= enc_record(summary_fields(*rec)) + seq![10u8]);
    }
    r
}

} // verus!
