//! Byte-level text primitives shared by the scanners: ASCII case folding,
//! substring search, line splitting and decimal rendering.

use vstd::prelude::*;

verus! {

/// ASCII upper-casing of a single byte.
pub open spec fn spec_upper(b: u8) -> u8 {
    if 97 <= b && b <= 122 {
        (b - 32) as u8
    } else {
        b
    }
}

/// ASCII upper-casing of a byte sequence.
pub open spec fn spec_upper_seq(s: Seq<u8>) -> Seq<u8> {
    s.map_values(|b: u8| spec_upper(b))
}

/// Upper-cases every ASCII letter of `s`, leaving all other bytes alone.
pub fn upper_bytes(s: &Vec<u8>) -> (r: Vec<u8>)
    ensures
        r@ == spec_upper_seq(s@),
{
    let mut r: Vec<u8> = Vec::new();
    let mut i: usize = 0;
    while i < s.len()
        invariant
            i <= s.len(),
            r@ =~= spec_upper_seq(s@).take(i as int),
        decreases s.len() - i,
    {
        let b = s[i];
        if 97 <= b && b <= 122 {
            r.push(b - 32);
        } else {
            r.push(b);
        }
        i = i + 1;
    }
    assert(r@ =~= spec_upper_seq(s@));
    r
}

/// `pat` occurs in `s` starting exactly at index `i`.
pub open spec fn match_at(s: Seq<u8>, pat: Seq<u8>, i: int) -> bool {
    &&& 0 <= i
    &&& i + pat.len() <= s.len()
    &&& s.subrange(i, i + pat.len()) == pat
}

/// `pat` occurs somewhere in `s` at or after index `from`.
pub open spec fn has_match_from(s: Seq<u8>, pat: Seq<u8>, from: int) -> bool {
    exists|i: int| from <= i && match_at(s, pat, i)
}

/// `pat` occurs somewhere in `s`.
pub open spec fn contains_seq(s: Seq<u8>, pat: Seq<u8>) -> bool {
    has_match_from(s, pat, 0)
}

/// Compares `s[i..i+pat.len()]` with `pat`.
pub fn check_match_at(s: &Vec<u8>, pat: &Vec<u8>, i: usize) -> (r: bool)
    requires
        i + pat@.len() <= s@.len(),
    ensures
        r == match_at(s@, pat@, i as int),
{
    let mut j: usize = 0;
    while j < pat.len()
        invariant
            i + pat.len() <= s.len(),
            j <= pat.len(),
            forall|k: int| 0 <= k < j ==> s@[i + k] == pat@[k],
        decreases pat.len() - j,
    {
        if s[i + j] != pat[j] {
            assert(s@.subrange(i as int, i + pat@.len())[j as int] != pat@[j as int]);
            return false;
        }
        j = j + 1;
    }
    assert(s@.subrange(i as int, i + pat@.len()) =~= pat@);
    true
}

/// Index of the first occurrence of `pat` in `s` at or after `from`,
/// or `None` when there is none.
pub fn find_from(s: &Vec<u8>, pat: &Vec<u8>, from: usize) -> (r: Option<usize>)
    requires
        1 <= pat@.len(),
    ensures
        match r {
            Some(i) => {
                &&& from <= i
                &&& match_at(s@, pat@, i as int)
                &&& forall|k: int| from <= k < i ==> !match_at(s@, pat@, k)
            },
            None => !has_match_from(s@, pat@, from as int),
        },
{
    if pat.len() > s.len() {
        return None;
    }
    let last = s.len() - pat.len();
    let mut i: usize = from;
    while i <= last
        invariant
            1 <= pat.len() <= s.len(),
            last == s.len() - pat.len(),
            from <= i,
            forall|k: int| from <= k < i ==> !match_at(s@, pat@, k),
        decreases s.len() - i,
    {
        if check_match_at(s, pat, i) {
            return Some(i);
        }
        i = i + 1;
    }
    assert forall|k: int| from <= k implies !match_at(s@, pat@, k) by {
        if k < i {
        } else {
            assert(k > last);
        }
    }
    None
}

/// Whether `pat` occurs anywhere in `s`.
pub fn contains_bytes(s: &Vec<u8>, pat: &Vec<u8>) -> (r: bool)
    requires
        1 <= pat@.len(),
    ensures
        r == contains_seq(s@, pat@),
{
    match find_from(s, pat, 0) {
        Some(_) => true,
        None => false,
    }
}

/// Whether two byte strings hold the same bytes.
pub fn eq_bytes(a: &Vec<u8>, b: &Vec<u8>) -> (r: bool)
    ensures
        r == (a@ == b@),
{
    if a.len() != b.len() {
        return false;
    }
    let r = check_match_at(a, b, 0);
    proof {
        if r {
            assert(a@.subrange(0, b@.len() as int) =~= a@);
        } else {
            if a@ == b@ {
                assert(a@.subrange(0, b@.len() as int) =~= b@);
            }
        }
    }
    r
}

/// Whether `s` begins with `pat`.
pub fn starts_with_bytes(s: &Vec<u8>, pat: &Vec<u8>) -> (r: bool)
    ensures
        r == match_at(s@, pat@, 0),
{
    if pat.len() > s.len() {
        return false;
    }
    check_match_at(s, pat, 0)
}

/// A copy of `s[a..b]`.
pub fn copy_range(s: &Vec<u8>, a: usize, b: usize) -> (r: Vec<u8>)
    requires
        a <= b <= s.len(),
    ensures
        r@ == s@.subrange(a as int, b as int),
{
    let mut r: Vec<u8> = Vec::new();
    let mut i: usize = a;
    while i < b
        invariant
            a <= i <= b <= s.len(),
            r@ =~= s@.subrange(a as int, i as int),
        decreases b - i,
    {
        r.push(s[i]);
        assert(r@ =~= s@.subrange(a as int, i + 1));
        i = i + 1;
    }
    r
}

/// The smallest index `i >= from` with `s[i] == b`, or `s.len()` if there is none.
pub open spec fn first_at(s: Seq<u8>, b: u8, from: int) -> int
    decreases s.len() - from,
{
    if from < 0 || from >= s.len() {
        s.len() as int
    } else if s[from] == b {
        from
    } else {
        first_at(s, b, from + 1)
    }
}

/// `first_at` really is the first occurrence at or after `from`.
pub proof fn lemma_first_at(s: Seq<u8>, b: u8, from: int)
    requires
        0 <= from <= s.len(),
    ensures
        from <= first_at(s, b, from) <= s.len(),
        first_at(s, b, from) < s.len() ==> s[first_at(s, b, from)] == b,
        forall|k: int| from <= k < first_at(s, b, from) ==> s[k] != b,
    decreases s.len() - from,
{
    if from < s.len() && s[from] != b {
        lemma_first_at(s, b, from + 1);
    }
}

/// A line terminated by a newline loses the newline and one carriage return
/// immediately before it; an unterminated final line is kept verbatim.
pub open spec fn strip_cr(seg: Seq<u8>) -> Seq<u8> {
    if seg.len() > 0 && seg.last() == 13 {
        seg.drop_last()
    } else {
        seg
    }
}

/// The lines of `s`: segments separated by newline bytes, a carriage return
/// stripped before each newline, and a final unterminated non-empty segment
/// counting as one line of its own.
pub open spec fn lines_of(s: Seq<u8>) -> Seq<Seq<u8>>
    decreases s.len(),
    via lines_of_decreases
{
    if s.len() == 0 {
        Seq::empty()
    } else {
        let i = first_at(s, 10, 0);
        if i == s.len() {
            seq![s]
        } else {
            seq![strip_cr(s.take(i))] + lines_of(s.skip(i + 1))
        }
    }
}

#[via_fn]
proof fn lines_of_decreases(s: Seq<u8>) {
    if s.len() > 0 {
        lemma_first_at(s, 10, 0);
    }
}

/// How many newline bytes `s` holds.
pub open spec fn newline_count(s: Seq<u8>) -> nat
    decreases s.len(),
{
    if s.len() == 0 {
        0
    } else if s[0] == 10 {
        1 + newline_count(s.skip(1))
    } else {
        newline_count(s.skip(1))
    }
}

proof fn lemma_newline_count_zero(s: Seq<u8>)
    requires
        forall|k: int| 0 <= k < s.len() ==> s[k] != 10,
    ensures
        newline_count(s) == 0,
    decreases s.len(),
{
    if s.len() > 0 {
        assert(forall|k: int| 0 <= k < s.skip(1).len() ==> s.skip(1)[k] == s[k + 1]);
        lemma_newline_count_zero(s.skip(1));
    }
}

proof fn lemma_newline_count_split(s: Seq<u8>, i: int)
    requires
        0 <= i < s.len(),
        s[i] == 10,
        forall|k: int| 0 <= k < i ==> s[k] != 10,
    ensures
        newline_count(s) == 1 + newline_count(s.skip(i + 1)),
    decreases i,
{
    if i == 0 {
        assert(s.skip(1) =~= s.skip(i + 1));
    } else {
        assert(s[0] != 10);
        assert(s.skip(1)[i - 1] == s[i]);
        assert(forall|k: int| 0 <= k < i - 1 ==> s.skip(1)[k] == s[k + 1]);
        lemma_newline_count_split(s.skip(1), i - 1);
        assert(s.skip(1).skip(i) =~= s.skip(i + 1));
    }
}

/// The number of lines is the number of newline terminators, plus one for a
/// final non-empty unterminated segment.
pub proof fn lemma_line_count_terminators(s: Seq<u8>)
    ensures
        lines_of(s).len() == newline_count(s) + (if s.len() > 0 && s.last() != 10 {
            1nat
        } else {
            0nat
        }),
    decreases s.len(),
{
    if s.len() == 0 {
    } else {
        lemma_first_at(s, 10, 0);
        let i = first_at(s, 10, 0);
        if i == s.len() {
            lemma_newline_count_zero(s);
            assert(s.last() != 10);
        } else {
            lemma_newline_count_split(s, i);
            lemma_line_count_terminators(s.skip(i + 1));
            if i + 1 < s.len() {
                assert(s.skip(i + 1).last() == s.last());
            } else {
                assert(s.last() == 10);
            }
        }
    }
}

/// Splits `s` into its lines.
pub fn split_lines(s: &Vec<u8>) -> (r: Vec<Vec<u8>>)
    ensures
        r.deep_view() == lines_of(s@),
{
    let nl = newline_byte();
    let mut r: Vec<Vec<u8>> = Vec::new();
    let mut pos: usize = 0;
    proof {
        assert(s@.skip(0) =~= s@);
    }
    while pos < s.len()
        invariant
            pos <= s.len(),
            nl@ == seq![10u8],
            lines_of(s@) =~~= r.deep_view() + lines_of(s@.skip(pos as int)),
        decreases s.len() - pos,
    {
        let ghost rest = s@.skip(pos as int);
        let ghost r_old = r.deep_view();
        match find_from(s, &nl, pos) {
            Some(i) => {
                proof {
                    lemma_first_at(rest, 10, 0);
                    assert(s@.subrange(i as int, i + 1) == nl@);
                    assert(s@[i as int] == s@.subrange(i as int, i + 1)[0]);
                    assert(rest[i - pos] == 10);
                    assert forall|k: int| 0 <= k < i - pos implies rest[k] != 10 by {
                        assert(!match_at(s@, nl@, pos + k));
                        assert(s@.subrange(pos + k, pos + k + 1) =~= seq![s@[pos + k]]);
                    }
                    assert(first_at(rest, 10, 0) == i - pos);
                }
                let mut seg = copy_range(s, pos, i);
                if seg.len() > 0 && seg[seg.len() - 1] == 13 {
                    let _ = seg.pop();
                }
                proof {
                    assert(rest.take(i - pos) =~= s@.subrange(pos as int, i as int));
                    assert(seg@ =~= strip_cr(rest.take(i - pos)));
                    assert(rest.skip(i - pos + 1) =~= s@.skip(i + 1));
                    assert(lines_of(rest) == seq![strip_cr(rest.take(i - pos))] + lines_of(
                        rest.skip(i - pos + 1),
                    ));
                }
                r.push(seg);
                proof {
                    assert(r.deep_view() =~~= r_old.push(seg@));
                    assert(lines_of(s@) =~~= r.deep_view() + lines_of(s@.skip(i + 1)));
                }
                pos = i + 1;
            },
            None => {
                proof {
                    lemma_first_at(rest, 10, 0);
                    assert forall|k: int| 0 <= k < rest.len() implies rest[k] != 10 by {
                        assert(!match_at(s@, nl@, pos + k));
                        assert(s@.subrange(pos + k, pos + k + 1) =~= seq![s@[pos + k]]);
                    }
                    assert(first_at(rest, 10, 0) == rest.len());
                    assert(lines_of(rest) == seq![rest]);
                }
                let seg = copy_range(s, pos, s.len());
                proof {
                    assert(seg@ =~= rest);
                }
                r.push(seg);
                proof {
                    assert(r.deep_view() =~~= r_old.push(seg@));
                    assert(s@.skip(s@.len() as int) =~= Seq::<u8>::empty());
                    assert(lines_of(s@) =~~= r.deep_view() + lines_of(s@.skip(s@.len() as int)));
                }
                pos = s.len();
            },
        }
    }
    proof {
        assert(s@.skip(pos as int) =~= Seq::<u8>::empty());
        assert(lines_of(s@) =~~= r.deep_view());
    }
    r
}

/// A one-byte vector holding the newline byte.
pub fn newline_byte() -> (r: Vec<u8>)
    ensures
        r@ =~= seq![10u8],
{
    let mut v: Vec<u8> = Vec::new();
    v.push(10);
    v
}

/// The lines joined back together with single newline bytes between them.
pub open spec fn join_lines(ls: Seq<Seq<u8>>) -> Seq<u8>
    decreases ls.len(),
{
    if ls.len() == 0 {
        Seq::empty()
    } else if ls.len() == 1 {
        ls[0]
    } else {
        ls[0] + seq![10u8] + join_lines(ls.skip(1))
    }
}

/// Joining one more line appends a newline and that line.
pub proof fn lemma_join_push(ls: Seq<Seq<u8>>, x: Seq<u8>)
    ensures
        join_lines(ls.push(x)) == if ls.len() == 0 {
            x
        } else {
            join_lines(ls) + seq![10u8] + x
        },
    decreases ls.len(),
{
    if ls.len() == 0 {
        assert(ls.push(x)[0] == x);
    } else if ls.len() == 1 {
        assert(ls.push(x).skip(1) =~= seq![x]);
        assert(ls.push(x)[0] == ls[0]);
        assert(join_lines(seq![x]) == x);
    } else {
        assert(ls.push(x).skip(1) =~= ls.skip(1).push(x));
        lemma_join_push(ls.skip(1), x);
        assert(ls.push(x)[0] == ls[0]);
        assert(ls[0] + seq![10u8] + (join_lines(ls.skip(1)) + seq![10u8] + x) =~= (ls[0]
            + seq![10u8] + join_lines(ls.skip(1))) + seq![10u8] + x);
    }
}

/// Appends a copy of every byte of `src` to `dst`.
pub fn push_all(dst: &mut Vec<u8>, src: &Vec<u8>)
    ensures
        final (dst)@ == old(dst)@ + src@,
{
    let mut i: usize = 0;
    while i < src.len()
        invariant
            i <= src.len(),
            dst@ =~= old(dst)@ + src@.take(i as int),
        decreases src.len() - i,
    {
        dst.push(src[i]);
        assert(dst@ =~= old(dst)@ + src@.take(i + 1));
        i = i + 1;
    }
    assert(dst@ =~= old(dst)@ + src@);
}

/// Joins the lines with single newline bytes between them.
pub fn join_lines_bytes(ls: &Vec<Vec<u8>>) -> (r: Vec<u8>)
    ensures
        r@ == join_lines(ls.deep_view()),
{
    let ghost lv = ls.deep_view();
    let mut r: Vec<u8> = Vec::new();
    let mut i: usize = 0;
    proof {
        assert(lv.take(0) =~= Seq::<Seq<u8>>::empty());
    }
    while i < ls.len()
        invariant
            i <= ls.len(),
            lv == ls.deep_view(),
            r@ == join_lines(lv.take(i as int)),
        decreases ls.len() - i,
    {
        proof {
            assert(lv[i as int] =~= ls@[i as int]@);
            assert(lv.take(i + 1) =~= lv.take(i as int).push(lv[i as int]));
            lemma_join_push(lv.take(i as int), lv[i as int]);
        }
        if i > 0 {
            r.push(10);
        }
        push_all(&mut r, &ls[i]);
        proof {
            if i == 0 {
                assert(r@ =~= join_lines(lv.take(1)));
            } else {
                assert(r@ =~= join_lines(lv.take(i as int)) + seq![10u8] + lv[i as int]);
            }
        }
        i = i + 1;
    }
    proof {
        assert(lv.take(ls@.len() as int) =~= lv);
    }
    r
}

/// The decimal digits of `n`, most significant first.
pub open spec fn dec_of(n: nat) -> Seq<u8>
    decreases n,
{
    if n < 10 {
        seq![(48 + n) as u8]
    } else {
        dec_of(n / 10) + seq![(48 + n % 10) as u8]
    }
}

/// Renders `n` in decimal.
pub fn dec_bytes(n: u64) -> (r: Vec<u8>)
    ensures
        r@ == dec_of(n as nat),
    decreases n,
{
    if n < 10 {
        let mut r: Vec<u8> = Vec::new();
        r.push(48 + (n as u8));
        assert(r@ =~= dec_of(n as nat));
        r
    } else {
        let mut r = dec_bytes(n / 10);
        r.push(48 + ((n % 10) as u8));
        assert(r@ =~= dec_of(n as nat));
        r
    }
}

} // verus!
