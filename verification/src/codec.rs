//! The row-oriented exchange format of the staging step: one record per
//! line, fields separated by commas, in the order id, created_on,
//! location, temperature, humidity.  An optional measurement is an empty
//! field; a missing separator or a malformed number rejects the text.
//! Text fields must be ASCII and free of the separators, so the staging
//! text is ASCII throughout and its characters are exactly its bytes —
//! the copy channel's fixed-size byte chunks are the character chunks the
//! loader hands out.

use vstd::prelude::*;
use vstd::string::*;

use crate::decimal::{dec_rep, int_rep, is_digit, lemma_dec_rep_digits, lemma_parse_int_of_rep, parse_i64_range, parse_int_spec, push_i64_dec};
use crate::errors::PipelineError;
use crate::record::{Conditions, RecordView};

verus! {

/// What a text field may hold: ASCII only (so staging characters are
/// staging bytes), and none of the separators or framing characters of
/// the exchange format.
pub open spec fn char_ok(c: char) -> bool {
    (c as int) < 128 && c != ',' && c != '\n' && c != '\r' && c != '"'
}

pub open spec fn field_ok(s: Seq<char>) -> bool {
    forall|i: int| 0 <= i < s.len() ==> char_ok(#[trigger] s[i])
}

/// A record that the exchange format can carry without loss.
pub open spec fn encodable(r: RecordView) -> bool {
    &&& field_ok(r.id)
    &&& field_ok(r.location)
    &&& i64::MIN <= r.created_on <= i64::MAX
    &&& (r.temperature matches Some(t) ==> i64::MIN <= t <= i64::MAX)
    &&& (r.humidity matches Some(h) ==> i64::MIN <= h <= i64::MAX)
}

/// An optional measurement: an empty field for `None`.
pub open spec fn opt_rep(o: Option<int>) -> Seq<char> {
    match o {
        None => Seq::<char>::empty(),
        Some(v) => int_rep(v),
    }
}

/// One line of the staging text, without its terminating newline.
pub open spec fn line_body(r: RecordView) -> Seq<char> {
    r.id + seq![','] + int_rep(r.created_on) + seq![','] + r.location + seq![','] + opt_rep(
        r.temperature,
    ) + seq![','] + opt_rep(r.humidity)
}

/// One full line of the staging text.
pub open spec fn record_line(r: RecordView) -> Seq<char> {
    line_body(r) + seq!['\n']
}

/// The whole staging text of a batch, in batch order.
pub open spec fn staging_of(rs: Seq<RecordView>) -> Seq<char>
    decreases rs.len(),
{
    if rs.len() == 0 {
        Seq::<char>::empty()
    } else {
        record_line(rs[0]) + staging_of(rs.drop_first())
    }
}

/// The views of the records of a batch.
pub open spec fn batch_view(rs: Seq<Conditions>) -> Seq<RecordView> {
    rs.map_values(|r: Conditions| r@)
}

pub proof fn lemma_staging_push(vs: Seq<RecordView>, v: RecordView)
    ensures
        staging_of(vs.push(v)) == staging_of(vs) + record_line(v),
    decreases vs.len(),
{
    if vs.len() == 0 {
        assert(vs.push(v).drop_first() =~= Seq::<RecordView>::empty());
        assert(staging_of(Seq::<RecordView>::empty()) == Seq::<char>::empty());
        assert(vs.push(v)[0] == v);
        assert(staging_of(vs.push(v)) == record_line(v) + Seq::<char>::empty());
        assert(record_line(v) + Seq::<char>::empty() =~= Seq::<char>::empty() + record_line(v));
    } else {
        assert(vs.push(v).drop_first() =~= vs.drop_first().push(v));
        lemma_staging_push(vs.drop_first(), v);
        assert(vs.push(v)[0] == vs[0]);
        assert(record_line(vs[0]) + (staging_of(vs.drop_first()) + record_line(v)) =~= (record_line(
            vs[0],
        ) + staging_of(vs.drop_first())) + record_line(v));
    }
}

/// The index of the first occurrence of `c` in `s`, or `-1`.
pub open spec fn first_index_of(s: Seq<char>, c: char) -> int
    decreases s.len(),
{
    if s.len() == 0 {
        -1
    } else if s[0] == c {
        0
    } else {
        let r = first_index_of(s.drop_first(), c);
        if r < 0 {
            -1
        } else {
            1 + r
        }
    }
}

pub proof fn lemma_first_index(s: Seq<char>, c: char)
    ensures
        first_index_of(s, c) == -1 ==> forall|i: int| 0 <= i < s.len() ==> s[i] != c,
        first_index_of(s, c) >= 0 ==> 0 <= first_index_of(s, c) < s.len() && s[first_index_of(
            s,
            c,
        )] == c && forall|j: int| 0 <= j < first_index_of(s, c) ==> s[j] != c,
    decreases s.len(),
{
    if s.len() > 0 && s[0] != c {
        let t = s.drop_first();
        lemma_first_index(t, c);
        let f = first_index_of(s, c);
        let ft = first_index_of(t, c);
        if ft >= 0 {
            assert(f == 1 + ft);
            assert(s[f] == t[ft]);
            assert forall|j: int| 0 <= j < f implies s[j] != c by {
                if j > 0 {
                    assert(s[j] == t[j - 1]);
                    assert(t[j - 1] != c);
                }
            }
        } else {
            assert forall|i: int| 0 <= i < s.len() implies s[i] != c by {
                if i > 0 {
                    assert(s[i] == t[i - 1]);
                    assert(t[i - 1] != c);
                }
            }
        }
    }
}

pub proof fn lemma_first_index_is(s: Seq<char>, c: char, k: int)
    requires
        0 <= k < s.len(),
        s[k] == c,
        forall|j: int| 0 <= j < k ==> s[j] != c,
    ensures
        first_index_of(s, c) == k,
{
    lemma_first_index(s, c);
    let f = first_index_of(s, c);
    if f == -1 {
        assert(s[k] != c);
    } else {
        if f < k {
            assert(s[f] != c);
        }
        if f > k {
            assert(s[k] != c);
        }
    }
}

pub proof fn lemma_first_index_none(s: Seq<char>, c: char)
    requires
        forall|i: int| 0 <= i < s.len() ==> s[i] != c,
    ensures
        first_index_of(s, c) == -1,
{
    lemma_first_index(s, c);
    let f = first_index_of(s, c);
    if f >= 0 {
        assert(s[f] != c);
    }
}

/// The pieces of `s` between its commas, in order.
pub open spec fn split_commas(s: Seq<char>) -> Seq<Seq<char>>
    decreases s.len(),
{
    let k = first_index_of(s, ',');
    if k < 0 || k >= s.len() {
        seq![s]
    } else {
        seq![s.subrange(0, k)] + split_commas(s.subrange(k + 1, s.len() as int))
    }
}

/// Splitting starts with the first comma-free piece.
pub proof fn lemma_split_head(a: Seq<char>, b: Seq<char>)
    requires
        forall|i: int| 0 <= i < a.len() ==> a[i] != ',',
    ensures
        split_commas(a + seq![','] + b) == seq![a] + split_commas(b),
{
    let s = a + seq![','] + b;
    assert(s[a.len() as int] == ',');
    assert forall|j: int| 0 <= j < a.len() implies s[j] != ',' by {
        assert(s[j] == a[j]);
    }
    lemma_first_index_is(s, ',', a.len() as int);
    assert(s.subrange(0, a.len() as int) =~= a);
    assert(s.subrange(a.len() as int + 1, s.len() as int) =~= b);
}

/// A comma-free text splits into itself alone.
pub proof fn lemma_split_single(a: Seq<char>)
    requires
        forall|i: int| 0 <= i < a.len() ==> a[i] != ',',
    ensures
        split_commas(a) == seq![a],
{
    lemma_first_index_none(a, ',');
}

/// What an optional-measurement field means: empty is a missing value.
pub open spec fn parse_opt_field(f: Seq<char>) -> Option<Option<int>> {
    if f.len() == 0 {
        Some(None)
    } else {
        match parse_int_spec(f) {
            None => None,
            Some(v) => Some(Some(v)),
        }
    }
}

/// What one line of staging text means: exactly five fields, with a
/// well-formed instant and optional measurements.
pub open spec fn parse_line(line: Seq<char>) -> Option<RecordView> {
    let fs = split_commas(line);
    if fs.len() != 5 {
        None
    } else {
        match parse_int_spec(fs[1]) {
            None => None,
            Some(created) => match parse_opt_field(fs[3]) {
                None => None,
                Some(t) => match parse_opt_field(fs[4]) {
                    None => None,
                    Some(h) => Some(
                        RecordView {
                            id: fs[0],
                            created_on: created,
                            location: fs[2],
                            temperature: t,
                            humidity: h,
                        },
                    ),
                },
            },
        }
    }
}

/// What a whole staging text means: one record per newline-terminated
/// line, in order; `None` when any line is malformed or unterminated.
pub open spec fn parse_all(s: Seq<char>) -> Option<Seq<RecordView>>
    decreases s.len(),
{
    if s.len() == 0 {
        Some(Seq::<RecordView>::empty())
    } else {
        let k = first_index_of(s, '\n');
        if k < 0 || k >= s.len() {
            None
        } else {
            match parse_line(s.subrange(0, k)) {
                None => None,
                Some(r) => match parse_all(s.subrange(k + 1, s.len() as int)) {
                    None => None,
                    Some(rest) => Some(seq![r] + rest),
                },
            }
        }
    }
}

/// The first position of `c` in `s[from..to]`, scanning by characters.
fn find_in_range(s: &str, from: usize, to: usize, c: char) -> (r: Option<usize>)
    requires
        from <= to <= s@.len(),
    ensures
        r matches Some(j) ==> (from <= j < to && first_index_of(
            s@.subrange(from as int, to as int),
            c,
        ) == j - from),
        r is None ==> first_index_of(s@.subrange(from as int, to as int), c) == -1,
{
    let ghost range = s@.subrange(from as int, to as int);
    let mut i = from;
    while i < to
        invariant
            from <= i <= to <= s@.len(),
            range == s@.subrange(from as int, to as int),
            forall|j: int| from <= j < i ==> s@[j] != c,
        decreases to - i,
    {
        if s.get_char(i) == c {
            proof {
                assert(range[i - from] == s@[i as int]);
                assert forall|j: int| 0 <= j < i - from implies range[j] != c by {
                    assert(range[j] == s@[from + j]);
                }
                lemma_first_index_is(range, c, i - from);
            }
            return Some(i);
        }
        i = i + 1;
    }
    proof {
        assert forall|j: int| 0 <= j < range.len() implies range[j] != c by {
            assert(range[j] == s@[from + j]);
        }
        lemma_first_index_none(range, c);
    }
    None
}

/// Every split has at least one piece.
proof fn lemma_split_len(s: Seq<char>)
    ensures
        split_commas(s).len() >= 1,
{
}

/// Reads one line of staging text at `s[start..end]` (without its
/// newline), meaning `parse_line` over that range.
fn parse_line_at(s: &str, start: usize, end: usize) -> (r: Option<Conditions>)
    requires
        start <= end <= s@.len(),
    ensures
        r matches Some(rec) ==> parse_line(s@.subrange(start as int, end as int)) == Some(rec@),
        r is None ==> parse_line(s@.subrange(start as int, end as int)) is None,
{
    let ghost line = s@.subrange(start as int, end as int);
    let c1 = match find_in_range(s, start, end, ',') {
        Some(j) => j,
        None => {
            proof {
                assert(split_commas(line) == seq![line]);
            }
            return None;
        },
    };
    let ghost rest2 = s@.subrange(c1 + 1, end as int);
    proof {
        assert(line.subrange(0, c1 - start) =~= s@.subrange(start as int, c1 as int));
        assert(line.subrange(c1 - start + 1, line.len() as int) =~= rest2);
        assert(split_commas(line) == seq![s@.subrange(start as int, c1 as int)] + split_commas(
            rest2,
        ));
    }
    let c2 = match find_in_range(s, c1 + 1, end, ',') {
        Some(j) => j,
        None => {
            proof {
                assert(split_commas(rest2) == seq![rest2]);
            }
            return None;
        },
    };
    let ghost rest3 = s@.subrange(c2 + 1, end as int);
    proof {
        assert(rest2.subrange(0, c2 - (c1 + 1)) =~= s@.subrange(c1 + 1, c2 as int));
        assert(rest2.subrange(c2 - (c1 + 1) + 1, rest2.len() as int) =~= rest3);
        assert(split_commas(rest2) == seq![s@.subrange(c1 + 1, c2 as int)] + split_commas(rest3));
    }
    let c3 = match find_in_range(s, c2 + 1, end, ',') {
        Some(j) => j,
        None => {
            proof {
                assert(split_commas(rest3) == seq![rest3]);
            }
            return None;
        },
    };
    let ghost rest4 = s@.subrange(c3 + 1, end as int);
    proof {
        assert(rest3.subrange(0, c3 - (c2 + 1)) =~= s@.subrange(c2 + 1, c3 as int));
        assert(rest3.subrange(c3 - (c2 + 1) + 1, rest3.len() as int) =~= rest4);
        assert(split_commas(rest3) == seq![s@.subrange(c2 + 1, c3 as int)] + split_commas(rest4));
    }
    let c4 = match find_in_range(s, c3 + 1, end, ',') {
        Some(j) => j,
        None => {
            proof {
                assert(split_commas(rest4) == seq![rest4]);
            }
            return None;
        },
    };
    let ghost rest5 = s@.subrange(c4 + 1, end as int);
    proof {
        assert(rest4.subrange(0, c4 - (c3 + 1)) =~= s@.subrange(c3 + 1, c4 as int));
        assert(rest4.subrange(c4 - (c3 + 1) + 1, rest4.len() as int) =~= rest5);
        assert(split_commas(rest4) == seq![s@.subrange(c3 + 1, c4 as int)] + split_commas(rest5));
    }
    match find_in_range(s, c4 + 1, end, ',') {
        Some(_) => {
            proof {
                let k5 = first_index_of(rest5, ',');
                assert(split_commas(rest5) == seq![rest5.subrange(0, k5)] + split_commas(
                    rest5.subrange(k5 + 1, rest5.len() as int),
                ));
                lemma_split_len(rest5.subrange(k5 + 1, rest5.len() as int));
                assert(split_commas(line).len() >= 6);
            }
            return None;
        },
        None => {
            proof {
                assert(split_commas(rest5) == seq![rest5]);
            }
        },
    }
    let ghost f0 = s@.subrange(start as int, c1 as int);
    let ghost f1 = s@.subrange(c1 + 1, c2 as int);
    let ghost f2 = s@.subrange(c2 + 1, c3 as int);
    let ghost f3 = s@.subrange(c3 + 1, c4 as int);
    proof {
        assert(split_commas(line) =~= seq![f0, f1, f2, f3, rest5]);
    }
    let created = match parse_i64_range(s, c1 + 1, c2) {
        Some(v) => v,
        None => {
            return None;
        },
    };
    let temperature: Option<i64> = if c3 + 1 == c4 {
        None
    } else {
        match parse_i64_range(s, c3 + 1, c4) {
            Some(v) => Some(v),
            None => {
                return None;
            },
        }
    };
    let humidity: Option<i64> = if c4 + 1 == end {
        None
    } else {
        match parse_i64_range(s, c4 + 1, end) {
            Some(v) => Some(v),
            None => {
                return None;
            },
        }
    };
    let rec = Conditions {
        id: s.substring_char(start, c1).to_owned(),
        created_on: created,
        location: s.substring_char(c2 + 1, c3).to_owned(),
        temperature,
        humidity,
    };
    proof {
        assert(rec@.id == f0);
        assert(rec@.location == f2);
        assert(parse_line(line) == Some(rec@));
    }
    Some(rec)
}

/// Prefixes a parsed tail with already-parsed records, keeping failure.
pub open spec fn compose(pre: Seq<RecordView>, t: Option<Seq<RecordView>>) -> Option<
    Seq<RecordView>,
> {
    match t {
        None => None,
        Some(rest) => Some(pre + rest),
    }
}

/// Reads a whole staging text back into records, meaning `parse_all`.
pub fn parse_staging(s: &str) -> (r: Option<Vec<Conditions>>)
    ensures
        r matches Some(v) ==> parse_all(s@) == Some(batch_view(v@)),
        r is None ==> parse_all(s@) is None,
{
    let n = s.unicode_len();
    let mut out: Vec<Conditions> = Vec::new();
    let mut pos: usize = 0;
    proof {
        assert(s@.subrange(0, n as int) =~= s@);
        assert(batch_view(out@) =~= Seq::<RecordView>::empty());
        assert(forall|rest: Seq<RecordView>|
            #![auto]
            Seq::<RecordView>::empty() + rest =~= rest);
    }
    while pos < n
        invariant
            0 <= pos <= n,
            n == s@.len(),
            parse_all(s@) == compose(batch_view(out@), parse_all(s@.subrange(pos as int, n as int))),
        decreases n - pos,
    {
        let ghost tail_old = s@.subrange(pos as int, n as int);
        let ghost pre_old = batch_view(out@);
        let nl = match find_in_range(s, pos, n, '\n') {
            Some(j) => j,
            None => {
                proof {
                    assert(parse_all(tail_old) is None);
                }
                return None;
            },
        };
        proof {
            assert(tail_old.subrange(0, nl - pos) =~= s@.subrange(pos as int, nl as int));
            assert(tail_old.subrange(nl - pos + 1, tail_old.len() as int) =~= s@.subrange(
                nl + 1,
                n as int,
            ));
        }
        let rec = match parse_line_at(s, pos, nl) {
            Some(rec) => rec,
            None => {
                proof {
                    assert(parse_all(tail_old) is None);
                }
                return None;
            },
        };
        out.push(rec);
        proof {
            let pre_new = batch_view(out@);
            assert(pre_new =~= pre_old.push(rec@));
            let tail_new = s@.subrange(nl + 1, n as int);
            assert(parse_all(tail_old) == compose(seq![rec@], parse_all(tail_new)));
            assert(forall|rest: Seq<RecordView>|
                #![auto]
                pre_old + (seq![rec@] + rest) =~= pre_new + rest);
            assert(compose(pre_old, parse_all(tail_old)) == compose(pre_new, parse_all(tail_new)));
        }
        pos = nl + 1;
    }
    proof {
        assert(s@.subrange(pos as int, n as int) =~= Seq::<char>::empty());
        assert(parse_all(Seq::<char>::empty()) == Some(Seq::<RecordView>::empty()));
        assert(batch_view(out@) + Seq::<RecordView>::empty() =~= batch_view(out@));
    }
    Some(out)
}

/// Whether `s` is free of the format's separators and framing characters.
pub fn text_field_ok(s: &str) -> (b: bool)
    ensures
        b == field_ok(s@),
{
    let n = s.unicode_len();
    let mut i: usize = 0;
    while i < n
        invariant
            0 <= i <= n,
            n == s@.len(),
            forall|j: int| 0 <= j < i ==> char_ok(#[trigger] s@[j]),
        decreases n - i,
    {
        let c = s.get_char(i);
        if c as u32 >= 128 || c == ',' || c == '\n' || c == '\r' || c == '"' {
            return false;
        }
        i = i + 1;
    }
    true
}

/// Appends the exchange-format line of `r` to `out`; leaves `out`
/// untouched and reports failure when a text field holds a separator.
pub fn encode_record(r: &Conditions, out: &mut String) -> (ok: bool)
    ensures
        ok ==> (final(out)@ == old(out)@ + record_line(r@) && encodable(r@)),
        !ok ==> (final(out)@ == old(out)@ && !encodable(r@)),
{
    proof {
        reveal_strlit(",");
        reveal_strlit("\n");
    }
    if !text_field_ok(r.id.as_str()) {
        return false;
    }
    if !text_field_ok(r.location.as_str()) {
        return false;
    }
    out.append(r.id.as_str());
    out.append(",");
    push_i64_dec(out, r.created_on);
    out.append(",");
    out.append(r.location.as_str());
    out.append(",");
    match r.temperature {
        Some(t) => push_i64_dec(out, t),
        None => {},
    }
    out.append(",");
    match r.humidity {
        Some(h) => push_i64_dec(out, h),
        None => {},
    }
    out.append("\n");
    proof {
        assert(out@ =~= old(out)@ + record_line(r@));
    }
    true
}

/// Serializes a whole batch into the staging text, in batch order.
/// Fails with `SerializationFailed` exactly when some record of the
/// batch cannot be carried by the format.
pub fn encode_batch(rs: &Vec<Conditions>) -> (r: Result<String, PipelineError>)
    ensures
        r matches Ok(s) ==> (s@ == staging_of(batch_view(rs@)) && forall|i: int|
            0 <= i < rs@.len() ==> encodable(#[trigger] rs@[i]@)),
        r matches Err(e) ==> (e is SerializationFailed && exists|i: int|
            0 <= i < rs@.len() && !encodable(#[trigger] rs@[i]@)),
{
    let mut out = String::new();
    let mut k: usize = 0;
    proof {
        assert(batch_view(rs@.subrange(0, 0)) =~= Seq::<RecordView>::empty());
    }
    while k < rs.len()
        invariant
            0 <= k <= rs@.len(),
            out@ == staging_of(batch_view(rs@.subrange(0, k as int))),
            forall|i: int| 0 <= i < k ==> encodable(#[trigger] rs@[i]@),
        decreases rs@.len() - k,
    {
        let ok = encode_record(&rs[k], &mut out);
        if !ok {
            return Err(PipelineError::SerializationFailed);
        }
        proof {
            assert(batch_view(rs@.subrange(0, k + 1)) =~= batch_view(
                rs@.subrange(0, k as int),
            ).push(rs@[k as int]@));
            lemma_staging_push(batch_view(rs@.subrange(0, k as int)), rs@[k as int]@);
        }
        k = k + 1;
    }
    proof {
        assert(rs@.subrange(0, rs@.len() as int) =~= rs@);
    }
    Ok(out)
}

/// Characters absent from two texts are absent from their concatenation.
proof fn lemma_clean_append(a: Seq<char>, b: Seq<char>, c: char)
    requires
        forall|i: int| 0 <= i < a.len() ==> a[i] != c,
        forall|i: int| 0 <= i < b.len() ==> b[i] != c,
    ensures
        forall|i: int| 0 <= i < (a + b).len() ==> (a + b)[i] != c,
{
    assert forall|i: int| 0 <= i < (a + b).len() implies (a + b)[i] != c by {
        if i < a.len() {
            assert((a + b)[i] == a[i]);
        } else {
            assert((a + b)[i] == b[i - a.len()]);
        }
    }
}

/// A decimal representation holds only ASCII characters, none of them a
/// separator of the format.
proof fn lemma_int_rep_clean(v: int)
    ensures
        forall|i: int| 0 <= i < int_rep(v).len() ==> (#[trigger] int_rep(v)[i]) != ','
            && int_rep(v)[i] != '\n' && (int_rep(v)[i] as int) < 128,
{
    if v < 0 {
        lemma_dec_rep_digits((-v) as nat);
        assert forall|i: int| 0 <= i < int_rep(v).len() implies (#[trigger] int_rep(v)[i]) != ','
            && int_rep(v)[i] != '\n' && (int_rep(v)[i] as int) < 128 by {
            if i == 0 {
                assert(int_rep(v)[0] == '-');
            } else {
                assert(int_rep(v)[i] == dec_rep((-v) as nat)[i - 1]);
                assert(is_digit(dec_rep((-v) as nat)[i - 1]));
            }
        }
    } else {
        lemma_dec_rep_digits(v as nat);
        assert forall|i: int| 0 <= i < int_rep(v).len() implies (#[trigger] int_rep(v)[i]) != ','
            && int_rep(v)[i] != '\n' && (int_rep(v)[i] as int) < 128 by {
            assert(is_digit(dec_rep(v as nat)[i]));
        }
    }
}

/// An optional-measurement field holds only ASCII characters, none of
/// them a separator of the format.
proof fn lemma_opt_rep_clean(o: Option<int>)
    ensures
        forall|i: int| 0 <= i < opt_rep(o).len() ==> (#[trigger] opt_rep(o)[i]) != ','
            && opt_rep(o)[i] != '\n' && (opt_rep(o)[i] as int) < 128,
{
    if o is Some {
        lemma_int_rep_clean(o->0);
    }
}

/// A line written by the encoder reads back as its record.
proof fn lemma_parse_line_of_record(r: RecordView)
    requires
        encodable(r),
    ensures
        parse_line(line_body(r)) == Some(r),
{
    let f0 = r.id;
    let f1 = int_rep(r.created_on);
    let f2 = r.location;
    let f3 = opt_rep(r.temperature);
    let f4 = opt_rep(r.humidity);
    lemma_int_rep_clean(r.created_on);
    lemma_opt_rep_clean(r.temperature);
    lemma_opt_rep_clean(r.humidity);
    let rest3 = f3 + seq![','] + f4;
    let rest2 = f2 + seq![','] + rest3;
    let rest1 = f1 + seq![','] + rest2;
    assert(line_body(r) =~= f0 + seq![','] + rest1);
    lemma_split_head(f0, rest1);
    lemma_split_head(f1, rest2);
    lemma_split_head(f2, rest3);
    lemma_split_head(f3, f4);
    lemma_split_single(f4);
    let fs = split_commas(line_body(r));
    assert(fs =~= seq![f0, f1, f2, f3, f4]);
    lemma_parse_int_of_rep(r.created_on);
    assert(parse_int_spec(fs[1]) == Some(r.created_on));
    match r.temperature {
        Some(t) => {
            lemma_dec_rep_digits(if t < 0 { (-t) as nat } else { t as nat });
            assert(f3.len() > 0);
            lemma_parse_int_of_rep(t);
            assert(parse_opt_field(fs[3]) == Some(Some(t)));
        },
        None => {
            assert(parse_opt_field(fs[3]) == Some(None::<int>));
        },
    }
    match r.humidity {
        Some(h) => {
            lemma_dec_rep_digits(if h < 0 { (-h) as nat } else { h as nat });
            assert(f4.len() > 0);
            lemma_parse_int_of_rep(h);
            assert(parse_opt_field(fs[4]) == Some(Some(h)));
        },
        None => {
            assert(parse_opt_field(fs[4]) == Some(None::<int>));
        },
    }
}

/// The round trip of the staging step: a staging text written from any
/// batch of encodable records reads back as exactly that batch, record
/// for record and field for field.
pub proof fn lemma_round_trip(rs: Seq<RecordView>)
    requires
        forall|i: int| 0 <= i < rs.len() ==> encodable(#[trigger] rs[i]),
    ensures
        parse_all(staging_of(rs)) == Some(rs),
    decreases rs.len(),
{
    if rs.len() == 0 {
        assert(rs =~= Seq::<RecordView>::empty());
    } else {
        let r = rs[0];
        let body = line_body(r);
        let tail = staging_of(rs.drop_first());
        let s = staging_of(rs);
        assert(s == record_line(r) + tail);
        assert(s =~= (body + seq!['\n']) + tail);
        lemma_int_rep_clean(r.created_on);
        lemma_opt_rep_clean(r.temperature);
        lemma_opt_rep_clean(r.humidity);
        assert forall|j: int| 0 <= j < body.len() implies body[j] != '\n' by {
            lemma_body_pieces(r, j);
        }
        assert(s[body.len() as int] == '\n');
        assert forall|j: int| 0 <= j < body.len() implies s[j] != '\n' by {
            assert(s[j] == body[j]);
        }
        lemma_first_index_is(s, '\n', body.len() as int);
        assert(s.subrange(0, body.len() as int) =~= body);
        lemma_parse_line_of_record(r);
        assert(s.subrange(body.len() as int + 1, s.len() as int) =~= tail);
        assert(forall|i: int|
            0 <= i < rs.drop_first().len() ==> rs.drop_first()[i] == rs[i + 1]);
        lemma_round_trip(rs.drop_first());
        assert(parse_all(s) == Some(seq![r] + rs.drop_first()));
        assert(seq![r] + rs.drop_first() =~= rs);
    }
}

/// Every character of a line body comes from a field or a comma, so it
/// is ASCII and no newline appears in it.
proof fn lemma_body_pieces(r: RecordView, j: int)
    requires
        encodable(r),
        0 <= j < line_body(r).len(),
        forall|i: int| 0 <= i < int_rep(r.created_on).len() ==> (#[trigger] int_rep(
            r.created_on,
        )[i]) != ',' && int_rep(r.created_on)[i] != '\n' && (int_rep(r.created_on)[i] as int)
            < 128,
        forall|i: int| 0 <= i < opt_rep(r.temperature).len() ==> (#[trigger] opt_rep(
            r.temperature,
        )[i]) != ',' && opt_rep(r.temperature)[i] != '\n' && (opt_rep(r.temperature)[i] as int)
            < 128,
        forall|i: int| 0 <= i < opt_rep(r.humidity).len() ==> (#[trigger] opt_rep(
            r.humidity,
        )[i]) != ',' && opt_rep(r.humidity)[i] != '\n' && (opt_rep(r.humidity)[i] as int) < 128,
    ensures
        line_body(r)[j] != '\n',
        (line_body(r)[j] as int) < 128,
{
    let f0 = r.id;
    let f1 = int_rep(r.created_on);
    let f2 = r.location;
    let f3 = opt_rep(r.temperature);
    let f4 = opt_rep(r.humidity);
    let p0 = f0.len() as int;
    let p1 = p0 + 1 + f1.len();
    let p2 = p1 + 1 + f2.len();
    let p3 = p2 + 1 + f3.len();
    let body = line_body(r);
    if j < p0 {
        assert(body[j] == f0[j]);
        assert(char_ok(f0[j]));
    } else if j == p0 {
        assert(body[j] == ',');
    } else if j < p1 {
        assert(body[j] == f1[j - p0 - 1]);
    } else if j == p1 {
        assert(body[j] == ',');
    } else if j < p2 {
        assert(body[j] == f2[j - p1 - 1]);
        assert(char_ok(f2[j - p1 - 1]));
    } else if j == p2 {
        assert(body[j] == ',');
    } else if j < p3 {
        assert(body[j] == f3[j - p2 - 1]);
    } else if j == p3 {
        assert(body[j] == ',');
    } else {
        assert(body[j] == f4[j - p3 - 1]);
    }
}

/// The staging text of encodable records is ASCII throughout, so its
/// characters are exactly its bytes: a fixed-size character chunk of it
/// is a fixed-size byte chunk.
pub proof fn lemma_staging_ascii(rs: Seq<RecordView>)
    requires
        forall|i: int| 0 <= i < rs.len() ==> encodable(#[trigger] rs[i]),
    ensures
        forall|j: int| 0 <= j < staging_of(rs).len() ==> (#[trigger] staging_of(rs)[j] as int)
            < 128,
    decreases rs.len(),
{
    if rs.len() > 0 {
        let r = rs[0];
        let body = line_body(r);
        let tail = staging_of(rs.drop_first());
        let s = staging_of(rs);
        lemma_int_rep_clean(r.created_on);
        lemma_opt_rep_clean(r.temperature);
        lemma_opt_rep_clean(r.humidity);
        assert(forall|i: int|
            0 <= i < rs.drop_first().len() ==> rs.drop_first()[i] == rs[i + 1]);
        lemma_staging_ascii(rs.drop_first());
        assert(s =~= (body + seq!['\n']) + tail);
        assert forall|j: int| 0 <= j < s.len() implies (#[trigger] s[j] as int) < 128 by {
            if j < body.len() {
                assert(s[j] == body[j]);
                lemma_body_pieces(r, j);
            } else if j == body.len() {
                assert(s[j] == '\n');
            } else {
                assert(s[j] == tail[j - body.len() - 1]);
            }
        }
    }
}

} // verus!
