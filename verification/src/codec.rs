use vstd::prelude::*;

use crate::dataset::{model_wf, views2, views3, TableModel, TabularDataset};
use crate::errors::EtlError;
use vstd::slice::{slice_subrange, slice_to_vec};

verus! {

/// Field delimiter of the encoding.
pub const COMMA: u8 = 44;

/// Quote character; a quoted field may contain delimiters and line
/// terminators, and an embedded quote is escaped by doubling it.
pub const QUOTE: u8 = 34;

/// Line terminator of the encoding, fixed.
pub const LF: u8 = 10;

// ---------------------------------------------------------------------------
// Specification of decoding: a recursive descent over the input bytes.
// Each parser consumes a prefix and yields the remaining suffix.
// ---------------------------------------------------------------------------

/// Parse an unquoted field: the bytes up to the first delimiter or line
/// terminator (or end of input). Always succeeds; the rest begins with the
/// byte that ended the field, if any.
pub open spec fn parse_unquoted(s: Seq<u8>) -> (Seq<u8>, Seq<u8>)
    decreases s.len(),
{
    if s.len() == 0 || s[0] == COMMA || s[0] == LF {
        (Seq::empty(), s)
    } else {
        let p = parse_unquoted(s.skip(1));
        (seq![s[0]] + p.0, p.1)
    }
}

/// Parse the remainder of a quoted field, the opening quote already
/// consumed. A doubled quote stands for one quote byte; a single quote
/// closes the field and must be followed by a delimiter, a line
/// terminator, or the end of input. Fails when the quote is unterminated
/// or stray bytes follow the closing quote.
pub open spec fn parse_quoted(s: Seq<u8>) -> Option<(Seq<u8>, Seq<u8>)>
    decreases s.len(),
{
    if s.len() == 0 {
        None
    } else if s[0] == QUOTE {
        if s.len() >= 2 && s[1] == QUOTE {
            match parse_quoted(s.skip(2)) {
                None => None,
                Some(p) => Some((seq![QUOTE] + p.0, p.1)),
            }
        } else {
            let r = s.skip(1);
            if r.len() == 0 || r[0] == COMMA || r[0] == LF {
                Some((Seq::empty(), r))
            } else {
                None
            }
        }
    } else {
        match parse_quoted(s.skip(1)) {
            None => None,
            Some(p) => Some((seq![s[0]] + p.0, p.1)),
        }
    }
}

/// Parse one field: quoted when the input begins with a quote, unquoted
/// otherwise.
pub open spec fn parse_field(s: Seq<u8>) -> Option<(Seq<u8>, Seq<u8>)> {
    if s.len() > 0 && s[0] == QUOTE {
        parse_quoted(s.skip(1))
    } else {
        Some(parse_unquoted(s))
    }
}

/// The rest left by an unquoted parse is never longer than the input.
pub proof fn lemma_parse_unquoted_len(s: Seq<u8>)
    ensures
        parse_unquoted(s).1.len() <= s.len(),
    decreases s.len(),
{
    if !(s.len() == 0 || s[0] == COMMA || s[0] == LF) {
        lemma_parse_unquoted_len(s.skip(1));
    }
}

/// The rest left by a successful quoted parse is strictly shorter than the
/// input: the closing quote is always consumed.
pub proof fn lemma_parse_quoted_len(s: Seq<u8>)
    ensures
        parse_quoted(s) matches Some(p) ==> p.1.len() < s.len(),
    decreases s.len(),
{
    if s.len() == 0 {
    } else if s[0] == QUOTE {
        if s.len() >= 2 && s[1] == QUOTE {
            lemma_parse_quoted_len(s.skip(2));
        }
    } else {
        lemma_parse_quoted_len(s.skip(1));
    }
}

/// The rest left by a successful field parse is never longer than the input.
pub proof fn lemma_parse_field_len(s: Seq<u8>)
    ensures
        parse_field(s) matches Some(p) ==> p.1.len() <= s.len(),
{
    if s.len() > 0 && s[0] == QUOTE {
        lemma_parse_quoted_len(s.skip(1));
    } else {
        lemma_parse_unquoted_len(s);
    }
}

/// Parse one record: fields separated by delimiters, ended by a line
/// terminator (consumed) or the end of input. Always yields at least one
/// field.
pub open spec fn parse_record(s: Seq<u8>) -> Option<(Seq<Seq<u8>>, Seq<u8>)>
    decreases s.len(),
    via parse_record_dec
{
    match parse_field(s) {
        None => None,
        Some(p) => {
            if p.1.len() == 0 {
                Some((seq![p.0], p.1))
            } else if p.1[0] == LF {
                Some((seq![p.0], p.1.skip(1)))
            } else {
                match parse_record(p.1.skip(1)) {
                    None => None,
                    Some(q) => Some((seq![p.0] + q.0, q.1)),
                }
            }
        },
    }
}

#[via_fn]
proof fn parse_record_dec(s: Seq<u8>) {
    lemma_parse_field_len(s);
}

/// A successful record parse leaves a rest no longer than the input, and
/// strictly shorter when the input is nonempty.
pub proof fn lemma_parse_record_len(s: Seq<u8>)
    ensures
        parse_record(s) matches Some(p) ==> p.1.len() <= s.len() && (s.len() > 0
            ==> p.1.len() < s.len()),
    decreases s.len(),
{
    lemma_parse_field_len(s);
    match parse_field(s) {
        None => {},
        Some(p) => {
            if p.1.len() == 0 {
            } else if p.1[0] == LF {
            } else {
                lemma_parse_record_len(p.1.skip(1));
            }
        },
    }
}

/// Parse a whole input into its records; the empty input holds none.
pub open spec fn parse_rows(s: Seq<u8>) -> Option<Seq<Seq<Seq<u8>>>>
    decreases s.len(),
    via parse_rows_dec
{
    if s.len() == 0 {
        Some(Seq::empty())
    } else {
        match parse_record(s) {
            None => None,
            Some(p) => match parse_rows(p.1) {
                None => None,
                Some(rest) => Some(seq![p.0] + rest),
            },
        }
    }
}

#[via_fn]
proof fn parse_rows_dec(s: Seq<u8>) {
    lemma_parse_record_len(s);
}

/// What decoding means. The first record is the header of column names;
/// every further record is a data row. Decoding fails on an empty input,
/// on any field-parse failure, and on a table that breaks the dataset
/// invariant (a row whose field count differs from the header's, or a
/// duplicated column name).
pub open spec fn spec_decode(s: Seq<u8>) -> Option<TableModel> {
    if s.len() == 0 {
        None
    } else {
        match parse_rows(s) {
            None => None,
            Some(recs) => {
                if recs.len() == 0 {
                    None
                } else {
                    let m = TableModel { names: recs[0], rows: recs.skip(1) };
                    if model_wf(m) {
                        Some(m)
                    } else {
                        None
                    }
                }
            },
        }
    }
}

// ---------------------------------------------------------------------------
// Specification of encoding.
// ---------------------------------------------------------------------------

/// A field is quoted exactly when it contains a delimiter, a quote, or a
/// line terminator.
pub open spec fn field_needs_quoting(f: Seq<u8>) -> bool {
    f.contains(COMMA) || f.contains(QUOTE) || f.contains(LF)
}

/// Double every quote byte of a field.
pub open spec fn escape_quotes(f: Seq<u8>) -> Seq<u8>
    decreases f.len(),
{
    if f.len() == 0 {
        f
    } else if f[0] == QUOTE {
        seq![QUOTE, QUOTE] + escape_quotes(f.skip(1))
    } else {
        seq![f[0]] + escape_quotes(f.skip(1))
    }
}

/// Encode one field, quoting it only when needed.
pub open spec fn encode_field(f: Seq<u8>) -> Seq<u8> {
    if field_needs_quoting(f) {
        seq![QUOTE] + escape_quotes(f) + seq![QUOTE]
    } else {
        f
    }
}

/// Encode one record: its fields joined by the delimiter, without the
/// trailing line terminator.
pub open spec fn encode_record(fs: Seq<Seq<u8>>) -> Seq<u8>
    decreases fs.len(),
{
    if fs.len() == 0 {
        Seq::empty()
    } else if fs.len() == 1 {
        encode_field(fs[0])
    } else {
        encode_field(fs[0]) + seq![COMMA] + encode_record(fs.skip(1))
    }
}

/// Encode records, each ended by the line terminator.
pub open spec fn encode_records(recs: Seq<Seq<Seq<u8>>>) -> Seq<u8>
    decreases recs.len(),
{
    if recs.len() == 0 {
        Seq::empty()
    } else {
        encode_record(recs[0]) + seq![LF] + encode_records(recs.skip(1))
    }
}

/// What encoding means: the header record first, then the rows, in order.
pub open spec fn spec_encode(m: TableModel) -> Seq<u8> {
    encode_records(seq![m.names] + m.rows)
}

/// Encoding a header record and rows separately agrees with encoding them
/// as one sequence of records.
pub proof fn lemma_encode_records_cons(a: Seq<Seq<u8>>, rs: Seq<Seq<Seq<u8>>>)
    ensures
        encode_records(seq![a] + rs) == encode_record(a) + seq![LF] + encode_records(rs),
{
    let recs = seq![a] + rs;
    assert(recs.len() >= 1 && recs[0] == a);
    assert(recs.skip(1) =~= rs);
}

// ---------------------------------------------------------------------------
// Round trip: decoding inverts encoding on every well-formed table.
// ---------------------------------------------------------------------------

/// A byte absent from a sequence is absent from its tail.
proof fn lemma_skip_not_contains(f: Seq<u8>, x: u8)
    requires
        !f.contains(x),
        f.len() > 0,
    ensures
        !f.skip(1).contains(x),
{
    if f.skip(1).contains(x) {
        let i = choose|i: int| 0 <= i < f.skip(1).len() && f.skip(1)[i] == x;
        assert(f[i + 1] == x);
        assert(f.contains(x));
    }
}

/// A byte absent from a nonempty sequence is not its head.
proof fn lemma_head_not(f: Seq<u8>, x: u8)
    requires
        !f.contains(x),
        f.len() > 0,
    ensures
        f[0] != x,
{
    if f[0] == x {
        assert(f.contains(x));
    }
}

/// An unquoted parse of an unquoted field followed by a delimiter, a line
/// terminator or nothing recovers the field exactly.
pub proof fn lemma_parse_unquoted_encode(f: Seq<u8>, r: Seq<u8>)
    requires
        !field_needs_quoting(f),
        r.len() == 0 || r[0] == COMMA || r[0] == LF,
    ensures
        parse_unquoted(f + r) == (f, r),
    decreases f.len(),
{
    let s = f + r;
    if f.len() == 0 {
        assert(s =~= r);
        assert(parse_unquoted(s).0 =~= f);
    } else {
        lemma_head_not(f, COMMA);
        lemma_head_not(f, LF);
        assert(s[0] == f[0]);
        assert(s.skip(1) =~= f.skip(1) + r);
        lemma_skip_not_contains(f, COMMA);
        lemma_skip_not_contains(f, QUOTE);
        lemma_skip_not_contains(f, LF);
        lemma_parse_unquoted_encode(f.skip(1), r);
        assert(parse_unquoted(s).0 =~= seq![f[0]] + f.skip(1));
        assert(seq![f[0]] + f.skip(1) =~= f);
    }
}

/// A quoted parse of an escaped field, its closing quote, and a following
/// delimiter, line terminator or nothing recovers the field exactly.
pub proof fn lemma_parse_quoted_encode(f: Seq<u8>, r: Seq<u8>)
    requires
        r.len() == 0 || r[0] == COMMA || r[0] == LF,
    ensures
        parse_quoted(escape_quotes(f) + seq![QUOTE] + r) == Some((f, r)),
    decreases f.len(),
{
    let s = escape_quotes(f) + seq![QUOTE] + r;
    if f.len() == 0 {
        assert(s =~= seq![QUOTE] + r);
        assert(s[0] == QUOTE);
        assert(s.skip(1) =~= r);
        assert(s.len() >= 2 ==> s[1] == r[0]);
        assert(parse_quoted(s) == Some((Seq::<u8>::empty(), s.skip(1))));
        assert(parse_quoted(s).unwrap().0 =~= f);
    } else if f[0] == QUOTE {
        assert(escape_quotes(f) == seq![QUOTE, QUOTE] + escape_quotes(f.skip(1)));
        assert(s[0] == QUOTE && s.len() >= 2 && s[1] == QUOTE);
        assert(s.skip(2) =~= escape_quotes(f.skip(1)) + seq![QUOTE] + r);
        lemma_parse_quoted_encode(f.skip(1), r);
        assert(parse_quoted(s) == Some((seq![QUOTE] + f.skip(1), r)));
        assert(seq![QUOTE] + f.skip(1) =~= f);
    } else {
        assert(escape_quotes(f) == seq![f[0]] + escape_quotes(f.skip(1)));
        assert(s[0] == f[0] && f[0] != QUOTE);
        assert(s.skip(1) =~= escape_quotes(f.skip(1)) + seq![QUOTE] + r);
        lemma_parse_quoted_encode(f.skip(1), r);
        assert(parse_quoted(s) == Some((seq![f[0]] + f.skip(1), r)));
        assert(seq![f[0]] + f.skip(1) =~= f);
    }
}

/// A field parse of an encoded field followed by a delimiter, a line
/// terminator or nothing recovers the field exactly.
pub proof fn lemma_parse_field_encode(f: Seq<u8>, r: Seq<u8>)
    requires
        r.len() == 0 || r[0] == COMMA || r[0] == LF,
    ensures
        parse_field(encode_field(f) + r) == Some((f, r)),
{
    let s = encode_field(f) + r;
    if field_needs_quoting(f) {
        assert(s[0] == QUOTE);
        assert(s.skip(1) =~= escape_quotes(f) + seq![QUOTE] + r);
        lemma_parse_quoted_encode(f, r);
    } else {
        assert(s =~= f + r);
        if f.len() > 0 {
            lemma_head_not(f, QUOTE);
            assert(s[0] == f[0]);
        }
        assert(!(s.len() > 0 && s[0] == QUOTE));
        lemma_parse_unquoted_encode(f, r);
    }
}

/// A record parse of an encoded record, its line terminator, and any
/// remaining input recovers the fields exactly and leaves that input.
pub proof fn lemma_parse_record_encode(fs: Seq<Seq<u8>>, rest: Seq<u8>)
    requires
        fs.len() >= 1,
    ensures
        parse_record(encode_record(fs) + seq![LF] + rest) == Some((fs, rest)),
    decreases fs.len(),
{
    let s = encode_record(fs) + seq![LF] + rest;
    if fs.len() == 1 {
        let r = seq![LF] + rest;
        assert(s =~= encode_field(fs[0]) + r);
        assert(r[0] == LF);
        lemma_parse_field_encode(fs[0], r);
        assert(parse_record(s) == Some((seq![fs[0]], r.skip(1))));
        assert(seq![fs[0]] =~= fs);
        assert(r.skip(1) =~= rest);
    } else {
        let r = seq![COMMA] + (encode_record(fs.skip(1)) + seq![LF] + rest);
        assert(s =~= encode_field(fs[0]) + r);
        assert(r[0] == COMMA);
        lemma_parse_field_encode(fs[0], r);
        assert(r.skip(1) =~= encode_record(fs.skip(1)) + seq![LF] + rest);
        lemma_parse_record_encode(fs.skip(1), rest);
        assert(parse_record(s) == Some((seq![fs[0]] + fs.skip(1), rest)));
        assert(seq![fs[0]] + fs.skip(1) =~= fs);
    }
}

/// Parsing the encoding of any sequence of nonempty records recovers the
/// records exactly.
pub proof fn lemma_parse_rows_encode(recs: Seq<Seq<Seq<u8>>>)
    requires
        forall|i: int| 0 <= i < recs.len() ==> #[trigger] recs[i].len() >= 1,
    ensures
        parse_rows(encode_records(recs)) == Some(recs),
    decreases recs.len(),
{
    if recs.len() == 0 {
        assert(encode_records(recs) == Seq::<u8>::empty());
        assert(recs =~= Seq::<Seq<Seq<u8>>>::empty());
    } else {
        let s = encode_records(recs);
        let tail = encode_records(recs.skip(1));
        assert(s == encode_record(recs[0]) + seq![LF] + tail);
        assert(s.len() > 0);
        lemma_parse_record_encode(recs[0], tail);
        lemma_parse_rows_encode(recs.skip(1));
        assert(parse_rows(s) == Some(seq![recs[0]] + recs.skip(1)));
        assert(seq![recs[0]] + recs.skip(1) =~= recs);
    }
}

/// Round trip: decoding the encoding of any well-formed table yields that
/// table again — identical column names in order, identical rows, and
/// identical cell text.
pub proof fn lemma_round_trip(m: TableModel)
    requires
        model_wf(m),
    ensures
        spec_decode(spec_encode(m)) == Some(m),
{
    let recs = seq![m.names] + m.rows;
    assert forall|i: int| 0 <= i < recs.len() implies #[trigger] recs[i].len() >= 1 by {
        if i > 0 {
            assert(recs[i] == m.rows[i - 1]);
        }
    }
    lemma_parse_rows_encode(recs);
    let s = spec_encode(m);
    assert(s.len() > 0);
    assert(parse_rows(s) == Some(recs));
    assert(recs[0] == m.names);
    assert(recs.skip(1) =~= m.rows);
    let m2 = TableModel { names: recs[0], rows: recs.skip(1) };
    assert(model_wf(m2));
    assert(spec_decode(s) == Some(m2));
    assert(m2 == m);
}

/// Malformed input: the empty payload never decodes.
pub proof fn lemma_decode_empty_fails()
    ensures
        spec_decode(Seq::<u8>::empty()) is None,
{
}

/// Malformed input: a payload with a record whose field count differs
/// from the header's never decodes.
pub proof fn lemma_decode_count_mismatch_fails(s: Seq<u8>)
    requires
        parse_rows(s) matches Some(recs) && exists|i: int|
            1 <= i < recs.len() && #[trigger] recs[i].len() != recs[0].len(),
    ensures
        spec_decode(s) is None,
{
    match parse_rows(s) {
        None => {},
        Some(recs) => {
            let i = choose|i: int| 1 <= i < recs.len() && #[trigger] recs[i].len()
                != recs[0].len();
            if s.len() > 0 && recs.len() > 0 {
                let m = TableModel { names: recs[0], rows: recs.skip(1) };
                assert(m.rows[i - 1] == recs[i]);
                assert(!model_wf(m));
            }
        },
    }
}

// ---------------------------------------------------------------------------
// Small facts about the view helpers.
// ---------------------------------------------------------------------------

proof fn lemma_views2_skip1(s: Seq<Vec<u8>>)
    requires
        s.len() > 0,
    ensures
        views2(s.skip(1)) =~= views2(s).skip(1),
{
    assert forall|i: int| 0 <= i < s.len() - 1 implies views2(s.skip(1))[i] == views2(s).skip(
        1,
    )[i] by {
        assert(s.skip(1)[i] == s[i + 1]);
    }
}

proof fn lemma_views3_skip1(s: Seq<Vec<Vec<u8>>>)
    requires
        s.len() > 0,
    ensures
        views3(s.skip(1)) =~= views3(s).skip(1),
{
    assert forall|i: int| 0 <= i < s.len() - 1 implies views3(s.skip(1))[i] == views3(s).skip(
        1,
    )[i] by {
        assert(s.skip(1)[i] == s[i + 1]);
    }
}

proof fn lemma_views2_insert0(s: Seq<Vec<u8>>, v: Vec<u8>)
    ensures
        views2(s.insert(0, v)) =~= seq![v@] + views2(s),
{
    let l = s.insert(0, v);
    assert forall|i: int| 0 <= i < l.len() implies views2(l)[i] == (seq![v@] + views2(s))[i] by {
        if i > 0 {
            assert(l[i] == s[i - 1]);
        }
    }
}

proof fn lemma_views3_insert0(s: Seq<Vec<Vec<u8>>>, v: Vec<Vec<u8>>)
    ensures
        views3(s.insert(0, v)) =~= seq![views2(v@)] + views3(s),
{
    let l = s.insert(0, v);
    assert forall|i: int| 0 <= i < l.len() implies views3(l)[i] == (seq![views2(v@)] + views3(
        s,
    ))[i] by {
        if i > 0 {
            assert(l[i] == s[i - 1]);
        }
    }
}

// ---------------------------------------------------------------------------
// Executable decoding. Each parser mirrors its specification.
// ---------------------------------------------------------------------------

fn parse_unquoted_exec<'a>(s: &'a [u8]) -> (r: (Vec<u8>, &'a [u8]))
    ensures
        parse_unquoted(s@) == (r.0@, r.1@),
    decreases s@.len(),
{
    if s.len() == 0 || s[0] == COMMA || s[0] == LF {
        (Vec::new(), s)
    } else {
        let c = s[0];
        let sub = slice_subrange(s, 1, s.len());
        proof {
            assert(sub@ =~= s@.skip(1));
        }
        let (mut f, rest) = parse_unquoted_exec(sub);
        let ghost f0 = f@;
        f.insert(0, c);
        proof {
            assert(f@ =~= seq![c] + f0);
        }
        (f, rest)
    }
}

fn parse_quoted_exec<'a>(s: &'a [u8]) -> (r: Option<(Vec<u8>, &'a [u8])>)
    ensures
        match r {
            Some(p) => parse_quoted(s@) == Some((p.0@, p.1@)),
            None => parse_quoted(s@) is None,
        },
    decreases s@.len(),
{
    if s.len() == 0 {
        None
    } else if s[0] == QUOTE {
        if s.len() >= 2 && s[1] == QUOTE {
            let sub = slice_subrange(s, 2, s.len());
            proof {
                assert(sub@ =~= s@.skip(2));
            }
            match parse_quoted_exec(sub) {
                None => None,
                Some((f, rest)) => {
                    let ghost f0 = f@;
                    let mut f = f;
                    f.insert(0, QUOTE);
                    proof {
                        assert(f@ =~= seq![QUOTE] + f0);
                    }
                    Some((f, rest))
                },
            }
        } else {
            let rest = slice_subrange(s, 1, s.len());
            proof {
                assert(rest@ =~= s@.skip(1));
            }
            if rest.len() == 0 || rest[0] == COMMA || rest[0] == LF {
                Some((Vec::new(), rest))
            } else {
                None
            }
        }
    } else {
        let c = s[0];
        let sub = slice_subrange(s, 1, s.len());
        proof {
            assert(sub@ =~= s@.skip(1));
        }
        match parse_quoted_exec(sub) {
            None => None,
            Some((f, rest)) => {
                let ghost f0 = f@;
                let mut f = f;
                f.insert(0, c);
                proof {
                    assert(f@ =~= seq![c] + f0);
                }
                Some((f, rest))
            },
        }
    }
}

fn parse_field_exec<'a>(s: &'a [u8]) -> (r: Option<(Vec<u8>, &'a [u8])>)
    ensures
        match r {
            Some(p) => parse_field(s@) == Some((p.0@, p.1@)),
            None => parse_field(s@) is None,
        },
{
    if s.len() > 0 && s[0] == QUOTE {
        let sub = slice_subrange(s, 1, s.len());
        proof {
            assert(sub@ =~= s@.skip(1));
        }
        parse_quoted_exec(sub)
    } else {
        Some(parse_unquoted_exec(s))
    }
}

fn parse_record_exec<'a>(s: &'a [u8]) -> (r: Option<(Vec<Vec<u8>>, &'a [u8])>)
    ensures
        match r {
            Some(p) => parse_record(s@) == Some((views2(p.0@), p.1@)),
            None => parse_record(s@) is None,
        },
    decreases s@.len(),
{
    proof {
        lemma_parse_field_len(s@);
    }
    match parse_field_exec(s) {
        None => None,
        Some((f, r1)) => {
            if r1.len() == 0 {
                let ghost fv = f@;
                let mut fields: Vec<Vec<u8>> = Vec::new();
                fields.push(f);
                proof {
                    assert(views2(fields@) =~= seq![fv]);
                }
                Some((fields, r1))
            } else if r1[0] == LF {
                let rest = slice_subrange(r1, 1, r1.len());
                proof {
                    assert(rest@ =~= r1@.skip(1));
                }
                let ghost fv = f@;
                let mut fields: Vec<Vec<u8>> = Vec::new();
                fields.push(f);
                proof {
                    assert(views2(fields@) =~= seq![fv]);
                }
                Some((fields, rest))
            } else {
                let sub = slice_subrange(r1, 1, r1.len());
                proof {
                    assert(sub@ =~= r1@.skip(1));
                }
                match parse_record_exec(sub) {
                    None => None,
                    Some((fs, rest)) => {
                        let ghost fs0 = fs@;
                        let ghost fv = f@;
                        let mut fs = fs;
                        fs.insert(0, f);
                        proof {
                            lemma_views2_insert0(fs0, fs[0]);
                            assert(views2(fs@) =~= seq![fv] + views2(fs0));
                        }
                        Some((fs, rest))
                    },
                }
            }
        },
    }
}

fn parse_rows_exec<'a>(s: &'a [u8]) -> (r: Option<Vec<Vec<Vec<u8>>>>)
    ensures
        match r {
            Some(v) => parse_rows(s@) == Some(views3(v@)),
            None => parse_rows(s@) is None,
        },
    decreases s@.len(),
{
    if s.len() == 0 {
        let out: Vec<Vec<Vec<u8>>> = Vec::new();
        proof {
            assert(views3(out@) =~= Seq::<Seq<Seq<u8>>>::empty());
        }
        Some(out)
    } else {
        proof {
            lemma_parse_record_len(s@);
        }
        match parse_record_exec(s) {
            None => None,
            Some((rec, rest)) => {
                match parse_rows_exec(rest) {
                    None => None,
                    Some(rows) => {
                        let ghost rows0 = rows@;
                        let ghost recv = rec@;
                        let mut rows = rows;
                        rows.insert(0, rec);
                        proof {
                            lemma_views3_insert0(rows0, rows[0]);
                            assert(views3(rows@) =~= seq![views2(recv)] + views3(rows0));
                        }
                        Some(rows)
                    },
                }
            },
        }
    }
}

/// Byte-wise equality of two byte strings.
fn bytes_eq(a: &[u8], b: &[u8]) -> (r: bool)
    ensures
        r == (a@ == b@),
{
    if a.len() != b.len() {
        proof {
            if a@ == b@ {
                assert(a@.len() == b@.len());
            }
        }
        return false;
    }
    let mut i: usize = 0;
    while i < a.len()
        invariant
            i <= a@.len(),
            a@.len() == b@.len(),
            forall|k: int| 0 <= k < i ==> a@[k] == b@[k],
        decreases a@.len() - i,
    {
        if a[i] != b[i] {
            return false;
        }
        i = i + 1;
    }
    proof {
        assert(a@ =~= b@);
    }
    true
}

/// True when the column names are pairwise distinct.
fn distinct_names(names: &Vec<Vec<u8>>) -> (b: bool)
    ensures
        b == (forall|i: int, j: int|
            0 <= i < j < names@.len() ==> names@[i]@ != names@[j]@),
{
    let n = names.len();
    let mut i: usize = 0;
    while i < n
        invariant
            n == names@.len(),
            i <= n,
            forall|p: int, q: int| 0 <= p < q < n && p < i ==> names@[p]@ != names@[q]@,
        decreases n - i,
    {
        let mut j: usize = i + 1;
        while j < n
            invariant
                n == names@.len(),
                i < j <= n,
                i < n,
                forall|p: int, q: int| 0 <= p < q < n && p < i ==> names@[p]@ != names@[q]@,
                forall|q: int| i < q < j ==> names@[i as int]@ != names@[q]@,
            decreases n - j,
        {
            if bytes_eq(names[i].as_slice(), names[j].as_slice()) {
                return false;
            }
            j = j + 1;
        }
        i = i + 1;
    }
    true
}

/// True when every row has exactly `names_len` cells.
fn rows_match(names_len: usize, rows: &Vec<Vec<Vec<u8>>>) -> (b: bool)
    ensures
        b == (forall|i: int| #![auto] 0 <= i < rows@.len() ==> rows@[i]@.len() == names_len),
{
    let mut i: usize = 0;
    while i < rows.len()
        invariant
            i <= rows@.len(),
            forall|k: int| #![auto] 0 <= k < i ==> rows@[k]@.len() == names_len,
        decreases rows@.len() - i,
    {
        if rows[i].len() != names_len {
            return false;
        }
        i = i + 1;
    }
    true
}

/// Decode a raw payload into a tabular dataset. The first line is the
/// header of column names; every further line is one row. Fails with
/// `MalformedInput` exactly when the payload is empty, a quoted field is
/// unterminated (or followed by stray bytes), a row's field count differs
/// from the header's, or a column name repeats.
pub fn decode(payload: &[u8]) -> (r: Result<TabularDataset, EtlError>)
    ensures
        match r {
            Ok(d) => d.wf() && spec_decode(payload@) == Some(d.model()),
            Err(e) => spec_decode(payload@) is None && e == EtlError::MalformedInput,
        },
{
    if payload.len() == 0 {
        return Err(EtlError::MalformedInput);
    }
    match parse_rows_exec(payload) {
        None => Err(EtlError::MalformedInput),
        Some(recs) => {
            let ghost recs0 = recs@;
            let ghost recs_v = views3(recs0);
            assert(recs_v.len() >= 1);
            let mut recs = recs;
            let names = recs.remove(0);
            let rows = recs;
            let ghost m = TableModel { names: recs_v[0], rows: recs_v.skip(1) };
            proof {
                assert(views2(names@) == recs_v[0]);
                assert(rows@ =~= recs0.skip(1));
                lemma_views3_skip1(recs0);
                assert(views3(rows@) == recs_v.skip(1));
                assert(m.names.len() == names@.len());
                assert forall|i: int| 0 <= i < m.names.len() implies m.names[i]
                    == names@[i]@ by {}
                assert forall|i: int| 0 <= i < m.rows.len() implies #[trigger] m.rows[i].len()
                    == rows@[i]@.len() by {
                    assert(m.rows[i] == views2(rows@[i]@));
                }
            }
            if names.len() == 0 {
                return Err(EtlError::MalformedInput);
            }
            if !distinct_names(&names) {
                proof {
                    let (i, j) = choose|i: int, j: int|
                        0 <= i < j < names@.len() && names@[i]@ == names@[j]@;
                    assert(m.names[i] == names@[i]@ && m.names[j] == names@[j]@);
                    assert(!model_wf(m));
                }
                return Err(EtlError::MalformedInput);
            }
            if !rows_match(names.len(), &rows) {
                proof {
                    let i = choose|i: int| 0 <= i < rows@.len() && rows@[i]@.len() != names@.len();
                    assert(m.rows[i].len() == rows@[i]@.len());
                    assert(!model_wf(m));
                }
                return Err(EtlError::MalformedInput);
            }
            let d = TabularDataset { names, rows };
            proof {
                assert(model_wf(m));
                assert(d.model() == m);
            }
            Ok(d)
        },
    }
}

// ---------------------------------------------------------------------------
// Executable encoding. Each emitter mirrors its specification.
// ---------------------------------------------------------------------------

fn needs_quoting_exec(f: &[u8]) -> (b: bool)
    ensures
        b == field_needs_quoting(f@),
{
    let mut i: usize = 0;
    while i < f.len()
        invariant
            i <= f@.len(),
            forall|k: int| 0 <= k < i ==> f@[k] != COMMA && f@[k] != QUOTE && f@[k] != LF,
        decreases f@.len() - i,
    {
        let c = f[i];
        if c == COMMA || c == QUOTE || c == LF {
            proof {
                assert(f@[i as int] == c);
                assert(f@.contains(c));
            }
            return true;
        }
        i = i + 1;
    }
    proof {
        if f@.contains(COMMA) {
            let k = choose|k: int| 0 <= k < f@.len() && f@[k] == COMMA;
            assert(false);
        }
        if f@.contains(QUOTE) {
            let k = choose|k: int| 0 <= k < f@.len() && f@[k] == QUOTE;
            assert(false);
        }
        if f@.contains(LF) {
            let k = choose|k: int| 0 <= k < f@.len() && f@[k] == LF;
            assert(false);
        }
    }
    false
}

fn escape_exec(f: &[u8]) -> (out: Vec<u8>)
    ensures
        out@ == escape_quotes(f@),
    decreases f@.len(),
{
    if f.len() == 0 {
        let out: Vec<u8> = Vec::new();
        proof {
            assert(out@ =~= escape_quotes(f@));
        }
        out
    } else {
        let c = f[0];
        let sub = slice_subrange(f, 1, f.len());
        proof {
            assert(sub@ =~= f@.skip(1));
        }
        let rest = escape_exec(sub);
        let ghost r0 = rest@;
        let mut rest = rest;
        if c == QUOTE {
            rest.insert(0, QUOTE);
            rest.insert(0, QUOTE);
            proof {
                assert(rest@ =~= seq![QUOTE, QUOTE] + r0);
            }
        } else {
            rest.insert(0, c);
            proof {
                assert(rest@ =~= seq![c] + r0);
            }
        }
        rest
    }
}

fn encode_field_exec(f: &[u8]) -> (out: Vec<u8>)
    ensures
        out@ == encode_field(f@),
{
    if needs_quoting_exec(f) {
        let mut out: Vec<u8> = Vec::new();
        out.push(QUOTE);
        let mut esc = escape_exec(f);
        out.append(&mut esc);
        out.push(QUOTE);
        proof {
            assert(out@ =~= seq![QUOTE] + escape_quotes(f@) + seq![QUOTE]);
        }
        out
    } else {
        slice_to_vec(f)
    }
}

fn encode_record_exec(fs: &[Vec<u8>]) -> (out: Vec<u8>)
    ensures
        out@ == encode_record(views2(fs@)),
    decreases fs@.len(),
{
    if fs.len() == 0 {
        let out: Vec<u8> = Vec::new();
        proof {
            assert(out@ =~= encode_record(views2(fs@)));
        }
        out
    } else if fs.len() == 1 {
        let out = encode_field_exec(fs[0].as_slice());
        proof {
            assert(views2(fs@)[0] == fs@[0]@);
        }
        out
    } else {
        let mut out = encode_field_exec(fs[0].as_slice());
        out.push(COMMA);
        let sub = slice_subrange(fs, 1, fs.len());
        proof {
            assert(sub@ =~= fs@.skip(1));
            lemma_views2_skip1(fs@);
            assert(views2(sub@) == views2(fs@).skip(1));
        }
        let mut rest = encode_record_exec(sub);
        out.append(&mut rest);
        proof {
            assert(views2(fs@)[0] == fs@[0]@);
            assert(out@ =~= encode_field(views2(fs@)[0]) + seq![COMMA] + encode_record(
                views2(fs@).skip(1),
            ));
        }
        out
    }
}

fn encode_records_exec(recs: &[Vec<Vec<u8>>]) -> (out: Vec<u8>)
    ensures
        out@ == encode_records(views3(recs@)),
    decreases recs@.len(),
{
    if recs.len() == 0 {
        let out: Vec<u8> = Vec::new();
        proof {
            assert(out@ =~= encode_records(views3(recs@)));
        }
        out
    } else {
        let mut out = encode_record_exec(recs[0].as_slice());
        out.push(LF);
        let sub = slice_subrange(recs, 1, recs.len());
        proof {
            assert(sub@ =~= recs@.skip(1));
            lemma_views3_skip1(recs@);
            assert(views3(sub@) == views3(recs@).skip(1));
        }
        let mut rest = encode_records_exec(sub);
        out.append(&mut rest);
        proof {
            assert(views3(recs@)[0] == views2(recs@[0]@));
            assert(out@ =~= encode_record(views3(recs@)[0]) + seq![LF] + encode_records(
                views3(recs@).skip(1),
            ));
        }
        out
    }
}

/// Encode a dataset: a header line of its column names in order, then one
/// line per row in row order, each line ended by the line terminator.
/// Fields are quoted only when they contain a delimiter, a quote, or a
/// line terminator.
pub fn encode(d: &TabularDataset) -> (out: Vec<u8>)
    requires
        d.wf(),
    ensures
        out@ == spec_encode(d.model()),
{
    let mut out = encode_record_exec(d.names.as_slice());
    out.push(LF);
    let mut rest = encode_records_exec(d.rows.as_slice());
    out.append(&mut rest);
    proof {
        lemma_encode_records_cons(d.model().names, d.model().rows);
        assert(out@ =~= encode_record(d.model().names) + seq![LF] + encode_records(
            d.model().rows,
        ));
    }
    out
}

} // verus!
