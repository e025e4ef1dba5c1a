//! The grammar-driven parser: token stream to validated document tree.
//!
//! Each grammar rule is a spec function over the token sequence, returning
//! the parsed value and the index of the next unconsumed token, or the
//! error the rule fails with; the executable parser is proved equal to it.
//! Validation happens while each record is assembled: a malformed integer,
//! UUID or URL, or a missing required field, aborts the whole parse, so no
//! partial node ever enters the tree.
//!
//! Policies this grammar fixes (the format leaves them open): a repeated
//! field assignment within one record is resolved in favour of the last
//! occurrence, as a repeated `encoding` assignment is; an options
//! assignment under an unrecognized key is consumed by its `key = value`
//! shape and ignored; missing required fields of a record are reported in
//! declaration order (`ID`, `UNIQUEID`, `NAME` for folders, `CREATED`).

use vstd::prelude::*;

use crate::ast::{
    Encoding, EntryV, FolderV, Hotlist, HotlistError, HotlistErrorV, HotlistV, Note, NoteV,
    Options, ParseError, ParseErrorV, SingleOp, SpanInfo, Version,
};
use crate::lexer::{
    digit_run, hex_run, init_lex_state, lit_best, spec_step, spec_tokens, stoks_view, tokenize,
    url_len, version_len, ws_run, LexStV, STokV, SpannedTok, StepV, Tok, TokV,
};
use crate::strutil::{
    all_digits, all_upper_hex, dec_str, dec_val, hex_seq_val, is_digit, parse_dec_bounded,
    parse_hex32,
};

verus! {

// ---------------------------------------------------------------------------
// What the outside URL parser is relied on for
// ---------------------------------------------------------------------------

pub uninterp spec fn url_ok(s: Seq<char>) -> bool;

pub uninterp spec fn url_norm(s: Seq<char>) -> Seq<char>;

/// Relies on url::Url::parse and url::Url::as_str: whether a text parses as
/// an absolute URL, and the serialized normal form of the parsed URL, are
/// functions of the text alone.
#[verifier::external_body]
fn parse_url_norm(s: &str) -> (r: Option<String>)
    ensures
        r is Some <==> url_ok(s@),
        r matches Option::Some(t) ==> t@ == url_norm(s@),
{
    match url::Url::parse(s) {
        Ok(u) => Some(u.as_str().to_string()),
        Err(_) => None,
    }
}

// ---------------------------------------------------------------------------
// Well-formedness of token payloads, guaranteed by the lexer
// ---------------------------------------------------------------------------

/// The shape of a version numeral: digits, optionally a dot followed by at
/// least one digit and then digits to the end.
pub open spec fn version_text_wf(t: Seq<char>) -> bool {
    let d = digit_run(t, 0);
    &&& d >= 1
    &&& (d == t.len() || {
        &&& d + 2 <= t.len()
        &&& t[d] == '.'
        &&& digit_run(t, d + 1) == t.len() - (d + 1)
    })
}

pub open spec fn tok_wf(tv: TokV) -> bool {
    match tv {
        TokV::Integer(t) => t.len() >= 1 && all_digits(t) && digit_run(t, 0) == t.len(),
        TokV::Version(t) => version_text_wf(t),
        TokV::Uuid(t) => t.len() >= 1 && all_upper_hex(t),
        _ => true,
    }
}

pub open spec fn toks_wf(ts: Seq<STokV>) -> bool {
    forall|i: int| 0 <= i < ts.len() ==> tok_wf((#[trigger] ts[i]).tok)
}

// A run whose characters are known pointwise.
proof fn lemma_digit_run_eq(t: Seq<char>, j: int, k: int)
    requires
        0 <= j <= k <= t.len(),
        forall|i: int| j <= i < k ==> is_digit(#[trigger] t[i]),
        k < t.len() ==> !is_digit(t[k]),
    ensures
        digit_run(t, j) == k - j,
    decreases k - j,
{
    if j < k {
        lemma_digit_run_eq(t, j + 1, k);
    }
}

proof fn lemma_run_chars_subrange(s: Seq<char>, p: int, q: int)
    requires
        0 <= p <= q <= s.len(),
    ensures
        forall|i: int|
            0 <= i < q - p ==> #[trigger] s.subrange(p, q)[i] == s[p + i],
{
}

// Every token a lexer step yields has a well-formed payload.
proof fn lemma_spec_step_wf(s: Seq<char>, st: LexStV)
    requires
        0 <= st.pos <= s.len(),
    ensures
        spec_step(s, st) matches StepV::Tok(t, st2) ==> tok_wf(t.tok),
{
    crate::lexer::lemma_spec_step_progress(s, st);
    if !st.body {
        let p = st.pos + ws_run(s, st.pos);
        crate::lexer::lemma_ws_run_bounds(s, st.pos);
        if p < s.len() {
            crate::lexer::lemma_digit_run_bounds(s, p);
            crate::lexer::lemma_hex_run_bounds(s, p);
            crate::lexer::lemma_digit_run_chars(s, p);
            crate::lexer::lemma_hex_run_chars(s, p);
            let il = digit_run(s, p);
            let xl = hex_run(s, p);
            let vl = version_len(s, p);
            // the integer payload
            if il >= 1 {
                let t = s.subrange(p, p + il);
                lemma_run_chars_subrange(s, p, p + il);
                assert(all_digits(t));
                lemma_digit_run_eq(t, 0, il);
                assert(tok_wf(TokV::Integer(t)));
            }
            // the uuid payload
            if xl >= 1 {
                let t = s.subrange(p, p + xl);
                lemma_run_chars_subrange(s, p, p + xl);
                assert(all_upper_hex(t));
                assert(tok_wf(TokV::Uuid(t)));
            }
            // the version payload
            if vl >= 1 {
                let d1 = il;
                if d1 >= 1 {
                    let q = p + d1;
                    if q + 1 < s.len() && s[q] == '.' && is_digit(s[q + 1]) {
                        let d2 = digit_run(s, q + 2);
                        crate::lexer::lemma_digit_run_bounds(s, q + 2);
                        crate::lexer::lemma_digit_run_chars(s, q + 2);
                        let t = s.subrange(p, p + vl);
                        lemma_run_chars_subrange(s, p, p + vl);
                        assert(vl == d1 + 2 + d2);
                        assert forall|i: int| 0 <= i < d1 implies is_digit(t[i]) by {
                            assert(t[i] == s[p + i]);
                        }
                        assert(t[d1] == s[q]);
                        assert forall|i: int| d1 + 1 <= i < t.len() implies is_digit(t[i]) by {
                            assert(t[i] == s[p + i]);
                            if i == d1 + 1 {
                                assert(s[p + i] == s[q + 1]);
                            } else {
                                assert(q + 2 <= p + i < q + 2 + d2);
                            }
                        }
                        lemma_digit_run_eq(t, 0, d1);
                        lemma_digit_run_eq(t, d1 + 1, t.len() as int);
                        assert(version_text_wf(t));
                    } else {
                        let t = s.subrange(p, p + vl);
                        lemma_run_chars_subrange(s, p, p + vl);
                        assert(vl == d1);
                        assert(all_digits(t)) by {
                            assert(forall|i: int|
                                0 <= i < vl ==> #[trigger] t[i] == s[p + i] && is_digit(s[p + i]));
                        }
                        lemma_digit_run_eq(t, 0, vl);
                        assert(version_text_wf(t));
                    }
                }
            }
        }
    }
}

/// Every token of a successful tokenization has a well-formed payload.
pub proof fn lemma_spec_tokens_wf(s: Seq<char>, st: LexStV)
    requires
        0 <= st.pos <= s.len(),
    ensures
        spec_tokens(s, st) matches Result::Ok(ts) ==> toks_wf(ts),
    decreases s.len() - st.pos, (if st.body { 1int } else { 0int }),
{
    crate::lexer::lemma_spec_step_progress(s, st);
    lemma_spec_step_wf(s, st);
    match spec_step(s, st) {
        StepV::Eof => {},
        StepV::Fail(_) => {},
        StepV::Tok(t, st2) => {
            if (st2.pos > st.pos || (st2.pos == st.pos && st.body && !st2.body)) && st2.pos
                <= s.len() {
                lemma_spec_tokens_wf(s, st2);
                match spec_tokens(s, st2) {
                    Result::Ok(rest) => {
                        let ts = seq![t] + rest;
                        assert forall|i: int| 0 <= i < ts.len() implies tok_wf(
                            (#[trigger] ts[i]).tok,
                        ) by {
                            if i == 0 {
                                assert(ts[0] == t);
                            } else {
                                assert(ts[i] == rest[i - 1]);
                            }
                        }
                    },
                    Result::Err(_) => {},
                }
            }
        },
    }
}

/// A failed tokenization reports an offset inside the input.
pub proof fn lemma_spec_tokens_err_range(s: Seq<char>, st: LexStV)
    requires
        0 <= st.pos <= s.len(),
    ensures
        spec_tokens(s, st) matches Result::Err(o) ==> 0 <= o <= s.len(),
    decreases s.len() - st.pos, (if st.body { 1int } else { 0int }),
{
    crate::lexer::lemma_spec_step_progress(s, st);
    if !st.body {
        crate::lexer::lemma_ws_run_bounds(s, st.pos);
    }
    match spec_step(s, st) {
        StepV::Eof => {},
        StepV::Fail(_) => {},
        StepV::Tok(t, st2) => {
            if (st2.pos > st.pos || (st2.pos == st.pos && st.body && !st2.body)) && st2.pos
                <= s.len() {
                lemma_spec_tokens_err_range(s, st2);
            }
        },
    }
}

// ---------------------------------------------------------------------------
// Field-value validation
// ---------------------------------------------------------------------------

/// The parsed value of a version numeral, `IntegerOutOfRange` when a
/// component exceeds the value range.
pub open spec fn sp_version_value(t: Seq<char>) -> Result<Version, ParseErrorV> {
    let d = digit_run(t, 0);
    if d == t.len() {
        if dec_val(t) > u64::MAX {
            Result::Err(ParseErrorV::Validation(HotlistErrorV::IntegerOutOfRange(t)))
        } else {
            Result::Ok(Version { major: dec_val(t) as u64, minor: 0 })
        }
    } else {
        let maj = dec_val(t.take(d));
        let min = dec_val(t.skip(d + 1));
        if maj > u64::MAX || min > u64::MAX {
            Result::Err(ParseErrorV::Validation(HotlistErrorV::IntegerOutOfRange(t)))
        } else {
            Result::Ok(Version { major: maj as u64, minor: min as u64 })
        }
    }
}

fn p_version_value(s: &str) -> (r: Result<Version, ParseError>)
    requires
        version_text_wf(s@),
    ensures
        match sp_version_value(s@) {
            Result::Ok(v) => r matches Result::Ok(rv) && rv == v,
            Result::Err(ev) => r matches Result::Err(e) && e@ == ev,
        },
{
    let len = s.unicode_len();
    let d = crate::lexer::scan_digits(s, 0);
    if d == len {
        proof {
            crate::lexer::lemma_digit_run_chars(s@, 0);
            crate::strutil::lemma_dec_val_nonneg(s@);
        }
        match parse_dec_bounded(s, u64::MAX) {
            Option::Some(v) => Result::Ok(Version { major: v, minor: 0 }),
            Option::None => Result::Err(
                ParseError::Validation(HotlistError::IntegerOutOfRange(String::from_str(s))),
            ),
        }
    } else {
        proof {
            crate::lexer::lemma_digit_run_bounds(s@, 0);
            crate::lexer::lemma_digit_run_chars(s@, 0);
        }
        let major_str = s.substring_char(0, d);
        let minor_str = s.substring_char(d + 1, len);
        proof {
            assert(major_str@ =~= s@.take(d as int));
            assert(minor_str@ =~= s@.skip(d as int + 1));
            assert(all_digits(major_str@)) by {
                assert(forall|i: int|
                    0 <= i < d ==> #[trigger] major_str@[i] == s@[i] && is_digit(s@[i]));
            }
            assert(all_digits(minor_str@)) by {
                crate::lexer::lemma_digit_run_chars(s@, d as int + 1);
                assert(forall|i: int|
                    0 <= i < minor_str@.len() ==> #[trigger] minor_str@[i] == s@[d + 1 + i]);
            }
        }
        let major = parse_dec_bounded(major_str, u64::MAX);
        let minor = parse_dec_bounded(minor_str, u64::MAX);
        match (major, minor) {
            (Option::Some(ma), Option::Some(mi)) => Result::Ok(Version { major: ma, minor: mi }),
            _ => Result::Err(
                ParseError::Validation(HotlistError::IntegerOutOfRange(String::from_str(s))),
            ),
        }
    }
}

/// The parsed value of an unsigned 32-bit field, `IntegerOutOfRange` above
/// the range.
pub open spec fn sp_u32_value(t: Seq<char>) -> Result<u32, ParseErrorV> {
    if dec_val(t) > u32::MAX {
        Result::Err(ParseErrorV::Validation(HotlistErrorV::IntegerOutOfRange(t)))
    } else {
        Result::Ok(dec_val(t) as u32)
    }
}

fn p_u32_value(s: &str) -> (r: Result<u32, ParseError>)
    requires
        all_digits(s@),
    ensures
        match sp_u32_value(s@) {
            Result::Ok(v) => r matches Result::Ok(rv) && rv == v,
            Result::Err(ev) => r matches Result::Err(e) && e@ == ev,
        },
{
    proof {
        crate::strutil::lemma_dec_val_nonneg(s@);
    }
    match parse_dec_bounded(s, 0xFFFF_FFFF) {
        Option::Some(v) => Result::Ok(v as u32),
        Option::None => Result::Err(
            ParseError::Validation(HotlistError::IntegerOutOfRange(String::from_str(s))),
        ),
    }
}

/// The parsed value of a UUID literal: exactly 32 hexadecimal digits,
/// anything else is `InvalidUuid`.
pub open spec fn sp_uuid_value(t: Seq<char>) -> Result<u128, ParseErrorV> {
    if t.len() == 32 {
        Result::Ok(hex_seq_val(t) as u128)
    } else {
        Result::Err(ParseErrorV::Validation(HotlistErrorV::InvalidUuid(t)))
    }
}

fn p_uuid_value(s: &str) -> (r: Result<u128, ParseError>)
    requires
        all_upper_hex(s@),
    ensures
        match sp_uuid_value(s@) {
            Result::Ok(v) => r matches Result::Ok(rv) && rv == v,
            Result::Err(ev) => r matches Result::Err(e) && e@ == ev,
        },
{
    if s.unicode_len() == 32 {
        let v = parse_hex32(s);
        proof {
            crate::strutil::lemma_hex_seq_val_bound(s@);
            crate::strutil::lemma_pow16_monotonic(32, 32);
        }
        Result::Ok(v)
    } else {
        Result::Err(ParseError::Validation(HotlistError::InvalidUuid(String::from_str(s))))
    }
}

/// The parsed value of a URL literal, `InvalidUrl` when the URL parser
/// rejects it.
pub open spec fn sp_url_value(t: Seq<char>) -> Result<Seq<char>, ParseErrorV> {
    if url_ok(t) {
        Result::Ok(url_norm(t))
    } else {
        Result::Err(ParseErrorV::Validation(HotlistErrorV::InvalidUrl(t)))
    }
}

fn p_url_value(s: &str) -> (r: Result<String, ParseError>)
    ensures
        match sp_url_value(s@) {
            Result::Ok(v) => r matches Result::Ok(rv) && rv@ == v,
            Result::Err(ev) => r matches Result::Err(e) && e@ == ev,
        },
{
    match parse_url_norm(s) {
        Option::Some(t) => Result::Ok(t),
        Option::None => Result::Err(
            ParseError::Validation(HotlistError::InvalidUrl(String::from_str(s))),
        ),
    }
}

// ---------------------------------------------------------------------------
// The grammar, one spec function per rule
// ---------------------------------------------------------------------------

pub open spec fn tok_at(ts: Seq<STokV>, i: int) -> Option<TokV> {
    if 0 <= i < ts.len() {
        Option::Some(ts[i].tok)
    } else {
        Option::None
    }
}

/// The syntax error at position `i`: the token there, or end of input.
pub open spec fn err_at(ts: Seq<STokV>, eof: int, i: int) -> ParseErrorV {
    if 0 <= i < ts.len() {
        ParseErrorV::UnexpectedToken { start: ts[i].start, end: ts[i].end }
    } else {
        ParseErrorV::UnexpectedEof { offset: eof }
    }
}

// A marker for branches no run can reach (rules always consume tokens).
pub open spec fn sp_stuck() -> ParseErrorV {
    ParseErrorV::Lexical { offset: -1 }
}

/// A version numeral token: a `Version` or `Integer` token.
pub open spec fn sp_version_tok(ts: Seq<STokV>, eof: int, i: int) -> Result<
    (Version, int),
    ParseErrorV,
> {
    match tok_at(ts, i) {
        Option::Some(TokV::Version(t)) => match sp_version_value(t) {
            Result::Ok(v) => Result::Ok((v, i + 1)),
            Result::Err(e) => Result::Err(e),
        },
        Option::Some(TokV::Integer(t)) => match sp_version_value(t) {
            Result::Ok(v) => Result::Ok((v, i + 1)),
            Result::Err(e) => Result::Err(e),
        },
        _ => Result::Err(err_at(ts, eof, i)),
    }
}

/// The header's first line: the version literal and a version numeral.
pub open spec fn sp_hotlist_version(ts: Seq<STokV>, eof: int, i: int) -> Result<
    (Version, int),
    ParseErrorV,
> {
    if tok_at(ts, i) == Option::Some(TokV::HotlistVersion) {
        sp_version_tok(ts, eof, i + 1)
    } else {
        Result::Err(err_at(ts, eof, i))
    }
}

/// The recognized options assignment: `encoding = utf8`, optionally
/// followed by `, version = N`; the encoding revision defaults to `0.0`.
pub open spec fn sp_single_op(ts: Seq<STokV>, eof: int, i: int) -> Result<
    (SingleOp, int),
    ParseErrorV,
> {
    if tok_at(ts, i) != Option::Some(TokV::Encoding) {
        Result::Err(err_at(ts, eof, i))
    } else if tok_at(ts, i + 1) != Option::Some(TokV::Equal) {
        Result::Err(err_at(ts, eof, i + 1))
    } else if tok_at(ts, i + 2) != Option::Some(TokV::Utf8) {
        Result::Err(err_at(ts, eof, i + 2))
    } else if tok_at(ts, i + 3) == Option::Some(TokV::Comma) && tok_at(ts, i + 4)
        == Option::Some(TokV::EncodingVersion) {
        if tok_at(ts, i + 5) != Option::Some(TokV::Equal) {
            Result::Err(err_at(ts, eof, i + 5))
        } else {
            match sp_version_tok(ts, eof, i + 6) {
                Result::Ok((v, j)) => Result::Ok((SingleOp::Encoding(Encoding::Utf8(v)), j)),
                Result::Err(e) => Result::Err(e),
            }
        }
    } else {
        Result::Ok((SingleOp::Encoding(Encoding::Utf8(Version { major: 0, minor: 0 })), i + 3))
    }
}

pub open spec fn encoding_of(op: SingleOp) -> Encoding {
    match op {
        SingleOp::Encoding(e) => e,
    }
}

/// One pair of the options list: the recognized `encoding` assignment
/// yields its encoding; a pair under any other key is recognized by its
/// `key = value` shape alone and ignored.
pub open spec fn sp_opt_pair(ts: Seq<STokV>, eof: int, i: int) -> Result<
    (Option<Encoding>, int),
    ParseErrorV,
> {
    if tok_at(ts, i) == Option::Some(TokV::Encoding) {
        match sp_single_op(ts, eof, i) {
            Result::Ok((op, j)) => Result::Ok((Option::Some(encoding_of(op)), j)),
            Result::Err(e) => Result::Err(e),
        }
    } else if tok_at(ts, i) is None {
        Result::Err(err_at(ts, eof, i))
    } else if tok_at(ts, i + 1) != Option::Some(TokV::Equal) {
        Result::Err(err_at(ts, eof, i + 1))
    } else if tok_at(ts, i + 2) is None {
        Result::Err(err_at(ts, eof, i + 2))
    } else {
        Result::Ok((Option::None, i + 3))
    }
}

/// A comma-separated list of pairs.  An ignored pair leaves the
/// accumulated encoding as it stands, so the last `encoding` assignment
/// wins; `None` comes back when no pair assigned one.
pub open spec fn sp_ops(ts: Seq<STokV>, eof: int, i: int, acc: Option<Encoding>) -> Result<
    (Option<Encoding>, int),
    ParseErrorV,
>
    decreases ts.len() - i,
{
    match sp_opt_pair(ts, eof, i) {
        Result::Err(e) => Result::Err(e),
        Result::Ok((enc, j)) => {
            let acc2 = if enc is Some {
                enc
            } else {
                acc
            };
            if tok_at(ts, j) == Option::Some(TokV::Comma) {
                if i <= j {
                    match sp_ops(ts, eof, j + 1, acc2) {
                        Result::Ok(pr) => Result::Ok(pr),
                        Result::Err(e) => Result::Err(e),
                    }
                } else {
                    Result::Err(sp_stuck())
                }
            } else {
                Result::Ok((acc2, j))
            }
        },
    }
}

/// The options block: `Options:` and a comma-separated pair list, begun
/// when the next tokens have the shape of a pair.  Without an `encoding`
/// assignment anywhere in the list it fails with `RequiredFieldMissing`,
/// whose span covers the whole consumed block.
pub open spec fn sp_options(ts: Seq<STokV>, eof: int, i: int) -> Result<
    (Options, int),
    ParseErrorV,
> {
    if tok_at(ts, i) != Option::Some(TokV::Options) {
        Result::Err(err_at(ts, eof, i))
    } else if tok_at(ts, i + 1) == Option::Some(TokV::Encoding) || tok_at(ts, i + 2)
        == Option::Some(TokV::Equal) {
        match sp_ops(ts, eof, i + 1, Option::None) {
            Result::Err(e) => Result::Err(e),
            Result::Ok((encopt, j)) => match encopt {
                Option::Some(enc) => Result::Ok((Options { encoding: enc }, j)),
                Option::None => {
                    if i < j <= ts.len() {
                        Result::Err(
                            ParseErrorV::Validation(
                                HotlistErrorV::RequiredFieldMissing(
                                    "encoding"@,
                                    SpanInfo {
                                        error: Option::None,
                                        entry: (ts[i].start as usize, ts[j - 1].end as usize),
                                    },
                                ),
                            ),
                        )
                    } else {
                        Result::Err(sp_stuck())
                    }
                },
            },
        }
    } else {
        Result::Err(
            ParseErrorV::Validation(
                HotlistErrorV::RequiredFieldMissing(
                    "encoding"@,
                    SpanInfo {
                        error: Option::None,
                        entry: (ts[i].start as usize, ts[i].end as usize),
                    },
                ),
            ),
        )
    }
}

/// The whole header: version line and options block.
pub open spec fn sp_header(ts: Seq<STokV>, eof: int, i: int) -> Result<
    ((Version, Options), int),
    ParseErrorV,
> {
    match sp_hotlist_version(ts, eof, i) {
        Result::Err(e) => Result::Err(e),
        Result::Ok((v, j)) => match sp_options(ts, eof, j) {
            Result::Err(e) => Result::Err(e),
            Result::Ok((o, k)) => Result::Ok(((v, o), k)),
        },
    }
}

/// The fields of a note record collected so far; a repeated field is
/// overwritten, so the last occurrence wins.
pub struct NoteFieldsV {
    pub id: Option<u32>,
    pub uuid: Option<u128>,
    pub contents: Option<Seq<char>>,
    pub url: Option<Seq<char>>,
    pub created: Option<u32>,
    pub active: Option<bool>,
}

pub open spec fn sp_note_fields(ts: Seq<STokV>, eof: int, i: int, acc: NoteFieldsV) -> Result<
    (NoteFieldsV, int),
    ParseErrorV,
>
    decreases ts.len() - i,
{
    if tok_at(ts, i) == Option::Some(TokV::Id) {
        if tok_at(ts, i + 1) != Option::Some(TokV::Equal) {
            Result::Err(err_at(ts, eof, i + 1))
        } else {
            match tok_at(ts, i + 2) {
                Option::Some(TokV::Integer(t)) => match sp_u32_value(t) {
                    Result::Ok(v) => sp_note_fields(
                        ts,
                        eof,
                        i + 3,
                        NoteFieldsV { id: Option::Some(v), ..acc },
                    ),
                    Result::Err(e) => Result::Err(e),
                },
                _ => Result::Err(err_at(ts, eof, i + 2)),
            }
        }
    } else if tok_at(ts, i) == Option::Some(TokV::UniqueId) {
        if tok_at(ts, i + 1) != Option::Some(TokV::Equal) {
            Result::Err(err_at(ts, eof, i + 1))
        } else {
            match tok_at(ts, i + 2) {
                Option::Some(TokV::Uuid(t)) => match sp_uuid_value(t) {
                    Result::Ok(v) => sp_note_fields(
                        ts,
                        eof,
                        i + 3,
                        NoteFieldsV { uuid: Option::Some(v), ..acc },
                    ),
                    Result::Err(e) => Result::Err(e),
                },
                Option::Some(TokV::Integer(t)) => match sp_uuid_value(t) {
                    Result::Ok(v) => sp_note_fields(
                        ts,
                        eof,
                        i + 3,
                        NoteFieldsV { uuid: Option::Some(v), ..acc },
                    ),
                    Result::Err(e) => Result::Err(e),
                },
                _ => Result::Err(err_at(ts, eof, i + 2)),
            }
        }
    } else if tok_at(ts, i) == Option::Some(TokV::Name) {
        if tok_at(ts, i + 1) != Option::Some(TokV::Equal) {
            Result::Err(err_at(ts, eof, i + 1))
        } else {
            match tok_at(ts, i + 2) {
                Option::Some(TokV::NoteBody(t)) => sp_note_fields(
                    ts,
                    eof,
                    i + 3,
                    NoteFieldsV { contents: Option::Some(t), ..acc },
                ),
                _ => Result::Err(err_at(ts, eof, i + 2)),
            }
        }
    } else if tok_at(ts, i) == Option::Some(TokV::Url) {
        if tok_at(ts, i + 1) != Option::Some(TokV::Equal) {
            Result::Err(err_at(ts, eof, i + 1))
        } else {
            match tok_at(ts, i + 2) {
                Option::Some(TokV::UrlBody(t)) => match sp_url_value(t) {
                    Result::Ok(u) => sp_note_fields(
                        ts,
                        eof,
                        i + 3,
                        NoteFieldsV { url: Option::Some(u), ..acc },
                    ),
                    Result::Err(e) => Result::Err(e),
                },
                _ => Result::Err(err_at(ts, eof, i + 2)),
            }
        }
    } else if tok_at(ts, i) == Option::Some(TokV::Created) {
        if tok_at(ts, i + 1) != Option::Some(TokV::Equal) {
            Result::Err(err_at(ts, eof, i + 1))
        } else {
            match tok_at(ts, i + 2) {
                Option::Some(TokV::Integer(t)) => match sp_u32_value(t) {
                    Result::Ok(v) => sp_note_fields(
                        ts,
                        eof,
                        i + 3,
                        NoteFieldsV { created: Option::Some(v), ..acc },
                    ),
                    Result::Err(e) => Result::Err(e),
                },
                _ => Result::Err(err_at(ts, eof, i + 2)),
            }
        }
    } else if tok_at(ts, i) == Option::Some(TokV::Active) {
        if tok_at(ts, i + 1) != Option::Some(TokV::Equal) {
            Result::Err(err_at(ts, eof, i + 1))
        } else {
            match tok_at(ts, i + 2) {
                Option::Some(TokV::Yes) => sp_note_fields(
                    ts,
                    eof,
                    i + 3,
                    NoteFieldsV { active: Option::Some(true), ..acc },
                ),
                Option::Some(TokV::No) => sp_note_fields(
                    ts,
                    eof,
                    i + 3,
                    NoteFieldsV { active: Option::Some(false), ..acc },
                ),
                _ => Result::Err(err_at(ts, eof, i + 2)),
            }
        }
    } else {
        Result::Ok((acc, i))
    }
}

/// The record span from the marker token at `i` to the end of the token
/// before `j`.
pub open spec fn sp_record_span(ts: Seq<STokV>, i: int, j: int) -> SpanInfo {
    SpanInfo { error: Option::None, entry: (ts[i].start as usize, ts[j - 1].end as usize) }
}

/// A `#NOTE` record.  `ID`, `UNIQUEID` and `CREATED` are required; a note
/// with neither `NAME` nor `URL` is valid, their absence is kept as such.
pub open spec fn sp_note(ts: Seq<STokV>, eof: int, i: int) -> Result<(NoteV, int), ParseErrorV>
    decreases ts.len() - i, 2int,
{
    if tok_at(ts, i) != Option::Some(TokV::NoteHeader) {
        Result::Err(err_at(ts, eof, i))
    } else {
        let acc0 = NoteFieldsV {
            id: Option::None,
            uuid: Option::None,
            contents: Option::None,
            url: Option::None,
            created: Option::None,
            active: Option::None,
        };
        match sp_note_fields(ts, eof, i + 1, acc0) {
            Result::Err(e) => Result::Err(e),
            Result::Ok((acc, j)) => {
                if i + 1 <= j <= ts.len() {
                    let span = sp_record_span(ts, i, j);
                    if acc.id is None {
                        Result::Err(
                            ParseErrorV::Validation(
                                HotlistErrorV::RequiredFieldMissing("ID"@, span),
                            ),
                        )
                    } else if acc.uuid is None {
                        Result::Err(
                            ParseErrorV::Validation(
                                HotlistErrorV::RequiredFieldMissing("UNIQUEID"@, span),
                            ),
                        )
                    } else if acc.created is None {
                        Result::Err(
                            ParseErrorV::Validation(
                                HotlistErrorV::RequiredFieldMissing("CREATED"@, span),
                            ),
                        )
                    } else {
                        Result::Ok(
                            (
                                NoteV {
                                    id: acc.id->0,
                                    uuid: acc.uuid->0,
                                    contents: acc.contents,
                                    url: acc.url,
                                    timestamp: acc.created->0,
                                    active: match acc.active {
                                        Option::Some(b) => b,
                                        Option::None => false,
                                    },
                                },
                                j,
                            ),
                        )
                    }
                } else {
                    Result::Err(sp_stuck())
                }
            },
        }
    }
}

/// The fields of a folder record collected so far.
pub struct FolderFieldsV {
    pub id: Option<u32>,
    pub uuid: Option<u128>,
    pub name: Option<Seq<char>>,
    pub created: Option<u32>,
    pub expanded: Option<bool>,
    pub trash: Option<bool>,
}

pub open spec fn sp_folder_fields(ts: Seq<STokV>, eof: int, i: int, acc: FolderFieldsV) -> Result<
    (FolderFieldsV, int),
    ParseErrorV,
>
    decreases ts.len() - i,
{
    if tok_at(ts, i) == Option::Some(TokV::Id) {
        if tok_at(ts, i + 1) != Option::Some(TokV::Equal) {
            Result::Err(err_at(ts, eof, i + 1))
        } else {
            match tok_at(ts, i + 2) {
                Option::Some(TokV::Integer(t)) => match sp_u32_value(t) {
                    Result::Ok(v) => sp_folder_fields(
                        ts,
                        eof,
                        i + 3,
                        FolderFieldsV { id: Option::Some(v), ..acc },
                    ),
                    Result::Err(e) => Result::Err(e),
                },
                _ => Result::Err(err_at(ts, eof, i + 2)),
            }
        }
    } else if tok_at(ts, i) == Option::Some(TokV::UniqueId) {
        if tok_at(ts, i + 1) != Option::Some(TokV::Equal) {
            Result::Err(err_at(ts, eof, i + 1))
        } else {
            match tok_at(ts, i + 2) {
                Option::Some(TokV::Uuid(t)) => match sp_uuid_value(t) {
                    Result::Ok(v) => sp_folder_fields(
                        ts,
                        eof,
                        i + 3,
                        FolderFieldsV { uuid: Option::Some(v), ..acc },
                    ),
                    Result::Err(e) => Result::Err(e),
                },
                Option::Some(TokV::Integer(t)) => match sp_uuid_value(t) {
                    Result::Ok(v) => sp_folder_fields(
                        ts,
                        eof,
                        i + 3,
                        FolderFieldsV { uuid: Option::Some(v), ..acc },
                    ),
                    Result::Err(e) => Result::Err(e),
                },
                _ => Result::Err(err_at(ts, eof, i + 2)),
            }
        }
    } else if tok_at(ts, i) == Option::Some(TokV::Name) {
        if tok_at(ts, i + 1) != Option::Some(TokV::Equal) {
            Result::Err(err_at(ts, eof, i + 1))
        } else {
            match tok_at(ts, i + 2) {
                Option::Some(TokV::NoteBody(t)) => sp_folder_fields(
                    ts,
                    eof,
                    i + 3,
                    FolderFieldsV { name: Option::Some(t), ..acc },
                ),
                _ => Result::Err(err_at(ts, eof, i + 2)),
            }
        }
    } else if tok_at(ts, i) == Option::Some(TokV::Created) {
        if tok_at(ts, i + 1) != Option::Some(TokV::Equal) {
            Result::Err(err_at(ts, eof, i + 1))
        } else {
            match tok_at(ts, i + 2) {
                Option::Some(TokV::Integer(t)) => match sp_u32_value(t) {
                    Result::Ok(v) => sp_folder_fields(
                        ts,
                        eof,
                        i + 3,
                        FolderFieldsV { created: Option::Some(v), ..acc },
                    ),
                    Result::Err(e) => Result::Err(e),
                },
                _ => Result::Err(err_at(ts, eof, i + 2)),
            }
        }
    } else if tok_at(ts, i) == Option::Some(TokV::Expanded) {
        if tok_at(ts, i + 1) != Option::Some(TokV::Equal) {
            Result::Err(err_at(ts, eof, i + 1))
        } else {
            match tok_at(ts, i + 2) {
                Option::Some(TokV::Yes) => sp_folder_fields(
                    ts,
                    eof,
                    i + 3,
                    FolderFieldsV { expanded: Option::Some(true), ..acc },
                ),
                Option::Some(TokV::No) => sp_folder_fields(
                    ts,
                    eof,
                    i + 3,
                    FolderFieldsV { expanded: Option::Some(false), ..acc },
                ),
                _ => Result::Err(err_at(ts, eof, i + 2)),
            }
        }
    } else if tok_at(ts, i) == Option::Some(TokV::TrashFolder) {
        if tok_at(ts, i + 1) != Option::Some(TokV::Equal) {
            Result::Err(err_at(ts, eof, i + 1))
        } else {
            match tok_at(ts, i + 2) {
                Option::Some(TokV::Yes) => sp_folder_fields(
                    ts,
                    eof,
                    i + 3,
                    FolderFieldsV { trash: Option::Some(true), ..acc },
                ),
                Option::Some(TokV::No) => sp_folder_fields(
                    ts,
                    eof,
                    i + 3,
                    FolderFieldsV { trash: Option::Some(false), ..acc },
                ),
                _ => Result::Err(err_at(ts, eof, i + 2)),
            }
        }
    } else {
        Result::Ok((acc, i))
    }
}

/// A `#FOLDER` record: fields, nested entries, and the mandatory `-`
/// terminator.  `ID`, `UNIQUEID`, `NAME` and `CREATED` are required; the
/// span of a missing-field error runs to the terminator inclusive.
pub open spec fn sp_folder(ts: Seq<STokV>, eof: int, i: int) -> Result<(FolderV, int), ParseErrorV>
    decreases ts.len() - i, 2int,
{
    if tok_at(ts, i) != Option::Some(TokV::FolderHeader) {
        Result::Err(err_at(ts, eof, i))
    } else {
        let acc0 = FolderFieldsV {
            id: Option::None,
            uuid: Option::None,
            name: Option::None,
            created: Option::None,
            expanded: Option::None,
            trash: Option::None,
        };
        match sp_folder_fields(ts, eof, i + 1, acc0) {
            Result::Err(e) => Result::Err(e),
            Result::Ok((acc, j)) => {
                if i < j <= ts.len() {
                    match sp_entries(ts, eof, j) {
                        Result::Err(e) => Result::Err(e),
                        Result::Ok((children, k)) => {
                            if j <= k <= ts.len() {
                                if tok_at(ts, k) == Option::Some(TokV::FolderEnd) {
                                    let span = sp_record_span(ts, i, k + 1);
                                    if acc.id is None {
                                        Result::Err(
                                            ParseErrorV::Validation(
                                                HotlistErrorV::RequiredFieldMissing("ID"@, span),
                                            ),
                                        )
                                    } else if acc.uuid is None {
                                        Result::Err(
                                            ParseErrorV::Validation(
                                                HotlistErrorV::RequiredFieldMissing(
                                                    "UNIQUEID"@,
                                                    span,
                                                ),
                                            ),
                                        )
                                    } else if acc.name is None {
                                        Result::Err(
                                            ParseErrorV::Validation(
                                                HotlistErrorV::RequiredFieldMissing("NAME"@, span),
                                            ),
                                        )
                                    } else if acc.created is None {
                                        Result::Err(
                                            ParseErrorV::Validation(
                                                HotlistErrorV::RequiredFieldMissing(
                                                    "CREATED"@,
                                                    span,
                                                ),
                                            ),
                                        )
                                    } else {
                                        Result::Ok(
                                            (
                                                FolderV {
                                                    id: acc.id->0,
                                                    uuid: acc.uuid->0,
                                                    name: acc.name->0,
                                                    timestamp: acc.created->0,
                                                    trash: match acc.trash {
                                                        Option::Some(b) => b,
                                                        Option::None => false,
                                                    },
                                                    expanded: match acc.expanded {
                                                        Option::Some(b) => b,
                                                        Option::None => false,
                                                    },
                                                    entries: children,
                                                },
                                                k + 1,
                                            ),
                                        )
                                    }
                                } else {
                                    Result::Err(err_at(ts, eof, k))
                                }
                            } else {
                                Result::Err(sp_stuck())
                            }
                        },
                    }
                } else {
                    Result::Err(sp_stuck())
                }
            },
        }
    }
}

/// Zero or more sibling entries, ending before the first token that opens
/// no record.
pub open spec fn sp_entries(ts: Seq<STokV>, eof: int, i: int) -> Result<
    (Seq<EntryV>, int),
    ParseErrorV,
>
    decreases ts.len() - i, 3int,
{
    if tok_at(ts, i) == Option::Some(TokV::NoteHeader) {
        match sp_note(ts, eof, i) {
            Result::Err(e) => Result::Err(e),
            Result::Ok((nv, j)) => {
                if i < j <= ts.len() {
                    match sp_entries(ts, eof, j) {
                        Result::Err(e) => Result::Err(e),
                        Result::Ok((rest, k)) => Result::Ok((seq![EntryV::Note(nv)] + rest, k)),
                    }
                } else {
                    Result::Err(sp_stuck())
                }
            },
        }
    } else if tok_at(ts, i) == Option::Some(TokV::FolderHeader) {
        match sp_folder(ts, eof, i) {
            Result::Err(e) => Result::Err(e),
            Result::Ok((fv, j)) => {
                if i < j <= ts.len() {
                    match sp_entries(ts, eof, j) {
                        Result::Err(e) => Result::Err(e),
                        Result::Ok((rest, k)) => Result::Ok((seq![EntryV::Folder(fv)] + rest, k)),
                    }
                } else {
                    Result::Err(sp_stuck())
                }
            },
        }
    } else {
        Result::Ok((Seq::empty(), i))
    }
}

/// A whole document: header, entries, end of input.
pub open spec fn sp_hotlist(ts: Seq<STokV>, eof: int) -> Result<HotlistV, ParseErrorV> {
    match sp_header(ts, eof, 0) {
        Result::Err(e) => Result::Err(e),
        Result::Ok((vo, i)) => match sp_entries(ts, eof, i) {
            Result::Err(e) => Result::Err(e),
            Result::Ok((es, j)) => {
                if j == ts.len() {
                    Result::Ok(HotlistV { version: vo.0, options: vo.1, entries: es })
                } else {
                    Result::Err(err_at(ts, eof, j))
                }
            },
        },
    }
}

// ---------------------------------------------------------------------------
// Laws of the grammar
// ---------------------------------------------------------------------------

/// A UUID literal shorter than 32 hexadecimal digits is rejected as
/// `InvalidUuid`, carrying the offending literal.
pub proof fn lemma_short_uuid_rejected(t: Seq<char>)
    requires
        t.len() < 32,
    ensures
        sp_uuid_value(t) == Result::<u128, ParseErrorV>::Err(
            ParseErrorV::Validation(HotlistErrorV::InvalidUuid(t)),
        ),
{
}

/// An integer field whose value exceeds the unsigned 32-bit range is
/// rejected as `IntegerOutOfRange`, carrying the offending literal.
pub proof fn lemma_integer_out_of_range_rejected(t: Seq<char>)
    requires
        dec_val(t) > u32::MAX,
    ensures
        sp_u32_value(t) == Result::<u32, ParseErrorV>::Err(
            ParseErrorV::Validation(HotlistErrorV::IntegerOutOfRange(t)),
        ),
{
}

/// An options block in which nothing shaped like a `key = value` pair
/// follows the `Options:` keyword fails with
/// `RequiredFieldMissing("encoding", _)`, and the span of that error
/// covers exactly the `Options:` occurrence.
pub proof fn lemma_options_missing_encoding(ts: Seq<STokV>, eof: int, i: int)
    requires
        tok_at(ts, i) == Option::Some(TokV::Options),
        tok_at(ts, i + 1) != Option::Some(TokV::Encoding),
        tok_at(ts, i + 2) != Option::Some(TokV::Equal),
    ensures
        sp_options(ts, eof, i) == Result::<(Options, int), ParseErrorV>::Err(
            ParseErrorV::Validation(
                HotlistErrorV::RequiredFieldMissing(
                    "encoding"@,
                    SpanInfo {
                        error: Option::None,
                        entry: (ts[i].start as usize, ts[i].end as usize),
                    },
                ),
            ),
        ),
{
}

/// An options assignment under any key other than `encoding` is ignored:
/// the pair is consumed whole and assigns nothing.
pub proof fn lemma_unrecognized_pair_ignored(ts: Seq<STokV>, eof: int, i: int)
    requires
        tok_at(ts, i) is Some,
        tok_at(ts, i) != Option::Some(TokV::Encoding),
        tok_at(ts, i + 1) == Option::Some(TokV::Equal),
        tok_at(ts, i + 2) is Some,
    ensures
        sp_opt_pair(ts, eof, i) == Result::<(Option<Encoding>, int), ParseErrorV>::Ok(
            (Option::None, i + 3),
        ),
{
}

/// Sibling records keep source order: when the note record opening at `i`
/// parses to `nv` and the entries after it parse to `rest`, the entry
/// sequence from `i` is `nv` followed by `rest`, unchanged and in order.
pub proof fn lemma_note_then_entries_in_order(
    ts: Seq<STokV>,
    eof: int,
    i: int,
    nv: NoteV,
    j: int,
    rest: Seq<EntryV>,
    k: int,
)
    requires
        tok_at(ts, i) == Option::Some(TokV::NoteHeader),
        sp_note(ts, eof, i) == Result::<(NoteV, int), ParseErrorV>::Ok((nv, j)),
        i < j <= ts.len(),
        sp_entries(ts, eof, j) == Result::<(Seq<EntryV>, int), ParseErrorV>::Ok((rest, k)),
    ensures
        sp_entries(ts, eof, i) == Result::<(Seq<EntryV>, int), ParseErrorV>::Ok(
            (seq![EntryV::Note(nv)] + rest, k),
        ),
{
}

/// The same source-order law for a folder record and the entries after it.
pub proof fn lemma_folder_then_entries_in_order(
    ts: Seq<STokV>,
    eof: int,
    i: int,
    fv: FolderV,
    j: int,
    rest: Seq<EntryV>,
    k: int,
)
    requires
        tok_at(ts, i) == Option::Some(TokV::FolderHeader),
        sp_folder(ts, eof, i) == Result::<(FolderV, int), ParseErrorV>::Ok((fv, j)),
        i < j <= ts.len(),
        sp_entries(ts, eof, j) == Result::<(Seq<EntryV>, int), ParseErrorV>::Ok((rest, k)),
    ensures
        sp_entries(ts, eof, i) == Result::<(Seq<EntryV>, int), ParseErrorV>::Ok(
            (seq![EntryV::Folder(fv)] + rest, k),
        ),
{
}

// A hex run whose characters are known pointwise.
proof fn lemma_hex_run_eq(t: Seq<char>, j: int, k: int)
    requires
        0 <= j <= k <= t.len(),
        forall|i: int| j <= i < k ==> crate::strutil::is_upper_hex(#[trigger] t[i]),
        k < t.len() ==> !crate::strutil::is_upper_hex(t[k]),
    ensures
        hex_run(t, j) == k - j,
    decreases k - j,
{
    if j < k {
        lemma_hex_run_eq(t, j + 1, k);
    }
}

// No fixed literal that begins with a non-digit occurs where a digit stands.
proof fn refute_lit_at_digit(s: Seq<char>, p: int, lit: Seq<char>)
    requires
        0 <= p < s.len(),
        is_digit(s[p]),
        lit.len() >= 1,
        !is_digit(lit[0]),
    ensures
        !crate::lexer::lit_match(s, p, lit),
{
    if crate::lexer::lit_match(s, p, lit) {
        assert(s.subrange(p, p + lit.len())[0] == s[p]);
    }
}

/// The header text of any two-component version: the version literal, one
/// space, and the decimal numerals of the components around a dot.
pub open spec fn header_version_text(major: u64, minor: u64) -> Seq<char> {
    "Opera Hotlist version "@ + dec_str(major as nat) + seq!['.'] + dec_str(minor as nat)
}

// The header text of any version lexes into exactly the version literal
// and one version numeral token.
#[verifier::rlimit(100)]
proof fn lemma_header_version_tokens(major: u64, minor: u64)
    ensures
        ({
            let s = header_version_text(major, minor);
            let dm = dec_str(major as nat).len() as int;
            let vtext = dec_str(major as nat) + seq!['.'] + dec_str(minor as nat);
            spec_tokens(s, init_lex_state()) == Result::<Seq<STokV>, int>::Ok(
                seq![
                    STokV { start: 0, tok: TokV::HotlistVersion, end: 21 },
                    STokV { start: 22, tok: TokV::Version(vtext), end: s.len() as int },
                ],
            )
        }),
{
    reveal_strlit("Opera Hotlist version ");
    reveal_strlit("Opera Hotlist version");
    let pre = "Opera Hotlist version "@;
    let dmseq = dec_str(major as nat);
    let dnseq = dec_str(minor as nat);
    let dm = dmseq.len() as int;
    let dn = dnseq.len() as int;
    let s = header_version_text(major, minor);
    let len = s.len() as int;
    crate::strutil::lemma_dec_str_digits(major as nat);
    crate::strutil::lemma_dec_str_digits(minor as nat);
    assert(pre.len() == 22);
    assert(len == 22 + dm + 1 + dn);
    assert(forall|k: int| 0 <= k < 22 ==> s[k] == pre[k]);
    assert(forall|k: int| 22 <= k < 22 + dm ==> s[k] == dmseq[k - 22]);
    assert(s[22 + dm] == '.');
    assert(forall|k: int| 22 + dm < k < len ==> s[k] == dnseq[k - 23 - dm]);
    assert(forall|k: int| 22 <= k < 22 + dm ==> is_digit(s[k]));
    assert(forall|k: int| 22 + dm < k < len ==> is_digit(s[k]));

    // --- first step: the version literal ---
    let st0 = init_lex_state();
    assert(!crate::lexer::is_ws(s[0]));
    assert(ws_run(s, 0) == 0);
    assert(crate::lexer::lit_match(s, 0, "Opera Hotlist version"@)) by {
        assert(s.subrange(0, 21) =~= "Opera Hotlist version"@);
    }
    assert(lit_best(s, 0) == Option::<(TokV, int)>::Some((TokV::HotlistVersion, 21int)));
    assert(digit_run(s, 0) == 0);
    assert(hex_run(s, 0) == 0);
    assert(version_len(s, 0) == 0);
    assert(url_len(s, 0) == 0);
    let step1 = spec_step(s, st0);
    let t1 = STokV { start: 0, tok: TokV::HotlistVersion, end: 21 };
    let st1 = LexStV { pos: 21, in_name: false, body: false };
    assert(step1 == StepV::Tok(t1, st1));

    // --- second step: the version numeral ---
    assert(s[21] == ' ');
    assert(!crate::lexer::is_ws(s[22]));
    assert(ws_run(s, 22) == 0);
    assert(ws_run(s, 21) == 1);
    assert(is_digit(s[22]));
    reveal_strlit("TRASH FOLDER");
    reveal_strlit("Options:");
    reveal_strlit("encoding");
    reveal_strlit("UNIQUEID");
    reveal_strlit("EXPANDED");
    reveal_strlit("version");
    reveal_strlit("CREATED");
    reveal_strlit("#FOLDER");
    reveal_strlit("ACTIVE");
    reveal_strlit("#NOTE");
    reveal_strlit("utf8");
    reveal_strlit("NAME");
    reveal_strlit("URL");
    reveal_strlit("YES");
    reveal_strlit("ID");
    reveal_strlit("NO");
    reveal_strlit("=");
    reveal_strlit(",");
    reveal_strlit("-");
    refute_lit_at_digit(s, 22, "Opera Hotlist version"@);
    refute_lit_at_digit(s, 22, "TRASH FOLDER"@);
    refute_lit_at_digit(s, 22, "Options:"@);
    refute_lit_at_digit(s, 22, "encoding"@);
    refute_lit_at_digit(s, 22, "UNIQUEID"@);
    refute_lit_at_digit(s, 22, "EXPANDED"@);
    refute_lit_at_digit(s, 22, "version"@);
    refute_lit_at_digit(s, 22, "CREATED"@);
    refute_lit_at_digit(s, 22, "#FOLDER"@);
    refute_lit_at_digit(s, 22, "ACTIVE"@);
    refute_lit_at_digit(s, 22, "#NOTE"@);
    refute_lit_at_digit(s, 22, "utf8"@);
    refute_lit_at_digit(s, 22, "NAME"@);
    refute_lit_at_digit(s, 22, "URL"@);
    refute_lit_at_digit(s, 22, "YES"@);
    refute_lit_at_digit(s, 22, "ID"@);
    refute_lit_at_digit(s, 22, "NO"@);
    refute_lit_at_digit(s, 22, "="@);
    refute_lit_at_digit(s, 22, ","@);
    refute_lit_at_digit(s, 22, "-"@);
    assert(lit_best(s, 22) is None);
    lemma_digit_run_eq(s, 22, 22 + dm);
    assert(digit_run(s, 22) == dm);
    assert(!crate::strutil::is_upper_hex(s[22 + dm]));
    lemma_hex_run_eq(s, 22, 22 + dm);
    assert(hex_run(s, 22) == dm);
    assert(is_digit(s[22 + dm + 1]));
    lemma_digit_run_eq(s, 22 + dm + 2, len);
    assert(digit_run(s, 22 + dm + 2) == dn - 1);
    assert(version_len(s, 22) == dm + 1 + dn);
    assert(url_len(s, 22) == 0);
    let vtext = dmseq + seq!['.'] + dnseq;
    assert(s.subrange(22, 22 + (dm + 1 + dn)) =~= vtext);
    let step2 = spec_step(s, st1);
    let t2 = STokV { start: 22, tok: TokV::Version(vtext), end: len };
    let st2 = LexStV { pos: len, in_name: false, body: false };
    assert(crate::lexer::max2(
        0,
        crate::lexer::max2(
            dm,
            crate::lexer::max2(dm + 1 + dn, crate::lexer::max2(dm, 0)),
        ),
    ) == dm + 1 + dn);
    assert(step2 == StepV::Tok(t2, st2));

    // --- third step: end of input ---
    assert(ws_run(s, len) == 0);
    assert(spec_step(s, st2) is Eof);

    assert(spec_tokens(s, st2) == Result::<Seq<STokV>, int>::Ok(Seq::<STokV>::empty()));
    assert(spec_tokens(s, st1) == Result::<Seq<STokV>, int>::Ok(seq![t2] + Seq::<STokV>::empty()));
    assert(spec_tokens(s, st0) == Result::<Seq<STokV>, int>::Ok(
        seq![t1] + (seq![t2] + Seq::<STokV>::empty()),
    ));
    assert(seq![t1] + (seq![t2] + Seq::<STokV>::empty()) =~= seq![t1, t2]);
}

/// For any two-component version, the header text
/// `Opera Hotlist version <major>.<minor>` parses to exactly that version.
#[verifier::rlimit(100)]
pub proof fn lemma_header_version_roundtrip(major: u64, minor: u64)
    ensures
        sp_parse_version_str(header_version_text(major, minor)) == Result::<
            Version,
            ParseErrorV,
        >::Ok(Version { major, minor }),
{
    lemma_header_version_tokens(major, minor);
    let s = header_version_text(major, minor);
    let dmseq = dec_str(major as nat);
    let dnseq = dec_str(minor as nat);
    let dm = dmseq.len() as int;
    let vtext = dmseq + seq!['.'] + dnseq;
    let t1 = STokV { start: 0, tok: TokV::HotlistVersion, end: 21 };
    let t2 = STokV { start: 22, tok: TokV::Version(vtext), end: s.len() as int };
    let ts = seq![t1, t2];
    assert(seq![t1] + (seq![t2] + Seq::<STokV>::empty()) =~= ts);
    assert(spec_tokens(s, init_lex_state()) == Result::<Seq<STokV>, int>::Ok(ts));
    crate::strutil::lemma_dec_str_digits(major as nat);
    crate::strutil::lemma_dec_str_digits(minor as nat);
    crate::strutil::lemma_dec_str_roundtrip(major as nat);
    crate::strutil::lemma_dec_str_roundtrip(minor as nat);
    assert(tok_at(ts, 0) == Option::Some(TokV::HotlistVersion));
    assert(tok_at(ts, 1) == Option::Some(TokV::Version(vtext)));
    assert(forall|k: int| 0 <= k < dm ==> vtext[k] == dmseq[k]);
    assert(vtext[dm] == '.');
    assert(forall|k: int| dm < k < vtext.len() ==> vtext[k] == dnseq[k - dm - 1]);
    assert(forall|k: int| 0 <= k < dm ==> is_digit(vtext[k]));
    lemma_digit_run_eq(vtext, 0, dm);
    assert(digit_run(vtext, 0) == dm);
    assert(dm != vtext.len());
    assert(vtext.take(dm) =~= dmseq);
    assert(vtext.skip(dm + 1) =~= dnseq);
    assert(dec_val(vtext.take(dm)) == major);
    assert(dec_val(vtext.skip(dm + 1)) == minor);
    assert(sp_version_value(vtext) == Result::<Version, ParseErrorV>::Ok(
        Version { major, minor },
    ));
    assert(sp_version_tok(ts, s.len() as int, 1) == Result::<(Version, int), ParseErrorV>::Ok(
        (Version { major, minor }, 2),
    ));
    assert(sp_hotlist_version(ts, s.len() as int, 0) == Result::<
        (Version, int),
        ParseErrorV,
    >::Ok((Version { major, minor }, 2)));
}

// ---------------------------------------------------------------------------
// The executable parser, equal to the grammar rule by rule
// ---------------------------------------------------------------------------

fn err_tok<'i>(toks: &Vec<SpannedTok<'i>>, eof: usize, i: usize) -> (r: ParseError)
    ensures
        r@ == err_at(stoks_view(toks@), eof as int, i as int),
{
    if i < toks.len() {
        proof {
            assert(stoks_view(toks@)[i as int] == toks@[i as int]@);
        }
        ParseError::UnexpectedToken { start: toks[i].start, end: toks[i].end }
    } else {
        ParseError::UnexpectedEof { offset: eof }
    }
}

// Demands `=` after the field keyword at `i` and hands back the value
// token after it.
fn expect_eq_then<'i>(toks: &Vec<SpannedTok<'i>>, eof: usize, i: usize) -> (r: Result<
    SpannedTok<'i>,
    ParseError,
>)
    requires
        i < toks@.len(),
    ensures
        ({
            let ts = stoks_view(toks@);
            match r {
                Result::Ok(tk) => {
                    &&& tok_at(ts, i as int + 1) == Option::Some(TokV::Equal)
                    &&& i + 2 < toks@.len()
                    &&& tk@ == ts[i as int + 2]
                    &&& tok_at(ts, i as int + 2) == Option::Some(tk@.tok)
                },
                Result::Err(e) => {
                    if tok_at(ts, i as int + 1) != Option::Some(TokV::Equal) {
                        e@ == err_at(ts, eof as int, i as int + 1)
                    } else {
                        tok_at(ts, i as int + 2) is None && e@ == err_at(ts, eof as int, i as int
                            + 2)
                    }
                },
            }
        }),
{
    proof {
        if i + 1 < toks@.len() {
            assert(stoks_view(toks@)[i as int + 1] == toks@[i as int + 1]@);
        }
        if i + 2 < toks@.len() {
            assert(stoks_view(toks@)[i as int + 2] == toks@[i as int + 2]@);
        }
    }
    let n = toks.len();
    if i + 1 >= n {
        return Result::Err(err_tok(toks, eof, i + 1));
    }
    let is_eq = match toks[i + 1].tok {
        Tok::Equal => true,
        _ => false,
    };
    if !is_eq {
        return Result::Err(err_tok(toks, eof, i + 1));
    }
    if i + 2 >= toks.len() {
        return Result::Err(err_tok(toks, eof, i + 2));
    }
    Result::Ok(toks[i + 2])
}

fn p_version_tok<'i>(toks: &Vec<SpannedTok<'i>>, eof: usize, i: usize) -> (r: Result<
    (Version, usize),
    ParseError,
>)
    requires
        toks_wf(stoks_view(toks@)),
    ensures
        ({
            let s = sp_version_tok(stoks_view(toks@), eof as int, i as int);
            match s {
                Result::Ok(p) => r matches Result::Ok(rp) && rp.0 == p.0 && rp.1 as int == p.1,
                Result::Err(ev) => r matches Result::Err(e) && e@ == ev,
            }
        }),
{
    if i >= toks.len() {
        return Result::Err(err_tok(toks, eof, i));
    }
    proof {
        assert(stoks_view(toks@)[i as int] == toks@[i as int]@);
        assert(tok_wf(stoks_view(toks@)[i as int].tok));
    }
    let tk = toks[i].tok;
    match tk {
        Tok::Version(t) => match p_version_value(t) {
            Result::Ok(v) => Result::Ok((v, i + 1)),
            Result::Err(e) => Result::Err(e),
        },
        Tok::Integer(t) => {
            proof {
                crate::lexer::lemma_digit_run_bounds(t@, 0);
            }
            match p_version_value(t) {
                Result::Ok(v) => Result::Ok((v, i + 1)),
                Result::Err(e) => Result::Err(e),
            }
        },
        _ => Result::Err(err_tok(toks, eof, i)),
    }
}

fn p_hotlist_version<'i>(toks: &Vec<SpannedTok<'i>>, eof: usize, i: usize) -> (r: Result<
    (Version, usize),
    ParseError,
>)
    requires
        toks_wf(stoks_view(toks@)),
    ensures
        ({
            let s = sp_hotlist_version(stoks_view(toks@), eof as int, i as int);
            match s {
                Result::Ok(p) => r matches Result::Ok(rp) && rp.0 == p.0 && rp.1 as int == p.1,
                Result::Err(ev) => r matches Result::Err(e) && e@ == ev,
            }
        }),
{
    if i >= toks.len() {
        return Result::Err(err_tok(toks, eof, i));
    }
    proof {
        assert(stoks_view(toks@)[i as int] == toks@[i as int]@);
    }
    let is_hv = match toks[i].tok {
        Tok::HotlistVersion => true,
        _ => false,
    };
    if is_hv {
        p_version_tok(toks, eof, i + 1)
    } else {
        Result::Err(err_tok(toks, eof, i))
    }
}

fn p_single_op<'i>(toks: &Vec<SpannedTok<'i>>, eof: usize, i: usize) -> (r: Result<
    (SingleOp, usize),
    ParseError,
>)
    requires
        toks_wf(stoks_view(toks@)),
    ensures
        ({
            let s = sp_single_op(stoks_view(toks@), eof as int, i as int);
            match s {
                Result::Ok(p) => r matches Result::Ok(rp) && rp.0 == p.0 && rp.1 as int == p.1
                    && i < p.1 <= toks@.len(),
                Result::Err(ev) => r matches Result::Err(e) && e@ == ev,
            }
        }),
{
    let ghost ts = stoks_view(toks@);
    proof {
        if i < toks@.len() {
            assert(ts[i as int] == toks@[i as int]@);
        }
        if i + 1 < toks@.len() {
            assert(ts[i as int + 1] == toks@[i as int + 1]@);
        }
        if i + 2 < toks@.len() {
            assert(ts[i as int + 2] == toks@[i as int + 2]@);
        }
        if i + 3 < toks@.len() {
            assert(ts[i as int + 3] == toks@[i as int + 3]@);
        }
        if i + 4 < toks@.len() {
            assert(ts[i as int + 4] == toks@[i as int + 4]@);
        }
        if i + 5 < toks@.len() {
            assert(ts[i as int + 5] == toks@[i as int + 5]@);
        }
    }
    if i >= toks.len() || !(match toks[i].tok {
        Tok::Encoding => true,
        _ => false,
    }) {
        return Result::Err(err_tok(toks, eof, i));
    }
    if i + 1 >= toks.len() || !(match toks[i + 1].tok {
        Tok::Equal => true,
        _ => false,
    }) {
        return Result::Err(err_tok(toks, eof, i + 1));
    }
    if i + 2 >= toks.len() || !(match toks[i + 2].tok {
        Tok::Utf8 => true,
        _ => false,
    }) {
        return Result::Err(err_tok(toks, eof, i + 2));
    }
    let n = toks.len();
    let has_ver = n >= 5 && i < n - 4 && (match toks[i + 3].tok {
        Tok::Comma => true,
        _ => false,
    }) && (match toks[i + 4].tok {
        Tok::EncodingVersion => true,
        _ => false,
    });
    proof {
        assert(has_ver == (tok_at(ts, i as int + 3) == Option::Some(TokV::Comma) && tok_at(
            ts,
            i as int + 4,
        ) == Option::Some(TokV::EncodingVersion)));
    }
    if has_ver {
        if i + 5 >= toks.len() || !(match toks[i + 5].tok {
            Tok::Equal => true,
            _ => false,
        }) {
            return Result::Err(err_tok(toks, eof, i + 5));
        }
        match p_version_tok(toks, eof, i + 6) {
            Result::Ok((v, j)) => {
                proof {
                    assert(sp_version_tok(ts, eof as int, i as int + 6) matches Result::Ok(p)
                        && p.1 == j);
                    assert(j <= toks@.len());
                }
                Result::Ok((SingleOp::Encoding(Encoding::Utf8(v)), j))
            },
            Result::Err(e) => Result::Err(e),
        }
    } else {
        Result::Ok((SingleOp::Encoding(Encoding::Utf8(Version { major: 0, minor: 0 })), i + 3))
    }
}

fn p_opt_pair<'i>(toks: &Vec<SpannedTok<'i>>, eof: usize, i: usize) -> (r: Result<
    (Option<Encoding>, usize),
    ParseError,
>)
    requires
        toks_wf(stoks_view(toks@)),
    ensures
        ({
            let s = sp_opt_pair(stoks_view(toks@), eof as int, i as int);
            match s {
                Result::Ok(p) => r matches Result::Ok(rp) && rp.0 == p.0 && rp.1 as int == p.1
                    && i < p.1 <= toks@.len(),
                Result::Err(ev) => r matches Result::Err(e) && e@ == ev,
            }
        }),
{
    let ghost ts = stoks_view(toks@);
    proof {
        if i < toks@.len() {
            assert(ts[i as int] == toks@[i as int]@);
        }
        if i + 1 < toks@.len() {
            assert(ts[i as int + 1] == toks@[i as int + 1]@);
        }
        if i + 2 < toks@.len() {
            assert(ts[i as int + 2] == toks@[i as int + 2]@);
        }
    }
    if i >= toks.len() {
        return Result::Err(err_tok(toks, eof, i));
    }
    let is_enc = match toks[i].tok {
        Tok::Encoding => true,
        _ => false,
    };
    if is_enc {
        match p_single_op(toks, eof, i) {
            Result::Err(e) => Result::Err(e),
            Result::Ok((op, j)) => {
                let enc = match op {
                    SingleOp::Encoding(e) => e,
                };
                Result::Ok((Option::Some(enc), j))
            },
        }
    } else {
        if i + 1 >= toks.len() || !(match toks[i + 1].tok {
            Tok::Equal => true,
            _ => false,
        }) {
            return Result::Err(err_tok(toks, eof, i + 1));
        }
        if i + 2 >= toks.len() {
            return Result::Err(err_tok(toks, eof, i + 2));
        }
        Result::Ok((Option::None, i + 3))
    }
}

fn p_ops<'i>(toks: &Vec<SpannedTok<'i>>, eof: usize, i: usize, acc: Option<Encoding>) -> (r:
    Result<(Option<Encoding>, usize), ParseError>)
    requires
        toks_wf(stoks_view(toks@)),
    ensures
        ({
            let s = sp_ops(stoks_view(toks@), eof as int, i as int, acc);
            match s {
                Result::Ok(p) => r matches Result::Ok(rp) && rp.0 == p.0 && rp.1 as int == p.1
                    && i < p.1 <= toks@.len(),
                Result::Err(ev) => r matches Result::Err(e) && e@ == ev,
            }
        }),
    decreases toks@.len() - i,
{
    let ghost ts = stoks_view(toks@);
    match p_opt_pair(toks, eof, i) {
        Result::Err(e) => Result::Err(e),
        Result::Ok((enc, j)) => {
            let acc2 = if enc.is_some() {
                enc
            } else {
                acc
            };
            let more = j < toks.len() && (match toks[j].tok {
                Tok::Comma => true,
                _ => false,
            });
            proof {
                if j < toks@.len() {
                    assert(ts[j as int] == toks@[j as int]@);
                }
            }
            if more {
                match p_ops(toks, eof, j + 1, acc2) {
                    Result::Ok(pr) => Result::Ok(pr),
                    Result::Err(e) => Result::Err(e),
                }
            } else {
                Result::Ok((acc2, j))
            }
        },
    }
}

fn p_options<'i>(toks: &Vec<SpannedTok<'i>>, eof: usize, i: usize) -> (r: Result<
    (Options, usize),
    ParseError,
>)
    requires
        toks_wf(stoks_view(toks@)),
    ensures
        ({
            let s = sp_options(stoks_view(toks@), eof as int, i as int);
            match s {
                Result::Ok(p) => r matches Result::Ok(rp) && rp.0 == p.0 && rp.1 as int == p.1
                    && p.1 <= toks@.len(),
                Result::Err(ev) => r matches Result::Err(e) && e@ == ev,
            }
        }),
{
    let ghost ts = stoks_view(toks@);
    let n = toks.len();
    proof {
        if i < toks@.len() {
            assert(ts[i as int] == toks@[i as int]@);
        }
        if i + 1 < toks@.len() {
            assert(ts[i as int + 1] == toks@[i as int + 1]@);
        }
        if i + 2 < toks@.len() {
            assert(ts[i as int + 2] == toks@[i as int + 2]@);
        }
    }
    if i >= n || !(match toks[i].tok {
        Tok::Options => true,
        _ => false,
    }) {
        return Result::Err(err_tok(toks, eof, i));
    }
    let pair_ahead = (i + 1 < n && (match toks[i + 1].tok {
        Tok::Encoding => true,
        _ => false,
    })) || (n >= 3 && i < n - 2 && (match toks[i + 2].tok {
        Tok::Equal => true,
        _ => false,
    }));
    if pair_ahead {
        match p_ops(toks, eof, i + 1, Option::None) {
            Result::Err(e) => Result::Err(e),
            Result::Ok((encopt, j)) => match encopt {
                Option::Some(enc) => Result::Ok((Options { encoding: enc }, j)),
                Option::None => {
                    proof {
                        assert(ts[j as int - 1] == toks@[j as int - 1]@);
                    }
                    Result::Err(
                        ParseError::Validation(
                            HotlistError::RequiredFieldMissing(
                                String::from_str("encoding"),
                                SpanInfo {
                                    error: Option::None,
                                    entry: (toks[i].start, toks[j - 1].end),
                                },
                            ),
                        ),
                    )
                },
            },
        }
    } else {
        Result::Err(
            ParseError::Validation(
                HotlistError::RequiredFieldMissing(
                    String::from_str("encoding"),
                    SpanInfo { error: Option::None, entry: (toks[i].start, toks[i].end) },
                ),
            ),
        )
    }
}

fn p_header<'i>(toks: &Vec<SpannedTok<'i>>, eof: usize, i: usize) -> (r: Result<
    ((Version, Options), usize),
    ParseError,
>)
    requires
        toks_wf(stoks_view(toks@)),
    ensures
        ({
            let s = sp_header(stoks_view(toks@), eof as int, i as int);
            match s {
                Result::Ok(p) => r matches Result::Ok(rp) && rp.0 == p.0 && rp.1 as int == p.1
                    && p.1 <= toks@.len(),
                Result::Err(ev) => r matches Result::Err(e) && e@ == ev,
            }
        }),
{
    match p_hotlist_version(toks, eof, i) {
        Result::Err(e) => Result::Err(e),
        Result::Ok((v, j)) => match p_options(toks, eof, j) {
            Result::Err(e) => Result::Err(e),
            Result::Ok((o, k)) => Result::Ok(((v, o), k)),
        },
    }
}

struct NoteFields {
    id: Option<u32>,
    uuid: Option<u128>,
    contents: Option<String>,
    url: Option<String>,
    created: Option<u32>,
    active: Option<bool>,
}

impl View for NoteFields {
    type V = NoteFieldsV;

    closed spec fn view(&self) -> NoteFieldsV {
        NoteFieldsV {
            id: self.id,
            uuid: self.uuid,
            contents: crate::ast::opt_str_view(self.contents),
            url: crate::ast::opt_str_view(self.url),
            created: self.created,
            active: self.active,
        }
    }
}

#[verifier::rlimit(100)]
fn p_note_fields<'i>(toks: &Vec<SpannedTok<'i>>, eof: usize, i: usize, acc: NoteFields) -> (r:
    Result<(NoteFields, usize), ParseError>)
    requires
        toks_wf(stoks_view(toks@)),
        i <= toks@.len(),
    ensures
        ({
            let s = sp_note_fields(stoks_view(toks@), eof as int, i as int, acc@);
            match s {
                Result::Ok(p) => r matches Result::Ok(rp) && rp.0@ == p.0 && rp.1 as int == p.1
                    && i <= p.1 <= toks@.len(),
                Result::Err(ev) => r matches Result::Err(e) && e@ == ev,
            }
        }),
    decreases toks@.len() - i,
{
    let ghost ts = stoks_view(toks@);
    if i >= toks.len() {
        return Result::Ok((acc, i));
    }
    proof {
        assert(ts[i as int] == toks@[i as int]@);
        if i + 2 < toks@.len() {
            assert(tok_wf(ts[i as int + 2].tok));
        }
    }
    let kind = toks[i].tok;
    match kind {
        Tok::Id => {
            match expect_eq_then(toks, eof, i) {
                Result::Err(e) => Result::Err(e),
                Result::Ok(vt) => match vt.tok {
                    Tok::Integer(t) => match p_u32_value(t) {
                        Result::Ok(v) => p_note_fields(
                            toks,
                            eof,
                            i + 3,
                            NoteFields { id: Option::Some(v), ..acc },
                        ),
                        Result::Err(e) => Result::Err(e),
                    },
                    _ => Result::Err(err_tok(toks, eof, i + 2)),
                },
            }
        },
        Tok::UniqueId => {
            match expect_eq_then(toks, eof, i) {
                Result::Err(e) => Result::Err(e),
                Result::Ok(vt) => match vt.tok {
                    Tok::Uuid(t) => match p_uuid_value(t) {
                        Result::Ok(v) => p_note_fields(
                            toks,
                            eof,
                            i + 3,
                            NoteFields { uuid: Option::Some(v), ..acc },
                        ),
                        Result::Err(e) => Result::Err(e),
                    },
                    Tok::Integer(t) => {
                        proof {
                            crate::strutil::lemma_digits_are_hex(t@);
                        }
                        match p_uuid_value(t) {
                            Result::Ok(v) => p_note_fields(
                                toks,
                                eof,
                                i + 3,
                                NoteFields { uuid: Option::Some(v), ..acc },
                            ),
                            Result::Err(e) => Result::Err(e),
                        }
                    },
                    _ => Result::Err(err_tok(toks, eof, i + 2)),
                },
            }
        },
        Tok::Name => {
            match expect_eq_then(toks, eof, i) {
                Result::Err(e) => Result::Err(e),
                Result::Ok(vt) => match vt.tok {
                    Tok::NoteBody(t) => p_note_fields(
                        toks,
                        eof,
                        i + 3,
                        NoteFields { contents: Option::Some(String::from_str(t)), ..acc },
                    ),
                    _ => Result::Err(err_tok(toks, eof, i + 2)),
                },
            }
        },
        Tok::Url => {
            match expect_eq_then(toks, eof, i) {
                Result::Err(e) => Result::Err(e),
                Result::Ok(vt) => match vt.tok {
                    Tok::UrlBody(t) => match p_url_value(t) {
                        Result::Ok(u) => p_note_fields(
                            toks,
                            eof,
                            i + 3,
                            NoteFields { url: Option::Some(u), ..acc },
                        ),
                        Result::Err(e) => Result::Err(e),
                    },
                    _ => Result::Err(err_tok(toks, eof, i + 2)),
                },
            }
        },
        Tok::Created => {
            match expect_eq_then(toks, eof, i) {
                Result::Err(e) => Result::Err(e),
                Result::Ok(vt) => match vt.tok {
                    Tok::Integer(t) => match p_u32_value(t) {
                        Result::Ok(v) => p_note_fields(
                            toks,
                            eof,
                            i + 3,
                            NoteFields { created: Option::Some(v), ..acc },
                        ),
                        Result::Err(e) => Result::Err(e),
                    },
                    _ => Result::Err(err_tok(toks, eof, i + 2)),
                },
            }
        },
        Tok::Active => {
            match expect_eq_then(toks, eof, i) {
                Result::Err(e) => Result::Err(e),
                Result::Ok(vt) => match vt.tok {
                    Tok::Yes => p_note_fields(
                        toks,
                        eof,
                        i + 3,
                        NoteFields { active: Option::Some(true), ..acc },
                    ),
                    Tok::No => p_note_fields(
                        toks,
                        eof,
                        i + 3,
                        NoteFields { active: Option::Some(false), ..acc },
                    ),
                    _ => Result::Err(err_tok(toks, eof, i + 2)),
                },
            }
        },
        _ => Result::Ok((acc, i)),
    }
}

#[verifier::rlimit(100)]
fn p_note<'i>(toks: &Vec<SpannedTok<'i>>, eof: usize, i: usize) -> (r: Result<
    (Note, usize),
    ParseError,
>)
    requires
        toks_wf(stoks_view(toks@)),
    ensures
        ({
            let s = sp_note(stoks_view(toks@), eof as int, i as int);
            match s {
                Result::Ok(p) => r matches Result::Ok(rp) && rp.0@ == p.0 && rp.1 as int == p.1
                    && i < p.1 <= toks@.len(),
                Result::Err(ev) => r matches Result::Err(e) && e@ == ev,
            }
        }),
    decreases toks@.len() - i, 2int,
{
    let ghost ts = stoks_view(toks@);
    if i >= toks.len() || !(match toks[i].tok {
        Tok::NoteHeader => true,
        _ => false,
    }) {
        proof {
            if i < toks@.len() {
                assert(ts[i as int] == toks@[i as int]@);
            }
        }
        return Result::Err(err_tok(toks, eof, i));
    }
    proof {
        assert(ts[i as int] == toks@[i as int]@);
    }
    let acc0 = NoteFields {
        id: Option::None,
        uuid: Option::None,
        contents: Option::None,
        url: Option::None,
        created: Option::None,
        active: Option::None,
    };
    match p_note_fields(toks, eof, i + 1, acc0) {
        Result::Err(e) => Result::Err(e),
        Result::Ok((acc, j)) => {
            proof {
                assert(ts[j as int - 1] == toks@[j as int - 1]@);
            }
            let span = SpanInfo {
                error: Option::None,
                entry: (toks[i].start, toks[j - 1].end),
            };
            if acc.id.is_none() {
                Result::Err(
                    ParseError::Validation(
                        HotlistError::RequiredFieldMissing(String::from_str("ID"), span),
                    ),
                )
            } else if acc.uuid.is_none() {
                Result::Err(
                    ParseError::Validation(
                        HotlistError::RequiredFieldMissing(String::from_str("UNIQUEID"), span),
                    ),
                )
            } else if acc.created.is_none() {
                Result::Err(
                    ParseError::Validation(
                        HotlistError::RequiredFieldMissing(String::from_str("CREATED"), span),
                    ),
                )
            } else {
                let n = Note {
                    id: acc.id.unwrap(),
                    uuid: acc.uuid.unwrap(),
                    contents: acc.contents,
                    url: acc.url,
                    timestamp: acc.created.unwrap(),
                    active: match acc.active {
                        Option::Some(b) => b,
                        Option::None => false,
                    },
                };
                Result::Ok((n, j))
            }
        },
    }
}

struct FolderFields {
    id: Option<u32>,
    uuid: Option<u128>,
    name: Option<String>,
    created: Option<u32>,
    expanded: Option<bool>,
    trash: Option<bool>,
}

impl View for FolderFields {
    type V = FolderFieldsV;

    closed spec fn view(&self) -> FolderFieldsV {
        FolderFieldsV {
            id: self.id,
            uuid: self.uuid,
            name: crate::ast::opt_str_view(self.name),
            created: self.created,
            expanded: self.expanded,
            trash: self.trash,
        }
    }
}

#[verifier::rlimit(100)]
fn p_folder_fields<'i>(toks: &Vec<SpannedTok<'i>>, eof: usize, i: usize, acc: FolderFields) -> (r:
    Result<(FolderFields, usize), ParseError>)
    requires
        toks_wf(stoks_view(toks@)),
        i <= toks@.len(),
    ensures
        ({
            let s = sp_folder_fields(stoks_view(toks@), eof as int, i as int, acc@);
            match s {
                Result::Ok(p) => r matches Result::Ok(rp) && rp.0@ == p.0 && rp.1 as int == p.1
                    && i <= p.1 <= toks@.len(),
                Result::Err(ev) => r matches Result::Err(e) && e@ == ev,
            }
        }),
    decreases toks@.len() - i,
{
    let ghost ts = stoks_view(toks@);
    if i >= toks.len() {
        return Result::Ok((acc, i));
    }
    proof {
        assert(ts[i as int] == toks@[i as int]@);
        if i + 2 < toks@.len() {
            assert(tok_wf(ts[i as int + 2].tok));
        }
    }
    let kind = toks[i].tok;
    match kind {
        Tok::Id => {
            match expect_eq_then(toks, eof, i) {
                Result::Err(e) => Result::Err(e),
                Result::Ok(vt) => match vt.tok {
                    Tok::Integer(t) => match p_u32_value(t) {
                        Result::Ok(v) => p_folder_fields(
                            toks,
                            eof,
                            i + 3,
                            FolderFields { id: Option::Some(v), ..acc },
                        ),
                        Result::Err(e) => Result::Err(e),
                    },
                    _ => Result::Err(err_tok(toks, eof, i + 2)),
                },
            }
        },
        Tok::UniqueId => {
            match expect_eq_then(toks, eof, i) {
                Result::Err(e) => Result::Err(e),
                Result::Ok(vt) => match vt.tok {
                    Tok::Uuid(t) => match p_uuid_value(t) {
                        Result::Ok(v) => p_folder_fields(
                            toks,
                            eof,
                            i + 3,
                            FolderFields { uuid: Option::Some(v), ..acc },
                        ),
                        Result::Err(e) => Result::Err(e),
                    },
                    Tok::Integer(t) => {
                        proof {
                            crate::strutil::lemma_digits_are_hex(t@);
                        }
                        match p_uuid_value(t) {
                            Result::Ok(v) => p_folder_fields(
                                toks,
                                eof,
                                i + 3,
                                FolderFields { uuid: Option::Some(v), ..acc },
                            ),
                            Result::Err(e) => Result::Err(e),
                        }
                    },
                    _ => Result::Err(err_tok(toks, eof, i + 2)),
                },
            }
        },
        Tok::Name => {
            match expect_eq_then(toks, eof, i) {
                Result::Err(e) => Result::Err(e),
                Result::Ok(vt) => match vt.tok {
                    Tok::NoteBody(t) => p_folder_fields(
                        toks,
                        eof,
                        i + 3,
                        FolderFields { name: Option::Some(String::from_str(t)), ..acc },
                    ),
                    _ => Result::Err(err_tok(toks, eof, i + 2)),
                },
            }
        },
        Tok::Created => {
            match expect_eq_then(toks, eof, i) {
                Result::Err(e) => Result::Err(e),
                Result::Ok(vt) => match vt.tok {
                    Tok::Integer(t) => match p_u32_value(t) {
                        Result::Ok(v) => p_folder_fields(
                            toks,
                            eof,
                            i + 3,
                            FolderFields { created: Option::Some(v), ..acc },
                        ),
                        Result::Err(e) => Result::Err(e),
                    },
                    _ => Result::Err(err_tok(toks, eof, i + 2)),
                },
            }
        },
        Tok::Expanded => {
            match expect_eq_then(toks, eof, i) {
                Result::Err(e) => Result::Err(e),
                Result::Ok(vt) => match vt.tok {
                    Tok::Yes => p_folder_fields(
                        toks,
                        eof,
                        i + 3,
                        FolderFields { expanded: Option::Some(true), ..acc },
                    ),
                    Tok::No => p_folder_fields(
                        toks,
                        eof,
                        i + 3,
                        FolderFields { expanded: Option::Some(false), ..acc },
                    ),
                    _ => Result::Err(err_tok(toks, eof, i + 2)),
                },
            }
        },
        Tok::TrashFolder => {
            match expect_eq_then(toks, eof, i) {
                Result::Err(e) => Result::Err(e),
                Result::Ok(vt) => match vt.tok {
                    Tok::Yes => p_folder_fields(
                        toks,
                        eof,
                        i + 3,
                        FolderFields { trash: Option::Some(true), ..acc },
                    ),
                    Tok::No => p_folder_fields(
                        toks,
                        eof,
                        i + 3,
                        FolderFields { trash: Option::Some(false), ..acc },
                    ),
                    _ => Result::Err(err_tok(toks, eof, i + 2)),
                },
            }
        },
        _ => Result::Ok((acc, i)),
    }
}

#[verifier::rlimit(100)]
fn p_folder<'i>(toks: &Vec<SpannedTok<'i>>, eof: usize, i: usize) -> (r: Result<
    (crate::ast::Folder, usize),
    ParseError,
>)
    requires
        toks_wf(stoks_view(toks@)),
    ensures
        ({
            let s = sp_folder(stoks_view(toks@), eof as int, i as int);
            match s {
                Result::Ok(p) => r matches Result::Ok(rp) && rp.0@ == p.0 && rp.1 as int == p.1
                    && i < p.1 <= toks@.len(),
                Result::Err(ev) => r matches Result::Err(e) && e@ == ev,
            }
        }),
    decreases toks@.len() - i, 2int,
{
    let ghost ts = stoks_view(toks@);
    if i >= toks.len() || !(match toks[i].tok {
        Tok::FolderHeader => true,
        _ => false,
    }) {
        proof {
            if i < toks@.len() {
                assert(ts[i as int] == toks@[i as int]@);
            }
        }
        return Result::Err(err_tok(toks, eof, i));
    }
    proof {
        assert(ts[i as int] == toks@[i as int]@);
    }
    let acc0 = FolderFields {
        id: Option::None,
        uuid: Option::None,
        name: Option::None,
        created: Option::None,
        expanded: Option::None,
        trash: Option::None,
    };
    match p_folder_fields(toks, eof, i + 1, acc0) {
        Result::Err(e) => Result::Err(e),
        Result::Ok((acc, j)) => {
            match p_entries(toks, eof, j) {
                Result::Err(e) => Result::Err(e),
                Result::Ok((children, k)) => {
                    proof {
                        if k < toks@.len() {
                            assert(ts[k as int] == toks@[k as int]@);
                        }
                    }
                    if k >= toks.len() || !(match toks[k].tok {
                        Tok::FolderEnd => true,
                        _ => false,
                    }) {
                        return Result::Err(err_tok(toks, eof, k));
                    }
                    proof {
                        assert(ts[k as int] == toks@[k as int]@);
                    }
                    let span = SpanInfo {
                        error: Option::None,
                        entry: (toks[i].start, toks[k].end),
                    };
                    if acc.id.is_none() {
                        Result::Err(
                            ParseError::Validation(
                                HotlistError::RequiredFieldMissing(String::from_str("ID"), span),
                            ),
                        )
                    } else if acc.uuid.is_none() {
                        Result::Err(
                            ParseError::Validation(
                                HotlistError::RequiredFieldMissing(
                                    String::from_str("UNIQUEID"),
                                    span,
                                ),
                            ),
                        )
                    } else if acc.name.is_none() {
                        Result::Err(
                            ParseError::Validation(
                                HotlistError::RequiredFieldMissing(String::from_str("NAME"), span),
                            ),
                        )
                    } else if acc.created.is_none() {
                        Result::Err(
                            ParseError::Validation(
                                HotlistError::RequiredFieldMissing(
                                    String::from_str("CREATED"),
                                    span,
                                ),
                            ),
                        )
                    } else {
                        let f = crate::ast::Folder {
                            id: acc.id.unwrap(),
                            uuid: acc.uuid.unwrap(),
                            name: acc.name.unwrap(),
                            timestamp: acc.created.unwrap(),
                            trash: match acc.trash {
                                Option::Some(b) => b,
                                Option::None => false,
                            },
                            expanded: match acc.expanded {
                                Option::Some(b) => b,
                                Option::None => false,
                            },
                            entries: children,
                        };
                        proof {
                            assert(f@.entries =~= crate::ast::entries_view(f.entries@));
                        }
                        Result::Ok((f, k + 1))
                    }
                },
            }
        },
    }
}

#[verifier::rlimit(100)]
fn p_entries<'i>(toks: &Vec<SpannedTok<'i>>, eof: usize, i: usize) -> (r: Result<
    (Vec<crate::ast::EntryKind>, usize),
    ParseError,
>)
    requires
        toks_wf(stoks_view(toks@)),
        i <= toks@.len(),
    ensures
        ({
            let s = sp_entries(stoks_view(toks@), eof as int, i as int);
            match s {
                Result::Ok(p) => r matches Result::Ok(rp) && crate::ast::entries_view(rp.0@) == p.0
                    && rp.1 as int == p.1 && i <= p.1 <= toks@.len(),
                Result::Err(ev) => r matches Result::Err(e) && e@ == ev,
            }
        }),
    decreases toks@.len() - i, 3int,
{
    let ghost ts = stoks_view(toks@);
    proof {
        if i < toks@.len() {
            assert(ts[i as int] == toks@[i as int]@);
        }
    }
    if i >= toks.len() {
        let empty: Vec<crate::ast::EntryKind> = Vec::new();
        proof {
            assert(crate::ast::entries_view(empty@) =~= Seq::<EntryV>::empty());
            assert(i as int <= toks@.len());
        }
        return Result::Ok((empty, i));
    }
    let is_note = match toks[i].tok {
        Tok::NoteHeader => true,
        _ => false,
    };
    let is_folder = match toks[i].tok {
        Tok::FolderHeader => true,
        _ => false,
    };
    if is_note {
        match p_note(toks, eof, i) {
            Result::Err(e) => Result::Err(e),
            Result::Ok((n, j)) => match p_entries(toks, eof, j) {
                Result::Err(e) => Result::Err(e),
                Result::Ok((mut rest, k)) => {
                    let ghost rv = rest@;
                    rest.insert(0, crate::ast::EntryKind::Note(n));
                    proof {
                        assert(rest@ =~= seq![crate::ast::EntryKind::Note(n)] + rv);
                        lemma_entries_view_cons(crate::ast::EntryKind::Note(n), rv);
                    }
                    Result::Ok((rest, k))
                },
            },
        }
    } else if is_folder {
        match p_folder(toks, eof, i) {
            Result::Err(e) => Result::Err(e),
            Result::Ok((f, j)) => match p_entries(toks, eof, j) {
                Result::Err(e) => Result::Err(e),
                Result::Ok((mut rest, k)) => {
                    let ghost rv = rest@;
                    rest.insert(0, crate::ast::EntryKind::Folder(f));
                    proof {
                        assert(rest@ =~= seq![crate::ast::EntryKind::Folder(f)] + rv);
                        lemma_entries_view_cons(crate::ast::EntryKind::Folder(f), rv);
                    }
                    Result::Ok((rest, k))
                },
            },
        }
    } else {
        let empty: Vec<crate::ast::EntryKind> = Vec::new();
        proof {
            assert(crate::ast::entries_view(empty@) =~= Seq::<EntryV>::empty());
        }
        Result::Ok((empty, i))
    }
}

proof fn lemma_entries_view_cons(e: crate::ast::EntryKind, rest: Seq<crate::ast::EntryKind>)
    ensures
        crate::ast::entries_view(seq![e] + rest) =~= seq![crate::ast::entry_view(e)]
            + crate::ast::entries_view(rest),
{
    let l = seq![e] + rest;
    assert forall|i: int| 0 <= i < l.len() implies crate::ast::entries_view(l)[i] == (seq![
        crate::ast::entry_view(e),
    ] + crate::ast::entries_view(rest))[i] by {
        if i > 0 {
            assert(l[i] == rest[i - 1]);
        }
    }
}

// ---------------------------------------------------------------------------
// The public parsing interface, over the raw text
// ---------------------------------------------------------------------------

/// A whole document parsed from the raw text.
pub open spec fn sp_parse_hotlist_str(s: Seq<char>) -> Result<HotlistV, ParseErrorV> {
    match spec_tokens(s, init_lex_state()) {
        Result::Err(o) => Result::Err(ParseErrorV::Lexical { offset: o }),
        Result::Ok(ts) => sp_hotlist(ts, s.len() as int),
    }
}

/// The version line parsed from the raw text, which must hold nothing else.
pub open spec fn sp_parse_version_str(s: Seq<char>) -> Result<Version, ParseErrorV> {
    match spec_tokens(s, init_lex_state()) {
        Result::Err(o) => Result::Err(ParseErrorV::Lexical { offset: o }),
        Result::Ok(ts) => match sp_hotlist_version(ts, s.len() as int, 0) {
            Result::Err(e) => Result::Err(e),
            Result::Ok((v, i)) => {
                if i == ts.len() {
                    Result::Ok(v)
                } else {
                    Result::Err(err_at(ts, s.len() as int, i))
                }
            },
        },
    }
}

/// The recognized options assignment parsed from the raw text.
pub open spec fn sp_parse_single_op_str(s: Seq<char>) -> Result<SingleOp, ParseErrorV> {
    match spec_tokens(s, init_lex_state()) {
        Result::Err(o) => Result::Err(ParseErrorV::Lexical { offset: o }),
        Result::Ok(ts) => match sp_single_op(ts, s.len() as int, 0) {
            Result::Err(e) => Result::Err(e),
            Result::Ok((v, i)) => {
                if i == ts.len() {
                    Result::Ok(v)
                } else {
                    Result::Err(err_at(ts, s.len() as int, i))
                }
            },
        },
    }
}

/// The options block parsed from the raw text.
pub open spec fn sp_parse_options_str(s: Seq<char>) -> Result<Options, ParseErrorV> {
    match spec_tokens(s, init_lex_state()) {
        Result::Err(o) => Result::Err(ParseErrorV::Lexical { offset: o }),
        Result::Ok(ts) => match sp_options(ts, s.len() as int, 0) {
            Result::Err(e) => Result::Err(e),
            Result::Ok((v, i)) => {
                if i == ts.len() {
                    Result::Ok(v)
                } else {
                    Result::Err(err_at(ts, s.len() as int, i))
                }
            },
        },
    }
}

/// The whole header parsed from the raw text.
pub open spec fn sp_parse_header_str(s: Seq<char>) -> Result<(Version, Options), ParseErrorV> {
    match spec_tokens(s, init_lex_state()) {
        Result::Err(o) => Result::Err(ParseErrorV::Lexical { offset: o }),
        Result::Ok(ts) => match sp_header(ts, s.len() as int, 0) {
            Result::Err(e) => Result::Err(e),
            Result::Ok((v, i)) => {
                if i == ts.len() {
                    Result::Ok(v)
                } else {
                    Result::Err(err_at(ts, s.len() as int, i))
                }
            },
        },
    }
}

/// One note record parsed from the raw text.
pub open spec fn sp_parse_note_str(s: Seq<char>) -> Result<NoteV, ParseErrorV> {
    match spec_tokens(s, init_lex_state()) {
        Result::Err(o) => Result::Err(ParseErrorV::Lexical { offset: o }),
        Result::Ok(ts) => match sp_note(ts, s.len() as int, 0) {
            Result::Err(e) => Result::Err(e),
            Result::Ok((v, i)) => {
                if i == ts.len() {
                    Result::Ok(v)
                } else {
                    Result::Err(err_at(ts, s.len() as int, i))
                }
            },
        },
    }
}

/// An entry sequence parsed from the raw text.
pub open spec fn sp_parse_entries_str(s: Seq<char>) -> Result<Seq<EntryV>, ParseErrorV> {
    match spec_tokens(s, init_lex_state()) {
        Result::Err(o) => Result::Err(ParseErrorV::Lexical { offset: o }),
        Result::Ok(ts) => match sp_entries(ts, s.len() as int, 0) {
            Result::Err(e) => Result::Err(e),
            Result::Ok((v, i)) => {
                if i == ts.len() {
                    Result::Ok(v)
                } else {
                    Result::Err(err_at(ts, s.len() as int, i))
                }
            },
        },
    }
}

/// Parses a whole Hotlist document: header, options, entries.
pub fn parse_hotlist(input: &str) -> (r: Result<Hotlist, ParseError>)
    ensures
        sp_parse_hotlist_str(input@) matches Result::Ok(hv) ==> (r matches Result::Ok(h) && h@
            == hv),
        sp_parse_hotlist_str(input@) matches Result::Err(ev) ==> (r matches Result::Err(e) && e@
            == ev),
{
    let eof = input.unicode_len();
    proof {
        lemma_spec_tokens_err_range(input@, init_lex_state());
    }
    match tokenize(input) {
        Result::Err(e) => Result::Err(e),
        Result::Ok(toks) => {
            proof {
                lemma_spec_tokens_wf(input@, init_lex_state());
            }
            match p_header(&toks, eof, 0) {
                Result::Err(e) => Result::Err(e),
                Result::Ok(((v, o), i)) => match p_entries(&toks, eof, i) {
                    Result::Err(e) => Result::Err(e),
                    Result::Ok((es, j)) => {
                        if j == toks.len() {
                            let h = Hotlist { version: v, options: o, entries: es };
                            proof {
                                assert(h@.entries =~= crate::ast::entries_view(h.entries@));
                            }
                            Result::Ok(h)
                        } else {
                            Result::Err(err_tok(&toks, eof, j))
                        }
                    },
                },
            }
        },
    }
}

/// Parses the header's version line alone.
pub fn parse_hotlist_version(input: &str) -> (r: Result<Version, ParseError>)
    ensures
        sp_parse_version_str(input@) matches Result::Ok(v) ==> (r matches Result::Ok(rv) && rv
            == v),
        sp_parse_version_str(input@) matches Result::Err(ev) ==> (r matches Result::Err(e) && e@
            == ev),
{
    let eof = input.unicode_len();
    proof {
        lemma_spec_tokens_err_range(input@, init_lex_state());
    }
    match tokenize(input) {
        Result::Err(e) => Result::Err(e),
        Result::Ok(toks) => {
            proof {
                lemma_spec_tokens_wf(input@, init_lex_state());
            }
            match p_hotlist_version(&toks, eof, 0) {
                Result::Err(e) => Result::Err(e),
                Result::Ok((v, i)) => {
                    if i == toks.len() {
                        Result::Ok(v)
                    } else {
                        Result::Err(err_tok(&toks, eof, i))
                    }
                },
            }
        },
    }
}

/// Parses the recognized options assignment (`encoding = utf8`, with its
/// optional `, version = N`) alone; a pair under another key belongs to
/// the options list only and is not an assignment of its own.
pub fn parse_single_op(input: &str) -> (r: Result<SingleOp, ParseError>)
    ensures
        sp_parse_single_op_str(input@) matches Result::Ok(v) ==> (r matches Result::Ok(rv) && rv
            == v),
        sp_parse_single_op_str(input@) matches Result::Err(ev) ==> (r matches Result::Err(e) && e@
            == ev),
{
    let eof = input.unicode_len();
    proof {
        lemma_spec_tokens_err_range(input@, init_lex_state());
    }
    match tokenize(input) {
        Result::Err(e) => Result::Err(e),
        Result::Ok(toks) => {
            proof {
                lemma_spec_tokens_wf(input@, init_lex_state());
            }
            match p_single_op(&toks, eof, 0) {
                Result::Err(e) => Result::Err(e),
                Result::Ok((v, i)) => {
                    if i == toks.len() {
                        Result::Ok(v)
                    } else {
                        Result::Err(err_tok(&toks, eof, i))
                    }
                },
            }
        },
    }
}

/// Parses the options block alone.
pub fn parse_options(input: &str) -> (r: Result<Options, ParseError>)
    ensures
        sp_parse_options_str(input@) matches Result::Ok(v) ==> (r matches Result::Ok(rv) && rv
            == v),
        sp_parse_options_str(input@) matches Result::Err(ev) ==> (r matches Result::Err(e) && e@
            == ev),
{
    let eof = input.unicode_len();
    proof {
        lemma_spec_tokens_err_range(input@, init_lex_state());
    }
    match tokenize(input) {
        Result::Err(e) => Result::Err(e),
        Result::Ok(toks) => {
            proof {
                lemma_spec_tokens_wf(input@, init_lex_state());
            }
            match p_options(&toks, eof, 0) {
                Result::Err(e) => Result::Err(e),
                Result::Ok((v, i)) => {
                    if i == toks.len() {
                        Result::Ok(v)
                    } else {
                        Result::Err(err_tok(&toks, eof, i))
                    }
                },
            }
        },
    }
}

/// Parses the whole header: version line and options block.
pub fn parse_header(input: &str) -> (r: Result<(Version, Options), ParseError>)
    ensures
        sp_parse_header_str(input@) matches Result::Ok(v) ==> (r matches Result::Ok(rv) && rv
            == v),
        sp_parse_header_str(input@) matches Result::Err(ev) ==> (r matches Result::Err(e) && e@
            == ev),
{
    let eof = input.unicode_len();
    proof {
        lemma_spec_tokens_err_range(input@, init_lex_state());
    }
    match tokenize(input) {
        Result::Err(e) => Result::Err(e),
        Result::Ok(toks) => {
            proof {
                lemma_spec_tokens_wf(input@, init_lex_state());
            }
            match p_header(&toks, eof, 0) {
                Result::Err(e) => Result::Err(e),
                Result::Ok((v, i)) => {
                    if i == toks.len() {
                        Result::Ok(v)
                    } else {
                        Result::Err(err_tok(&toks, eof, i))
                    }
                },
            }
        },
    }
}

/// Parses a single note record alone.
pub fn parse_note_entry(input: &str) -> (r: Result<Note, ParseError>)
    ensures
        sp_parse_note_str(input@) matches Result::Ok(v) ==> (r matches Result::Ok(rv) && rv@ == v),
        sp_parse_note_str(input@) matches Result::Err(ev) ==> (r matches Result::Err(e) && e@
            == ev),
{
    let eof = input.unicode_len();
    proof {
        lemma_spec_tokens_err_range(input@, init_lex_state());
    }
    match tokenize(input) {
        Result::Err(e) => Result::Err(e),
        Result::Ok(toks) => {
            proof {
                lemma_spec_tokens_wf(input@, init_lex_state());
            }
            match p_note(&toks, eof, 0) {
                Result::Err(e) => Result::Err(e),
                Result::Ok((v, i)) => {
                    if i == toks.len() {
                        Result::Ok(v)
                    } else {
                        Result::Err(err_tok(&toks, eof, i))
                    }
                },
            }
        },
    }
}

/// Parses a sequence of sibling entries alone.
pub fn parse_entries(input: &str) -> (r: Result<Vec<crate::ast::EntryKind>, ParseError>)
    ensures
        sp_parse_entries_str(input@) matches Result::Ok(v) ==> (r matches Result::Ok(rv)
            && crate::ast::entries_view(rv@) == v),
        sp_parse_entries_str(input@) matches Result::Err(ev) ==> (r matches Result::Err(e) && e@
            == ev),
{
    let eof = input.unicode_len();
    proof {
        lemma_spec_tokens_err_range(input@, init_lex_state());
    }
    match tokenize(input) {
        Result::Err(e) => Result::Err(e),
        Result::Ok(toks) => {
            proof {
                lemma_spec_tokens_wf(input@, init_lex_state());
            }
            match p_entries(&toks, eof, 0) {
                Result::Err(e) => Result::Err(e),
                Result::Ok((v, i)) => {
                    if i == toks.len() {
                        Result::Ok(v)
                    } else {
                        Result::Err(err_tok(&toks, eof, i))
                    }
                },
            }
        },
    }
}

// ---------------------------------------------------------------------------
// Line and column resolution
// ---------------------------------------------------------------------------

/// A resolved source location: 1-based line, 1-based offset in the line.
#[derive(Debug, Clone, Copy, PartialEq, Eq, Structural)]
pub struct LineInfo {
    pub line: usize,
    pub offset: usize,
}

/// The number of newlines among the first `k` characters.
pub open spec fn nl_upto(s: Seq<char>, k: int) -> int
    decreases k,
{
    if k <= 0 || k > s.len() {
        0
    } else {
        nl_upto(s, k - 1) + if s[k - 1] == '\n' {
            1int
        } else {
            0int
        }
    }
}

/// The start offset of the line containing position `k`: one past the last
/// newline among the first `k` characters, or the start of the text.
pub open spec fn line_start_upto(s: Seq<char>, k: int) -> int
    decreases k,
{
    if k <= 0 || k > s.len() {
        0
    } else if s[k - 1] == '\n' {
        k
    } else {
        line_start_upto(s, k - 1)
    }
}

/// How far of the text an offset resolution scans: up to and including the
/// offset's own character, or the whole text for an offset beyond it.
pub open spec fn scanned_upto(s: Seq<char>, off: int) -> int {
    if off + 1 <= s.len() {
        off + 1
    } else {
        s.len() as int
    }
}

/// Resolves a character offset to a 1-based line number and a 1-based
/// offset within that line, by one scan from the start of the text.
///
/// An offset pointing at a newline itself counts as position zero of the
/// following line.
pub fn get_line_and_offset(input: &str, file_offset: usize) -> (r: LineInfo)
    requires
        file_offset <= input@.len(),
        input@.len() < usize::MAX,
    ensures
        r.line == 1 + nl_upto(input@, scanned_upto(input@, file_offset as int)),
        r.offset == {
            let cur = line_start_upto(input@, scanned_upto(input@, file_offset as int));
            if cur <= file_offset {
                file_offset + 1 - cur
            } else {
                0
            }
        },
{
    let len = input.unicode_len();
    let mut num_lines: usize = 1;
    let mut offset_cur_line: usize = 0;
    let mut i: usize = 0;
    while i < len && i <= file_offset
        invariant
            0 <= i <= len,
            len == input@.len(),
            i <= file_offset + 1,
            input@.len() < usize::MAX,
            num_lines == 1 + nl_upto(input@, i as int),
            offset_cur_line == line_start_upto(input@, i as int),
            nl_upto(input@, i as int) <= i,
        decreases len - i,
    {
        let c = input.get_char(i);
        proof {
            assert(nl_upto(input@, i as int + 1) == nl_upto(input@, i as int) + (
            if input@[i as int] == '\n' {
                1int
            } else {
                0int
            }));
        }
        if c == '\n' {
            num_lines = num_lines + 1;
            offset_cur_line = i + 1;
        }
        i = i + 1;
    }
    proof {
        assert(i as int == scanned_upto(input@, file_offset as int));
    }
    let off = if offset_cur_line <= file_offset {
        file_offset - offset_cur_line + 1
    } else {
        0
    };
    LineInfo { line: num_lines, offset: off }
}

} // verus!
