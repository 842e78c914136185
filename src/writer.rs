//! A JSON token sink over a serde_json formatter and a byte writer. Each
//! call that the formatter accepts is kept in a ghost log of tokens, which
//! is what the contracts of the writers speak of.
use crate::escape::{
    decode_pieces, is_plan, lemma_fragment_boundaries, plan_string, unescape, valid_piece,
    EscapeCode, StringPiece,
};
use crate::raw::{fmt_write_double, DoubleRef};
use vstd::prelude::*;
use vstd::string::StringSliceAdditionalSpecFns;
use vstd::utf8::is_char_boundary;

verus! {

broadcast use vstd::seq::group_seq_axioms;

#[verifier::external_type_specification]
#[verifier::external_body]
pub struct ExIoError(std::io::Error);

/// One call accepted by the formatter.
pub enum Token {
    BeginObject,
    EndObject,
    BeginObjectKey(bool),
    EndObjectKey,
    BeginObjectValue,
    EndObjectValue,
    BeginArray,
    EndArray,
    BeginArrayValue(bool),
    EndArrayValue,
    BeginString,
    EndString,
    Fragment(Seq<u8>),
    Escape(EscapeCode),
    Bool(bool),
    Null,
    Int32(i32),
    Int64(i64),
    Double,
}

/// The token written for one piece of a string plan.
pub open spec fn piece_token(p: StringPiece, s: Seq<u8>) -> Token {
    match p {
        StringPiece::Fragment { start, end } => Token::Fragment(s.subrange(start as int, end as int)),
        StringPiece::Escape(e) => Token::Escape(e),
    }
}

/// The tokens written for a string with the given plan.
pub open spec fn string_tokens(ps: Seq<StringPiece>, s: Seq<u8>) -> Seq<Token> {
    seq![Token::BeginString] + ps.map_values(|p: StringPiece| piece_token(p, s)) + seq![Token::EndString]
}

/// `after` is `before` followed by the tokens of a valid write of the string `s`.
pub open spec fn wrote_string(before: Seq<Token>, after: Seq<Token>, s: Seq<u8>) -> bool {
    exists|ps: Seq<StringPiece>| is_plan(ps, s) && after == before + #[trigger] string_tokens(ps, s)
}

/// The bytes that a JSON parser reads from the body tokens of a string.
pub open spec fn decode_body(ts: Seq<Token>) -> Seq<u8>
    decreases ts.len(),
{
    if ts.len() == 0 {
        Seq::empty()
    } else {
        decode_body(ts.drop_last()) + match ts.last() {
            Token::Fragment(b) => b,
            Token::Escape(e) => seq![unescape(e)],
            _ => Seq::empty(),
        }
    }
}

/// `after` is `before` followed by a proper start of the tokens of a valid
/// write of the string `s`: what is written when a write fails part way.
pub open spec fn wrote_string_part(before: Seq<Token>, after: Seq<Token>, s: Seq<u8>) -> bool {
    exists|ps: Seq<StringPiece>, k: int|
        is_plan(ps, s) && 0 <= k < string_tokens(ps, s).len() && after == before
            + #[trigger] string_tokens(ps, s).take(k)
}

/// The body of a string literal: its tokens between the opening and the closing quote.
pub open spec fn string_body(ts: Seq<Token>) -> Seq<Token> {
    ts.subrange(1, ts.len() - 1)
}

proof fn lemma_decode_tokens(ps: Seq<StringPiece>, s: Seq<u8>)
    ensures
        decode_body(ps.map_values(|p: StringPiece| piece_token(p, s))) == decode_pieces(ps, s),
    decreases ps.len(),
{
    if ps.len() > 0 {
        let ts = ps.map_values(|p: StringPiece| piece_token(p, s));
        assert(ts.drop_last() =~= ps.drop_last().map_values(|p: StringPiece| piece_token(p, s)));
        lemma_decode_tokens(ps.drop_last(), s);
    }
}

/// A string written by the writer reads back as itself: the body of the
/// literal that `write_string` appends, decoded as JSON, is exactly the
/// bytes of the string.
pub proof fn lemma_string_round_trip(before: Seq<Token>, after: Seq<Token>, s: Seq<u8>)
    requires
        wrote_string(before, after, s),
    ensures
        after.len() >= before.len() + 2,
        after[before.len() as int] == Token::BeginString,
        after.last() == Token::EndString,
        decode_body(string_body(after.subrange(before.len() as int, after.len() as int))) == s,
{
    let ps = choose|ps: Seq<StringPiece>| is_plan(ps, s) && after == before + #[trigger] string_tokens(ps, s);
    let body = ps.map_values(|p: StringPiece| piece_token(p, s));
    assert(after.subrange(before.len() as int, after.len() as int) =~= string_tokens(ps, s));
    assert(string_body(string_tokens(ps, s)) =~= body);
    lemma_decode_tokens(ps, s);
}

/// `before` is the start of `after`.
pub open spec fn is_prefix(before: Seq<Token>, after: Seq<Token>) -> bool {
    before.len() <= after.len() && after.subrange(0, before.len() as int) == before
}

/// Being a start of a sequence carries over.
pub proof fn lemma_prefix_trans(a: Seq<Token>, b: Seq<Token>, c: Seq<Token>)
    requires
        is_prefix(a, b),
        is_prefix(b, c),
    ensures
        is_prefix(a, c),
{
    assert(c.subrange(0, a.len() as int) =~= b.subrange(0, a.len() as int));
}

/// A formatter and the writer it writes to. The log of accepted tokens is
/// ghost: it costs nothing at run time.
pub struct JsonWriter<F, W> {
    pub formatter: F,
    pub writer: W,
    log: Ghost<Seq<Token>>,
    refused: Ghost<bool>,
}
/// Relies on serde_json's `Formatter::begin_object`, which writes to `w`.
#[verifier::external_body]
fn fmt_begin_object<F: serde_json::ser::Formatter, W: std::io::Write>(f: &mut F, w: &mut W) -> Result<(), std::io::Error> {
    f.begin_object(w)
}
/// Relies on serde_json's `Formatter::end_object`, which writes to `w`.
#[verifier::external_body]
fn fmt_end_object<F: serde_json::ser::Formatter, W: std::io::Write>(f: &mut F, w: &mut W) -> Result<(), std::io::Error> {
    f.end_object(w)
}
/// Relies on serde_json's `Formatter::begin_object_key`, which writes to `w`.
#[verifier::external_body]
fn fmt_begin_object_key<F: serde_json::ser::Formatter, W: std::io::Write>(f: &mut F, w: &mut W, first: bool) -> Result<(), std::io::Error> {
    f.begin_object_key(w, first)
}
/// Relies on serde_json's `Formatter::end_object_key`, which writes to `w`.
#[verifier::external_body]
fn fmt_end_object_key<F: serde_json::ser::Formatter, W: std::io::Write>(f: &mut F, w: &mut W) -> Result<(), std::io::Error> {
    f.end_object_key(w)
}
/// Relies on serde_json's `Formatter::begin_object_value`, which writes to `w`.
#[verifier::external_body]
fn fmt_begin_object_value<F: serde_json::ser::Formatter, W: std::io::Write>(f: &mut F, w: &mut W) -> Result<(), std::io::Error> {
    f.begin_object_value(w)
}
/// Relies on serde_json's `Formatter::end_object_value`, which writes to `w`.
#[verifier::external_body]
fn fmt_end_object_value<F: serde_json::ser::Formatter, W: std::io::Write>(f: &mut F, w: &mut W) -> Result<(), std::io::Error> {
    f.end_object_value(w)
}
/// Relies on serde_json's `Formatter::begin_array`, which writes to `w`.
#[verifier::external_body]
fn fmt_begin_array<F: serde_json::ser::Formatter, W: std::io::Write>(f: &mut F, w: &mut W) -> Result<(), std::io::Error> {
    f.begin_array(w)
}
/// Relies on serde_json's `Formatter::end_array`, which writes to `w`.
#[verifier::external_body]
fn fmt_end_array<F: serde_json::ser::Formatter, W: std::io::Write>(f: &mut F, w: &mut W) -> Result<(), std::io::Error> {
    f.end_array(w)
}
/// Relies on serde_json's `Formatter::begin_array_value`, which writes to `w`.
#[verifier::external_body]
fn fmt_begin_array_value<F: serde_json::ser::Formatter, W: std::io::Write>(f: &mut F, w: &mut W, first: bool) -> Result<(), std::io::Error> {
    f.begin_array_value(w, first)
}
/// Relies on serde_json's `Formatter::end_array_value`, which writes to `w`.
#[verifier::external_body]
fn fmt_end_array_value<F: serde_json::ser::Formatter, W: std::io::Write>(f: &mut F, w: &mut W) -> Result<(), std::io::Error> {
    f.end_array_value(w)
}
/// Relies on serde_json's `Formatter::begin_string`, which writes to `w`.
#[verifier::external_body]
fn fmt_begin_string<F: serde_json::ser::Formatter, W: std::io::Write>(f: &mut F, w: &mut W) -> Result<(), std::io::Error> {
    f.begin_string(w)
}
/// Relies on serde_json's `Formatter::end_string`, which writes to `w`.
#[verifier::external_body]
fn fmt_end_string<F: serde_json::ser::Formatter, W: std::io::Write>(f: &mut F, w: &mut W) -> Result<(), std::io::Error> {
    f.end_string(w)
}
/// Relies on serde_json's `Formatter::write_bool`, which writes to `w`.
#[verifier::external_body]
fn fmt_write_bool<F: serde_json::ser::Formatter, W: std::io::Write>(f: &mut F, w: &mut W, value: bool) -> Result<(), std::io::Error> {
    f.write_bool(w, value)
}
/// Relies on serde_json's `Formatter::write_null`, which writes to `w`.
#[verifier::external_body]
fn fmt_write_null<F: serde_json::ser::Formatter, W: std::io::Write>(f: &mut F, w: &mut W) -> Result<(), std::io::Error> {
    f.write_null(w)
}
/// Relies on serde_json's `Formatter::write_i32`, which writes to `w`.
#[verifier::external_body]
fn fmt_write_i32<F: serde_json::ser::Formatter, W: std::io::Write>(f: &mut F, w: &mut W, value: i32) -> Result<(), std::io::Error> {
    f.write_i32(w, value)
}
/// Relies on serde_json's `Formatter::write_i64`, which writes to `w`.
#[verifier::external_body]
fn fmt_write_i64<F: serde_json::ser::Formatter, W: std::io::Write>(f: &mut F, w: &mut W, value: i64) -> Result<(), std::io::Error> {
    f.write_i64(w, value)
}
/// Relies on serde_json's `Formatter::write_string_fragment`, which writes
/// the bytes of `s` from `start` to `end` as they are; the range lies on
/// character boundaries, so slicing does not panic.
#[verifier::external_body]
fn fmt_write_string_fragment<F: serde_json::ser::Formatter, W: std::io::Write>(
    f: &mut F,
    w: &mut W,
    s: &str,
    start: usize,
    end: usize,
) -> Result<(), std::io::Error>
    requires
        start <= end <= s.spec_bytes().len(),
        is_char_boundary(s.spec_bytes(), start as int),
        is_char_boundary(s.spec_bytes(), end as int),
{
    f.write_string_fragment(w, &s[start..end])
}

/// Relies on serde_json's `Formatter::write_char_escape`, handed the
/// `CharEscape` variant of the same name.
#[verifier::external_body]
fn fmt_write_char_escape<F: serde_json::ser::Formatter, W: std::io::Write>(
    f: &mut F,
    w: &mut W,
    e: EscapeCode,
) -> Result<(), std::io::Error> {
    let escape = match e {
        EscapeCode::Quote => serde_json::ser::CharEscape::Quote,
        EscapeCode::ReverseSolidus => serde_json::ser::CharEscape::ReverseSolidus,
        EscapeCode::Backspace => serde_json::ser::CharEscape::Backspace,
        EscapeCode::FormFeed => serde_json::ser::CharEscape::FormFeed,
        EscapeCode::LineFeed => serde_json::ser::CharEscape::LineFeed,
        EscapeCode::CarriageReturn => serde_json::ser::CharEscape::CarriageReturn,
        EscapeCode::Tab => serde_json::ser::CharEscape::Tab,
        EscapeCode::AsciiControl(b) => serde_json::ser::CharEscape::AsciiControl(b),
    };
    f.write_char_escape(w, escape)
}

impl<F: serde_json::ser::Formatter, W: std::io::Write> JsonWriter<F, W> {
    /// The tokens that the formatter has accepted so far.
    pub closed spec fn tokens(&self) -> Seq<Token> {
        self.log@
    }

    /// Whether the formatter has refused a call. After that no further call
    /// is made: the write has failed.
    pub closed spec fn refused(&self) -> bool {
        self.refused@
    }

    /// A writer that has written nothing yet.
    pub fn new(formatter: F, writer: W) -> (r: Self)
        ensures
            r.tokens() == Seq::<Token>::empty(),
            !r.refused(),
    {
        JsonWriter { formatter, writer, log: Ghost(Seq::empty()), refused: Ghost(false) }
    }

    /// Notes the token `t` in the log when the formatter accepted it.
    fn record(&mut self, r: &Result<(), std::io::Error>, t: Ghost<Token>)
        requires
            !old(self).refused(),
        ensures
            final(self).refused() == r is Err,
            is_prefix(old(self).tokens(), final(self).tokens()),
            final(self).tokens() == if r is Ok {
                old(self).tokens().push(t@)
            } else {
                old(self).tokens()
            },
    {
        if r.is_ok() {
            self.log = Ghost(self.log@.push(t@));
        } else {
            self.refused = Ghost(true);
        }
        proof {
            assert(self.tokens().subrange(0, old(self).tokens().len() as int) =~= old(self).tokens());
        }
    }

    pub(crate) fn begin_object(&mut self) -> (r: Result<(), std::io::Error>)
        requires
            !old(self).refused(),
        ensures
            final(self).refused() == r is Err,
            is_prefix(old(self).tokens(), final(self).tokens()),
            final(self).tokens() == if r is Ok {
                old(self).tokens().push(Token::BeginObject)
            } else {
                old(self).tokens()
            },
    {
        let r = fmt_begin_object(&mut self.formatter, &mut self.writer);
        self.record(&r, Ghost(Token::BeginObject));
        r
    }

    pub(crate) fn end_object(&mut self) -> (r: Result<(), std::io::Error>)
        requires
            !old(self).refused(),
        ensures
            final(self).refused() == r is Err,
            is_prefix(old(self).tokens(), final(self).tokens()),
            final(self).tokens() == if r is Ok {
                old(self).tokens().push(Token::EndObject)
            } else {
                old(self).tokens()
            },
    {
        let r = fmt_end_object(&mut self.formatter, &mut self.writer);
        self.record(&r, Ghost(Token::EndObject));
        r
    }

    pub(crate) fn begin_object_key(&mut self, first: bool) -> (r: Result<(), std::io::Error>)
        requires
            !old(self).refused(),
        ensures
            final(self).refused() == r is Err,
            is_prefix(old(self).tokens(), final(self).tokens()),
            final(self).tokens() == if r is Ok {
                old(self).tokens().push(Token::BeginObjectKey(first))
            } else {
                old(self).tokens()
            },
    {
        let r = fmt_begin_object_key(&mut self.formatter, &mut self.writer, first);
        self.record(&r, Ghost(Token::BeginObjectKey(first)));
        r
    }

    pub(crate) fn end_object_key(&mut self) -> (r: Result<(), std::io::Error>)
        requires
            !old(self).refused(),
        ensures
            final(self).refused() == r is Err,
            is_prefix(old(self).tokens(), final(self).tokens()),
            final(self).tokens() == if r is Ok {
                old(self).tokens().push(Token::EndObjectKey)
            } else {
                old(self).tokens()
            },
    {
        let r = fmt_end_object_key(&mut self.formatter, &mut self.writer);
        self.record(&r, Ghost(Token::EndObjectKey));
        r
    }

    pub(crate) fn begin_object_value(&mut self) -> (r: Result<(), std::io::Error>)
        requires
            !old(self).refused(),
        ensures
            final(self).refused() == r is Err,
            is_prefix(old(self).tokens(), final(self).tokens()),
            final(self).tokens() == if r is Ok {
                old(self).tokens().push(Token::BeginObjectValue)
            } else {
                old(self).tokens()
            },
    {
        let r = fmt_begin_object_value(&mut self.formatter, &mut self.writer);
        self.record(&r, Ghost(Token::BeginObjectValue));
        r
    }

    pub(crate) fn end_object_value(&mut self) -> (r: Result<(), std::io::Error>)
        requires
            !old(self).refused(),
        ensures
            final(self).refused() == r is Err,
            is_prefix(old(self).tokens(), final(self).tokens()),
            final(self).tokens() == if r is Ok {
                old(self).tokens().push(Token::EndObjectValue)
            } else {
                old(self).tokens()
            },
    {
        let r = fmt_end_object_value(&mut self.formatter, &mut self.writer);
        self.record(&r, Ghost(Token::EndObjectValue));
        r
    }

    pub(crate) fn begin_array(&mut self) -> (r: Result<(), std::io::Error>)
        requires
            !old(self).refused(),
        ensures
            final(self).refused() == r is Err,
            is_prefix(old(self).tokens(), final(self).tokens()),
            final(self).tokens() == if r is Ok {
                old(self).tokens().push(Token::BeginArray)
            } else {
                old(self).tokens()
            },
    {
        let r = fmt_begin_array(&mut self.formatter, &mut self.writer);
        self.record(&r, Ghost(Token::BeginArray));
        r
    }

    pub(crate) fn end_array(&mut self) -> (r: Result<(), std::io::Error>)
        requires
            !old(self).refused(),
        ensures
            final(self).refused() == r is Err,
            is_prefix(old(self).tokens(), final(self).tokens()),
            final(self).tokens() == if r is Ok {
                old(self).tokens().push(Token::EndArray)
            } else {
                old(self).tokens()
            },
    {
        let r = fmt_end_array(&mut self.formatter, &mut self.writer);
        self.record(&r, Ghost(Token::EndArray));
        r
    }

    pub(crate) fn begin_array_value(&mut self, first: bool) -> (r: Result<(), std::io::Error>)
        requires
            !old(self).refused(),
        ensures
            final(self).refused() == r is Err,
            is_prefix(old(self).tokens(), final(self).tokens()),
            final(self).tokens() == if r is Ok {
                old(self).tokens().push(Token::BeginArrayValue(first))
            } else {
                old(self).tokens()
            },
    {
        let r = fmt_begin_array_value(&mut self.formatter, &mut self.writer, first);
        self.record(&r, Ghost(Token::BeginArrayValue(first)));
        r
    }

    pub(crate) fn end_array_value(&mut self) -> (r: Result<(), std::io::Error>)
        requires
            !old(self).refused(),
        ensures
            final(self).refused() == r is Err,
            is_prefix(old(self).tokens(), final(self).tokens()),
            final(self).tokens() == if r is Ok {
                old(self).tokens().push(Token::EndArrayValue)
            } else {
                old(self).tokens()
            },
    {
        let r = fmt_end_array_value(&mut self.formatter, &mut self.writer);
        self.record(&r, Ghost(Token::EndArrayValue));
        r
    }

    pub(crate) fn begin_string(&mut self) -> (r: Result<(), std::io::Error>)
        requires
            !old(self).refused(),
        ensures
            final(self).refused() == r is Err,
            is_prefix(old(self).tokens(), final(self).tokens()),
            final(self).tokens() == if r is Ok {
                old(self).tokens().push(Token::BeginString)
            } else {
                old(self).tokens()
            },
    {
        let r = fmt_begin_string(&mut self.formatter, &mut self.writer);
        self.record(&r, Ghost(Token::BeginString));
        r
    }

    pub(crate) fn end_string(&mut self) -> (r: Result<(), std::io::Error>)
        requires
            !old(self).refused(),
        ensures
            final(self).refused() == r is Err,
            is_prefix(old(self).tokens(), final(self).tokens()),
            final(self).tokens() == if r is Ok {
                old(self).tokens().push(Token::EndString)
            } else {
                old(self).tokens()
            },
    {
        let r = fmt_end_string(&mut self.formatter, &mut self.writer);
        self.record(&r, Ghost(Token::EndString));
        r
    }

    pub(crate) fn write_bool(&mut self, value: bool) -> (r: Result<(), std::io::Error>)
        requires
            !old(self).refused(),
        ensures
            final(self).refused() == r is Err,
            is_prefix(old(self).tokens(), final(self).tokens()),
            final(self).tokens() == if r is Ok {
                old(self).tokens().push(Token::Bool(value))
            } else {
                old(self).tokens()
            },
    {
        let r = fmt_write_bool(&mut self.formatter, &mut self.writer, value);
        self.record(&r, Ghost(Token::Bool(value)));
        r
    }

    pub(crate) fn write_null(&mut self) -> (r: Result<(), std::io::Error>)
        requires
            !old(self).refused(),
        ensures
            final(self).refused() == r is Err,
            is_prefix(old(self).tokens(), final(self).tokens()),
            final(self).tokens() == if r is Ok {
                old(self).tokens().push(Token::Null)
            } else {
                old(self).tokens()
            },
    {
        let r = fmt_write_null(&mut self.formatter, &mut self.writer);
        self.record(&r, Ghost(Token::Null));
        r
    }

    pub(crate) fn write_i32(&mut self, value: i32) -> (r: Result<(), std::io::Error>)
        requires
            !old(self).refused(),
        ensures
            final(self).refused() == r is Err,
            is_prefix(old(self).tokens(), final(self).tokens()),
            final(self).tokens() == if r is Ok {
                old(self).tokens().push(Token::Int32(value))
            } else {
                old(self).tokens()
            },
    {
        let r = fmt_write_i32(&mut self.formatter, &mut self.writer, value);
        self.record(&r, Ghost(Token::Int32(value)));
        r
    }

    pub(crate) fn write_i64(&mut self, value: i64) -> (r: Result<(), std::io::Error>)
        requires
            !old(self).refused(),
        ensures
            final(self).refused() == r is Err,
            is_prefix(old(self).tokens(), final(self).tokens()),
            final(self).tokens() == if r is Ok {
                old(self).tokens().push(Token::Int64(value))
            } else {
                old(self).tokens()
            },
    {
        let r = fmt_write_i64(&mut self.formatter, &mut self.writer, value);
        self.record(&r, Ghost(Token::Int64(value)));
        r
    }

    /// Writes `s` as a JSON string literal: the pieces of its plan, between quotes.
    pub fn write_string(&mut self, s: &str) -> (r: Result<(), std::io::Error>)
        requires
            !old(self).refused(),
        ensures
            final(self).refused() == r is Err,
            is_prefix(old(self).tokens(), final(self).tokens()),
            r is Ok ==> wrote_string(old(self).tokens(), final(self).tokens(), s.spec_bytes()),
            r is Err ==> wrote_string_part(old(self).tokens(), final(self).tokens(), s.spec_bytes()),
    {
        let ghost sb = s.spec_bytes();
        let ghost t0 = self.tokens();
        proof {
            vstd::utf8::encode_utf8_valid_utf8(s@);
        }
        let plan = plan_string(s);
        let r = self.begin_string();
        if r.is_err() {
            proof {
                assert(self.tokens() =~= t0 + string_tokens(plan@, sb).take(0));
                assert(self.tokens().subrange(0, t0.len() as int) =~= t0);
            }
            return r;
        }
        let mut j: usize = 0;
        while j < plan.len()
            invariant
                !self.refused(),
                t0 == old(self).tokens(),
                is_plan(plan@, sb),
                sb == s.spec_bytes(),
                vstd::utf8::valid_utf8(sb),
                j <= plan@.len(),
                self.tokens() == t0 + seq![Token::BeginString]
                    + plan@.take(j as int).map_values(|p: StringPiece| piece_token(p, sb)),
            decreases plan@.len() - j,
        {
            let ghost before = self.tokens();
            let piece = plan[j];
            assert(valid_piece(plan@[j as int], sb));
            let r = match piece {
                StringPiece::Fragment { start, end } => {
                    proof {
                        lemma_fragment_boundaries(sb, start as int, end as int);
                    }
                    let r = fmt_write_string_fragment(&mut self.formatter, &mut self.writer, s, start, end);
                    self.record(&r, Ghost(Token::Fragment(sb.subrange(start as int, end as int))));
                    r
                },
                StringPiece::Escape(e) => {
                    let r = fmt_write_char_escape(&mut self.formatter, &mut self.writer, e);
                    self.record(&r, Ghost(Token::Escape(e)));
                    r
                },
            };
            if r.is_err() {
                proof {
                    assert(string_tokens(plan@, sb).take(j + 1) =~= seq![Token::BeginString]
                        + plan@.take(j as int).map_values(|p: StringPiece| piece_token(p, sb)));
                    assert(self.tokens() =~= t0 + string_tokens(plan@, sb).take(j + 1));
                    assert(self.tokens().subrange(0, t0.len() as int) =~= t0);
                }
                return r;
            }
            proof {
                assert(plan@.take(j + 1) =~= plan@.take(j as int).push(plan@[j as int]));
                assert(plan@.take(j + 1).map_values(|p: StringPiece| piece_token(p, sb))
                    =~= plan@.take(j as int).map_values(|p: StringPiece| piece_token(p, sb)).push(
                    piece_token(plan@[j as int], sb)));
            }
            j = j + 1;
        }
        let r = self.end_string();
        proof {
            assert(plan@.take(plan@.len() as int) =~= plan@);
            if r is Ok {
                assert(self.tokens() =~= t0 + string_tokens(plan@, sb));
            } else {
                assert(string_tokens(plan@, sb).take(plan@.len() + 1int) =~= seq![Token::BeginString]
                    + plan@.map_values(|p: StringPiece| piece_token(p, sb)));
                assert(self.tokens() =~= t0 + string_tokens(plan@, sb).take(plan@.len() + 1int));
            }
            assert(self.tokens().subrange(0, t0.len() as int) =~= t0);
        }
        r
    }

    /// Writes the number held by the double value `v`.
    pub(crate) fn write_double(&mut self, v: &DoubleRef) -> (r: Result<(), std::io::Error>)
        requires
            !old(self).refused(),
        ensures
            final(self).refused() == r is Err,
            is_prefix(old(self).tokens(), final(self).tokens()),
            final(self).tokens() == if r is Ok {
                old(self).tokens().push(Token::Double)
            } else {
                old(self).tokens()
            },
    {
        let r = fmt_write_double(&mut self.formatter, &mut self.writer, v);
        self.record(&r, Ghost(Token::Double));
        r
    }
}

} // verus!
