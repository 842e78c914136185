//! Splitting a JSON string body into literal fragments and character escapes.
use vstd::prelude::*;
use vstd::string::StringSliceAdditionalSpecFns;
use vstd::utf8::*;

verus! {

broadcast use vstd::seq::group_seq_axioms;

/// The escape sequences that a JSON formatter knows how to write.
#[derive(Clone, Copy, Debug, PartialEq, Eq, Structural)]
pub enum EscapeCode {
    Quote,
    ReverseSolidus,
    Backspace,
    FormFeed,
    LineFeed,
    CarriageReturn,
    Tab,
    AsciiControl(u8),
}

/// One step of a string literal's body: bytes copied verbatim, or one escape.
#[derive(Clone, Copy, Debug, PartialEq, Eq, Structural)]
pub enum StringPiece {
    Fragment { start: usize, end: usize },
    Escape(EscapeCode),
}

/// A byte that may not stand literally inside a JSON string.
pub open spec fn needs_escape(b: u8) -> bool {
    b < 0x20 || b == 0x22 || b == 0x5c
}

/// The escape chosen for a byte that needs one.
pub open spec fn escape_spec(b: u8) -> EscapeCode {
    if b == 0x22 {
        EscapeCode::Quote
    } else if b == 0x5c {
        EscapeCode::ReverseSolidus
    } else if b == 8 {
        EscapeCode::Backspace
    } else if b == 12 {
        EscapeCode::FormFeed
    } else if b == 10 {
        EscapeCode::LineFeed
    } else if b == 13 {
        EscapeCode::CarriageReturn
    } else if b == 9 {
        EscapeCode::Tab
    } else {
        EscapeCode::AsciiControl(b)
    }
}

/// The byte that a JSON parser reads back from an escape.
pub open spec fn unescape(e: EscapeCode) -> u8 {
    match e {
        EscapeCode::Quote => 0x22,
        EscapeCode::ReverseSolidus => 0x5c,
        EscapeCode::Backspace => 8,
        EscapeCode::FormFeed => 12,
        EscapeCode::LineFeed => 10,
        EscapeCode::CarriageReturn => 13,
        EscapeCode::Tab => 9,
        EscapeCode::AsciiControl(b) => b,
    }
}

/// The bytes that one piece stands for, given the string it was cut from.
pub open spec fn piece_bytes(p: StringPiece, s: Seq<u8>) -> Seq<u8> {
    match p {
        StringPiece::Fragment { start, end } => s.subrange(start as int, end as int),
        StringPiece::Escape(e) => seq![unescape(e)],
    }
}

/// The bytes that a parser reads back from a sequence of pieces.
pub open spec fn decode_pieces(ps: Seq<StringPiece>, s: Seq<u8>) -> Seq<u8>
    decreases ps.len(),
{
    if ps.len() == 0 {
        Seq::empty()
    } else {
        decode_pieces(ps.drop_last(), s) + piece_bytes(ps.last(), s)
    }
}

/// A fragment is a non-empty run of bytes that need no escape, as long as it
/// can be: it begins at the start or after an escaped byte, and ends at the
/// end or before one.
pub open spec fn maximal_fragment(s: Seq<u8>, start: int, end: int) -> bool {
    &&& 0 <= start < end <= s.len()
    &&& forall|k: int| start <= k < end ==> !needs_escape(#[trigger] s[k])
    &&& (start == 0 || needs_escape(s[start - 1]))
    &&& (end == s.len() || needs_escape(s[end]))
}

/// Each piece of the plan is a maximal fragment, or the escape of a byte
/// that needs one.
pub open spec fn valid_piece(p: StringPiece, s: Seq<u8>) -> bool {
    match p {
        StringPiece::Fragment { start, end } => maximal_fragment(s, start as int, end as int),
        StringPiece::Escape(e) => exists|b: u8| needs_escape(b) && e == escape_spec(b),
    }
}

/// The plan for writing `s`: valid pieces that decode back to `s`, each
/// fragment taken from `s` where the bytes decoded before it end.
pub open spec fn is_plan(ps: Seq<StringPiece>, s: Seq<u8>) -> bool {
    &&& forall|j: int| 0 <= j < ps.len() ==> valid_piece(#[trigger] ps[j], s)
    &&& forall|j: int|
        0 <= j < ps.len() && (#[trigger] ps[j]) is Fragment ==> ps[j]->start == decode_pieces(
            ps.take(j),
            s,
        ).len()
    &&& decode_pieces(ps, s) == s
}

/// Every byte that needs an escape is read back as itself.
pub proof fn lemma_unescape_escape(b: u8)
    requires
        needs_escape(b),
    ensures
        unescape(escape_spec(b)) == b,
{
}

/// A byte of a valid UTF-8 sequence that follows an ASCII byte begins a character.
pub proof fn lemma_boundary_after_ascii(bytes: Seq<u8>, i: int)
    requires
        valid_utf8(bytes),
        0 <= i < bytes.len(),
        bytes[i] < 0x80,
    ensures
        is_char_boundary(bytes, i + 1),
    decreases bytes.len(),
{
    is_char_boundary_iff_not_is_continuation_byte(bytes, i);
    let n = length_of_first_scalar(bytes);
    if i == 0 {
        assert(n == 1);
        assert(is_char_boundary(pop_first_scalar(bytes), 0));
    } else {
        assert(is_char_boundary(pop_first_scalar(bytes), i - n));
        assert(0 <= i - n);
        lemma_boundary_after_ascii(pop_first_scalar(bytes), i - n);
    }
}

/// The escape for a byte that needs one.
pub fn escape_for(b: u8) -> (r: EscapeCode)
    requires
        needs_escape(b),
    ensures
        r == escape_spec(b),
{
    match b {
        0x22 => EscapeCode::Quote,
        0x5c => EscapeCode::ReverseSolidus,
        8 => EscapeCode::Backspace,
        12 => EscapeCode::FormFeed,
        10 => EscapeCode::LineFeed,
        13 => EscapeCode::CarriageReturn,
        9 => EscapeCode::Tab,
        x => EscapeCode::AsciiControl(x),
    }
}

proof fn lemma_take_push(ps: Seq<StringPiece>, p: StringPiece)
    ensures
        forall|j: int| 0 <= j <= ps.len() ==> #[trigger] ps.push(p).take(j) == ps.take(j),
        ps.push(p).take(ps.len() as int) == ps,
{
    assert forall|j: int| 0 <= j <= ps.len() implies #[trigger] ps.push(p).take(j) == ps.take(j) by {
        assert(ps.push(p).take(j) =~= ps.take(j));
    }
    assert(ps.push(p).take(ps.len() as int) =~= ps);
}

proof fn lemma_decode_push(ps: Seq<StringPiece>, p: StringPiece, s: Seq<u8>)
    ensures
        decode_pieces(ps.push(p), s) == decode_pieces(ps, s) + piece_bytes(p, s),
{
    assert(ps.push(p).drop_last() =~= ps);
}

/// The end points of a maximal fragment of a UTF-8 string fall on character
/// boundaries, so the fragment is itself a string.
pub proof fn lemma_fragment_boundaries(s: Seq<u8>, start: int, end: int)
    requires
        valid_utf8(s),
        maximal_fragment(s, start, end),
    ensures
        is_char_boundary(s, start),
        is_char_boundary(s, end),
{
    if start > 0 {
        lemma_boundary_after_ascii(s, start - 1);
    }
    if end == s.len() {
        is_char_boundary_start_end_of_seq(s);
    } else {
        is_char_boundary_iff_not_is_continuation_byte(s, end);
    }
}

/// Cuts `s` into the pieces that write it as a JSON string body: maximal
/// runs of bytes copied as they are, and one escape for each byte that is a
/// quote, a backslash or a control character.
pub fn plan_string(s: &str) -> (r: Vec<StringPiece>)
    ensures
        is_plan(r@, s.spec_bytes()),
{
    let bytes = s.as_bytes();
    let ghost sb = s.spec_bytes();
    let mut out: Vec<StringPiece> = Vec::new();
    let mut start: usize = 0;
    let mut i: usize = 0;
    while i < bytes.len()
        invariant
            bytes@ == sb,
            start <= i <= sb.len(),
            forall|k: int| start <= k < i ==> !needs_escape(#[trigger] sb[k]),
            start == 0 || needs_escape(sb[start - 1]),
            forall|j: int| 0 <= j < out@.len() ==> valid_piece(#[trigger] out@[j], sb),
            forall|j: int|
                0 <= j < out@.len() && (#[trigger] out@[j]) is Fragment ==> out@[j]->start
                    == decode_pieces(out@.take(j), sb).len(),
            decode_pieces(out@, sb) == sb.subrange(0, start as int),
        decreases sb.len() - i,
    {
        let byte = bytes[i];
        if byte < 0x20 || byte == 0x22 || byte == 0x5c {
            if start < i {
                let frag = StringPiece::Fragment { start, end: i };
                proof {
                    lemma_decode_push(out@, frag, sb);
                    lemma_take_push(out@, frag);
                    assert(sb.subrange(0, start as int) + sb.subrange(start as int, i as int)
                        =~= sb.subrange(0, i as int));
                }
                out.push(frag);
            }
            let e = StringPiece::Escape(escape_for(byte));
            proof {
                lemma_decode_push(out@, e, sb);
                lemma_take_push(out@, e);
                lemma_unescape_escape(byte);
                assert(sb.subrange(0, i as int) + seq![byte] =~= sb.subrange(0, i + 1));
                assert(valid_piece(e, sb));
            }
            out.push(e);
            start = i + 1;
        }
        i = i + 1;
    }
    if start < bytes.len() {
        let frag = StringPiece::Fragment { start, end: bytes.len() };
        proof {
            lemma_decode_push(out@, frag, sb);
            lemma_take_push(out@, frag);
            assert(sb.subrange(0, start as int) + sb.subrange(start as int, sb.len() as int) =~= sb);
        }
        out.push(frag);
    }
    proof {
        assert(sb.subrange(0, sb.len() as int) =~= sb);
    }
    out
}

} // verus!
