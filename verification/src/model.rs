//! The model file: one record per line, `state,action:number`.
//!
//! The file is UTF-8 text. A line is a record where it is UTF-8 text, holds a
//! colon, and the part before the first colon holds a comma. The state is
//! what stands before the first comma, the action what stands between that
//! comma and the colon, the number what follows the colon. Every other line
//! is passed over, one that is not text among them. The number is kept as
//! text: reading it as a binary64 number and writing one out are the
//! caller's.

use vstd::prelude::*;
use vstd::slice::{slice_subrange, slice_to_vec};
use vstd::utf8::{valid_utf8, valid_utf8_concat};
use crate::labels::{Action, StateLabel};
use crate::text::{
    after_first_line,
    find_byte,
    first_line,
    is_ascii,
    is_utf8,
    lemma_ascii_byte_is_utf8,
    lemma_ascii_is_utf8,
    lemma_index_of,
    lemma_index_of_is,
    lines,
    spec_split_once,
    split_once,
    strip_carriage_return,
    CARRIAGE_RETURN,
    NEWLINE,
};

verus! {

/// The comma between the state and the action.
pub const COMMA: u8 = 0x2C;

/// The colon between the key and the number.
pub const COLON: u8 = 0x3A;

/// One record of the model file.
pub struct Record {
    pub state: Vec<u8>,
    pub action: Vec<u8>,
    pub number: Vec<u8>,
}

/// What a record holds.
pub struct RecordSpec {
    pub state: Seq<u8>,
    pub action: Seq<u8>,
    pub number: Seq<u8>,
}

impl View for Record {
    type V = RecordSpec;

    open spec fn view(&self) -> RecordSpec {
        RecordSpec { state: self.state@, action: self.action@, number: self.number@ }
    }
}

/// What each record of a list holds.
pub open spec fn record_views(rs: Seq<Record>) -> Seq<RecordSpec> {
    rs.map_values(|r: Record| r@)
}

/// The record that a line holds, if it holds one. A line that is not UTF-8
/// text holds none.
pub open spec fn parse_line(line: Seq<u8>) -> Option<RecordSpec> {
    if !valid_utf8(line) {
        None
    } else {
        match spec_split_once(line, COLON) {
            None => None,
            Some((key, number)) => match spec_split_once(key, COMMA) {
                None => None,
                Some((state, action)) => Some(RecordSpec { state, action, number }),
            },
        }
    }
}

/// A line's record as a list of one, or the empty list.
pub open spec fn record_of_line(line: Seq<u8>) -> Seq<RecordSpec> {
    match parse_line(line) {
        Some(r) => seq![r],
        None => Seq::empty(),
    }
}

/// The records of the lines that hold one, in the order of the lines.
pub open spec fn records_of(ls: Seq<Seq<u8>>) -> Seq<RecordSpec>
    decreases ls.len(),
{
    if ls.len() == 0 {
        Seq::empty()
    } else {
        record_of_line(ls[0]) + records_of(ls.skip(1))
    }
}

/// The records of a model file.
pub open spec fn spec_decode_model(text: Seq<u8>) -> Seq<RecordSpec> {
    records_of(lines(text))
}

/// The line of a record, without its line feed.
pub open spec fn record_line(r: RecordSpec) -> Seq<u8> {
    r.state + seq![COMMA] + r.action + seq![COLON] + r.number
}

/// The model file of a list of records: their lines, each ended by a line
/// feed.
pub open spec fn spec_encode_model(rs: Seq<RecordSpec>) -> Seq<u8>
    decreases rs.len(),
{
    if rs.len() == 0 {
        Seq::empty()
    } else {
        record_line(rs[0]) + seq![NEWLINE] + spec_encode_model(rs.skip(1))
    }
}

/// A record that comes back from its line as it went in: its parts are
/// UTF-8 text, and no delimiter stands where it would be taken for one. The
/// state holds no comma, colon or line feed, the action no colon or line
/// feed, the number no line feed and no carriage return at its end.
pub open spec fn in_grammar(r: RecordSpec) -> bool {
    &&& valid_utf8(r.state)
    &&& valid_utf8(r.action)
    &&& valid_utf8(r.number)
    &&& forall|i: int|
        0 <= i < r.state.len() ==> #[trigger] r.state[i] != COMMA && r.state[i] != COLON
            && r.state[i] != NEWLINE
    &&& forall|i: int|
        0 <= i < r.action.len() ==> #[trigger] r.action[i] != COLON && r.action[i] != NEWLINE
    &&& forall|i: int| 0 <= i < r.number.len() ==> #[trigger] r.number[i] != NEWLINE
    &&& r.number.len() > 0 ==> r.number.last() != CARRIAGE_RETURN
}

/// The line of a record in the grammar is UTF-8 text, holds no line feed,
/// loses nothing with a carriage return, and gives the record back.
pub proof fn lemma_record_line(r: RecordSpec)
    requires
        in_grammar(r),
    ensures
        forall|i: int| 0 <= i < record_line(r).len() ==> record_line(r)[i] != NEWLINE,
        strip_carriage_return(record_line(r)) == record_line(r),
        parse_line(record_line(r)) == Some(r),
{
    let line = record_line(r);
    let comma_at = r.state.len() as int;
    let colon_at = comma_at + 1 + r.action.len();
    assert forall|i: int| 0 <= i < line.len() implies line[i] == (if i < comma_at {
        r.state[i]
    } else if i == comma_at {
        COMMA
    } else if i < colon_at {
        r.action[i - comma_at - 1]
    } else if i == colon_at {
        COLON
    } else {
        r.number[i - colon_at - 1]
    }) by {}
    assert forall|i: int| 0 <= i < line.len() implies line[i] != NEWLINE by {}
    assert(valid_utf8(line)) by {
        lemma_ascii_byte_is_utf8(COMMA);
        lemma_ascii_byte_is_utf8(COLON);
        valid_utf8_concat(r.state, seq![COMMA]);
        valid_utf8_concat(r.state + seq![COMMA], r.action);
        valid_utf8_concat(r.state + seq![COMMA] + r.action, seq![COLON]);
        valid_utf8_concat(r.state + seq![COMMA] + r.action + seq![COLON], r.number);
    }
    lemma_index_of_is(line, COLON, colon_at);
    let key = line.take(colon_at);
    assert(line.skip(colon_at + 1) =~= r.number);
    assert forall|i: int| 0 <= i < key.len() implies key[i] == line[i] by {}
    lemma_index_of_is(key, COMMA, comma_at);
    assert(key.take(comma_at) =~= r.state);
    assert(key.skip(comma_at + 1) =~= r.action);
}

/// A text that starts with a whole line: the line gives its record, the rest
/// gives the rest.
pub proof fn lemma_decode_line_first(line: Seq<u8>, rest: Seq<u8>)
    requires
        forall|i: int| 0 <= i < line.len() ==> line[i] != NEWLINE,
    ensures
        spec_decode_model(line + seq![NEWLINE] + rest) == record_of_line(
            strip_carriage_return(line),
        ) + spec_decode_model(rest),
{
    let text = line + seq![NEWLINE] + rest;
    let n = line.len() as int;
    lemma_index_of_is(text, NEWLINE, n);
    assert(first_line(text) == strip_carriage_return(line));
    assert(after_first_line(text) == rest);
    let ls = lines(text);
    assert(ls.skip(1) =~= lines(rest));
}

/// Records in the grammar come back from their model file, whatever follows
/// them in it.
pub proof fn lemma_decode_after_encoded(rs: Seq<RecordSpec>, tail: Seq<u8>)
    requires
        forall|i: int| 0 <= i < rs.len() ==> in_grammar(#[trigger] rs[i]),
    ensures
        spec_decode_model(spec_encode_model(rs) + tail) == rs + spec_decode_model(tail),
    decreases rs.len(),
{
    if rs.len() > 0 {
        let line = record_line(rs[0]);
        let later = rs.skip(1);
        let rest = spec_encode_model(later) + tail;
        assert forall|i: int| 0 <= i < later.len() implies in_grammar(#[trigger] later[i]) by {}
        lemma_record_line(rs[0]);
        lemma_decode_line_first(line, rest);
        lemma_decode_after_encoded(later, tail);
        assert(spec_encode_model(rs) + tail =~= line + seq![NEWLINE] + rest);
    }
}

/// Writing records out and reading the file back gives the same records,
/// provided each of them is in the grammar.
pub proof fn lemma_round_trip(rs: Seq<RecordSpec>)
    requires
        forall|i: int| 0 <= i < rs.len() ==> in_grammar(#[trigger] rs[i]),
    ensures
        spec_decode_model(spec_encode_model(rs)) == rs,
{
    lemma_decode_after_encoded(rs, Seq::empty());
}

/// A line that holds no record, put anywhere between the lines of a model
/// file, is passed over: the records before it and after it come back.
pub proof fn lemma_round_trip_past_bad_line(
    before: Seq<RecordSpec>,
    bad: Seq<u8>,
    after: Seq<RecordSpec>,
)
    requires
        forall|i: int| 0 <= i < before.len() ==> in_grammar(#[trigger] before[i]),
        forall|i: int| 0 <= i < after.len() ==> in_grammar(#[trigger] after[i]),
        forall|i: int| 0 <= i < bad.len() ==> bad[i] != NEWLINE,
        parse_line(strip_carriage_return(bad)).is_none(),
    ensures
        spec_decode_model(
            spec_encode_model(before) + (bad + seq![NEWLINE] + spec_encode_model(after)),
        ) == before + after,
{
    let tail = bad + seq![NEWLINE] + spec_encode_model(after);
    lemma_decode_after_encoded(before, tail);
    lemma_decode_line_first(bad, spec_encode_model(after));
    lemma_round_trip(after);
}

/// A line that is not UTF-8 text holds no record, with or without a carriage
/// return at its end.
pub proof fn lemma_line_that_is_not_text(bad: Seq<u8>)
    requires
        !valid_utf8(bad),
    ensures
        parse_line(bad).is_none(),
        parse_line(strip_carriage_return(bad)).is_none(),
{
    if bad.len() > 0 && bad.last() == CARRIAGE_RETURN {
        if valid_utf8(bad.drop_last()) {
            lemma_ascii_byte_is_utf8(CARRIAGE_RETURN);
            valid_utf8_concat(bad.drop_last(), seq![CARRIAGE_RETURN]);
            assert(bad.drop_last() + seq![CARRIAGE_RETURN] =~= bad);
        }
    }
}

/// ASCII text without a comma, a colon, a line feed or a carriage return: it
/// can stand in any part of a record.
pub open spec fn is_plain(s: Seq<u8>) -> bool {
    &&& is_ascii(s)
    &&& forall|i: int|
        0 <= i < s.len() ==> #[trigger] s[i] != COMMA && s[i] != COLON && s[i] != NEWLINE && s[i]
            != CARRIAGE_RETURN
}

/// The names of the load categories and of the profiles are plain.
pub proof fn lemma_names_are_plain(state: StateLabel, action: Action)
    ensures
        is_plain(state.spec_name()),
        is_plain(action.spec_name()),
{
}

/// The keys that the controller makes are in the grammar of the file: a
/// record under the name of a load category and the name of a profile or of
/// another load category comes back from its line, provided its number is
/// UTF-8 text without a line feed and without a carriage return at its end.
pub proof fn lemma_known_keys_in_grammar(
    state: StateLabel,
    action: Action,
    next: StateLabel,
    number: Seq<u8>,
)
    requires
        in_grammar(RecordSpec { state: Seq::empty(), action: Seq::empty(), number }),
    ensures
        in_grammar(RecordSpec { state: state.spec_name(), action: action.spec_name(), number }),
        in_grammar(RecordSpec { state: state.spec_name(), action: next.spec_name(), number }),
{
    lemma_names_are_plain(state, action);
    lemma_names_are_plain(next, action);
    lemma_ascii_is_utf8(state.spec_name());
    lemma_ascii_is_utf8(action.spec_name());
    lemma_ascii_is_utf8(next.spec_name());
}

/// Adding a record at the end adds its line at the end.
pub proof fn lemma_encode_push(rs: Seq<RecordSpec>, r: RecordSpec)
    ensures
        spec_encode_model(rs.push(r)) == spec_encode_model(rs) + record_line(r) + seq![NEWLINE],
    decreases rs.len(),
{
    let grown = rs.push(r);
    if rs.len() == 0 {
        assert(spec_encode_model(grown.skip(1)) =~= Seq::<u8>::empty());
    } else {
        lemma_encode_push(rs.skip(1), r);
        assert(grown.skip(1) =~= rs.skip(1).push(r));
    }
}

/// The record that a line holds, if it holds one; none where the line is not
/// UTF-8 text.
pub fn parse_record(line: &[u8]) -> (r: Option<Record>)
    ensures
        match r {
            Some(record) => parse_line(line@) == Some(record@),
            None => parse_line(line@).is_none(),
        },
{
    if !is_utf8(line) {
        return None;
    }
    match split_once(line, COLON) {
        None => None,
        Some((key, number)) => match split_once(key, COMMA) {
            None => None,
            Some((state, action)) => Some(
                Record {
                    state: slice_to_vec(state),
                    action: slice_to_vec(action),
                    number: slice_to_vec(number),
                },
            ),
        },
    }
}

/// The records of a model file, in the order of its lines; the lines that
/// hold no record are passed over.
pub fn decode_model(text: &[u8]) -> (out: Vec<Record>)
    ensures
        record_views(out@) == spec_decode_model(text@),
{
    let mut out: Vec<Record> = Vec::new();
    let mut pos: usize = 0;
    proof {
        assert(text@.skip(0) =~= text@);
    }
    while pos < text.len()
        invariant
            pos <= text.len(),
            spec_decode_model(text@) == record_views(out@) + spec_decode_model(
                text@.skip(pos as int),
            ),
        decreases text.len() - pos,
    {
        let ghost here = text@.skip(pos as int);
        let end: usize = find_byte(text, pos, NEWLINE);
        let mut line_end: usize = end;
        let mut next: usize = end;
        if end < text.len() {
            next = end + 1;
            if end > pos && text[end - 1] == CARRIAGE_RETURN {
                line_end = end - 1;
            }
        }
        let line = slice_subrange(text, pos, line_end);
        proof {
            lemma_index_of(here, NEWLINE);
            assert(line@ == first_line(here));
            assert(text@.skip(next as int) == after_first_line(here));
            let ls = lines(here);
            assert(ls.skip(1) =~= lines(after_first_line(here)));
        }
        if let Some(record) = parse_record(line) {
            out.push(record);
        }
        pos = next;
    }
    out
}

/// Adds the bytes of `bytes` at the end of `out`.
pub fn append_bytes(out: &mut Vec<u8>, bytes: &[u8])
    ensures
        final(out)@ == old(out)@ + bytes@,
{
    let mut i: usize = 0;
    while i < bytes.len()
        invariant
            i <= bytes.len(),
            out@ == old(out)@ + bytes@.take(i as int),
        decreases bytes.len() - i,
    {
        out.push(bytes[i]);
        i = i + 1;
    }
}

/// The model file of a list of records: for each record, in order, the line
/// `state,action:number` and a line feed.
pub fn encode_model(records: &Vec<Record>) -> (out: Vec<u8>)
    ensures
        out@ == spec_encode_model(record_views(records@)),
{
    let mut out: Vec<u8> = Vec::new();
    let mut i: usize = 0;
    while i < records.len()
        invariant
            i <= records.len(),
            out@ == spec_encode_model(record_views(records@).take(i as int)),
        decreases records.len() - i,
    {
        let record = &records[i];
        append_bytes(&mut out, record.state.as_slice());
        out.push(COMMA);
        append_bytes(&mut out, record.action.as_slice());
        out.push(COLON);
        append_bytes(&mut out, record.number.as_slice());
        out.push(NEWLINE);
        proof {
            let done = record_views(records@).take(i as int);
            lemma_encode_push(done, record@);
            assert(record_views(records@).take(i + 1) =~= done.push(record@));
        }
        i = i + 1;
    }
    proof {
        assert(record_views(records@).take(i as int) =~= record_views(records@));
    }
    out
}

} // verus!
