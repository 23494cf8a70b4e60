use vstd::prelude::*;

use crate::layout::FIELD_COUNT;
use crate::layout::MIN_RECORD_LEN;
use crate::layout::field_end;
use crate::layout::field_start;
use crate::text::CR;
use crate::text::NL;
use crate::text::TAB;
use crate::text::is_ascii_ws;
use crate::text::lemma_concat_no_nl;
use crate::text::lemma_trim_bounds;
use crate::text::no_nl;
use crate::text::trim_hi;
use crate::text::trim_lo;
use crate::text::trim_spec;
use crate::text::trimmed_field;

verus! {

/// Field `i` of a data row: the bytes at the field's declared offsets,
/// trimmed of ASCII whitespace.
pub open spec fn field_of(line: Seq<u8>, i: int) -> Seq<u8> {
    trim_spec(line.subrange(field_start(i), field_end(i)))
}

/// The body of an output line: the five fields joined by single tabs.
pub open spec fn output_body_of(line: Seq<u8>) -> Seq<u8> {
    field_of(line, 0) + seq![TAB] + field_of(line, 1) + seq![TAB] + field_of(line, 2) + seq![TAB]
        + field_of(line, 3) + seq![TAB] + field_of(line, 4)
}

/// A full output line: the body followed by a line feed.
pub open spec fn output_line_of(line: Seq<u8>) -> Seq<u8> {
    output_body_of(line) + seq![NL]
}

/// Appends the output rendering of `line` to `out`.
pub fn append_output_line(out: &mut Vec<u8>, line: &Vec<u8>)
    requires
        line@.len() >= MIN_RECORD_LEN,
    ensures
        final(out)@ == old(out)@ + output_line_of(line@),
{
    let mut f0 = trimmed_field(line, 0, 14);
    out.append(&mut f0);
    out.push(TAB);
    let mut f1 = trimmed_field(line, 15, 35);
    out.append(&mut f1);
    out.push(TAB);
    let mut f2 = trimmed_field(line, 36, 78);
    out.append(&mut f2);
    out.push(TAB);
    let mut f3 = trimmed_field(line, 79, 97);
    out.append(&mut f3);
    out.push(TAB);
    let mut f4 = trimmed_field(line, 98, 108);
    out.append(&mut f4);
    out.push(NL);
    proof {
        assert(out@ =~= old(out)@ + output_line_of(line@));
    }
}

/// Round trip modulo trimming: each output field is a contiguous slice of
/// its declared byte range in the original row; the bytes of that range
/// that trimming dropped are all ASCII whitespace, and the field is never
/// longer than its declared width, so re-padding it to that width falls
/// back inside the range.
pub proof fn lemma_field_slice_round_trip(line: Seq<u8>, i: int)
    requires
        0 <= i < FIELD_COUNT,
        line.len() >= MIN_RECORD_LEN,
    ensures
        ({
            let raw = line.subrange(field_start(i), field_end(i));
            let lo = field_start(i) + trim_lo(raw);
            let hi = field_start(i) + trim_hi(raw);
            &&& field_start(i) <= lo <= hi <= field_end(i)
            &&& field_of(line, i) == line.subrange(lo, hi)
            &&& field_of(line, i).len() <= field_end(i) - field_start(i)
            &&& forall|j: int| field_start(i) <= j < lo ==> is_ascii_ws(line[j])
            &&& forall|j: int| hi <= j < field_end(i) ==> is_ascii_ws(line[j])
        }),
{
    let raw = line.subrange(field_start(i), field_end(i));
    lemma_trim_bounds(raw);
    assert(raw.subrange(trim_lo(raw), trim_hi(raw)) =~= line.subrange(
        field_start(i) + trim_lo(raw),
        field_start(i) + trim_hi(raw),
    ));
    assert forall|j: int|
        field_start(i) <= j < field_start(i) + trim_lo(raw) implies is_ascii_ws(line[j]) by {
        assert(is_ascii_ws(raw[j - field_start(i)]));
    }
    assert forall|j: int|
        field_start(i) + trim_hi(raw) <= j < field_end(i) implies is_ascii_ws(line[j]) by {
        assert(is_ascii_ws(raw[j - field_start(i)]));
    }
}

/// An output line's body holds no line feed and does not end in a carriage
/// return, provided the row itself holds no line feed.
pub proof fn lemma_output_body_clean(line: Seq<u8>)
    requires
        line.len() >= MIN_RECORD_LEN,
        no_nl(line),
    ensures
        no_nl(output_body_of(line)),
        output_body_of(line).len() > 0,
        output_body_of(line).last() != CR,
{
    assert forall|i: int| 0 <= i < FIELD_COUNT implies no_nl(field_of(line, i)) by {
        lemma_field_slice_round_trip(line, i);
        let raw = line.subrange(field_start(i), field_end(i));
        let lo = field_start(i) + trim_lo(raw);
        let hi = field_start(i) + trim_hi(raw);
        assert forall|k: int| 0 <= k < field_of(line, i).len() implies field_of(line, i)[k]
            != NL by {
            assert(field_of(line, i)[k] == line[lo + k]);
        }
    }
    let t = seq![TAB];
    assert(no_nl(t));
    lemma_concat_no_nl(field_of(line, 0), t);
    lemma_concat_no_nl(field_of(line, 0) + t, field_of(line, 1));
    lemma_concat_no_nl(field_of(line, 0) + t + field_of(line, 1), t);
    lemma_concat_no_nl(field_of(line, 0) + t + field_of(line, 1) + t, field_of(line, 2));
    lemma_concat_no_nl(field_of(line, 0) + t + field_of(line, 1) + t + field_of(line, 2), t);
    lemma_concat_no_nl(
        field_of(line, 0) + t + field_of(line, 1) + t + field_of(line, 2) + t,
        field_of(line, 3),
    );
    lemma_concat_no_nl(
        field_of(line, 0) + t + field_of(line, 1) + t + field_of(line, 2) + t + field_of(line, 3),
        t,
    );
    lemma_concat_no_nl(
        field_of(line, 0) + t + field_of(line, 1) + t + field_of(line, 2) + t + field_of(line, 3)
            + t,
        field_of(line, 4),
    );
    let prefix = field_of(line, 0) + t + field_of(line, 1) + t + field_of(line, 2) + t + field_of(
        line,
        3,
    ) + t;
    let f4 = field_of(line, 4);
    let raw4 = line.subrange(field_start(4), field_end(4));
    lemma_trim_bounds(raw4);
    if f4.len() > 0 {
        assert(output_body_of(line).last() == f4.last());
        assert(!is_ascii_ws(f4.last()));
    } else {
        assert(output_body_of(line).last() == prefix.last());
        assert(prefix.last() == TAB);
    }
}

} // verus!
