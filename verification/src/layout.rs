use vstd::prelude::*;

verus! {

/// Byte length every data row must reach: the end offset of the last
/// fixed-width field.
pub const MIN_RECORD_LEN: usize = 108;

/// Number of fixed-width fields in a record.
pub const FIELD_COUNT: usize = 5;

/// Start byte offset (inclusive) of field `i`, in column order:
/// date, serial_number, model, capacity_bytes, failure.
pub open spec fn field_start(i: int) -> int {
    if i == 0 {
        0
    } else if i == 1 {
        15
    } else if i == 2 {
        36
    } else if i == 3 {
        79
    } else {
        98
    }
}

/// End byte offset (exclusive) of field `i`.
pub open spec fn field_end(i: int) -> int {
    if i == 0 {
        14
    } else if i == 1 {
        35
    } else if i == 2 {
        78
    } else if i == 3 {
        97
    } else {
        108
    }
}

/// The fixed layout is well formed: every range is non-empty, consecutive
/// ranges do not overlap, and the last range ends exactly at the minimum
/// record length.
pub proof fn lemma_layout_well_formed()
    ensures
        forall|i: int| 0 <= i < FIELD_COUNT ==> field_start(i) < field_end(i),
        forall|i: int| 0 <= i && i + 1 < FIELD_COUNT ==> field_end(i) <= field_start(i + 1),
        field_end(FIELD_COUNT - 1) == MIN_RECORD_LEN,
{
}

} // verus!
