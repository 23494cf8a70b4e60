use vstd::prelude::*;

use crate::errors::TranscodeError;
use crate::layout::MIN_RECORD_LEN;
use crate::record::append_output_line;
use crate::record::lemma_output_body_clean;
use crate::record::output_body_of;
use crate::record::output_line_of;
use crate::text::NL;
use crate::text::lemma_lines_no_nl;
use crate::text::lemma_lines_of_concat;
use crate::text::lemma_lines_single;
use crate::text::lines_of;
use crate::text::no_nl;
use crate::text::seq_views;
use crate::text::split_lines;
use vstd::utf8::valid_utf8;

verus! {

/// A data row the transcoder accepts: valid UTF-8 text that is long enough
/// for the fixed-width layout.
pub open spec fn row_ok(l: Seq<u8>) -> bool {
    valid_utf8(l) && l.len() >= MIN_RECORD_LEN
}

/// Index of the first unacceptable data row, or `rows.len()` if every row
/// is acceptable.
pub open spec fn first_bad(rows: Seq<Seq<u8>>) -> nat
    decreases rows.len(),
{
    if rows.len() == 0 {
        0
    } else if !row_ok(rows[0]) {
        0
    } else {
        (1 + first_bad(rows.drop_first())) as nat
    }
}

/// `first_bad` is determined by its characterization: if every row before
/// `m` is acceptable and row `m` (when in range) is not, then it is `m`.
pub proof fn lemma_first_bad_is(rows: Seq<Seq<u8>>, m: int)
    requires
        0 <= m <= rows.len(),
        forall|j: int| 0 <= j < m ==> row_ok(rows[j]),
        m < rows.len() ==> !row_ok(rows[m]),
    ensures
        first_bad(rows) == m,
    decreases rows.len(),
{
    if rows.len() == 0 {
    } else if !row_ok(rows[0]) {
        assert(m == 0);
    } else {
        assert(m >= 1);
        assert forall|j: int| 0 <= j < m - 1 implies row_ok(rows.drop_first()[j]) by {
            assert(row_ok(rows[j + 1]));
        }
        lemma_first_bad_is(rows.drop_first(), m - 1);
    }
}

/// The error reported for an unacceptable row: text validity is checked
/// before length.
pub open spec fn row_error(l: Seq<u8>, row: int) -> TranscodeError {
    if !valid_utf8(l) {
        TranscodeError::NonUtf8Error { row: row as usize }
    } else {
        TranscodeError::MalformedRecordError { row: row as usize, len: l.len() as usize }
    }
}

/// The output text for a sequence of acceptable data rows: each row
/// rendered as its tab-joined fields and terminated by a line feed, in
/// input order.
pub open spec fn output_of(rows: Seq<Seq<u8>>) -> Seq<u8>
    decreases rows.len(),
{
    if rows.len() == 0 {
        Seq::empty()
    } else {
        output_of(rows.drop_last()) + output_line_of(rows.last())
    }
}

/// The rendered body of each row, in order.
pub open spec fn output_bodies_of(rows: Seq<Seq<u8>>) -> Seq<Seq<u8>> {
    Seq::new(rows.len(), |i: int| output_body_of(rows[i]))
}

/// What transcoding a sequence of data rows yields: the rendering of every
/// row if all are acceptable, otherwise the error of the first row that is
/// not.
pub open spec fn transcode_rows_spec(rows: Seq<Seq<u8>>) -> Result<Seq<u8>, TranscodeError> {
    if first_bad(rows) == rows.len() {
        Ok(output_of(rows))
    } else {
        Err(row_error(rows[first_bad(rows) as int], first_bad(rows) as int))
    }
}

/// What transcoding a decompressed text yields: the first line (the header)
/// is dropped unconditionally, and the remaining lines are the data rows;
/// an input without any line yields empty output.
pub open spec fn transcode_text_spec(data: Seq<u8>) -> Result<Seq<u8>, TranscodeError> {
    if lines_of(data).len() == 0 {
        Ok(Seq::empty())
    } else {
        transcode_rows_spec(lines_of(data).drop_first())
    }
}

/// Relies on core::str::from_utf8: it returns `Ok` exactly on the byte
/// sequences that vstd's `valid_utf8` describes.
#[verifier::external_body]
fn is_utf8_row(line: &Vec<u8>) -> (r: bool)
    ensures
        r == valid_utf8(line@),
{
    core::str::from_utf8(line.as_slice()).is_ok()
}

/// Transcodes one decompressed text: drops the header line, validates every
/// data row, and renders each as five trimmed, tab-separated fields on a
/// line of its own. Fails with the error of the first bad row; succeeds on
/// exactly the inputs whose data rows are all acceptable.
pub fn transcode_text(data: &Vec<u8>) -> (r: Result<Vec<u8>, TranscodeError>)
    ensures
        match r {
            Ok(v) => transcode_text_spec(data@) == Ok::<Seq<u8>, TranscodeError>(v@),
            Err(e) => transcode_text_spec(data@) == Err::<Seq<u8>, TranscodeError>(e),
        },
{
    let lines = split_lines(data);
    let mut out: Vec<u8> = Vec::new();
    if lines.len() == 0 {
        return Ok(out);
    }
    let ghost rows = lines_of(data@).drop_first();
    let mut i: usize = 1;
    proof {
        assert(out@ =~= output_of(rows.take(0)));
    }
    while i < lines.len()
        invariant
            1 <= i <= lines@.len(),
            seq_views(lines@) == lines_of(data@),
            rows == lines_of(data@).drop_first(),
            lines@.len() >= 1,
            rows.len() == lines@.len() - 1,
            forall|j: int| 0 <= j < i - 1 ==> row_ok(rows[j]),
            out@ == output_of(rows.take(i - 1)),
        decreases lines@.len() - i,
    {
        let line = &lines[i];
        proof {
            assert(line@ == seq_views(lines@)[i as int]);
            assert(line@ == rows[i - 1]);
        }
        if !is_utf8_row(line) {
            proof {
                lemma_first_bad_is(rows, i - 1);
            }
            return Err(TranscodeError::NonUtf8Error { row: i - 1 });
        }
        if line.len() < MIN_RECORD_LEN {
            proof {
                lemma_first_bad_is(rows, i - 1);
            }
            return Err(TranscodeError::MalformedRecordError { row: i - 1, len: line.len() });
        }
        append_output_line(&mut out, line);
        proof {
            assert(rows.take(i as int).drop_last() =~= rows.take(i - 1));
            assert(rows.take(i as int).last() == rows[i - 1]);
        }
        i = i + 1;
    }
    proof {
        lemma_first_bad_is(rows, rows.len() as int);
        assert(rows.take(rows.len() as int) =~= rows);
    }
    Ok(out)
}

/// The concatenated output for acceptable, line-feed-free rows splits back
/// into exactly one line per row: the row's rendered body.
pub proof fn lemma_lines_of_output(rows: Seq<Seq<u8>>)
    requires
        forall|j: int| 0 <= j < rows.len() ==> row_ok(rows[j]) && no_nl(rows[j]),
    ensures
        lines_of(output_of(rows)) == output_bodies_of(rows),
        output_of(rows).len() == 0 || output_of(rows).last() == NL,
    decreases rows.len(),
{
    if rows.len() == 0 {
        assert(lines_of(output_of(rows)) =~= output_bodies_of(rows));
    } else {
        let init = rows.drop_last();
        let l = rows.last();
        assert forall|j: int| 0 <= j < init.len() implies row_ok(init[j]) && no_nl(init[j]) by {
            assert(row_ok(rows[j]) && no_nl(rows[j]));
        }
        lemma_lines_of_output(init);
        lemma_output_body_clean(l);
        lemma_lines_of_concat(output_of(init), output_line_of(l));
        lemma_lines_single(output_body_of(l));
        assert(lines_of(output_of(rows)) == lines_of(output_of(init)) + seq![output_body_of(l)]);
        assert(output_bodies_of(init) + seq![output_body_of(l)] =~= output_bodies_of(rows));
        assert(output_of(rows).last() == NL) by {
            let line_out = output_line_of(l);
            assert(line_out.last() == NL);
            assert(output_of(rows).last() == line_out.last());
        }
    }
}

/// One output line per data row: for a text of one header row and any
/// number of acceptable data rows, transcoding succeeds, the header is
/// absent from the output, and the output's lines are exactly the rendered
/// bodies of the data rows, in order.
pub proof fn lemma_output_lines(text: Seq<u8>)
    requires
        lines_of(text).len() >= 1,
        forall|j: int| 1 <= j < lines_of(text).len() ==> row_ok(lines_of(text)[j]),
    ensures
        transcode_text_spec(text) matches Ok(out) && lines_of(out) == output_bodies_of(
            lines_of(text).drop_first(),
        ) && lines_of(out).len() == lines_of(text).len() - 1,
{
    let rows = lines_of(text).drop_first();
    lemma_lines_no_nl(text);
    assert forall|j: int| 0 <= j < rows.len() implies row_ok(rows[j]) && no_nl(rows[j]) by {
        assert(rows[j] == lines_of(text)[j + 1]);
        assert(row_ok(lines_of(text)[j + 1]));
        assert forall|k: int| 0 <= k < rows[j].len() implies rows[j][k] != NL by {
            assert(lines_of(text)[j + 1][k] != NL);
        }
    }
    lemma_first_bad_is(rows, rows.len() as int);
    lemma_lines_of_output(rows);
}

} // verus!
