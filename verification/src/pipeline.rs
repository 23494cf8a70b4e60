use vstd::prelude::*;

use crate::errors::TranscodeError;
use crate::text::lines_of;
use crate::transcode::lemma_output_lines;
use crate::transcode::output_bodies_of;
use crate::transcode::row_ok;
use crate::transcode::transcode_text;
use crate::transcode::transcode_text_spec;
use std::io::Read;
use std::io::Write;

verus! {

/// The decompressed form of a gzip byte stream, or nothing if the stream is
/// not a valid one. Decompression is a function of the compressed bytes
/// alone, so the result can bear a name.
pub uninterp spec fn gunzip_of(compressed: Seq<u8>) -> Option<Seq<u8>>;

/// Relies on flate2::read::GzDecoder, driven by std::io::Read::read_to_end:
/// it decompresses a gzip stream and fails exactly on the streams whose
/// header or body is invalid or truncated, with the same outcome for the
/// same bytes on every run.
#[verifier::external_body]
pub(crate) fn gunzip(compressed: &Vec<u8>) -> (r: Result<Vec<u8>, TranscodeError>)
    ensures
        match r {
            Ok(v) => gunzip_of(compressed@) == Some(v@),
            Err(e) => gunzip_of(compressed@) == None::<Seq<u8>> && e
                == TranscodeError::DecodeError,
        },
{
    let mut decoder = flate2::read::GzDecoder::new(compressed.as_slice());
    let mut text: Vec<u8> = Vec::new();
    match decoder.read_to_end(&mut text) {
        Ok(_) => Ok(text),
        Err(_) => Err(TranscodeError::DecodeError),
    }
}

/// Relies on flate2::GzBuilder and flate2::write::GzEncoder, writing into an
/// in-memory buffer: the encoder surfaces errors only from the underlying
/// writer, and writing to a `Vec` never fails, so compressing into memory
/// always succeeds. The output is a gzip stream, carrying
/// `tab_converted.txt` as its embedded file name, that decompresses back to
/// exactly the bytes that were written into it.
#[verifier::external_body]
pub(crate) fn gzip_compress(data: &Vec<u8>) -> (r: Vec<u8>)
    ensures
        gunzip_of(r@) == Some(data@),
{
    let mut encoder = flate2::GzBuilder::new().filename("tab_converted.txt").write(
        Vec::new(),
        flate2::Compression::new(6),
    );
    encoder.write_all(data.as_slice()).expect("writing to an in-memory buffer cannot fail");
    encoder.finish().expect("finalizing an in-memory stream cannot fail")
}

/// A successful run over `input`: the input decompresses, its text
/// transcodes, and the produced `output` decompresses to exactly the
/// transcoded text.
pub open spec fn pipeline_ok(input: Seq<u8>, output: Seq<u8>) -> bool {
    match gunzip_of(input) {
        Some(text) => match transcode_text_spec(text) {
            Ok(o) => gunzip_of(output) == Some(o),
            Err(_) => false,
        },
        None => false,
    }
}

/// Converts one compressed fixed-width file into its compressed
/// tab-separated form: decompress, drop the header line, re-render every
/// data row, recompress. It succeeds exactly on the inputs that decode to a
/// text whose data rows all transcode; any failure is terminal, and no
/// output accompanies an error.
pub fn transcode(compressed: &Vec<u8>) -> (r: Result<Vec<u8>, TranscodeError>)
    ensures
        match r {
            Ok(c) => pipeline_ok(compressed@, c@),
            Err(e) => match e {
                TranscodeError::DecodeError => gunzip_of(compressed@) == None::<Seq<u8>>,
                _ => match gunzip_of(compressed@) {
                    Some(text) => transcode_text_spec(text) == Err::<Seq<u8>, TranscodeError>(e),
                    None => false,
                },
            },
        },
        match gunzip_of(compressed@) {
            Some(text) => r is Ok <==> transcode_text_spec(text) is Ok,
            None => r == Err::<Vec<u8>, TranscodeError>(TranscodeError::DecodeError),
        },
{
    let text = match gunzip(compressed) {
        Ok(t) => t,
        Err(e) => {
            return Err(e);
        },
    };
    let out = match transcode_text(&text) {
        Ok(o) => o,
        Err(e) => {
            return Err(e);
        },
    };
    Ok(gzip_compress(&out))
}

/// One output line per data row, stated for the whole pipeline: when a run
/// succeeds on an input whose decompressed text is one header row followed
/// by acceptable data rows, the output decompresses to a text with exactly
/// one line per data row, in order, the header gone.
pub proof fn lemma_pipeline_output_lines(input: Seq<u8>, output: Seq<u8>)
    requires
        pipeline_ok(input, output),
        match gunzip_of(input) {
            Some(text) => lines_of(text).len() >= 1 && (forall|j: int|
                1 <= j < lines_of(text).len() ==> row_ok(lines_of(text)[j])),
            None => false,
        },
    ensures
        match (gunzip_of(input), gunzip_of(output)) {
            (Some(text), Some(converted)) => lines_of(converted) == output_bodies_of(
                lines_of(text).drop_first(),
            ) && lines_of(converted).len() == lines_of(text).len() - 1,
            _ => false,
        },
{
    let text = gunzip_of(input)->Some_0;
    lemma_output_lines(text);
}

/// Re-running on the same input is deterministic in what matters: two
/// successful runs may produce different compressed bytes, but both outputs
/// decompress to the same text.
pub proof fn lemma_transcoded_text_deterministic(input: Seq<u8>, out1: Seq<u8>, out2: Seq<u8>)
    requires
        pipeline_ok(input, out1),
        pipeline_ok(input, out2),
    ensures
        gunzip_of(out1) == gunzip_of(out2),
        gunzip_of(out1) is Some,
{
}

} // verus!
