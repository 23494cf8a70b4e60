use std::io::Read;
use std::io::Write;

use fw_transcode::TranscodeError;
use fw_transcode::output_key;
use fw_transcode::transcode;
use fw_transcode::transcode_text;

fn gzip(data: &[u8]) -> Vec<u8> {
    let mut enc = flate2::write::GzEncoder::new(Vec::new(), flate2::Compression::new(6));
    enc.write_all(data).unwrap();
    enc.finish().unwrap()
}

fn gunzip(data: &[u8]) -> Vec<u8> {
    let mut dec = flate2::read::GzDecoder::new(data);
    let mut out = Vec::new();
    dec.read_to_end(&mut out).unwrap();
    out
}

fn header_line() -> String {
    format!(
        "{:<14} {:<20} {:<42} {:<18} {:<10}",
        "date", "serial_number", "model", "capacity_bytes", "failure"
    )
}

fn data_row(date: &str, serial: &str, model: &str, capacity: &str, failure: &str) -> String {
    format!(
        "{:<14} {:<20} {:<42} {:<18} {:<10}",
        date, serial, model, capacity, failure
    )
}

#[test]
fn single_row_scenario() {
    let row = data_row("2023-01-15", "Z1F0XYZ1", "ST4000DM000-1F2168", "4000787030016", "0");
    assert_eq!(row.len(), 108);
    let text = format!("{}\n{}\n", header_line(), row);
    let out = transcode(&gzip(text.as_bytes())).unwrap();
    assert_eq!(
        gunzip(&out),
        b"2023-01-15\tZ1F0XYZ1\tST4000DM000-1F2168\t4000787030016\t0\n"
    );
}

#[test]
fn one_output_line_per_data_row() {
    let rows = [
        data_row("2023-01-15", "A1", "M1", "100", "0"),
        data_row("2023-01-16", "B2", "M2", "200", "1"),
        data_row("2023-01-17", "C3", "M3", "300", "0"),
    ];
    let text = format!("{}\n{}\n{}\n{}\n", header_line(), rows[0], rows[1], rows[2]);
    let out = transcode(&gzip(text.as_bytes())).unwrap();
    let decoded = String::from_utf8(gunzip(&out)).unwrap();
    let lines: Vec<&str> = decoded.lines().collect();
    assert_eq!(lines.len(), 3);
    assert_eq!(lines[0], "2023-01-15\tA1\tM1\t100\t0");
    assert_eq!(lines[1], "2023-01-16\tB2\tM2\t200\t1");
    assert_eq!(lines[2], "2023-01-17\tC3\tM3\t300\t0");
}

#[test]
fn exact_boundary_row_is_valid() {
    // the trailing field fills its whole range, through byte 107
    let row = data_row("2023-01-15", "SER", "MOD", "42", "0123456789");
    assert_eq!(row.len(), 108);
    assert_eq!(row.as_bytes()[107], b'9');
    let text = format!("{}\n{}\n", header_line(), row);
    let out = transcode(&gzip(text.as_bytes())).unwrap();
    assert_eq!(gunzip(&out), b"2023-01-15\tSER\tMOD\t42\t0123456789\n");
}

#[test]
fn short_by_one_byte_fails() {
    let row = data_row("2023-01-15", "SER", "MOD", "42", "0123456789");
    let short = &row[..107];
    let text = format!("{}\n{}\n", header_line(), short);
    let r = transcode(&gzip(text.as_bytes()));
    assert_eq!(r, Err(TranscodeError::MalformedRecordError { row: 0, len: 107 }));
}

#[test]
fn header_only_input_gives_empty_output() {
    let text = format!("{}\n", header_line());
    let out = transcode(&gzip(text.as_bytes())).unwrap();
    // the output is still a valid, decodable stream, holding no record
    assert_eq!(gunzip(&out), b"");
}

#[test]
fn fifty_byte_row_fails_with_row_index() {
    let row = "2023-01-15     Z1F0XYZ1                          ";
    assert_eq!(row.len(), 49);
    let text = format!("{}\n{} \n", header_line(), row);
    let r = transcode(&gzip(text.as_bytes()));
    assert_eq!(r, Err(TranscodeError::MalformedRecordError { row: 0, len: 50 }));
}

#[test]
fn error_row_index_skips_header_and_good_rows() {
    let good = data_row("2023-01-15", "A1", "M1", "100", "0");
    let text = format!("{}\n{}\n{}\nshort\n", header_line(), good, good);
    let r = transcode(&gzip(text.as_bytes()));
    assert_eq!(r, Err(TranscodeError::MalformedRecordError { row: 2, len: 5 }));
}

#[test]
fn non_utf8_row_fails() {
    let mut data: Vec<u8> = header_line().into_bytes();
    data.push(b'\n');
    data.extend_from_slice(&[0xFF; 108]);
    data.push(b'\n');
    let r = transcode(&gzip(&data));
    assert_eq!(r, Err(TranscodeError::NonUtf8Error { row: 0 }));
}

#[test]
fn text_validity_is_checked_before_length() {
    let mut data: Vec<u8> = header_line().into_bytes();
    data.push(b'\n');
    data.extend_from_slice(&[0xFF; 50]);
    data.push(b'\n');
    let r = transcode(&gzip(&data));
    assert_eq!(r, Err(TranscodeError::NonUtf8Error { row: 0 }));
}

#[test]
fn invalid_stream_fails_decode() {
    let r = transcode(&b"this is not a compressed stream".to_vec());
    assert_eq!(r, Err(TranscodeError::DecodeError));
}

#[test]
fn truncated_stream_fails_decode() {
    let row = data_row("2023-01-15", "A1", "M1", "100", "0");
    let text = format!("{}\n{}\n", header_line(), row);
    let whole = gzip(text.as_bytes());
    let truncated = whole[..whole.len() / 2].to_vec();
    let r = transcode(&truncated);
    assert_eq!(r, Err(TranscodeError::DecodeError));
}

#[test]
fn inner_whitespace_survives_trimming() {
    let row = data_row("2023-01-15", "A 1", "MODEL X Y", "100", "0");
    let text = format!("{}\n{}\n", header_line(), row);
    let out = transcode(&gzip(text.as_bytes())).unwrap();
    assert_eq!(gunzip(&out), b"2023-01-15\tA 1\tMODEL X Y\t100\t0\n");
}

#[test]
fn crlf_input_handled_like_lf() {
    let row = data_row("2023-01-15", "A1", "M1", "100", "0");
    let lf = format!("{}\n{}\n", header_line(), row);
    let crlf = format!("{}\r\n{}\r\n", header_line(), row);
    let out_lf = transcode(&gzip(lf.as_bytes())).unwrap();
    let out_crlf = transcode(&gzip(crlf.as_bytes())).unwrap();
    assert_eq!(gunzip(&out_lf), gunzip(&out_crlf));
}

#[test]
fn final_row_without_newline_is_processed() {
    let row = data_row("2023-01-15", "A1", "M1", "100", "0");
    let text = format!("{}\n{}", header_line(), row);
    let out = transcode(&gzip(text.as_bytes())).unwrap();
    assert_eq!(gunzip(&out), b"2023-01-15\tA1\tM1\t100\t0\n");
}

#[test]
fn reruns_decompress_to_identical_text() {
    let row = data_row("2023-01-15", "A1", "M1", "100", "0");
    let text = format!("{}\n{}\n", header_line(), row);
    let compressed = gzip(text.as_bytes());
    let out1 = transcode(&compressed).unwrap();
    let out2 = transcode(&compressed).unwrap();
    assert_eq!(gunzip(&out1), gunzip(&out2));
}

#[test]
fn output_embeds_converted_filename() {
    let text = format!("{}\n", header_line());
    let out = transcode(&gzip(text.as_bytes())).unwrap();
    let mut dec = flate2::read::GzDecoder::new(&out[..]);
    let mut sink = Vec::new();
    dec.read_to_end(&mut sink).unwrap();
    let name = dec.header().unwrap().filename().unwrap().to_vec();
    assert_eq!(name, b"tab_converted.txt");
}

#[test]
fn empty_text_transcodes_to_empty_text() {
    let out = transcode_text(&Vec::new()).unwrap();
    assert_eq!(out, Vec::<u8>::new());
}

#[test]
fn key_mapping_scenario() {
    let key = b"fixed_width_raw/2023/01/15.csv.gz".to_vec();
    let out = output_key(&key);
    assert_eq!(out, b"tab_converted/2023/01/15.csv.gz".to_vec());
}

#[test]
fn key_mapping_replaces_every_occurrence() {
    let key = b"fixed_width_raw/a/fixed_width_raw/b.gz".to_vec();
    let out = output_key(&key);
    assert_eq!(out, b"tab_converted/a/tab_converted/b.gz".to_vec());
}

#[test]
fn key_without_segment_is_unchanged() {
    let key = b"some/other/prefix/15.csv.gz".to_vec();
    let out = output_key(&key);
    assert_eq!(out, key);
}
