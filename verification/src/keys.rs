use vstd::prelude::*;

verus! {

/// The path segment that marks raw fixed-width input, as ASCII bytes:
/// `fixed_width_raw/`.
pub open spec fn raw_segment() -> Seq<u8> {
    seq![102u8, 105, 120, 101, 100, 95, 119, 105, 100, 116, 104, 95, 114, 97, 119, 47]
}

/// The path segment that marks converted output, as ASCII bytes:
/// `tab_converted/`.
pub open spec fn converted_segment() -> Seq<u8> {
    seq![116u8, 97, 98, 95, 99, 111, 110, 118, 101, 114, 116, 101, 100, 47]
}

/// `s` with every occurrence of the raw segment replaced by the converted
/// one, scanning left to right without overlap.
pub open spec fn replace_segments(s: Seq<u8>) -> Seq<u8>
    decreases s.len(),
{
    if s.len() == 0 {
        s
    } else if s.len() >= 16 && s.subrange(0, 16) == raw_segment() {
        converted_segment() + replace_segments(s.skip(16))
    } else {
        seq![s[0]] + replace_segments(s.drop_first())
    }
}

/// The raw path segment, `fixed_width_raw/`, as a byte vector.
fn raw_segment_bytes() -> (v: Vec<u8>)
    ensures
        v@ == raw_segment(),
{
    let mut v: Vec<u8> = Vec::new();
    v.push(102);
    v.push(105);
    v.push(120);
    v.push(101);
    v.push(100);
    v.push(95);
    v.push(119);
    v.push(105);
    v.push(100);
    v.push(116);
    v.push(104);
    v.push(95);
    v.push(114);
    v.push(97);
    v.push(119);
    v.push(47);
    proof {
        assert(v@ =~= raw_segment());
    }
    v
}

/// The converted path segment, `tab_converted/`, as a byte vector.
fn converted_segment_bytes() -> (v: Vec<u8>)
    ensures
        v@ == converted_segment(),
{
    let mut v: Vec<u8> = Vec::new();
    v.push(116);
    v.push(97);
    v.push(98);
    v.push(95);
    v.push(99);
    v.push(111);
    v.push(110);
    v.push(118);
    v.push(101);
    v.push(114);
    v.push(116);
    v.push(101);
    v.push(100);
    v.push(47);
    proof {
        assert(v@ =~= converted_segment());
    }
    v
}

/// Whether `key[pos .. pos + pat.len()]` equals `pat`.
fn matches_at(key: &Vec<u8>, pos: usize, pat: &Vec<u8>) -> (r: bool)
    requires
        pos + pat@.len() <= key@.len(),
    ensures
        r == (key@.subrange(pos as int, pos as int + pat@.len() as int) == pat@),
{
    let mut k: usize = 0;
    proof {
        assert(key@.len() <= usize::MAX) by {
            assert(key.len() == key@.len());
        }
    }
    while k < pat.len()
        invariant
            pos + pat@.len() <= key@.len(),
            key@.len() <= usize::MAX,
            k <= pat@.len(),
            forall|j: int| 0 <= j < k ==> key@[pos + j] == pat@[j],
        decreases pat@.len() - k,
    {
        let kk: usize = pos + k;
        if key[kk] != pat[k] {
            proof {
                assert(key@.subrange(pos as int, pos as int + pat@.len() as int)[k as int]
                    != pat@[k as int]);
            }
            return false;
        }
        k = k + 1;
    }
    proof {
        assert(key@.subrange(pos as int, pos as int + pat@.len() as int) =~= pat@);
    }
    true
}

/// The output identifier for an input identifier: every occurrence of
/// `fixed_width_raw/` is replaced by `tab_converted/`; the rest of the key
/// is kept as it stands. Both segments are ASCII, so the rewrite reads the
/// same whether the key is taken as bytes or as text.
pub fn output_key(key: &Vec<u8>) -> (out: Vec<u8>)
    ensures
        out@ == replace_segments(key@),
{
    let pat = raw_segment_bytes();
    let mut out: Vec<u8> = Vec::new();
    let mut pos: usize = 0;
    proof {
        assert(key@.skip(0) =~= key@);
        assert(Seq::<u8>::empty() + replace_segments(key@) =~= replace_segments(key@));
    }
    while pos < key.len()
        invariant
            pos <= key@.len(),
            pat@ == raw_segment(),
            replace_segments(key@) == out@ + replace_segments(key@.skip(pos as int)),
        decreases key@.len() - pos,
    {
        let ghost prev = out@;
        let ghost s = key@.skip(pos as int);
        if key.len() - pos >= 16 && matches_at(key, pos, &pat) {
            let mut rep = converted_segment_bytes();
            out.append(&mut rep);
            proof {
                assert(s.subrange(0, 16) =~= key@.subrange(pos as int, pos as int + 16));
                assert(replace_segments(s) == converted_segment() + replace_segments(s.skip(16)));
                assert(s.skip(16) =~= key@.skip(pos as int + 16));
                assert(prev + (converted_segment() + replace_segments(key@.skip(pos as int + 16)))
                    =~= out@ + replace_segments(key@.skip(pos as int + 16)));
            }
            pos = pos + 16;
        } else {
            out.push(key[pos]);
            proof {
                if s.len() >= 16 {
                    assert(s.subrange(0, 16) =~= key@.subrange(pos as int, pos as int + 16));
                    assert(s.subrange(0, 16) != raw_segment());
                }
                assert(replace_segments(s) == seq![s[0]] + replace_segments(s.drop_first()));
                assert(s[0] == key@[pos as int]);
                assert(s.drop_first() =~= key@.skip(pos as int + 1));
                assert(prev + (seq![s[0]] + replace_segments(key@.skip(pos as int + 1))) =~= out@
                    + replace_segments(key@.skip(pos as int + 1)));
            }
            pos = pos + 1;
        }
    }
    proof {
        assert(key@.skip(pos as int) =~= Seq::<u8>::empty());
        assert(out@ + replace_segments(key@.skip(pos as int)) =~= out@);
    }
    out
}

} // verus!
