use vstd::prelude::*;

verus! {

/// Line feed byte.
pub const NL: u8 = 10;

/// Carriage return byte.
pub const CR: u8 = 13;

/// Tab byte.
pub const TAB: u8 = 9;

/// ASCII whitespace: space, tab, line feed, form feed, carriage return.
pub open spec fn is_ascii_ws(b: u8) -> bool {
    b == 32 || b == 9 || b == 10 || b == 12 || b == 13
}

/// `s` with leading and trailing ASCII whitespace removed.
pub open spec fn trim_spec(s: Seq<u8>) -> Seq<u8>
    decreases s.len(),
{
    if s.len() == 0 {
        s
    } else if is_ascii_ws(s[0]) {
        trim_spec(s.drop_first())
    } else if is_ascii_ws(s.last()) {
        trim_spec(s.drop_last())
    } else {
        s
    }
}

/// Start of the window that trimming keeps.
pub open spec fn trim_lo(s: Seq<u8>) -> int
    decreases s.len(),
{
    if s.len() == 0 {
        0
    } else if is_ascii_ws(s[0]) {
        1 + trim_lo(s.drop_first())
    } else if is_ascii_ws(s.last()) {
        trim_lo(s.drop_last())
    } else {
        0
    }
}

/// End of the window that trimming keeps.
pub open spec fn trim_hi(s: Seq<u8>) -> int
    decreases s.len(),
{
    if s.len() == 0 {
        0
    } else if is_ascii_ws(s[0]) {
        1 + trim_hi(s.drop_first())
    } else if is_ascii_ws(s.last()) {
        trim_hi(s.drop_last())
    } else {
        s.len() as int
    }
}

/// Trimming removes exactly a whitespace prefix and a whitespace suffix:
/// `trim_spec(s)` is the subrange `s[trim_lo(s) .. trim_hi(s)]`, every byte
/// outside that window is ASCII whitespace, and the window's endpoints are
/// not whitespace.
pub proof fn lemma_trim_bounds(s: Seq<u8>)
    ensures
        0 <= trim_lo(s) <= trim_hi(s) <= s.len(),
        trim_spec(s) == s.subrange(trim_lo(s), trim_hi(s)),
        forall|j: int| 0 <= j < trim_lo(s) ==> is_ascii_ws(s[j]),
        forall|j: int| trim_hi(s) <= j < s.len() ==> is_ascii_ws(s[j]),
        trim_spec(s).len() > 0 ==> !is_ascii_ws(trim_spec(s)[0]) && !is_ascii_ws(
            trim_spec(s).last(),
        ),
    decreases s.len(),
{
    if s.len() == 0 {
        assert(trim_spec(s) =~= s.subrange(0, 0));
    } else if is_ascii_ws(s[0]) {
        lemma_trim_bounds(s.drop_first());
        assert(s.drop_first().subrange(trim_lo(s.drop_first()), trim_hi(s.drop_first())) =~= s
            .subrange(trim_lo(s), trim_hi(s)));
        assert forall|j: int| 0 <= j < trim_lo(s) implies is_ascii_ws(s[j]) by {
            if j > 0 {
                assert(is_ascii_ws(s.drop_first()[j - 1]));
            }
        }
        assert forall|j: int| trim_hi(s) <= j < s.len() implies is_ascii_ws(s[j]) by {
            assert(is_ascii_ws(s.drop_first()[j - 1]));
        }
    } else if is_ascii_ws(s.last()) {
        lemma_trim_bounds(s.drop_last());
        assert(s.drop_last().subrange(trim_lo(s), trim_hi(s)) =~= s.subrange(
            trim_lo(s),
            trim_hi(s),
        ));
        assert forall|j: int| trim_hi(s) <= j < s.len() implies is_ascii_ws(s[j]) by {
            if j < s.len() - 1 {
                assert(is_ascii_ws(s.drop_last()[j]));
            }
        }
    } else {
        assert(s.subrange(0, s.len() as int) =~= s);
    }
}

/// The trimmed form of `s` is the subrange `s[lo..hi]` whenever every byte
/// outside `lo..hi` is whitespace and the bytes just inside are not.
pub proof fn lemma_trim_range(s: Seq<u8>, lo: int, hi: int)
    requires
        0 <= lo <= hi <= s.len(),
        forall|j: int| 0 <= j < lo ==> is_ascii_ws(s[j]),
        forall|j: int| hi <= j < s.len() ==> is_ascii_ws(s[j]),
        lo < hi ==> !is_ascii_ws(s[lo]) && !is_ascii_ws(s[hi - 1]),
    ensures
        trim_spec(s) == s.subrange(lo, hi),
    decreases s.len(),
{
    if s.len() == 0 {
        assert(s.subrange(lo, hi) =~= s);
    } else if lo == hi {
        assert(is_ascii_ws(s[0]));
        let lo1 = if lo > 0 {
            lo - 1
        } else {
            0
        };
        assert forall|j: int| 0 <= j < lo1 implies is_ascii_ws(s.drop_first()[j]) by {
            assert(is_ascii_ws(s[j + 1]));
        }
        assert forall|j: int| lo1 <= j < s.len() - 1 implies is_ascii_ws(s.drop_first()[j]) by {
            assert(is_ascii_ws(s[j + 1]));
        }
        lemma_trim_range(s.drop_first(), lo1, lo1);
        assert(s.drop_first().subrange(lo1, lo1) =~= s.subrange(lo, hi));
    } else if lo > 0 {
        assert(is_ascii_ws(s[0]));
        assert forall|j: int| 0 <= j < lo - 1 implies is_ascii_ws(s.drop_first()[j]) by {
            assert(is_ascii_ws(s[j + 1]));
        }
        assert forall|j: int| hi - 1 <= j < s.len() - 1 implies is_ascii_ws(s.drop_first()[j]) by {
            assert(is_ascii_ws(s[j + 1]));
        }
        lemma_trim_range(s.drop_first(), lo - 1, hi - 1);
        assert(s.drop_first().subrange(lo - 1, hi - 1) =~= s.subrange(lo, hi));
    } else if hi < s.len() {
        assert(is_ascii_ws(s.last()));
        assert forall|j: int| hi <= j < s.len() - 1 implies is_ascii_ws(s.drop_last()[j]) by {
            assert(is_ascii_ws(s[j]));
        }
        lemma_trim_range(s.drop_last(), lo, hi);
        assert(s.drop_last().subrange(lo, hi) =~= s.subrange(lo, hi));
    } else {
        assert(!is_ascii_ws(s[0]));
        assert(!is_ascii_ws(s.last()));
        assert(s.subrange(0, s.len() as int) =~= s);
    }
}

/// Whether `b` is ASCII whitespace.
pub fn is_ws_byte(b: u8) -> (r: bool)
    ensures
        r == is_ascii_ws(b),
{
    b == 32 || b == 9 || b == 10 || b == 12 || b == 13
}

/// Copies `line[from..to]` with leading and trailing ASCII whitespace
/// removed.
pub fn trimmed_field(line: &Vec<u8>, from: usize, to: usize) -> (v: Vec<u8>)
    requires
        from <= to <= line@.len(),
    ensures
        v@ == trim_spec(line@.subrange(from as int, to as int)),
{
    let mut lo: usize = from;
    while lo < to && is_ws_byte(line[lo])
        invariant
            from <= lo <= to,
            to <= line@.len(),
            forall|j: int| from <= j < lo ==> is_ascii_ws(line@[j]),
        decreases to - lo,
    {
        lo = lo + 1;
    }
    let mut hi: usize = to;
    while hi > lo && is_ws_byte(line[hi - 1])
        invariant
            lo <= hi <= to,
            to <= line@.len(),
            forall|j: int| hi <= j < to ==> is_ascii_ws(line@[j]),
        decreases hi,
    {
        hi = hi - 1;
    }
    let mut v: Vec<u8> = Vec::new();
    let mut k: usize = lo;
    proof {
        assert(v@ =~= line@.subrange(lo as int, lo as int));
    }
    while k < hi
        invariant
            lo <= k <= hi,
            hi <= line@.len(),
            v@ == line@.subrange(lo as int, k as int),
        decreases hi - k,
    {
        v.push(line[k]);
        k = k + 1;
        proof {
            assert(v@ =~= line@.subrange(lo as int, k as int));
        }
    }
    proof {
        let s = line@.subrange(from as int, to as int);
        assert forall|j: int| 0 <= j < lo - from implies is_ascii_ws(s[j]) by {
            assert(is_ascii_ws(line@[from + j]));
        }
        assert forall|j: int| hi - from <= j < s.len() implies is_ascii_ws(s[j]) by {
            assert(is_ascii_ws(line@[from + j]));
        }
        lemma_trim_range(s, lo - from, hi - from);
        assert(s.subrange(lo - from, hi - from) =~= line@.subrange(lo as int, hi as int));
    }
    v
}

/// Index of the first line feed in `s`, or `s.len()` if there is none.
pub open spec fn first_nl(s: Seq<u8>) -> nat
    decreases s.len(),
{
    if s.len() == 0 {
        0
    } else if s[0] == NL {
        0
    } else {
        (1 + first_nl(s.drop_first())) as nat
    }
}

/// What `first_nl` returns: the position of the first line feed.
pub proof fn lemma_first_nl(s: Seq<u8>)
    ensures
        first_nl(s) <= s.len(),
        first_nl(s) < s.len() ==> s[first_nl(s) as int] == NL,
        forall|j: int| 0 <= j < first_nl(s) ==> s[j] != NL,
    decreases s.len(),
{
    if s.len() > 0 && s[0] != NL {
        lemma_first_nl(s.drop_first());
        assert forall|j: int| 0 <= j < first_nl(s) implies s[j] != NL by {
            if j > 0 {
                assert(s.drop_first()[j - 1] != NL);
            }
        }
        if first_nl(s) < s.len() {
            assert(s.drop_first()[first_nl(s) - 1] == NL);
        }
    }
}

/// `first_nl` is determined by its characterization: if nothing before `m`
/// is a line feed and `m` (when in range) is one, then `first_nl(s) == m`.
pub proof fn lemma_first_nl_is(s: Seq<u8>, m: int)
    requires
        0 <= m <= s.len(),
        forall|j: int| 0 <= j < m ==> s[j] != NL,
        m < s.len() ==> s[m] == NL,
    ensures
        first_nl(s) == m,
    decreases s.len(),
{
    if s.len() == 0 {
    } else if s[0] == NL {
        assert(m == 0);
    } else {
        assert(m >= 1);
        assert forall|j: int| 0 <= j < m - 1 implies s.drop_first()[j] != NL by {
            assert(s[j + 1] != NL);
        }
        lemma_first_nl_is(s.drop_first(), m - 1);
    }
}

/// Drops one trailing carriage return, if present.
pub open spec fn chomp_cr(s: Seq<u8>) -> Seq<u8> {
    if s.len() > 0 && s.last() == CR {
        s.drop_last()
    } else {
        s
    }
}

/// The lines of `data`, split on line feeds. A line feed ends a line and is
/// not part of it; a carriage return just before a line feed is dropped as
/// well; a final line without a terminating line feed is kept as it stands.
pub open spec fn lines_of(data: Seq<u8>) -> Seq<Seq<u8>>
    decreases data.len(),
{
    if data.len() == 0 {
        Seq::empty()
    } else {
        let i = first_nl(data) as int;
        if i >= data.len() {
            seq![data]
        } else {
            seq![chomp_cr(data.subrange(0, i))] + lines_of(
                data.subrange(i + 1, data.len() as int),
            )
        }
    }
}

/// How `lines_of` consumes one line: if the bytes `pos..j` hold no line feed
/// and `j` is either a line feed or the end of the data, the lines from `pos`
/// on are that one line followed by the lines from past the line feed.
pub proof fn lemma_lines_step(data: Seq<u8>, pos: int, j: int)
    requires
        0 <= pos <= j <= data.len(),
        pos < data.len(),
        forall|k: int| pos <= k < j ==> data[k] != NL,
        j < data.len() ==> data[j] == NL,
    ensures
        j < data.len() ==> lines_of(data.skip(pos)) == seq![chomp_cr(data.subrange(pos, j))]
            + lines_of(data.skip(j + 1)),
        j == data.len() ==> lines_of(data.skip(pos)) == seq![data.subrange(pos, j)],
{
    let s = data.skip(pos);
    assert forall|k: int| 0 <= k < j - pos implies s[k] != NL by {
        assert(data[pos + k] != NL);
    }
    lemma_first_nl_is(s, j - pos);
    if j < data.len() {
        assert(s.subrange(0, j - pos) =~= data.subrange(pos, j));
        assert(s.subrange(j - pos + 1, s.len() as int) =~= data.skip(j + 1));
    } else {
        assert(s =~= data.subrange(pos, j));
    }
}

/// No line produced by `lines_of` contains a line feed.
pub proof fn lemma_lines_no_nl(data: Seq<u8>)
    ensures
        forall|i: int, k: int|
            0 <= i < lines_of(data).len() && 0 <= k < lines_of(data)[i].len() ==> lines_of(
                data,
            )[i][k] != NL,
    decreases data.len(),
{
    lemma_first_nl(data);
    if data.len() == 0 {
    } else {
        let i0 = first_nl(data) as int;
        if i0 >= data.len() {
            assert forall|i: int, k: int|
                0 <= i < lines_of(data).len() && 0 <= k < lines_of(data)[i].len() implies lines_of(
                data,
            )[i][k] != NL by {
                assert(lines_of(data)[i] == data);
                assert(data[k] != NL);
            }
        } else {
            let head = chomp_cr(data.subrange(0, i0));
            let tail = data.subrange(i0 + 1, data.len() as int);
            lemma_lines_no_nl(tail);
            assert forall|i: int, k: int|
                0 <= i < lines_of(data).len() && 0 <= k < lines_of(data)[i].len() implies lines_of(
                data,
            )[i][k] != NL by {
                if i == 0 {
                    assert(lines_of(data)[0] == head);
                    assert(head[k] == data.subrange(0, i0)[k]);
                    assert(data[k] != NL);
                } else {
                    assert(lines_of(data)[i] == lines_of(tail)[i - 1]);
                }
            }
        }
    }
}

/// `s` holds no line feed.
pub open spec fn no_nl(s: Seq<u8>) -> bool {
    forall|k: int| 0 <= k < s.len() ==> s[k] != NL
}

/// Concatenation keeps freedom from line feeds.
pub proof fn lemma_concat_no_nl(a: Seq<u8>, b: Seq<u8>)
    requires
        no_nl(a),
        no_nl(b),
    ensures
        no_nl(a + b),
{
    assert forall|k: int| 0 <= k < (a + b).len() implies (a + b)[k] != NL by {
        if k < a.len() {
            assert((a + b)[k] == a[k]);
        } else {
            assert((a + b)[k] == b[k - a.len()]);
        }
    }
}

/// Splitting distributes over concatenation when the first part is empty or
/// ends with a line feed.
pub proof fn lemma_lines_of_concat(x: Seq<u8>, y: Seq<u8>)
    requires
        x.len() == 0 || x.last() == NL,
    ensures
        lines_of(x + y) == lines_of(x) + lines_of(y),
    decreases x.len(),
{
    if x.len() == 0 {
        assert(x + y =~= y);
        assert(lines_of(x) + lines_of(y) =~= lines_of(y));
    } else {
        lemma_first_nl(x);
        let i = first_nl(x) as int;
        assert(i < x.len()) by {
            if i >= x.len() {
                assert(x[x.len() - 1] != NL);
            }
        }
        assert forall|j: int| 0 <= j < i implies (x + y)[j] != NL by {
            assert((x + y)[j] == x[j]);
        }
        assert((x + y)[i] == x[i]);
        lemma_first_nl_is(x + y, i);
        assert((x + y).subrange(0, i) =~= x.subrange(0, i));
        let xtail = x.subrange(i + 1, x.len() as int);
        assert((x + y).subrange(i + 1, (x + y).len() as int) =~= xtail + y);
        if xtail.len() > 0 {
            assert(xtail.last() == x.last());
        }
        lemma_lines_of_concat(xtail, y);
        assert(lines_of(x + y) == seq![chomp_cr((x + y).subrange(0, i))] + lines_of(xtail + y));
        assert(lines_of(x) == seq![chomp_cr(x.subrange(0, i))] + lines_of(xtail));
        assert(seq![chomp_cr(x.subrange(0, i))] + (lines_of(xtail) + lines_of(y)) =~= (seq![
            chomp_cr(x.subrange(0, i)),
        ] + lines_of(xtail)) + lines_of(y));
    }
}

/// A body with no line feed, terminated by one line feed, splits into
/// exactly that one line.
pub proof fn lemma_lines_single(body: Seq<u8>)
    requires
        no_nl(body),
        body.len() == 0 || body.last() != CR,
    ensures
        lines_of(body + seq![NL]) == seq![body],
{
    let s = body + seq![NL];
    assert forall|j: int| 0 <= j < body.len() implies s[j] != NL by {
        assert(s[j] == body[j]);
    }
    assert(s[body.len() as int] == NL);
    lemma_first_nl_is(s, body.len() as int);
    assert(s.len() == body.len() + 1);
    assert(lines_of(s) == seq![chomp_cr(s.subrange(0, body.len() as int))] + lines_of(
        s.subrange(body.len() as int + 1, s.len() as int),
    ));
    assert(s.subrange(0, body.len() as int) =~= body);
    assert(chomp_cr(body) == body);
    assert(s.subrange(body.len() as int + 1, s.len() as int) =~= Seq::<u8>::empty());
    assert(seq![body] + Seq::<Seq<u8>>::empty() =~= seq![body]);
}

/// The views of a sequence of byte vectors.
pub open spec fn seq_views(lines: Seq<Vec<u8>>) -> Seq<Seq<u8>> {
    lines.map_values(|l: Vec<u8>| l@)
}

/// Splits `data` into its lines, exactly as `lines_of` describes.
pub fn split_lines(data: &Vec<u8>) -> (lines: Vec<Vec<u8>>)
    ensures
        seq_views(lines@) == lines_of(data@),
{
    let mut lines: Vec<Vec<u8>> = Vec::new();
    let mut pos: usize = 0;
    proof {
        assert(data@.skip(0) =~= data@);
        assert(seq_views(lines@) + lines_of(data@) =~= lines_of(data@));
    }
    while pos < data.len()
        invariant
            pos <= data@.len(),
            lines_of(data@) == seq_views(lines@) + lines_of(data@.skip(pos as int)),
        decreases data@.len() - pos,
    {
        let ghost prev_lines = lines@;
        let ghost old_pos = pos as int;
        let mut j: usize = pos;
        while j < data.len() && data[j] != NL
            invariant
                pos <= j <= data@.len(),
                forall|k: int| pos <= k < j ==> data@[k] != NL,
            decreases data@.len() - j,
        {
            j = j + 1;
        }
        let mut end: usize = j;
        if j < data.len() && end > pos && data[end - 1] == CR {
            end = end - 1;
        }
        let mut line: Vec<u8> = Vec::new();
        let mut k: usize = pos;
        proof {
            assert(line@ =~= data@.subrange(pos as int, pos as int));
        }
        while k < end
            invariant
                pos <= k <= end,
                end <= data@.len(),
                line@ == data@.subrange(pos as int, k as int),
            decreases end - k,
        {
            line.push(data[k]);
            k = k + 1;
            proof {
                assert(line@ =~= data@.subrange(pos as int, k as int));
            }
        }
        proof {
            lemma_lines_step(data@, pos as int, j as int);
            let raw = data@.subrange(pos as int, j as int);
            if (j as int) < data@.len() {
                if j > pos && data@[j - 1] == CR {
                    assert(raw.last() == CR);
                    assert(line@ =~= raw.drop_last());
                } else {
                    assert(line@ =~= raw);
                }
                assert(line@ == chomp_cr(raw));
            }
        }
        lines.push(line);
        if j < data.len() {
            pos = j + 1;
        } else {
            pos = j;
        }
        proof {
            assert(seq_views(lines@) =~= seq_views(prev_lines).push(line@));
            assert(lines_of(data@.skip(old_pos)) == seq![line@] + lines_of(
                data@.skip(pos as int),
            )) by {
                if (j as int) == data@.len() {
                    assert(lines_of(data@.skip(pos as int)) == Seq::<Seq<u8>>::empty()) by {
                        assert(data@.skip(pos as int) =~= Seq::<u8>::empty());
                    }
                    assert(seq![line@] + Seq::<Seq<u8>>::empty() =~= seq![line@]);
                }
            }
            assert(lines_of(data@) =~= seq_views(lines@) + lines_of(data@.skip(pos as int))) by {
                assert(seq_views(prev_lines) + (seq![line@] + lines_of(data@.skip(pos as int)))
                    =~= seq_views(prev_lines).push(line@) + lines_of(data@.skip(pos as int)));
            }
        }
    }
    proof {
        assert(data@.skip(pos as int) =~= Seq::<u8>::empty());
        assert(seq_views(lines@) + lines_of(data@.skip(pos as int)) =~= seq_views(lines@));
    }
    lines
}

} // verus!
