//! Line framing of the conversation files: one JSON record per line.
use vstd::prelude::*;

verus! {

/// `s` holds no line feed.
pub open spec fn no_newline(s: Seq<u8>) -> bool {
    forall|j: int| 0 <= j < s.len() ==> s[j] != 10u8
}

/// The length of the first line of `s`: the index of its first line feed, or
/// the length of `s` when it has none.
pub open spec fn line_len(s: Seq<u8>) -> nat
    decreases s.len(),
{
    if s.len() == 0 || s[0] == 10u8 {
        0
    } else {
        1 + line_len(s.drop_first())
    }
}

/// A line without the carriage return that may end it.
pub open spec fn strip_cr(line: Seq<u8>) -> Seq<u8> {
    if line.len() > 0 && line.last() == 13u8 {
        line.drop_last()
    } else {
        line
    }
}

/// The lines of `s` as `str::lines` yields them: `s` is cut at each line feed,
/// a carriage return just before a line feed is dropped, and a final line feed
/// does not start an empty last line.
pub open spec fn lines_of(s: Seq<u8>) -> Seq<Seq<u8>>
    decreases s.len(),
{
    if s.len() == 0 {
        seq![]
    } else {
        let k = line_len(s);
        if k >= s.len() {
            seq![s]
        } else {
            seq![strip_cr(s.take(k as int))] + lines_of(s.skip(k + 1int))
        }
    }
}

/// Each record followed by a line feed, in order.
pub open spec fn framed(records: Seq<Seq<u8>>) -> Seq<u8>
    decreases records.len(),
{
    if records.len() == 0 {
        seq![]
    } else {
        records[0] + seq![10u8] + framed(records.drop_first())
    }
}

/// A record that a line can carry back unchanged: no line feed in it, and no
/// carriage return at its end.
pub open spec fn is_line_record(r: Seq<u8>) -> bool {
    no_newline(r) && !(r.len() > 0 && r.last() == 13u8)
}

pub open spec fn all_line_records(records: Seq<Seq<u8>>) -> bool {
    forall|i: int| 0 <= i < records.len() ==> is_line_record(#[trigger] records[i])
}

/// A file that ends where a line ends: empty, or closed by a line feed.
pub open spec fn ends_at_line_boundary(s: Seq<u8>) -> bool {
    s.len() == 0 || s.last() == 10u8
}

pub open spec fn line_views(lines: Seq<Vec<u8>>) -> Seq<Seq<u8>> {
    lines.map_values(|l: Vec<u8>| l@)
}

proof fn lemma_line_len(s: Seq<u8>)
    ensures
        line_len(s) <= s.len(),
        no_newline(s.take(line_len(s) as int)),
        line_len(s) < s.len() ==> s[line_len(s) as int] == 10u8,
    decreases s.len(),
{
    if s.len() == 0 || s[0] == 10u8 {
    } else {
        lemma_line_len(s.drop_first());
        assert forall|j: int| 0 <= j < line_len(s) implies s.take(line_len(s) as int)[j] != 10u8 by {
            if j > 0 {
                assert(s.drop_first().take(line_len(s.drop_first()) as int)[j - 1] == s[j]);
            }
        }
    }
}

proof fn lemma_line_len_at(s: Seq<u8>, k: int)
    requires
        0 <= k <= s.len(),
        k < s.len() ==> s[k] == 10u8,
        no_newline(s.take(k)),
    ensures
        line_len(s) == k,
    decreases s.len(),
{
    if s.len() == 0 {
    } else if k == 0 {
    } else {
        assert(s.take(k)[0] == s[0]);
        assert(no_newline(s.drop_first().take(k - 1))) by {
            assert forall|j: int| 0 <= j < k - 1 implies #[trigger] s.drop_first().take(k - 1)[j] != 10u8 by {
                assert(s.take(k)[j + 1] == s[j + 1]);
            }
        }
        lemma_line_len_at(s.drop_first(), k - 1);
    }
}

/// Cutting at the first line feed: the first line, then the lines after it.
proof fn lemma_lines_split(s: Seq<u8>, k: int)
    requires
        0 <= k < s.len(),
        s[k] == 10u8,
        no_newline(s.take(k)),
    ensures
        lines_of(s) == seq![strip_cr(s.take(k))] + lines_of(s.skip(k + 1)),
{
    lemma_line_len_at(s, k);
}

/// A line-feed-free tail is one last line, or nothing when empty.
proof fn lemma_lines_last(s: Seq<u8>)
    requires
        no_newline(s),
    ensures
        s.len() == 0 ==> lines_of(s) == Seq::<Seq<u8>>::empty(),
        s.len() > 0 ==> lines_of(s) == seq![s],
{
    if s.len() > 0 {
        assert(s.take(s.len() as int) =~= s);
        lemma_line_len_at(s, s.len() as int);
    }
}

/// The lines of a file that ends at a line boundary, followed by more, are the
/// lines of each part in turn.
pub proof fn lemma_lines_of_concat(a: Seq<u8>, b: Seq<u8>)
    requires
        ends_at_line_boundary(a),
    ensures
        lines_of(a + b) == lines_of(a) + lines_of(b),
    decreases a.len(),
{
    if a.len() == 0 {
        assert(a + b =~= b);
        assert(lines_of(a) + lines_of(b) =~= lines_of(b));
    } else {
        lemma_line_len(a);
        let k = line_len(a) as int;
        if k == a.len() {
            assert(a.take(k)[a.len() - 1] == a.last());
        }
        assert(k < a.len());
        assert((a + b).take(k) =~= a.take(k));
        assert((a + b)[k] == 10u8);
        lemma_lines_split(a + b, k);
        lemma_lines_split(a, k);
        assert((a + b).skip(k + 1) =~= a.skip(k + 1) + b);
        let rest = a.skip(k + 1);
        if rest.len() > 0 {
            assert(rest.last() == a.last());
        }
        lemma_lines_of_concat(rest, b);
        assert(lines_of(a + b) =~= lines_of(a) + lines_of(b));
    }
}

/// Framed records are read back as exactly those records.
pub proof fn lemma_lines_of_framed(records: Seq<Seq<u8>>)
    requires
        all_line_records(records),
    ensures
        lines_of(framed(records)) == records,
        ends_at_line_boundary(framed(records)),
    decreases records.len(),
{
    if records.len() == 0 {
        assert(lines_of(framed(records)) =~= records);
    } else {
        let r = records[0];
        let rest = records.drop_first();
        assert(all_line_records(rest)) by {
            assert forall|i: int| 0 <= i < rest.len() implies is_line_record(#[trigger] rest[i]) by {
                assert(rest[i] == records[i + 1]);
            }
        }
        assert(is_line_record(records[0]));
        lemma_lines_of_framed(rest);
        let s = framed(records);
        assert(s =~= r + seq![10u8] + framed(rest));
        let k = r.len() as int;
        assert(s.take(k) =~= r);
        assert(s[k] == 10u8);
        lemma_lines_split(s, k);
        assert(s.skip(k + 1) =~= framed(rest));
        assert(strip_cr(r) == r);
        assert(lines_of(s) =~= records);
        if framed(rest).len() > 0 {
            assert(s.last() == framed(rest).last());
        }
    }
}

proof fn lemma_framed_push(records: Seq<Seq<u8>>, r: Seq<u8>)
    ensures
        framed(records.push(r)) == framed(records) + r + seq![10u8],
    decreases records.len(),
{
    if records.len() == 0 {
        assert(records.push(r).drop_first() =~= Seq::<Seq<u8>>::empty());
        assert(records.push(r)[0] == r);
        assert(framed(records.push(r).drop_first()) =~= Seq::<u8>::empty());
        assert(framed(records) =~= Seq::<u8>::empty());
        assert(framed(records.push(r)) =~= framed(records) + r + seq![10u8]);
    } else {
        assert(records.push(r).drop_first() =~= records.drop_first().push(r));
        assert(records.push(r)[0] == records[0]);
        lemma_framed_push(records.drop_first(), r);
        assert(framed(records.push(r)) == records[0] + seq![10u8] + framed(records.drop_first().push(r)));
        assert(framed(records.push(r)) =~= framed(records) + r + seq![10u8]);
    }
}

fn copy_range(content: &[u8], from: usize, to: usize) -> (r: Vec<u8>)
    requires
        from <= to <= content@.len(),
    ensures
        r@ == content@.subrange(from as int, to as int),
{
    let mut r: Vec<u8> = Vec::new();
    let mut i = from;
    while i < to
        invariant
            from <= i <= to <= content@.len(),
            r@ == content@.subrange(from as int, i as int),
        decreases to - i,
    {
        r.push(content[i]);
        proof {
            assert(r@ =~= content@.subrange(from as int, i + 1));
        }
        i += 1;
    }
    r
}

/// The records of a conversation file, one per line, as `str::lines` cuts it.
pub fn split_records(content: &[u8]) -> (lines: Vec<Vec<u8>>)
    ensures
        line_views(lines@) == lines_of(content@),
{
    let n = content.len();
    let mut lines: Vec<Vec<u8>> = Vec::new();
    let mut start: usize = 0;
    let mut i: usize = 0;
    proof {
        assert(content@.skip(0) =~= content@);
        assert(line_views(lines@) =~= Seq::<Seq<u8>>::empty());
        assert(line_views(lines@) + lines_of(content@) =~= lines_of(content@));
        assert(content@.subrange(0, 0) =~= Seq::<u8>::empty());
    }
    while i < n
        invariant
            n == content@.len(),
            start <= i <= n,
            no_newline(content@.subrange(start as int, i as int)),
            line_views(lines@) + lines_of(content@.skip(start as int)) == lines_of(content@),
        decreases n - i,
    {
        if content[i] == 10u8 {
            let mut end = i;
            if end > start && content[end - 1] == 13u8 {
                end = end - 1;
            }
            let line = copy_range(content, start, end);
            proof {
                let t = content@.skip(start as int);
                let k = (i - start) as int;
                assert(t.take(k) =~= content@.subrange(start as int, i as int));
                assert(t[k] == 10u8);
                lemma_lines_split(t, k);
                assert(t.skip(k + 1) =~= content@.skip(i + 1));
                assert(line@ =~= strip_cr(t.take(k)));
                assert(line_views(lines@.push(line)) =~= line_views(lines@).push(line@));
                assert(line_views(lines@).push(line@) + lines_of(content@.skip(i + 1)) =~= line_views(
                    lines@,
                ) + lines_of(t));
            }
            lines.push(line);
            start = i + 1;
        }
        proof {
            assert(no_newline(content@.subrange(start as int, i + 1)));
        }
        i += 1;
    }
    proof {
        assert(content@.skip(start as int) =~= content@.subrange(start as int, n as int));
        lemma_lines_last(content@.skip(start as int));
    }
    if start < n {
        let line = copy_range(content, start, n);
        proof {
            assert(line_views(lines@.push(line)) =~= line_views(lines@).push(line@));
            assert(line_views(lines@).push(line@) =~= line_views(lines@) + lines_of(
                content@.skip(start as int),
            ));
        }
        lines.push(line);
    } else {
        proof {
            assert(line_views(lines@) =~= line_views(lines@) + lines_of(content@.skip(start as int)));
        }
    }
    lines
}

/// The number of records in a conversation file.
pub fn count_records(content: &[u8]) -> (n: usize)
    ensures
        n == lines_of(content@).len(),
{
    let lines = split_records(content);
    lines.len()
}

/// `existing` followed by each record and a line feed.
pub fn append_records(existing: Vec<u8>, records: &Vec<Vec<u8>>) -> (out: Vec<u8>)
    ensures
        out@ == existing@ + framed(line_views(records@)),
{
    let mut out = existing;
    let mut i: usize = 0;
    while i < records.len()
        invariant
            i <= records@.len(),
            out@ == existing@ + framed(line_views(records@.take(i as int))),
        decreases records@.len() - i,
    {
        let r = &records[i];
        let mut j: usize = 0;
        let ghost before = out@;
        while j < r.len()
            invariant
                j <= r@.len(),
                out@ == before + r@.take(j as int),
            decreases r@.len() - j,
        {
            out.push(r[j]);
            proof {
                assert(out@ =~= before + r@.take(j + 1));
            }
            j += 1;
        }
        out.push(10u8);
        proof {
            assert(records@.take(i + 1) =~= records@.take(i as int).push(*r));
            assert(line_views(records@.take(i + 1)) =~= line_views(records@.take(i as int)).push(r@));
            lemma_framed_push(line_views(records@.take(i as int)), r@);
            assert(r@.take(r@.len() as int) =~= r@);
            assert(out@ =~= existing@ + framed(line_views(records@.take(i + 1))));
        }
        i += 1;
    }
    proof {
        assert(records@.take(records@.len() as int) =~= records@);
    }
    out
}

/// Each record followed by a line feed: the whole content of a rewritten file.
pub fn frame_records(records: &Vec<Vec<u8>>) -> (out: Vec<u8>)
    ensures
        out@ == framed(line_views(records@)),
{
    let out = append_records(Vec::new(), records);
    proof {
        assert(out@ =~= framed(line_views(records@)));
    }
    out
}

/// What a rewritten file reads back as: the records written, in order.
pub proof fn lemma_load_after_replace(records: Seq<Seq<u8>>)
    requires
        all_line_records(records),
    ensures
        lines_of(framed(records)) == records,
{
    lemma_lines_of_framed(records);
}

/// What a file reads back as after an append: its former records, then the
/// appended ones; and it still ends at a line boundary.
pub proof fn lemma_load_after_append(existing: Seq<u8>, records: Seq<Seq<u8>>)
    requires
        ends_at_line_boundary(existing),
        all_line_records(records),
    ensures
        lines_of(existing + framed(records)) == lines_of(existing) + records,
        ends_at_line_boundary(existing + framed(records)),
{
    lemma_lines_of_framed(records);
    lemma_lines_of_concat(existing, framed(records));
    if framed(records).len() > 0 {
        assert((existing + framed(records)).last() == framed(records).last());
    } else {
        assert(existing + framed(records) =~= existing);
    }
}

/// A missing or emptied file holds no records.
pub proof fn lemma_empty_file_has_no_records()
    ensures
        lines_of(Seq::<u8>::empty()) == Seq::<Seq<u8>>::empty(),
        framed(Seq::<Seq<u8>>::empty()) == Seq::<u8>::empty(),
{
}

/// A line ends at a line feed, or at a carriage return and line feed, which
/// are not part of it; a last line without a line feed is kept as it is.
pub proof fn lemma_line_endings(line: Seq<u8>, rest: Seq<u8>)
    requires
        no_newline(line),
    ensures
        !(line.len() > 0 && line.last() == 13u8) ==> lines_of(line + seq![10u8] + rest) == seq![line]
            + lines_of(rest),
        lines_of(line + seq![13u8, 10u8] + rest) == seq![line] + lines_of(rest),
        line.len() > 0 ==> lines_of(line) == seq![line],
{
    let a = line + seq![10u8] + rest;
    let k = line.len() as int;
    assert(a.take(k) =~= line);
    assert(a[k] == 10u8);
    lemma_lines_split(a, k);
    assert(a.skip(k + 1) =~= rest);
    let b = line + seq![13u8, 10u8] + rest;
    let k2 = k + 1;
    let l2 = line + seq![13u8];
    assert(b.take(k2) =~= l2);
    assert(no_newline(l2));
    assert(b[k2] == 10u8);
    lemma_lines_split(b, k2);
    assert(b.skip(k2 + 1) =~= rest);
    assert(strip_cr(l2) =~= line);
    lemma_lines_last(line);
}

} // verus!
