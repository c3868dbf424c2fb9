//! Log pagination: the non-blank lines of a byte log, newest first.
//!
//! A log is a sequence of bytes; its lines are separated by newline
//! bytes, each line is stripped of trailing ASCII whitespace, and blank
//! lines are dropped. Pagination returns the requested window of lines
//! in newest-first order together with the total number of non-blank
//! lines. A small log is read in one pass; a large one in fixed-size
//! chunks from the end, without dropping a line that spans a chunk
//! boundary.

use vstd::prelude::*;

verus! {

/// ASCII whitespace, as stripped from line ends.
pub open spec fn is_ws_byte(b: u8) -> bool {
    b == 9 || b == 10 || b == 11 || b == 12 || b == 13 || b == 32
}

/// A line with its trailing whitespace removed.
pub open spec fn trim_end_ws(s: Seq<u8>) -> Seq<u8>
    decreases s.len(),
{
    if s.len() == 0 {
        s
    } else if is_ws_byte(s.last()) {
        trim_end_ws(s.drop_last())
    } else {
        s
    }
}

/// Appends a finished line to the accumulator unless it is blank.
pub open spec fn flush_line(cur: Seq<u8>, acc: Seq<Seq<u8>>) -> Seq<Seq<u8>> {
    if trim_end_ws(cur).len() > 0 {
        acc.push(trim_end_ws(cur))
    } else {
        acc
    }
}

/// Walks the bytes left to right, splitting at newlines, trimming and
/// dropping blank lines; `cur` is the line under construction and `acc`
/// the lines finished so far.
pub open spec fn lines_acc(s: Seq<u8>, cur: Seq<u8>, acc: Seq<Seq<u8>>) -> Seq<Seq<u8>>
    decreases s.len(),
{
    if s.len() == 0 {
        flush_line(cur, acc)
    } else if s[0] == 10 {
        lines_acc(s.drop_first(), Seq::empty(), flush_line(cur, acc))
    } else {
        lines_acc(s.drop_first(), cur.push(s[0]), acc)
    }
}

/// The non-blank lines of a byte log, oldest first.
pub open spec fn nonblank_lines(s: Seq<u8>) -> Seq<Seq<u8>> {
    lines_acc(s, Seq::empty(), Seq::empty())
}

/// The window a page shows, newest first: skip `(page - 1) * page_size`
/// of the newest lines, then take up to `page_size`.
pub open spec fn page_of_lines(all: Seq<Seq<u8>>, page: int, page_size: int) -> Seq<Seq<u8>> {
    let total = all.len() as int;
    let skip = (page - 1) * page_size;
    if skip >= total {
        Seq::empty()
    } else {
        let count = if total - skip < page_size {
            total - skip
        } else {
            page_size
        };
        Seq::new(count as nat, |k: int| all[total - skip - 1 - k])
    }
}

/// Removes trailing ASCII whitespace from a line.
fn trim_line(line: Vec<u8>) -> (r: Vec<u8>)
    ensures
        r@ == trim_end_ws(line@),
{
    let mut v = line;
    loop
        invariant
            trim_end_ws(v@) == trim_end_ws(line@),
        ensures
            v@ == trim_end_ws(line@),
        decreases v@.len(),
    {
        if v.len() == 0 {
            break;
        }
        let b = v[v.len() - 1];
        if b == 9 || b == 10 || b == 11 || b == 12 || b == 13 || b == 32 {
            proof {
                assert(v@.drop_last() =~= v@.subrange(0, v@.len() - 1));
            }
            v.pop();
        } else {
            break;
        }
    }
    v
}

/// Collects the non-blank lines of the whole log, oldest first.
fn collect_nonblank_lines(content: &[u8]) -> (lines: Vec<Vec<u8>>)
    ensures
        lines.deep_view() == nonblank_lines(content@),
{
    let mut acc: Vec<Vec<u8>> = Vec::new();
    let mut cur: Vec<u8> = Vec::new();
    let mut i: usize = 0;
    proof {
        assert(content@.skip(0) =~= content@);
        assert(cur@ =~= Seq::<u8>::empty());
        assert(acc.deep_view() =~= Seq::<Seq<u8>>::empty());
    }
    while i < content.len()
        invariant
            i <= content@.len(),
            lines_acc(content@.skip(i as int), cur@, acc.deep_view()) == nonblank_lines(
                content@,
            ),
        decreases content@.len() - i,
    {
        let ghost s = content@.skip(i as int);
        proof {
            assert(s.len() > 0);
            assert(s[0] == content@[i as int]);
            assert(s.drop_first() =~= content@.skip(i as int + 1));
        }
        let b = content[i];
        if b == 10 {
            let ghost acc0 = acc.deep_view();
            let ghost cur0 = cur@;
            let finished = trim_line(cur);
            if finished.len() > 0 {
                acc.push(finished);
                proof {
                    assert(acc.deep_view() =~~= acc0.push(trim_end_ws(cur0)));
                }
            }
            cur = Vec::new();
        } else {
            cur.push(b);
        }
        i = i + 1;
    }
    proof {
        assert(content@.skip(content@.len() as int) =~= Seq::<u8>::empty());
    }
    let ghost acc0 = acc.deep_view();
    let ghost cur0 = cur@;
    let finished = trim_line(cur);
    if finished.len() > 0 {
        acc.push(finished);
        proof {
            assert(acc.deep_view() =~~= acc0.push(trim_end_ws(cur0)));
        }
    }
    acc
}

/// Reverses the collected lines, oldest-first to newest-first.
fn reverse_lines(lines: Vec<Vec<u8>>) -> (r: Vec<Vec<u8>>)
    ensures
        r.deep_view() == lines.deep_view().reverse(),
{
    let ghost all = lines.deep_view();
    let total = lines.len();
    let mut r: Vec<Vec<u8>> = Vec::new();
    let mut k: usize = 0;
    while k < total
        invariant
            k <= total,
            total == lines@.len(),
            lines.deep_view() == all,
            r.deep_view().len() == k,
            forall|m: int| 0 <= m < k ==> r.deep_view()[m] == all[total - 1 - m],
        decreases total - k,
    {
        let line = lines[total - 1 - k].clone();
        let ghost r0 = r.deep_view();
        proof {
            assert(line.deep_view() =~= all[total as int - 1 - k as int]);
        }
        r.push(line);
        proof {
            assert(r.deep_view() =~~= r0.push(all[total as int - 1 - k as int]));
        }
        k = k + 1;
    }
    proof {
        assert(r.deep_view() =~= all.reverse());
    }
    r
}

/// The page window out of the newest-first line list: skips
/// `(page - 1) * page_size` lines, takes up to `page_size`.
fn page_slice_rev(newest_first: &Vec<Vec<u8>>, page: usize, page_size: usize) -> (r: Vec<
    Vec<u8>,
>)
    requires
        page >= 1,
        page_size >= 1,
    ensures
        r.deep_view() == page_of_lines(
            newest_first.deep_view().reverse(),
            page as int,
            page_size as int,
        ),
{
    let ghost nf = newest_first.deep_view();
    let ghost all = nf.reverse();
    let total = newest_first.len();
    let pm1 = page - 1;
    proof {
        assert(all.len() == nf.len());
    }
    if pm1 > total / page_size {
        proof {
            let t = total as int;
            let p = page_size as int;
            let m = pm1 as int;
            vstd::arithmetic::div_mod::lemma_fundamental_div_mod(t, p);
            vstd::arithmetic::div_mod::lemma_mod_bound(t, p);
            assert(m * p >= (t / p + 1) * p) by (nonlinear_arith)
                requires
                    m >= t / p + 1,
                    p >= 1,
            ;
            assert((t / p + 1) * p == p * (t / p) + p) by (nonlinear_arith);
            assert(m * p >= t);
        }
        return Vec::new();
    }
    proof {
        let t = total as int;
        let p = page_size as int;
        let m = pm1 as int;
        vstd::arithmetic::div_mod::lemma_fundamental_div_mod(t, p);
        vstd::arithmetic::div_mod::lemma_mod_bound(t, p);
        assert(m * p <= (t / p) * p) by (nonlinear_arith)
            requires
                0 <= m <= t / p,
                p >= 1,
        ;
        assert((t / p) * p == p * (t / p)) by (nonlinear_arith);
        assert(m * p <= t);
    }
    let skip = pm1 * page_size;
    if skip >= total {
        return Vec::new();
    }
    let count = if total - skip < page_size {
        total - skip
    } else {
        page_size
    };
    let mut out: Vec<Vec<u8>> = Vec::new();
    let mut k: usize = 0;
    while k < count
        invariant
            k <= count,
            count <= total - skip,
            skip + count <= total,
            total == newest_first@.len(),
            newest_first.deep_view() == nf,
            out.deep_view().len() == k,
            forall|m: int| 0 <= m < k ==> out.deep_view()[m] == nf[skip + m],
        decreases count - k,
    {
        let line = newest_first[skip + k].clone();
        let ghost out0 = out.deep_view();
        proof {
            assert(line.deep_view() =~= nf[skip as int + k as int]);
        }
        out.push(line);
        proof {
            assert(out.deep_view() =~~= out0.push(nf[skip as int + k as int]));
        }
        k = k + 1;
    }
    proof {
        assert forall|m: int| 0 <= m < count implies #[trigger] nf[skip + m] == all[total - skip - 1
            - m] by {
            assert(all[total - skip - 1 - m] == nf[total - 1 - (total - skip - 1 - m)]);
        }
        assert(out.deep_view() =~= page_of_lines(all, page as int, page_size as int));
    }
    out
}

/// Reads the whole log in one pass and returns the requested page of
/// non-blank lines, newest first, with the total line count.
pub fn read_logs_simple(content: &[u8], page: usize, page_size: usize) -> (r: (Vec<Vec<u8>>, usize))
    requires
        page >= 1,
        page_size >= 1,
    ensures
        r.1 == nonblank_lines(content@).len(),
        r.0.deep_view() == page_of_lines(nonblank_lines(content@), page as int, page_size as int),
{
    let lines = collect_nonblank_lines(content);
    let total = lines.len();
    let ghost all = lines.deep_view();
    let nf = reverse_lines(lines);
    proof {
        assert(nf.deep_view().reverse() =~= all);
    }
    let out = page_slice_rev(&nf, page, page_size);
    (out, total)
}

/// The accumulator passes through `lines_acc` untouched: the result is
/// the accumulator followed by the lines of the remaining bytes.
proof fn lemma_lines_acc_prefix(s: Seq<u8>, cur: Seq<u8>, acc: Seq<Seq<u8>>)
    ensures
        lines_acc(s, cur, acc) == acc + lines_acc(s, cur, Seq::empty()),
    decreases s.len(),
{
    if s.len() == 0 {
        if trim_end_ws(cur).len() > 0 {
            assert(acc.push(trim_end_ws(cur)) =~= acc + Seq::<Seq<u8>>::empty().push(
                trim_end_ws(cur),
            ));
        } else {
            assert(acc + Seq::<Seq<u8>>::empty() =~= acc);
        }
    } else if s[0] == 10 {
        let rest = s.drop_first();
        lemma_lines_acc_prefix(rest, Seq::empty(), flush_line(cur, acc));
        lemma_lines_acc_prefix(rest, Seq::empty(), flush_line(cur, Seq::empty()));
        let tail = lines_acc(rest, Seq::empty(), Seq::empty());
        if trim_end_ws(cur).len() > 0 {
            assert(acc.push(trim_end_ws(cur)) + tail =~= acc + (Seq::<Seq<u8>>::empty().push(
                trim_end_ws(cur),
            ) + tail));
        } else {
            assert(acc + tail =~= acc + (Seq::<Seq<u8>>::empty() + tail));
        }
    } else {
        lemma_lines_acc_prefix(s.drop_first(), cur.push(s[0]), acc);
    }
}

/// Processing up to a newline first, then the remainder, is the same as
/// one pass over the whole sequence.
proof fn lemma_lines_acc_split(s: Seq<u8>, cur: Seq<u8>, acc: Seq<Seq<u8>>, i: int)
    requires
        0 <= i < s.len(),
        s[i] == 10,
    ensures
        lines_acc(s, cur, acc) == lines_acc(
            s.skip(i + 1),
            Seq::empty(),
            lines_acc(s.take(i), cur, acc),
        ),
    decreases i,
{
    if i == 0 {
        assert(s.take(0) =~= Seq::<u8>::empty());
        assert(s.skip(1) =~= s.drop_first());
    } else {
        assert(s.take(i).len() == i);
        assert(s.take(i)[0] == s[0]);
        assert(s.take(i).drop_first() =~= s.drop_first().take(i - 1));
        assert(s.drop_first().skip(i) =~= s.skip(i + 1));
        assert(s.drop_first()[i - 1] == s[i]);
        if s[0] == 10 {
            lemma_lines_acc_split(s.drop_first(), Seq::empty(), flush_line(cur, acc), i - 1);
        } else {
            lemma_lines_acc_split(s.drop_first(), cur.push(s[0]), acc, i - 1);
        }
    }
}

/// Splitting a log at a newline splits its line list: no line that
/// spans the split is dropped or torn.
proof fn lemma_lines_split(s: Seq<u8>, i: int)
    requires
        0 <= i < s.len(),
        s[i] == 10,
    ensures
        nonblank_lines(s) == nonblank_lines(s.take(i)) + nonblank_lines(s.skip(i + 1)),
{
    lemma_lines_acc_split(s, Seq::empty(), Seq::empty(), i);
    lemma_lines_acc_prefix(s.skip(i + 1), Seq::empty(), nonblank_lines(s.take(i)));
}

/// A leading newline ends only an empty line and adds nothing.
proof fn lemma_leading_newline(s: Seq<u8>)
    requires
        s.len() > 0,
        s[0] == 10,
    ensures
        nonblank_lines(s) == nonblank_lines(s.drop_first()),
{
    assert(trim_end_ws(Seq::<u8>::empty()).len() == 0);
}

/// Reversal of a concatenation swaps and reverses the parts.
proof fn lemma_reverse_concat(a: Seq<Seq<u8>>, b: Seq<Seq<u8>>)
    ensures
        (a + b).reverse() == b.reverse() + a.reverse(),
{
    assert((a + b).reverse() =~= b.reverse() + a.reverse());
}

/// Index of the first newline byte, if any.
fn first_newline(buf: &Vec<u8>) -> (r: Option<usize>)
    ensures
        match r {
            Option::Some(k) => k < buf@.len() && buf@[k as int] == 10 && forall|m: int|
                0 <= m < k ==> buf@[m] != 10,
            Option::None => forall|m: int| 0 <= m < buf@.len() ==> buf@[m] != 10,
        },
{
    let mut k: usize = 0;
    while k < buf.len()
        invariant
            k <= buf@.len(),
            forall|m: int| 0 <= m < k ==> buf@[m] != 10,
        decreases buf@.len() - k,
    {
        if buf[k] == 10 {
            return Option::Some(k);
        }
        k = k + 1;
    }
    Option::None
}

/// A copy of the bytes before index `k`.
fn prefix_bytes(buf: &Vec<u8>, k: usize) -> (r: Vec<u8>)
    requires
        k <= buf@.len(),
    ensures
        r@ == buf@.take(k as int),
{
    let mut r: Vec<u8> = Vec::new();
    let mut j: usize = 0;
    while j < k
        invariant
            j <= k <= buf@.len(),
            r@ == buf@.take(j as int),
        decreases k - j,
    {
        proof {
            assert(buf@.take(j as int).push(buf@[j as int]) =~= buf@.take(j as int + 1));
        }
        r.push(buf[j]);
        j = j + 1;
    }
    r
}

/// A copy of the bytes from index `k` on.
fn suffix_bytes(buf: &Vec<u8>, k: usize) -> (r: Vec<u8>)
    requires
        k <= buf@.len(),
    ensures
        r@ == buf@.skip(k as int),
{
    let mut r: Vec<u8> = Vec::new();
    let mut j: usize = k;
    while j < buf.len()
        invariant
            k <= j <= buf@.len(),
            r@ == buf@.subrange(k as int, j as int),
        decreases buf@.len() - j,
    {
        proof {
            assert(buf@.subrange(k as int, j as int).push(buf@[j as int]) =~= buf@.subrange(
                k as int,
                j as int + 1,
            ));
        }
        r.push(buf[j]);
        j = j + 1;
    }
    proof {
        assert(buf@.subrange(k as int, buf@.len() as int) =~= buf@.skip(k as int));
    }
    r
}

/// The chunk size of the backward reader.
pub const CHUNK_SIZE: usize = 32768;

/// Reads the log backwards in fixed-size chunks, carrying the partial
/// line at each chunk boundary, and returns the same page window and
/// total count as the one-pass reader. A line spanning a chunk boundary
/// is never dropped or split.
pub fn read_logs_chunked(content: &[u8], page: usize, page_size: usize) -> (r: (Vec<Vec<u8>>, usize))
    requires
        page >= 1,
        page_size >= 1,
    ensures
        r.1 == nonblank_lines(content@).len(),
        r.0.deep_view() == page_of_lines(nonblank_lines(content@), page as int, page_size as int),
{
    let mut pos: usize = content.len();
    let mut carry: Vec<u8> = Vec::new();
    let mut rev: Vec<Vec<u8>> = Vec::new();
    let ghost mut rest: Seq<u8> = Seq::empty();
    proof {
        assert(content@.skip(pos as int) =~= carry@ + rest);
        assert(nonblank_lines(rest).reverse() =~= rev.deep_view());
    }
    while pos > 0
        invariant
            pos <= content@.len(),
            content@.skip(pos as int) == carry@ + rest,
            rest.len() == 0 || rest[0] == 10,
            forall|j: int| 0 <= j < carry@.len() ==> carry@[j] != 10,
            rev.deep_view() == nonblank_lines(rest).reverse(),
        decreases pos,
    {
        let start = if pos >= CHUNK_SIZE {
            pos - CHUNK_SIZE
        } else {
            0
        };
        let ghost chunkseq = content@.subrange(start as int, pos as int);
        let mut buf: Vec<u8> = Vec::new();
        let mut j: usize = start;
        proof {
            assert(buf@ =~= content@.subrange(start as int, start as int));
        }
        while j < pos
            invariant
                start <= j <= pos <= content@.len(),
                buf@ == content@.subrange(start as int, j as int),
            decreases pos - j,
        {
            proof {
                assert(content@.subrange(start as int, j as int).push(content@[j as int])
                    =~= content@.subrange(start as int, j as int + 1));
            }
            buf.push(content[j]);
            j = j + 1;
        }
        let ghost carry0 = carry@;
        let ghost rest0 = rest;
        buf.append(&mut carry);
        proof {
            assert(content@.skip(start as int) =~= chunkseq + content@.skip(pos as int));
            assert(chunkseq + (carry0 + rest0) =~= (chunkseq + carry0) + rest0);
            assert(content@.skip(start as int) == buf@ + rest0);
        }
        match first_newline(&buf) {
            Option::None => {
                carry = buf;
            },
            Option::Some(k) => {
                let ghost bufseq = buf@;
                let new_carry = prefix_bytes(&buf, k);
                let seg = suffix_bytes(&buf, k + 1);
                let seg_lines = collect_nonblank_lines(seg.as_slice());
                let seg_rev = reverse_lines(seg_lines);
                let ghost rev0 = rev.deep_view();
                let ghost seg_rev0 = seg_rev.deep_view();
                let mut seg_rev_m = seg_rev;
                rev.append(&mut seg_rev_m);
                proof {
                    assert(rev.deep_view() =~~= rev0 + seg_rev0);
                    rest = bufseq.skip(k as int) + rest0;
                    assert(rest[0] == 10);
                    assert(bufseq.take(k as int) + (bufseq.skip(k as int) + rest0) =~= bufseq
                        + rest0);
                    assert(content@.skip(start as int) == new_carry@ + rest);
                    let segseq = bufseq.skip(k as int + 1);
                    assert(rest.drop_first() =~= segseq + rest0);
                    lemma_leading_newline(rest);
                    if rest0.len() == 0 {
                        assert(segseq + rest0 =~= segseq);
                        assert(nonblank_lines(rest0) =~= Seq::<Seq<u8>>::empty());
                        assert(nonblank_lines(rest) == nonblank_lines(segseq));
                        assert(nonblank_lines(segseq) + nonblank_lines(rest0) =~= nonblank_lines(
                            segseq,
                        ));
                    } else {
                        let combined = segseq + rest0;
                        let mid = segseq.len() as int;
                        assert(combined[mid] == rest0[0]);
                        lemma_lines_split(combined, mid);
                        assert(combined.take(mid) =~= segseq);
                        assert(combined.skip(mid + 1) =~= rest0.drop_first());
                        lemma_leading_newline(rest0);
                    }
                    assert(nonblank_lines(rest) == nonblank_lines(segseq) + nonblank_lines(
                        rest0,
                    ));
                    lemma_reverse_concat(nonblank_lines(segseq), nonblank_lines(rest0));
                }
                carry = new_carry;
            },
        }
        pos = start;
    }
    proof {
        assert(content@.skip(0) =~= content@);
    }
    let carry_lines = collect_nonblank_lines(carry.as_slice());
    let carry_rev = reverse_lines(carry_lines);
    let ghost rev0 = rev.deep_view();
    let ghost carry_rev0 = carry_rev.deep_view();
    let ghost rest0 = rest;
    let ghost carryseq = carry@;
    let mut carry_rev_m = carry_rev;
    rev.append(&mut carry_rev_m);
    proof {
        assert(rev.deep_view() =~~= rev0 + carry_rev0);
        if rest0.len() == 0 {
            assert(content@ =~= carryseq);
            assert(nonblank_lines(rest0) =~= Seq::<Seq<u8>>::empty());
            assert(nonblank_lines(content@) == nonblank_lines(carryseq));
            assert(nonblank_lines(carryseq) + nonblank_lines(rest0) =~= nonblank_lines(carryseq));
        } else {
            let mid = carryseq.len() as int;
            assert(content@[mid] == rest0[0]);
            lemma_lines_split(content@, mid);
            assert(content@.take(mid) =~= carryseq);
            assert(content@.skip(mid + 1) =~= rest0.drop_first());
            lemma_leading_newline(rest0);
        }
        assert(nonblank_lines(content@) == nonblank_lines(carryseq) + nonblank_lines(rest0));
        lemma_reverse_concat(nonblank_lines(carryseq), nonblank_lines(rest0));
        assert(rev.deep_view() == nonblank_lines(content@).reverse());
        assert(rev.deep_view().reverse() =~= nonblank_lines(content@));
    }
    let total = rev.len();
    let out = page_slice_rev(&rev, page, page_size);
    (out, total)
}

/// Returns the requested page of non-blank log lines, newest first,
/// with the total count: one pass for a small log or an early page,
/// chunked from the end otherwise.
pub fn read_logs_reverse_paginated(content: &[u8], page: usize, page_size: usize) -> (r: (
    Vec<Vec<u8>>,
    usize,
))
    requires
        page >= 1,
        page_size >= 1,
    ensures
        r.1 == nonblank_lines(content@).len(),
        r.0.deep_view() == page_of_lines(nonblank_lines(content@), page as int, page_size as int),
{
    if content.len() < 524288 || page <= 3 {
        read_logs_simple(content, page, page_size)
    } else {
        read_logs_chunked(content, page, page_size)
    }
}

/// No two slots guard the same path.
pub open spec fn paths_distinct(s: Seq<String>) -> bool {
    forall|i: int, j: int| 0 <= i < j < s.len() ==> s[i]@ != s[j]@
}

/// The serialized log sink: one slot per distinct log path, and the
/// text committed to each path so far. The surrounding binary holds one
/// mutex per slot and performs the file writes; which slot guards which
/// path, and what each append commits, is decided here.
pub struct SafeLogger {
    /// The distinct log paths, in first-use order; a path's index is
    /// the identity of its lock.
    pub log_paths: Vec<String>,
    /// The text committed to each path, in the same order.
    pub contents: Vec<String>,
}

impl SafeLogger {
    /// Well-formedness: distinct paths, one content per path.
    pub open spec fn wf(&self) -> bool {
        &&& paths_distinct(self.log_paths@)
        &&& self.contents@.len() == self.log_paths@.len()
    }

    /// Some slot guards this path.
    pub open spec fn has_path(&self, path: Seq<char>) -> bool {
        exists|i: int| 0 <= i < self.log_paths@.len() && self.log_paths@[i]@ == path
    }

    /// A sink with no paths yet.
    pub fn new() -> (r: Self)
        ensures
            r.wf(),
            r.log_paths@.len() == 0,
    {
        SafeLogger { log_paths: Vec::new(), contents: Vec::new() }
    }

    /// The index of the slot guarding this path, if any.
    fn find_path(&self, log_path: &String) -> (r: Option<usize>)
        ensures
            match r {
                Option::Some(i) => i < self.log_paths@.len() && self.log_paths@[i as int]@
                    == log_path@,
                Option::None => !self.has_path(log_path@),
            },
    {
        let mut i: usize = 0;
        while i < self.log_paths.len()
            invariant
                i <= self.log_paths@.len(),
                forall|j: int| 0 <= j < i ==> self.log_paths@[j]@ != log_path@,
            decreases self.log_paths@.len() - i,
        {
            if crate::config::strings_equal(&self.log_paths[i], log_path) {
                return Option::Some(i);
            }
            i = i + 1;
        }
        Option::None
    }

    /// The lock for a path: its existing slot, or a fresh one. Calls
    /// with the same path always yield the same slot, so every append
    /// to that path serializes through one lock.
    pub fn get_log_lock(&mut self, log_path: &String) -> (idx: usize)
        requires
            old(self).wf(),
        ensures
            final(self).wf(),
            idx < final(self).log_paths@.len(),
            final(self).log_paths@[idx as int]@ == log_path@,
            forall|j: int|
                0 <= j < old(self).log_paths@.len() ==> final(self).log_paths@[j] == old(self).log_paths@[j] && final(self).contents@[j] == old(self).contents@[j],
            old(self).has_path(log_path@) ==> final(self).log_paths@ == old(self).log_paths@
                && final(self).contents@ == old(self).contents@,
            !old(self).has_path(log_path@) ==> final(self).log_paths@.len() == old(self).log_paths@.len() + 1 && idx == old(self).log_paths@.len() && final(self).contents@[idx as int]@ == Seq::<char>::empty(),
    {
        match self.find_path(log_path) {
            Option::Some(i) => i,
            Option::None => {
                let idx = self.log_paths.len();
                self.log_paths.push(log_path.clone());
                self.contents.push(String::new());
                idx
            },
        }
    }

    /// Appends one entry to the path's log: the entry lands whole, after
    /// everything committed earlier, and no other path changes. Entries
    /// therefore never interleave, and a log's content is its commit
    /// order.
    pub fn safe_append_log(&mut self, log_path: &String, content: &str)
        requires
            old(self).wf(),
        ensures
            final(self).wf(),
            final(self).has_path(log_path@),
            forall|j: int|
                0 <= j < old(self).log_paths@.len() ==> final(self).log_paths@[j] == old(self).log_paths@[j],
            forall|j: int|
                0 <= j < old(self).log_paths@.len() && old(self).log_paths@[j]@ != log_path@
                    ==> final(self).contents@[j] == old(self).contents@[j],
            forall|j: int|
                0 <= j < final(self).log_paths@.len() && final(self).log_paths@[j]@ == log_path@
                    ==> final(self).contents@[j]@ == (if j < old(self).contents@.len() {
                    old(self).contents@[j]@
                } else {
                    Seq::<char>::empty()
                }) + content@,
    {
        let idx = self.get_log_lock(log_path);
        let ghost mid = *self;
        proof {
            assert forall|j: int|
                0 <= j < self.log_paths@.len() && self.log_paths@[j]@ == log_path@ implies j
                == idx as int by {
                if j < idx as int {
                    assert(self.log_paths@[j]@ != self.log_paths@[idx as int]@);
                } else if j > idx as int {
                    assert(self.log_paths@[idx as int]@ != self.log_paths@[j]@);
                }
            }
        }
        let mut c = self.contents.remove(idx);
        c.append(content);
        let ghost cg = c;
        self.contents.insert(idx, c);
        proof {
            assert(self.contents@ =~= mid.contents@.update(idx as int, cg));
        }
    }

    /// Truncates the path's log to empty under its lock.
    pub fn clear_log(&mut self, log_path: &String)
        requires
            old(self).wf(),
        ensures
            final(self).wf(),
            final(self).has_path(log_path@),
            forall|j: int|
                0 <= j < old(self).log_paths@.len() ==> final(self).log_paths@[j] == old(self).log_paths@[j],
            forall|j: int|
                0 <= j < old(self).log_paths@.len() && old(self).log_paths@[j]@ != log_path@
                    ==> final(self).contents@[j] == old(self).contents@[j],
            forall|j: int|
                0 <= j < final(self).log_paths@.len() && final(self).log_paths@[j]@ == log_path@
                    ==> final(self).contents@[j]@ == Seq::<char>::empty(),
    {
        let idx = self.get_log_lock(log_path);
        let ghost mid = *self;
        proof {
            assert forall|j: int|
                0 <= j < self.log_paths@.len() && self.log_paths@[j]@ == log_path@ implies j
                == idx as int by {
                if j < idx as int {
                    assert(self.log_paths@[j]@ != self.log_paths@[idx as int]@);
                } else if j > idx as int {
                    assert(self.log_paths@[idx as int]@ != self.log_paths@[j]@);
                }
            }
        }
        let _ = self.contents.remove(idx);
        let c = String::new();
        let ghost cg = c;
        self.contents.insert(idx, c);
        proof {
            assert(self.contents@ =~= mid.contents@.update(idx as int, cg));
        }
    }
}

/// One lock per path: in a well-formed sink two slots guarding the same
/// path are the same slot, so concurrent pumps writing one path contend
/// on one mutex, and their entries appear whole, in commit order.
pub proof fn lemma_one_lock_per_path(lg: &SafeLogger, i: int, j: int)
    requires
        lg.wf(),
        0 <= i < lg.log_paths@.len(),
        0 <= j < lg.log_paths@.len(),
        lg.log_paths@[i]@ == lg.log_paths@[j]@,
    ensures
        i == j,
{
    if i < j {
        assert(lg.log_paths@[i]@ != lg.log_paths@[j]@);
    } else if j < i {
        assert(lg.log_paths@[j]@ != lg.log_paths@[i]@);
    }
}

} // verus!
