//! The survey report: entries sorted by bytes descending, filtered by a size
//! floor, under a summary header.

use vstd::prelude::*;
use crate::classify::SurveyEntry;
use crate::timestamp::Timestamp;

verus! {

/// Summary header for the survey output.
#[derive(Clone, Copy, Debug)]
pub struct Summary {
    /// Total reclaimable bytes across all entries.
    pub reclaimable_bytes: u64,
    /// Number of entries after filtering.
    pub entry_count: usize,
    /// The `now` instant supplied by the caller.
    pub scanned_at: Timestamp,
}

/// Full survey output: summary header and sorted entry list.
#[derive(Clone, Debug)]
pub struct Output {
    /// Aggregate summary.
    pub summary: Summary,
    /// Entries sorted by `bytes` descending, filtered by the size floor.
    pub entries: Vec<SurveyEntry>,
}

/// Sum of the entries' bytes.
pub open spec fn sum_bytes(s: Seq<SurveyEntry>) -> nat
    decreases s.len(),
{
    if s.len() == 0 {
        0
    } else {
        sum_bytes(s.drop_last()) + s.last().bytes as nat
    }
}

/// Sum of the bytes of the entries that reach the floor `min_bytes`.
pub open spec fn kept_bytes(s: Seq<SurveyEntry>, min_bytes: u64) -> nat
    decreases s.len(),
{
    if s.len() == 0 {
        0
    } else {
        (if s[0].bytes >= min_bytes { s[0].bytes as nat } else { 0 }) + kept_bytes(s.drop_first(), min_bytes)
    }
}

/// How many entries reach the floor `min_bytes`.
pub open spec fn kept_count(s: Seq<SurveyEntry>, min_bytes: u64) -> nat
    decreases s.len(),
{
    if s.len() == 0 {
        0
    } else {
        (if s[0].bytes >= min_bytes { 1nat } else { 0nat }) + kept_count(s.drop_first(), min_bytes)
    }
}

/// `out` lists, through the index map `p`, exactly the entries of `inp` that
/// reach the floor `min_bytes`, each once, by bytes descending, and entries
/// of equal size in their original order.
pub open spec fn arranges(out: Seq<SurveyEntry>, inp: Seq<SurveyEntry>, min_bytes: u64, p: Seq<int>) -> bool {
    &&& p.len() == out.len()
    &&& forall|k: int| 0 <= k < out.len() ==> 0 <= #[trigger] p[k] < inp.len() && out[k] == inp[p[k]]
    &&& forall|k: int| 0 <= k < out.len() ==> (#[trigger] out[k]).bytes >= min_bytes
    &&& forall|k: int, l: int| 0 <= k < l < out.len() ==> #[trigger] p[k] != #[trigger] p[l]
    &&& forall|j: int| 0 <= j < inp.len() && (#[trigger] inp[j]).bytes >= min_bytes ==> exists|k: int| 0 <= k < out.len() && p[k] == j
    &&& forall|k: int, l: int| 0 <= k < l < out.len() ==> (#[trigger] out[k]).bytes >= (#[trigger] out[l]).bytes
    &&& forall|k: int, l: int| 0 <= k < l < out.len() && (#[trigger] out[k]).bytes == (#[trigger] out[l]).bytes ==> p[k] < p[l]
}

/// `out` is the survey order of `inp` under the floor `min_bytes`: its
/// entries that reach the floor, sorted by bytes descending by a stable sort.
pub open spec fn survey_order(out: Seq<SurveyEntry>, inp: Seq<SurveyEntry>, min_bytes: u64) -> bool {
    exists|p: Seq<int>| arranges(out, inp, min_bytes, p)
}

proof fn lemma_sum_bytes_insert(s: Seq<SurveyEntry>, pos: int, x: SurveyEntry)
    requires
        0 <= pos <= s.len(),
    ensures
        sum_bytes(s.insert(pos, x)) == sum_bytes(s) + x.bytes,
    decreases s.len(),
{
    if pos == s.len() {
        assert(s.insert(pos, x) =~= s.push(x));
        assert(s.push(x).drop_last() =~= s);
    } else {
        lemma_sum_bytes_insert(s.drop_last(), pos, x);
        assert(s.insert(pos, x).drop_last() =~= s.drop_last().insert(pos, x));
        assert(s.insert(pos, x).last() == s.last());
    }
}

/// `out` arranges, through `p`, the entries of `inp` from index `from` on
/// that reach the floor, as [`arranges`] does for all of `inp`.
pub open spec fn arranges_from(out: Seq<SurveyEntry>, inp: Seq<SurveyEntry>, min_bytes: u64, p: Seq<int>, from: int) -> bool {
    &&& p.len() == out.len()
    &&& forall|k: int| 0 <= k < out.len() ==> from <= #[trigger] p[k] < inp.len() && out[k] == inp[p[k]]
    &&& forall|k: int| 0 <= k < out.len() ==> (#[trigger] out[k]).bytes >= min_bytes
    &&& forall|k: int, l: int| 0 <= k < l < out.len() ==> #[trigger] p[k] != #[trigger] p[l]
    &&& forall|j: int| from <= j < inp.len() && (#[trigger] inp[j]).bytes >= min_bytes ==> exists|k: int| 0 <= k < out.len() && p[k] == j
    &&& forall|k: int, l: int| 0 <= k < l < out.len() ==> (#[trigger] out[k]).bytes >= (#[trigger] out[l]).bytes
    &&& forall|k: int, l: int| 0 <= k < l < out.len() && (#[trigger] out[k]).bytes == (#[trigger] out[l]).bytes ==> p[k] < p[l]
}

/// Taking in `inp[from - 1]`, which reaches the floor, at the first position
/// whose entry is not larger keeps the arrangement.
#[verifier::spinoff_prover]
#[verifier::rlimit(40)]
proof fn lemma_arranges_insert(out: Seq<SurveyEntry>, inp: Seq<SurveyEntry>, min_bytes: u64, p: Seq<int>, from: int, pos: int)
    requires
        0 < from <= inp.len(),
        arranges_from(out, inp, min_bytes, p, from),
        inp[from - 1].bytes >= min_bytes,
        0 <= pos <= out.len(),
        forall|k: int| 0 <= k < pos ==> (#[trigger] out[k]).bytes > inp[from - 1].bytes,
        pos < out.len() ==> out[pos].bytes <= inp[from - 1].bytes,
    ensures
        arranges_from(out.insert(pos, inp[from - 1]), inp, min_bytes, p.insert(pos, from - 1), from - 1),
{
    let j = from - 1;
    let x = inp[j];
    let xb = x.bytes;
    let new_out = out.insert(pos, x);
    let new_p = p.insert(pos, j);
    out.insert_ensures(pos, x);
    p.insert_ensures(pos, j);
    assert forall|k: int| pos <= k < out.len() implies (#[trigger] out[k]).bytes <= xb by {
        if k > pos {
            assert(out[pos].bytes >= out[k].bytes);
        }
    }
    assert forall|k: int| 0 <= k < new_out.len() implies j <= #[trigger] new_p[k] < inp.len() && new_out[k] == inp[new_p[k]] by {
        if k > pos {
            assert(new_out[k] == out[k - 1]);
            assert(new_p[k] == p[k - 1]);
        }
    }
    assert forall|k: int| 0 <= k < new_out.len() implies (#[trigger] new_out[k]).bytes >= min_bytes by {
        if k > pos {
            assert(new_out[k] == out[k - 1]);
        }
    }
    assert forall|k: int, l: int| 0 <= k < l < new_out.len() implies #[trigger] new_p[k] != #[trigger] new_p[l] by {
        if l < pos {
        } else if k < pos && l == pos {
        } else if k < pos {
            assert(new_p[l] == p[l - 1]);
        } else if k == pos {
            assert(new_p[l] == p[l - 1]);
        } else {
            assert(new_p[k] == p[k - 1]);
            assert(new_p[l] == p[l - 1]);
        }
    }
    assert forall|jj: int| j <= jj < inp.len() && (#[trigger] inp[jj]).bytes >= min_bytes implies exists|k: int|
        0 <= k < new_out.len() && new_p[k] == jj by {
        if jj == j {
            assert(new_p[pos] == jj);
        } else {
            let k0 = choose|k: int| 0 <= k < out.len() && p[k] == jj;
            if k0 < pos {
                assert(new_p[k0] == jj);
            } else {
                assert(new_p[k0 + 1] == jj);
            }
        }
    }
    assert forall|k: int, l: int| 0 <= k < l < new_out.len() implies (#[trigger] new_out[k]).bytes >= (#[trigger] new_out[l]).bytes by {
        if l < pos {
        } else if k < pos && l == pos {
        } else if k < pos {
            assert(new_out[l] == out[l - 1]);
            assert(out[k].bytes >= out[l - 1].bytes);
        } else if k == pos {
            assert(new_out[l] == out[l - 1]);
        } else {
            assert(new_out[k] == out[k - 1]);
            assert(new_out[l] == out[l - 1]);
        }
    }
    assert forall|k: int, l: int| 0 <= k < l < new_out.len() && (#[trigger] new_out[k]).bytes == (#[trigger] new_out[l]).bytes implies new_p[k] < new_p[l] by {
        if l < pos {
        } else if k < pos && l == pos {
            assert(out[k].bytes > xb);
        } else if k < pos {
            assert(new_out[l] == out[l - 1]);
            assert(new_p[l] == p[l - 1]);
        } else if k == pos {
            assert(new_out[l] == out[l - 1]);
            assert(new_p[l] == p[l - 1]);
        } else {
            assert(new_out[k] == out[k - 1]);
            assert(new_out[l] == out[l - 1]);
            assert(new_p[k] == p[k - 1]);
            assert(new_p[l] == p[l - 1]);
        }
    }
}

/// Passing over `inp[from - 1]`, which falls below the floor, keeps the arrangement.
proof fn lemma_arranges_skip(out: Seq<SurveyEntry>, inp: Seq<SurveyEntry>, min_bytes: u64, p: Seq<int>, from: int)
    requires
        0 < from <= inp.len(),
        arranges_from(out, inp, min_bytes, p, from),
        inp[from - 1].bytes < min_bytes,
    ensures
        arranges_from(out, inp, min_bytes, p, from - 1),
{
    assert forall|jj: int| from - 1 <= jj < inp.len() && (#[trigger] inp[jj]).bytes >= min_bytes implies exists|k: int|
        0 <= k < out.len() && p[k] == jj by {
        assert(jj != from - 1);
    }
}

/// Sorts `entries` by bytes descending, keeping entries of equal size in
/// their original order, and drops those below `min_bytes`.
fn sorted_kept(entries: Vec<SurveyEntry>, min_bytes: u64) -> (r: (Vec<SurveyEntry>, Ghost<Seq<int>>))
    ensures
        arranges(r.0@, entries@, min_bytes, r.1@),
        sum_bytes(r.0@) == kept_bytes(entries@, min_bytes),
        r.0@.len() == kept_count(entries@, min_bytes),
{
    let ghost inp = entries@;
    let n = entries.len();
    let mut rest = entries;
    let mut out: Vec<SurveyEntry> = Vec::new();
    let ghost mut p: Seq<int> = Seq::empty();
    let mut i: usize = n;
    while i > 0
        invariant
            n == inp.len(),
            0 <= i <= n,
            rest@ == inp.subrange(0, i as int),
            arranges_from(out@, inp, min_bytes, p, i as int),
            sum_bytes(out@) == kept_bytes(inp.subrange(i as int, n as int), min_bytes),
            out@.len() == kept_count(inp.subrange(i as int, n as int), min_bytes),
        decreases i,
    {
        let x = rest.pop().unwrap();
        let ghost j: int = i - 1;
        assert(x == inp[j]);
        proof {
            assert(inp.subrange(j, n as int).drop_first() =~= inp.subrange(i as int, n as int));
        }
        if x.bytes >= min_bytes {
            let mut pos: usize = 0;
            while pos < out.len() && out[pos].bytes > x.bytes
                invariant
                    0 <= pos <= out@.len(),
                    forall|k: int| 0 <= k < pos ==> (#[trigger] out@[k]).bytes > x.bytes,
                decreases out@.len() - pos,
            {
                pos = pos + 1;
            }
            proof {
                lemma_arranges_insert(out@, inp, min_bytes, p, i as int, pos as int);
                lemma_sum_bytes_insert(out@, pos as int, x);
                p = p.insert(pos as int, j);
            }
            out.insert(pos, x);
        } else {
            proof {
                lemma_arranges_skip(out@, inp, min_bytes, p, i as int);
            }
        }
        i = i - 1;
        assert(rest@ =~= inp.subrange(0, i as int));
    }
    assert(inp.subrange(0, n as int) =~= inp);
    (out, Ghost(p))
}

/// Orders the survey's entries for the report: those with at least
/// `min_bytes` bytes, sorted by bytes descending, entries of equal size
/// keeping their original order.
pub fn order_entries(entries: Vec<SurveyEntry>, min_bytes: u64) -> (out: Vec<SurveyEntry>)
    ensures
        survey_order(out@, entries@, min_bytes),
        sum_bytes(out@) == kept_bytes(entries@, min_bytes),
        out@.len() == kept_count(entries@, min_bytes),
{
    let (out, Ghost(p)) = sorted_kept(entries, min_bytes);
    assert(arranges(out@, entries@, min_bytes, p));
    out
}

proof fn lemma_sum_bytes_prefix(s: Seq<SurveyEntry>, k: int)
    requires
        0 <= k <= s.len(),
    ensures
        sum_bytes(s.take(k)) <= sum_bytes(s),
    decreases s.len(),
{
    if k < s.len() {
        lemma_sum_bytes_prefix(s.drop_last(), k);
        assert(s.drop_last().take(k) =~= s.take(k));
    } else {
        assert(s.take(k) =~= s);
    }
}

proof fn lemma_kept_bytes_suffix(s: Seq<SurveyEntry>, min_bytes: u64, i: int)
    requires
        0 <= i <= s.len(),
    ensures
        kept_bytes(s.subrange(i, s.len() as int), min_bytes) <= kept_bytes(s, min_bytes),
    decreases i,
{
    if i == 0 {
        assert(s.subrange(0, s.len() as int) =~= s);
    } else {
        lemma_kept_bytes_suffix(s, min_bytes, i - 1);
        assert(s.subrange(i - 1, s.len() as int).drop_first() =~= s.subrange(i, s.len() as int));
    }
}

/// Whether the bytes of the entries that reach `min_bytes` add up to a
/// total that fits in a `u64`.
pub fn kept_bytes_fit(entries: &Vec<SurveyEntry>, min_bytes: u64) -> (r: bool)
    ensures
        r == (kept_bytes(entries@, min_bytes) <= u64::MAX),
{
    let n = entries.len();
    let mut acc: u64 = 0;
    let mut i: usize = n;
    while i > 0
        invariant
            n == entries@.len(),
            0 <= i <= n,
            acc == kept_bytes(entries@.subrange(i as int, n as int), min_bytes),
        decreases i,
    {
        let b = entries[i - 1].bytes;
        proof {
            assert(entries@.subrange(i - 1, n as int).drop_first() =~= entries@.subrange(i as int, n as int));
        }
        if b >= min_bytes {
            if b > u64::MAX - acc {
                proof {
                    lemma_kept_bytes_suffix(entries@, min_bytes, i - 1);
                }
                return false;
            }
            acc = acc + b;
        }
        i = i - 1;
    }
    assert(entries@.subrange(0, n as int) =~= entries@);
    true
}

/// Builds the survey report: the entries that reach `min_bytes`, sorted by
/// bytes descending (entries of equal size keep their order), under a
/// summary of their total bytes, their count and the survey instant `now`.
pub fn build_output(entries: Vec<SurveyEntry>, min_bytes: u64, now: Timestamp) -> (out: Output)
    requires
        kept_bytes(entries@, min_bytes) <= u64::MAX,
    ensures
        survey_order(out.entries@, entries@, min_bytes),
        out.summary.reclaimable_bytes == sum_bytes(out.entries@),
        out.summary.reclaimable_bytes == kept_bytes(entries@, min_bytes),
        out.summary.entry_count == out.entries@.len(),
        out.summary.entry_count == kept_count(entries@, min_bytes),
        out.summary.scanned_at == now,
{
    let ghost inp = entries@;
    let sorted = order_entries(entries, min_bytes);
    let mut total: u64 = 0;
    let mut k: usize = 0;
    while k < sorted.len()
        invariant
            0 <= k <= sorted@.len(),
            sum_bytes(sorted@) <= u64::MAX,
            total == sum_bytes(sorted@.take(k as int)),
        decreases sorted@.len() - k,
    {
        proof {
            assert(sorted@.take(k + 1).drop_last() =~= sorted@.take(k as int));
            lemma_sum_bytes_prefix(sorted@, k + 1);
        }
        total = total + sorted[k].bytes;
        k = k + 1;
    }
    assert(sorted@.take(sorted@.len() as int) =~= sorted@);
    let count = sorted.len();
    Output {
        summary: Summary { reclaimable_bytes: total, entry_count: count, scanned_at: now },
        entries: sorted,
    }
}

/// A report in survey order lists its entries by bytes, largest first.
pub proof fn survey_order_sorted_by_bytes(out: Seq<SurveyEntry>, inp: Seq<SurveyEntry>, min_bytes: u64)
    requires
        survey_order(out, inp, min_bytes),
    ensures
        forall|k: int, l: int| 0 <= k < l < out.len() ==> (#[trigger] out[k]).bytes >= (#[trigger] out[l]).bytes,
{
}

/// A report in survey order holds no entry below the floor, and leaves out
/// no entry of the input that reaches it.
pub proof fn survey_order_respects_floor(out: Seq<SurveyEntry>, inp: Seq<SurveyEntry>, min_bytes: u64)
    requires
        survey_order(out, inp, min_bytes),
    ensures
        forall|k: int| 0 <= k < out.len() ==> (#[trigger] out[k]).bytes >= min_bytes,
        forall|j: int| 0 <= j < inp.len() && (#[trigger] inp[j]).bytes >= min_bytes ==> out.contains(inp[j]),
{
    let p = choose|p: Seq<int>| arranges(out, inp, min_bytes, p);
    assert forall|j: int| 0 <= j < inp.len() && (#[trigger] inp[j]).bytes >= min_bytes implies out.contains(inp[j]) by {
        let k = choose|k: int| 0 <= k < out.len() && p[k] == j;
        assert(out[k] == inp[j]);
    }
}

/// Every entry of a report in survey order is an entry of the input.
pub proof fn survey_order_draws_from_input(out: Seq<SurveyEntry>, inp: Seq<SurveyEntry>, min_bytes: u64)
    requires
        survey_order(out, inp, min_bytes),
    ensures
        forall|k: int| 0 <= k < out.len() ==> inp.contains(#[trigger] out[k]),
{
    let p = choose|p: Seq<int>| arranges(out, inp, min_bytes, p);
    assert forall|k: int| 0 <= k < out.len() implies inp.contains(#[trigger] out[k]) by {
        assert(inp[p[k]] == out[k]);
    }
}

/// `x` comes before `y` in the survey order of `inp`: it is larger, or it
/// is as large and earlier.
pub open spec fn ranks_before(inp: Seq<SurveyEntry>, x: int, y: int) -> bool {
    inp[x].bytes > inp[y].bytes || (inp[x].bytes == inp[y].bytes && x < y)
}

proof fn lemma_arranged_strictly_ranked(out: Seq<SurveyEntry>, inp: Seq<SurveyEntry>, min_bytes: u64, p: Seq<int>, k: int, l: int)
    requires
        arranges(out, inp, min_bytes, p),
        0 <= k < l < out.len(),
    ensures
        ranks_before(inp, p[k], p[l]),
{
    assert(out[k].bytes >= out[l].bytes);
    assert(p[k] != p[l]);
}

proof fn lemma_arranged_prefix_agrees(
    a: Seq<SurveyEntry>,
    b: Seq<SurveyEntry>,
    inp: Seq<SurveyEntry>,
    min_bytes: u64,
    pa: Seq<int>,
    pb: Seq<int>,
    k: int,
)
    requires
        arranges(a, inp, min_bytes, pa),
        arranges(b, inp, min_bytes, pb),
        0 <= k <= a.len(),
        k <= b.len(),
    ensures
        forall|m: int| 0 <= m < k ==> pa[m] == pb[m],
    decreases k,
{
    if k > 0 {
        lemma_arranged_prefix_agrees(a, b, inp, min_bytes, pa, pb, k - 1);
        let m = k - 1;
        if pa[m] != pb[m] {
            let x = pa[m];
            let y = pb[m];
            assert(inp[x].bytes >= min_bytes);
            assert(inp[y].bytes >= min_bytes);
            let mb = choose|q: int| 0 <= q < b.len() && pb[q] == x;
            let ma = choose|q: int| 0 <= q < a.len() && pa[q] == y;
            if mb < m {
                assert(pa[mb] == pb[mb]);
                assert(pa[mb] != pa[m]);
            }
            if ma < m {
                assert(pa[ma] == pb[ma]);
                assert(pb[ma] != pb[m]);
            }
            assert(mb > m);
            assert(ma > m);
            lemma_arranged_strictly_ranked(b, inp, min_bytes, pb, m, mb);
            lemma_arranged_strictly_ranked(a, inp, min_bytes, pa, m, ma);
        }
    }
}

/// The survey order of a list of entries under a floor is unique: any two
/// reports that both meet it list the same entries in the same order.
pub proof fn survey_order_is_unique(a: Seq<SurveyEntry>, b: Seq<SurveyEntry>, inp: Seq<SurveyEntry>, min_bytes: u64)
    requires
        survey_order(a, inp, min_bytes),
        survey_order(b, inp, min_bytes),
    ensures
        a == b,
{
    let pa = choose|p: Seq<int>| arranges(a, inp, min_bytes, p);
    let pb = choose|p: Seq<int>| arranges(b, inp, min_bytes, p);
    let n = if a.len() <= b.len() { a.len() as int } else { b.len() as int };
    lemma_arranged_prefix_agrees(a, b, inp, min_bytes, pa, pb, n);
    if a.len() < b.len() {
        let y = pb[n];
        assert(inp[y].bytes >= min_bytes);
        let q = choose|q: int| 0 <= q < a.len() && pa[q] == y;
        assert(pb[q] == y);
        assert(pb[q] != pb[n]);
    }
    if b.len() < a.len() {
        let x = pa[n];
        assert(inp[x].bytes >= min_bytes);
        let q = choose|q: int| 0 <= q < b.len() && pb[q] == x;
        assert(pa[q] == x);
        assert(pa[q] != pa[n]);
    }
    assert forall|k: int| 0 <= k < a.len() implies a[k] == b[k] by {
        assert(a[k] == inp[pa[k]]);
        assert(b[k] == inp[pb[k]]);
    }
    assert(a =~= b);
}

/// In a list sorted by bytes descending, the entries that reach `floor`
/// are exactly a prefix: the first `k` of them.
proof fn lemma_floor_splits_sorted(out: Seq<SurveyEntry>, floor: u64) -> (k: int)
    requires
        forall|x: int, y: int| 0 <= x < y < out.len() ==> (#[trigger] out[x]).bytes >= (#[trigger] out[y]).bytes,
    ensures
        0 <= k <= out.len(),
        forall|i: int| 0 <= i < k ==> (#[trigger] out[i]).bytes >= floor,
        forall|i: int| k <= i < out.len() ==> (#[trigger] out[i]).bytes < floor,
    decreases out.len(),
{
    if out.len() == 0 {
        0
    } else if out.last().bytes >= floor {
        assert forall|i: int| 0 <= i < out.len() implies (#[trigger] out[i]).bytes >= floor by {
            if i < out.len() - 1 {
                assert(out[i].bytes >= out[out.len() - 1].bytes);
            }
        }
        out.len() as int
    } else {
        let rest = out.drop_last();
        assert forall|x: int, y: int| 0 <= x < y < rest.len() implies (#[trigger] rest[x]).bytes >= (#[trigger] rest[y]).bytes by {
            assert(rest[x] == out[x] && rest[y] == out[y]);
        }
        let k = lemma_floor_splits_sorted(rest, floor);
        assert forall|i: int| 0 <= i < k implies (#[trigger] out[i]).bytes >= floor by {
            assert(rest[i] == out[i]);
        }
        assert forall|i: int| k <= i < out.len() implies (#[trigger] out[i]).bytes < floor by {
            if i < out.len() - 1 {
                assert(rest[i] == out[i]);
            }
        }
        k
    }
}

/// The first `k` entries of an arrangement under a lower floor, when they
/// are exactly those that reach a higher floor, arrange the input under the
/// higher floor.
#[verifier::spinoff_prover]
#[verifier::rlimit(40)]
proof fn lemma_prefix_arranges(
    low: Seq<SurveyEntry>,
    inp: Seq<SurveyEntry>,
    low_floor: u64,
    high_floor: u64,
    p: Seq<int>,
    k: int,
)
    requires
        low_floor <= high_floor,
        arranges(low, inp, low_floor, p),
        0 <= k <= low.len(),
        forall|i: int| 0 <= i < k ==> (#[trigger] low[i]).bytes >= high_floor,
        forall|i: int| k <= i < low.len() ==> (#[trigger] low[i]).bytes < high_floor,
    ensures
        arranges(low.take(k), inp, high_floor, p.take(k)),
{
    let pre = low.take(k);
    let pp = p.take(k);
    assert forall|j: int| 0 <= j < inp.len() && (#[trigger] inp[j]).bytes >= high_floor implies exists|q: int|
        0 <= q < pre.len() && pp[q] == j by {
        let q = choose|q: int| 0 <= q < low.len() && p[q] == j;
        assert(low[q] == inp[j]);
        assert(q < k);
        assert(pp[q] == j);
    }
    assert forall|x: int, y: int| 0 <= x < y < pre.len() && (#[trigger] pre[x]).bytes == (#[trigger] pre[y]).bytes
        implies pp[x] < pp[y] by {
        assert(pre[x] == low[x] && pre[y] == low[y]);
    }
    assert forall|x: int, y: int| 0 <= x < y < pre.len() implies (#[trigger] pre[x]).bytes >= (#[trigger] pre[y]).bytes by {
        assert(pre[x] == low[x] && pre[y] == low[y]);
    }
    assert forall|x: int, y: int| 0 <= x < y < pre.len() implies #[trigger] pp[x] != #[trigger] pp[y] by {
        assert(pp[x] == p[x] && pp[y] == p[y]);
    }
    assert forall|x: int| 0 <= x < pre.len() implies 0 <= #[trigger] pp[x] < inp.len() && pre[x] == inp[pp[x]] by {
        assert(pp[x] == p[x] && pre[x] == low[x]);
    }
    assert forall|x: int| 0 <= x < pre.len() implies (#[trigger] pre[x]).bytes >= high_floor by {
        assert(pre[x] == low[x]);
    }
}

/// Raising the floor only drops the smallest entries: the survey order of
/// a list under a higher floor is a prefix of its survey order under a lower
/// one, namely the entries of that order that reach the higher floor.
pub proof fn survey_order_floor_prefix(
    low: Seq<SurveyEntry>,
    high: Seq<SurveyEntry>,
    inp: Seq<SurveyEntry>,
    low_floor: u64,
    high_floor: u64,
)
    requires
        low_floor <= high_floor,
        survey_order(low, inp, low_floor),
        survey_order(high, inp, high_floor),
    ensures
        exists|k: int| {
            &&& 0 <= k <= low.len()
            &&& high == low.take(k)
            &&& forall|i: int| 0 <= i < k ==> (#[trigger] low[i]).bytes >= high_floor
            &&& forall|i: int| k <= i < low.len() ==> (#[trigger] low[i]).bytes < high_floor
        },
{
    let p = choose|p: Seq<int>| arranges(low, inp, low_floor, p);
    let k = lemma_floor_splits_sorted(low, high_floor);
    lemma_prefix_arranges(low, inp, low_floor, high_floor, p, k);
    survey_order_is_unique(high, low.take(k), inp, high_floor);
    assert(high == low.take(k));
}

} // verus!
