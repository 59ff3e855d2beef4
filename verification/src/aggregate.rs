//! The result aggregator: drops empty matched lines, then renders either
//! the full matched-line listing or counts. Multi-source counts are
//! computed after formatting, by grouping the prefixed lines on the text
//! before their first `:` separator.

use vstd::prelude::*;
use crate::seqfacts::lemma_filter_none;

verus! {

/// The text of `line` before its first `:`; the whole line when it has none.
/// This is the grouping key of multi-source count output.
pub open spec fn key_of(line: Seq<char>) -> Seq<char>
    decreases line.len(),
{
    if line.len() == 0 {
        line
    } else if line[0] == ':' {
        Seq::empty()
    } else {
        seq![line[0]] + key_of(line.drop_first())
    }
}

proof fn lemma_key_of_prefix(line: Seq<char>, i: int)
    requires
        0 <= i <= line.len(),
        forall|j: int| 0 <= j < i ==> line[j] != ':',
        i == line.len() || line[i] == ':',
    ensures
        key_of(line) == line.take(i),
    decreases i,
{
    if i == 0 {
        assert(key_of(line) =~= line.take(0));
    } else {
        lemma_key_of_prefix(line.drop_first(), i - 1);
        assert(seq![line[0]] + line.drop_first().take(i - 1) =~= line.take(i));
    }
}

/// The grouping key of one formatted matched line.
pub fn line_key(line: &str) -> (key: String)
    ensures
        key@ == key_of(line@),
{
    let n = line.unicode_len();
    let mut i: usize = 0;
    while i < n && line.get_char(i) != ':'
        invariant
            n == line@.len(),
            i <= n,
            forall|j: int| 0 <= j < i ==> line@[j] != ':',
        decreases n - i,
    {
        i = i + 1;
    }
    proof {
        lemma_key_of_prefix(line@, i as int);
    }
    String::from_str(line.substring_char(0, i))
}

/// The matched lines that survive the empty-line filter, in order.
pub open spec fn non_empty(lines: Seq<Seq<char>>) -> Seq<Seq<char>> {
    lines.filter(|l: Seq<char>| l.len() != 0)
}

/// What non-count mode emits: the non-empty matched lines, in order.
pub open spec fn listing(matched: Seq<Seq<char>>) -> Seq<Seq<char>> {
    non_empty(matched)
}

/// What single-source count mode emits: the number of non-empty matched
/// lines.
pub open spec fn total(matched: Seq<Seq<char>>) -> nat {
    non_empty(matched).len()
}

/// How many of `lines` carry the grouping key `key`.
pub open spec fn key_count(lines: Seq<Seq<char>>, key: Seq<char>) -> nat {
    lines.filter(|l: Seq<char>| key_of(l) == key).len()
}

/// Drops the matched lines that are empty; they are treated as "no
/// content" and never rendered.
pub fn keep_non_empty(lines: &Vec<String>) -> (kept: Vec<String>)
    ensures
        kept.deep_view() == non_empty(lines.deep_view()),
{
    let ghost dv = lines.deep_view();
    let ghost pred = |l: Seq<char>| l.len() != 0;
    let mut kept: Vec<String> = Vec::new();
    let mut i: usize = 0;
    while i < lines.len()
        invariant
            i <= lines.len(),
            dv == lines.deep_view(),
            pred == (|l: Seq<char>| l.len() != 0),
            kept.deep_view() == dv.take(i as int).filter(pred),
        decreases lines.len() - i,
    {
        proof {
            assert(dv.take(i + 1) =~= dv.take(i as int).push(dv[i as int]));
            dv.take(i as int).lemma_filter_push(dv[i as int], pred);
        }
        if !lines[i].as_str().is_empty() {
            let ghost before = kept.deep_view();
            kept.push(lines[i].clone());
            proof {
                assert(kept.deep_view() =~= before.push(dv[i as int]));
                assert(kept.deep_view() =~= dv.take(i + 1).filter(pred));
            }
        }
        i = i + 1;
    }
    proof {
        assert(dv.take(lines.len() as int) =~= dv);
    }
    kept
}

/// One line of multi-source count output: a grouping key and how many
/// matched lines carried it.
#[derive(Debug)]
pub struct SourceCount {
    pub key: String,
    pub count: usize,
}

/// The per-source counts are right for `lines`: each entry counts the
/// lines that carry its key, no key repeats, entries only report keys that
/// occur, and every line's key is reported. This pins the entries down as
/// a set; their order is deliberately left open.
pub open spec fn counts_match(cs: Seq<SourceCount>, lines: Seq<Seq<char>>) -> bool {
    &&& forall|t: int|
        0 <= t < cs.len() ==> (#[trigger] cs[t]).count == key_count(lines, cs[t].key@)
            && cs[t].count > 0
    &&& forall|t1: int, t2: int|
        0 <= t1 < t2 < cs.len() ==> (#[trigger] cs[t1]).key@ != (#[trigger] cs[t2]).key@
    &&& forall|t: int|
        0 <= t < lines.len() ==> exists|u: int|
            0 <= u < cs.len() && (#[trigger] cs[u]).key@ == key_of(#[trigger] lines[t])
}

fn find_key(counts: &Vec<SourceCount>, key: &String) -> (r: Option<usize>)
    ensures
        r matches Some(j) ==> j < counts@.len() && counts@[j as int].key@ == key@,
        r is None ==> forall|t: int| 0 <= t < counts@.len() ==> (#[trigger] counts@[t]).key@
            != key@,
{
    let mut j: usize = 0;
    while j < counts.len()
        invariant
            j <= counts@.len(),
            forall|t: int| 0 <= t < j ==> (#[trigger] counts@[t]).key@ != key@,
        decreases counts@.len() - j,
    {
        if counts[j].key == *key {
            return Some(j);
        }
        j = j + 1;
    }
    None
}

/// Groups the formatted matched lines by their key and counts each group.
pub fn count_by_key(lines: &Vec<String>) -> (counts: Vec<SourceCount>)
    ensures
        counts_match(counts@, lines.deep_view()),
{
    broadcast use vstd::seq_lib::group_filter_ensures;

    let ghost dv = lines.deep_view();
    let mut counts: Vec<SourceCount> = Vec::new();
    let mut i: usize = 0;
    while i < lines.len()
        invariant
            i <= lines.len(),
            dv == lines.deep_view(),
            counts_match(counts@, dv.take(i as int)),
        decreases lines.len() - i,
    {
        let k = line_key(lines[i].as_str());
        let ghost kv = k@;
        let ghost l = dv[i as int];
        let ghost prefix = dv.take(i as int);
        let ghost prefix1 = dv.take(i + 1);
        proof {
            assert(prefix1 =~= prefix.push(l));
            assert(kv == key_of(l));
        }
        match find_key(&counts, &k) {
            Some(j) => {
                let c = counts[j].count;
                let k2 = counts[j].key.clone();
                let ghost csold = counts@;
                proof {
                    assert(c == key_count(prefix, csold[j as int].key@));
                }
                counts[j] = SourceCount { key: k2, count: c + 1 };
                proof {
                    let cs = counts@;
                    let kj = csold[j as int].key@;
                    assert(cs[j as int].key@ == kj);
                    assert forall|t: int|
                        0 <= t < cs.len() implies (#[trigger] cs[t]).count == key_count(
                        prefix1,
                        cs[t].key@,
                    ) && cs[t].count > 0 by {
                        let pred = |x: Seq<char>| key_of(x) == cs[t].key@;
                        prefix.lemma_filter_push(l, pred);
                        if t == j {
                            assert(pred(l));
                            assert(prefix1.filter(pred) == prefix.filter(pred).push(l));
                        } else {
                            assert(cs[t] == csold[t]);
                            assert(cs[t].key@ != kj);
                            assert(!pred(l));
                            assert(prefix1.filter(pred) == prefix.filter(pred));
                        }
                    }
                    assert forall|t1: int, t2: int|
                        0 <= t1 < t2 < cs.len() implies (#[trigger] cs[t1]).key@ != (
                    #[trigger] cs[t2]).key@ by {
                        assert(cs[t1].key@ == csold[t1].key@);
                        assert(cs[t2].key@ == csold[t2].key@);
                    }
                    assert forall|t: int|
                        0 <= t < prefix1.len() implies exists|u: int|
                        0 <= u < cs.len() && (#[trigger] cs[u]).key@ == key_of(
                            #[trigger] prefix1[t],
                        ) by {
                        if t < prefix.len() {
                            assert(prefix1[t] == prefix[t]);
                            let u = choose|u: int|
                                0 <= u < csold.len() && (#[trigger] csold[u]).key@ == key_of(
                                    prefix[t],
                                );
                            assert(cs[u].key@ == csold[u].key@);
                            assert(cs[u].key@ == key_of(prefix1[t]));
                        } else {
                            assert(prefix1[t] == l);
                            assert(cs[j as int].key@ == key_of(l));
                        }
                    }
                }
            },
            None => {
                let ghost csold = counts@;
                counts.push(SourceCount { key: k, count: 1 });
                proof {
                    let cs = counts@;
                    assert(cs =~= csold.push(SourceCount { key: k, count: 1 }));
                    let newi = csold.len() as int;
                    assert(cs[newi].key@ == kv);
                    // no earlier line carries the new key
                    assert forall|t: int| 0 <= t < prefix.len() implies key_of(
                        #[trigger] prefix[t],
                    ) != kv by {
                        let u = choose|u: int|
                            0 <= u < csold.len() && (#[trigger] csold[u]).key@ == key_of(
                                prefix[t],
                            );
                    }
                    lemma_filter_none(prefix, |x: Seq<char>| key_of(x) == kv);
                    assert forall|t: int|
                        0 <= t < cs.len() implies (#[trigger] cs[t]).count == key_count(
                        prefix1,
                        cs[t].key@,
                    ) && cs[t].count > 0 by {
                        let pred = |x: Seq<char>| key_of(x) == cs[t].key@;
                        prefix.lemma_filter_push(l, pred);
                        if t == newi {
                            assert(pred(l));
                            assert(prefix.filter(pred) == Seq::<Seq<char>>::empty());
                            assert(prefix1.filter(pred) == prefix.filter(pred).push(l));
                            assert(prefix1.filter(pred).len() == 1);
                        } else {
                            assert(cs[t] == csold[t]);
                            assert(cs[t].key@ != kv);
                            assert(!pred(l));
                            assert(prefix1.filter(pred) == prefix.filter(pred));
                        }
                    }
                    assert forall|t: int|
                        0 <= t < prefix1.len() implies exists|u: int|
                        0 <= u < cs.len() && (#[trigger] cs[u]).key@ == key_of(
                            #[trigger] prefix1[t],
                        ) by {
                        if t < prefix.len() {
                            assert(prefix1[t] == prefix[t]);
                            let u = choose|u: int|
                                0 <= u < csold.len() && (#[trigger] csold[u]).key@ == key_of(
                                    prefix[t],
                                );
                            assert(cs[u].key@ == key_of(prefix1[t]));
                        } else {
                            assert(prefix1[t] == l);
                            assert(cs[newi].key@ == key_of(l));
                        }
                    }
                }
            },
        }
        i = i + 1;
    }
    proof {
        assert(dv.take(lines.len() as int) =~= dv);
    }
    counts
}

/// What one run renders: nothing at all, the full matched-line listing,
/// a single total, or one count per contributing source.
#[derive(Debug)]
pub enum RenderedResult {
    /// The filtered matched-line collection was empty: no output, no error.
    NoOutput,
    /// Non-count mode: every non-empty matched line, in processing order.
    Lines(Vec<String>),
    /// Count mode with one effective source: the matched-line count.
    Total(usize),
    /// Count mode with several sources: a count per contributing source.
    PerSource(Vec<SourceCount>),
}

/// Renders the aggregated matched lines. Empty lines are dropped first;
/// an empty collection renders as no output in every mode.
pub fn aggregate(matched: &Vec<String>, multiple: bool, count: bool) -> (r: RenderedResult)
    ensures
        r is NoOutput <==> listing(matched.deep_view()).len() == 0,
        !count && listing(matched.deep_view()).len() > 0 ==> (r matches RenderedResult::Lines(v)
            && v.deep_view() == listing(matched.deep_view())),
        count && !multiple && listing(matched.deep_view()).len() > 0 ==> (r
            matches RenderedResult::Total(n) && n == total(matched.deep_view())),
        count && multiple && listing(matched.deep_view()).len() > 0 ==> (r
            matches RenderedResult::PerSource(cs) && counts_match(
            cs@,
            listing(matched.deep_view()),
        )),
        r matches RenderedResult::Lines(v) ==> forall|t: int|
            0 <= t < v.deep_view().len() ==> (#[trigger] v.deep_view()[t]).len() != 0,
{
    broadcast use vstd::seq_lib::group_filter_ensures;

    let has = keep_non_empty(matched);
    if has.len() == 0 {
        RenderedResult::NoOutput
    } else if count {
        if multiple {
            RenderedResult::PerSource(count_by_key(&has))
        } else {
            RenderedResult::Total(has.len())
        }
    } else {
        RenderedResult::Lines(has)
    }
}

/// One rendered count line: the source key, a colon, and the count in
/// decimal.
pub open spec fn count_line(c: SourceCount) -> Seq<char> {
    c.key@ + seq![':'] + crate::text::dec_str(c.count as nat)
}

/// Renders per-source counts as `<source>:<count>` lines, in the order
/// the entries stand.
pub fn render_counts(cs: &Vec<SourceCount>) -> (out: Vec<String>)
    ensures
        out.deep_view() == cs@.map_values(|c: SourceCount| count_line(c)),
{
    let ghost cv = cs@;
    let ghost render = |c: SourceCount| count_line(c);
    let mut out: Vec<String> = Vec::new();
    let mut i: usize = 0;
    while i < cs.len()
        invariant
            i <= cs.len(),
            cv == cs@,
            render == (|c: SourceCount| count_line(c)),
            out.deep_view() == cv.take(i as int).map_values(render),
        decreases cs.len() - i,
    {
        let num = crate::text::usize_to_string(cs[i].count);
        let mut row = cs[i].key.clone();
        row.append(":");
        row.append(num.as_str());
        proof {
            reveal_strlit(":");
            assert(":"@ =~= seq![':']);
            assert(row@ =~= render(cv[i as int]));
            assert(cv.take(i + 1) =~= cv.take(i as int).push(cv[i as int]));
            cv.take(i as int).lemma_push_map_commute(render, cv[i as int]);
        }
        let ghost before = out.deep_view();
        out.push(row);
        proof {
            assert(out.deep_view() =~= before.push(render(cv[i as int])));
            assert(out.deep_view() =~= cv.take(i + 1).map_values(render));
        }
        i = i + 1;
    }
    proof {
        assert(cv.take(cs.len() as int) =~= cv);
    }
    out
}

/// The listing as one block of text: the lines with a newline between
/// each adjacent pair.
pub open spec fn joined(lines: Seq<Seq<char>>) -> Seq<char>
    decreases lines.len(),
{
    if lines.len() == 0 {
        Seq::empty()
    } else if lines.len() == 1 {
        lines[0]
    } else {
        joined(lines.drop_last()) + seq!['\n'] + lines.last()
    }
}

/// Joins the listing's lines with newlines, ready to print as one block.
pub fn join_lines(lines: &Vec<String>) -> (out: String)
    ensures
        out@ == joined(lines.deep_view()),
{
    let ghost dv = lines.deep_view();
    let mut out = String::new();
    let mut i: usize = 0;
    while i < lines.len()
        invariant
            i <= lines.len(),
            dv == lines.deep_view(),
            out@ == joined(dv.take(i as int)),
        decreases lines.len() - i,
    {
        if i > 0 {
            out.append("\n");
        }
        out.append(lines[i].as_str());
        proof {
            reveal_strlit("\n");
            assert("\n"@ =~= seq!['\n']);
            assert(dv.take(i + 1).drop_last() =~= dv.take(i as int));
            assert(dv.take(i + 1).last() == dv[i as int]);
            if i == 0 {
                assert(out@ =~= joined(dv.take(1)));
            }
        }
        i = i + 1;
    }
    proof {
        assert(dv.take(lines.len() as int) =~= dv);
    }
    out
}

/// Law: the total that count mode reports for a single source equals the
/// length of the listing that non-count mode emits for the same matched
/// lines.
pub proof fn lemma_total_is_listing_len(matched: Seq<Seq<char>>)
    ensures
        total(matched) == listing(matched).len(),
{
}

} // verus!
