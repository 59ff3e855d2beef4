//! The line matcher: one forward pass over a source's lines, keeping each
//! line whose match status, flipped by the invert flag, is "included", and
//! formatting the kept lines with the source prefix used by multi-source
//! output.

use vstd::prelude::*;
use crate::included;
use crate::pattern::CompiledPattern;
use crate::pattern::regex_match;

verus! {

/// Whether a line is kept by the search: a pattern hit, flipped by the
/// invert flag.
pub open spec fn line_included(
    pattern: Seq<char>,
    insensitive: bool,
    invert: bool,
    line: Seq<char>,
) -> bool {
    included(regex_match(pattern, insensitive, line), invert)
}

/// A matched line as it is aggregated: prefixed with `<source>:` when more
/// than one source is being searched, bare otherwise.
pub open spec fn formatted(multiple: bool, source_id: Seq<char>, line: Seq<char>) -> Seq<char> {
    if multiple {
        source_id + seq![':'] + line
    } else {
        line
    }
}

/// The subsequence of `lines` that the search includes, in file order.
pub open spec fn included_lines(
    pattern: Seq<char>,
    insensitive: bool,
    invert: bool,
    lines: Seq<Seq<char>>,
) -> Seq<Seq<char>> {
    lines.filter(|l: Seq<char>| line_included(pattern, insensitive, invert, l))
}

/// What scanning one source yields: the included lines, in file order,
/// each formatted for aggregation.
pub open spec fn scan_spec(
    pattern: Seq<char>,
    insensitive: bool,
    invert: bool,
    multiple: bool,
    source_id: Seq<char>,
    lines: Seq<Seq<char>>,
) -> Seq<Seq<char>> {
    included_lines(pattern, insensitive, invert, lines).map_values(
        |l: Seq<char>| formatted(multiple, source_id, l),
    )
}

/// Law: running the matcher with the invert flag off and with it on
/// partitions any line set. Each line is included under exactly one of
/// the two settings; the two included subsequences are disjoint, together
/// they cover every line, and their lengths sum to the whole.
pub proof fn lemma_invert_partitions(
    pattern: Seq<char>,
    insensitive: bool,
    lines: Seq<Seq<char>>,
)
    ensures
        forall|t: int|
            0 <= t < lines.len() ==> (line_included(pattern, insensitive, false, #[trigger] lines[t])
                != line_included(pattern, insensitive, true, lines[t])),
        forall|l: Seq<char>|
            !(#[trigger] included_lines(pattern, insensitive, false, lines).contains(l)
                && #[trigger] included_lines(pattern, insensitive, true, lines).contains(l)),
        forall|t: int|
            0 <= t < lines.len() ==> (included_lines(pattern, insensitive, false, lines).contains(
                #[trigger] lines[t],
            ) || included_lines(pattern, insensitive, true, lines).contains(lines[t])),
        included_lines(pattern, insensitive, false, lines).len() + included_lines(
            pattern,
            insensitive,
            true,
            lines,
        ).len() == lines.len(),
{
    broadcast use vstd::seq_lib::group_filter_ensures;

    let keep = |l: Seq<char>| line_included(pattern, insensitive, false, l);
    let excl = |l: Seq<char>| line_included(pattern, insensitive, true, l);
    crate::seqfacts::lemma_filter_complement_len(lines, keep, excl);
    assert forall|l: Seq<char>|
        !(#[trigger] included_lines(pattern, insensitive, false, lines).contains(l)
            && #[trigger] included_lines(pattern, insensitive, true, lines).contains(l)) by {
        if included_lines(pattern, insensitive, false, lines).contains(l) && included_lines(
            pattern,
            insensitive,
            true,
            lines,
        ).contains(l) {
            let kept = lines.filter(keep);
            let dropped = lines.filter(excl);
            let i = choose|i: int| 0 <= i < kept.len() && kept[i] == l;
            let j = choose|j: int| 0 <= j < dropped.len() && dropped[j] == l;
            assert(keep(kept[i]));
            assert(excl(dropped[j]));
        }
    }
}

/// Scans the lines of one source, appending each included line, formatted,
/// to `matched`; lines already collected from earlier sources are kept.
pub fn scan_lines(
    pattern: &CompiledPattern,
    invert: bool,
    source_id: &str,
    multiple: bool,
    lines: &Vec<String>,
    matched: &mut Vec<String>,
)
    ensures
        final(matched).deep_view() == old(matched).deep_view() + scan_spec(
            pattern.pattern_view(),
            pattern.is_insensitive(),
            invert,
            multiple,
            source_id@,
            lines.deep_view(),
        ),
{
    let ghost pat = pattern.pattern_view();
    let ghost ins = pattern.is_insensitive();
    let ghost dv = lines.deep_view();
    let ghost pred = |l: Seq<char>| line_included(pat, ins, invert, l);
    let ghost fmt = |l: Seq<char>| formatted(multiple, source_id@, l);
    let mut i: usize = 0;
    while i < lines.len()
        invariant
            i <= lines.len(),
            dv == lines.deep_view(),
            pat == pattern.pattern_view(),
            ins == pattern.is_insensitive(),
            pred == (|l: Seq<char>| line_included(pat, ins, invert, l)),
            fmt == (|l: Seq<char>| formatted(multiple, source_id@, l)),
            matched.deep_view() == old(matched).deep_view() + dv.take(i as int).filter(
                pred,
            ).map_values(fmt),
        decreases lines.len() - i,
    {
        let line = &lines[i];
        let hit = pattern.is_match(line.as_str());
        proof {
            let prefix = dv.take(i as int);
            assert(dv.take(i + 1) =~= prefix.push(dv[i as int]));
            prefix.lemma_filter_push(dv[i as int], pred);
            prefix.filter(pred).lemma_push_map_commute(fmt, dv[i as int]);
        }
        if hit != invert {
            let mut row = String::new();
            if multiple {
                row.append(source_id);
                row.append(":");
            }
            row.append(line.as_str());
            proof {
                reveal_strlit(":");
                assert(":"@ =~= seq![':']);
                assert(row@ =~= fmt(dv[i as int]));
            }
            let ghost mdv = matched.deep_view();
            let ghost rview = row@;
            matched.push(row);
            proof {
                assert(matched.deep_view() =~= mdv.push(rview));
                assert(dv.take(i + 1).filter(pred).map_values(fmt) =~= dv.take(
                    i as int,
                ).filter(pred).map_values(fmt).push(fmt(dv[i as int])));
                assert(matched.deep_view() =~= old(matched).deep_view() + dv.take(
                    i + 1,
                ).filter(pred).map_values(fmt));
            }
        }
        i = i + 1;
    }
    proof {
        assert(dv.take(lines.len() as int) =~= dv);
    }
}

} // verus!
