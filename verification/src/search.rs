//! The whole pipeline over in-memory sources: scan every source's lines in
//! order, then aggregate. Reading the sources is I/O and happens outside
//! the library; it hands each source's identifier and lines over as plain
//! values.

use vstd::prelude::*;
use crate::aggregate::RenderedResult;
use crate::aggregate::aggregate;
use crate::aggregate::counts_match;
use crate::aggregate::listing;
use crate::aggregate::total;
use crate::matcher::scan_lines;
use crate::matcher::scan_spec;
use crate::pattern::CompiledPattern;
use crate::pattern::ConfigError;
use crate::pattern::pattern_compiles;

verus! {

/// The run's configuration, created once at startup and read-only after:
/// the pattern text, the four flags, and the path specifiers in order
/// (each `-`, a file path, or a directory path).
pub struct SearchConfig {
    pub pattern: String,
    pub insensitive: bool,
    pub invert: bool,
    pub count: bool,
    pub recursive: bool,
    pub paths: Vec<String>,
}

impl SearchConfig {
    /// Builds the run's matcher from the configured pattern text and case
    /// flag; invalid pattern text aborts the run before any source is
    /// read.
    pub fn compile(&self) -> (r: Result<CompiledPattern, ConfigError>)
        ensures
            r is Ok <==> pattern_compiles(self.pattern@, self.insensitive),
            r matches Ok(p) ==> p.pattern_view() == self.pattern@ && p.is_insensitive()
                == self.insensitive,
            r matches Err(e) ==> e == ConfigError::InvalidPattern,
    {
        CompiledPattern::compile(self.pattern.as_str(), self.insensitive)
    }
}

/// One readable source, already read: its identifier (a path, or `-` for
/// standard input) and its lines, terminators stripped.
pub struct SourceLines {
    pub id: String,
    pub lines: Vec<String>,
}

/// Every matched line of the run, in processing order: source by source,
/// in file order within a source.
pub open spec fn all_matched(
    pattern: Seq<char>,
    insensitive: bool,
    invert: bool,
    multiple: bool,
    sources: Seq<SourceLines>,
) -> Seq<Seq<char>>
    decreases sources.len(),
{
    if sources.len() == 0 {
        Seq::empty()
    } else {
        all_matched(pattern, insensitive, invert, multiple, sources.drop_last()) + scan_spec(
            pattern,
            insensitive,
            invert,
            multiple,
            sources.last().id@,
            sources.last().lines.deep_view(),
        )
    }
}

/// Runs the search over the given sources and renders the result.
/// Path prefixes are used exactly when more than one source is searched.
pub fn search_all(
    pattern: &CompiledPattern,
    invert: bool,
    count: bool,
    sources: &Vec<SourceLines>,
) -> (r: RenderedResult)
    ensures
        ({
            let matched = all_matched(
                pattern.pattern_view(),
                pattern.is_insensitive(),
                invert,
                sources@.len() > 1,
                sources@,
            );
            &&& (r is NoOutput <==> listing(matched).len() == 0)
            &&& (!count && listing(matched).len() > 0 ==> (r matches RenderedResult::Lines(v)
                && v.deep_view() == listing(matched)))
            &&& (count && sources@.len() <= 1 && listing(matched).len() > 0 ==> (r
                matches RenderedResult::Total(n) && n == total(matched)))
            &&& (count && sources@.len() > 1 && listing(matched).len() > 0 ==> (r
                matches RenderedResult::PerSource(cs) && counts_match(cs@, listing(matched))))
            &&& (r matches RenderedResult::Lines(v) ==> forall|t: int|
                0 <= t < v.deep_view().len() ==> (#[trigger] v.deep_view()[t]).len() != 0)
        }),
{
    let ghost pat = pattern.pattern_view();
    let ghost ins = pattern.is_insensitive();
    let multiple = sources.len() > 1;
    let mut matched: Vec<String> = Vec::new();
    let mut i: usize = 0;
    while i < sources.len()
        invariant
            i <= sources.len(),
            pat == pattern.pattern_view(),
            ins == pattern.is_insensitive(),
            multiple == (sources@.len() > 1),
            matched.deep_view() == all_matched(
                pat,
                ins,
                invert,
                multiple,
                sources@.take(i as int),
            ),
        decreases sources.len() - i,
    {
        let src = &sources[i];
        scan_lines(pattern, invert, src.id.as_str(), multiple, &src.lines, &mut matched);
        proof {
            assert(sources@.take(i + 1).drop_last() =~= sources@.take(i as int));
            assert(sources@.take(i + 1).last() == sources@[i as int]);
        }
        i = i + 1;
    }
    proof {
        assert(sources@.take(sources.len() as int) =~= sources@);
    }
    aggregate(&matched, multiple, count)
}

} // verus!
