//! Position lists: the `1`, `3-5`-style selections the cut utility takes,
//! parsed into half-open index ranges.

use vstd::prelude::*;
use core::ops::Range;
use crate::text::contains_char;
use crate::text::dec_value;
use crate::text::has_char;
use crate::text::dec_str;
use crate::text::lemma_split_at_least_one;
use crate::text::numeral_body;
use crate::text::parse_usize;
use crate::text::parses_as_usize;
use crate::text::split_at_seps;
use crate::text::split_on;
use crate::text::usize_to_string;

verus! {

/// Which unit of each input line a selection extracts.
#[derive(Debug)]
pub enum Extract {
    Fields(Vec<Range<usize>>),
    Bytes(Vec<Range<usize>>),
    Chars(Vec<Range<usize>>),
}

/// The complaint about a malformed selection segment.
pub open spec fn illegal_msg(seg: Seq<char>) -> Seq<char> {
    "illegal list value: \""@ + seg + "\""@
}

/// The complaint about a selection that starts at zero.
pub open spec fn zero_msg() -> Seq<char> {
    "illegal list value: \"0\""@
}

/// The complaint about a range whose first number is not below its second.
pub open spec fn order_msg(a: nat, b: nat) -> Seq<char> {
    "First number in range ("@ + dec_str(a) + ") must be lower than second number ("@ + dec_str(
        b,
    ) + ")"@
}

/// What one comma-separated segment of a selection means: the bounds of a
/// half-open range, or the exact complaint. A segment is either one
/// positive number `n`, standing for the range from `n-1` to `n`, or
/// `a-b` with `a` below `b`, standing for the range from `a-1` to `b`.
pub open spec fn seg_parse(seg: Seq<char>) -> Result<(nat, nat), Seq<char>> {
    if has_char(seg, '+') {
        Err(illegal_msg(seg))
    } else {
        let parts = split_at_seps(seg, '-');
        if parts.len() > 2 {
            Err(illegal_msg(seg))
        } else if !parses_as_usize(parts[0]) {
            Err(illegal_msg(seg))
        } else if dec_value(numeral_body(parts[0])) == 0 {
            Err(zero_msg())
        } else {
            let first = dec_value(numeral_body(parts[0]));
            if parts.len() == 1 {
                Ok(((first - 1) as nat, first))
            } else if !parses_as_usize(parts[1]) {
                Err(illegal_msg(seg))
            } else if dec_value(numeral_body(parts[1])) <= first {
                Err(order_msg(first, dec_value(numeral_body(parts[1]))))
            } else {
                Ok(((first - 1) as nat, dec_value(numeral_body(parts[1]))))
            }
        }
    }
}

/// The segments' ranges in order, or the first segment's complaint.
pub open spec fn parse_segs(segs: Seq<Seq<char>>) -> Result<Seq<(nat, nat)>, Seq<char>>
    decreases segs.len(),
{
    if segs.len() == 0 {
        Ok(Seq::empty())
    } else {
        match seg_parse(segs[0]) {
            Err(m) => Err(m),
            Ok(b) => match parse_segs(segs.drop_first()) {
                Err(m) => Err(m),
                Ok(rest) => Ok(seq![b] + rest),
            },
        }
    }
}

/// What a whole selection means: its comma-separated segments' ranges in
/// order, or the first complaint.
pub open spec fn parse_pos_spec(s: Seq<char>) -> Result<Seq<(nat, nat)>, Seq<char>> {
    parse_segs(split_at_seps(s, ','))
}

/// The bounds of the ranges in `v`, as the spec-level pairs.
pub open spec fn pairs_of(v: Seq<Range<usize>>) -> Seq<(nat, nat)> {
    v.map_values(|r: Range<usize>| (r.start as nat, r.end as nat))
}

fn illegal_message(seg: &str) -> (m: String)
    ensures
        m@ == illegal_msg(seg@),
{
    let mut m = String::from_str("illegal list value: \"");
    m.append(seg);
    m.append("\"");
    m
}

fn order_message(a: usize, b: usize) -> (m: String)
    ensures
        m@ == order_msg(a as nat, b as nat),
{
    let sa = usize_to_string(a);
    let sb = usize_to_string(b);
    let mut m = String::from_str("First number in range (");
    m.append(sa.as_str());
    m.append(") must be lower than second number (");
    m.append(sb.as_str());
    m.append(")");
    m
}

fn parse_segment(seg: &String) -> (r: Result<Range<usize>, String>)
    ensures
        r is Ok <==> seg_parse(seg@) is Ok,
        r matches Ok(rg) ==> (seg_parse(seg@) matches Ok(b) && rg.start == b.0 && rg.end == b.1),
        r matches Err(e) ==> (seg_parse(seg@) matches Err(m) && e@ == m),
{
    if contains_char(seg.as_str(), '+') {
        return Err(illegal_message(seg.as_str()));
    }
    let parts = split_on(seg.as_str(), '-');
    proof {
        lemma_split_at_least_one(seg@, '-');
        assert(parts.deep_view()[0] == parts@[0]@);
    }
    if parts.len() > 2 {
        return Err(illegal_message(seg.as_str()));
    }
    match parse_usize(parts[0].as_str()) {
        None => Err(illegal_message(seg.as_str())),
        Some(first) => {
            if first == 0 {
                return Err(String::from_str("illegal list value: \"0\""));
            }
            if parts.len() == 1 {
                Ok(Range { start: first - 1, end: first })
            } else {
                proof {
                    assert(parts.deep_view()[1] == parts@[1]@);
                }
                match parse_usize(parts[1].as_str()) {
                    None => Err(illegal_message(seg.as_str())),
                    Some(second) => {
                        if second <= first {
                            Err(order_message(first, second))
                        } else {
                            Ok(Range { start: first - 1, end: second })
                        }
                    },
                }
            }
        },
    }
}

/// Parses a comma-separated selection such as `1,7,3-5` into half-open
/// ranges; numbering starts at one, and in `a-b` the first number must be
/// below the second. The first malformed segment's complaint is returned.
pub fn parse_pos(range: String) -> (r: Result<Vec<Range<usize>>, String>)
    ensures
        r is Ok <==> parse_pos_spec(range@) is Ok,
        r matches Ok(v) ==> (parse_pos_spec(range@) matches Ok(bs) && pairs_of(v@) == bs),
        r matches Err(e) ==> (parse_pos_spec(range@) matches Err(m) && e@ == m),
{
    let segs = split_on(range.as_str(), ',');
    let ghost sv = segs.deep_view();
    let mut out: Vec<Range<usize>> = Vec::new();
    let mut i: usize = 0;
    proof {
        assert(sv.skip(0) =~= sv);
        assert(pairs_of(out@) =~= Seq::<(nat, nat)>::empty());
    }
    while i < segs.len()
        invariant
            i <= segs.len(),
            sv == segs.deep_view(),
            sv == split_at_seps(range@, ','),
            parse_segs(sv.skip(i as int)) matches Ok(rest) ==> (parse_segs(sv) matches Ok(all)
                && all == pairs_of(out@) + rest),
            parse_segs(sv.skip(i as int)) matches Err(m) ==> (parse_segs(sv) matches Err(m2)
                && m2 == m),
        decreases segs.len() - i,
    {
        let ghost tail = sv.skip(i as int);
        proof {
            assert(tail.len() > 0);
            assert(tail[0] == sv[i as int]);
            assert(tail.drop_first() =~= sv.skip(i + 1));
            assert(sv[i as int] == segs@[i as int]@);
        }
        match parse_segment(&segs[i]) {
            Ok(rg) => {
                let ghost before = out@;
                out.push(rg);
                proof {
                    let b = seg_parse(tail[0])->Ok_0;
                    assert(out@ =~= before.push(rg));
                    assert(pairs_of(out@) =~= pairs_of(before).push((rg.start as nat, rg.end as nat)));
                    if parse_segs(sv.skip(i + 1)) is Ok {
                        let rest = parse_segs(sv.skip(i + 1))->Ok_0;
                        assert(parse_segs(tail) matches Ok(all0) && all0 == seq![b] + rest);
                        assert(pairs_of(before) + (seq![b] + rest) =~= pairs_of(out@) + rest);
                    }
                }
            },
            Err(e) => {
                proof {
                    assert(parse_segs(tail) matches Err(m) && e@ == m);
                }
                return Err(e);
            },
        }
        i = i + 1;
    }
    proof {
        assert(sv.skip(segs.len() as int) =~= Seq::<Seq<char>>::empty());
        assert(parse_segs(sv) matches Ok(all) && all == pairs_of(out@) + Seq::<(nat, nat)>::empty());
        assert(pairs_of(out@) + Seq::<(nat, nat)>::empty() =~= pairs_of(out@));
    }
    Ok(out)
}

} // verus!
