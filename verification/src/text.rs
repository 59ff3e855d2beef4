//! Plain-text helpers shared by the utilities: decimal numerals (reading
//! and writing) and splitting on a separator character.

use vstd::prelude::*;

verus! {

/// A decimal digit character.
pub open spec fn is_digit(c: char) -> bool {
    '0' <= c && c <= '9'
}

/// Numeric value of a digit character.
pub open spec fn digit_val(c: char) -> nat {
    (c as nat - '0' as nat) as nat
}

/// Value of a digit string read in base ten.
pub open spec fn dec_value(s: Seq<char>) -> nat
    decreases s.len(),
{
    if s.len() == 0 {
        0
    } else {
        dec_value(s.drop_last()) * 10 + digit_val(s.last())
    }
}

/// Every character of `s` is a decimal digit.
pub open spec fn all_digits(s: Seq<char>) -> bool {
    forall|i: int| 0 <= i < s.len() ==> is_digit(#[trigger] s[i])
}

/// The digits of a numeral: an optional leading `+` is stripped.
pub open spec fn numeral_body(s: Seq<char>) -> Seq<char> {
    if s.len() > 0 && s[0] == '+' {
        s.drop_first()
    } else {
        s
    }
}

/// Whether `s` is a numeral the machine can read as a `usize`: after the
/// optional sign, at least one character, all digits, and a value that
/// fits.
pub open spec fn parses_as_usize(s: Seq<char>) -> bool {
    let b = numeral_body(s);
    b.len() > 0 && all_digits(b) && dec_value(b) <= usize::MAX
}

/// Reading more digits never shrinks the value.
proof fn lemma_dec_value_extend(s: Seq<char>, i: int)
    requires
        0 <= i <= s.len(),
    ensures
        dec_value(s.take(i)) <= dec_value(s),
    decreases s.len() - i,
{
    if i < s.len() {
        assert(s.take(i + 1).drop_last() =~= s.take(i));
        assert(s.take(i + 1).last() == s[i]);
        lemma_dec_value_extend(s, i + 1);
    } else {
        assert(s.take(i) =~= s);
    }
}

/// Reads a `usize` from decimal text: an optional leading `+`, then one
/// or more digits whose value fits. Anything else reads as nothing.
pub fn parse_usize(val: &str) -> (r: Option<usize>)
    ensures
        r is Some <==> parses_as_usize(val@),
        r matches Some(n) ==> n == dec_value(numeral_body(val@)),
{
    let n = val.unicode_len();
    let mut i: usize = 0;
    if n > 0 && val.get_char(0) == '+' {
        i = 1;
    }
    let ghost start = i as int;
    let ghost body = numeral_body(val@);
    proof {
        assert(body =~= val@.subrange(start, n as int));
    }
    if i == n {
        return None;
    }
    let mut acc: usize = 0;
    while i < n
        invariant
            n == val@.len(),
            0 <= start <= i <= n,
            body == numeral_body(val@),
            body =~= val@.subrange(start, n as int),
            acc == dec_value(val@.subrange(start, i as int)),
            all_digits(val@.subrange(start, i as int)),
        decreases n - i,
    {
        let c = val.get_char(i);
        let code = c as u32;
        if code < 48 || code > 57 {
            proof {
                assert(val@[i as int] == c);
                assert(body[i - start] == c);
                assert(!is_digit(c));
            }
            return None;
        }
        let d = (code - 48) as usize;
        let ghost sub = val@.subrange(start, i as int);
        let ghost sub1 = val@.subrange(start, i + 1);
        proof {
            assert(sub1.drop_last() =~= sub);
            assert(sub1.last() == c);
            assert(is_digit(c));
            assert(digit_val(c) == d);
            assert(dec_value(sub1) == dec_value(sub) * 10 + d);
        }
        let step = match acc.checked_mul(10) {
            Some(x) => x.checked_add(d),
            None => None,
        };
        match step {
            Some(next) => {
                acc = next;
            },
            None => {
                proof {
                    assert(dec_value(sub1) > usize::MAX);
                    assert(sub1 =~= body.take(i + 1 - start));
                    lemma_dec_value_extend(body, i + 1 - start);
                }
                return None;
            },
        }
        i = i + 1;
    }
    proof {
        assert(val@.subrange(start, n as int) =~= body);
    }
    Some(acc)
}

/// The digit character of a value below ten.
pub open spec fn digit_char(d: nat) -> char {
    if d == 0 {
        '0'
    } else if d == 1 {
        '1'
    } else if d == 2 {
        '2'
    } else if d == 3 {
        '3'
    } else if d == 4 {
        '4'
    } else if d == 5 {
        '5'
    } else if d == 6 {
        '6'
    } else if d == 7 {
        '7'
    } else if d == 8 {
        '8'
    } else {
        '9'
    }
}

/// The decimal numeral of `n`, most significant digit first.
pub open spec fn dec_str(n: nat) -> Seq<char>
    decreases n,
{
    if n < 10 {
        seq![digit_char(n)]
    } else {
        dec_str(n / 10) + seq![digit_char(n % 10)]
    }
}

fn digit_text(d: usize) -> (s: &'static str)
    requires
        d < 10,
    ensures
        s@ == seq![digit_char(d as nat)],
{
    let text = match d {
        0 => "0",
        1 => "1",
        2 => "2",
        3 => "3",
        4 => "4",
        5 => "5",
        6 => "6",
        7 => "7",
        8 => "8",
        _ => "9",
    };
    proof {
        reveal_strlit("0");
        reveal_strlit("1");
        reveal_strlit("2");
        reveal_strlit("3");
        reveal_strlit("4");
        reveal_strlit("5");
        reveal_strlit("6");
        reveal_strlit("7");
        reveal_strlit("8");
        reveal_strlit("9");
        assert(text@ =~= seq![digit_char(d as nat)]);
    }
    text
}

/// Writes `n` in decimal.
pub fn usize_to_string(n: usize) -> (s: String)
    ensures
        s@ == dec_str(n as nat),
    decreases n,
{
    let digit = digit_text(n % 10);
    if n < 10 {
        String::from_str(digit)
    } else {
        let mut s = usize_to_string(n / 10);
        s.append(digit);
        s
    }
}

/// Reads a positive integer from decimal text; any other text, zero
/// included, is reported back in an error message.
pub fn parse_positive_int(val: &str) -> (r: Result<usize, String>)
    ensures
        r is Ok <==> parses_as_usize(val@) && dec_value(numeral_body(val@)) > 0,
        r matches Ok(n) ==> n == dec_value(numeral_body(val@)) && n > 0,
        r matches Err(m) ==> m@ == "invalid value '"@ + val@ + "'"@,
{
    match parse_usize(val) {
        Some(n) => {
            if n > 0 {
                Ok(n)
            } else {
                Err(invalid_value_message(val))
            }
        },
        None => Err(invalid_value_message(val)),
    }
}

fn invalid_value_message(val: &str) -> (m: String)
    ensures
        m@ == "invalid value '"@ + val@ + "'"@,
{
    let mut m = String::from_str("invalid value '");
    m.append(val);
    m.append("'");
    m
}

/// `s` cut at every occurrence of `sep`: always one more part than there
/// are separators, and empty parts are kept.
pub open spec fn split_at_seps(s: Seq<char>, sep: char) -> Seq<Seq<char>>
    decreases s.len(),
{
    if s.len() == 0 {
        seq![Seq::<char>::empty()]
    } else if s.last() == sep {
        split_at_seps(s.drop_last(), sep).push(Seq::empty())
    } else {
        let prev = split_at_seps(s.drop_last(), sep);
        prev.update(prev.len() - 1, prev.last().push(s.last()))
    }
}

/// A split always has at least one part.
pub proof fn lemma_split_at_least_one(s: Seq<char>, sep: char)
    ensures
        split_at_seps(s, sep).len() >= 1,
    decreases s.len(),
{
    if s.len() > 0 {
        lemma_split_at_least_one(s.drop_last(), sep);
    }
}

/// Cuts `s` at every occurrence of `sep`.
pub fn split_on(s: &str, sep: char) -> (parts: Vec<String>)
    ensures
        parts.deep_view() == split_at_seps(s@, sep),
{
    let n = s.unicode_len();
    let mut parts: Vec<String> = Vec::new();
    let mut seg_start: usize = 0;
    let mut i: usize = 0;
    proof {
        assert(s@.take(0) =~= Seq::<char>::empty());
        assert(s@.subrange(0, 0) =~= Seq::<char>::empty());
        assert(parts.deep_view() =~= Seq::<Seq<char>>::empty());
        assert(split_at_seps(s@.take(0), sep) =~= parts.deep_view().push(s@.subrange(0, 0)));
    }
    while i < n
        invariant
            n == s@.len(),
            seg_start <= i <= n,
            split_at_seps(s@.take(i as int), sep) == parts.deep_view().push(
                s@.subrange(seg_start as int, i as int),
            ),
        decreases n - i,
    {
        let ghost prefix = s@.take(i as int);
        let ghost cur = s@.subrange(seg_start as int, i as int);
        let c = s.get_char(i);
        proof {
            assert(s@.take(i + 1).drop_last() =~= prefix);
            assert(s@.take(i + 1).last() == c);
        }
        if c == sep {
            let ghost before = parts.deep_view();
            parts.push(String::from_str(s.substring_char(seg_start, i)));
            seg_start = i + 1;
            proof {
                assert(parts.deep_view() =~= before.push(cur));
                assert(split_at_seps(s@.take(i + 1), sep) == split_at_seps(prefix, sep).push(
                    Seq::<char>::empty(),
                ));
                assert(s@.subrange(i + 1, i + 1) =~= Seq::<char>::empty());
                assert(split_at_seps(s@.take(i + 1), sep) =~= parts.deep_view().push(
                    s@.subrange(i + 1, i + 1),
                ));
            }
        } else {
            proof {
                let prev = split_at_seps(prefix, sep);
                assert(prev == parts.deep_view().push(cur));
                assert(prev.len() == parts.deep_view().len() + 1);
                assert(prev.last() == cur);
                assert(s@.subrange(seg_start as int, i + 1) =~= cur.push(c));
                assert(split_at_seps(s@.take(i + 1), sep) == prev.update(
                    prev.len() - 1,
                    cur.push(c),
                ));
                assert(prev.update(prev.len() - 1, cur.push(c)) =~= parts.deep_view().push(
                    s@.subrange(seg_start as int, i + 1),
                ));
            }
        }
        i = i + 1;
    }
    proof {
        assert(s@.take(n as int) =~= s@);
    }
    parts.push(String::from_str(s.substring_char(seg_start, n)));
    parts
}

/// Whether `c` occurs in `s`.
pub open spec fn has_char(s: Seq<char>, c: char) -> bool {
    exists|i: int| 0 <= i < s.len() && s[i] == c
}

/// Looks for one occurrence of `c` in `s`.
pub fn contains_char(s: &str, c: char) -> (r: bool)
    ensures
        r == has_char(s@, c),
{
    let n = s.unicode_len();
    let mut i: usize = 0;
    while i < n
        invariant
            n == s@.len(),
            i <= n,
            forall|j: int| 0 <= j < i ==> s@[j] != c,
        decreases n - i,
    {
        if s.get_char(i) == c {
            return true;
        }
        i = i + 1;
    }
    false
}

} // verus!
