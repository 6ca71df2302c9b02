//! The textual graph codec: export to a line-oriented edge-list format, and
//! the parser that reads the same format back.
//!
//! The format is one header line, one line per edge of the exact shape
//! `    "<source>" -- "<target>" [label="<distance> m / <cost> gold",
//! len=<distance/10>];` and one closing line.  The importer trims each line,
//! accepts it only if it starts with a quote, contains `--` exactly once and
//! contains `[label=`, and silently skips anything else.  Every function here
//! is pinned to a spec mirror over character sequences.
use vstd::prelude::*;
use vstd::string::*;

use crate::entities::{Edge, JourneyInfo, TownM};

verus! {

/// The whitespace characters the codec trims.
pub open spec fn spec_is_space(c: char) -> bool {
    c == ' ' || c == '\t' || c == '\r' || c == '\n'
}

/// Executable mirror of `spec_is_space`.
pub fn is_space(c: char) -> (r: bool)
    ensures
        r == spec_is_space(c),
{
    c == ' ' || c == '\t' || c == '\r' || c == '\n'
}

/// Drop the longest prefix whose characters satisfy `p`.
pub open spec fn spec_drop_while(s: Seq<char>, p: spec_fn(char) -> bool) -> Seq<char>
    decreases s.len(),
{
    if s.len() > 0 && p(s[0]) {
        spec_drop_while(s.drop_first(), p)
    } else {
        s
    }
}

/// Drop the longest suffix whose characters satisfy `p`.
pub open spec fn spec_drop_end_while(s: Seq<char>, p: spec_fn(char) -> bool) -> Seq<char>
    decreases s.len(),
{
    if s.len() > 0 && p(s.last()) {
        spec_drop_end_while(s.drop_last(), p)
    } else {
        s
    }
}

/// The longest prefix whose characters satisfy `p`.
pub open spec fn spec_take_while(s: Seq<char>, p: spec_fn(char) -> bool) -> Seq<char>
    decreases s.len(),
{
    if s.len() > 0 && p(s[0]) {
        seq![s[0]] + spec_take_while(s.drop_first(), p)
    } else {
        Seq::empty()
    }
}

/// Dropping a satisfying prefix in one step or character by character agree.
pub proof fn lemma_drop_while_skip(s: Seq<char>, p: spec_fn(char) -> bool, i: int)
    requires
        0 <= i <= s.len(),
        forall|q: int| 0 <= q < i ==> p(#[trigger] s[q]),
    ensures
        spec_drop_while(s, p) == spec_drop_while(s.skip(i), p),
    decreases i,
{
    if i > 0 {
        assert(s.drop_first() =~= s.skip(1));
        assert(s.skip(1).skip(i - 1) =~= s.skip(i));
        lemma_drop_while_skip(s.skip(1), p, i - 1);
    } else {
        assert(s.skip(0) =~= s);
    }
}

/// A sequence whose first character fails `p` is left untouched.
pub proof fn lemma_drop_while_stop(s: Seq<char>, p: spec_fn(char) -> bool)
    requires
        s.len() == 0 || !p(s[0]),
    ensures
        spec_drop_while(s, p) == s,
{
}

/// Dropping a satisfying suffix in one step or character by character agree.
pub proof fn lemma_drop_end_while_take(s: Seq<char>, p: spec_fn(char) -> bool, i: int)
    requires
        0 <= i <= s.len(),
        forall|q: int| i <= q < s.len() ==> p(#[trigger] s[q]),
        i == 0 || !p(s[i - 1]),
    ensures
        spec_drop_end_while(s, p) == s.take(i),
    decreases s.len(),
{
    if s.len() == 0 {
        assert(s.take(0) =~= s);
    } else if p(s.last()) {
        assert(i < s.len());
        lemma_drop_end_while_take(s.drop_last(), p, i);
        assert(s.drop_last().take(i) =~= s.take(i));
    } else {
        assert(i == s.len());
        assert(s.take(i) =~= s);
    }
}

/// Taking a satisfying prefix in one step or character by character agree.
pub proof fn lemma_take_while_take(s: Seq<char>, p: spec_fn(char) -> bool, i: int)
    requires
        0 <= i <= s.len(),
        forall|q: int| 0 <= q < i ==> p(#[trigger] s[q]),
        i == s.len() || !p(s[i]),
    ensures
        spec_take_while(s, p) == s.take(i),
    decreases s.len(),
{
    if i == 0 {
        assert(s.take(0) =~= Seq::<char>::empty());
    } else {
        lemma_take_while_take(s.drop_first(), p, i - 1);
        assert(s.drop_first().take(i - 1) =~= s.take(i).drop_first());
        assert(seq![s[0]] + s.take(i).drop_first() =~= s.take(i));
    }
}

/// Trim the codec's whitespace from both ends.
pub open spec fn spec_trim(s: Seq<char>) -> Seq<char> {
    spec_drop_end_while(spec_drop_while(s, |c: char| spec_is_space(c)), |c: char| spec_is_space(c))
}

/// Trim whitespace from both ends of a string.
pub fn trim_str(s: &str) -> (r: String)
    ensures
        r@ == spec_trim(s@),
{
    let len = s.unicode_len();
    let sp = Ghost(|c: char| spec_is_space(c));
    let mut a: usize = 0;
    loop
        invariant_except_break
            a <= len,
            len == s@.len(),
            forall|q: int| 0 <= q < a ==> spec_is_space(#[trigger] s@[q]),
        ensures
            a <= s@.len(),
            forall|q: int| 0 <= q < a ==> spec_is_space(#[trigger] s@[q]),
            a == s@.len() || !spec_is_space(s@[a as int]),
        decreases len - a,
    {
        if a >= len {
            break ;
        }
        if !is_space(s.get_char(a)) {
            break ;
        }
        a = a + 1;
    }
    let mut b: usize = len;
    loop
        invariant_except_break
            a <= b <= len,
            len == s@.len(),
            forall|q: int| b <= q < len ==> spec_is_space(#[trigger] s@[q]),
        ensures
            a <= b <= s@.len(),
            forall|q: int| b <= q < s@.len() ==> spec_is_space(#[trigger] s@[q]),
            b == a || !spec_is_space(s@[b - 1]),
        decreases b,
    {
        if b <= a {
            break ;
        }
        if !is_space(s.get_char(b - 1)) {
            break ;
        }
        b = b - 1;
    }
    proof {
        lemma_drop_while_skip(s@, sp@, a as int);
        lemma_drop_while_stop(s@.skip(a as int), sp@);
        let t = s@.skip(a as int);
        lemma_drop_end_while_take(t, sp@, b - a);
        assert(t.take(b - a) =~= s@.subrange(a as int, b as int));
    }
    s.substring_char(a, b).to_owned()
}

/// Strip quote characters from both ends.
pub open spec fn spec_strip_quotes(s: Seq<char>) -> Seq<char> {
    spec_drop_end_while(spec_drop_while(s, |c: char| c == '"'), |c: char| c == '"')
}

/// Strip quote characters from both ends of a string.
pub fn strip_quotes(s: &str) -> (r: String)
    ensures
        r@ == spec_strip_quotes(s@),
{
    let len = s.unicode_len();
    let qp = Ghost(|c: char| c == '"');
    let mut a: usize = 0;
    loop
        invariant_except_break
            a <= len,
            len == s@.len(),
            forall|q: int| 0 <= q < a ==> #[trigger] s@[q] == '"',
        ensures
            a <= s@.len(),
            forall|q: int| 0 <= q < a ==> #[trigger] s@[q] == '"',
            a == s@.len() || s@[a as int] != '"',
        decreases len - a,
    {
        if a >= len {
            break ;
        }
        if s.get_char(a) != '"' {
            break ;
        }
        a = a + 1;
    }
    let mut b: usize = len;
    loop
        invariant_except_break
            a <= b <= len,
            len == s@.len(),
            forall|q: int| b <= q < len ==> #[trigger] s@[q] == '"',
        ensures
            a <= b <= s@.len(),
            forall|q: int| b <= q < s@.len() ==> #[trigger] s@[q] == '"',
            b == a || s@[b - 1] != '"',
        decreases b,
    {
        if b <= a {
            break ;
        }
        if s.get_char(b - 1) != '"' {
            break ;
        }
        b = b - 1;
    }
    proof {
        lemma_drop_while_skip(s@, qp@, a as int);
        lemma_drop_while_stop(s@.skip(a as int), qp@);
        let t = s@.skip(a as int);
        lemma_drop_end_while_take(t, qp@, b - a);
        assert(t.take(b - a) =~= s@.subrange(a as int, b as int));
    }
    s.substring_char(a, b).to_owned()
}

/// The first whitespace-delimited token of `s`, empty if there is none.
pub open spec fn spec_first_token(s: Seq<char>) -> Seq<char> {
    spec_take_while(
        spec_drop_while(s, |c: char| spec_is_space(c)),
        |c: char| !spec_is_space(c),
    )
}

/// Extract the first whitespace-delimited token of a string.
pub fn first_token(s: &str) -> (r: String)
    ensures
        r@ == spec_first_token(s@),
{
    let len = s.unicode_len();
    let sp = Ghost(|c: char| spec_is_space(c));
    let nsp = Ghost(|c: char| !spec_is_space(c));
    let mut a: usize = 0;
    loop
        invariant_except_break
            a <= len,
            len == s@.len(),
            forall|q: int| 0 <= q < a ==> spec_is_space(#[trigger] s@[q]),
        ensures
            a <= s@.len(),
            forall|q: int| 0 <= q < a ==> spec_is_space(#[trigger] s@[q]),
            a == s@.len() || !spec_is_space(s@[a as int]),
        decreases len - a,
    {
        if a >= len {
            break ;
        }
        if !is_space(s.get_char(a)) {
            break ;
        }
        a = a + 1;
    }
    let mut b: usize = a;
    loop
        invariant_except_break
            a <= b <= len,
            len == s@.len(),
            forall|q: int| a <= q < b ==> !spec_is_space(#[trigger] s@[q]),
        ensures
            a <= b <= s@.len(),
            forall|q: int| a <= q < b ==> !spec_is_space(#[trigger] s@[q]),
            b == s@.len() || spec_is_space(s@[b as int]),
        decreases len - b,
    {
        if b >= len {
            break ;
        }
        if is_space(s.get_char(b)) {
            break ;
        }
        b = b + 1;
    }
    proof {
        lemma_drop_while_skip(s@, sp@, a as int);
        lemma_drop_while_stop(s@.skip(a as int), sp@);
        let t = s@.skip(a as int);
        lemma_take_while_take(t, nsp@, b - a);
        assert(t.take(b - a) =~= s@.subrange(a as int, b as int));
    }
    s.substring_char(a, b).to_owned()
}

/// The first position at or after `i` where `pat` occurs in `s`.
pub open spec fn spec_find_sub_from(s: Seq<char>, pat: Seq<char>, i: nat) -> Option<int>
    decreases s.len() - i,
    when i <= s.len()
{
    if pat.len() == 0 {
        Some(i as int)
    } else if i + pat.len() > s.len() {
        None
    } else if s.subrange(i as int, i as int + pat.len() as int) == pat {
        Some(i as int)
    } else {
        spec_find_sub_from(s, pat, i + 1)
    }
}

/// Whether `pat` occurs at position `i` of `s`, checked character by
/// character.
fn matches_at(s: &str, s_len: usize, pat: &str, i: usize) -> (r: bool)
    requires
        s_len == s@.len(),
        i + pat@.len() <= s@.len(),
    ensures
        r == (s@.subrange(i as int, i + pat@.len()) == pat@),
{
    let plen = pat.unicode_len();
    let mut k: usize = 0;
    loop
        invariant_except_break
            k <= plen,
            plen == pat@.len(),
            s_len == s@.len(),
            i + plen <= s@.len(),
            forall|q: int| 0 <= q < k ==> #[trigger] s@[i + q] == pat@[q],
        ensures
            (k == plen && forall|q: int| 0 <= q < plen ==> #[trigger] s@[i + q] == pat@[q]) || (k
                < plen && s@[i + k] != pat@[k as int]),
        decreases plen - k,
    {
        if k >= plen {
            break ;
        }
        if s.get_char(i + k) != pat.get_char(k) {
            break ;
        }
        k = k + 1;
    }
    if k == plen {
        proof {
            assert forall|q: int|
                0 <= q < pat@.len() implies s@.subrange(i as int, i + pat@.len())[q] == pat@[q] by {
                assert(s@[i + q] == pat@[q]);
            }
            assert(s@.subrange(i as int, i + pat@.len()) =~= pat@);
        }
        true
    } else {
        proof {
            assert(s@.subrange(i as int, i + pat@.len())[k as int] == s@[i + k]);
        }
        false
    }
}

/// Find the first occurrence of `pat` at or after `from` in `s`.
pub fn find_sub_from(s: &str, pat: &str, from: usize) -> (r: Option<usize>)
    requires
        pat@.len() >= 1,
        from <= s@.len(),
    ensures
        match (spec_find_sub_from(s@, pat@, from as nat), r) {
            (Some(p), Some(p2)) => p == p2 as int,
            (None, None) => true,
            _ => false,
        },
        match r {
            Some(p2) => from <= p2 && p2 + pat@.len() <= s@.len(),
            None => true,
        },
{
    let s_len = s.unicode_len();
    let pat_len = pat.unicode_len();
    let mut i: usize = from;
    loop
        invariant_except_break
            from <= i <= s_len,
            s_len == s@.len(),
            pat_len == pat@.len(),
            pat@.len() >= 1,
            spec_find_sub_from(s@, pat@, from as nat) == spec_find_sub_from(s@, pat@, i as nat),
        ensures
            from <= i <= s@.len(),
            match spec_find_sub_from(s@, pat@, from as nat) {
                Some(p) => p == i as int && i + pat@.len() <= s@.len(),
                None => i + pat@.len() > s@.len(),
            },
        decreases s_len - i,
    {
        if pat_len > s_len - i {
            break ;
        }
        if matches_at(s, s_len, pat, i) {
            break ;
        }
        i = i + 1;
    }
    if pat_len <= s_len - i {
        Some(i)
    } else {
        None
    }
}

/// Find the first occurrence of the character `c` at or after `from`.
pub fn find_char_from(s: &str, c: char, from: usize) -> (r: Option<usize>)
    requires
        from <= s@.len(),
    ensures
        match (spec_find_sub_from(s@, seq![c], from as nat), r) {
            (Some(p), Some(p2)) => p == p2 as int,
            (None, None) => true,
            _ => false,
        },
        match r {
            Some(p2) => from <= p2 && p2 < s@.len(),
            None => true,
        },
{
    let s_len = s.unicode_len();
    let mut i: usize = from;
    loop
        invariant_except_break
            from <= i <= s_len,
            s_len == s@.len(),
            spec_find_sub_from(s@, seq![c], from as nat) == spec_find_sub_from(
                s@,
                seq![c],
                i as nat,
            ),
        ensures
            from <= i <= s@.len(),
            match spec_find_sub_from(s@, seq![c], from as nat) {
                Some(p) => i < s@.len() && p == i as int && s@[i as int] == c,
                None => i == s@.len(),
            },
        decreases s_len - i,
    {
        if i >= s_len {
            break ;
        }
        if s.get_char(i) == c {
            proof {
                assert(s@.subrange(i as int, i + 1) =~= seq![c]);
            }
            break ;
        }
        proof {
            assert(s@.subrange(i as int, i + 1) =~= seq![s@[i as int]]);
            assert(s@.subrange(i as int, i + 1) != seq![c]) by {
                assert(s@.subrange(i as int, i + 1)[0] == s@[i as int]);
                assert(seq![c][0] == c);
            }
        }
        i = i + 1;
    }
    if i < s_len {
        Some(i)
    } else {
        None
    }
}

/// A decimal digit.
pub open spec fn spec_is_digit(c: char) -> bool {
    '0' <= c && c <= '9'
}

/// The numeric value of a digit sequence, most significant first.
pub open spec fn spec_digits_val(s: Seq<char>) -> int
    decreases s.len(),
{
    if s.len() == 0 {
        0
    } else {
        spec_digits_val(s.drop_last()) * 10 + (s.last() as int - '0' as int)
    }
}

/// All characters are decimal digits.
pub open spec fn spec_all_digits(s: Seq<char>) -> bool {
    forall|k: int| 0 <= k < s.len() ==> spec_is_digit(#[trigger] s[k])
}

/// What `u32` parsing accepts: an optional leading `+`, then one or more
/// digits whose value fits in a `u32`.
pub open spec fn spec_parse_u32(s: Seq<char>) -> Option<u32> {
    let body = if s.len() > 0 && s[0] == '+' {
        s.drop_first()
    } else {
        s
    };
    if body.len() == 0 || !spec_all_digits(body) || spec_digits_val(body) > u32::MAX {
        None
    } else {
        Some(spec_digits_val(body) as u32)
    }
}

/// A digit sequence's value is non-negative and grows with its length.
pub proof fn lemma_digits_val_monotone(s: Seq<char>, i: int)
    requires
        spec_all_digits(s),
        0 <= i <= s.len(),
    ensures
        0 <= spec_digits_val(s.take(i)) <= spec_digits_val(s),
        spec_digits_val(s) >= 0,
    decreases s.len(),
{
    if s.len() == 0 {
        assert(s.take(i) =~= s);
    } else {
        assert(spec_all_digits(s.drop_last()));
        lemma_digits_val_monotone(s.drop_last(), if i <= s.len() - 1 {
            i
        } else {
            s.len() - 1
        });
        if i == s.len() {
            assert(s.take(i) =~= s);
        } else {
            assert(s.take(i) =~= s.drop_last().take(i));
        }
    }
}

/// Parse a `u32` as the standard library does: an optional leading `+`, one
/// or more digits, rejecting overflow.
pub fn parse_u32(s: &str) -> (r: Option<u32>)
    ensures
        r == spec_parse_u32(s@),
{
    let len = s.unicode_len();
    let start: usize = if len > 0 && s.get_char(0) == '+' {
        1
    } else {
        0
    };
    let ghost body = if s@.len() > 0 && s@[0] == '+' {
        s@.drop_first()
    } else {
        s@
    };
    proof {
        assert(body =~= s@.subrange(start as int, s@.len() as int));
    }
    if len == start {
        return None;
    }
    let mut acc: u64 = 0;
    let mut k: usize = start;
    while k < len
        invariant
            start <= k <= len,
            len == s@.len(),
            start == 1 ==> s@.len() > 0 && s@[0] == '+',
            start == 0 ==> !(s@.len() > 0 && s@[0] == '+'),
            body == s@.subrange(start as int, s@.len() as int),
            body == (if s@.len() > 0 && s@[0] == '+' {
                s@.drop_first()
            } else {
                s@
            }),
            spec_all_digits(body.take(k - start)),
            acc == spec_digits_val(body.take(k - start)),
            acc <= u32::MAX,
        decreases len - k,
    {
        let c = s.get_char(k);
        if !('0' <= c && c <= '9') {
            proof {
                assert(body[k - start] == c);
                assert(!spec_all_digits(body));
            }
            return None;
        }
        let d = (c as u32) - ('0' as u32);
        acc = acc * 10 + (d as u64);
        k = k + 1;
        proof {
            assert(body.take(k - start) =~= body.take(k - 1 - start).push(c));
            assert(body.take(k - start).drop_last() =~= body.take(k - 1 - start));
        }
        if acc > u32::MAX as u64 {
            proof {
                assert(spec_all_digits(body.take(k - start)));
                assert(spec_digits_val(body.take(k - start)) > u32::MAX);
                if spec_all_digits(body) {
                    lemma_digits_val_monotone_from(body, k - start);
                }
            }
            return None;
        }
    }
    proof {
        assert(body.take(len - start) =~= body);
    }
    Some(acc as u32)
}

/// A digit prefix never exceeds the whole sequence's value.
pub proof fn lemma_digits_val_monotone_from(s: Seq<char>, i: int)
    requires
        spec_all_digits(s),
        0 <= i <= s.len(),
    ensures
        spec_digits_val(s.take(i)) <= spec_digits_val(s),
{
    lemma_digits_val_monotone(s, i);
}

/// The decimal digit character for a value below ten.
pub open spec fn spec_digit_char(d: int) -> char {
    if d == 0 {
        '0'
    } else if d == 1 {
        '1'
    } else if d == 2 {
        '2'
    } else if d == 3 {
        '3'
    } else if d == 4 {
        '4'
    } else if d == 5 {
        '5'
    } else if d == 6 {
        '6'
    } else if d == 7 {
        '7'
    } else if d == 8 {
        '8'
    } else {
        '9'
    }
}

/// The decimal numeral of `n`, without leading zeros (`"0"` for zero).
pub open spec fn spec_dec_str(n: nat) -> Seq<char>
    decreases n,
{
    if n < 10 {
        seq![spec_digit_char(n as int)]
    } else {
        spec_dec_str(n / 10).push(spec_digit_char((n % 10) as int))
    }
}

/// The single-digit numerals.
fn digit_str(d: u32) -> (r: &'static str)
    requires
        d < 10,
    ensures
        r@ == seq![spec_digit_char(d as int)],
{
    proof {
        reveal_strlit("0");
        reveal_strlit("1");
        reveal_strlit("2");
        reveal_strlit("3");
        reveal_strlit("4");
        reveal_strlit("5");
        reveal_strlit("6");
        reveal_strlit("7");
        reveal_strlit("8");
        reveal_strlit("9");
    }
    let r = match d {
        0 => "0",
        1 => "1",
        2 => "2",
        3 => "3",
        4 => "4",
        5 => "5",
        6 => "6",
        7 => "7",
        8 => "8",
        _ => "9",
    };
    proof {
        assert(r@ =~= seq![spec_digit_char(d as int)]);
    }
    r
}

/// Render `n` in decimal.
pub fn u32_to_string(n: u32) -> (r: String)
    ensures
        r@ == spec_dec_str(n as nat),
    decreases n,
{
    if n < 10 {
        digit_str(n).to_owned()
    } else {
        let mut prefix = u32_to_string(n / 10);
        prefix.append(digit_str(n % 10));
        proof {
            assert(spec_dec_str((n / 10) as nat).push(spec_digit_char((n % 10) as int))
                =~= spec_dec_str((n / 10) as nat) + seq![spec_digit_char((n % 10) as int)]);
        }
        prefix
    }
}

/// A decimal numeral consists of digits alone.
pub proof fn lemma_dec_str_digits(n: nat)
    ensures
        spec_dec_str(n).len() >= 1,
        spec_all_digits(spec_dec_str(n)),
    decreases n,
{
    if n >= 10 {
        lemma_dec_str_digits(n / 10);
        assert forall|k: int|
            0 <= k < spec_dec_str(n).len() implies spec_is_digit(#[trigger] spec_dec_str(n)[k]) by {
            if k < spec_dec_str(n / 10).len() {
                assert(spec_dec_str(n)[k] == spec_dec_str(n / 10)[k]);
            }
        }
    }
}

/// A decimal numeral evaluates back to the value it was rendered from.
pub proof fn lemma_dec_str_val(n: nat)
    ensures
        spec_digits_val(spec_dec_str(n)) == n,
    decreases n,
{
    let s = spec_dec_str(n);
    if n < 10 {
        assert(s == seq![spec_digit_char(n as int)]);
        assert(s.last() == spec_digit_char(n as int));
        assert(s.drop_last() =~= Seq::<char>::empty());
        assert(spec_digits_val(s.drop_last()) == 0);
        assert(spec_digit_char(n as int) as int - '0' as int == n);
        assert(spec_digits_val(s) == spec_digits_val(s.drop_last()) * 10 + (s.last() as int
            - '0' as int));
    } else {
        lemma_dec_str_val(n / 10);
        assert(s == spec_dec_str(n / 10).push(spec_digit_char((n % 10) as int)));
        assert(s.last() == spec_digit_char((n % 10) as int));
        assert(s.drop_last() =~= spec_dec_str(n / 10));
        assert(spec_digit_char((n % 10) as int) as int - '0' as int == n % 10);
        assert(spec_digits_val(s) == spec_digits_val(s.drop_last()) * 10 + (s.last() as int
            - '0' as int));
        assert(spec_digits_val(s) == (n / 10) * 10 + n % 10);
    }
}

/// Rendering a value in decimal and parsing the numeral back is the
/// identity: the numeric half of the textual round trip.
pub proof fn lemma_numeral_round_trip(n: u32)
    ensures
        spec_parse_u32(spec_dec_str(n as nat)) == Some(n),
{
    let s = spec_dec_str(n as nat);
    lemma_dec_str_digits(n as nat);
    lemma_dec_str_val(n as nat);
    assert(s[0] != '+');
}

/// The `--` separator between the two town names of an edge line.
pub open spec fn spec_dashes() -> Seq<char> {
    seq!['-', '-']
}

/// The `[label=` marker an edge line must contain.
pub open spec fn spec_label_marker() -> Seq<char> {
    seq!['[', 'l', 'a', 'b', 'e', 'l', '=']
}

/// The `label="` prefix of the label value.
pub open spec fn spec_label_open() -> Seq<char> {
    seq!['l', 'a', 'b', 'e', 'l', '=', '"']
}

/// One line of the textual graph format, parsed into the quoted source name,
/// the quoted target name and the label text — or nothing, for any line that
/// does not have the expected shape.
pub open spec fn spec_parse_edge_line(line: Seq<char>) -> Option<(Seq<char>, Seq<char>, Seq<char>)> {
    let t = spec_trim(line);
    if t.len() == 0 || t[0] != '"' {
        None
    } else {
        match spec_find_sub_from(t, spec_dashes(), 0) {
            None => None,
            Some(p) => {
                if spec_find_sub_from(t, spec_label_marker(), 0) is None {
                    None
                } else if spec_find_sub_from(t, spec_dashes(), (p + 2) as nat) is Some {
                    None
                } else {
                    let source = spec_strip_quotes(spec_trim(t.take(p)));
                    let tal = spec_trim(t.skip(p + 2));
                    match spec_find_sub_from(tal, seq!['['], 0) {
                        None => None,
                        Some(te) => {
                            let target = spec_strip_quotes(spec_trim(tal.take(te)));
                            match spec_find_sub_from(tal, spec_label_open(), 0) {
                                None => None,
                                Some(ls0) => {
                                    let ls = ls0 + 7;
                                    match spec_find_sub_from(tal, seq!['"'], ls as nat) {
                                        None => None,
                                        Some(le) => Some(
                                            (source, target, spec_trim(tal.subrange(ls, le))),
                                        ),
                                    }
                                },
                            }
                        },
                    }
                }
            },
        }
    }
}

/// Parse one line of the textual graph format.  A line qualifies only if,
/// after trimming, it starts with a quote, contains `--` exactly once and
/// contains `[label=`; anything else yields nothing.
pub fn parse_edge_line(line: &str) -> (r: Option<(String, String, String)>)
    ensures
        match (spec_parse_edge_line(line@), r) {
            (Some((a, b, c)), Some(t)) => t.0@ == a && t.1@ == b && t.2@ == c,
            (None, None) => true,
            _ => false,
        },
{
    proof {
        reveal_strlit("--");
        reveal_strlit("[label=");
        reveal_strlit("label=\"");
        assert("--"@ =~= spec_dashes());
        assert("[label="@ =~= spec_label_marker());
        assert("label=\""@ =~= spec_label_open());
    }
    let t_string = trim_str(line);
    let t = t_string.as_str();
    let tlen = t.unicode_len();
    if tlen == 0 {
        return None;
    }
    if t.get_char(0) != '"' {
        return None;
    }
    let p = match find_sub_from(t, "--", 0) {
        Some(p) => p,
        None => {
            return None;
        },
    };
    match find_sub_from(t, "[label=", 0) {
        Some(_) => {},
        None => {
            return None;
        },
    }
    match find_sub_from(t, "--", p + 2) {
        Some(_) => {
            return None;
        },
        None => {},
    }
    let left = t.substring_char(0, p);
    let right = t.substring_char(p + 2, tlen);
    proof {
        assert(left@ =~= t@.take(p as int));
        assert(right@ =~= t@.skip(p + 2));
    }
    let source = strip_quotes(trim_str(left).as_str());
    let tal_string = trim_str(right);
    let tal = tal_string.as_str();
    let te = match find_char_from(tal, '[', 0) {
        Some(p2) => p2,
        None => {
            return None;
        },
    };
    let target = strip_quotes(trim_str(tal.substring_char(0, te)).as_str());
    proof {
        assert(tal@.subrange(0, te as int) =~= tal@.take(te as int));
    }
    let tal_len = tal.unicode_len();
    let ls0 = match find_sub_from(tal, "label=\"", 0) {
        Some(p2) => p2,
        None => {
            return None;
        },
    };
    let ls = ls0 + 7;
    let le = match find_char_from(tal, '"', ls) {
        Some(p2) => p2,
        None => {
            return None;
        },
    };
    let label = trim_str(tal.substring_char(ls, le));
    Some((source, target, label))
}

/// The attributes of one edge, parsed from a label of the shape
/// `"<distance> m / <cost> gold"`: the label splits on `/` into exactly two
/// halves, and the first whitespace-delimited token of each half is the
/// distance and the cost.
pub open spec fn spec_from_label(label: Seq<char>) -> Option<JourneyInfo> {
    match spec_find_sub_from(label, seq!['/'], 0) {
        None => None,
        Some(p) => {
            if spec_find_sub_from(label, seq!['/'], (p + 1) as nat) is Some {
                None
            } else {
                let ltok = spec_first_token(spec_trim(label.take(p)));
                let rtok = spec_first_token(spec_trim(label.skip(p + 1)));
                if ltok.len() == 0 || rtok.len() == 0 {
                    None
                } else {
                    match (spec_parse_u32(ltok), spec_parse_u32(rtok)) {
                        (Some(d), Some(c)) => Some(JourneyInfo { distance: d, cost: c }),
                        _ => None,
                    }
                }
            }
        },
    }
}

impl JourneyInfo {
    /// Parse the distance and cost out of an edge label.
    pub fn from_label(label: &str) -> (r: Option<JourneyInfo>)
        ensures
            r == spec_from_label(label@),
    {
        let len = label.unicode_len();
        let p = match find_char_from(label, '/', 0) {
            Some(p) => p,
            None => {
                return None;
            },
        };
        match find_char_from(label, '/', p + 1) {
            Some(_) => {
                return None;
            },
            None => {},
        }
        let left = label.substring_char(0, p);
        let right = label.substring_char(p + 1, len);
        proof {
            assert(left@ =~= label@.take(p as int));
            assert(right@ =~= label@.skip(p + 1));
        }
        let ltok = first_token(trim_str(left).as_str());
        let rtok = first_token(trim_str(right).as_str());
        if ltok.as_str().unicode_len() == 0 || rtok.as_str().unicode_len() == 0 {
            return None;
        }
        let d = match parse_u32(ltok.as_str()) {
            Some(d) => d,
            None => {
                return None;
            },
        };
        let c = match parse_u32(rtok.as_str()) {
            Some(c) => c,
            None => {
                return None;
            },
        };
        Some(JourneyInfo { distance: d, cost: c })
    }
}

/// The lines of a text, split on newline characters.
pub open spec fn spec_split_lines(s: Seq<char>) -> Seq<Seq<char>>
    decreases s.len(),
{
    match spec_find_sub_from(s, seq!['\n'], 0) {
        Some(p) => if 0 <= p < s.len() {
            seq![s.take(p)] + spec_split_lines(s.skip(p + 1))
        } else {
            seq![s]
        },
        None => seq![s],
    }
}

/// Split a text into its lines.
pub fn split_lines(text: &str) -> (r: Vec<String>)
    ensures
        r.deep_view() == spec_split_lines(text@),
{
    let mut rest: &str = text;
    let mut lines: Vec<String> = Vec::new();
    proof {
        assert(lines.deep_view() =~= Seq::<Seq<char>>::empty());
        assert(Seq::<Seq<char>>::empty() + spec_split_lines(rest@) =~= spec_split_lines(rest@));
    }
    loop
        invariant_except_break
            spec_split_lines(text@) == lines.deep_view() + spec_split_lines(rest@),
        ensures
            lines.deep_view() == spec_split_lines(text@),
        decreases rest@.len(),
    {
        let ghost lines_before = lines.deep_view();
        match find_char_from(rest, '\n', 0) {
            Some(p) => {
                let rlen = rest.unicode_len();
                lines.push(rest.substring_char(0, p).to_owned());
                proof {
                    assert(lines.deep_view() =~= lines_before.push(rest@.take(p as int)));
                    assert(rest@.subrange(0, p as int) =~= rest@.take(p as int));
                    assert((lines_before + (seq![rest@.take(p as int)] + spec_split_lines(
                        rest@.skip(p + 1),
                    ))) =~= lines_before.push(rest@.take(p as int)) + spec_split_lines(
                        rest@.skip(p + 1),
                    ));
                }
                let new_rest = rest.substring_char(p + 1, rlen);
                proof {
                    assert(new_rest@ =~= rest@.skip(p + 1));
                }
                rest = new_rest;
            },
            None => {
                lines.push(rest.to_owned());
                proof {
                    assert(lines.deep_view() =~= lines_before.push(rest@));
                    assert(lines_before + seq![rest@] =~= lines_before.push(rest@));
                }
                break ;
            },
        }
    }
    lines
}

/// A town as the importer first sees it: just a name.
#[derive(Debug, PartialEq)]
pub struct TownRaw {
    pub name: String,
}

impl DeepView for TownRaw {
    type V = Seq<char>;

    open spec fn deep_view(&self) -> Seq<char> {
        self.name@
    }
}

impl View for TownRaw {
    type V = Seq<char>;

    open spec fn view(&self) -> Seq<char> {
        self.deep_view()
    }
}

impl Clone for TownRaw {
    /// A clone carries the same name.
    fn clone(&self) -> (r: TownRaw)
        ensures
            r.deep_view() == self.deep_view(),
    {
        TownRaw { name: self.name.clone() }
    }
}

/// The raw import result: town names in order of first mention, and edges
/// between their positions.
pub struct RawGraph {
    pub towns: Vec<TownRaw>,
    pub edges: Vec<Edge>,
}

/// Model of a `RawGraph`.
pub ghost struct RawGraphM {
    pub towns: Seq<Seq<char>>,
    pub edges: Seq<Edge>,
}

impl DeepView for RawGraph {
    type V = RawGraphM;

    open spec fn deep_view(&self) -> RawGraphM {
        RawGraphM { towns: self.towns.deep_view(), edges: self.edges@ }
    }
}

impl View for RawGraph {
    type V = RawGraphM;

    open spec fn view(&self) -> RawGraphM {
        self.deep_view()
    }
}

impl RawGraphM {
    /// Every edge points at registered towns.
    pub open spec fn wf(self) -> bool {
        forall|k: int|
            0 <= k < self.edges.len() ==> (#[trigger] self.edges[k]).source < self.towns.len()
                && self.edges[k].target < self.towns.len()
    }
}

/// The first position of `name` among the registered names.
pub open spec fn spec_index_of(names: Seq<Seq<char>>, name: Seq<char>) -> Option<int>
    decreases names.len(),
{
    if names.len() == 0 {
        None
    } else if names[0] == name {
        Some(0)
    } else {
        match spec_index_of(names.drop_first(), name) {
            Some(i) => Some(i + 1),
            None => None,
        }
    }
}

/// Register a name: reuse its position on a repeat mention, append it on the
/// first.
pub open spec fn spec_register(names: Seq<Seq<char>>, name: Seq<char>) -> (Seq<Seq<char>>, int) {
    match spec_index_of(names, name) {
        Some(i) => (names, i),
        None => (names.push(name), names.len() as int),
    }
}

/// Find the first position of `name` among the registered towns.
fn index_of_name(towns: &Vec<TownRaw>, name: &String) -> (r: Option<usize>)
    ensures
        match (spec_index_of(towns.deep_view(), name@), r) {
            (Some(i), Some(i2)) => i == i2 as int && i2 < towns@.len(),
            (None, None) => true,
            _ => false,
        },
{
    let mut i: usize = 0;
    proof {
        assert(towns.deep_view().skip(0) =~= towns.deep_view());
    }
    while i < towns.len()
        invariant
            i <= towns@.len(),
            spec_index_of(towns.deep_view(), name@) == (match spec_index_of(
                towns.deep_view().skip(i as int),
                name@,
            ) {
                Some(p) => Some(p + i),
                None => None,
            }),
        decreases towns@.len() - i,
    {
        let ghost pre = towns.deep_view().skip(i as int);
        if towns[i].name == *name {
            proof {
                assert(pre[0] == towns.deep_view()[i as int]);
            }
            return Some(i);
        }
        i = i + 1;
        proof {
            assert(pre[0] == towns.deep_view()[i - 1]);
            assert(pre.drop_first() =~= towns.deep_view().skip(i as int));
        }
    }
    proof {
        assert(towns.deep_view().skip(i as int) =~= Seq::<Seq<char>>::empty());
    }
    None
}

/// One pass over the remaining lines: register the towns mentioned by each
/// well-formed edge line, and record its edge if the label parses.
pub open spec fn spec_parse_dot_rec(
    lines: Seq<Seq<char>>,
    k: int,
    towns: Seq<Seq<char>>,
    edges: Seq<Edge>,
) -> (Seq<Seq<char>>, Seq<Edge>)
    decreases lines.len() - k,
    when 0 <= k <= lines.len()
{
    if k >= lines.len() {
        (towns, edges)
    } else {
        match spec_parse_edge_line(lines[k]) {
            Some((src, tgt, lab)) => {
                let (t1, si) = spec_register(towns, src);
                let (t2, ti) = spec_register(t1, tgt);
                let edges2 = match spec_from_label(lab) {
                    Some(ji) => edges.push(
                        Edge { source: si as usize, target: ti as usize, info: ji },
                    ),
                    None => edges,
                };
                spec_parse_dot_rec(lines, k + 1, t2, edges2)
            },
            None => spec_parse_dot_rec(lines, k + 1, towns, edges),
        }
    }
}

/// The raw graph described by a text: towns registered on first mention in
/// file order, one edge per well-formed edge line, malformed lines silently
/// skipped.
pub open spec fn spec_parse_dot(text: Seq<char>) -> (Seq<Seq<char>>, Seq<Edge>) {
    spec_parse_dot_rec(spec_split_lines(text), 0, Seq::empty(), Seq::empty())
}

/// Parse a textual graph description into a raw town/edge graph.
#[verifier::loop_isolation(false)]
pub fn parse_dot(text: &str) -> (r: RawGraph)
    ensures
        (r@.towns, r@.edges) == spec_parse_dot(text@),
        r@.wf(),
{
    let lines = split_lines(text);
    let mut towns: Vec<TownRaw> = Vec::new();
    let mut edges: Vec<Edge> = Vec::new();
    let mut k: usize = 0;
    proof {
        assert(towns.deep_view() =~= Seq::<Seq<char>>::empty());
        assert(edges@ =~= Seq::<Edge>::empty());
    }
    while k < lines.len()
        invariant
            k <= lines@.len(),
            spec_parse_dot(text@) == spec_parse_dot_rec(
                lines.deep_view(),
                k as int,
                towns.deep_view(),
                edges@,
            ),
            forall|e: int|
                0 <= e < edges@.len() ==> (#[trigger] edges@[e]).source < towns@.len()
                    && edges@[e].target < towns@.len(),
        decreases lines@.len() - k,
    {
        let ghost towns_before = towns.deep_view();
        match parse_edge_line(lines[k].as_str()) {
            Some(parts) => {
                let (source, target, label) = parts;
                let si = match index_of_name(&towns, &source) {
                    Some(i) => i,
                    None => {
                        let i = towns.len();
                        towns.push(TownRaw { name: source });
                        proof {
                            assert(towns.deep_view() =~= towns_before.push(towns@[i as int]@));
                        }
                        i
                    },
                };
                let ghost towns_mid = towns.deep_view();
                let ti = match index_of_name(&towns, &target) {
                    Some(i) => i,
                    None => {
                        let i = towns.len();
                        towns.push(TownRaw { name: target });
                        proof {
                            assert(towns.deep_view() =~= towns_mid.push(towns@[i as int]@));
                        }
                        i
                    },
                };
                match JourneyInfo::from_label(label.as_str()) {
                    Some(ji) => {
                        edges.push(Edge { source: si, target: ti, info: ji });
                    },
                    None => {},
                }
            },
            None => {},
        }
        k = k + 1;
    }
    RawGraph { towns, edges }
}

/// The line the exporter writes for one edge; an edge pointing outside the
/// town list produces nothing.
pub open spec fn spec_edge_line(towns: Seq<TownM>, e: Edge) -> Seq<char> {
    if e.source < towns.len() && e.target < towns.len() {
        "    \""@ + towns[e.source as int].name + "\" -- \""@ + towns[e.target as int].name
            + "\" [label=\""@ + spec_dec_str(e.info.distance as nat) + " m / "@ + spec_dec_str(
            e.info.cost as nat,
        ) + " gold\", len="@ + spec_dec_str((e.info.distance / 10) as nat) + "];\n"@
    } else {
        Seq::empty()
    }
}

/// The edge lines from position `k` on.
pub open spec fn spec_dot_edges(towns: Seq<TownM>, es: Seq<Edge>, k: int) -> Seq<char>
    decreases es.len() - k,
    when 0 <= k <= es.len()
{
    if k >= es.len() {
        Seq::empty()
    } else {
        spec_edge_line(towns, es[k]) + spec_dot_edges(towns, es, k + 1)
    }
}

/// The full textual form of a graph: a header line, one line per edge, a
/// closing line.
pub open spec fn spec_graph_dot(g: crate::graph::TownGraphM) -> Seq<char> {
    "graph Towns {\n"@ + spec_dot_edges(g.towns, g.edges, 0) + "}\n"@
}

/// Serialize the graph to its textual edge-list form, edges in insertion
/// order.
#[verifier::loop_isolation(false)]
pub fn graph_to_dot(g: &crate::graph::TownGraph) -> (r: String)
    ensures
        r@ == spec_graph_dot(g@),
{
    let mut out = "graph Towns {\n".to_owned();
    let mut k: usize = 0;
    while k < g.edges.len()
        invariant
            k <= g.edges@.len(),
            spec_graph_dot(g@) == out@ + spec_dot_edges(g@.towns, g@.edges, k as int) + "}\n"@,
        decreases g.edges@.len() - k,
    {
        let ghost out_before = out@;
        let e = g.edges[k];
        if e.source < g.towns.len() && e.target < g.towns.len() {
            out.append("    \"");
            out.append(g.towns[e.source].name.as_str());
            out.append("\" -- \"");
            out.append(g.towns[e.target].name.as_str());
            out.append("\" [label=\"");
            let d = u32_to_string(e.info.distance);
            out.append(d.as_str());
            out.append(" m / ");
            let c = u32_to_string(e.info.cost);
            out.append(c.as_str());
            out.append(" gold\", len=");
            let l = u32_to_string(e.info.distance / 10);
            out.append(l.as_str());
            out.append("];\n");
            proof {
                assert(g@.towns[e.source as int].name == g.towns@[e.source as int].deep_view().name);
                assert(out@ =~= out_before + spec_edge_line(g@.towns, e));
            }
        } else {
            proof {
                assert(out@ =~= out_before + spec_edge_line(g@.towns, e));
            }
        }
        k = k + 1;
        proof {
            assert(out_before + (spec_edge_line(g@.towns, g@.edges[k - 1]) + spec_dot_edges(
                g@.towns,
                g@.edges,
                k as int,
            )) =~= (out_before + spec_edge_line(g@.towns, g@.edges[k - 1])) + spec_dot_edges(
                g@.towns,
                g@.edges,
                k as int,
            ));
        }
    }
    out.append("}\n");
    proof {
        assert(spec_dot_edges(g@.towns, g@.edges, g@.edges.len() as int) =~= Seq::<char>::empty());
        assert(out@ =~= "graph Towns {\n"@ + spec_dot_edges(g@.towns, g@.edges, 0) + "}\n"@);
    }
    out
}

} // verus!
