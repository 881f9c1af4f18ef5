//! Small verified text utilities shared by the parsers and the reporter:
//! decimal rendering of counters, whitespace trimming, field splitting and
//! unsigned-integer parsing, all specified over `Seq<char>`.

use vstd::prelude::*;

verus! {

/// `c` is a decimal digit.
pub open spec fn spec_is_digit(c: char) -> bool {
    '0' <= c && c <= '9'
}

/// Numeric value of a digit character.
pub open spec fn spec_digit_val(c: char) -> nat {
    (c as nat - '0' as nat) as nat
}

/// The digit character for a value below ten.
pub open spec fn spec_digit_char(d: nat) -> char {
    if d == 0 {
        '0'
    } else if d == 1 {
        '1'
    } else if d == 2 {
        '2'
    } else if d == 3 {
        '3'
    } else if d == 4 {
        '4'
    } else if d == 5 {
        '5'
    } else if d == 6 {
        '6'
    } else if d == 7 {
        '7'
    } else if d == 8 {
        '8'
    } else {
        '9'
    }
}

/// Decimal representation of `n`, most significant digit first, with no
/// leading zeros (`0` is rendered as `"0"`).
pub open spec fn spec_dec(n: nat) -> Seq<char>
    decreases n,
{
    if n < 10 {
        seq![spec_digit_char(n)]
    } else {
        spec_dec(n / 10).push(spec_digit_char(n % 10))
    }
}

/// Relies on std's `String::push`: appends exactly one character.
#[verifier::external_body]
pub(crate) fn push_char(s: &mut String, c: char)
    ensures
        final(s)@ == old(s)@.push(c),
{
    s.push(c)
}

fn digit_char(d: u128) -> (c: char)
    requires
        d < 10,
    ensures
        c == spec_digit_char(d as nat),
{
    if d == 0 {
        '0'
    } else if d == 1 {
        '1'
    } else if d == 2 {
        '2'
    } else if d == 3 {
        '3'
    } else if d == 4 {
        '4'
    } else if d == 5 {
        '5'
    } else if d == 6 {
        '6'
    } else if d == 7 {
        '7'
    } else if d == 8 {
        '8'
    } else {
        '9'
    }
}

/// Renders `n` in decimal.
pub fn u128_to_string(n: u128) -> (s: String)
    ensures
        s@ == spec_dec(n as nat),
    decreases n,
{
    let d = digit_char(n % 10);
    if n < 10 {
        let mut s = String::new();
        push_char(&mut s, d);
        proof {
            assert(s@ =~= seq![spec_digit_char(n as nat)]);
        }
        s
    } else {
        let mut s = u128_to_string(n / 10);
        push_char(&mut s, d);
        s
    }
}

/// Value of a string of digit characters, most significant first.
pub open spec fn spec_digits_val(s: Seq<char>) -> nat
    decreases s.len(),
{
    if s.len() == 0 {
        0
    } else {
        spec_digits_val(s.drop_last()) * 10 + spec_digit_val(s.last())
    }
}

/// Every character of `s` is a decimal digit.
pub open spec fn spec_all_digits(s: Seq<char>) -> bool {
    forall|i: int| 0 <= i < s.len() ==> spec_is_digit(#[trigger] s[i])
}

/// The digits of a decimal numeral: everything after an optional leading `+`.
pub open spec fn spec_numeral_body(s: Seq<char>) -> Seq<char> {
    if s.len() > 0 && s[0] == '+' {
        s.skip(1)
    } else {
        s
    }
}

/// What `parse::<usize>` accepts on `s`: an optional leading `+`, then at
/// least one digit, and a value that fits in `usize`.
pub open spec fn spec_parse_usize(s: Seq<char>) -> Option<usize> {
    let body = spec_numeral_body(s);
    if body.len() > 0 && spec_all_digits(body) && spec_digits_val(body) <= usize::MAX as nat {
        Some(spec_digits_val(body) as usize)
    } else {
        None
    }
}

/// A digit string is worth at least as much as any of its prefixes.
proof fn lemma_digits_val_prefix_le(s: Seq<char>, i: int)
    requires
        0 <= i <= s.len(),
    ensures
        spec_digits_val(s.take(i)) <= spec_digits_val(s),
    decreases s.len() - i,
{
    if i == s.len() {
        assert(s.take(i) =~= s);
    } else {
        assert(s.take(i + 1).drop_last() =~= s.take(i));
        assert(s.take(i + 1).last() == s[i]);
        assert(spec_digits_val(s.take(i)) <= spec_digits_val(s.take(i)) * 10);
        lemma_digits_val_prefix_le(s, i + 1);
    }
}

/// Parses an unsigned decimal integer as `str::parse::<usize>` does:
/// an optional leading `+`, then one or more digits, rejecting overflow.
pub fn parse_usize(s: &str) -> (r: Option<usize>)
    ensures
        r == spec_parse_usize(s@),
{
    let len = s.unicode_len();
    let start: usize = if len > 0 && s.get_char(0) == '+' {
        1
    } else {
        0
    };
    let ghost body = s@.skip(start as int);
    proof {
        assert(s@.skip(0) =~= s@);
        assert(body == spec_numeral_body(s@));
        assert(body.take(0) =~= Seq::<char>::empty());
    }
    if len == start {
        return None;
    }
    let mut v: usize = 0;
    let mut i: usize = start;
    while i < len
        invariant
            start <= i <= len,
            start <= 1,
            len == s@.len(),
            body == s@.skip(start as int),
            body == spec_numeral_body(s@),
            body.len() == len - start,
            spec_all_digits(body.take(i - start)),
            v == spec_digits_val(body.take(i - start)),
        decreases len - i,
    {
        let c = s.get_char(i);
        if !('0' <= c && c <= '9') {
            proof {
                assert(body[i - start] == c);
                assert(!spec_all_digits(body));
            }
            return None;
        }
        let d: u32 = c as u32 - '0' as u32;
        let nv: u128 = (v as u128) * 10 + (d as u128);
        proof {
            assert(body.take(i + 1 - start).drop_last() =~= body.take(i - start));
            assert(body.take(i + 1 - start).last() == body[i - start]);
            assert(spec_digits_val(body.take(i + 1 - start)) == v * 10 + spec_digit_val(c));
        }
        if nv > usize::MAX as u128 {
            proof {
                lemma_digits_val_prefix_le(body, i + 1 - start);
            }
            return None;
        }
        v = nv as usize;
        i = i + 1;
    }
    proof {
        assert(body.take(len - start) =~= body);
    }
    Some(v)
}

/// Whitespace for trimming purposes: the ASCII whitespace characters.
pub open spec fn spec_is_space(c: char) -> bool {
    c == ' ' || c == '\t' || c == '\n' || c == '\r' || c == '\u{b}' || c == '\u{c}'
}

/// `s` with leading whitespace removed.
pub open spec fn spec_trim_start(s: Seq<char>) -> Seq<char>
    decreases s.len(),
{
    if s.len() > 0 && spec_is_space(s[0]) {
        spec_trim_start(s.skip(1))
    } else {
        s
    }
}

/// `s` with trailing whitespace removed.
pub open spec fn spec_trim_end(s: Seq<char>) -> Seq<char>
    decreases s.len(),
{
    if s.len() > 0 && spec_is_space(s.last()) {
        spec_trim_end(s.drop_last())
    } else {
        s
    }
}

/// `s` with whitespace removed from both ends.
pub open spec fn spec_trim(s: Seq<char>) -> Seq<char> {
    spec_trim_end(spec_trim_start(s))
}

fn is_space(c: char) -> (b: bool)
    ensures
        b == spec_is_space(c),
{
    c == ' ' || c == '\t' || c == '\n' || c == '\r' || c == '\u{b}' || c == '\u{c}'
}

/// Copies `s` without its leading and trailing whitespace.
pub fn trim_str(s: &str) -> (r: String)
    ensures
        r@ == spec_trim(s@),
{
    let len = s.unicode_len();
    let mut i: usize = 0;
    proof {
        assert(s@.skip(0) =~= s@);
    }
    while i < len && is_space(s.get_char(i))
        invariant
            0 <= i <= len,
            len == s@.len(),
            spec_trim_start(s@) == spec_trim_start(s@.skip(i as int)),
        decreases len - i,
    {
        proof {
            assert(s@.skip(i as int).skip(1) =~= s@.skip(i + 1));
        }
        i = i + 1;
    }
    proof {
        assert(spec_trim_start(s@) =~= s@.skip(i as int));
    }
    let mut j: usize = len;
    while j > i && is_space(s.get_char(j - 1))
        invariant
            i <= j <= len,
            len == s@.len(),
            spec_trim_start(s@) == s@.skip(i as int),
            spec_trim_end(s@.skip(i as int)) == spec_trim_end(s@.subrange(i as int, j as int)),
        decreases j,
    {
        proof {
            assert(s@.subrange(i as int, j as int).drop_last() =~= s@.subrange(
                i as int,
                j - 1,
            ));
            assert(s@.subrange(i as int, j as int).last() == s@[j - 1]);
        }
        j = j - 1;
    }
    proof {
        assert(spec_trim_end(s@.subrange(i as int, j as int)) =~= s@.subrange(
            i as int,
            j as int,
        ));
    }
    s.substring_char(i, j).to_owned()
}

/// The views of a sequence of owned strings.
pub open spec fn seq_views(v: Seq<String>) -> Seq<Seq<char>> {
    v.map_values(|x: String| x@)
}

/// Splitting `s` at every occurrence of `sep`, as `str::split` does: the
/// result always holds one more piece than there are separators, and the
/// split of the empty string is one empty piece.
pub open spec fn spec_split(s: Seq<char>, sep: char) -> Seq<Seq<char>>
    decreases s.len(),
{
    if s.len() == 0 {
        seq![Seq::<char>::empty()]
    } else if s[0] == sep {
        seq![Seq::<char>::empty()] + spec_split(s.skip(1), sep)
    } else {
        let rest = spec_split(s.skip(1), sep);
        seq![seq![s[0]] + rest[0]] + rest.skip(1)
    }
}

proof fn lemma_split_nonempty(s: Seq<char>, sep: char)
    ensures
        spec_split(s, sep).len() >= 1,
    decreases s.len(),
{
    if s.len() > 0 {
        lemma_split_nonempty(s.skip(1), sep);
    }
}

/// The pieces of the split, with `pre` glued onto the front of the first.
spec fn spec_prepend_first(parts: Seq<Seq<char>>, pre: Seq<char>) -> Seq<Seq<char>>
    recommends
        parts.len() >= 1,
{
    seq![pre + parts[0]] + parts.skip(1)
}

/// Splits `s` at every occurrence of `sep`.
pub fn split_str(s: &str, sep: char) -> (r: Vec<String>)
    ensures
        seq_views(r@) == spec_split(s@, sep),
{
    let len = s.unicode_len();
    let mut done: Vec<String> = Vec::new();
    let mut cur = String::new();
    let mut i: usize = 0;
    proof {
        lemma_split_nonempty(s@, sep);
        assert(s@.skip(0) =~= s@);
        let parts = spec_split(s@, sep);
        assert(cur@ + parts[0] =~= parts[0]);
        assert(spec_split(s@, sep) =~~= seq_views(done@) + spec_prepend_first(parts, cur@));
    }
    while i < len
        invariant
            0 <= i <= len,
            len == s@.len(),
            spec_split(s@.skip(i as int), sep).len() >= 1,
            spec_split(s@, sep) =~~= seq_views(done@) + spec_prepend_first(
                spec_split(s@.skip(i as int), sep),
                cur@,
            ),
        decreases len - i,
    {
        let c = s.get_char(i);
        let ghost tail = s@.skip(i as int);
        proof {
            assert(tail.len() > 0);
            assert(tail[0] == s@[i as int]);
            assert(tail.skip(1) =~= s@.skip(i + 1));
            lemma_split_nonempty(s@.skip(i + 1), sep);
        }
        if c == sep {
            let finished = cur;
            cur = String::new();
            done.push(finished);
            proof {
                assert(spec_split(tail, sep) =~= seq![Seq::<char>::empty()] + spec_split(
                    s@.skip(i + 1),
                    sep,
                ));
                assert(seq_views(done@) =~= seq_views(done@.drop_last()).push(finished@));
                assert(spec_split(s@, sep) =~~= seq_views(done@) + spec_prepend_first(
                    spec_split(s@.skip(i + 1), sep),
                    cur@,
                ));
            }
        } else {
            push_char(&mut cur, c);
            proof {
                let rest = spec_split(s@.skip(i + 1), sep);
                assert(spec_split(tail, sep) =~= seq![seq![tail[0]] + rest[0]] + rest.skip(1));
                assert(cur@ + rest[0] =~= (cur@.drop_last() + (seq![tail[0]] + rest[0])));
                assert(spec_split(s@, sep) =~~= seq_views(done@) + spec_prepend_first(
                    rest,
                    cur@,
                ));
            }
        }
        i = i + 1;
    }
    proof {
        assert(s@.skip(i as int) =~= Seq::<char>::empty());
    }
    done.push(cur);
    proof {
        assert(seq_views(done@) =~= seq_views(done@.drop_last()).push(done@.last()@));
        assert(seq_views(done@) =~~= spec_split(s@, sep));
    }
    done
}

} // verus!

