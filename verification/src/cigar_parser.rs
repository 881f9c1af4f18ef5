//! Grammar for the compact run-length alignment operator string: a sequence
//! of `(decimal digits)(letter)` pairs with no separators, where the letter
//! is one of `=` (claimed-equal run), `X` (claimed-differing run), `I`
//! (query-only run) and `D` (target-only run).

use vstd::prelude::*;

use crate::text::{
    spec_all_digits, spec_digits_val, spec_is_digit,
};

verus! {

/// One parsed alignment operation, carrying its run length.
#[derive(Debug, Clone, Copy, PartialEq, Eq, Structural)]
pub enum CigarOp {
    /// A run the operator string claims is identical on both sides.
    Match(u64),
    /// A run the operator string claims differs at every position.
    Mismatch(u64),
    /// A run that consumes query coordinates only.
    Insertion(u64),
    /// A run that consumes target coordinates only.
    Deletion(u64),
}

/// Why an operator string was rejected.
#[derive(Debug, Clone, Copy, PartialEq, Eq, Structural)]
pub enum GrammarError {
    /// A letter was reached with no preceding digits, or the digits do not
    /// fit in a 64-bit count.
    InvalidCount,
    /// A letter outside the recognized alphabet, carried along.
    UnknownOperator(char),
    /// The string ends in digits with no letter to consume them.
    TruncatedOperator,
}

/// The four recognized operator letters.
pub open spec fn spec_is_op_char(c: char) -> bool {
    c == '=' || c == 'X' || c == 'I' || c == 'D'
}

/// The operation a letter stands for, with run length `n`.
pub open spec fn spec_make_op(c: char, n: u64) -> CigarOp {
    if c == '=' {
        CigarOp::Match(n)
    } else if c == 'X' {
        CigarOp::Mismatch(n)
    } else if c == 'I' {
        CigarOp::Insertion(n)
    } else {
        CigarOp::Deletion(n)
    }
}

/// How many leading characters of `s` are digits.
pub open spec fn spec_digits_prefix_len(s: Seq<char>) -> nat
    decreases s.len(),
{
    if s.len() > 0 && spec_is_digit(s[0]) {
        1 + spec_digits_prefix_len(s.skip(1))
    } else {
        0
    }
}

/// The grammar: repeatedly take a non-empty digit prefix whose value fits in
/// `u64` and one recognized letter. The empty string is a valid empty
/// operator sequence. Errors are reported for the leftmost offending token:
/// a missing or overflowing count before an unrecognized letter, and a
/// trailing digit run with no letter as `TruncatedOperator`.
pub open spec fn spec_parse_cigar(s: Seq<char>) -> Result<Seq<CigarOp>, GrammarError>
    decreases s.len(),
    via spec_parse_cigar_decreases
{
    if s.len() == 0 {
        Ok(Seq::<CigarOp>::empty())
    } else {
        let k = spec_digits_prefix_len(s);
        if k == s.len() {
            Err(GrammarError::TruncatedOperator)
        } else {
            let c = s[k as int];
            if k == 0 || spec_digits_val(s.take(k as int)) > u64::MAX as nat {
                Err(GrammarError::InvalidCount)
            } else if !spec_is_op_char(c) {
                Err(GrammarError::UnknownOperator(c))
            } else {
                match spec_parse_cigar(s.skip(k as int + 1)) {
                    Ok(rest) => Ok(
                        seq![spec_make_op(c, spec_digits_val(s.take(k as int)) as u64)] + rest,
                    ),
                    Err(e) => Err(e),
                }
            }
        }
    }
}

#[via_fn]
proof fn spec_parse_cigar_decreases(s: Seq<char>) {
    lemma_digits_prefix_len_le(s);
}

proof fn lemma_digits_prefix_len_le(s: Seq<char>)
    ensures
        spec_digits_prefix_len(s) <= s.len(),
    decreases s.len(),
{
    if s.len() > 0 && spec_is_digit(s[0]) {
        lemma_digits_prefix_len_le(s.skip(1));
    }
}

proof fn lemma_digits_prefix_chars(s: Seq<char>, j: int)
    requires
        0 <= j < spec_digits_prefix_len(s),
    ensures
        j < s.len(),
        spec_is_digit(s[j]),
    decreases j,
{
    lemma_digits_prefix_len_le(s);
    if j > 0 {
        lemma_digits_prefix_chars(s.skip(1), j - 1);
    }
}

/// The digit prefix is exactly `k` when the first `k` characters are digits
/// and the character after them (if any) is not.
proof fn lemma_digits_prefix_len_is(s: Seq<char>, k: int)
    requires
        0 <= k <= s.len(),
        spec_all_digits(s.take(k)),
        k < s.len() ==> !spec_is_digit(s[k]),
    ensures
        spec_digits_prefix_len(s) == k,
    decreases k,
{
    if k == 0 {
        if s.len() > 0 {
            assert(!spec_is_digit(s[0]));
        }
    } else {
        assert(spec_is_digit(s.take(k)[0]));
        assert(s.skip(1).take(k - 1) =~= s.take(k).skip(1));
        assert(spec_all_digits(s.skip(1).take(k - 1))) by {
            assert forall|j: int| 0 <= j < k - 1 implies spec_is_digit(
                #[trigger] s.skip(1).take(k - 1)[j],
            ) by {
                assert(s.skip(1).take(k - 1)[j] == s.take(k)[j + 1]);
            }
        }
        lemma_digits_prefix_len_is(s.skip(1), k - 1);
    }
}

fn make_op(c: char, n: u64) -> (op: CigarOp)
    requires
        spec_is_op_char(c),
    ensures
        op == spec_make_op(c, n),
{
    if c == '=' {
        CigarOp::Match(n)
    } else if c == 'X' {
        CigarOp::Mismatch(n)
    } else if c == 'I' {
        CigarOp::Insertion(n)
    } else {
        CigarOp::Deletion(n)
    }
}

/// Parses the run-length operator string into its operation sequence, or
/// rejects it at the leftmost malformed token.
pub fn parse_cigar(cigar: &str) -> (r: Result<Vec<CigarOp>, GrammarError>)
    ensures
        match r {
            Ok(ops) => spec_parse_cigar(cigar@) == Ok::<_, GrammarError>(ops@),
            Err(e) => spec_parse_cigar(cigar@) == Err::<Seq<CigarOp>, _>(e),
        },
{
    let len = cigar.unicode_len();
    let mut ops: Vec<CigarOp> = Vec::new();
    let mut val: u64 = 0;
    let mut pending: usize = 0;
    let mut overflowed = false;
    let mut i: usize = 0;
    let mut tok_start: usize = 0;
    proof {
        assert(cigar@.skip(0) =~= cigar@);
        let p = spec_parse_cigar(cigar@);
        if p is Ok {
            assert(Seq::<CigarOp>::empty() + p->Ok_0 =~= p->Ok_0);
        }
    }
    while i < len
        invariant
            0 <= tok_start <= i <= len,
            len == cigar@.len(),
            pending == i - tok_start,
            spec_all_digits(cigar@.subrange(tok_start as int, i as int)),
            !overflowed ==> val == spec_digits_val(
                cigar@.subrange(tok_start as int, i as int),
            ),
            overflowed ==> spec_digits_val(cigar@.subrange(tok_start as int, i as int))
                > u64::MAX as nat,
            spec_parse_cigar(cigar@) == (match spec_parse_cigar(
                cigar@.skip(tok_start as int),
            ) {
                Ok(rest) => Ok::<Seq<CigarOp>, GrammarError>(ops@ + rest),
                Err(e) => Err::<Seq<CigarOp>, GrammarError>(e),
            }),
        decreases len - i,
    {
        let c = cigar.get_char(i);
        let ghost tok = cigar@.subrange(tok_start as int, i as int);
        let ghost tail = cigar@.skip(tok_start as int);
        proof {
            assert(tail.len() == len - tok_start);
            assert(tok =~= tail.take(i - tok_start));
            assert(tail[i - tok_start] == c);
        }
        if '0' <= c && c <= '9' {
            let d: u32 = c as u32 - '0' as u32;
            proof {
                let tok2 = cigar@.subrange(tok_start as int, i + 1);
                assert(tok2.drop_last() =~= tok);
                assert(tok2.last() == c);
                assert(spec_all_digits(tok2));
            }
            if overflowed {
                proof {
                    let tok2 = cigar@.subrange(tok_start as int, i + 1);
                    assert(spec_digits_val(tok2) >= spec_digits_val(tok) * 10);
                    assert(spec_digits_val(tok) * 10 >= spec_digits_val(tok));
                }
            } else {
                let nv: u128 = (val as u128) * 10 + (d as u128);
                if nv > u64::MAX as u128 {
                    overflowed = true;
                } else {
                    val = nv as u64;
                }
            }
            pending = pending + 1;
            i = i + 1;
        } else {
            if pending == 0 || overflowed {
                proof {
                    lemma_digits_prefix_len_is(tail, i - tok_start);
                }
                return Err(GrammarError::InvalidCount);
            }
            proof {
                lemma_digits_prefix_len_is(tail, i - tok_start);
            }
            if !(c == '=' || c == 'X' || c == 'I' || c == 'D') {
                return Err(GrammarError::UnknownOperator(c));
            }
            let op = make_op(c, val);
            let ghost ops_before = ops@;
            ops.push(op);
            proof {
                assert(tail.skip(i - tok_start + 1) =~= cigar@.skip(i + 1));
                let rest_parse = spec_parse_cigar(cigar@.skip(i + 1));
                if rest_parse is Ok {
                    let rest = rest_parse->Ok_0;
                    assert(ops@ + rest =~= ops_before + (seq![op] + rest));
                }
            }
            val = 0;
            pending = 0;
            tok_start = i + 1;
            i = i + 1;
            proof {
                assert(cigar@.subrange(tok_start as int, i as int) =~= Seq::<char>::empty());
            }
        }
    }
    if pending > 0 {
        proof {
            let tail = cigar@.skip(tok_start as int);
            assert(cigar@.subrange(tok_start as int, i as int) =~= tail.take(i - tok_start));
            lemma_digits_prefix_len_is(tail, i - tok_start);
        }
        return Err(GrammarError::TruncatedOperator);
    }
    proof {
        assert(cigar@.skip(tok_start as int) =~= Seq::<char>::empty());
        assert(ops@ + Seq::<CigarOp>::empty() =~= ops@);
    }
    Ok(ops)
}

/// The grammar rejects any string holding a letter outside the recognized
/// alphabet, wherever it stands.
pub proof fn lemma_grammar_rejects_unknown_letter(s: Seq<char>, i: int)
    requires
        0 <= i < s.len(),
        !spec_is_digit(s[i]),
        !spec_is_op_char(s[i]),
    ensures
        spec_parse_cigar(s).is_err(),
    decreases s.len(),
{
    let k = spec_digits_prefix_len(s);
    lemma_digits_prefix_len_le(s);
    if k < s.len() {
        if !(k == 0 || spec_digits_val(s.take(k as int)) > u64::MAX as nat)
            && spec_is_op_char(s[k as int]) {
            if i < k {
                lemma_digits_prefix_chars(s, i);
            } else {
                assert(i > k);
                let t = s.skip(k as int + 1);
                assert(t[i - k - 1] == s[i]);
                lemma_grammar_rejects_unknown_letter(t, i - k - 1);
            }
        }
    } else {
        lemma_digits_prefix_chars(s, i);
    }
}

/// The grammar rejects any operator letter with no digit immediately before
/// it: every run must carry an explicit count.
pub proof fn lemma_grammar_rejects_missing_count(s: Seq<char>, i: int)
    requires
        0 <= i < s.len(),
        spec_is_op_char(s[i]),
        i == 0 || !spec_is_digit(s[i - 1]),
    ensures
        spec_parse_cigar(s).is_err(),
    decreases s.len(),
{
    let k = spec_digits_prefix_len(s);
    lemma_digits_prefix_len_le(s);
    if k == s.len() {
        lemma_digits_prefix_chars(s, i);
    } else {
        if !(k == 0 || spec_digits_val(s.take(k as int)) > u64::MAX as nat)
            && spec_is_op_char(s[k as int]) {
            if i < k {
                lemma_digits_prefix_chars(s, i);
            } else if i == k {
                lemma_digits_prefix_chars(s, k - 1);
            } else {
                let t = s.skip(k as int + 1);
                assert(t[i - k - 1] == s[i]);
                if i - k - 1 > 0 {
                    assert(t[i - k - 2] == s[i - 1]);
                }
                lemma_grammar_rejects_missing_count(t, i - k - 1);
            }
        }
    }
}

} // verus!
