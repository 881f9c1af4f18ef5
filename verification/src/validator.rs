//! The validation core: normalizes the two fetched windows for strand and
//! case, walks the parsed operator sequence over them with a pair of
//! monotone cursors, collects every disagreement between claim and sequence
//! as a typed finding, and reports the findings under one of two policies.

use vstd::prelude::*;

use crate::cigar_parser::{CigarOp, GrammarError, parse_cigar, spec_parse_cigar};
use crate::fasta_reader::{FetchError, MultiFastaReader, pair_views, spec_fetch};
use crate::paf_parser::PafRecord;
use crate::text::{push_char, seq_views, spec_dec, u128_to_string};

verus! {

/// The kind of one finding.
#[derive(Debug, Clone, Copy, PartialEq, Eq, Hash, Structural)]
pub enum ErrorType {
    /// A claimed-equal position where the windows differ.
    Mismatch,
    /// A cursor did not land exactly on its window end.
    LengthMismatch,
    /// A claimed-differing position where the windows agree.
    CigarMismatch,
}

/// One finding: its kind and its human-readable message.
#[derive(Debug, Clone)]
pub struct ErrorInfo {
    pub kind: ErrorType,
    pub message: String,
}

impl View for ErrorInfo {
    type V = (ErrorType, Seq<char>);

    open spec fn view(&self) -> (ErrorType, Seq<char>) {
        (self.kind, self.message@)
    }
}

/// The views of a list of findings.
pub open spec fn info_views(infos: Seq<ErrorInfo>) -> Seq<(ErrorType, Seq<char>)> {
    infos.map_values(|e: ErrorInfo| e@)
}

/// All findings of one record, in traversal order, surfaced when the
/// reporting policy treats findings as a failure.
#[derive(Debug)]
pub struct ValidationError {
    pub errors: Vec<ErrorInfo>,
}

/// A window too short for a comparison run: the record's declared span does
/// not match what was fetched, which aborts the record.
#[derive(Debug, Clone, Copy, PartialEq, Eq, Structural)]
pub enum WalkError {
    QueryOutOfRange,
    TargetOutOfRange,
}

/// Which side of the comparison an error concerns.
#[derive(Debug, Clone, Copy, PartialEq, Eq, Structural)]
pub enum Side {
    Query,
    Target,
}

/// Why validating one record failed.
#[derive(Debug)]
pub enum RecordError {
    /// A window could not be fetched, with the side and coordinates.
    Fetch { side: Side, start: usize, end: usize, error: FetchError },
    /// The operator string is malformed.
    Grammar(GrammarError),
    /// A comparison run walked past the end of a window.
    OutOfRange(WalkError),
    /// The record has findings and the policy fails on findings.
    Invalid(ValidationError),
}

/// The complement of a base, uppercased: bases outside the four (and `N`)
/// map to `N`.
pub open spec fn spec_complement(c: char) -> char {
    if c == 'A' || c == 'a' {
        'T'
    } else if c == 'T' || c == 't' {
        'A'
    } else if c == 'G' || c == 'g' {
        'C'
    } else if c == 'C' || c == 'c' {
        'G'
    } else {
        'N'
    }
}

/// The window read backwards with every base complemented.
pub open spec fn spec_rc(s: Seq<char>) -> Seq<char> {
    Seq::new(s.len(), |i: int| spec_complement(s[s.len() - 1 - i]))
}

fn complement_char(c: char) -> (r: char)
    ensures
        r == spec_complement(c),
{
    match c {
        'A' | 'a' => 'T',
        'T' | 't' => 'A',
        'G' | 'g' => 'C',
        'C' | 'c' => 'G',
        _ => 'N',
    }
}

/// Reverses the window and complements each base, mapping anything outside
/// `{A, C, G, T, N}` (either case) to `N`.
pub fn reverse_complement(seq: &str) -> (r: String)
    ensures
        r@ == spec_rc(seq@),
{
    let len = seq.unicode_len();
    let mut r = String::new();
    let mut i: usize = 0;
    while i < len
        invariant
            0 <= i <= len,
            len == seq@.len(),
            r@.len() == i,
            forall|j: int|
                0 <= j < i ==> r@[j] == spec_complement(seq@[len - 1 - j]),
        decreases len - i,
    {
        let c = complement_char(seq.get_char(len - 1 - i));
        push_char(&mut r, c);
        i = i + 1;
    }
    proof {
        assert(r@ =~= spec_rc(seq@));
    }
    r
}

/// An ASCII letter uppercased; everything else unchanged.
pub open spec fn spec_upper_char(c: char) -> char {
    if c == 'a' {
        'A'
    } else if c == 'b' {
        'B'
    } else if c == 'c' {
        'C'
    } else if c == 'd' {
        'D'
    } else if c == 'e' {
        'E'
    } else if c == 'f' {
        'F'
    } else if c == 'g' {
        'G'
    } else if c == 'h' {
        'H'
    } else if c == 'i' {
        'I'
    } else if c == 'j' {
        'J'
    } else if c == 'k' {
        'K'
    } else if c == 'l' {
        'L'
    } else if c == 'm' {
        'M'
    } else if c == 'n' {
        'N'
    } else if c == 'o' {
        'O'
    } else if c == 'p' {
        'P'
    } else if c == 'q' {
        'Q'
    } else if c == 'r' {
        'R'
    } else if c == 's' {
        'S'
    } else if c == 't' {
        'T'
    } else if c == 'u' {
        'U'
    } else if c == 'v' {
        'V'
    } else if c == 'w' {
        'W'
    } else if c == 'x' {
        'X'
    } else if c == 'y' {
        'Y'
    } else if c == 'z' {
        'Z'
    } else {
        c
    }
}

/// The window with every ASCII letter uppercased.
pub open spec fn spec_upper(s: Seq<char>) -> Seq<char> {
    s.map_values(|c: char| spec_upper_char(c))
}

fn upper_char(c: char) -> (r: char)
    ensures
        r == spec_upper_char(c),
{
    match c {
        'a' => 'A',
        'b' => 'B',
        'c' => 'C',
        'd' => 'D',
        'e' => 'E',
        'f' => 'F',
        'g' => 'G',
        'h' => 'H',
        'i' => 'I',
        'j' => 'J',
        'k' => 'K',
        'l' => 'L',
        'm' => 'M',
        'n' => 'N',
        'o' => 'O',
        'p' => 'P',
        'q' => 'Q',
        'r' => 'R',
        's' => 'S',
        't' => 'T',
        'u' => 'U',
        'v' => 'V',
        'w' => 'W',
        'x' => 'X',
        'y' => 'Y',
        'z' => 'Z',
        _ => c,
    }
}

/// Uppercases the window into an indexable vector of characters.
pub fn uppercase_window(s: &str) -> (v: Vec<char>)
    ensures
        v@ == spec_upper(s@),
{
    let len = s.unicode_len();
    let mut v: Vec<char> = Vec::new();
    let mut i: usize = 0;
    while i < len
        invariant
            0 <= i <= len,
            len == s@.len(),
            v@.len() == i,
            forall|j: int| 0 <= j < i ==> v@[j] == spec_upper_char(s@[j]),
        decreases len - i,
    {
        let c = upper_char(s.get_char(i));
        v.push(c);
        i = i + 1;
    }
    proof {
        assert(v@ =~= spec_upper(s@));
    }
    v
}

/// A base the reverse-complement round trip preserves.
pub open spec fn spec_is_dna_char(c: char) -> bool {
    c == 'A' || c == 'C' || c == 'G' || c == 'T' || c == 'N' || c == 'a' || c == 'c'
        || c == 'g' || c == 't' || c == 'n'
}

/// Reverse-complementing twice reproduces the original window, case
/// normalized to uppercase, for windows over the base alphabet
/// `{A, C, G, T, N}` in either case. (A base outside it is lost to `N` by
/// the first pass, so the round trip cannot restore it.)
pub proof fn lemma_reverse_complement_round_trip(s: Seq<char>)
    requires
        forall|i: int| 0 <= i < s.len() ==> spec_is_dna_char(#[trigger] s[i]),
    ensures
        spec_rc(spec_rc(s)) == spec_upper(s),
{
    assert(spec_rc(spec_rc(s)) =~= spec_upper(s));
}

/// The message of a finding at one compared position, carrying the
/// operation index, both observed characters and both absolute coordinates.
pub open spec fn spec_mismatch_message(
    op_idx: nat,
    qc: char,
    q_pos: nat,
    tc: char,
    t_pos: nat,
) -> Seq<char> {
    "CIGAR mismatch at operation "@ + spec_dec(op_idx) + ": query char '"@ + seq![qc]
        + "' at pos "@ + spec_dec(q_pos) + " vs target char '"@ + seq![tc] + "' at pos "@
        + spec_dec(t_pos)
}

/// The message of a length finding: what the operator string implies for a
/// side against the window actually fetched.
pub open spec fn spec_length_message(side: Side, implied: nat, actual: nat) -> Seq<char> {
    (if side is Query {
        "Query sequence length mismatch: CIGAR implies "@
    } else {
        "Target sequence length mismatch: CIGAR implies "@
    }) + spec_dec(implied) + ", actual length "@ + spec_dec(actual)
}

fn build_mismatch_message(op_idx: usize, qc: char, q_pos: u128, tc: char, t_pos: u128) -> (m:
    String)
    ensures
        m@ == spec_mismatch_message(op_idx as nat, qc, q_pos as nat, tc, t_pos as nat),
{
    let mut m = "CIGAR mismatch at operation ".to_owned();
    let s1 = u128_to_string(op_idx as u128);
    m.append(s1.as_str());
    m.append(": query char '");
    push_char(&mut m, qc);
    m.append("' at pos ");
    let s2 = u128_to_string(q_pos);
    m.append(s2.as_str());
    m.append(" vs target char '");
    push_char(&mut m, tc);
    m.append("' at pos ");
    let s3 = u128_to_string(t_pos);
    m.append(s3.as_str());
    proof {
        assert(m@ =~= spec_mismatch_message(op_idx as nat, qc, q_pos as nat, tc, t_pos as nat));
    }
    m
}

fn build_length_message(side: Side, implied: u128, actual: usize) -> (m: String)
    ensures
        m@ == spec_length_message(side, implied as nat, actual as nat),
{
    let mut m = match side {
        Side::Query => "Query sequence length mismatch: CIGAR implies ".to_owned(),
        Side::Target => "Target sequence length mismatch: CIGAR implies ".to_owned(),
    };
    let s1 = u128_to_string(implied);
    m.append(s1.as_str());
    m.append(", actual length ");
    let s2 = u128_to_string(actual as u128);
    m.append(s2.as_str());
    proof {
        assert(m@ =~= spec_length_message(side, implied as nat, actual as nat));
    }
    m
}

/// The stable name of a finding kind, as written at the head of a report
/// line.
pub open spec fn spec_kind_name(k: ErrorType) -> Seq<char> {
    match k {
        ErrorType::Mismatch => "Mismatch"@,
        ErrorType::LengthMismatch => "LengthMismatch"@,
        ErrorType::CigarMismatch => "CigarMismatch"@,
    }
}

impl ErrorType {
    /// The kind's stable name.
    pub fn name(&self) -> (s: String)
        ensures
            s@ == spec_kind_name(*self),
    {
        match self {
            ErrorType::Mismatch => "Mismatch".to_owned(),
            ErrorType::LengthMismatch => "LengthMismatch".to_owned(),
            ErrorType::CigarMismatch => "CigarMismatch".to_owned(),
        }
    }
}

/// One report line: `<kind>: <message>`.
pub open spec fn spec_error_line(f: (ErrorType, Seq<char>)) -> Seq<char> {
    spec_kind_name(f.0) + ": "@ + f.1
}

/// The report lines of a list of findings, in order.
pub open spec fn spec_error_lines(fs: Seq<(ErrorType, Seq<char>)>) -> Seq<Seq<char>> {
    fs.map_values(|f: (ErrorType, Seq<char>)| spec_error_line(f))
}

/// The body of the failure text: one indented line per finding, in order.
pub open spec fn spec_entries_text(fs: Seq<(ErrorType, Seq<char>)>) -> Seq<char>
    decreases fs.len(),
{
    if fs.len() == 0 {
        Seq::empty()
    } else {
        spec_entries_text(fs.drop_last()) + "\n  - "@ + spec_error_line(fs.last())
    }
}

/// The failure text of a finding list: a heading and one line per finding.
pub open spec fn spec_validation_text(fs: Seq<(ErrorType, Seq<char>)>) -> Seq<char> {
    "Validation errors:"@ + spec_entries_text(fs)
}

/// How many query positions an operation consumes.
pub open spec fn spec_query_consumes(op: CigarOp) -> nat {
    match op {
        CigarOp::Match(n) => n as nat,
        CigarOp::Mismatch(n) => n as nat,
        CigarOp::Insertion(n) => n as nat,
        CigarOp::Deletion(_) => 0,
    }
}

/// How many target positions an operation consumes.
pub open spec fn spec_target_consumes(op: CigarOp) -> nat {
    match op {
        CigarOp::Match(n) => n as nat,
        CigarOp::Mismatch(n) => n as nat,
        CigarOp::Insertion(_) => 0,
        CigarOp::Deletion(n) => n as nat,
    }
}

/// The query positions consumed by a whole operation sequence.
pub open spec fn spec_query_span(ops: Seq<CigarOp>) -> nat
    decreases ops.len(),
{
    if ops.len() == 0 {
        0
    } else {
        spec_query_consumes(ops[0]) + spec_query_span(ops.skip(1))
    }
}

/// The target positions consumed by a whole operation sequence.
pub open spec fn spec_target_span(ops: Seq<CigarOp>) -> nat
    decreases ops.len(),
{
    if ops.len() == 0 {
        0
    } else {
        spec_target_consumes(ops[0]) + spec_target_span(ops.skip(1))
    }
}

/// The findings of one comparison run over offsets `[off, n)`: one finding
/// for every position whose agreement contradicts the claim, in offset
/// order. Positions that agree with the claim contribute nothing.
pub open spec fn spec_run_findings(
    expect_eq: bool,
    op_idx: nat,
    q: Seq<char>,
    t: Seq<char>,
    qi: nat,
    ti: nat,
    off: nat,
    n: nat,
    q_abs: nat,
    t_abs: nat,
) -> Seq<(ErrorType, Seq<char>)>
    recommends
        qi + n <= q.len(),
        ti + n <= t.len(),
    decreases n - off,
{
    if off >= n {
        Seq::empty()
    } else {
        let qc = q[(qi + off) as int];
        let tc = t[(ti + off) as int];
        let rest = spec_run_findings(expect_eq, op_idx, q, t, qi, ti, off + 1, n, q_abs, t_abs);
        if (qc == tc) != expect_eq {
            let kind = if expect_eq {
                ErrorType::Mismatch
            } else {
                ErrorType::CigarMismatch
            };
            seq![
                (kind, spec_mismatch_message(op_idx, qc, q_abs + qi + off, tc, t_abs + ti + off)),
            ] + rest
        } else {
            rest
        }
    }
}

/// Prepends the findings of one comparison run to the rest of the walk.
pub open spec fn spec_combine_compare(
    run: Seq<(ErrorType, Seq<char>)>,
    rest: Result<(Seq<(ErrorType, Seq<char>)>, nat, nat), WalkError>,
) -> Result<(Seq<(ErrorType, Seq<char>)>, nat, nat), WalkError> {
    match rest {
        Ok((fs, qf, tf)) => Ok((run + fs, qf, tf)),
        Err(e) => Err(e),
    }
}

/// The walk from operation `i` with cursors `(qi, ti)`: comparison runs
/// must lie inside both windows (a violation aborts with the offending
/// side, query checked first), query-only and target-only runs advance one
/// cursor without any check, and the result carries all findings in
/// traversal order together with the final cursors.
pub open spec fn spec_walk_ops(
    ops: Seq<CigarOp>,
    i: nat,
    q: Seq<char>,
    t: Seq<char>,
    qi: nat,
    ti: nat,
    q_abs: nat,
    t_abs: nat,
) -> Result<(Seq<(ErrorType, Seq<char>)>, nat, nat), WalkError>
    decreases ops.len() - i,
{
    if i >= ops.len() {
        Ok((Seq::empty(), qi, ti))
    } else {
        match ops[i as int] {
            CigarOp::Match(n) => if qi + n > q.len() {
                Err(WalkError::QueryOutOfRange)
            } else if ti + n > t.len() {
                Err(WalkError::TargetOutOfRange)
            } else {
                spec_combine_compare(
                    spec_run_findings(true, i, q, t, qi, ti, 0, n as nat, q_abs, t_abs),
                    spec_walk_ops(ops, i + 1, q, t, qi + n as nat, ti + n as nat, q_abs, t_abs),
                )
            },
            CigarOp::Mismatch(n) => if qi + n > q.len() {
                Err(WalkError::QueryOutOfRange)
            } else if ti + n > t.len() {
                Err(WalkError::TargetOutOfRange)
            } else {
                spec_combine_compare(
                    spec_run_findings(false, i, q, t, qi, ti, 0, n as nat, q_abs, t_abs),
                    spec_walk_ops(ops, i + 1, q, t, qi + n as nat, ti + n as nat, q_abs, t_abs),
                )
            },
            CigarOp::Insertion(n) => spec_walk_ops(ops, i + 1, q, t, qi + n as nat, ti, q_abs, t_abs),
            CigarOp::Deletion(n) => spec_walk_ops(ops, i + 1, q, t, qi, ti + n as nat, q_abs, t_abs),
        }
    }
}

/// The length findings after the walk: each cursor must land exactly on its
/// window end, the two checks independent, query reported first.
pub open spec fn spec_length_findings(qf: nat, tf: nat, qlen: nat, tlen: nat) -> Seq<
    (ErrorType, Seq<char>),
> {
    (if qf != qlen {
        seq![(ErrorType::LengthMismatch, spec_length_message(Side::Query, qf, qlen))]
    } else {
        Seq::empty()
    }) + (if tf != tlen {
        seq![(ErrorType::LengthMismatch, spec_length_message(Side::Target, tf, tlen))]
    } else {
        Seq::empty()
    })
}

/// The whole walk of a record's operations over its two normalized
/// windows: all comparison findings in traversal order, then the two
/// length checks.
pub open spec fn spec_walk(
    ops: Seq<CigarOp>,
    q: Seq<char>,
    t: Seq<char>,
    q_abs: nat,
    t_abs: nat,
) -> Result<Seq<(ErrorType, Seq<char>)>, WalkError> {
    match spec_walk_ops(ops, 0, q, t, 0, 0, q_abs, t_abs) {
        Ok((fs, qf, tf)) => Ok(fs + spec_length_findings(qf, tf, q.len(), t.len())),
        Err(e) => Err(e),
    }
}

proof fn lemma_cursor_bound(i: nat, cursor: nat, n: nat)
    requires
        cursor <= i * (u64::MAX as nat),
        n <= u64::MAX as nat,
        i + 1 <= u64::MAX as nat,
    ensures
        cursor + n <= (i + 1) * (u64::MAX as nat),
        cursor + n < u128::MAX as nat,
{
    assert((i + 1) * (u64::MAX as nat) == i * (u64::MAX as nat) + u64::MAX as nat)
        by (nonlinear_arith);
    assert((i + 1) * (u64::MAX as nat) <= (u64::MAX as nat) * (u64::MAX as nat))
        by (nonlinear_arith)
        requires
            i + 1 <= u64::MAX as nat,
    ;
}

/// Walks the parsed operations over the two normalized windows, both
/// cursors starting at zero, and returns every finding in traversal order
/// (comparison findings first, then the two length checks), or the side
/// whose window a comparison run overruns.
pub fn walk(
    ops: &Vec<CigarOp>,
    query: &Vec<char>,
    target: &Vec<char>,
    query_start: usize,
    target_start: usize,
) -> (r: Result<Vec<ErrorInfo>, WalkError>)
    ensures
        match r {
            Ok(infos) => spec_walk(
                ops@,
                query@,
                target@,
                query_start as nat,
                target_start as nat,
            ) == Ok::<Seq<(ErrorType, Seq<char>)>, WalkError>(info_views(infos@)),
            Err(e) => spec_walk(ops@, query@, target@, query_start as nat, target_start as nat)
                == Err::<Seq<(ErrorType, Seq<char>)>, WalkError>(e),
        },
{
    let ghost qa = query_start as nat;
    let ghost ta = target_start as nat;
    let qlen = query.len();
    let tlen = target.len();
    let mut q_idx: u128 = 0;
    let mut t_idx: u128 = 0;
    let mut errs: Vec<ErrorInfo> = Vec::new();
    let mut i: usize = 0;
    proof {
        assert(info_views(errs@) =~~= Seq::<(ErrorType, Seq<char>)>::empty());
        if spec_walk_ops(ops@, 0, query@, target@, 0, 0, qa, ta) is Ok {
            let (fs, qf, tf) = spec_walk_ops(ops@, 0, query@, target@, 0, 0, qa, ta)->Ok_0;
            assert(info_views(errs@) + fs =~~= fs);
        }
    }
    while i < ops.len()
        invariant
            0 <= i <= ops@.len(),
            qa == query_start as nat,
            ta == target_start as nat,
            qlen == query@.len(),
            tlen == target@.len(),
            q_idx as nat <= (i as nat) * (u64::MAX as nat),
            t_idx as nat <= (i as nat) * (u64::MAX as nat),
            spec_walk_ops(ops@, 0, query@, target@, 0, 0, qa, ta) == (
            match spec_walk_ops(
                ops@,
                i as nat,
                query@,
                target@,
                q_idx as nat,
                t_idx as nat,
                qa,
                ta,
            ) {
                Ok((fs, qf, tf)) => Ok::<(Seq<(ErrorType, Seq<char>)>, nat, nat), WalkError>(
                    (info_views(errs@) + fs, qf, tf),
                ),
                Err(e) => Err::<(Seq<(ErrorType, Seq<char>)>, nat, nat), WalkError>(e),
            }),
        decreases ops@.len() - i,
    {
        let op = ops[i];
        proof {
            lemma_cursor_bound(i as nat, q_idx as nat, spec_query_consumes(op));
            lemma_cursor_bound(i as nat, t_idx as nat, spec_target_consumes(op));
        }
        match op {
            CigarOp::Match(n) | CigarOp::Mismatch(n) => {
                let expect_eq = matches!(op, CigarOp::Match(_));
                if q_idx + (n as u128) > (qlen as u128) {
                    return Err(WalkError::QueryOutOfRange);
                }
                if t_idx + (n as u128) > (tlen as u128) {
                    return Err(WalkError::TargetOutOfRange);
                }
                let qbase = q_idx as usize;
                let tbase = t_idx as usize;
                let ghost errs0 = errs@;
                let mut off: u64 = 0;
                proof {
                    assert(spec_run_findings(
                        expect_eq,
                        i as nat,
                        query@,
                        target@,
                        qbase as nat,
                        tbase as nat,
                        0,
                        n as nat,
                        qa,
                        ta,
                    ) =~~= Seq::<(ErrorType, Seq<char>)>::empty() + spec_run_findings(
                        expect_eq,
                        i as nat,
                        query@,
                        target@,
                        qbase as nat,
                        tbase as nat,
                        0,
                        n as nat,
                        qa,
                        ta,
                    ));
                }
                while off < n
                    invariant
                        0 <= off <= n,
                        qa == query_start as nat,
                        ta == target_start as nat,
                        qlen == query@.len(),
                        tlen == target@.len(),
                        qbase + n <= qlen,
                        tbase + n <= tlen,
                        i < ops@.len(),
                        info_views(errs0) + spec_run_findings(
                            expect_eq,
                            i as nat,
                            query@,
                            target@,
                            qbase as nat,
                            tbase as nat,
                            0,
                            n as nat,
                            qa,
                            ta,
                        ) =~~= info_views(errs@) + spec_run_findings(
                            expect_eq,
                            i as nat,
                            query@,
                            target@,
                            qbase as nat,
                            tbase as nat,
                            off as nat,
                            n as nat,
                            qa,
                            ta,
                        ),
                    decreases n - off,
                {
                    let qpos = qbase + (off as usize);
                    let tpos = tbase + (off as usize);
                    let qc = query[qpos];
                    let tc = target[tpos];
                    let ghost errs_pre = errs@;
                    if (qc == tc) != expect_eq {
                        let kind = if expect_eq {
                            ErrorType::Mismatch
                        } else {
                            ErrorType::CigarMismatch
                        };
                        let message = build_mismatch_message(
                            i,
                            qc,
                            (query_start as u128) + (qbase as u128) + (off as u128),
                            tc,
                            (target_start as u128) + (tbase as u128) + (off as u128),
                        );
                        errs.push(ErrorInfo { kind, message });
                        proof {
                            assert(info_views(errs@) =~~= info_views(errs_pre).push(
                                (kind, errs@.last().message@),
                            ));
                        }
                    }
                    proof {
                        let run_off = spec_run_findings(
                            expect_eq,
                            i as nat,
                            query@,
                            target@,
                            qbase as nat,
                            tbase as nat,
                            off as nat,
                            n as nat,
                            qa,
                            ta,
                        );
                        let run_next = spec_run_findings(
                            expect_eq,
                            i as nat,
                            query@,
                            target@,
                            qbase as nat,
                            tbase as nat,
                            off as nat + 1,
                            n as nat,
                            qa,
                            ta,
                        );
                        if (qc == tc) != expect_eq {
                            let kind = if expect_eq {
                                ErrorType::Mismatch
                            } else {
                                ErrorType::CigarMismatch
                            };
                            let f = (
                                kind,
                                spec_mismatch_message(
                                    i as nat,
                                    qc,
                                    (qa + qbase + off) as nat,
                                    tc,
                                    (ta + tbase + off) as nat,
                                ),
                            );
                            assert(run_off =~~= seq![f] + run_next);
                            assert(info_views(errs_pre) + run_off =~~= info_views(errs@)
                                + run_next);
                        } else {
                            assert(run_off =~~= run_next);
                        }
                    }
                    off = off + 1;
                }
                proof {
                    let run = spec_run_findings(
                        expect_eq,
                        i as nat,
                        query@,
                        target@,
                        qbase as nat,
                        tbase as nat,
                        0,
                        n as nat,
                        qa,
                        ta,
                    );
                    let run_end = spec_run_findings(
                        expect_eq,
                        i as nat,
                        query@,
                        target@,
                        qbase as nat,
                        tbase as nat,
                        n as nat,
                        n as nat,
                        qa,
                        ta,
                    );
                    assert(run_end =~~= Seq::<(ErrorType, Seq<char>)>::empty());
                    assert(info_views(errs@) =~~= info_views(errs0) + run);
                    let tail = spec_walk_ops(
                        ops@,
                        i as nat + 1,
                        query@,
                        target@,
                        q_idx as nat + n as nat,
                        t_idx as nat + n as nat,
                        qa,
                        ta,
                    );
                    if tail is Ok {
                        let (fs, qf, tf) = tail->Ok_0;
                        assert(info_views(errs@) + fs =~~= info_views(errs0) + (run + fs));
                    }
                }
                q_idx = q_idx + (n as u128);
                t_idx = t_idx + (n as u128);
            },
            CigarOp::Insertion(n) => {
                q_idx = q_idx + (n as u128);
            },
            CigarOp::Deletion(n) => {
                t_idx = t_idx + (n as u128);
            },
        }
        i = i + 1;
    }
    // The operations are exhausted: both cursors must land exactly on their
    // window ends; each side is checked on its own.
    let ghost walked = spec_walk_ops(ops@, 0, query@, target@, 0, 0, qa, ta);
    proof {
        assert(walked == Ok::<(Seq<(ErrorType, Seq<char>)>, nat, nat), WalkError>(
            (info_views(errs@) + Seq::<(ErrorType, Seq<char>)>::empty(), q_idx as nat,
            t_idx as nat),
        ));
        assert(info_views(errs@) + Seq::<(ErrorType, Seq<char>)>::empty() =~~= info_views(
            errs@,
        ));
    }
    let ghost comparison_findings = info_views(errs@);
    if q_idx != qlen as u128 {
        let message = build_length_message(Side::Query, q_idx, qlen);
        let ghost errs_pre = errs@;
        errs.push(ErrorInfo { kind: ErrorType::LengthMismatch, message });
        proof {
            assert(info_views(errs@) =~~= info_views(errs_pre).push(
                (ErrorType::LengthMismatch, errs@.last().message@),
            ));
        }
    }
    if t_idx != tlen as u128 {
        let message = build_length_message(Side::Target, t_idx, tlen);
        let ghost errs_pre = errs@;
        errs.push(ErrorInfo { kind: ErrorType::LengthMismatch, message });
        proof {
            assert(info_views(errs@) =~~= info_views(errs_pre).push(
                (ErrorType::LengthMismatch, errs@.last().message@),
            ));
        }
    }
    proof {
        assert(info_views(errs@) =~~= comparison_findings + spec_length_findings(
            q_idx as nat,
            t_idx as nat,
            qlen as nat,
            tlen as nat,
        ));
    }
    Ok(errs)
}

/// The query window oriented to the operator string's traversal direction:
/// reverse-complemented first on the reverse strand, then uppercased.
pub open spec fn spec_normalized_query(win: Seq<char>, strand: char) -> Seq<char> {
    if strand == '-' {
        spec_upper(spec_rc(win))
    } else {
        spec_upper(win)
    }
}

/// Everything the record's operator string says about its two fetched
/// windows: the findings of the walk over the normalized windows, or the
/// failure that aborts the record (malformed operator string, or a
/// comparison run outside a window).
pub open spec fn spec_validate(record: PafRecord, qwin: Seq<char>, twin: Seq<char>) -> Result<
    Seq<(ErrorType, Seq<char>)>,
    RecordError,
> {
    let nq = spec_normalized_query(qwin, record.strand);
    let nt = spec_upper(twin);
    match spec_parse_cigar(record.cigar@) {
        Err(g) => Err(RecordError::Grammar(g)),
        Ok(ops) => match spec_walk(
            ops,
            nq,
            nt,
            record.query_start as nat,
            record.target_start as nat,
        ) {
            Err(w) => Err(RecordError::OutOfRange(w)),
            Ok(fs) => Ok(fs),
        },
    }
}

/// The lines a validation call writes to its sink: one line per finding,
/// in traversal order, and none when the record aborts before the walk
/// completes. The lines do not depend on the reporting policy.
pub open spec fn spec_reported_lines(v: Result<Seq<(ErrorType, Seq<char>)>, RecordError>) -> Seq<
    Seq<char>,
> {
    match v {
        Ok(fs) => spec_error_lines(fs),
        Err(_) => Seq::empty(),
    }
}

/// Whether a validation call succeeds: a clean record always does; a record
/// with findings succeeds only under the scanning policy `"report"`. Any
/// failure that aborts the record fails the call.
pub open spec fn spec_call_succeeds(
    v: Result<Seq<(ErrorType, Seq<char>)>, RecordError>,
    mode: Seq<char>,
) -> bool {
    match v {
        Ok(fs) => fs.len() == 0 || mode == "report"@,
        Err(_) => false,
    }
}

/// Validates a record against its two already-fetched windows: normalizes
/// them, parses the operator string, walks it, writes one line per finding
/// to the sink, and succeeds or fails according to the reporting policy
/// (`"report"` scans on; any other mode fails the record, surfacing every
/// finding).
pub fn validate_fetched(
    record: &PafRecord,
    query_seq: &str,
    target_seq: &str,
    error_mode: &str,
    output: &mut Vec<String>,
) -> (r: Result<(), RecordError>)
    ensures
        ({
            let v = spec_validate(*record, query_seq@, target_seq@);
            &&& seq_views(final(output)@) == seq_views(old(output)@) + spec_reported_lines(v)
            &&& (r is Ok <==> spec_call_succeeds(v, error_mode@))
            &&& (match v {
                Ok(fs) => r is Err ==> (r->Err_0 matches RecordError::Invalid(ve)
                    && info_views(ve.errors@) == fs),
                Err(f) => r is Err && r->Err_0 == f,
            })
        }),
{
    let ghost v = spec_validate(*record, query_seq@, target_seq@);
    proof {
        assert(seq_views(output@) + Seq::<Seq<char>>::empty() =~~= seq_views(output@));
    }
    let normalized_query: String = if record.strand == '-' {
        reverse_complement(query_seq)
    } else {
        query_seq.to_owned()
    };
    let qv = uppercase_window(normalized_query.as_str());
    let tv = uppercase_window(target_seq);
    let ops = match parse_cigar(record.cigar.as_str()) {
        Ok(o) => o,
        Err(g) => {
            return Err(RecordError::Grammar(g));
        },
    };
    let infos = match walk(&ops, &qv, &tv, record.query_start, record.target_start) {
        Ok(es) => es,
        Err(w) => {
            return Err(RecordError::OutOfRange(w));
        },
    };
    let ghost fs = info_views(infos@);
    proof {
        assert(v == Ok::<Seq<(ErrorType, Seq<char>)>, RecordError>(fs));
    }
    if infos.len() == 0 {
        proof {
            assert(fs.len() == 0);
            assert(spec_error_lines(fs) =~~= Seq::<Seq<char>>::empty());
        }
        return Ok(());
    }
    let mut k: usize = 0;
    proof {
        assert(spec_error_lines(fs.take(0)) =~~= Seq::<Seq<char>>::empty());
        assert(seq_views(output@) + spec_error_lines(fs.take(0)) =~~= seq_views(output@));
    }
    while k < infos.len()
        invariant
            0 <= k <= infos@.len(),
            fs == info_views(infos@),
            fs.len() == infos@.len(),
            seq_views(output@) == seq_views(old(output)@) + spec_error_lines(
                fs.take(k as int),
            ),
        decreases infos@.len() - k,
    {
        let info = &infos[k];
        let mut line = info.kind.name();
        line.append(": ");
        line.append(info.message.as_str());
        proof {
            assert(line@ =~= spec_error_line(fs[k as int]));
        }
        let ghost out_pre = output@;
        output.push(line);
        proof {
            assert(seq_views(output@) =~~= seq_views(out_pre).push(output@.last()@));
            assert(spec_error_lines(fs.take(k + 1)) =~~= spec_error_lines(
                fs.take(k as int),
            ).push(spec_error_line(fs[k as int])));
            assert(seq_views(output@) =~~= seq_views(old(output)@) + spec_error_lines(
                fs.take(k + 1),
            ));
        }
        k = k + 1;
    }
    proof {
        assert(fs.take(fs.len() as int) =~= fs);
    }
    let is_report = error_mode.to_owned() == "report".to_owned();
    if is_report {
        Ok(())
    } else {
        Err(RecordError::Invalid(ValidationError { errors: infos }))
    }
}

/// Validates one record end to end against an in-memory window provider:
/// fetches the two windows the record names (a fetch failure aborts the
/// record, wrapped with its side and coordinates), then validates the
/// record against them as `validate_fetched` does.
pub fn validate_record(
    record: &PafRecord,
    fasta_reader: &MultiFastaReader,
    error_mode: &str,
    output: &mut Vec<String>,
) -> (r: Result<(), RecordError>)
    ensures
        ({
            let qf = spec_fetch(
                pair_views(fasta_reader.query_seqs@),
                record.query_name@,
                record.query_start as int,
                record.query_end as int,
            );
            let tf = spec_fetch(
                pair_views(fasta_reader.target_seqs@),
                record.target_name@,
                record.target_start as int,
                record.target_end as int,
            );
            match qf {
                Err(e) => r is Err && (r->Err_0 matches RecordError::Fetch {
                    side: Side::Query,
                    start,
                    end,
                    error,
                } && start == record.query_start && end == record.query_end && error == e)
                    && final(output)@ == old(output)@,
                Ok(qw) => match tf {
                    Err(e) => r is Err && (r->Err_0 matches RecordError::Fetch {
                        side: Side::Target,
                        start,
                        end,
                        error,
                    } && start == record.target_start && end == record.target_end && error == e)
                        && final(output)@ == old(output)@,
                    Ok(tw) => {
                        let v = spec_validate(*record, qw, tw);
                        &&& seq_views(final(output)@) == seq_views(old(output)@)
                            + spec_reported_lines(v)
                        &&& (r is Ok <==> spec_call_succeeds(v, error_mode@))
                        &&& (match v {
                            Ok(fs) => r is Err ==> (r->Err_0 matches RecordError::Invalid(ve)
                                && info_views(ve.errors@) == fs),
                            Err(f) => r is Err && r->Err_0 == f,
                        })
                    },
                },
            }
        }),
{
    let query_seq = match fasta_reader.fetch_query_sequence(
        record.query_name.as_str(),
        record.query_start,
        record.query_end,
    ) {
        Ok(s) => s,
        Err(e) => {
            return Err(
                RecordError::Fetch {
                    side: Side::Query,
                    start: record.query_start,
                    end: record.query_end,
                    error: e,
                },
            );
        },
    };
    let target_seq = match fasta_reader.fetch_target_sequence(
        record.target_name.as_str(),
        record.target_start,
        record.target_end,
    ) {
        Ok(s) => s,
        Err(e) => {
            return Err(
                RecordError::Fetch {
                    side: Side::Target,
                    start: record.target_start,
                    end: record.target_end,
                    error: e,
                },
            );
        },
    };
    validate_fetched(record, query_seq.as_str(), target_seq.as_str(), error_mode, output)
}

impl ValidationError {
    /// The failure rendered as text: a heading and one `<kind>: <message>`
    /// line per finding, in traversal order.
    pub fn message(&self) -> (m: String)
        ensures
            m@ == spec_validation_text(info_views(self.errors@)),
    {
        let ghost fs = info_views(self.errors@);
        let mut m = "Validation errors:".to_owned();
        let mut k: usize = 0;
        proof {
            assert(fs.take(0) =~= Seq::<(ErrorType, Seq<char>)>::empty());
        }
        while k < self.errors.len()
            invariant
                0 <= k <= self.errors@.len(),
                fs == info_views(self.errors@),
                fs.len() == self.errors@.len(),
                m@ == spec_validation_text(fs.take(k as int)),
            decreases self.errors@.len() - k,
        {
            let info = &self.errors[k];
            m.append("\n  - ");
            let kind_name = info.kind.name();
            m.append(kind_name.as_str());
            m.append(": ");
            m.append(info.message.as_str());
            proof {
                assert(fs.take(k + 1).drop_last() =~= fs.take(k as int));
                assert(fs.take(k + 1).last() == fs[k as int]);
                assert(m@ =~= spec_validation_text(fs.take(k + 1)));
            }
            k = k + 1;
        }
        proof {
            assert(fs.take(fs.len() as int) =~= fs);
        }
        m
    }
}

/// A walk that completes moves each cursor forward by exactly the span its
/// operations consume on that side — in particular the cursors never
/// decrease: from operation `i` on, the final cursors are the starting
/// cursors plus the consumed spans of the remaining operations.
pub proof fn lemma_walk_cursors(
    ops: Seq<CigarOp>,
    i: nat,
    q: Seq<char>,
    t: Seq<char>,
    qi: nat,
    ti: nat,
    qa: nat,
    ta: nat,
)
    requires
        i <= ops.len(),
        spec_walk_ops(ops, i, q, t, qi, ti, qa, ta) is Ok,
    ensures
        spec_walk_ops(ops, i, q, t, qi, ti, qa, ta)->Ok_0.1 == qi + spec_query_span(
            ops.skip(i as int),
        ),
        spec_walk_ops(ops, i, q, t, qi, ti, qa, ta)->Ok_0.2 == ti + spec_target_span(
            ops.skip(i as int),
        ),
    decreases ops.len() - i,
{
    let rest = ops.skip(i as int);
    if i == ops.len() {
        assert(rest =~= Seq::<CigarOp>::empty());
    } else {
        assert(rest[0] == ops[i as int]);
        assert(rest.skip(1) =~= ops.skip(i as int + 1));
        match ops[i as int] {
            CigarOp::Match(n) => {
                lemma_walk_cursors(ops, i + 1, q, t, qi + n as nat, ti + n as nat, qa, ta);
            },
            CigarOp::Mismatch(n) => {
                lemma_walk_cursors(ops, i + 1, q, t, qi + n as nat, ti + n as nat, qa, ta);
            },
            CigarOp::Insertion(n) => {
                lemma_walk_cursors(ops, i + 1, q, t, qi + n as nat, ti, qa, ta);
            },
            CigarOp::Deletion(n) => {
                lemma_walk_cursors(ops, i + 1, q, t, qi, ti + n as nat, qa, ta);
            },
        }
    }
}

/// A walk that reports no length finding accounts for both windows
/// exactly: the run lengths of the claimed-equal, claimed-differing and
/// query-only operations sum to the query window's length, and those of
/// the claimed-equal, claimed-differing and target-only operations sum to
/// the target window's length.
pub proof fn lemma_run_length_sums(
    ops: Seq<CigarOp>,
    q: Seq<char>,
    t: Seq<char>,
    qa: nat,
    ta: nat,
    fs: Seq<(ErrorType, Seq<char>)>,
)
    requires
        spec_walk(ops, q, t, qa, ta) == Ok::<Seq<(ErrorType, Seq<char>)>, WalkError>(fs),
        forall|k: int| 0 <= k < fs.len() ==> (#[trigger] fs[k]).0 != ErrorType::LengthMismatch,
    ensures
        spec_query_span(ops) == q.len(),
        spec_target_span(ops) == t.len(),
{
    let walked = spec_walk_ops(ops, 0, q, t, 0, 0, qa, ta);
    let (fs0, qf, tf) = walked->Ok_0;
    lemma_walk_cursors(ops, 0, q, t, 0, 0, qa, ta);
    assert(ops.skip(0) =~= ops);
    let lf = spec_length_findings(qf, tf, q.len(), t.len());
    assert(fs == fs0 + lf);
    if qf != q.len() {
        assert(lf[0].0 == ErrorType::LengthMismatch);
        assert(fs[fs0.len() as int].0 == ErrorType::LengthMismatch);
        assert(false);
    }
    if tf != t.len() {
        assert(lf[0].0 == ErrorType::LengthMismatch);
        assert(fs[fs0.len() as int].0 == ErrorType::LengthMismatch);
        assert(false);
    }
}

/// The walk has no hidden state: its outcome is a function of the
/// operations, the two normalized windows and the two absolute starts
/// alone, so walking the same inputs twice yields the identical finding
/// list. (The runtime walker's contract pins its result to this same
/// function of its inputs.)
pub proof fn lemma_walk_deterministic(
    ops: Seq<CigarOp>,
    q: Seq<char>,
    t: Seq<char>,
    qa: nat,
    ta: nat,
    r1: Result<Seq<(ErrorType, Seq<char>)>, WalkError>,
    r2: Result<Seq<(ErrorType, Seq<char>)>, WalkError>,
)
    requires
        r1 == spec_walk(ops, q, t, qa, ta),
        r2 == spec_walk(ops, q, t, qa, ta),
    ensures
        r1 == r2,
{
}

/// Under the scanning policy `"report"` a record whose walk found N
/// disagreements writes exactly N lines to the sink and the call still
/// succeeds, so a batch can be scanned to the end.
pub proof fn lemma_report_mode_scans_on(fs: Seq<(ErrorType, Seq<char>)>)
    ensures
        spec_reported_lines(Ok::<Seq<(ErrorType, Seq<char>)>, RecordError>(fs)).len()
            == fs.len(),
        spec_call_succeeds(Ok::<Seq<(ErrorType, Seq<char>)>, RecordError>(fs), "report"@),
{
}

/// Under any other policy the same record writes the same N lines — the
/// lines written do not depend on the policy — but the call fails; the
/// failure value carries every finding, as the validation contract states.
pub proof fn lemma_default_mode_fails(fs: Seq<(ErrorType, Seq<char>)>, mode: Seq<char>)
    requires
        fs.len() > 0,
        mode != "report"@,
    ensures
        spec_reported_lines(Ok::<Seq<(ErrorType, Seq<char>)>, RecordError>(fs))
            == spec_error_lines(fs),
        spec_reported_lines(Ok::<Seq<(ErrorType, Seq<char>)>, RecordError>(fs)).len()
            == fs.len(),
        !spec_call_succeeds(Ok::<Seq<(ErrorType, Seq<char>)>, RecordError>(fs), mode),
{
}

} // verus!
