//! In-memory sequence window provider: parses FASTA text into named
//! sequences and serves upper-bounded, half-open, 0-based coordinate windows
//! from them. Opening indexed sequence archives on disk is a concern of the
//! surrounding application; the validation core only needs this capability.

use vstd::prelude::*;

use crate::text::{spec_split, spec_trim, split_str, trim_str};

verus! {

/// Why a window could not be served.
#[derive(Debug, Clone, Copy, PartialEq, Eq, Structural)]
pub enum FetchError {
    /// No sequence of the requested name is known.
    UnknownName,
    /// The requested half-open range does not lie inside the sequence.
    OutOfRange,
}

/// The records of a FASTA text, in order: each `>` header opens a record
/// named by the trimmed rest of its line; other lines are trimmed and
/// appended to the current record's sequence. Lines before the first header
/// accumulate and are attached to the first named record, and a record is
/// only emitted under a non-empty name.
pub open spec fn spec_fasta_records(
    lines: Seq<Seq<char>>,
    cur_name: Seq<char>,
    cur_seq: Seq<char>,
) -> Seq<(Seq<char>, Seq<char>)>
    decreases lines.len(),
{
    if lines.len() == 0 {
        if cur_name.len() > 0 {
            seq![(cur_name, cur_seq)]
        } else {
            Seq::empty()
        }
    } else {
        let line = lines[0];
        if line.len() > 0 && line[0] == '>' {
            let new_name = spec_trim(line.skip(1));
            if cur_name.len() > 0 {
                seq![(cur_name, cur_seq)] + spec_fasta_records(
                    lines.skip(1),
                    new_name,
                    Seq::empty(),
                )
            } else {
                spec_fasta_records(lines.skip(1), new_name, cur_seq)
            }
        } else {
            spec_fasta_records(lines.skip(1), cur_name, cur_seq + spec_trim(line))
        }
    }
}

/// What `parse_fasta` yields on `content`.
pub open spec fn spec_parse_fasta(content: Seq<char>) -> Seq<(Seq<char>, Seq<char>)> {
    spec_fasta_records(spec_split(content, '\n'), Seq::empty(), Seq::empty())
}

/// The views of a sequence of owned name/sequence pairs.
pub open spec fn pair_views(v: Seq<(String, String)>) -> Seq<(Seq<char>, Seq<char>)> {
    v.map_values(|p: (String, String)| (p.0@, p.1@))
}

/// Parses FASTA text into its named sequences, in file order; a name that
/// occurs twice keeps both records (lookups serve the later one, as a
/// map built by insertion would).
pub fn parse_fasta(fasta_content: &str) -> (r: Vec<(String, String)>)
    ensures
        pair_views(r@) == spec_parse_fasta(fasta_content@),
{
    let lines = split_str(fasta_content, '\n');
    let ghost line_views = crate::text::seq_views(lines@);
    let mut out: Vec<(String, String)> = Vec::new();
    let mut name = String::new();
    let mut seqbuf = String::new();
    let mut i: usize = 0;
    proof {
        assert(line_views.skip(0) =~= line_views);
        assert(pair_views(out@) + spec_fasta_records(line_views, name@, seqbuf@)
            =~= spec_fasta_records(line_views, name@, seqbuf@));
    }
    while i < lines.len()
        invariant
            0 <= i <= lines.len(),
            line_views == crate::text::seq_views(lines@),
            line_views.len() == lines@.len(),
            spec_parse_fasta(fasta_content@) == pair_views(out@) + spec_fasta_records(
                line_views.skip(i as int),
                name@,
                seqbuf@,
            ),
        decreases lines.len() - i,
    {
        let line: &String = &lines[i];
        let line_len = line.as_str().unicode_len();
        let ghost tail = line_views.skip(i as int);
        proof {
            assert(tail[0] == line@);
            assert(tail.skip(1) =~= line_views.skip(i + 1));
        }
        if line_len > 0 && line.as_str().get_char(0) == '>' {
            let new_name = trim_str(line.as_str().substring_char(1, line_len));
            proof {
                assert(line@.subrange(1, line@.len() as int) =~= line@.skip(1));
            }
            if name.as_str().unicode_len() > 0 {
                let ghost out_before = out@;
                out.push((name, seqbuf));
                name = new_name;
                seqbuf = String::new();
                proof {
                    assert(pair_views(out@) =~= pair_views(out_before).push(
                        (out@.last().0@, out@.last().1@),
                    ));
                    assert(pair_views(out@) + spec_fasta_records(
                        line_views.skip(i + 1),
                        name@,
                        seqbuf@,
                    ) =~= pair_views(out_before) + (seq![(out@.last().0@, out@.last().1@)]
                        + spec_fasta_records(line_views.skip(i + 1), name@, seqbuf@)));
                }
            } else {
                name = new_name;
            }
        } else {
            let trimmed = trim_str(line.as_str());
            seqbuf.append(trimmed.as_str());
        }
        i = i + 1;
    }
    proof {
        assert(line_views.skip(i as int) =~= Seq::<Seq<char>>::empty());
    }
    if name.as_str().unicode_len() > 0 {
        let ghost out_before = out@;
        out.push((name, seqbuf));
        proof {
            assert(pair_views(out@) =~= pair_views(out_before).push(
                (out@.last().0@, out@.last().1@),
            ));
        }
    }
    out
}

/// The sequence most recently recorded under `name`, if any.
pub open spec fn spec_lookup(
    recs: Seq<(Seq<char>, Seq<char>)>,
    name: Seq<char>,
) -> Option<Seq<char>>
    decreases recs.len(),
{
    if recs.len() == 0 {
        None
    } else if recs.last().0 == name {
        Some(recs.last().1)
    } else {
        spec_lookup(recs.drop_last(), name)
    }
}

/// Serving the half-open window `[start, end)` of the sequence named
/// `name`: the name must be known and the range must lie inside it.
pub open spec fn spec_fetch(
    recs: Seq<(Seq<char>, Seq<char>)>,
    name: Seq<char>,
    start: int,
    end: int,
) -> Result<Seq<char>, FetchError> {
    match spec_lookup(recs, name) {
        None => Err(FetchError::UnknownName),
        Some(s) => if 0 <= start <= end <= s.len() {
            Ok(s.subrange(start, end))
        } else {
            Err(FetchError::OutOfRange)
        },
    }
}

fn fetch_from(
    seqs: &Vec<(String, String)>,
    seq_name: &str,
    start: usize,
    end: usize,
) -> (r: Result<String, FetchError>)
    ensures
        match r {
            Ok(s) => spec_fetch(pair_views(seqs@), seq_name@, start as int, end as int)
                == Ok::<Seq<char>, FetchError>(s@),
            Err(e) => spec_fetch(pair_views(seqs@), seq_name@, start as int, end as int)
                == Err::<Seq<char>, FetchError>(e),
        },
{
    let key = seq_name.to_owned();
    let mut i: usize = seqs.len();
    proof {
        assert(pair_views(seqs@).take(seqs@.len() as int) =~= pair_views(seqs@));
    }
    while i > 0
        invariant
            0 <= i <= seqs@.len(),
            key@ == seq_name@,
            spec_lookup(pair_views(seqs@), seq_name@) == spec_lookup(
                pair_views(seqs@).take(i as int),
                seq_name@,
            ),
        decreases i,
    {
        i = i - 1;
        let hit = seqs[i].0 == key;
        proof {
            let pv = pair_views(seqs@);
            assert(pv.take(i + 1).last() == pv[i as int]);
            assert(pv.take(i + 1).drop_last() =~= pv.take(i as int));
        }
        if hit {
            let s: &String = &seqs[i].1;
            let s_len = s.as_str().unicode_len();
            if start <= end && end <= s_len {
                let w = s.as_str().substring_char(start, end);
                return Ok(w.to_owned());
            } else {
                return Err(FetchError::OutOfRange);
            }
        }
    }
    proof {
        assert(pair_views(seqs@).take(0) =~= Seq::<(Seq<char>, Seq<char>)>::empty());
    }
    Err(FetchError::UnknownName)
}

/// Named sequences for the two sides of the comparison, held in memory.
pub struct MultiFastaReader {
    pub query_seqs: Vec<(String, String)>,
    pub target_seqs: Vec<(String, String)>,
}

impl MultiFastaReader {
    /// Builds the provider from two FASTA texts; building from well-formed
    /// in-memory text cannot fail.
    pub fn from_strings(query_fasta: &str, target_fasta: &str) -> (r: Result<
        MultiFastaReader,
        FetchError,
    >)
        ensures
            r is Ok,
            pair_views(r->Ok_0.query_seqs@) == spec_parse_fasta(query_fasta@),
            pair_views(r->Ok_0.target_seqs@) == spec_parse_fasta(target_fasta@),
    {
        Ok(MultiFastaReader {
            query_seqs: parse_fasta(query_fasta),
            target_seqs: parse_fasta(target_fasta),
        })
    }

    /// Serves a window of the named query-side sequence.
    pub fn fetch_query_sequence(&self, seq_name: &str, start: usize, end: usize) -> (r: Result<
        String,
        FetchError,
    >)
        ensures
            match r {
                Ok(s) => spec_fetch(
                    pair_views(self.query_seqs@),
                    seq_name@,
                    start as int,
                    end as int,
                ) == Ok::<Seq<char>, FetchError>(s@),
                Err(e) => spec_fetch(
                    pair_views(self.query_seqs@),
                    seq_name@,
                    start as int,
                    end as int,
                ) == Err::<Seq<char>, FetchError>(e),
            },
    {
        fetch_from(&self.query_seqs, seq_name, start, end)
    }

    /// Serves a window of the named target-side sequence.
    pub fn fetch_target_sequence(&self, seq_name: &str, start: usize, end: usize) -> (r: Result<
        String,
        FetchError,
    >)
        ensures
            match r {
                Ok(s) => spec_fetch(
                    pair_views(self.target_seqs@),
                    seq_name@,
                    start as int,
                    end as int,
                ) == Ok::<Seq<char>, FetchError>(s@),
                Err(e) => spec_fetch(
                    pair_views(self.target_seqs@),
                    seq_name@,
                    start as int,
                    end as int,
                ) == Err::<Seq<char>, FetchError>(e),
            },
    {
        fetch_from(&self.target_seqs, seq_name, start, end)
    }
}

} // verus!
