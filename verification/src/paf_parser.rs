//! One alignment record per tab-delimited line: names, total lengths,
//! half-open window coordinates for both sides, a strand flag, and the
//! optional `cg:Z:`-tagged operator string among the trailing fields.

use vstd::prelude::*;

use crate::text::{seq_views, spec_parse_usize, spec_split, parse_usize, split_str};

verus! {

/// One alignment record, as read from a tab-delimited line.
#[derive(Debug, Clone)]
pub struct PafRecord {
    pub query_name: String,
    pub query_length: usize,
    pub query_start: usize,
    pub query_end: usize,
    pub strand: char,
    pub target_name: String,
    pub target_length: usize,
    pub target_start: usize,
    pub target_end: usize,
    pub cigar: String,
}

/// Why a line was rejected as a record.
#[derive(Debug, Clone, Copy, PartialEq, Eq, Structural)]
pub enum PafError {
    /// Fewer than twelve tab-separated fields.
    NotEnoughFields,
    /// The query total length field is not an unsigned integer.
    InvalidQueryLength,
    /// The query window start field is not an unsigned integer.
    InvalidQueryStart,
    /// The query window end field is not an unsigned integer.
    InvalidQueryEnd,
    /// The strand field is empty.
    EmptyStrand,
    /// The target total length field is not an unsigned integer.
    InvalidTargetLength,
    /// The target window start field is not an unsigned integer.
    InvalidTargetStart,
    /// The target window end field is not an unsigned integer.
    InvalidTargetEnd,
}

/// The field carries the operator-string tag `cg:Z:`.
pub open spec fn spec_has_cg_prefix(f: Seq<char>) -> bool {
    f.len() >= 5 && f[0] == 'c' && f[1] == 'g' && f[2] == ':' && f[3] == 'Z' && f[4] == ':'
}

/// The operator string of the record: the rest of the first tagged field at
/// or after index `i`, or empty when no field is tagged.
pub open spec fn spec_cigar_of(fields: Seq<Seq<char>>, i: int) -> Seq<char>
    decreases fields.len() - i,
{
    if i < 0 || i >= fields.len() {
        Seq::empty()
    } else if spec_has_cg_prefix(fields[i]) {
        fields[i].skip(5)
    } else {
        spec_cigar_of(fields, i + 1)
    }
}

/// The first reason to reject the fields of a line, if any, in the order
/// the record is read.
pub open spec fn spec_line_error(fields: Seq<Seq<char>>) -> Option<PafError> {
    if fields.len() < 12 {
        Some(PafError::NotEnoughFields)
    } else if spec_parse_usize(fields[1]) is None {
        Some(PafError::InvalidQueryLength)
    } else if spec_parse_usize(fields[2]) is None {
        Some(PafError::InvalidQueryStart)
    } else if spec_parse_usize(fields[3]) is None {
        Some(PafError::InvalidQueryEnd)
    } else if fields[4].len() == 0 {
        Some(PafError::EmptyStrand)
    } else if spec_parse_usize(fields[6]) is None {
        Some(PafError::InvalidTargetLength)
    } else if spec_parse_usize(fields[7]) is None {
        Some(PafError::InvalidTargetStart)
    } else if spec_parse_usize(fields[8]) is None {
        Some(PafError::InvalidTargetEnd)
    } else {
        None
    }
}

/// The record `rec` reads exactly the given fields.
pub open spec fn spec_record_matches(rec: PafRecord, fields: Seq<Seq<char>>) -> bool {
    &&& rec.query_name@ == fields[0]
    &&& Some(rec.query_length) == spec_parse_usize(fields[1])
    &&& Some(rec.query_start) == spec_parse_usize(fields[2])
    &&& Some(rec.query_end) == spec_parse_usize(fields[3])
    &&& rec.strand == fields[4][0]
    &&& rec.target_name@ == fields[5]
    &&& Some(rec.target_length) == spec_parse_usize(fields[6])
    &&& Some(rec.target_start) == spec_parse_usize(fields[7])
    &&& Some(rec.target_end) == spec_parse_usize(fields[8])
    &&& rec.cigar@ == spec_cigar_of(fields, 12)
}

fn has_cg_prefix(f: &str) -> (b: bool)
    ensures
        b == spec_has_cg_prefix(f@),
{
    let len = f.unicode_len();
    len >= 5 && f.get_char(0) == 'c' && f.get_char(1) == 'g' && f.get_char(2) == ':'
        && f.get_char(3) == 'Z' && f.get_char(4) == ':'
}

impl PafRecord {
    /// Reads one record from a tab-delimited line: at least twelve fields,
    /// the coordinate fields unsigned integers, the strand field non-empty,
    /// and the operator string taken from the first `cg:Z:`-tagged field
    /// after them (empty when the tag is absent).
    pub fn from_line(line: &str) -> (r: Result<PafRecord, PafError>)
        ensures
            match r {
                Ok(rec) => spec_line_error(spec_split(line@, '\t')) is None
                    && spec_record_matches(rec, spec_split(line@, '\t')),
                Err(e) => spec_line_error(spec_split(line@, '\t')) == Some(e),
            },
    {
        let fields = split_str(line, '\t');
        let ghost fv = seq_views(fields@);
        proof {
            assert(fields@.len() == fv.len());
        }
        if fields.len() < 12 {
            return Err(PafError::NotEnoughFields);
        }
        let query_length = match parse_usize(fields[1].as_str()) {
            Some(v) => v,
            None => {
                return Err(PafError::InvalidQueryLength);
            },
        };
        let query_start = match parse_usize(fields[2].as_str()) {
            Some(v) => v,
            None => {
                return Err(PafError::InvalidQueryStart);
            },
        };
        let query_end = match parse_usize(fields[3].as_str()) {
            Some(v) => v,
            None => {
                return Err(PafError::InvalidQueryEnd);
            },
        };
        if fields[4].as_str().unicode_len() == 0 {
            return Err(PafError::EmptyStrand);
        }
        let strand = fields[4].as_str().get_char(0);
        let target_length = match parse_usize(fields[6].as_str()) {
            Some(v) => v,
            None => {
                return Err(PafError::InvalidTargetLength);
            },
        };
        let target_start = match parse_usize(fields[7].as_str()) {
            Some(v) => v,
            None => {
                return Err(PafError::InvalidTargetStart);
            },
        };
        let target_end = match parse_usize(fields[8].as_str()) {
            Some(v) => v,
            None => {
                return Err(PafError::InvalidTargetEnd);
            },
        };
        let mut cigar = String::new();
        let mut found = false;
        let mut j: usize = 12;
        proof {
            assert(cigar@ =~= Seq::<char>::empty());
        }
        while j < fields.len() && !found
            invariant
                12 <= j <= fields@.len(),
                fv == seq_views(fields@),
                !found ==> cigar@ == Seq::<char>::empty() && spec_cigar_of(fv, 12)
                    == spec_cigar_of(fv, j as int),
                found ==> cigar@ == spec_cigar_of(fv, 12),
            decreases fields@.len() - j,
        {
            let f: &String = &fields[j];
            if has_cg_prefix(f.as_str()) {
                let flen = f.as_str().unicode_len();
                cigar = f.as_str().substring_char(5, flen).to_owned();
                found = true;
                proof {
                    assert(f@.subrange(5, f@.len() as int) =~= f@.skip(5));
                }
            }
            j = j + 1;
        }
        proof {
            if !found {
                assert(spec_cigar_of(fv, j as int) == Seq::<char>::empty());
            }
        }
        Ok(PafRecord {
            query_name: fields[0].clone(),
            query_length,
            query_start,
            query_end,
            strand,
            target_name: fields[5].clone(),
            target_length,
            target_start,
            target_end,
            cigar,
        })
    }
}

} // verus!
