//! Checks that the run-length alignment operator string carried by an
//! alignment record is consistent with the underlying sequence data: every
//! region the operator claims equal really is equal, every region it claims
//! different really differs, and the operator fully accounts for the
//! coordinate span of both windows.

pub mod cigar_parser;
pub mod fasta_reader;
pub mod paf_parser;
pub mod text;
pub mod validator;
