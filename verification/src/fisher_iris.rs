use vstd::prelude::*;

use crate::error::LoadError;
use crate::parse::is_valid_unsigned;
use crate::parse::spec_fields;
use crate::parse::spec_lines;
use crate::parse::split_fields;
use crate::parse::split_lines;
use crate::parse::parse_unsigned;
use crate::parse::unsigned_value;

verus! {

/// Whether a data row carries a valid class index in its first field.
pub open spec fn row_has_valid_class(line: Seq<u8>) -> bool {
    is_valid_unsigned(spec_fields(line)[0])
}

/// The class index a data row carries in its first field.
pub open spec fn row_class(line: Seq<u8>) -> int {
    unsigned_value(spec_fields(line)[0])
}

/// The feature fields of a data row: every field after the class field,
/// kept as the bytes that stand in them.
pub open spec fn row_features(line: Seq<u8>) -> Seq<Seq<u8>> {
    spec_fields(line).skip(1)
}

/// Parses a tabular data source: the first line is a header and is
/// discarded; every further line is one row, a class index and then the
/// feature fields. The feature fields are returned as raw bytes, for the
/// caller to read as numbers.
pub fn parse_rows(content: &[u8]) -> (r: Result<Vec<(usize, Vec<Vec<u8>>)>, LoadError>)
    ensures
        match r {
            Ok(rows) => {
                let ls = spec_lines(content@);
                &&& ls.len() >= 1
                &&& rows@.len() == ls.len() - 1
                &&& forall|j: int|
                    0 <= j < rows@.len() ==> {
                        &&& row_has_valid_class(#[trigger] ls[j + 1])
                        &&& rows@[j].0 == row_class(ls[j + 1])
                        &&& rows@[j].1.deep_view() == row_features(ls[j + 1])
                    }
            },
            Err(e) => {
                &&& (e == LoadError::EmptyTable || e == LoadError::InvalidClass)
                &&& (e == LoadError::EmptyTable <==> spec_lines(content@).len() == 0)
                &&& (e == LoadError::InvalidClass ==> exists|k: int|
                    1 <= k < spec_lines(content@).len() && !row_has_valid_class(
                        #[trigger] spec_lines(content@)[k],
                    ))
            },
        },
{
    let lines = split_lines(content);
    let ghost ls = spec_lines(content@);
    if lines.len() == 0 {
        return Err(LoadError::EmptyTable);
    }
    let mut rows: Vec<(usize, Vec<Vec<u8>>)> = Vec::new();
    let mut k: usize = 1;
    while k < lines.len()
        invariant
            1 <= k <= lines@.len(),
            ls == spec_lines(content@),
            lines.deep_view() == ls,
            ls.len() == lines@.len(),
            rows@.len() == k - 1,
            forall|j: int|
                0 <= j < rows@.len() ==> {
                    &&& row_has_valid_class(#[trigger] ls[j + 1])
                    &&& rows@[j].0 == row_class(ls[j + 1])
                    &&& rows@[j].1.deep_view() == row_features(ls[j + 1])
                },
        decreases lines@.len() - k,
    {
        let line = &lines[k];
        proof {
            assert(line@ =~= ls[k as int]);
        }
        let mut fields = split_fields(line.as_slice());
        proof {
            assert(fields@[0]@ =~= spec_fields(ls[k as int])[0]);
        }
        let class = match parse_unsigned(fields[0].as_slice()) {
            Some(c) => c,
            None => {
                assert(!row_has_valid_class(ls[k as int]));
                return Err(LoadError::InvalidClass);
            },
        };
        let features = fields.split_off(1);
        proof {
            assert(features.deep_view() =~= row_features(ls[k as int]));
        }
        rows.push((class, features));
        k = k + 1;
    }
    Ok(rows)
}

} // verus!
