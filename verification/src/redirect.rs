//! The meaning of the two redirection open modes, as a model of file
//! contents: truncate discards what the file held, append keeps it.
//!
//! The file opening itself happens outside the library; this model is what
//! the open mode chosen there commits to.

use vstd::prelude::*;
use crate::parser::RedirMode;

verus! {

/// The contents of a redirection target after one write of `data`, given the
/// contents `existing` it held when opened.
pub open spec fn spec_written(mode: RedirMode, existing: Seq<u8>, data: Seq<u8>) -> Seq<u8> {
    match mode {
        RedirMode::Truncate => data,
        RedirMode::Append => existing + data,
    }
}

/// Computes the contents a redirection target holds after a write.
pub fn redirected_contents(mode: RedirMode, existing: &Vec<u8>, data: &Vec<u8>) -> (r: Vec<u8>)
    ensures
        r@ == spec_written(mode, existing@, data@),
{
    let mut r: Vec<u8> = Vec::new();
    match mode {
        RedirMode::Truncate => {},
        RedirMode::Append => {
            let mut i: usize = 0;
            while i < existing.len()
                invariant
                    i <= existing.len(),
                    r@ == existing@.take(i as int),
                decreases existing.len() - i,
            {
                r.push(existing[i]);
                proof {
                    assert(existing@.take(i + 1 as int) =~= existing@.take(i as int).push(
                        existing@[i as int],
                    ));
                }
                i = i + 1;
            }
            proof {
                assert(existing@.take(existing@.len() as int) =~= existing@);
            }
        },
    }
    let ghost base = r@;
    let mut j: usize = 0;
    while j < data.len()
        invariant
            j <= data.len(),
            r@ == base + data@.take(j as int),
        decreases data.len() - j,
    {
        r.push(data[j]);
        proof {
            assert(data@.take(j + 1 as int) =~= data@.take(j as int).push(data@[j as int]));
            assert(base + data@.take(j + 1 as int) =~= (base + data@.take(j as int)).push(
                data@[j as int],
            ));
        }
        j = j + 1;
    }
    proof {
        assert(data@.take(data@.len() as int) =~= data@);
        assert(base + data@ =~= spec_written(mode, existing@, data@));
    }
    r
}

/// Two appends to the same target keep the prior contents: the earlier bytes
/// stand untouched in front of the later ones.
pub proof fn lemma_append_preserves(existing: Seq<u8>, first: Seq<u8>, second: Seq<u8>)
    ensures
        spec_written(
            RedirMode::Append,
            spec_written(RedirMode::Append, existing, first),
            second,
        ) == existing + first + second,
        existing.is_prefix_of(
            spec_written(
                RedirMode::Append,
                spec_written(RedirMode::Append, existing, first),
                second,
            ),
        ),
{
    assert(existing + first + second =~= (existing + first) + second);
    assert(existing.is_prefix_of(existing + first + second)) by {
        assert((existing + first + second).subrange(0, existing.len() as int) =~= existing);
    }
}

/// Two truncating writes to the same target leave only the second one's
/// bytes: the first write is discarded.
pub proof fn lemma_truncate_discards(existing: Seq<u8>, first: Seq<u8>, second: Seq<u8>)
    ensures
        spec_written(
            RedirMode::Truncate,
            spec_written(RedirMode::Truncate, existing, first),
            second,
        ) == second,
{
}

} // verus!
