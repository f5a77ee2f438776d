//! Artifact fetching: assembling the ordered chunks of a content stream.

use vstd::prelude::*;
use crate::Error;

verus! {

/// The bytes of a chunk sequence, concatenated in order.
pub open spec fn concat_chunks(chunks: Seq<Seq<u8>>) -> Seq<u8>
    decreases chunks.len(),
{
    if chunks.len() == 0 {
        Seq::empty()
    } else {
        concat_chunks(chunks.drop_last()) + chunks.last()
    }
}

/// Assembles the content of a stream that yielded `chunks` in order and then
/// either ended cleanly (`terminal_error` absent) or failed. A clean stream
/// gives exactly the concatenated bytes, in order and untransformed; a
/// failed one gives `FetchIncomplete` and no content to commit.
pub fn assemble_content(chunks: &Vec<Vec<u8>>, terminal_error: &Option<String>) -> (r: Result<
    Vec<u8>,
    Error,
>)
    ensures
        terminal_error is None ==> (r matches Ok(bytes) && bytes@ == concat_chunks(
            chunks@.map_values(|c: Vec<u8>| c@),
        )),
        terminal_error matches Some(m) ==> (r matches Err(e)
            && e matches Error::FetchIncomplete(t) && t@ == m@),
{
    match terminal_error {
        Option::Some(m) => Err(Error::FetchIncomplete(m.clone())),
        Option::None => {
            let mut out: Vec<u8> = Vec::new();
            let mut i: usize = 0;
            while i < chunks.len()
                invariant
                    0 <= i <= chunks@.len(),
                    out@ == concat_chunks(
                        chunks@.subrange(0, i as int).map_values(|c: Vec<u8>| c@),
                    ),
                decreases chunks@.len() - i,
            {
                let c = &chunks[i];
                let mut j: usize = 0;
                while j < c.len()
                    invariant
                        0 <= j <= c@.len(),
                        c == &chunks[i as int],
                        0 <= i < chunks@.len(),
                        out@ == concat_chunks(
                            chunks@.subrange(0, i as int).map_values(|c: Vec<u8>| c@),
                        ) + c@.subrange(0, j as int),
                    decreases c@.len() - j,
                {
                    out.push(c[j]);
                    proof {
                        assert(c@.subrange(0, j + 1) =~= c@.subrange(0, j as int).push(
                            c@[j as int],
                        ));
                    }
                    j += 1;
                }
                proof {
                    let prev = chunks@.subrange(0, i as int).map_values(|c: Vec<u8>| c@);
                    let next = chunks@.subrange(0, i + 1).map_values(|c: Vec<u8>| c@);
                    assert(next.drop_last() =~= prev);
                    assert(next.last() == chunks@[i as int]@);
                    assert(c@.subrange(0, c@.len() as int) =~= c@);
                    assert(out@ == concat_chunks(next));
                }
                i += 1;
            }
            proof {
                assert(chunks@.subrange(0, chunks@.len() as int) =~= chunks@);
            }
            Ok(out)
        },
    }
}

} // verus!
