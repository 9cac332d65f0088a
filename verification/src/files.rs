//! The files that git lists, read from the output of `git ls-files -z`.
use vstd::prelude::*;

use crate::path::{join_path, join_path_spec};
use crate::project::opt_view;

verus! {

#[derive(Debug, Clone, Copy, PartialEq, Eq, Structural)]
pub enum Error {
    Io,
}

impl Error {
    /// The error's text (its `Display`).
    pub fn to_text(&self) -> (r: String)
        ensures
            r@ == "Error::Io"@,
    {
        crate::text::to_owned_string("Error::Io")
    }
}

/// What `std::str::from_utf8` gives for some bytes: `None` when they are not
/// UTF-8.
pub uninterp spec fn spec_utf8_decode(bytes: Seq<u8>) -> Option<Seq<char>>;

/// Calls `std::str::from_utf8`. The contract names the result; UTF-8 itself
/// is left unstated.
#[verifier::external_body]
pub(crate) fn utf8_decode(bytes: &[u8]) -> (r: Option<String>)
    ensures
        opt_view(r) == spec_utf8_decode(bytes@),
{
    match std::str::from_utf8(bytes) {
        Ok(s) => Some(s.to_string()),
        Err(_) => None,
    }
}

/// The chunks between NUL bytes read so far, and the chunk being read.
pub open spec fn chunks_state(b: Seq<u8>) -> (Seq<Seq<u8>>, Seq<u8>)
    decreases b.len(),
{
    if b.len() == 0 {
        (Seq::empty(), Seq::empty())
    } else {
        let (done, cur) = chunks_state(b.drop_last());
        if b.last() == 0 {
            if cur.len() > 0 {
                (done.push(cur), Seq::empty())
            } else {
                (done, cur)
            }
        } else {
            (done, cur.push(b.last()))
        }
    }
}

/// The non-empty chunks of the bytes between NUL bytes.
pub open spec fn nul_chunks(b: Seq<u8>) -> Seq<Seq<u8>> {
    let (done, cur) = chunks_state(b);
    if cur.len() > 0 {
        done.push(cur)
    } else {
        done
    }
}

/// The non-empty chunks of the bytes between NUL bytes.
pub fn split_nul(bytes: &Vec<u8>) -> (r: Vec<Vec<u8>>)
    ensures
        r@.map_values(|c: Vec<u8>| c@) == nul_chunks(bytes@),
{
    let mut done: Vec<Vec<u8>> = Vec::new();
    let mut cur: Vec<u8> = Vec::new();
    let mut i: usize = 0;
    assert(bytes@.take(0) =~= Seq::<u8>::empty());
    assert(done@.map_values(|c: Vec<u8>| c@) =~= Seq::<Seq<u8>>::empty());
    while i < bytes.len()
        invariant
            i <= bytes.len(),
            chunks_state(bytes@.take(i as int)) == (done@.map_values(|c: Vec<u8>| c@), cur@),
        decreases bytes.len() - i,
    {
        assert(bytes@.take(i + 1).drop_last() =~= bytes@.take(i as int));
        assert(bytes@.take(i + 1).last() == bytes[i as int]);
        if bytes[i] == 0 {
            if cur.len() > 0 {
                let ghost before = done@;
                let chunk = cur;
                cur = Vec::new();
                done.push(chunk);
                assert(done@.map_values(|c: Vec<u8>| c@) =~= before.map_values(|c: Vec<u8>| c@).push(
                    done@.last()@,
                ));
                assert(cur@ =~= Seq::<u8>::empty());
            }
        } else {
            cur.push(bytes[i]);
        }
        i = i + 1;
    }
    assert(bytes@.take(bytes.len() as int) =~= bytes@);
    if cur.len() > 0 {
        let ghost before = done@;
        done.push(cur);
        assert(done@.map_values(|c: Vec<u8>| c@) =~= before.map_values(|c: Vec<u8>| c@).push(
            done@.last()@,
        ));
    }
    done
}

/// Each chunk decoded and joined to the base path; `None` when a chunk is
/// not UTF-8.
pub open spec fn decoded_paths(base_path: Seq<char>, chunks: Seq<Seq<u8>>) -> Option<Seq<Seq<char>>>
    decreases chunks.len(),
{
    if chunks.len() == 0 {
        Some(Seq::empty())
    } else {
        match (decoded_paths(base_path, chunks.drop_last()), spec_utf8_decode(chunks.last())) {
            (Some(ps), Some(s)) => Some(ps.push(join_path_spec(base_path, s))),
            _ => None,
        }
    }
}

proof fn lemma_decoded_fails_on(base_path: Seq<char>, cs: Seq<Seq<u8>>, k: int)
    requires
        0 <= k <= cs.len(),
        decoded_paths(base_path, cs.take(k)) is None,
    ensures
        decoded_paths(base_path, cs) is None,
    decreases cs.len() - k,
{
    if k < cs.len() {
        assert(cs.take(k + 1).drop_last() =~= cs.take(k));
        lemma_decoded_fails_on(base_path, cs, k + 1);
    } else {
        assert(cs.take(k) =~= cs);
    }
}

/// The paths that git printed (NUL-separated, relative to `base_path`),
/// joined to `base_path`; `None` when one is not UTF-8.
pub fn paths_from_git_output(base_path: &str, stdout: &Vec<u8>) -> (r: Option<Vec<String>>)
    ensures
        match r {
            Some(v) => decoded_paths(base_path@, nul_chunks(stdout@)) == Some(
                v@.map_values(|p: String| p@),
            ),
            None => decoded_paths(base_path@, nul_chunks(stdout@)) is None,
        },
{
    let chunks = split_nul(stdout);
    let ghost cv = chunks@.map_values(|c: Vec<u8>| c@);
    let mut paths: Vec<String> = Vec::new();
    let mut i: usize = 0;
    assert(cv.take(0) =~= Seq::<Seq<u8>>::empty());
    assert(paths@.map_values(|p: String| p@) =~= Seq::<Seq<char>>::empty());
    while i < chunks.len()
        invariant
            i <= chunks.len(),
            cv == chunks@.map_values(|c: Vec<u8>| c@),
            cv == nul_chunks(stdout@),
            decoded_paths(base_path@, cv.take(i as int)) == Some(paths@.map_values(|p: String| p@)),
        decreases chunks.len() - i,
    {
        assert(cv.take(i + 1).drop_last() =~= cv.take(i as int));
        assert(cv.take(i + 1).last() == chunks@[i as int]@);
        match utf8_decode(chunks[i].as_slice()) {
            Some(rel) => {
                let ghost before = paths@;
                paths.push(join_path(base_path, rel.as_str()));
                assert(paths@.map_values(|p: String| p@) =~= before.map_values(|p: String| p@).push(
                    join_path_spec(base_path@, rel@),
                ));
            },
            None => {
                proof {
                    lemma_decoded_fails_on(base_path@, cv, i + 1);
                }
                return None;
            },
        }
        i = i + 1;
    }
    assert(cv.take(chunks.len() as int) =~= cv);
    Some(paths)
}

/// The files that `git ls-files --others` printed: none when git failed; an
/// error when a path is not UTF-8.
pub fn untracked_files(base_path: &str, success: bool, stdout: &Vec<u8>) -> (r: Result<Vec<String>, Error>)
    ensures
        !success ==> (r matches Ok(v) && v@.len() == 0),
        success ==> match r {
            Ok(v) => decoded_paths(base_path@, nul_chunks(stdout@)) == Some(
                v@.map_values(|p: String| p@),
            ),
            Err(_) => decoded_paths(base_path@, nul_chunks(stdout@)) is None,
        },
{
    if success {
        match paths_from_git_output(base_path, stdout) {
            Some(v) => Ok(v),
            None => Err(Error::Io),
        }
    } else {
        Ok(Vec::new())
    }
}

/// The files that `git ls-files` printed: `None` when git failed or a path
/// is not UTF-8.
pub fn find_tracked_files(base_path: &str, success: bool, stdout: &Vec<u8>) -> (r: Option<Vec<String>>)
    ensures
        !success ==> r is None,
        success ==> match r {
            Some(v) => decoded_paths(base_path@, nul_chunks(stdout@)) == Some(
                v@.map_values(|p: String| p@),
            ),
            None => decoded_paths(base_path@, nul_chunks(stdout@)) is None,
        },
{
    if success {
        paths_from_git_output(base_path, stdout)
    } else {
        None
    }
}

} // verus!
