use vstd::prelude::*;
use vstd::string::StringSliceAdditionalSpecFns;

use crate::errors::Error;

verus! {

/// Where splitting stands after the first `count` bytes of `path`: the
/// segments completed so far, and the bytes of the segment under way. A `/`
/// ends the segment under way, which counts only if it is not empty.
pub open spec fn spec_split_state(path: Seq<u8>, count: nat) -> (Seq<Seq<u8>>, Seq<u8>)
    decreases count,
{
    if count == 0 {
        (Seq::empty(), Seq::empty())
    } else {
        let (done, current) = spec_split_state(path, (count - 1) as nat);
        if path[count - 1] == 0x2f {
            if current.len() > 0 {
                (done.push(current), Seq::empty())
            } else {
                (done, Seq::empty())
            }
        } else {
            (done, current.push(path[count - 1]))
        }
    }
}

/// The segments of a `/`-separated path, empty segments left out.
pub open spec fn spec_split(path: Seq<u8>) -> Seq<Seq<u8>> {
    let (done, current) = spec_split_state(path, path.len());
    if current.len() > 0 {
        done.push(current)
    } else {
        done
    }
}

/// No segment of a path is empty, and none holds a `/`.
pub proof fn lemma_split_segments(path: Seq<u8>, count: nat)
    requires
        count <= path.len(),
    ensures
        ({
            let (done, current) = spec_split_state(path, count);
            &&& forall|i: int|
                0 <= i < done.len() ==> (#[trigger] done[i]).len() > 0 && !done[i].contains(0x2f)
            &&& !current.contains(0x2f)
        }),
    decreases count,
{
    if count > 0 {
        lemma_split_segments(path, (count - 1) as nat);
        let (done, current) = spec_split_state(path, (count - 1) as nat);
        if path[count - 1] != 0x2f {
            let next = current.push(path[count - 1]);
            assert forall|j: int| 0 <= j < next.len() implies next[j] != 0x2f by {
                if j < current.len() {
                    assert(current.contains(current[j]));
                }
            }
        }
    }
}

/// The byte sequences that a list of segments holds.
pub open spec fn spec_segments(segments: Seq<Vec<u8>>) -> Seq<Seq<u8>> {
    Seq::new(segments.len(), |i: int| segments[i]@)
}

/// The segments of a `/`-separated path, empty segments left out.
pub fn split(path: &str) -> (segments: Vec<Vec<u8>>)
    ensures
        spec_segments(segments@) == spec_split(path.spec_bytes()),
{
    let bytes = path.as_bytes();
    let len: usize = bytes.len();
    let mut segments: Vec<Vec<u8>> = Vec::new();
    let mut current: Vec<u8> = Vec::new();
    let mut i: usize = 0;
    while i < len
        invariant
            i <= len,
            len == bytes@.len(),
            (spec_segments(segments@), current@) == spec_split_state(bytes@, i as nat),
        decreases len - i,
    {
        let ghost done = spec_segments(segments@);
        if bytes[i] == 0x2f {
            if current.len() > 0 {
                segments.push(current);
                current = Vec::new();
                assert(spec_segments(segments@) =~= done.push(spec_split_state(bytes@, i as nat).1));
            }
            assert(current@ =~= Seq::<u8>::empty());
        } else {
            current.push(bytes[i]);
        }
        i = i + 1;
    }
    let ghost done = spec_segments(segments@);
    if current.len() > 0 {
        segments.push(current);
        assert(spec_segments(segments@) =~= done.push(spec_split_state(bytes@, len as nat).1));
    }
    segments
}

/// The last segment of a path: the name of what the path leads to. A path
/// without segments names nothing.
pub open spec fn spec_basename(path: Seq<u8>) -> Result<Seq<u8>, Error> {
    let segments = spec_split(path);
    if segments.len() == 0 {
        Err(Error::InvalidPathError)
    } else {
        Ok(segments.last())
    }
}

/// The segments of a path but for the last: the way to its parent.
pub open spec fn spec_dirname(path: Seq<u8>) -> Result<Seq<Seq<u8>>, Error> {
    let segments = spec_split(path);
    if segments.len() == 0 {
        Err(Error::InvalidPathError)
    } else {
        Ok(segments.drop_last())
    }
}

/// Parts a path into the way to its parent and its own name.
pub fn split_parent(path: &str) -> (res: Result<(Vec<Vec<u8>>, Vec<u8>), Error>)
    ensures
        match res {
            Ok((parent, name)) => spec_dirname(path.spec_bytes()) == Ok::<Seq<Seq<u8>>, Error>(
                spec_segments(parent@),
            ) && spec_basename(path.spec_bytes()) == Ok::<Seq<u8>, Error>(name@),
            Err(e) => e == Error::InvalidPathError && spec_split(path.spec_bytes()).len() == 0,
        },
{
    let mut segments = split(path);
    let ghost all = spec_segments(segments@);
    match segments.pop() {
        Some(name) => {
            assert(spec_segments(segments@) =~= all.drop_last());
            assert(name@ == all.last());
            Ok((segments, name))
        },
        None => Err(Error::InvalidPathError),
    }
}

} // verus!
