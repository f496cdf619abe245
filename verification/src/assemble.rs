//! One buffer out of the files of a log: what each file holds, unpacked
//! where it is compressed, one after the other.
//!
//! Unpacking is `flate2`'s work; here it has a name, `gunzipped`, and the
//! buffer is stated over it.

use std::io::Read;
use vstd::prelude::*;

verus! {

/// `std::io::Error`, which is handed on as it comes and never looked into.
#[verifier::external_type_specification]
#[verifier::external_body]
pub struct ExIoError(std::io::Error);

/// What `flate2` unpacks from gzip data: the content of the first member, or
/// `None` where the data is no gzip data or is damaged.
pub uninterp spec fn gunzipped(data: Seq<u8>) -> Option<Seq<u8>>;

/// Reads `data` to its end through `flate2::read::GzDecoder`. What comes out
/// depends on the data alone: the unpacked bytes, or the error of the first
/// read that failed.
#[verifier::external_body]
pub(crate) fn gunzip(data: &[u8]) -> (unpacked: Result<Vec<u8>, std::io::Error>)
    ensures
        match unpacked {
            Ok(bytes) => gunzipped(data@) == Some(bytes@),
            Err(_) => gunzipped(data@) is None,
        },
{
    let mut bytes = Vec::new();
    flate2::read::GzDecoder::new(data).read_to_end(&mut bytes).map(|_| bytes)
}

/// Why a log could not be put together.
#[derive(Clone, Copy, Debug, PartialEq, Eq)]
pub enum AssembleError {
    /// The file at this place of the list is marked as compressed and could
    /// not be unpacked.
    Decompression { segment: usize },
}

/// What a file contributes to the buffer: its bytes, unpacked if it is
/// compressed.
pub open spec fn content(raw: Seq<u8>, compressed: bool) -> Option<Seq<u8>> {
    if compressed {
        gunzipped(raw)
    } else {
        Some(raw)
    }
}

/// What a list of files makes: what each contributes, one after the other,
/// or the place of the first file that cannot be unpacked.
pub open spec fn assembled(files: Seq<(Seq<u8>, bool)>) -> Result<Seq<u8>, AssembleError>
    decreases files.len(),
{
    if files.len() == 0 {
        Ok(Seq::empty())
    } else {
        match assembled(files.drop_last()) {
            Err(error) => Err(error),
            Ok(bytes) => match content(files.last().0, files.last().1) {
                Some(more) => Ok(bytes + more),
                None => Err(AssembleError::Decompression { segment: (files.len() - 1) as usize }),
            },
        }
    }
}

/// A result with the buffer in it as plain values.
pub open spec fn buffer_view(buffer: Result<Vec<u8>, AssembleError>) -> Result<
    Seq<u8>,
    AssembleError,
> {
    match buffer {
        Ok(bytes) => Ok(bytes@),
        Err(error) => Err(error),
    }
}

/// Appends `more` to `buffer`.
pub fn append_bytes(buffer: &mut Vec<u8>, more: &[u8])
    ensures
        final(buffer)@ == old(buffer)@ + more@,
{
    let mut i: usize = 0;
    while i < more.len()
        invariant
            i <= more.len(),
            buffer@ == old(buffer)@ + more@.take(i as int),
        decreases more.len() - i,
    {
        buffer.push(more[i]);
        i += 1;
        assert(buffer@ =~= old(buffer)@ + more@.take(i as int));
    }
    assert(more@.take(i as int) =~= more@);
}

/// Appends what one file holds to `buffer`, unpacked if the file is
/// compressed. Returns whether that could be done; if not, `buffer` is left
/// as it was.
pub fn append_segment(buffer: &mut Vec<u8>, raw: &[u8], compressed: bool) -> (done: bool)
    ensures
        done == content(raw@, compressed).is_some(),
        done ==> final(buffer)@ == old(buffer)@ + content(raw@, compressed).unwrap(),
        !done ==> final(buffer)@ == old(buffer)@,
{
    if compressed {
        match gunzip(raw) {
            Ok(bytes) => {
                append_bytes(buffer, bytes.as_slice());
                true
            },
            Err(_) => false,
        }
    } else {
        append_bytes(buffer, raw);
        true
    }
}

/// Puts the files of a log together: the bytes of each, in the order of the
/// list, unpacked where the file is marked as compressed.
///
/// Fails with `Decompression` at the first file that is marked as compressed
/// and cannot be unpacked.
pub fn assemble(files: &Vec<(Vec<u8>, bool)>) -> (buffer: Result<Vec<u8>, AssembleError>)
    ensures
        buffer_view(buffer) == assembled(files.deep_view()),
{
    let ghost all = files.deep_view();
    let mut buffer: Vec<u8> = Vec::new();
    let mut i: usize = 0;
    while i < files.len()
        invariant
            i <= files.len(),
            all == files.deep_view(),
            assembled(all.take(i as int)) == Ok::<Seq<u8>, AssembleError>(buffer@),
        decreases files.len() - i,
    {
        proof {
            assert(all.take(i + 1).drop_last() =~= all.take(i as int));
            assert(all.take(i + 1).last() == all[i as int]);
            assert(all[i as int].0 == files@[i as int].0@);
            assert(all[i as int].1 == files@[i as int].1);
        }
        if !append_segment(&mut buffer, files[i].0.as_slice(), files[i].1) {
            proof {
                lemma_assembled_keeps_failing(all, i + 1);
            }
            return Err(AssembleError::Decompression { segment: i });
        }
        i += 1;
    }
    assert(all.take(i as int) =~= all);
    Ok(buffer)
}

/// Once the first files of a list cannot be put together, neither can the
/// whole list, and the file that is named stays the same.
pub proof fn lemma_assembled_keeps_failing(files: Seq<(Seq<u8>, bool)>, count: int)
    requires
        0 <= count <= files.len(),
        assembled(files.take(count)) is Err,
    ensures
        assembled(files) == assembled(files.take(count)),
    decreases files.len() - count,
{
    if count < files.len() {
        assert(files.take(count + 1).drop_last() =~= files.take(count));
        lemma_assembled_keeps_failing(files, count + 1);
    } else {
        assert(files.take(count) =~= files);
    }
}

/// What each file of a list contributes, where every file can be unpacked.
pub open spec fn contents(files: Seq<(Seq<u8>, bool)>) -> Seq<Seq<u8>> {
    Seq::new(files.len(), |i: int| content(files[i].0, files[i].1).unwrap())
}

/// Where every file can be unpacked, the buffer is what the files hold, one
/// after the other in the order of the list.
pub proof fn lemma_assembled_is_concatenation(files: Seq<(Seq<u8>, bool)>)
    requires
        forall|i: int| 0 <= i < files.len() ==> content(#[trigger] files[i].0, files[i].1).is_some(),
    ensures
        assembled(files) == Ok::<Seq<u8>, AssembleError>(contents(files).flatten()),
    decreases files.len(),
{
    if files.len() == 0 {
        assert(contents(files) =~= Seq::<Seq<u8>>::empty());
    } else {
        let front = files.drop_last();
        assert forall|i: int| 0 <= i < front.len() implies content(
            #[trigger] front[i].0,
            front[i].1,
        ).is_some() by {
            assert(front[i] == files[i]);
        }
        lemma_assembled_is_concatenation(front);
        let last = content(files.last().0, files.last().1).unwrap();
        assert(contents(files) =~= contents(front).push(last));
        contents(front).lemma_flatten_push(last);
    }
}

/// Where the buffer cannot be made, the file that is named is the first of
/// the list that cannot be unpacked.
pub proof fn lemma_assembled_failure(files: Seq<(Seq<u8>, bool)>)
    requires
        assembled(files) is Err,
        files.len() <= usize::MAX,
    ensures
        ({
            let at = assembled(files)->Err_0->segment;
            &&& at < files.len()
            &&& content(files[at as int].0, files[at as int].1) is None
            &&& forall|i: int| 0 <= i < at ==> content(#[trigger] files[i].0, files[i].1).is_some()
        }),
    decreases files.len(),
{
    let front = files.drop_last();
    if assembled(front) is Err {
        lemma_assembled_failure(front);
        let at = assembled(front)->Err_0->segment;
        assert(files[at as int] == front[at as int]);
        assert forall|i: int| 0 <= i < at implies content(
            #[trigger] files[i].0,
            files[i].1,
        ).is_some() by {
            assert(files[i] == front[i]);
        }
    } else {
        assert forall|i: int| 0 <= i < files.len() - 1 implies content(
            #[trigger] files[i].0,
            files[i].1,
        ).is_some() by {
            assert(files[i] == front[i]);
            lemma_assembled_success(front, i);
        }
    }
}

/// Where the buffer can be made, every file of the list can be unpacked.
pub proof fn lemma_assembled_success(files: Seq<(Seq<u8>, bool)>, at: int)
    requires
        assembled(files) is Ok,
        0 <= at < files.len(),
    ensures
        content(files[at].0, files[at].1).is_some(),
    decreases files.len(),
{
    if at < files.len() - 1 {
        lemma_assembled_success(files.drop_last(), at);
    }
}

} // verus!
