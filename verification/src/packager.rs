//! Archives: files packed into one sequence of bytes, and compressed.
//!
//! An archive holds, for each file in turn: the length of the file's path
//! in bytes as four bytes, least significant first; the path in UTF-8; the
//! length of the file's content as eight bytes, least significant first;
//! and the content.

use vstd::bytes::*;
use vstd::prelude::*;
use vstd::slice::*;
use vstd::string::*;
use vstd::utf8::*;

verus! {

/// A file of an archive.
#[derive(Debug, Clone, PartialEq, Eq)]
pub struct ArchiveEntry {
    /// The path of the file, relative to the root of the archive.
    pub path: String,
    /// What the file holds.
    pub content: Vec<u8>,
}

/// The mathematical value of an [`ArchiveEntry`].
pub struct EntryModel {
    pub path: Seq<char>,
    pub content: Seq<u8>,
}

impl View for ArchiveEntry {
    type V = EntryModel;

    open spec fn view(&self) -> EntryModel {
        EntryModel { path: self.path@, content: self.content@ }
    }
}

/// Why an archive cannot be written or read.
#[derive(Debug, Clone, Copy, PartialEq, Eq, Structural)]
pub enum ArchiveError {
    /// The bytes end in the middle of a file.
    Truncated,
    /// The path of a file is not UTF-8.
    InvalidPath,
    /// The path of a file has more bytes than four bytes can count.
    PathTooLong,
    /// The bytes could not be compressed or decompressed.
    Compression,
}

/// The compression level of archives.
pub const COMPRESSION_LEVEL: i32 = 19;

/// The bytes that `zstd::stream::encode_all` gives for `data` at `level`.
/// Nothing is known of them but that they depend on `data` and `level` alone.
pub uninterp spec fn zstd_frame(data: Seq<u8>, level: int) -> Seq<u8>;

/// The bytes that `zstd::stream::decode_all` gives for `frame`. Nothing is
/// known of them but that they depend on `frame` alone.
pub uninterp spec fn zstd_content(frame: Seq<u8>) -> Seq<u8>;

/// Compresses `data`.
///
/// Not verified: the body calls `zstd::stream::encode_all`, which compresses
/// all of its source into one zstd frame at the given level, as a stream
/// encoder does. The contract claims one thing: when the call succeeds, its
/// result is the same for the same bytes and level; that result has the
/// name [`zstd_frame`]. On a failure the error's text is handed back.
#[verifier::external_body]
fn zstd_encode(data: &[u8], level: i32) -> (r: Result<Vec<u8>, String>)
    ensures
        r matches Ok(frame) ==> frame@ == zstd_frame(data@, level as int),
{
    match zstd::stream::encode_all(data, level) {
        Ok(frame) => Ok(frame),
        Err(e) => Err(e.to_string()),
    }
}

/// Decompresses `frame`.
///
/// Not verified: the body calls `zstd::stream::decode_all`, which
/// decompresses all of its source, as a stream decoder does. The contract
/// claims one thing: when the call succeeds, its result is the same for the
/// same bytes; that result has the name [`zstd_content`]. On a failure the
/// error's text is handed back.
#[verifier::external_body]
fn zstd_decode(frame: &[u8]) -> (r: Result<Vec<u8>, String>)
    ensures
        r matches Ok(data) ==> data@ == zstd_content(frame@),
{
    match zstd::stream::decode_all(frame) {
        Ok(data) => Ok(data),
        Err(e) => Err(e.to_string()),
    }
}

/// Reads bytes as UTF-8 text.
///
/// Not verified: the body calls `String::from_utf8`. The contract claims
/// what the standard library documents of it: it gives the text whose UTF-8
/// encoding the bytes are, and fails exactly when the bytes are not valid
/// UTF-8.
#[verifier::external_body]
fn text_of_bytes(bytes: Vec<u8>) -> (r: Option<String>)
    ensures
        match r {
            Some(text) => valid_utf8(bytes@) && text@ == decode_utf8(bytes@),
            None => !valid_utf8(bytes@),
        },
{
    String::from_utf8(bytes).ok()
}

/// Whether the lengths of an entry can be written into an archive.
pub open spec fn fits(e: EntryModel) -> bool {
    encode_utf8(e.path).len() <= u32::MAX && e.content.len() <= u64::MAX
}

/// The bytes of one file in an archive.
pub open spec fn frame_of(e: EntryModel) -> Seq<u8> {
    spec_u32_to_le_bytes(encode_utf8(e.path).len() as u32) + encode_utf8(e.path)
        + spec_u64_to_le_bytes(e.content.len() as u64) + e.content
}

/// The bytes of an archive of the files `entries`.
pub open spec fn spec_encode(entries: Seq<EntryModel>) -> Seq<u8>
    decreases entries.len(),
{
    if entries.len() == 0 {
        Seq::empty()
    } else {
        frame_of(entries[0]) + spec_encode(entries.skip(1))
    }
}

/// `r` with the files `done` before its own.
pub open spec fn after(done: Seq<EntryModel>, r: Result<Seq<EntryModel>, ArchiveError>) -> Result<
    Seq<EntryModel>,
    ArchiveError,
> {
    match r {
        Ok(rest) => Ok(done + rest),
        Err(e) => Err(e),
    }
}

/// The files of the archive `bytes`, or the first fault in the bytes.
pub open spec fn spec_decode(bytes: Seq<u8>) -> Result<Seq<EntryModel>, ArchiveError>
    decreases bytes.len(),
{
    if bytes.len() == 0 {
        Ok(Seq::empty())
    } else if bytes.len() < 4 {
        Err(ArchiveError::Truncated)
    } else {
        let n = spec_u32_from_le_bytes(bytes.subrange(0, 4)) as int;
        if bytes.len() < 4 + n {
            Err(ArchiveError::Truncated)
        } else if !valid_utf8(bytes.subrange(4, 4 + n)) {
            Err(ArchiveError::InvalidPath)
        } else if bytes.len() < 12 + n {
            Err(ArchiveError::Truncated)
        } else {
            let m = spec_u64_from_le_bytes(bytes.subrange(4 + n, 12 + n)) as int;
            if bytes.len() < 12 + n + m {
                Err(ArchiveError::Truncated)
            } else {
                after(
                    seq![
                        EntryModel {
                            path: decode_utf8(bytes.subrange(4, 4 + n)),
                            content: bytes.subrange(12 + n, 12 + n + m),
                        },
                    ],
                    spec_decode(bytes.skip(12 + n + m)),
                )
            }
        }
    }
}

/// The views of the entries.
pub open spec fn models(entries: Seq<ArchiveEntry>) -> Seq<EntryModel> {
    Seq::new(entries.len(), |i: int| entries[i]@)
}

/// Appends the bytes of `src` to `dst`.
fn append_bytes(dst: &mut Vec<u8>, src: &[u8])
    ensures
        final(dst)@ == old(dst)@ + src@,
{
    let mut i: usize = 0;
    assert(dst@ =~= old(dst)@ + src@.take(0));
    while i < src.len()
        invariant
            i <= src.len(),
            dst@ == old(dst)@ + src@.take(i as int),
        decreases src.len() - i,
    {
        dst.push(src[i]);
        assert(dst@ =~= old(dst)@ + src@.take(i + 1));
        i += 1;
    }
    assert(src@.take(src.len() as int) =~= src@);
}

/// Writes the archive of the files `entries`. The only fault is a path
/// that is too long to be written.
pub fn encode_archive(entries: &Vec<ArchiveEntry>) -> (r: Result<Vec<u8>, ArchiveError>)
    ensures
        match r {
            Ok(bytes) => {
                &&& forall|i: int| 0 <= i < entries@.len() ==> fits(#[trigger] entries@[i]@)
                &&& bytes@ == spec_encode(models(entries@))
            },
            Err(e) => {
                &&& e == ArchiveError::PathTooLong
                &&& exists|i: int| 0 <= i < entries@.len() && !fits(#[trigger] entries@[i]@)
            },
        },
{
    let ghost all = models(entries@);
    let mut out: Vec<u8> = Vec::new();
    let mut i: usize = 0;
    assert(all.skip(0) =~= all);
    assert(out@ + spec_encode(all) =~= spec_encode(all));
    while i < entries.len()
        invariant
            i <= entries.len(),
            all == models(entries@),
            forall|j: int| 0 <= j < i ==> fits(#[trigger] entries@[j]@),
            out@ + spec_encode(all.skip(i as int)) == spec_encode(all),
        decreases entries.len() - i,
    {
        let entry = &entries[i];
        let path = entry.path.as_str().as_bytes();
        if path.len() > u32::MAX as usize {
            assert(!fits(entries@[i as int]@));
            return Err(ArchiveError::PathTooLong);
        }
        let ghost before = out@;
        let ghost rest = all.skip(i as int);
        let path_len = u32_to_le_bytes(path.len() as u32);
        append_bytes(&mut out, path_len.as_slice());
        append_bytes(&mut out, path);
        let size = u64_to_le_bytes(entry.content.len() as u64);
        append_bytes(&mut out, size.as_slice());
        append_bytes(&mut out, entry.content.as_slice());
        proof {
            assert(rest[0] == entries@[i as int]@);
            assert(out@ == before + frame_of(rest[0])) by {
                assert(out@ =~= before + frame_of(rest[0]));
            }
            assert(rest.skip(1) =~= all.skip(i + 1));
            assert(out@ + spec_encode(all.skip(i + 1)) =~= before + (frame_of(rest[0])
                + spec_encode(rest.skip(1))));
        }
        i += 1;
    }
    assert(all.skip(entries.len() as int) =~= Seq::<EntryModel>::empty());
    assert(out@ + Seq::<u8>::empty() =~= out@);
    Ok(out)
}

/// Reads the files of an archive.
pub fn decode_archive(bytes: &[u8]) -> (r: Result<Vec<ArchiveEntry>, ArchiveError>)
    ensures
        match r {
            Ok(entries) => spec_decode(bytes@) == Ok::<Seq<EntryModel>, ArchiveError>(
                models(entries@),
            ),
            Err(e) => spec_decode(bytes@) == Err::<Seq<EntryModel>, ArchiveError>(e),
        },
{
    let len = bytes.len();
    let mut entries: Vec<ArchiveEntry> = Vec::new();
    let mut pos: usize = 0;
    assert(bytes@.skip(0) =~= bytes@);
    assert(models(entries@) =~= Seq::<EntryModel>::empty());
    assert(after(models(entries@), spec_decode(bytes@)) == spec_decode(bytes@)) by {
        match spec_decode(bytes@) {
            Ok(rest) => {
                assert(models(entries@) + rest =~= rest);
            },
            Err(_) => {},
        }
    }
    while pos < len
        invariant
            pos <= len,
            len == bytes@.len(),
            after(models(entries@), spec_decode(bytes@.skip(pos as int))) == spec_decode(bytes@),
        decreases len - pos,
    {
        let ghost rest = bytes@.skip(pos as int);
        if len - pos < 4 {
            return Err(ArchiveError::Truncated);
        }
        let n32 = u32_from_le_bytes(slice_subrange(bytes, pos, pos + 4));
        assert(rest.subrange(0, 4) =~= bytes@.subrange(pos as int, pos + 4));
        let n = n32 as usize;
        if len - pos - 4 < n {
            return Err(ArchiveError::Truncated);
        }
        let path_bytes = slice_to_vec(slice_subrange(bytes, pos + 4, pos + 4 + n));
        assert(rest.subrange(4, 4 + n) =~= bytes@.subrange(pos + 4, pos + 4 + n));
        let path = match text_of_bytes(path_bytes) {
            Some(path) => path,
            None => {
                return Err(ArchiveError::InvalidPath);
            },
        };
        if len - pos - 4 - n < 8 {
            return Err(ArchiveError::Truncated);
        }
        let m64 = u64_from_le_bytes(slice_subrange(bytes, pos + 4 + n, pos + 12 + n));
        assert(rest.subrange(4 + n, 12 + n) =~= bytes@.subrange(pos + 4 + n, pos + 12 + n));
        if ((len - pos - 12 - n) as u64) < m64 {
            return Err(ArchiveError::Truncated);
        }
        let m = m64 as usize;
        let content = slice_to_vec(slice_subrange(bytes, pos + 12 + n, pos + 12 + n + m));
        proof {
            assert(rest.subrange(12 + n, 12 + n + m) =~= bytes@.subrange(
                pos + 12 + n,
                pos + 12 + n + m,
            ));
            assert(rest.skip(12 + n + m) =~= bytes@.skip(pos + 12 + n + m));
        }
        let ghost done = models(entries@);
        let ghost entry = EntryModel { path: path@, content: content@ };
        entries.push(ArchiveEntry { path, content });
        proof {
            assert(models(entries@) =~= done.push(entry));
            let tail = spec_decode(bytes@.skip(pos + 12 + n + m));
            assert(spec_decode(rest) == after(seq![entry], tail));
            match tail {
                Ok(more) => {
                    assert(done + (seq![entry] + more) =~= done.push(entry) + more);
                },
                Err(_) => {},
            }
        }
        pos = pos + 12 + n + m;
    }
    proof {
        assert(bytes@.skip(len as int) =~= Seq::<u8>::empty());
        assert(models(entries@) + Seq::<EntryModel>::empty() =~= models(entries@));
    }
    Ok(entries)
}

/// An archive that was written reads back as the files it was written
/// from: decoding inverts encoding.
pub proof fn lemma_decode_inverts_encode(entries: Seq<EntryModel>)
    requires
        forall|i: int| 0 <= i < entries.len() ==> fits(#[trigger] entries[i]),
    ensures
        spec_decode(spec_encode(entries)) == Ok::<Seq<EntryModel>, ArchiveError>(entries),
    decreases entries.len(),
{
    if entries.len() == 0 {
        assert(entries =~= Seq::<EntryModel>::empty());
    } else {
        let e = entries[0];
        let rest = entries.skip(1);
        assert(fits(e));
        assert forall|i: int| 0 <= i < rest.len() implies fits(#[trigger] rest[i]) by {
            assert(rest[i] == entries[i + 1]);
        }
        lemma_decode_inverts_encode(rest);
        lemma_auto_spec_u32_to_from_le_bytes();
        lemma_auto_spec_u64_to_from_le_bytes();
        encode_utf8_valid_utf8(e.path);
        encode_utf8_decode_utf8(e.path);
        let path = encode_utf8(e.path);
        let n = path.len() as int;
        let m = e.content.len() as int;
        let head = spec_u32_to_le_bytes(n as u32);
        let size = spec_u64_to_le_bytes(m as u64);
        let bytes = spec_encode(entries);
        assert(bytes == head + path + size + e.content + spec_encode(rest));
        assert(bytes.subrange(0, 4) =~= head);
        assert(bytes.subrange(4, 4 + n) =~= path);
        assert(bytes.subrange(4 + n, 12 + n) =~= size);
        assert(bytes.subrange(12 + n, 12 + n + m) =~= e.content);
        assert(bytes.skip(12 + n + m) =~= spec_encode(rest));
        assert(seq![e] + rest =~= entries);
    }
}

/// Packs files into an archive and compresses it.
pub fn pack_directory(entries: &Vec<ArchiveEntry>) -> (r: Result<Vec<u8>, ArchiveError>)
    ensures
        match r {
            Ok(packed) => {
                &&& forall|i: int| 0 <= i < entries@.len() ==> fits(#[trigger] entries@[i]@)
                &&& packed@ == zstd_frame(spec_encode(models(entries@)), COMPRESSION_LEVEL as int)
            },
            Err(e) => e == ArchiveError::PathTooLong || e == ArchiveError::Compression,
        },
{
    let archive = match encode_archive(entries) {
        Ok(bytes) => bytes,
        Err(e) => {
            return Err(e);
        },
    };
    compress_file(archive.as_slice())
}

/// Decompresses an archive and reads its files.
pub fn unpack_directory(packed: &[u8]) -> (r: Result<Vec<ArchiveEntry>, ArchiveError>)
    ensures
        match r {
            Ok(entries) => spec_decode(zstd_content(packed@)) == Ok::<
                Seq<EntryModel>,
                ArchiveError,
            >(models(entries@)),
            Err(e) => e == ArchiveError::Compression || spec_decode(zstd_content(packed@)) == Err::<
                Seq<EntryModel>,
                ArchiveError,
            >(e),
        },
{
    let archive = match decompress_file(packed) {
        Ok(bytes) => bytes,
        Err(e) => {
            return Err(e);
        },
    };
    decode_archive(archive.as_slice())
}

/// Compresses the content of one file.
pub fn compress_file(content: &[u8]) -> (r: Result<Vec<u8>, ArchiveError>)
    ensures
        match r {
            Ok(packed) => packed@ == zstd_frame(content@, COMPRESSION_LEVEL as int),
            Err(e) => e == ArchiveError::Compression,
        },
{
    match zstd_encode(content, COMPRESSION_LEVEL) {
        Ok(packed) => Ok(packed),
        Err(_) => Err(ArchiveError::Compression),
    }
}

/// Decompresses the content of one file.
pub fn decompress_file(packed: &[u8]) -> (r: Result<Vec<u8>, ArchiveError>)
    ensures
        match r {
            Ok(content) => content@ == zstd_content(packed@),
            Err(e) => e == ArchiveError::Compression,
        },
{
    match zstd_decode(packed) {
        Ok(content) => Ok(content),
        Err(_) => Err(ArchiveError::Compression),
    }
}

} // verus!
