//! Storage-format dispatch and decoding.
//!
//! A file's storage encoding is chosen by its name's extension: `.gz` holds
//! one gzip member, `.zip` holds an archive whose entries are independent
//! line sources, and anything else is taken as plain text.  Decompression
//! itself is done by outside crates behind the two trusted wrappers below;
//! their results are named, not restated, since spelling out gzip or zip
//! decoding here would be a specification nobody could check.
use vstd::prelude::*;

verus! {

/// Why a file's bytes could not be decoded.
#[derive(Clone, Copy, PartialEq, Eq, Structural, Debug)]
pub enum DecodeError {
    /// The bytes are not a well-formed gzip member.
    Gzip,
    /// The bytes are not a zip archive whose entries can all be read.
    Zip,
}

/// The three storage encodings a file can arrive in.
#[derive(Clone, Copy, PartialEq, Eq, Structural, Debug)]
pub enum FileFormat {
    Plain,
    Gzip,
    Zip,
}

/// The byte 46, `'.'`.
pub open spec fn dot() -> u8 {
    46
}

/// Does `name` end in `.` followed by exactly `ext`?  The dot must not be
/// the name's first byte: a name such as `.gz` has no extension, it is a
/// bare (hidden) file name.
pub open spec fn has_extension(name: Seq<u8>, ext: Seq<u8>) -> bool {
    exists|d: int|
        {
            &&& 1 <= d < name.len()
            &&& name[d] == dot()
            &&& (forall|j: int| d < j < name.len() ==> name[j] != dot())
            &&& name.subrange(d + 1, name.len() as int) == ext
        }
}

/// The bytes of `gz`.
pub open spec fn gz_ext() -> Seq<u8> {
    seq!['g' as u8, 'z' as u8]
}

/// The bytes of `zip`.
pub open spec fn zip_ext() -> Seq<u8> {
    seq!['z' as u8, 'i' as u8, 'p' as u8]
}

/// The storage encoding that `name` selects.
pub open spec fn format_of(name: Seq<u8>) -> FileFormat {
    if has_extension(name, gz_ext()) {
        FileFormat::Gzip
    } else if has_extension(name, zip_ext()) {
        FileFormat::Zip
    } else {
        FileFormat::Plain
    }
}

/// Is the byte run from `from` to the end of `name` exactly `ext`?
fn suffix_is(name: &[u8], from: usize, ext: &[u8]) -> (r: bool)
    requires
        from <= name@.len() <= usize::MAX,
    ensures
        r == (name@.subrange(from as int, name@.len() as int) == ext@),
{
    let n: usize = name.len();
    if n - from != ext.len() {
        proof {
            assert(name@.subrange(from as int, name@.len() as int).len() != ext@.len());
        }
        return false;
    }
    let mut j: usize = 0;
    while j < ext.len()
        invariant
            from + ext@.len() == n,
            n == name@.len(),
            j <= ext@.len(),
            forall|k: int| 0 <= k < j ==> name@[from + k] == ext@[k],
        decreases ext@.len() - j,
    {
        if name[from + j] != ext[j] {
            proof {
                assert(name@.subrange(from as int, name@.len() as int)[j as int] != ext@[j as int]);
            }
            return false;
        }
        j = j + 1;
    }
    proof {
        assert(name@.subrange(from as int, name@.len() as int) =~= ext@);
    }
    true
}

/// Finds the last dot of `name` at a position past the first byte, the one
/// that separates an extension.
fn find_last_dot(name: &[u8]) -> (r: Option<usize>)
    ensures
        match r {
            Some(d) => 1 <= d < name@.len() && name@[d as int] == dot() && (forall|j: int|
                d < j < name@.len() ==> name@[j] != dot()),
            None => forall|j: int| 1 <= j < name@.len() ==> name@[j] != dot(),
        },
{
    let n: usize = name.len();
    let mut found: bool = false;
    let mut d: usize = 0;
    let mut i: usize = 1;
    while i < n
        invariant
            n == name@.len(),
            1 <= i || n == 0,
            i <= n || i == 1,
            found ==> 1 <= d < i <= n && name@[d as int] == dot() && (forall|j: int|
                d < j < i ==> name@[j] != dot()),
            !found ==> forall|j: int| 1 <= j < i ==> name@[j] != dot(),
        decreases n - i,
    {
        if name[i] == 46 {
            found = true;
            d = i;
        }
        i = i + 1;
    }
    if found {
        Some(d)
    } else {
        None
    }
}

/// Selects the storage encoding from the file name's extension.
pub fn detect_format(name: &[u8]) -> (r: FileFormat)
    ensures
        r == format_of(name@),
{
    let _n: usize = name.len();
    proof {
        assert(name@.len() <= usize::MAX);
    }
    let gz: [u8; 2] = [103, 122];
    let zip: [u8; 3] = [122, 105, 112];
    proof {
        assert(gz@ =~= gz_ext());
        assert(zip@ =~= zip_ext());
    }
    match find_last_dot(name) {
        Some(d) => {
            if suffix_is(name, d + 1, gz.as_slice()) {
                proof {
                    assert(has_extension(name@, gz_ext()));
                }
                FileFormat::Gzip
            } else if suffix_is(name, d + 1, zip.as_slice()) {
                proof {
                    assert(has_extension(name@, zip_ext()));
                    assert(forall|e: int|
                        1 <= e < name@.len() && name@[e] == dot() && (forall|j: int|
                            e < j < name@.len() ==> name@[j] != dot()) ==> e == d);
                }
                FileFormat::Zip
            } else {
                proof {
                    assert(forall|e: int|
                        1 <= e < name@.len() && name@[e] == dot() && (forall|j: int|
                            e < j < name@.len() ==> name@[j] != dot()) ==> e == d);
                }
                FileFormat::Plain
            }
        },
        None => {
            proof {
                assert(!has_extension(name@, gz_ext()));
                assert(!has_extension(name@, zip_ext()));
            }
            FileFormat::Plain
        },
    }
}

/// What decompressing one gzip member yields, as a function of the input
/// bytes alone: `None` where the bytes are not a well-formed member.
pub uninterp spec fn gunzip_of(b: Seq<u8>) -> Option<Seq<u8>>;

/// Relies on flate2's `read::GzDecoder`: reading it to the end yields the
/// decompressed bytes of the first gzip member of the input, or an error
/// where the input is not well-formed gzip; the outcome is a function of
/// the input bytes alone.
#[verifier::external_body]
pub(crate) fn gunzip(content: &[u8]) -> (r: Result<Vec<u8>, DecodeError>)
    ensures
        match r {
            Ok(v) => gunzip_of(content@) == Some(v@),
            Err(e) => gunzip_of(content@) is None && e == DecodeError::Gzip,
        },
{
    let mut decoder = flate2::read::GzDecoder::new(content);
    let mut out: Vec<u8> = Vec::new();
    match std::io::Read::read_to_end(&mut decoder, &mut out) {
        Ok(_) => Ok(out),
        Err(_) => Err(DecodeError::Gzip),
    }
}

/// What reading every entry of a zip archive yields, in archive order, as a
/// function of the input bytes alone: `None` where the bytes are not an
/// archive whose entries can all be read.
pub uninterp spec fn zip_entries_of(b: Seq<u8>) -> Option<Seq<Seq<u8>>>;

/// Relies on zip's `ZipArchive`: `new` parses the central directory of the
/// given bytes, `len` counts the entries, and `by_index` opens each entry
/// as a reader of its decompressed bytes; the outcome is a function of the
/// input bytes alone.
#[verifier::external_body]
pub(crate) fn zip_extract(content: &[u8]) -> (r: Result<Vec<Vec<u8>>, DecodeError>)
    ensures
        match r {
            Ok(es) => zip_entries_of(content@) == Some(es.deep_view()),
            Err(e) => zip_entries_of(content@) is None && e == DecodeError::Zip,
        },
{
    let cursor = std::io::Cursor::new(content);
    let mut archive = zip::ZipArchive::new(cursor).map_err(|_| DecodeError::Zip)?;
    let mut out: Vec<Vec<u8>> = Vec::new();
    for i in 0..archive.len() {
        let mut entry = archive.by_index(i).map_err(|_| DecodeError::Zip)?;
        let mut buf: Vec<u8> = Vec::new();
        std::io::Read::read_to_end(&mut entry, &mut buf).map_err(|_| DecodeError::Zip)?;
        out.push(buf);
    }
    Ok(out)
}

} // verus!
