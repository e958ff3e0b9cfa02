//! Per-file search and the orchestration of a whole batch.
//!
//! One file is searched by decoding its bytes according to its name's
//! extension and scanning the resulting line sources; a zip archive's
//! entries are independent sources whose matches follow each other.  A file
//! that cannot be decoded contributes a single diagnostic line, marked with
//! a fixed prefix so a consumer can tell data from operational errors in
//! the same stream, and never disturbs the other files of the batch.
use vstd::prelude::*;
use vstd::utf8::encode_utf8;
use crate::decode::{detect_format, format_of, gunzip, gunzip_of, zip_extract, zip_entries_of,
    DecodeError, FileFormat};
use crate::scanner::{lines_of, scan_lines, scan_spec, split_lines};
use crate::timestamp::{Timestamp, TimestampView};

verus! {

/// Matches over a zip archive's entries: each entry is scanned as its own
/// line source, early exit and all, and the matches follow archive order.
pub open spec fn zip_scan_spec(
    entries: Seq<Seq<u8>>,
    start: TimestampView,
    end: TimestampView,
    pat: Seq<u8>,
) -> Seq<Seq<u8>>
    decreases entries.len(),
{
    if entries.len() == 0 {
        Seq::empty()
    } else {
        scan_spec(lines_of(entries[0]), start, end, pat) + zip_scan_spec(
            entries.drop_first(),
            start,
            end,
            pat,
        )
    }
}

/// What searching one file yields: the matches of its decoded lines, or
/// the decode error where its bytes cannot be read as what the file name's
/// extension announces.
pub open spec fn search_file_spec(
    name: Seq<u8>,
    content: Seq<u8>,
    start: TimestampView,
    end: TimestampView,
    pat: Seq<u8>,
) -> Result<Seq<Seq<u8>>, DecodeError> {
    match format_of(name) {
        FileFormat::Plain => Ok(scan_spec(lines_of(content), start, end, pat)),
        FileFormat::Gzip => match gunzip_of(content) {
            Some(plain) => Ok(scan_spec(lines_of(plain), start, end, pat)),
            None => Err(DecodeError::Gzip),
        },
        FileFormat::Zip => match zip_entries_of(content) {
            Some(entries) => Ok(zip_scan_spec(entries, start, end, pat)),
            None => Err(DecodeError::Zip),
        },
    }
}

/// Searches one file's bytes, dispatching on the extension of `name`.
pub fn search_content(
    name: &[u8],
    content: &[u8],
    start: &Timestamp,
    end: &Timestamp,
    pattern: &[u8],
) -> (r: Result<Vec<Vec<u8>>, DecodeError>)
    ensures
        match r {
            Ok(v) => search_file_spec(name@, content@, start@, end@, pattern@) == Ok::<
                Seq<Seq<u8>>,
                DecodeError,
            >(v.deep_view()),
            Err(e) => search_file_spec(name@, content@, start@, end@, pattern@) == Err::<
                Seq<Seq<u8>>,
                DecodeError,
            >(e),
        },
{
    match detect_format(name) {
        FileFormat::Plain => {
            let lines = split_lines(content);
            Ok(scan_lines(&lines, start, end, pattern))
        },
        FileFormat::Gzip => {
            match gunzip(content) {
                Ok(plain) => {
                    let lines = split_lines(plain.as_slice());
                    Ok(scan_lines(&lines, start, end, pattern))
                },
                Err(e) => Err(e),
            }
        },
        FileFormat::Zip => {
            match zip_extract(content) {
                Ok(entries) => {
                    let ghost all: Seq<Seq<u8>> = entries.deep_view();
                    let mut out: Vec<Vec<u8>> = Vec::new();
                    let n: usize = entries.len();
                    let mut i: usize = 0;
                    proof {
                        assert(all.skip(0) =~= all);
                        assert(out.deep_view() =~= Seq::<Seq<u8>>::empty());
                        assert(Seq::<Seq<u8>>::empty() + zip_scan_spec(all, start@, end@, pattern@)
                            =~= zip_scan_spec(all, start@, end@, pattern@));
                    }
                    while i < n
                        invariant
                            n == entries@.len(),
                            i <= n,
                            all == entries.deep_view(),
                            zip_scan_spec(all, start@, end@, pattern@) == out.deep_view()
                                + zip_scan_spec(all.skip(i as int), start@, end@, pattern@),
                        decreases n - i,
                    {
                        proof {
                            assert(all.skip(i as int)[0] == all[i as int]);
                            assert(all.skip(i as int).drop_first() =~= all.skip(i + 1));
                            assert(all[i as int] == entries@[i as int]@);
                        }
                        let lines = split_lines(entries[i].as_slice());
                        let mut matched = scan_lines(&lines, start, end, pattern);
                        let ghost prev = out.deep_view();
                        let ghost add = matched.deep_view();
                        out.append(&mut matched);
                        proof {
                            assert(out.deep_view() =~~= prev + add);
                            assert(prev + (add + zip_scan_spec(
                                all.skip(i + 1),
                                start@,
                                end@,
                                pattern@,
                            )) =~= out.deep_view() + zip_scan_spec(
                                all.skip(i + 1),
                                start@,
                                end@,
                                pattern@,
                            ));
                        }
                        i = i + 1;
                    }
                    proof {
                        assert(all.skip(n as int) =~= Seq::<Seq<u8>>::empty());
                        assert(out.deep_view() + Seq::<Seq<u8>>::empty() =~= out.deep_view());
                    }
                    Ok(out)
                },
                Err(e) => Err(e),
            }
        },
    }
}

/// The reason text of a decode error.
pub open spec fn reason_text(e: DecodeError) -> Seq<char> {
    match e {
        DecodeError::Gzip => "invalid gzip data"@,
        DecodeError::Zip => "invalid zip archive"@,
    }
}

/// The text of a diagnostic line: the fixed error marker, then the failed
/// file's name and the reason.
pub open spec fn diag_text_spec(name: Seq<char>, e: DecodeError) -> Seq<char> {
    "X-LOG-SEARCHER-ERROR: Failed to process file "@ + name + ": "@ + reason_text(e)
}

/// The bytes of a diagnostic line.
pub open spec fn diag_line_spec(name: Seq<char>, e: DecodeError) -> Seq<u8> {
    encode_utf8(diag_text_spec(name, e))
}

/// Builds the diagnostic line for a file that could not be decoded.
pub fn diagnostic_line(name: &str, e: DecodeError) -> (line: Vec<u8>)
    ensures
        line@ == diag_line_spec(name@, e),
{
    let mut text = String::from_str("X-LOG-SEARCHER-ERROR: Failed to process file ");
    text.append(name);
    text.append(": ");
    match e {
        DecodeError::Gzip => text.append("invalid gzip data"),
        DecodeError::Zip => text.append("invalid zip archive"),
    }
    text.as_str().as_bytes_vec()
}

/// The text of the diagnostic line for a file-name pattern that the regex
/// compiler rejects.
pub open spec fn pattern_diag_spec(pattern: Seq<char>) -> Seq<u8> {
    encode_utf8("X-LOG-SEARCHER-ERROR: Invalid regex: "@ + pattern)
}

/// Builds the diagnostic line reporting a rejected file-name pattern; the
/// job ends after it, with no file searched.
pub fn pattern_diagnostic_line(pattern: &str) -> (line: Vec<u8>)
    ensures
        line@ == pattern_diag_spec(pattern@),
{
    let mut text = String::from_str("X-LOG-SEARCHER-ERROR: Invalid regex: ");
    text.append(pattern);
    text.as_str().as_bytes_vec()
}

/// What one file contributes to the output stream: its matches, or one
/// diagnostic line where it could not be decoded.
pub open spec fn file_output_spec(
    name: Seq<char>,
    content: Seq<u8>,
    start: TimestampView,
    end: TimestampView,
    pat: Seq<u8>,
) -> Seq<Seq<u8>> {
    match search_file_spec(encode_utf8(name), content, start, end, pat) {
        Ok(lines) => lines,
        Err(e) => seq![diag_line_spec(name, e)],
    }
}

/// Searches one file and turns a decode failure into its diagnostic line,
/// so that a bad file yields output instead of an error.
pub fn search_file_lines(
    name: &String,
    content: &[u8],
    start: &Timestamp,
    end: &Timestamp,
    pattern: &[u8],
) -> (out: Vec<Vec<u8>>)
    ensures
        out.deep_view() == file_output_spec(name@, content@, start@, end@, pattern@),
{
    match search_content(name.as_str().as_bytes(), content, start, end, pattern) {
        Ok(lines) => lines,
        Err(e) => {
            let mut out: Vec<Vec<u8>> = Vec::new();
            out.push(diagnostic_line(name.as_str(), e));
            proof {
                assert(out.deep_view() =~~= seq![diag_line_spec(name@, e)]);
            }
            out
        },
    }
}

/// A file handed to the batch orchestrator: its name and its raw bytes.
pub struct ScanFile {
    pub name: String,
    pub content: Vec<u8>,
}

/// Mathematical image of a `ScanFile`.
pub ghost struct ScanFileView {
    pub name: Seq<char>,
    pub content: Seq<u8>,
}

impl View for ScanFile {
    type V = ScanFileView;

    open spec fn view(&self) -> ScanFileView {
        ScanFileView { name: self.name@, content: self.content@ }
    }
}

/// The views of a sequence of scan files.
pub open spec fn scan_file_views(files: Seq<ScanFile>) -> Seq<ScanFileView> {
    files.map_values(|f: ScanFile| f@)
}

/// The output stream of a whole batch: what each file contributes, in the
/// order the files are given.
pub open spec fn batch_output_spec(
    files: Seq<ScanFileView>,
    start: TimestampView,
    end: TimestampView,
    pat: Seq<u8>,
) -> Seq<Seq<u8>>
    decreases files.len(),
{
    if files.len() == 0 {
        Seq::empty()
    } else {
        file_output_spec(files[0].name, files[0].content, start, end, pat) + batch_output_spec(
            files.drop_first(),
            start,
            end,
            pat,
        )
    }
}

/// Searches a batch of files in order, isolating each file's failure to
/// one diagnostic line in the shared output.
pub fn run_scan(files: &Vec<ScanFile>, start: &Timestamp, end: &Timestamp, pattern: &[u8]) -> (out:
    Vec<Vec<u8>>)
    ensures
        out.deep_view() == batch_output_spec(scan_file_views(files@), start@, end@, pattern@),
{
    let ghost all: Seq<ScanFileView> = scan_file_views(files@);
    let mut out: Vec<Vec<u8>> = Vec::new();
    let n: usize = files.len();
    let mut i: usize = 0;
    proof {
        assert(all.skip(0) =~= all);
        assert(out.deep_view() =~= Seq::<Seq<u8>>::empty());
        assert(Seq::<Seq<u8>>::empty() + batch_output_spec(all, start@, end@, pattern@)
            =~= batch_output_spec(all, start@, end@, pattern@));
    }
    while i < n
        invariant
            n == files@.len(),
            i <= n,
            all == scan_file_views(files@),
            batch_output_spec(all, start@, end@, pattern@) == out.deep_view() + batch_output_spec(
                all.skip(i as int),
                start@,
                end@,
                pattern@,
            ),
        decreases n - i,
    {
        proof {
            assert(all.skip(i as int)[0] == all[i as int]);
            assert(all.skip(i as int).drop_first() =~= all.skip(i + 1));
        }
        let file = &files[i];
        let mut lines = search_file_lines(&file.name, file.content.as_slice(), start, end, pattern);
        let ghost prev = out.deep_view();
        let ghost add = lines.deep_view();
        out.append(&mut lines);
        proof {
            assert(out.deep_view() =~~= prev + add);
            assert(prev + (add + batch_output_spec(all.skip(i + 1), start@, end@, pattern@))
                =~= out.deep_view() + batch_output_spec(all.skip(i + 1), start@, end@, pattern@));
        }
        i = i + 1;
    }
    proof {
        assert(all.skip(n as int) =~= Seq::<ScanFileView>::empty());
        assert(out.deep_view() + Seq::<Seq<u8>>::empty() =~= out.deep_view());
    }
    out
}

/// A plain-text file, a gzip member that decompresses to the same bytes,
/// and a zip archive whose single entry holds the same bytes yield the
/// same matches, whatever the window and pattern.
pub proof fn lemma_format_equivalence(
    plain_name: Seq<u8>,
    gz_name: Seq<u8>,
    zip_name: Seq<u8>,
    plain: Seq<u8>,
    gz_bytes: Seq<u8>,
    zip_bytes: Seq<u8>,
    start: TimestampView,
    end: TimestampView,
    pat: Seq<u8>,
)
    requires
        format_of(plain_name) == FileFormat::Plain,
        format_of(gz_name) == FileFormat::Gzip,
        format_of(zip_name) == FileFormat::Zip,
        gunzip_of(gz_bytes) == Some(plain),
        zip_entries_of(zip_bytes) == Some(seq![plain]),
    ensures
        search_file_spec(gz_name, gz_bytes, start, end, pat) == search_file_spec(
            plain_name,
            plain,
            start,
            end,
            pat,
        ),
        search_file_spec(zip_name, zip_bytes, start, end, pat) == search_file_spec(
            plain_name,
            plain,
            start,
            end,
            pat,
        ),
{
    let entries: Seq<Seq<u8>> = seq![plain];
    assert(entries[0] == plain);
    assert(entries.drop_first() =~= Seq::<Seq<u8>>::empty());
    assert(zip_scan_spec(entries.drop_first(), start, end, pat) =~= Seq::<Seq<u8>>::empty());
    assert(zip_scan_spec(entries, start, end, pat) == scan_spec(lines_of(plain), start, end, pat)
        + Seq::<Seq<u8>>::empty());
    assert(scan_spec(lines_of(plain), start, end, pat) + Seq::<Seq<u8>>::empty() =~= scan_spec(
        lines_of(plain),
        start,
        end,
        pat,
    ));
}

/// The batch output splits at any point: the files before it and the files
/// from it on contribute independent, adjacent stretches.
pub proof fn lemma_batch_output_split(
    files: Seq<ScanFileView>,
    start: TimestampView,
    end: TimestampView,
    pat: Seq<u8>,
    i: int,
)
    requires
        0 <= i <= files.len(),
    ensures
        batch_output_spec(files, start, end, pat) == batch_output_spec(
            files.take(i),
            start,
            end,
            pat,
        ) + batch_output_spec(files.skip(i), start, end, pat),
    decreases i,
{
    if i == 0 {
        assert(files.take(0) =~= Seq::<ScanFileView>::empty());
        assert(files.skip(0) =~= files);
        assert(Seq::<Seq<u8>>::empty() + batch_output_spec(files, start, end, pat)
            =~= batch_output_spec(files, start, end, pat));
    } else {
        let rest = files.drop_first();
        lemma_batch_output_split(rest, start, end, pat, i - 1);
        assert(files.take(i)[0] == files[0]);
        assert(files.take(i).drop_first() =~= rest.take(i - 1));
        assert(files.skip(i) =~= rest.skip(i - 1));
        let head = file_output_spec(files[0].name, files[0].content, start, end, pat);
        assert(head + (batch_output_spec(rest.take(i - 1), start, end, pat) + batch_output_spec(
            rest.skip(i - 1),
            start,
            end,
            pat,
        )) =~= (head + batch_output_spec(rest.take(i - 1), start, end, pat)) + batch_output_spec(
            rest.skip(i - 1),
            start,
            end,
            pat,
        ));
    }
}

/// One file that cannot be decoded contributes exactly its diagnostic
/// line, and every other file's contribution is what it would have been
/// without the bad file: a single bad file never aborts the batch.
pub proof fn lemma_file_failure_isolated(
    files: Seq<ScanFileView>,
    start: TimestampView,
    end: TimestampView,
    pat: Seq<u8>,
    i: int,
    e: DecodeError,
)
    requires
        0 <= i < files.len(),
        search_file_spec(encode_utf8(files[i].name), files[i].content, start, end, pat) == Err::<
            Seq<Seq<u8>>,
            DecodeError,
        >(e),
    ensures
        batch_output_spec(files, start, end, pat) == batch_output_spec(
            files.take(i),
            start,
            end,
            pat,
        ) + seq![diag_line_spec(files[i].name, e)] + batch_output_spec(
            files.skip(i + 1),
            start,
            end,
            pat,
        ),
{
    lemma_batch_output_split(files, start, end, pat, i);
    assert(files.skip(i)[0] == files[i]);
    assert(files.skip(i).drop_first() =~= files.skip(i + 1));
    assert(file_output_spec(files[i].name, files[i].content, start, end, pat) == seq![
        diag_line_spec(files[i].name, e),
    ]);
    assert(batch_output_spec(files.take(i), start, end, pat) + (seq![
        diag_line_spec(files[i].name, e),
    ] + batch_output_spec(files.skip(i + 1), start, end, pat)) =~= batch_output_spec(
        files.take(i),
        start,
        end,
        pat,
    ) + seq![diag_line_spec(files[i].name, e)] + batch_output_spec(
        files.skip(i + 1),
        start,
        end,
        pat,
    ));
}

/// Searching is a pure function of the folder's files, the window and the
/// pattern: two runs over the same unmodified batch yield identical output.
pub proof fn lemma_batch_deterministic(
    first: Seq<ScanFileView>,
    second: Seq<ScanFileView>,
    start: TimestampView,
    end: TimestampView,
    pat: Seq<u8>,
)
    requires
        first == second,
    ensures
        batch_output_spec(first, start, end, pat) == batch_output_spec(second, start, end, pat),
{
}

} // verus!
