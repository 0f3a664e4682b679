//! Searching a set of files: each is searched with the one compiled pattern,
//! and a file that could not be read is skipped without ending the scan.
use vstd::prelude::*;
use crate::lines::text_lines;
use crate::pattern::CompiledPattern;
use crate::search::{
    count, find_labelled_lines, found, match_count, opt_view, results_view, LineModel,
    LineResult,
};

verus! {

/// What a search is asked to do.
pub struct Argument {
    /// The pattern to search for (a regular expression).
    pub pattern: String,
    /// The file or directory to search in.
    pub files: String,
    /// Match without regard to case.
    pub insensitive: bool,
    /// Report the number of matching lines instead of the lines.
    pub count: bool,
    /// Match whole words only.
    pub word: bool,
    /// Search a directory tree.
    pub recursive: bool,
}

/// A file met during a scan: its path, and its contents when it could be
/// read.
pub struct FileContents {
    pub path: String,
    pub contents: Option<String>,
}

/// The model of a file: its path, and its text when it could be read.
pub type FileModel = (Seq<char>, Option<Seq<char>>);

impl View for FileContents {
    type V = FileModel;

    open spec fn view(&self) -> FileModel {
        (self.path@, opt_view(self.contents))
    }
}

/// The number of matching lines in one file, with the file's path when
/// the scan labels its output.
pub struct FileCount {
    pub source: Option<String>,
    pub count: usize,
}

/// What a scan found: the matched lines, or the counts per file when only
/// counts were asked for, and the paths of the files that were skipped.
pub struct ScanOutcome {
    pub lines: Vec<LineResult>,
    pub counts: Vec<FileCount>,
    pub skipped: Vec<String>,
}

/// The models of a sequence of files.
pub open spec fn files_view(v: Seq<FileContents>) -> Seq<FileModel> {
    v.map_values(|f: FileContents| f@)
}

/// The label of a file's output.
pub open spec fn source_of(f: FileModel, label: bool) -> Option<Seq<char>> {
    if label {
        Some(f.0)
    } else {
        None
    }
}

/// The matched lines of all readable files, file after file.
pub open spec fn scan_lines(pat: (Seq<char>, bool), fs: Seq<FileModel>, label: bool) -> Seq<
    LineModel,
>
    decreases fs.len(),
{
    if fs.len() == 0 {
        Seq::empty()
    } else {
        let f = fs.last();
        scan_lines(pat, fs.drop_last(), label) + match f.1 {
            Some(t) => found(pat, source_of(f, label), t),
            None => Seq::empty(),
        }
    }
}

/// The label and the number of matching lines of each readable file, in
/// order.
pub open spec fn scan_counts(pat: (Seq<char>, bool), fs: Seq<FileModel>, label: bool) -> Seq<
    (Option<Seq<char>>, nat),
>
    decreases fs.len(),
{
    if fs.len() == 0 {
        Seq::empty()
    } else {
        let f = fs.last();
        let r = scan_counts(pat, fs.drop_last(), label);
        match f.1 {
            Some(t) => r.push((source_of(f, label), match_count(pat, text_lines(t)))),
            None => r,
        }
    }
}

/// The paths of the files that could not be read, in order.
pub open spec fn scan_skipped(fs: Seq<FileModel>) -> Seq<Seq<char>>
    decreases fs.len(),
{
    if fs.len() == 0 {
        Seq::empty()
    } else {
        let r = scan_skipped(fs.drop_last());
        match fs.last().1 {
            Some(_) => r,
            None => r.push(fs.last().0),
        }
    }
}

/// The models of a sequence of counts.
pub open spec fn counts_view(v: Seq<FileCount>) -> Seq<(Option<Seq<char>>, nat)> {
    v.map_values(|c: FileCount| (opt_view(c.source), c.count as nat))
}

/// Searches `files` in order with `p`. Each readable file gives its matched
/// lines, or its count when `count_only`; each is labelled with its path when
/// `label`. A file that could not be read is only recorded as skipped.
pub fn scan_files(
    p: &CompiledPattern,
    files: &Vec<FileContents>,
    count_only: bool,
    label: bool,
) -> (r: ScanOutcome)
    ensures
        !count_only ==> results_view(r.lines@) == scan_lines(p@, files_view(files@), label),
        !count_only ==> r.counts@.len() == 0,
        count_only ==> counts_view(r.counts@) == scan_counts(p@, files_view(files@), label),
        count_only ==> r.lines@.len() == 0,
        r.skipped@.map_values(|s: String| s@) == scan_skipped(files_view(files@)),
        forall|i: int| 0 <= i < r.lines@.len() ==> (#[trigger] r.lines@[i]).wf(),
{
    let ghost fs = files_view(files@);
    let mut lines: Vec<LineResult> = Vec::new();
    let mut counts: Vec<FileCount> = Vec::new();
    let mut skipped: Vec<String> = Vec::new();
    for k in 0..files.len()
        invariant
            fs == files_view(files@),
            !count_only ==> results_view(lines@) == scan_lines(p@, fs.subrange(0, k as int), label),
            !count_only ==> counts@.len() == 0,
            count_only ==> counts_view(counts@) == scan_counts(p@, fs.subrange(0, k as int), label),
            count_only ==> lines@.len() == 0,
            skipped@.map_values(|s: String| s@) == scan_skipped(fs.subrange(0, k as int)),
            forall|i: int| 0 <= i < lines@.len() ==> (#[trigger] lines@[i]).wf(),
    {
        let f = &files[k];
        let ghost fk = fs[k as int];
        assert(fs.subrange(0, k + 1).drop_last() =~= fs.subrange(0, k as int));
        assert(fs.subrange(0, k + 1).last() == fk);
        let source = if label {
            Some(f.path.clone())
        } else {
            None
        };
        assert(opt_view(source) == source_of(fk, label));
        match &f.contents {
            Some(text) => {
                if count_only {
                    let n = count(p, text.as_str());
                    let ghost before = counts_view(counts@);
                    counts.push(FileCount { source, count: n });
                    assert(counts_view(counts@) =~= before.push((source_of(fk, label), n as nat)));
                } else {
                    let mut found_here = find_labelled_lines(p, &source, text.as_str());
                    let ghost before = results_view(lines@);
                    let ghost here = results_view(found_here@);
                    lines.append(&mut found_here);
                    assert(results_view(lines@) =~= before + here);
                }
            },
            None => {
                let ghost before = skipped@.map_values(|s: String| s@);
                skipped.push(f.path.clone());
                assert(skipped@.map_values(|s: String| s@) =~= before.push(fk.0));
            },
        }
    }
    assert(fs.subrange(0, files.len() as int) =~= fs);
    ScanOutcome { lines, counts, skipped }
}

} // verus!
