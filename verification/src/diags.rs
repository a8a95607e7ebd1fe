//! Diagnostics collected by every compiler stage.
//!
//! Each stage records errors, warnings and notes here.  The records carry a
//! code, a message and source locations; rendering them for a terminal is the
//! job of the program around the library.

use vstd::prelude::*;

verus! {

/// A byte range within one registered source file.
#[derive(Clone, Copy, Debug, PartialEq, Eq, Hash, Structural)]
pub struct SourceSpan {
    pub file_id: usize,
    pub start: usize,
    pub end: usize,
}

impl SourceSpan {
    /// A span covering `start..end` in file `file_id`.
    pub fn new(file_id: usize, start: usize, end: usize) -> (s: SourceSpan)
        ensures
            s.file_id == file_id,
            s.start == start,
            s.end == end,
    {
        SourceSpan { file_id, start, end }
    }
}

/// How serious a diagnostic is.
#[derive(Clone, Copy, Debug, PartialEq, Eq, Structural)]
pub enum Severity {
    Error,
    Warning,
    Note,
}

/// One recorded diagnostic.
#[derive(Clone, Debug)]
pub struct Diagnostic {
    pub severity: Severity,
    pub code: String,
    pub msg: String,
    /// The primary location, if the diagnostic points at source text.
    pub primary: Option<SourceSpan>,
    /// Additional locations, each with its own annotation text.
    pub secondaries: Vec<(SourceSpan, String)>,
}

/// The channel through which every stage reports problems.
pub struct Diags {
    name: String,
    /// Registered source files as (name, contents); the index is the file id.
    files: Vec<(String, String)>,
    verbosity: u64,
    noprint: bool,
    records: Vec<Diagnostic>,
}

/// The spec-level content of a diagnostic record.
pub struct DiagView {
    pub severity: Severity,
    pub code: Seq<char>,
    pub msg: Seq<char>,
    pub primary: Option<SourceSpan>,
    pub secondaries: Seq<(SourceSpan, Seq<char>)>,
}

pub open spec fn diag_view(d: Diagnostic) -> DiagView {
    DiagView {
        severity: d.severity,
        code: d.code@,
        msg: d.msg@,
        primary: d.primary,
        secondaries: d.secondaries@.map_values(|p: (SourceSpan, String)| (p.0, p.1@)),
    }
}

impl Diags {
    /// The recorded diagnostics, oldest first.
    pub closed spec fn records(&self) -> Seq<DiagView> {
        self.records@.map_values(|d: Diagnostic| diag_view(d))
    }

    /// The registered files as (name, contents), indexed by file id.
    pub closed spec fn files_view(&self) -> Seq<(Seq<char>, Seq<char>)> {
        self.files@.map_values(|f: (String, String)| (f.0@, f.1@))
    }

    /// Whether printing was suppressed at construction.
    pub closed spec fn noprint_view(&self) -> bool {
        self.noprint
    }

    /// The name given at construction.
    pub closed spec fn name_view(&self) -> Seq<char> {
        self.name@
    }

    /// The verbosity given at construction.
    pub closed spec fn verbosity_view(&self) -> u64 {
        self.verbosity
    }

    /// Number of errors recorded so far.
    pub open spec fn error_count_spec(&self) -> nat {
        self.records().filter(|d: DiagView| d.severity == Severity::Error).len()
    }

    /// Creates the diagnostics channel with the main file registered as file 0.
    pub fn new(name: &str, fstr: &str, verbosity: u64, noprint: bool) -> (d: Diags)
        ensures
            d.name_view() == name@,
            d.files_view() == seq![(name@, fstr@)],
            d.verbosity_view() == verbosity,
            d.noprint_view() == noprint,
            d.records() == Seq::<DiagView>::empty(),
    {
        let mut files: Vec<(String, String)> = Vec::new();
        files.push((name.to_owned(), fstr.to_owned()));
        let d = Diags { name: name.to_owned(), files, verbosity, noprint, records: Vec::new() };
        proof {
            assert(d.records@.map_values(|d: Diagnostic| diag_view(d)) =~= Seq::<DiagView>::empty());
            assert(d.files_view() =~= seq![(name@, fstr@)]);
        }
        d
    }

    /// Registers another source file and returns its id, which is the number
    /// of files registered before it.
    pub fn add_file(&mut self, name: &str, content: &str) -> (id: usize)
        requires
            old(self).files_view().len() < usize::MAX,
        ensures
            id == old(self).files_view().len(),
            final(self).files_view() == old(self).files_view().push((name@, content@)),
            final(self).records() == old(self).records(),
            final(self).name_view() == old(self).name_view(),
            final(self).verbosity_view() == old(self).verbosity_view(),
            final(self).noprint_view() == old(self).noprint_view(),
    {
        let id = self.files.len();
        let entry = (name.to_owned(), content.to_owned());
        self.files.push(entry);
        proof {
            assert(self.files_view() =~= old(self).files_view().push((name@, content@)));
        }
        id
    }

    /// The number of registered files.
    pub fn file_count(&self) -> (n: usize)
        ensures
            n == self.files_view().len(),
    {
        self.files.len()
    }

    /// The name and contents of file `id`.
    pub fn file(&self, id: usize) -> (f: (&str, &str))
        requires
            id < self.files_view().len(),
        ensures
            f.0@ == self.files_view()[id as int].0,
            f.1@ == self.files_view()[id as int].1,
    {
        (self.files[id].0.as_str(), self.files[id].1.as_str())
    }

    /// Whether printing was suppressed at construction.
    pub fn noprint(&self) -> (b: bool)
        ensures
            b == self.noprint_view(),
    {
        self.noprint
    }

    /// The number of recorded diagnostics.
    pub fn len(&self) -> (n: usize)
        ensures
            n == self.records().len(),
    {
        self.records.len()
    }

    /// The diagnostic at position `i`.
    pub fn get(&self, i: usize) -> (d: &Diagnostic)
        requires
            i < self.records().len(),
        ensures
            diag_view(*d) == self.records()[i as int],
    {
        &self.records[i]
    }

    /// The name given at construction.
    pub fn name(&self) -> (s: &str)
        ensures
            s@ == self.name_view(),
    {
        self.name.as_str()
    }

    /// The verbosity given at construction.
    pub fn verbosity(&self) -> (v: u64)
        ensures
            v == self.verbosity_view(),
    {
        self.verbosity
    }

    /// Number of recorded errors.
    pub fn error_count(&self) -> (n: usize)
        ensures
            n == self.error_count_spec(),
    {
        let mut n: usize = 0;
        let mut i: usize = 0;
        while i < self.records.len()
            invariant
                i <= self.records@.len(),
                n == self.records().take(i as int).filter(|d: DiagView| d.severity == Severity::Error).len(),
                n <= i,
            decreases self.records@.len() - i,
        {
            proof {
                let s = self.records();
                let f = |d: DiagView| d.severity == Severity::Error;
                assert(s.take(i as int + 1) =~= s.take(i as int).push(s[i as int]));
                s.take(i as int).lemma_filter_push(s[i as int], f);
            }
            if self.records[i].severity == Severity::Error {
                n = n + 1;
            }
            i = i + 1;
        }
        proof {
            assert(self.records().take(i as int) =~= self.records());
        }
        n
    }

    fn push(&mut self, severity: Severity, code: &str, msg: String, primary: Option<SourceSpan>,
        secondaries: Vec<(SourceSpan, String)>)
        ensures
            final(self).records() == old(self).records().push(DiagView {
                severity,
                code: code@,
                msg: msg@,
                primary,
                secondaries: secondaries@.map_values(|p: (SourceSpan, String)| (p.0, p.1@)),
            }),
            final(self).files_view() == old(self).files_view(),
            final(self).name_view() == old(self).name_view(),
            final(self).verbosity_view() == old(self).verbosity_view(),
            final(self).noprint_view() == old(self).noprint_view(),
    {
        let rec = Diagnostic { severity, code: code.to_owned(), msg, primary, secondaries };
        self.records.push(rec);
        proof {
            assert(self.records@.map_values(|d: Diagnostic| diag_view(d)) =~= old(self).records@.map_values(
                |d: Diagnostic| diag_view(d),
            ).push(diag_view(rec)));
        }
    }

    /// Records a warning without a source location.
    pub fn warn(&mut self, code: &str, msg: &str)
        ensures
            final(self).records() == old(self).records().push(DiagView {
                severity: Severity::Warning, code: code@, msg: msg@, primary: None, secondaries: Seq::empty(),
            }),
            final(self).files_view() == old(self).files_view(),
    {
        let v: Vec<(SourceSpan, String)> = Vec::new();
        proof { assert(v@.map_values(|p: (SourceSpan, String)| (p.0, p.1@)) =~= Seq::empty()); }
        self.push(Severity::Warning, code, msg.to_owned(), None, v);
    }

    /// Records a warning at a source location.
    pub fn warn1(&mut self, code: &str, msg: &str, loc: SourceSpan)
        ensures
            final(self).records() == old(self).records().push(DiagView {
                severity: Severity::Warning, code: code@, msg: msg@, primary: Some(loc), secondaries: Seq::empty(),
            }),
            final(self).files_view() == old(self).files_view(),
    {
        self.push_simple(Severity::Warning, code, msg, Some(loc));
    }

    /// Records an error without a source location.
    pub fn err0(&mut self, code: &str, msg: &str)
        ensures
            final(self).records() == old(self).records().push(DiagView {
                severity: Severity::Error, code: code@, msg: msg@, primary: None, secondaries: Seq::empty(),
            }),
            final(self).files_view() == old(self).files_view(),
    {
        self.push_simple(Severity::Error, code, msg, None);
    }

    /// Records an error at a source location.
    pub fn err1(&mut self, code: &str, msg: &str, loc: SourceSpan)
        ensures
            final(self).records() == old(self).records().push(DiagView {
                severity: Severity::Error, code: code@, msg: msg@, primary: Some(loc), secondaries: Seq::empty(),
            }),
            final(self).files_view() == old(self).files_view(),
    {
        self.push_simple(Severity::Error, code, msg, Some(loc));
    }

    /// Records a note without a source location.
    pub fn note0(&mut self, code: &str, msg: &str)
        ensures
            final(self).records() == old(self).records().push(DiagView {
                severity: Severity::Note, code: code@, msg: msg@, primary: None, secondaries: Seq::empty(),
            }),
            final(self).files_view() == old(self).files_view(),
    {
        self.push_simple(Severity::Note, code, msg, None);
    }

    /// Records a note at a source location.
    pub fn note1(&mut self, code: &str, msg: &str, loc: SourceSpan)
        ensures
            final(self).records() == old(self).records().push(DiagView {
                severity: Severity::Note, code: code@, msg: msg@, primary: Some(loc), secondaries: Seq::empty(),
            }),
            final(self).files_view() == old(self).files_view(),
    {
        self.push_simple(Severity::Note, code, msg, Some(loc));
    }

    /// Records an error at a primary location with a secondary location.
    pub fn err2(&mut self, code: &str, msg: &str, loc1: SourceSpan, loc2: SourceSpan)
        ensures
            final(self).records() == old(self).records().push(DiagView {
                severity: Severity::Error, code: code@, msg: msg@, primary: Some(loc1),
                secondaries: seq![(loc2, Seq::<char>::empty())],
            }),
            final(self).files_view() == old(self).files_view(),
    {
        let mut v: Vec<(SourceSpan, String)> = Vec::new();
        v.push((loc2, String::new()));
        proof {
            assert(v@.map_values(|p: (SourceSpan, String)| (p.0, p.1@)) =~= seq![(loc2, Seq::<char>::empty())]);
        }
        self.push(Severity::Error, code, msg.to_owned(), Some(loc1), v);
    }

    /// Records an error at a primary location with further locations, each
    /// carrying its own annotation.
    pub fn err_with_locs(&mut self, code: &str, msg: &str, primary: SourceSpan, secondaries: &[(SourceSpan, String)])
        ensures
            final(self).records() == old(self).records().push(DiagView {
                severity: Severity::Error, code: code@, msg: msg@, primary: Some(primary),
                secondaries: secondaries@.map_values(|p: (SourceSpan, String)| (p.0, p.1@)),
            }),
            final(self).files_view() == old(self).files_view(),
    {
        let mut v: Vec<(SourceSpan, String)> = Vec::new();
        let mut i: usize = 0;
        while i < secondaries.len()
            invariant
                i <= secondaries@.len(),
                v@.map_values(|p: (SourceSpan, String)| (p.0, p.1@)) =~= secondaries@.take(i as int).map_values(
                    |p: (SourceSpan, String)| (p.0, p.1@),
                ),
            decreases secondaries@.len() - i,
        {
            let loc = secondaries[i].0;
            let text = secondaries[i].1.clone();
            let ghost before = v@;
            v.push((loc, text));
            proof {
                assert(secondaries@.take(i as int + 1) =~= secondaries@.take(i as int).push(secondaries@[i as int]));
                assert(v@ == before.push((loc, text)));
                assert(before.push((loc, text)).map_values(|p: (SourceSpan, String)| (p.0, p.1@)) =~= before.map_values(
                    |p: (SourceSpan, String)| (p.0, p.1@),
                ).push((loc, text@)));
                assert(secondaries@.take(i as int).push(secondaries@[i as int]).map_values(
                    |p: (SourceSpan, String)| (p.0, p.1@),
                ) =~= secondaries@.take(i as int).map_values(|p: (SourceSpan, String)| (p.0, p.1@)).push(
                    (secondaries@[i as int].0, secondaries@[i as int].1@),
                ));
            }
            i = i + 1;
        }
        proof {
            assert(secondaries@.take(i as int) =~= secondaries@);
        }
        self.push(Severity::Error, code, msg.to_owned(), Some(primary), v);
    }

    fn push_simple(&mut self, severity: Severity, code: &str, msg: &str, primary: Option<SourceSpan>)
        ensures
            final(self).records() == old(self).records().push(DiagView {
                severity, code: code@, msg: msg@, primary, secondaries: Seq::empty(),
            }),
            final(self).files_view() == old(self).files_view(),
            final(self).name_view() == old(self).name_view(),
            final(self).verbosity_view() == old(self).verbosity_view(),
            final(self).noprint_view() == old(self).noprint_view(),
    {
        let v: Vec<(SourceSpan, String)> = Vec::new();
        proof { assert(v@.map_values(|p: (SourceSpan, String)| (p.0, p.1@)) =~= Seq::empty()); }
        self.push(severity, code, msg.to_owned(), primary, v);
    }
}

} // verus!
