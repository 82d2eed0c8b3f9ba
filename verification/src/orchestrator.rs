//! The decisions of a test run: how the outcome of each file counts, when the
//! run stops, what the run's exit code is, and how a failed file is reported.

use vstd::prelude::*;

use crate::reporting::{render_failure_report, FailureKind, RecordMetadataCache, TestFailure};
use crate::text::{chars_of, push_char, push_str, string_of};

verus! {

/// Exit code: every file passed.
pub const EXIT_OK: u8 = 0;
/// Exit code: a runtime error (I/O, DuckDB, configuration, command line).
pub const EXIT_RUNTIME_ERROR: u8 = 1;
/// Exit code: a test failed on an expectation mismatch.
pub const EXIT_TEST_FAIL: u8 = 2;

/// How one file of the run ended.
#[derive(Clone, Copy, Debug, PartialEq, Eq, Structural)]
pub enum FileOutcome {
    /// Every record matched.
    Passed,
    /// A record did not match its expectation.
    Failed,
    /// The file could not be run.
    Errored,
}

/// The mathematical value of a [`RunTally`].
pub struct TallyModel {
    pub passed: nat,
    pub failed: nat,
    pub errored: nat,
    pub failed_files: Seq<Seq<char>>,
    pub errored_files: Seq<Seq<char>>,
    pub stopped: bool,
}

/// The tally of a run that has not started.
pub open spec fn empty_tally() -> TallyModel {
    TallyModel {
        passed: 0,
        failed: 0,
        errored: 0,
        failed_files: Seq::empty(),
        errored_files: Seq::empty(),
        stopped: false,
    }
}

/// Whether the run stops after a file with this outcome: always after a
/// runtime error, after a test failure only with `fail_fast`.
pub open spec fn stops_after(outcome: FileOutcome, fail_fast: bool) -> bool {
    outcome == FileOutcome::Errored || (outcome == FileOutcome::Failed && fail_fast)
}

/// The tally after one more file.
pub open spec fn step(t: TallyModel, name: Seq<char>, outcome: FileOutcome, fail_fast: bool) -> TallyModel {
    match outcome {
        FileOutcome::Passed => TallyModel { passed: t.passed + 1, ..t },
        FileOutcome::Failed => TallyModel {
            failed: t.failed + 1,
            failed_files: t.failed_files.push(name),
            stopped: fail_fast,
            ..t
        },
        FileOutcome::Errored => TallyModel {
            errored: t.errored + 1,
            errored_files: t.errored_files.push(name),
            stopped: true,
            ..t
        },
    }
}

/// The tally of a run over files with these names and outcomes: files are
/// counted in order until the run stops.
pub open spec fn run_model(names: Seq<Seq<char>>, outcomes: Seq<FileOutcome>, fail_fast: bool) -> TallyModel
    decreases outcomes.len(),
{
    if outcomes.len() == 0 {
        empty_tally()
    } else {
        let prev = run_model(names.drop_last(), outcomes.drop_last(), fail_fast);
        if prev.stopped {
            prev
        } else {
            step(prev, names.last(), outcomes.last(), fail_fast)
        }
    }
}

/// The exit code of a run with this tally.
pub open spec fn exit_code_model(t: TallyModel) -> u8 {
    if t.errored > 0 {
        EXIT_RUNTIME_ERROR
    } else if t.failed > 0 {
        EXIT_TEST_FAIL
    } else {
        EXIT_OK
    }
}

/// Counts the outcomes of the files of a run.
pub struct RunTally {
    pub files_passed: usize,
    pub files_failed: usize,
    pub files_errored: usize,
    pub failed_files: Vec<String>,
    pub errored_files: Vec<String>,
    stopped: bool,
}

pub open spec fn names_view(v: Seq<String>) -> Seq<Seq<char>> {
    v.map_values(|s: String| s@)
}

impl View for RunTally {
    type V = TallyModel;

    closed spec fn view(&self) -> TallyModel {
        TallyModel {
            passed: self.files_passed as nat,
            failed: self.files_failed as nat,
            errored: self.files_errored as nat,
            failed_files: names_view(self.failed_files@),
            errored_files: names_view(self.errored_files@),
            stopped: self.stopped,
        }
    }
}

impl RunTally {
    /// The tally before the first file.
    pub fn new() -> (r: Self)
        ensures
            r@ == empty_tally(),
    {
        let r = RunTally {
            files_passed: 0,
            files_failed: 0,
            files_errored: 0,
            failed_files: Vec::new(),
            errored_files: Vec::new(),
            stopped: false,
        };
        assert(r@.failed_files =~= Seq::<Seq<char>>::empty());
        assert(r@.errored_files =~= Seq::<Seq<char>>::empty());
        r
    }

    /// Counts one more file; tells whether the run goes on.
    pub fn record(&mut self, display_path: String, outcome: FileOutcome, fail_fast: bool) -> (keep_going: bool)
        requires
            !old(self)@.stopped,
            old(self)@.passed + old(self)@.failed + old(self)@.errored < usize::MAX,
        ensures
            final(self)@ == step(old(self)@, display_path@, outcome, fail_fast),
            keep_going == !stops_after(outcome, fail_fast),
            keep_going == !final(self)@.stopped,
    {
        proof { self.lemma_counts(); }
        match outcome {
            FileOutcome::Passed => {
                self.files_passed = self.files_passed + 1;
                true
            },
            FileOutcome::Failed => {
                self.files_failed = self.files_failed + 1;
                self.failed_files.push(display_path);
                self.stopped = fail_fast;
                assert(names_view(self.failed_files@) =~= names_view(old(self).failed_files@).push(display_path@));
                !fail_fast
            },
            FileOutcome::Errored => {
                self.files_errored = self.files_errored + 1;
                self.errored_files.push(display_path);
                self.stopped = true;
                assert(names_view(self.errored_files@) =~= names_view(old(self).errored_files@).push(display_path@));
                false
            },
        }
    }

    proof fn lemma_counts(&self)
        ensures
            self@.passed == self.files_passed,
            self@.failed == self.files_failed,
            self@.errored == self.files_errored,
    {
    }

    /// Whether every file counted so far passed.
    pub fn all_passed(&self) -> (r: bool)
        ensures
            r == (self@.failed == 0 && self@.errored == 0),
    {
        self.files_failed == 0 && self.files_errored == 0
    }

    /// The exit code of the run: 1 after a runtime error, else 2 after a
    /// test failure, else 0.
    pub fn exit_code(&self) -> (r: u8)
        ensures
            r == exit_code_model(self@),
            r == EXIT_OK <==> self@.failed == 0 && self@.errored == 0,
            r == EXIT_TEST_FAIL <==> self@.failed > 0 && self@.errored == 0,
            r == EXIT_RUNTIME_ERROR <==> self@.errored > 0,
    {
        if self.files_errored > 0 {
            EXIT_RUNTIME_ERROR
        } else if self.files_failed > 0 {
            EXIT_TEST_FAIL
        } else {
            EXIT_OK
        }
    }

    /// The files listed under `failures:`: the failed files, then those that
    /// could not be run, each in run order.
    pub fn failure_listing(&self) -> (r: Vec<String>)
        ensures
            names_view(r@) == self@.failed_files + self@.errored_files,
    {
        let mut out: Vec<String> = Vec::new();
        let n = self.failed_files.len();
        for i in 0..n
            invariant
                n == self.failed_files@.len(),
                names_view(out@) == names_view(self.failed_files@.take(i as int)),
        {
            let ghost before = out@;
            let c = self.failed_files[i].clone();
            out.push(c);
            proof {
                assert(out@ == before.push(c));
                assert(names_view(out@) =~= names_view(before).push(c@));
                assert(self.failed_files@.take(i + 1) =~= self.failed_files@.take(i as int).push(
                    self.failed_files@[i as int],
                ));
                assert(names_view(self.failed_files@.take(i + 1)) =~= names_view(
                    self.failed_files@.take(i as int),
                ).push(c@));
            }
        }
        let m = self.errored_files.len();
        assert(self.failed_files@.take(n as int) =~= self.failed_files@);
        for j in 0..m
            invariant
                m == self.errored_files@.len(),
                names_view(out@) == names_view(self.failed_files@) + names_view(
                    self.errored_files@.take(j as int),
                ),
        {
            let ghost before = out@;
            let c = self.errored_files[j].clone();
            out.push(c);
            proof {
                assert(names_view(out@) =~= names_view(before).push(c@));
                assert(self.errored_files@.take(j + 1) =~= self.errored_files@.take(j as int).push(
                    self.errored_files@[j as int],
                ));
                assert(names_view(self.errored_files@.take(j + 1)) =~= names_view(
                    self.errored_files@.take(j as int),
                ).push(c@));
                assert(names_view(out@) =~= names_view(self.failed_files@) + names_view(
                    self.errored_files@.take(j + 1),
                ));
            }
        }
        assert(self.errored_files@.take(m as int) =~= self.errored_files@);
        out
    }
}


/// Index of the first file after which the run stops (the number of files
/// when it never stops).
pub open spec fn stop_index(outcomes: Seq<FileOutcome>, fail_fast: bool) -> int
    decreases outcomes.len(),
{
    if outcomes.len() == 0 {
        0
    } else {
        let p = stop_index(outcomes.drop_last(), fail_fast);
        if p < outcomes.len() - 1 {
            p
        } else if stops_after(outcomes.last(), fail_fast) {
            outcomes.len() - 1
        } else {
            outcomes.len() as int
        }
    }
}

pub proof fn lemma_stop_index(outcomes: Seq<FileOutcome>, fail_fast: bool)
    ensures
        0 <= stop_index(outcomes, fail_fast) <= outcomes.len(),
        forall|i: int|
            0 <= i < stop_index(outcomes, fail_fast) ==> !stops_after(#[trigger] outcomes[i], fail_fast),
        stop_index(outcomes, fail_fast) < outcomes.len() ==> stops_after(
            outcomes[stop_index(outcomes, fail_fast)],
            fail_fast,
        ),
    decreases outcomes.len(),
{
    if outcomes.len() > 0 {
        lemma_stop_index(outcomes.drop_last(), fail_fast);
        let p = stop_index(outcomes.drop_last(), fail_fast);
        assert forall|i: int| 0 <= i < stop_index(outcomes, fail_fast) implies !stops_after(
            #[trigger] outcomes[i],
            fail_fast,
        ) by {
            if i < outcomes.len() - 1 {
                assert(outcomes.drop_last()[i] == outcomes[i]);
            }
        }
        if p < outcomes.len() - 1 {
            assert(outcomes.drop_last()[p] == outcomes[p]);
        }
    }
}

/// The laws of a run and of its exit code:
/// - files are counted in order up to and including the first one after
///   which the run stops (a runtime error, or a failure with `fail_fast`);
/// - the exit code is 0 exactly when every file passed;
/// - it is 1 exactly when the run stopped on a runtime error;
/// - it is 2 exactly when some file failed and no runtime error happened.
pub proof fn lemma_run_laws(names: Seq<Seq<char>>, outcomes: Seq<FileOutcome>, fail_fast: bool)
    requires
        names.len() == outcomes.len(),
    ensures
        ({
            let t = run_model(names, outcomes, fail_fast);
            let k = stop_index(outcomes, fail_fast);
            &&& t.passed + t.failed + t.errored == if k < outcomes.len() {
                k + 1
            } else {
                k
            }
            &&& t.stopped == (k < outcomes.len())
            &&& (exit_code_model(t) == EXIT_OK <==> forall|i: int|
                0 <= i < outcomes.len() ==> #[trigger] outcomes[i] == FileOutcome::Passed)
            &&& (exit_code_model(t) == EXIT_RUNTIME_ERROR <==> k < outcomes.len() && outcomes[k]
                == FileOutcome::Errored)
            &&& (exit_code_model(t) == EXIT_TEST_FAIL <==> t.failed > 0 && !(k < outcomes.len()
                && outcomes[k] == FileOutcome::Errored))
            &&& (t.errored > 0 <==> k < outcomes.len() && outcomes[k] == FileOutcome::Errored)
            &&& (t.passed + t.failed + t.errored > 0 ==> (t.failed + t.errored == 0 <==> forall|
                i: int,
            | 0 <= i < t.passed + t.failed + t.errored ==> outcomes[i] == FileOutcome::Passed))
        }),
    decreases outcomes.len(),
{
    lemma_stop_index(outcomes, fail_fast);
    if outcomes.len() > 0 {
        let ns = names.drop_last();
        let os = outcomes.drop_last();
        lemma_run_laws(ns, os, fail_fast);
        lemma_stop_index(os, fail_fast);
        let prev = run_model(ns, os, fail_fast);
        let k = stop_index(outcomes, fail_fast);
        let kp = stop_index(os, fail_fast);
        assert forall|i: int| 0 <= i < os.len() implies os[i] == outcomes[i] by {}
        if !prev.stopped {
            assert(kp == os.len());
            let o = outcomes.last();
            assert(outcomes[outcomes.len() - 1] == o);
            if o == FileOutcome::Passed {
                assert(k == outcomes.len());
                assert(prev.errored == 0);
            }
        } else {
            assert(k == kp);
        }
        let t = run_model(names, outcomes, fail_fast);
        if exit_code_model(t) == EXIT_OK {
            assert forall|i: int| 0 <= i < outcomes.len() implies #[trigger] outcomes[i]
                == FileOutcome::Passed by {
                if i < os.len() {
                    assert(os[i] == outcomes[i]);
                }
            }
        }
        if forall|i: int| 0 <= i < outcomes.len() ==> #[trigger] outcomes[i] == FileOutcome::Passed {
            assert forall|i: int| 0 <= i < os.len() implies #[trigger] os[i] == FileOutcome::Passed by {
                assert(outcomes[i] == FileOutcome::Passed);
            }
            assert(outcomes[outcomes.len() - 1] == FileOutcome::Passed);
        }
        let total = t.passed + t.failed + t.errored;
        if total > 0 && t.failed + t.errored == 0 {
            assert forall|i: int| 0 <= i < total implies outcomes[i] == FileOutcome::Passed by {
                if i < os.len() && i < prev.passed + prev.failed + prev.errored {
                    assert(os[i] == outcomes[i]);
                }
            }
        }
        if total > 0 && (forall|i: int| 0 <= i < total ==> outcomes[i] == FileOutcome::Passed) {
            let ptotal = prev.passed + prev.failed + prev.errored;
            assert forall|i: int| 0 <= i < ptotal implies os[i] == FileOutcome::Passed by {
                assert(outcomes[i] == FileOutcome::Passed);
            }
        }
    }
}

/// The number of files that a run takes up: every file up to and including
/// the first one after which it stops.
pub open spec fn files_run(outcomes: Seq<FileOutcome>, fail_fast: bool) -> int {
    let k = stop_index(outcomes, fail_fast);
    if k < outcomes.len() {
        k + 1
    } else {
        k
    }
}

/// The names of the files whose outcome is `o`, in order.
pub open spec fn names_with(names: Seq<Seq<char>>, outcomes: Seq<FileOutcome>, o: FileOutcome) -> Seq<
    Seq<char>,
>
    decreases outcomes.len(),
{
    if outcomes.len() == 0 || names.len() == 0 {
        Seq::empty()
    } else {
        let prev = names_with(names.drop_last(), outcomes.drop_last(), o);
        if outcomes.last() == o {
            prev.push(names.last())
        } else {
            prev
        }
    }
}

/// The order of a run: the files that it takes up are the first
/// `files_run` ones, in the given order; the failed and the errored files
/// are listed in that order, each count is the number of files with that
/// outcome among them, and at most one file errors (the run stops there).
pub proof fn lemma_run_order(names: Seq<Seq<char>>, outcomes: Seq<FileOutcome>, fail_fast: bool)
    requires
        names.len() == outcomes.len(),
    ensures
        ({
            let t = run_model(names, outcomes, fail_fast);
            let n = files_run(outcomes, fail_fast);
            &&& 0 <= n <= outcomes.len()
            &&& t.failed_files == names_with(names.take(n), outcomes.take(n), FileOutcome::Failed)
            &&& t.errored_files == names_with(names.take(n), outcomes.take(n), FileOutcome::Errored)
            &&& t.passed == names_with(names.take(n), outcomes.take(n), FileOutcome::Passed).len()
            &&& t.failed == t.failed_files.len()
            &&& t.errored == t.errored_files.len()
            &&& t.errored <= 1
            &&& (t.errored == 1 ==> t.stopped)
        }),
    decreases outcomes.len(),
{
    lemma_run_laws(names, outcomes, fail_fast);
    lemma_stop_index(outcomes, fail_fast);
    if outcomes.len() == 0 {
        assert(names.take(0) =~= Seq::<Seq<char>>::empty());
    } else {
        let ns = names.drop_last();
        let os = outcomes.drop_last();
        lemma_run_order(ns, os, fail_fast);
        lemma_run_laws(ns, os, fail_fast);
        lemma_stop_index(os, fail_fast);
        let prev = run_model(ns, os, fail_fast);
        let n = files_run(outcomes, fail_fast);
        let np = files_run(os, fail_fast);
        assert forall|i: int| 0 <= i < os.len() implies os[i] == outcomes[i] by {}
        if prev.stopped {
            assert(stop_index(outcomes, fail_fast) == stop_index(os, fail_fast));
            assert(n == np);
            assert(names.take(n) =~= ns.take(np));
            assert(outcomes.take(n) =~= os.take(np));
        } else {
            assert(np == os.len());
            assert(n == outcomes.len());
            assert(names.take(n) =~= names);
            assert(outcomes.take(n) =~= outcomes);
            assert(ns.take(np) =~= ns);
            assert(os.take(np) =~= os);
        }
    }
}


// ---------------------------------------------------------------------------
// One file

/// `s` with every occurrence of `from` replaced by `to`, scanning from the
/// left without overlaps (`str::replace`); an empty `from` matches before
/// every character and at the end.
pub open spec fn replace_all(s: Seq<char>, from: Seq<char>, to: Seq<char>) -> Seq<char>
    decreases s.len(),
{
    if from.len() == 0 {
        if s.len() == 0 {
            to
        } else {
            to + seq![s[0]] + replace_all(s.drop_first(), from, to)
        }
    } else if s.len() == 0 {
        Seq::empty()
    } else if s.len() >= from.len() && s.take(from.len() as int) == from {
        to + replace_all(s.skip(from.len() as int), from, to)
    } else {
        seq![s[0]] + replace_all(s.drop_first(), from, to)
    }
}

fn matches_at(v: &Vec<char>, i: usize, f: &Vec<char>) -> (r: bool)
    requires
        i <= v@.len(),
    ensures
        r == (v@.len() - i >= f@.len() && v@.skip(i as int).take(f@.len() as int) == f@),
{
    if v.len() - i < f.len() {
        return false;
    }
    let m = f.len();
    for k in 0..m
        invariant
            m == f@.len(),
            i + m <= v@.len(),
            v@.len() == v.len(),
            forall|q: int| 0 <= q < k ==> v@[i + q] == f@[q],
    {
        if v[i + k] != f[k] {
            assert(v@.skip(i as int).take(m as int)[k as int] != f@[k as int]);
            return false;
        }
    }
    assert(v@.skip(i as int).take(m as int) =~= f@);
    true
}

/// Replaces every occurrence of `from` in `s` by `to` (`str::replace`).
pub fn replace_str(s: &str, from: &str, to: &str) -> (r: String)
    ensures
        r@ == replace_all(s@, from@, to@),
{
    let v = chars_of(s);
    let f = chars_of(from);
    let mut out = String::new();
    let mut i: usize = 0;
    assert(v@.skip(0) =~= v@);
    while i < v.len()
        invariant
            i <= v@.len(),
            v@ == s@,
            f@ == from@,
            out@ + replace_all(v@.skip(i as int), f@, to@) == replace_all(v@, f@, to@),
        decreases v@.len() - i,
    {
        let ghost rest = v@.skip(i as int);
        let ghost before = out@;
        if f.len() == 0 {
            push_str(&mut out, to);
            push_char(&mut out, v[i]);
            proof {
                assert(rest.drop_first() =~= v@.skip(i + 1));
                assert(rest[0] == v@[i as int]);
                assert(out@ + replace_all(v@.skip(i + 1), f@, to@) =~= before + replace_all(rest, f@, to@));
            }
            i = i + 1;
        } else if matches_at(&v, i, &f) {
            push_str(&mut out, to);
            proof {
                assert(rest.skip(f@.len() as int) =~= v@.skip(i + f@.len()));
                assert(out@ + replace_all(v@.skip(i + f@.len()), f@, to@) =~= before + replace_all(rest, f@, to@));
            }
            i = i + f.len();
        } else {
            push_char(&mut out, v[i]);
            proof {
                assert(rest.drop_first() =~= v@.skip(i + 1));
                assert(rest[0] == v@[i as int]);
                assert(out@ + replace_all(v@.skip(i + 1), f@, to@) =~= before + replace_all(rest, f@, to@));
            }
            i = i + 1;
        }
    }
    proof {
        assert(v@.skip(i as int) =~= Seq::<char>::empty());
        if f@.len() == 0 {
            assert(out@ + to@ =~= replace_all(v@, f@, to@));
        } else {
            assert(out@ + Seq::<char>::empty() =~= out@);
        }
    }
    if f.len() == 0 {
        push_str(&mut out, to);
    }
    out
}

/// Why a file did not pass.
pub enum FileRunError {
    /// A record did not match; holds the report.
    TestFailure(String),
    /// The file could not be run; holds the message.
    Runtime(String),
}

/// The message for a script that could not be parsed: the details name the
/// script, not its preprocessed copy.
pub open spec fn parse_error_message(path: Seq<char>, preprocessed: Option<Seq<char>>, details: Seq<char>) -> Seq<char> {
    "parse error in "@ + path + ": "@ + match preprocessed {
        Some(p) => replace_all(details, p, path),
        None => details,
    }
}

/// The view of an optional string slice.
pub open spec fn opt_str_view(o: Option<&str>) -> Option<Seq<char>> {
    match o {
        Some(s) => Some(s@),
        None => None,
    }
}

/// The file that the runner ran: the preprocessed copy when there is one,
/// else the script.
pub open spec fn file_that_ran(path: Seq<char>, run_path: Option<Seq<char>>) -> Seq<char> {
    match run_path {
        Some(p) => p,
        None => path,
    }
}

/// Classifies the failure of a file: a parse error makes the file a runtime
/// error (with the preprocessed copy's path replaced by the script's in the
/// message); any other failure is a test failure, reported against the
/// script. `run_path` is the preprocessed copy, when there is one.
pub fn classify_failure(
    path: &str,
    run_path: Option<&str>,
    base_dir: &str,
    failure: &TestFailure,
    record_metadata: Option<&RecordMetadataCache>,
) -> (r: FileRunError)
    ensures
        match failure.kind {
            FailureKind::ParseError { details } => r matches FileRunError::Runtime(msg) && msg@
                == parse_error_message(
                path@,
                match run_path {
                    Some(p) => Some(p@),
                    None => None,
                },
                details@,
            ),
            _ => r matches FileRunError::TestFailure(report) && exists|shown: Seq<char>|
                #[trigger] crate::pathing::shown_path_form(
                    base_dir@,
                    crate::reporting::shown_location_file(
                        path@,
                        file_that_ran(path@, opt_str_view(run_path)),
                        failure.file@,
                    ),
                    shown,
                ) && report@ == crate::reporting::report_text(
                    shown,
                    *failure,
                    match record_metadata {
                        Some(cache) => crate::reporting::cache_lookup(cache@, failure.file@, failure.line),
                        None => None,
                    },
                ),
        },
{
    match &failure.kind {
        FailureKind::ParseError { details } => {
            let mut msg = "parse error in ".to_owned();
            push_str(&mut msg, path);
            push_str(&mut msg, ": ");
            match run_path {
                Some(p) => {
                    let replaced = replace_str(details.as_str(), p, path);
                    push_str(&mut msg, replaced.as_str());
                },
                None => push_str(&mut msg, details.as_str()),
            }
            assert(msg@ =~= parse_error_message(path@, opt_str_view(run_path), details@));
            FileRunError::Runtime(msg)
        },
        _ => {
            let parse_main_file = match run_path {
                Some(p) => p,
                None => path,
            };
            let report = render_failure_report(
                path,
                parse_main_file,
                base_dir,
                failure,
                record_metadata,
            );
            proof {
                assert(parse_main_file@ == file_that_ran(path@, opt_str_view(run_path)));
                let loc = crate::reporting::shown_location_file(
                    path@,
                    parse_main_file@,
                    failure.file@,
                );
                let rec = match record_metadata {
                    Some(cache) => crate::reporting::cache_lookup(cache@, failure.file@, failure.line),
                    None => None,
                };
                let shown = choose|shown: Seq<char>|
                    #[trigger] crate::pathing::shown_path_form(base_dir@, loc, shown) && report@
                        == crate::reporting::report_text(shown, *failure, rec);
                assert(crate::pathing::shown_path_form(base_dir@, loc, shown));
            }
            FileRunError::TestFailure(report)
        },
    }
}

} // verus!
