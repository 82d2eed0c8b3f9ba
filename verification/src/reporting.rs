//! What the runner prints: status words, and the report of a failed test
//! record.

use std::collections::HashMap;

use vstd::prelude::*;

use crate::decimal::{decimal, push_decimal};
use crate::pathing::format_user_path_str;
use crate::text::{chars_of, opt_string_view, push_char, push_str, str_eq, string_of};

verus! {

/// `ok`, green when `use_color`.
pub fn format_ok(use_color: bool) -> (r: &'static str)
    ensures
        r@ == if use_color {
            "\x1b[32mok\x1b[0m"@
        } else {
            "ok"@
        },
{
    if use_color {
        "\x1b[32mok\x1b[0m"
    } else {
        "ok"
    }
}

/// `FAILED`, red when `use_color`.
pub fn format_failed(use_color: bool) -> (r: &'static str)
    ensures
        r@ == if use_color {
            "\x1b[31mFAILED\x1b[0m"@
        } else {
            "FAILED"@
        },
{
    if use_color {
        "\x1b[31mFAILED\x1b[0m"
    } else {
        "FAILED"
    }
}

/// `ERROR`, red when `use_color`.
pub fn format_error(use_color: bool) -> (r: &'static str)
    ensures
        r@ == if use_color {
            "\x1b[31mERROR\x1b[0m"@
        } else {
            "ERROR"@
        },
{
    if use_color {
        "\x1b[31mERROR\x1b[0m"
    } else {
        "ERROR"
    }
}

// ---------------------------------------------------------------------------
// Record metadata

/// A record of a parsed script, as far as reports need it.
pub enum RecordSummary {
    /// A `statement` record at `file:line`.
    Statement { file: String, line: u32 },
    /// A `system` record at `file:line`.
    System { file: String, line: u32 },
    /// A `query` record at `file:line`, with the label of its expected
    /// results, if any.
    Query { file: String, line: u32, label: Option<String> },
    /// Any other record (control, comment, ...); it is not counted.
    Other,
}

/// Which record a failure belongs to: its 1-based position among the
/// statement, system and query records, and its label.
#[derive(Debug, PartialEq, Eq)]
pub struct RecordId {
    pub index_1_based: usize,
    pub name: Option<String>,
}

/// One entry of the metadata cache.
pub struct RecordEntry {
    pub file: String,
    pub line: u32,
    pub id: RecordId,
}

/// The mathematical value of a [`RecordEntry`].
pub struct RecordEntryModel {
    pub file: Seq<char>,
    pub line: u32,
    pub index: nat,
    pub name: Option<Seq<char>>,
}

impl View for RecordEntry {
    type V = RecordEntryModel;

    open spec fn view(&self) -> RecordEntryModel {
        RecordEntryModel {
            file: self.file@,
            line: self.line,
            index: self.id.index_1_based as nat,
            name: opt_string_view(self.id.name),
        }
    }
}

/// The entries of the cache built from `records`: one per statement, system
/// or query record, numbered from 1 in file order.
pub open spec fn entries_of(records: Seq<RecordSummary>) -> Seq<RecordEntryModel>
    decreases records.len(),
{
    if records.len() == 0 {
        Seq::empty()
    } else {
        let prev = entries_of(records.drop_last());
        let index = prev.len() + 1;
        match records.last() {
            RecordSummary::Statement { file, line } => prev.push(
                RecordEntryModel { file: file@, line, index, name: None },
            ),
            RecordSummary::System { file, line } => prev.push(
                RecordEntryModel { file: file@, line, index, name: None },
            ),
            RecordSummary::Query { file, line, label } => prev.push(
                RecordEntryModel { file: file@, line, index, name: opt_string_view(label) },
            ),
            RecordSummary::Other => prev,
        }
    }
}

/// The last entry of `entries` at `file:line`, if any.
pub open spec fn lookup(entries: Seq<RecordEntryModel>, file: Seq<char>, line: u32) -> Option<
    RecordEntryModel,
>
    decreases entries.len(),
{
    if entries.len() == 0 {
        None
    } else if entries.last().file == file && entries.last().line == line {
        Some(entries.last())
    } else {
        lookup(entries.drop_last(), file, line)
    }
}

/// The entries of `entries` at `line`, in order.
pub open spec fn at_line(entries: Seq<RecordEntryModel>, line: u32) -> Seq<RecordEntryModel>
    decreases entries.len(),
{
    if entries.len() == 0 {
        Seq::empty()
    } else {
        let prev = at_line(entries.drop_last(), line);
        if entries.last().line == line {
            prev.push(entries.last())
        } else {
            prev
        }
    }
}

/// Looking a place up among the entries at its line finds what looking it up
/// among all entries finds.
pub proof fn lemma_lookup_at_line(entries: Seq<RecordEntryModel>, file: Seq<char>, line: u32)
    ensures
        lookup(at_line(entries, line), file, line) == lookup(entries, file, line),
    decreases entries.len(),
{
    if entries.len() > 0 {
        lemma_lookup_at_line(entries.drop_last(), file, line);
        let prev = at_line(entries.drop_last(), line);
        if entries.last().line == line {
            assert(prev.push(entries.last()).drop_last() =~= prev);
        }
    }
}

/// What the cache, as a map from a line to the entries at that line, finds
/// at `file:line`: the last entry there.
pub open spec fn cache_lookup(cache: Map<u32, Seq<RecordEntryModel>>, file: Seq<char>, line: u32) -> Option<
    RecordEntryModel,
> {
    if cache.contains_key(line) {
        lookup(cache[line], file, line)
    } else {
        None
    }
}

/// The views of a list of entries.
pub open spec fn entry_views(v: Seq<RecordEntry>) -> Seq<RecordEntryModel> {
    v.map_values(|e: RecordEntry| e@)
}

/// Maps record locations to record ids, so that a failure can name the record
/// it happened in. The records are kept by line number; each line holds its
/// records in file order.
pub struct RecordMetadataCache {
    by_line: HashMap<u32, Vec<RecordEntry>>,
}

impl View for RecordMetadataCache {
    type V = Map<u32, Seq<RecordEntryModel>>;

    closed spec fn view(&self) -> Map<u32, Seq<RecordEntryModel>> {
        self.by_line@.map_values(|v: Vec<RecordEntry>| entry_views(v@))
    }
}

fn clone_opt_string(o: &Option<String>) -> (r: Option<String>)
    ensures
        opt_string_view(r) == opt_string_view(*o),
{
    match o {
        Some(s) => Some(s.clone()),
        None => None,
    }
}

/// The cache map holds exactly the entries of `entries`, by line.
pub open spec fn holds_by_line(m: Map<u32, Seq<RecordEntryModel>>, entries: Seq<RecordEntryModel>) -> bool {
    forall|line: u32|
        if #[trigger] m.contains_key(line) {
            m[line] == at_line(entries, line)
        } else {
            at_line(entries, line).len() == 0
        }
}

impl RecordMetadataCache {
    /// Builds the cache from the records of a script, in file order.
    pub fn build(records: &Vec<RecordSummary>) -> (r: Self)
        ensures
            holds_by_line(r@, entries_of(records@)),
            forall|file: Seq<char>, line: u32|
                #[trigger] cache_lookup(r@, file, line) == lookup(entries_of(records@), file, line),
    {
        broadcast use vstd::std_specs::hash::group_hash_axioms;

        let mut by_line: HashMap<u32, Vec<RecordEntry>> = HashMap::new();
        let mut index: usize = 0;
        let n = records.len();
        for k in 0..n
            invariant
                n == records@.len(),
                index == entries_of(records@.take(k as int)).len(),
                index <= k,
                holds_by_line(
                    by_line@.map_values(|v: Vec<RecordEntry>| entry_views(v@)),
                    entries_of(records@.take(k as int)),
                ),
        {
            proof {
                assert(records@.take(k + 1).drop_last() =~= records@.take(k as int));
                assert(records@.take(k + 1).last() == records@[k as int]);
            }
            let ghost before = entries_of(records@.take(k as int));
            let entry = match &records[k] {
                RecordSummary::Statement { file, line } => Some(
                    RecordEntry {
                        file: file.clone(),
                        line: *line,
                        id: RecordId { index_1_based: index + 1, name: None },
                    },
                ),
                RecordSummary::System { file, line } => Some(
                    RecordEntry {
                        file: file.clone(),
                        line: *line,
                        id: RecordId { index_1_based: index + 1, name: None },
                    },
                ),
                RecordSummary::Query { file, line, label } => Some(
                    RecordEntry {
                        file: file.clone(),
                        line: *line,
                        id: RecordId { index_1_based: index + 1, name: clone_opt_string(label) },
                    },
                ),
                RecordSummary::Other => None,
            };
            match entry {
                Some(e) => {
                    let ghost ev = e@;
                    assert(entries_of(records@.take(k + 1)) == before.push(ev));
                    let line = e.line;
                    let ghost m0 = by_line@.map_values(|v: Vec<RecordEntry>| entry_views(v@));
                    let ghost b0 = by_line@;
                    assert(m0.contains_key(line) ==> m0[line] == at_line(before, line));
                    assert(!m0.contains_key(line) ==> at_line(before, line).len() == 0);
                    let mut at = match by_line.remove(&line) {
                        Some(v) => v,
                        None => Vec::new(),
                    };
                    let ghost old_at = entry_views(at@);
                    assert(old_at =~= at_line(before, line));
                    at.push(e);
                    assert(entry_views(at@) =~= old_at.push(ev));
                    by_line.insert(line, at);
                    index = index + 1;
                    proof {
                        let m = by_line@.map_values(|v: Vec<RecordEntry>| entry_views(v@));
                        let after = before.push(ev);
                        assert(after.drop_last() =~= before);
                        assert(after.last() == ev);
                        assert(by_line@ == b0.remove(line).insert(line, at));
                        assert forall|l: u32| #[trigger] m.contains_key(l) implies m[l] == at_line(
                            after,
                            l,
                        ) by {
                            if l != line {
                                assert(m0.contains_key(l));
                                assert(m[l] == m0[l]);
                            }
                        }
                        assert forall|l: u32| !#[trigger] m.contains_key(l) implies at_line(
                            after,
                            l,
                        ).len() == 0 by {
                            assert(!m0.contains_key(l));
                        }
                    }
                },
                None => {
                    assert(entries_of(records@.take(k + 1)) == before);
                },
            }
        }
        assert(records@.take(n as int) =~= records@);
        let r = RecordMetadataCache { by_line };
        proof {
            assert forall|file: Seq<char>, line: u32|
                #[trigger] cache_lookup(r@, file, line) == lookup(entries_of(records@), file, line) by {
                lemma_lookup_at_line(entries_of(records@), file, line);
            }
        }
        r
    }

    /// The id of the record at `file:line`.
    pub fn find(&self, file: &str, line: u32) -> (r: Option<RecordId>)
        ensures
            match r {
                Some(id) => cache_lookup(self@, file@, line) matches Some(e) && e.index
                    == id.index_1_based && e.name == opt_string_view(id.name),
                None => cache_lookup(self@, file@, line) is None,
            },
    {
        broadcast use vstd::std_specs::hash::group_hash_axioms;

        let at = match self.by_line.get(&line) {
            Some(v) => v,
            None => {
                return None;
            },
        };
        let mut j = at.len();
        let ghost all = entry_views(at@);
        assert(all == self@[line]);
        assert(all.take(j as int) =~= all);
        while j > 0
            invariant
                j <= at@.len(),
                all == entry_views(at@),
                self@.contains_key(line),
                all == self@[line],
                lookup(all, file@, line) == lookup(all.take(j as int), file@, line),
            decreases j,
        {
            let e = &at[j - 1];
            proof {
                assert(all.take(j as int).drop_last() =~= all.take(j - 1));
                assert(all.take(j as int).last() == e@);
            }
            if e.line == line && str_eq(e.file.as_str(), file) {
                return Some(
                    RecordId {
                        index_1_based: e.id.index_1_based,
                        name: clone_opt_string(&e.id.name),
                    },
                );
            }
            j = j - 1;
        }
        None
    }
}


// ---------------------------------------------------------------------------
// Failure reports

/// What went wrong in a test record, with the texts that a report shows.
pub enum FailureKind {
    /// The script could not be parsed.
    ParseError { details: String },
    /// A record that should have failed succeeded.
    UnexpectedOk { sql: String, details: String },
    /// A record failed.
    Fail { sql: String, details: String },
    /// A system command failed.
    SystemFail { details: String },
    /// A system command printed something else than expected.
    SystemStdoutMismatch { details: String },
    /// A record failed with another error than expected.
    ErrorMismatch { sql: String, expected_err: String, err: String, actual_sqlstate: Option<String> },
    /// A statement affected another number of rows than expected.
    StatementResultMismatch { sql: String, expected: u64, actual: String },
    /// A query returned other results than expected.
    QueryResultMismatch { sql: String, expected: String, actual: String },
    /// A query returned another number of columns than expected.
    QueryResultColumnsMismatch { sql: String, expected: String, actual: String },
    /// Any other failure.
    Other { details: String },
}

/// A failed test record: what went wrong, and where.
pub struct TestFailure {
    pub kind: FailureKind,
    /// The file that holds the record, as the parser named it.
    pub file: String,
    pub line: u32,
}

/// The SQL of the failed record, for the kinds that have one.
pub open spec fn failure_sql(kind: FailureKind) -> Option<Seq<char>> {
    match kind {
        FailureKind::UnexpectedOk { sql, .. } => Some(sql@),
        FailureKind::Fail { sql, .. } => Some(sql@),
        FailureKind::ErrorMismatch { sql, .. } => Some(sql@),
        FailureKind::StatementResultMismatch { sql, .. } => Some(sql@),
        FailureKind::QueryResultMismatch { sql, .. } => Some(sql@),
        FailureKind::QueryResultColumnsMismatch { sql, .. } => Some(sql@),
        _ => None,
    }
}

/// `label` followed by `value` and a newline.
pub open spec fn report_line(label: Seq<char>, value: Seq<char>) -> Seq<char> {
    label + value + seq!['\n']
}

/// The lines that describe the failure itself.
pub open spec fn failure_details(kind: FailureKind) -> Seq<char> {
    match kind {
        FailureKind::QueryResultMismatch { expected, actual, .. } => report_line(
            "expected: "@,
            expected@,
        ) + report_line("actual: "@, actual@),
        FailureKind::QueryResultColumnsMismatch { expected, actual, .. } => report_line(
            "details: Expected "@,
            decimal(expected@.len()) + " columns, but got "@ + decimal(actual@.len())
                + " columns"@,
        ) + report_line("expected_columns: "@, expected@) + report_line(
            "actual_columns: "@,
            actual@,
        ),
        FailureKind::ErrorMismatch { expected_err, err, actual_sqlstate, .. } => report_line(
            "expected_error: "@,
            expected_err@,
        ) + match actual_sqlstate {
            Some(state) => report_line("actual_sqlstate: "@, state@),
            None => Seq::empty(),
        } + report_line("actual_error: "@, err@),
        FailureKind::StatementResultMismatch { expected, actual, .. } => report_line(
            "expected_rows: "@,
            decimal(expected as nat),
        ) + report_line("actual_rows: "@, actual@),
        FailureKind::ParseError { details } => report_line("details: "@, details@),
        FailureKind::UnexpectedOk { details, .. } => report_line("details: "@, details@),
        FailureKind::Fail { details, .. } => report_line("details: "@, details@),
        FailureKind::SystemFail { details } => report_line("details: "@, details@),
        FailureKind::SystemStdoutMismatch { details } => report_line("details: "@, details@),
        FailureKind::Other { details } => report_line("details: "@, details@),
    }
}

/// `s` without its trailing `c`s.
pub open spec fn strip_trailing(s: Seq<char>, c: char) -> Seq<char>
    decreases s.len(),
{
    if s.len() > 0 && s.last() == c {
        strip_trailing(s.drop_last(), c)
    } else {
        s
    }
}

/// The report of a failure: where it happened (`shown_file:line`), which
/// record it was (when known), its SQL (when it has one) and what went wrong;
/// without trailing newlines.
pub open spec fn report_text(shown_file: Seq<char>, failure: TestFailure, record: Option<
    RecordEntryModel,
>) -> Seq<char> {
    strip_trailing(
        report_line("  at: "@, shown_file + seq![':'] + decimal(failure.line as nat)) + match record {
            Some(e) => report_line(
                "  record: "@,
                decimal(e.index) + match e.name {
                    Some(n) => " name="@ + n,
                    None => Seq::empty(),
                },
            ),
            None => Seq::empty(),
        } + match failure_sql(failure.kind) {
            Some(sql) => report_line("sql:"@, seq!['\n'] + sql),
            None => Seq::empty(),
        } + failure_details(failure.kind),
        '\n',
    )
}

fn push_line(out: &mut String, label: &str, value: &str)
    ensures
        final(out)@ == old(out)@ + report_line(label@, value@),
{
    push_str(out, label);
    push_str(out, value);
    push_char(out, '\n');
    assert(final(out)@ =~= old(out)@ + report_line(label@, value@));
}

fn push_details(out: &mut String, kind: &FailureKind)
    ensures
        final(out)@ == old(out)@ + failure_details(*kind),
{
    match kind {
        FailureKind::QueryResultMismatch { expected, actual, .. } => {
            push_line(out, "expected: ", expected.as_str());
            push_line(out, "actual: ", actual.as_str());
        },
        FailureKind::QueryResultColumnsMismatch { expected, actual, .. } => {
            let expected_count = chars_of(expected.as_str()).len();
            let actual_count = chars_of(actual.as_str()).len();
            let ghost before = out@;
            push_str(out, "details: Expected ");
            push_decimal(out, expected_count as u128);
            push_str(out, " columns, but got ");
            push_decimal(out, actual_count as u128);
            push_str(out, " columns");
            push_char(out, '\n');
            assert(out@ =~= before + report_line(
                "details: Expected "@,
                decimal(expected@.len()) + " columns, but got "@ + decimal(actual@.len())
                    + " columns"@,
            ));
            push_line(out, "expected_columns: ", expected.as_str());
            push_line(out, "actual_columns: ", actual.as_str());
        },
        FailureKind::ErrorMismatch { expected_err, err, actual_sqlstate, .. } => {
            push_line(out, "expected_error: ", expected_err.as_str());
            match actual_sqlstate {
                Some(state) => push_line(out, "actual_sqlstate: ", state.as_str()),
                None => {},
            }
            push_line(out, "actual_error: ", err.as_str());
        },
        FailureKind::StatementResultMismatch { expected, actual, .. } => {
            let ghost before = out@;
            push_str(out, "expected_rows: ");
            push_decimal(out, *expected as u128);
            push_char(out, '\n');
            assert(out@ =~= before + report_line("expected_rows: "@, decimal(*expected as nat)));
            push_line(out, "actual_rows: ", actual.as_str());
        },
        FailureKind::ParseError { details } => push_line(out, "details: ", details.as_str()),
        FailureKind::UnexpectedOk { details, .. } => push_line(out, "details: ", details.as_str()),
        FailureKind::Fail { details, .. } => push_line(out, "details: ", details.as_str()),
        FailureKind::SystemFail { details } => push_line(out, "details: ", details.as_str()),
        FailureKind::SystemStdoutMismatch { details } => push_line(
            out,
            "details: ",
            details.as_str(),
        ),
        FailureKind::Other { details } => push_line(out, "details: ", details.as_str()),
    }
    assert(final(out)@ =~= old(out)@ + failure_details(*kind));
}

fn sql_of(kind: &FailureKind) -> (r: Option<&str>)
    ensures
        match r {
            Some(s) => failure_sql(*kind) == Some(s@),
            None => failure_sql(*kind) is None,
        },
{
    match kind {
        FailureKind::UnexpectedOk { sql, .. } => Some(sql.as_str()),
        FailureKind::Fail { sql, .. } => Some(sql.as_str()),
        FailureKind::ErrorMismatch { sql, .. } => Some(sql.as_str()),
        FailureKind::StatementResultMismatch { sql, .. } => Some(sql.as_str()),
        FailureKind::QueryResultMismatch { sql, .. } => Some(sql.as_str()),
        FailureKind::QueryResultColumnsMismatch { sql, .. } => Some(sql.as_str()),
        _ => None,
    }
}

fn trim_trailing_newlines(s: &String) -> (r: String)
    ensures
        r@ == strip_trailing(s@, '\n'),
{
    let mut v = chars_of(s.as_str());
    let ghost full = v@;
    while v.len() > 0 && v[v.len() - 1] == '\n'
        invariant
            strip_trailing(v@, '\n') == strip_trailing(full, '\n'),
        decreases v.len(),
    {
        v.pop();
    }
    string_of(&v)
}

/// The report of a failure whose file is shown as `shown_file`, given the
/// record it belongs to, if known.
pub fn render_report(shown_file: &str, failure: &TestFailure, record: &Option<RecordId>) -> (r:
    String)
    ensures
        r@ == report_text(
            shown_file@,
            *failure,
            match record {
                Some(id) => Some(
                    RecordEntryModel {
                        file: failure.file@,
                        line: failure.line,
                        index: id.index_1_based as nat,
                        name: opt_string_view(id.name),
                    },
                ),
                None => None,
            },
        ),
{
    let mut out = String::new();
    push_str(&mut out, "  at: ");
    push_str(&mut out, shown_file);
    push_char(&mut out, ':');
    push_decimal(&mut out, failure.line as u128);
    push_char(&mut out, '\n');
    let ghost after_at = out@;
    match record {
        Some(id) => {
            push_str(&mut out, "  record: ");
            push_decimal(&mut out, id.index_1_based as u128);
            match &id.name {
                Some(n) => {
                    push_str(&mut out, " name=");
                    push_str(&mut out, n.as_str());
                },
                None => {},
            }
            push_char(&mut out, '\n');
        },
        None => {},
    }
    let ghost after_record = out@;
    match sql_of(&failure.kind) {
        Some(sql) => {
            push_str(&mut out, "sql:");
            push_char(&mut out, '\n');
            push_str(&mut out, sql);
            push_char(&mut out, '\n');
        },
        None => {},
    }
    let ghost after_sql = out@;
    push_details(&mut out, &failure.kind);
    proof {
        let rec = match record {
            Some(id) => Some(
                RecordEntryModel {
                    file: failure.file@,
                    line: failure.line,
                    index: id.index_1_based as nat,
                    name: opt_string_view(id.name),
                },
            ),
            None => None,
        };
        let at = report_line("  at: "@, shown_file@ + seq![':'] + decimal(failure.line as nat));
        assert(after_at =~= at);
        let rec_part = match rec {
            Some(e) => report_line(
                "  record: "@,
                decimal(e.index) + match e.name {
                    Some(n) => " name="@ + n,
                    None => Seq::empty(),
                },
            ),
            None => Seq::empty(),
        };
        assert(after_record =~= at + rec_part);
        let sql_part = match failure_sql(failure.kind) {
            Some(sql) => report_line("sql:"@, seq!['\n'] + sql),
            None => Seq::empty(),
        };
        assert(after_sql =~= at + rec_part + sql_part);
    }
    trim_trailing_newlines(&out)
}

/// The file that a report names: the script's own path when the failure is
/// in the file that was run (`parse_main_file`, possibly a preprocessed copy),
/// else the file the parser named.
pub open spec fn shown_location_file(
    display_main_file: Seq<char>,
    parse_main_file: Seq<char>,
    file: Seq<char>,
) -> Seq<char> {
    if file == parse_main_file {
        display_main_file
    } else {
        file
    }
}

/// Renders the report of a failed record. The location is shown relative to
/// `base_dir`; a failure in the file that was run (`parse_main_file`) is
/// reported against the script itself (`display_main_file`). The record is
/// named when `record_metadata` knows it.
pub fn render_failure_report(
    display_main_file: &str,
    parse_main_file: &str,
    base_dir: &str,
    failure: &TestFailure,
    record_metadata: Option<&RecordMetadataCache>,
) -> (r: String)
    ensures
        exists|shown: Seq<char>|
            #[trigger] crate::pathing::shown_path_form(
                base_dir@,
                shown_location_file(display_main_file@, parse_main_file@, failure.file@),
                shown,
            ) && r@ == report_text(
                shown,
                *failure,
                match record_metadata {
                    Some(cache) => cache_lookup(cache@, failure.file@, failure.line),
                    None => None,
                },
            ),
{
    let record = match record_metadata {
        Some(cache) => cache.find(failure.file.as_str(), failure.line),
        None => None,
    };
    let display_loc_file: &str = if str_eq(failure.file.as_str(), parse_main_file) {
        display_main_file
    } else {
        failure.file.as_str()
    };
    let shown = format_user_path_str(base_dir, display_loc_file);
    let r = render_report(shown.as_str(), failure, &record);
    proof {
        match record_metadata {
            Some(cache) => {
                match record {
                    Some(id) => {
                                                assert(cache_lookup(cache@, failure.file@, failure.line) == Some(
                            RecordEntryModel {
                                file: failure.file@,
                                line: failure.line,
                                index: id.index_1_based as nat,
                                name: opt_string_view(id.name),
                            },
                        )) by {
                            lemma_lookup_matches(cache@[failure.line], failure.file@, failure.line);
                        }
                    },
                    None => {},
                }
            },
            None => {},
        }
        let loc = shown_location_file(display_main_file@, parse_main_file@, failure.file@);
        assert(display_loc_file@ == loc);
        let rec = match record_metadata {
            Some(cache) => cache_lookup(cache@, failure.file@, failure.line),
            None => None,
        };
        assert(r@ == report_text(shown@, *failure, rec));
        assert(crate::pathing::shown_path_form(base_dir@, loc, shown@));
    }
    r
}

/// What `lookup` finds is at the place that was asked for.
pub proof fn lemma_lookup_matches(entries: Seq<RecordEntryModel>, file: Seq<char>, line: u32)
    ensures
        lookup(entries, file, line) matches Some(e) ==> e.file == file && e.line == line,
    decreases entries.len(),
{
    if entries.len() > 0 {
        lemma_lookup_matches(entries.drop_last(), file, line);
    }
}


/// Whether a record is numbered (statement, system and query records are).
pub open spec fn is_numbered(r: RecordSummary) -> bool {
    !(r is Other)
}

/// The location of a numbered record.
pub open spec fn record_location(r: RecordSummary) -> (Seq<char>, u32) {
    match r {
        RecordSummary::Statement { file, line } => (file@, line),
        RecordSummary::System { file, line } => (file@, line),
        RecordSummary::Query { file, line, .. } => (file@, line),
        RecordSummary::Other => (Seq::empty(), 0),
    }
}

/// The label of a record (queries with labelled results have one).
pub open spec fn record_label(r: RecordSummary) -> Option<Seq<char>> {
    match r {
        RecordSummary::Query { label, .. } => opt_string_view(label),
        _ => None,
    }
}

/// Number of numbered records in `rs`.
pub open spec fn numbered_count(rs: Seq<RecordSummary>) -> nat
    decreases rs.len(),
{
    if rs.len() == 0 {
        0
    } else {
        numbered_count(rs.drop_last()) + if is_numbered(rs.last()) {
            1nat
        } else {
            0nat
        }
    }
}

proof fn lemma_entries_len(rs: Seq<RecordSummary>)
    ensures
        entries_of(rs).len() == numbered_count(rs),
    decreases rs.len(),
{
    if rs.len() > 0 {
        lemma_entries_len(rs.drop_last());
    }
}

/// The cache names the record at a location: for a numbered record with no
/// later numbered record at the same place, looking its location up gives
/// its 1-based position among the numbered records and its label.
pub proof fn lemma_cache_names_record(records: Seq<RecordSummary>, k: int)
    requires
        0 <= k < records.len(),
        is_numbered(records[k]),
        forall|j: int|
            k < j < records.len() && is_numbered(#[trigger] records[j]) ==> record_location(
                records[j],
            ) != record_location(records[k]),
    ensures
        lookup(entries_of(records), record_location(records[k]).0, record_location(records[k]).1)
            == Some(
            RecordEntryModel {
                file: record_location(records[k]).0,
                line: record_location(records[k]).1,
                index: numbered_count(records.take(k + 1)),
                name: record_label(records[k]),
            },
        ),
    decreases records.len(),
{
    let n = records.len();
    let prev = records.drop_last();
    lemma_entries_len(prev);
    if k == n - 1 {
        assert(records.take(k + 1) =~= records);
        assert(records.take(k + 1).drop_last() =~= prev);
    } else {
        assert forall|j: int|
            k < j < prev.len() && is_numbered(#[trigger] prev[j]) implies record_location(prev[j])
            != record_location(prev[k]) by {
            assert(prev[j] == records[j]);
        }
        lemma_cache_names_record(prev, k);
        assert(prev.take(k + 1) =~= records.take(k + 1));
        assert(records.last() == records[n - 1]);
        let loc = record_location(records[k]);
        if is_numbered(records.last()) {
            assert(record_location(records[n - 1]) != loc);
            let e = entries_of(records);
            assert(e.drop_last() =~= entries_of(prev));
        }
    }
}

/// Removing trailing `c`s keeps a prefix of `s`, and keeps at least the
/// first `k` characters when the `k`-th is not `c`.
proof fn lemma_strip_keeps(s: Seq<char>, c: char, k: int)
    requires
        0 < k <= s.len(),
        s[k - 1] != c,
    ensures
        k <= strip_trailing(s, c).len() <= s.len(),
        strip_trailing(s, c) == s.take(strip_trailing(s, c).len() as int),
    decreases s.len(),
{
    if s.last() == c {
        assert(k < s.len());
        lemma_strip_keeps(s.drop_last(), c, k);
        let r = strip_trailing(s.drop_last(), c);
        assert(s.drop_last().take(r.len() as int) =~= s.take(r.len() as int));
    } else {
        assert(s.take(s.len() as int) =~= s);
    }
}

/// The first lines of a report: where the failure happened, then the record,
/// when it is known.
pub open spec fn report_head(shown_file: Seq<char>, line: u32, record: Option<RecordEntryModel>) -> Seq<
    char,
> {
    "  at: "@ + shown_file + seq![':'] + decimal(line as nat) + seq!['\n'] + match record {
        Some(e) => "  record: "@ + decimal(e.index) + match e.name {
            Some(n) => " name="@ + n,
            None => Seq::empty(),
        } + seq!['\n'],
        None => Seq::empty(),
    }
}

/// A report starts with its location and record lines; right after them
/// comes the failed record's SQL, for every kind of failure that carries
/// SQL (`sql:`, a line break, the SQL, a line break), and the details line
/// for the kinds that carry none.
pub proof fn lemma_report_shows_sql(shown_file: Seq<char>, failure: TestFailure, record: Option<
    RecordEntryModel,
>)
    ensures
        ({
            let r = report_text(shown_file, failure, record);
            let head = report_head(shown_file, failure.line, record);
            match failure.kind {
                FailureKind::UnexpectedOk { sql, .. } => r.take((head.len() + 6 + sql@.len()) as int)
                    == head + "sql:\n"@ + sql@ + seq!['\n'],
                FailureKind::Fail { sql, .. } => r.take((head.len() + 6 + sql@.len()) as int) == head
                    + "sql:\n"@ + sql@ + seq!['\n'],
                FailureKind::ErrorMismatch { sql, .. } => r.take((head.len() + 6 + sql@.len()) as int)
                    == head + "sql:\n"@ + sql@ + seq!['\n'],
                FailureKind::StatementResultMismatch { sql, .. } => r.take((head.len() + 6 + sql@.len()) as int) == head + "sql:\n"@ + sql@ + seq!['\n'],
                FailureKind::QueryResultMismatch { sql, .. } => r.take((head.len() + 6 + sql@.len()) as int)
                    == head + "sql:\n"@ + sql@ + seq!['\n'],
                FailureKind::QueryResultColumnsMismatch { sql, .. } => r.take((head.len() + 6 + sql@.len()) as int) == head + "sql:\n"@ + sql@ + seq!['\n'],
                _ => r.take((head.len() + 9) as int) == head + "details: "@,
            }
        }),
{
    reveal_strlit("  at: ");
    reveal_strlit("  record: ");
    reveal_strlit("sql:");
    reveal_strlit("sql:\n");
    reveal_strlit("details: ");
    reveal_strlit("expected: ");
    reveal_strlit("details: Expected ");
    reveal_strlit("expected_error: ");
    reveal_strlit("expected_rows: ");
    let head = report_head(shown_file, failure.line, record);
    let head2 = report_line("  at: "@, shown_file + seq![':'] + decimal(failure.line as nat))
        + match record {
        Some(e) => report_line(
            "  record: "@,
            decimal(e.index) + match e.name {
                Some(n) => " name="@ + n,
                None => Seq::empty(),
            },
        ),
        None => Seq::empty(),
    };
    assert(head2 =~= head);
    let details = failure_details(failure.kind);
    assert(details.len() > 0 && details[0] != '\n');
    match failure_sql(failure.kind) {
        Some(sql) => {
            let p = head + report_line("sql:"@, seq!['\n'] + sql);
            let x = p + details;
            assert(report_text(shown_file, failure, record) == strip_trailing(x, '\n'));
            assert(x[p.len() as int] == details[0]);
            lemma_strip_keeps(x, '\n', (p.len() + 1) as int);
            assert(p =~= head + "sql:\n"@ + sql + seq!['\n']);
            let r = report_text(shown_file, failure, record);
            assert(r.take(p.len() as int) =~= x.take(p.len() as int));
            assert(x.take(p.len() as int) =~= p);
        },
        None => {
            let x = head + details;
            assert(report_text(shown_file, failure, record) == strip_trailing(x, '\n'));
            assert(details.take(9) =~= "details: "@);
            assert(x[(head.len() + 8) as int] == ' ');
            lemma_strip_keeps(x, '\n', (head.len() + 9) as int);
            let r = report_text(shown_file, failure, record);
            assert(r.take((head.len() + 9) as int) =~= x.take((head.len() + 9) as int));
            assert(x.take((head.len() + 9) as int) =~= head + "details: "@);
        },
    }
}

} // verus!
