//! Extension specs given on the command line, and the SQL that installs and
//! loads each of them.

use std::borrow::Cow;

use vstd::prelude::*;

use crate::text::{
    chars_of, char_slice, contains_char, ends_with_chars, has_char, has_suffix, last_index_of,
    lemma_last_index_of, push_char, push_str, rfind_char, trim, trim_str,
};

verus! {

/// One `--extensions` entry, as written by the user.
#[derive(Debug, PartialEq, Eq)]
pub enum ExtensionSpec<'a> {
    /// A plain extension name such as `json`.
    Name(Cow<'a, str>),
    /// `name@repository`, where the repository is a name or a URL.
    RepositoryName { name: Cow<'a, str>, repository: Cow<'a, str> },
    /// A local extension file.
    Path(Cow<'a, str>),
}

/// The mathematical value of an [`ExtensionSpec`].
pub enum ExtensionSpecModel {
    Name(Seq<char>),
    RepositoryName(Seq<char>, Seq<char>),
    Path(Seq<char>),
}

impl<'a> View for ExtensionSpec<'a> {
    type V = ExtensionSpecModel;

    open spec fn view(&self) -> ExtensionSpecModel {
        match self {
            ExtensionSpec::Name(n) => ExtensionSpecModel::Name(n@),
            ExtensionSpec::RepositoryName { name, repository } => ExtensionSpecModel::RepositoryName(
                name@,
                repository@,
            ),
            ExtensionSpec::Path(p) => ExtensionSpecModel::Path(p@),
        }
    }
}

/// Why an extension spec was refused.
#[derive(Debug, Clone, PartialEq, Eq)]
pub enum ExtensionSpecError {
    /// The spec is empty once surrounding white space is removed.
    Empty,
    /// The spec is malformed; holds the trimmed spec.
    Invalid(String),
}

/// The mathematical value of an [`ExtensionSpecError`].
pub enum ExtensionSpecErrorModel {
    Empty,
    Invalid(Seq<char>),
}

impl View for ExtensionSpecError {
    type V = ExtensionSpecErrorModel;

    open spec fn view(&self) -> ExtensionSpecErrorModel {
        match self {
            ExtensionSpecError::Empty => ExtensionSpecErrorModel::Empty,
            ExtensionSpecError::Invalid(s) => ExtensionSpecErrorModel::Invalid(s@),
        }
    }
}

impl ExtensionSpecError {
    /// The text shown to the user for this error.
    pub fn message(&self) -> (r: String)
        ensures
            r@ == match self@ {
                ExtensionSpecErrorModel::Empty => "extension spec is empty"@,
                ExtensionSpecErrorModel::Invalid(s) => "invalid extension spec: '"@ + s + "'"@,
            },
    {
        match self {
            ExtensionSpecError::Empty => "extension spec is empty".to_owned(),
            ExtensionSpecError::Invalid(s) => {
                let mut out = "invalid extension spec: '".to_owned();
                push_str(&mut out, s.as_str());
                push_str(&mut out, "'");
                out
            },
        }
    }
}

/// The SQL statements that enable one extension.
#[derive(Debug, Clone, PartialEq, Eq)]
pub struct ExtensionActions {
    /// The spec as the user wrote it.
    pub display: String,
    /// `INSTALL ...;`
    pub install_sql: String,
    /// `LOAD ...;`
    pub load_sql: String,
}

// ---------------------------------------------------------------------------
// Quoting

/// What one character becomes inside a single-quoted SQL literal.
pub open spec fn escape_char(c: char) -> Seq<char> {
    if c == '\'' {
        seq!['\'', '\'']
    } else {
        seq![c]
    }
}

/// `s` with every single quote doubled.
pub open spec fn escape_quotes(s: Seq<char>) -> Seq<char>
    decreases s.len(),
{
    if s.len() == 0 {
        Seq::empty()
    } else {
        escape_char(s[0]) + escape_quotes(s.drop_first())
    }
}

/// Collapses every doubled single quote of `s` into one.
pub open spec fn unescape_quotes(s: Seq<char>) -> Seq<char>
    decreases s.len(),
{
    if s.len() == 0 {
        Seq::empty()
    } else if s.len() >= 2 && s[0] == '\'' && s[1] == '\'' {
        seq!['\''] + unescape_quotes(s.skip(2))
    } else {
        seq![s[0]] + unescape_quotes(s.drop_first())
    }
}

/// The number of single quotes in `s`.
pub open spec fn quote_count(s: Seq<char>) -> nat
    decreases s.len(),
{
    if s.len() == 0 {
        0
    } else {
        (if s[0] == '\'' {
            1nat
        } else {
            0nat
        }) + quote_count(s.drop_first())
    }
}

/// Read from the left, the single quotes of `t` come in adjacent pairs; so
/// every run of quotes in `t` has even length.
pub open spec fn quotes_paired(t: Seq<char>) -> bool
    decreases t.len(),
{
    if t.len() == 0 {
        true
    } else if t[0] == '\'' {
        t.len() >= 2 && t[1] == '\'' && quotes_paired(t.skip(2))
    } else {
        quotes_paired(t.drop_first())
    }
}

/// Escaping doubles every quote and nothing else: the escaped text is one
/// character longer than `s` per quote of `s`, and its quotes come in
/// adjacent pairs, so every run of quotes in it has even length.
pub proof fn lemma_escape_doubles_quotes(s: Seq<char>)
    ensures
        escape_quotes(s).len() == s.len() + quote_count(s),
        quotes_paired(escape_quotes(s)),
    decreases s.len(),
{
    if s.len() > 0 {
        lemma_escape_doubles_quotes(s.drop_first());
        let e = escape_quotes(s);
        let rest = escape_quotes(s.drop_first());
        if s[0] == '\'' {
            assert(e.skip(2) =~= rest);
        } else {
            assert(e.drop_first() =~= rest);
        }
    }
}

pub proof fn lemma_escape_concat(a: Seq<char>, b: Seq<char>)
    ensures
        escape_quotes(a + b) == escape_quotes(a) + escape_quotes(b),
    decreases a.len(),
{
    if a.len() == 0 {
        assert(a + b =~= b);
    } else {
        assert((a + b).drop_first() =~= a.drop_first() + b);
        lemma_escape_concat(a.drop_first(), b);
        assert(escape_char(a[0]) + (escape_quotes(a.drop_first()) + escape_quotes(b))
            =~= (escape_char(a[0]) + escape_quotes(a.drop_first())) + escape_quotes(b));
    }
}

/// Escaping can be undone: collapsing the doubled quotes of
/// `escape_sql_string_literal(s)` gives back `s`, so two different names never
/// produce the same SQL literal.
pub proof fn lemma_escape_roundtrip(s: Seq<char>)
    ensures
        unescape_quotes(escape_quotes(s)) == s,
    decreases s.len(),
{
    if s.len() > 0 {
        lemma_escape_roundtrip(s.drop_first());
        let e = escape_quotes(s);
        let rest = escape_quotes(s.drop_first());
        if s[0] == '\'' {
            assert(e.skip(2) =~= rest);
            assert(seq!['\''] + unescape_quotes(rest) =~= s);
        } else {
            assert(e.drop_first() =~= rest);
            assert(seq![s[0]] + unescape_quotes(rest) =~= s);
        }
    }
}

/// Escapes `s` for use inside a single-quoted SQL string literal.
pub fn escape_sql_string_literal(s: &str) -> (r: String)
    ensures
        r@ == escape_quotes(s@),
{
    let v = chars_of(s);
    let mut out = String::new();
    let n = v.len();
    for i in 0..n
        invariant
            n == v.len(),
            out@ == escape_quotes(v@.take(i as int)),
    {
        let c = v[i];
        if c == '\'' {
            push_char(&mut out, '\'');
            push_char(&mut out, '\'');
        } else {
            push_char(&mut out, c);
        }
        proof {
            assert(v@.take(i + 1) =~= v@.take(i as int) + seq![c]);
            lemma_escape_concat(v@.take(i as int), seq![c]);
            assert(seq![c].drop_first() =~= Seq::<char>::empty());
            assert(seq![c][0] == c);
            assert(escape_quotes(Seq::<char>::empty()) == Seq::<char>::empty());
            assert(escape_char(c) + Seq::<char>::empty() =~= escape_char(c));
            assert(escape_quotes(seq![c]) =~= escape_char(c));
        }
    }
    assert(v@.take(n as int) =~= v@);
    out
}

/// `'s'` with the quotes of `s` doubled.
pub open spec fn quoted(s: Seq<char>) -> Seq<char> {
    "'"@ + escape_quotes(s) + "'"@
}

fn push_quoted(out: &mut String, s: &str)
    ensures
        final(out)@ == old(out)@ + quoted(s@),
{
    push_str(out, "'");
    let e = escape_sql_string_literal(s);
    push_str(out, e.as_str());
    push_str(out, "'");
    proof {
        assert(old(out)@ + "'"@ + escape_quotes(s@) + "'"@ =~= old(out)@ + quoted(s@));
    }
}

// ---------------------------------------------------------------------------
// Classification

/// A character that may start a bare SQL identifier.
pub open spec fn is_ident_start(c: char) -> bool {
    ('a' <= c && c <= 'z') || ('A' <= c && c <= 'Z') || c == '_'
}

/// A character that may continue a bare SQL identifier.
pub open spec fn is_ident_char(c: char) -> bool {
    is_ident_start(c) || ('0' <= c && c <= '9')
}

/// An ASCII letter or `_`, followed by ASCII letters, digits or `_`.
pub open spec fn is_sql_identifier_model(s: Seq<char>) -> bool {
    &&& s.len() > 0
    &&& is_ident_start(s[0])
    &&& forall|i: int| 1 <= i < s.len() ==> is_ident_char(#[trigger] s[i])
}

fn is_sql_identifier(s: &str) -> (r: bool)
    ensures
        r == is_sql_identifier_model(s@),
{
    let v = chars_of(s);
    if v.len() == 0 {
        return false;
    }
    let first = v[0];
    if !(('a' <= first && first <= 'z') || ('A' <= first && first <= 'Z') || first == '_') {
        return false;
    }
    let n = v.len();
    for i in 1..n
        invariant
            n == v.len(),
            v@ == s@,
            forall|k: int| 1 <= k < i ==> is_ident_char(#[trigger] v@[k]),
    {
        let c = v[i];
        if !(('a' <= c && c <= 'z') || ('A' <= c && c <= 'Z') || c == '_' || ('0' <= c && c
            <= '9')) {
            assert(!is_ident_char(v@[i as int]));
            return false;
        }
    }
    true
}

/// Whether a spec names a local extension file.
pub open spec fn is_path_spec_model(s: Seq<char>) -> bool {
    has_suffix(s, ".duckdb_extension"@) || has_char(s, '/') || has_char(s, '\\')
}

/// Whether `raw` names a local extension file: it ends with
/// `.duckdb_extension` or holds a path separator.
pub fn is_path_spec(raw: &str) -> (r: bool)
    ensures
        r == is_path_spec_model(raw@),
{
    let v = chars_of(raw);
    let suffix = chars_of(".duckdb_extension");
    ends_with_chars(&v, &suffix) || contains_char(&v, '/') || contains_char(&v, '\\')
}

/// The repository as it appears after `FROM`: bare when it is an identifier,
/// else as a quoted literal.
pub open spec fn repository_expression(repository: Seq<char>) -> Seq<char> {
    if is_sql_identifier_model(repository) {
        repository
    } else {
        quoted(repository)
    }
}

/// Formats a repository for an `INSTALL ... FROM` clause.
pub fn format_repository_expression(repository: &str) -> (r: String)
    ensures
        r@ == repository_expression(repository@),
{
    if is_sql_identifier(repository) {
        repository.to_owned()
    } else {
        let mut out = String::new();
        push_quoted(&mut out, repository);
        out
    }
}

// ---------------------------------------------------------------------------
// Parsing

/// What `parse_extension_spec` makes of `raw`.
pub open spec fn parse_model(raw: Seq<char>) -> Result<ExtensionSpecModel, ExtensionSpecErrorModel> {
    let t = trim(raw);
    if t.len() == 0 {
        Err(ExtensionSpecErrorModel::Empty)
    } else if last_index_of(t, '@') >= 0 {
        let at = last_index_of(t, '@');
        let name = t.take(at);
        let repository = t.skip(at + 1);
        if name.len() == 0 || repository.len() == 0 || has_char(name, '@') {
            Err(ExtensionSpecErrorModel::Invalid(t))
        } else {
            Ok(ExtensionSpecModel::RepositoryName(name, repository))
        }
    } else if is_path_spec_model(t) {
        Ok(ExtensionSpecModel::Path(t))
    } else {
        Ok(ExtensionSpecModel::Name(t))
    }
}

/// The view of a parse outcome.
pub open spec fn parse_outcome<'a>(r: Result<ExtensionSpec<'a>, ExtensionSpecError>) -> Result<
    ExtensionSpecModel,
    ExtensionSpecErrorModel,
> {
    match r {
        Ok(spec) => Ok(spec@),
        Err(e) => Err(e@),
    }
}

/// Parses one `--extensions` entry. Surrounding white space is ignored; the
/// last `@` separates a name from its repository.
pub fn parse_extension_spec(raw: &str) -> (r: Result<ExtensionSpec<'_>, ExtensionSpecError>)
    ensures
        parse_outcome(r) == parse_model(raw@),
{
    let raw = trim_str(raw);
    let v = chars_of(raw);
    if v.len() == 0 {
        return Err(ExtensionSpecError::Empty);
    }
    match rfind_char(&v, '@') {
        Some(at) => {
            proof { lemma_last_index_of(v@, '@'); }
            if at == 0 || at + 1 == v.len() {
                return Err(ExtensionSpecError::Invalid(raw.to_owned()));
            }
            let name = char_slice(raw, 0, at);
            let repository = char_slice(raw, at + 1, v.len());
            let name_chars = chars_of(name);
            if contains_char(&name_chars, '@') {
                return Err(ExtensionSpecError::Invalid(raw.to_owned()));
            }
            Ok(ExtensionSpec::RepositoryName {
                name: Cow::Borrowed(name),
                repository: Cow::Borrowed(repository),
            })
        },
        None => {
            if is_path_spec(raw) {
                Ok(ExtensionSpec::Path(Cow::Borrowed(raw)))
            } else {
                Ok(ExtensionSpec::Name(Cow::Borrowed(raw)))
            }
        },
    }
}

// ---------------------------------------------------------------------------
// SQL

/// `INSTALL` statement for a spec.
pub open spec fn install_sql_model(spec: ExtensionSpecModel) -> Seq<char> {
    match spec {
        ExtensionSpecModel::Name(n) => "INSTALL "@ + quoted(n) + ";"@,
        ExtensionSpecModel::RepositoryName(n, r) => "INSTALL "@ + quoted(n) + " FROM "@
            + repository_expression(r) + ";"@,
        ExtensionSpecModel::Path(p) => "INSTALL "@ + quoted(p) + ";"@,
    }
}

/// `LOAD` statement for an extension name or file.
pub open spec fn load_sql_for(target: Seq<char>) -> Seq<char> {
    "LOAD "@ + quoted(target) + ";"@
}

/// `LOAD` statement for a spec: the name, or the file.
pub open spec fn load_sql_model(spec: ExtensionSpecModel) -> Seq<char> {
    match spec {
        ExtensionSpecModel::Name(n) => load_sql_for(n),
        ExtensionSpecModel::RepositoryName(n, _) => load_sql_for(n),
        ExtensionSpecModel::Path(p) => load_sql_for(p),
    }
}

fn cow_str<'b>(c: &'b Cow<'_, str>) -> (r: &'b str)
    ensures
        r@ == c@,
{
    match c {
        Cow::Borrowed(b) => b,
        Cow::Owned(o) => o.as_str(),
    }
}

/// `LOAD '<target>';` with the quotes of `target` doubled.
pub fn load_sql(target: &str) -> (r: String)
    ensures
        r@ == load_sql_for(target@),
{
    let mut out = "LOAD ".to_owned();
    push_quoted(&mut out, target);
    push_str(&mut out, ";");
    out
}

/// The `INSTALL` and `LOAD` statements for a spec.
pub fn sql_for_extension_spec(spec: &ExtensionSpec<'_>) -> (r: (String, String))
    ensures
        r.0@ == install_sql_model(spec@),
        r.1@ == load_sql_model(spec@),
{
    match spec {
        ExtensionSpec::Name(name) => {
            let name = cow_str(name);
            let mut install = "INSTALL ".to_owned();
            push_quoted(&mut install, name);
            push_str(&mut install, ";");
            (install, load_sql(name))
        },
        ExtensionSpec::RepositoryName { name, repository } => {
            let name = cow_str(name);
            let repository = cow_str(repository);
            let mut install = "INSTALL ".to_owned();
            push_quoted(&mut install, name);
            push_str(&mut install, " FROM ");
            let repo = format_repository_expression(repository);
            push_str(&mut install, repo.as_str());
            push_str(&mut install, ";");
            (install, load_sql(name))
        },
        ExtensionSpec::Path(path) => {
            let path = cow_str(path);
            let mut install = "INSTALL ".to_owned();
            push_quoted(&mut install, path);
            push_str(&mut install, ";");
            (install, load_sql(path))
        },
    }
}

/// What `compile_extension_actions` gives for `raw`.
pub open spec fn actions_model(raw: Seq<char>, a: ExtensionActions) -> bool {
    match parse_model(raw) {
        Ok(spec) => a.display@ == raw && a.install_sql@ == install_sql_model(spec) && a.load_sql@
            == load_sql_model(spec),
        Err(_) => false,
    }
}

/// Parses one `--extensions` entry and produces its SQL.
pub fn compile_extension_actions(raw: &str) -> (r: Result<ExtensionActions, ExtensionSpecError>)
    ensures
        match r {
            Ok(a) => actions_model(raw@, a),
            Err(e) => parse_model(raw@) == Err::<ExtensionSpecModel, _>(e@),
        },
{
    let spec = parse_extension_spec(raw)?;
    let (install_sql, load_sql) = sql_for_extension_spec(&spec);
    Ok(ExtensionActions { display: raw.to_owned(), install_sql, load_sql })
}

} // verus!
