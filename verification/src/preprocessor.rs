//! Rewrites the directives of a sqllogictest script that the runner handles
//! itself (`require`), keeping every line in place so that line numbers in
//! reports still point into the script as written.

use vstd::prelude::*;

use crate::decimal::{decimal, push_decimal};

use crate::text::{
    char_slice, chars_of, find_ws, find_ws_exec, is_ws, lemma_find_ws_bounds,
    lemma_skip_ws_bounds, opt_string_view, push_str, skip_ws, skip_ws_exec, str_eq, trim_start, trim_start_str,
};

verus! {

/// What the directives of a script ask of the runner.
#[derive(Default, Debug, Clone)]
pub struct PreprocessDirectives {
    /// Extensions named by `require` lines, in file order.
    pub required_extensions: Vec<String>,
}

/// A preprocessed copy of a script, written next to it, and the directives
/// that were found in it. The copy's path is held as its text.
pub struct PreprocessRun {
    preprocessed: String,
    /// What the directives of the script ask of the runner.
    pub directives: PreprocessDirectives,
}

impl PreprocessRun {
    /// Records that the preprocessed script was written to `preprocessed`.
    pub fn new(preprocessed: String, directives: PreprocessDirectives) -> (r: Self)
        ensures
            r.found_directives() == directives,
            r.preprocessed_file() == preprocessed@,
    {
        PreprocessRun { preprocessed, directives }
    }

    /// The directives that were found in the script.
    pub closed spec fn found_directives(&self) -> PreprocessDirectives {
        self.directives
    }

    /// Where the preprocessed script was written.
    pub closed spec fn preprocessed_file(&self) -> Seq<char> {
        self.preprocessed@
    }

    /// Where the preprocessed script was written.
    pub fn preprocessed_path(&self) -> (r: &str)
        ensures
            r@ == self.preprocessed_file(),
    {
        self.preprocessed.as_str()
    }
}

/// The file name of the preprocessed copy of a script named `file_name`,
/// made by process `pid` at `nanos` nanoseconds after the epoch: the script's
/// name, `.duckdb-slt-preprocessed-`, the process id, `-` and the time, so
/// that the copy sits beside the script under a name of its own.
pub open spec fn preprocessed_copy_name_model(file_name: Seq<char>, pid: u32, nanos: u128) -> Seq<
    char,
> {
    file_name + ".duckdb-slt-preprocessed-"@ + decimal(pid as nat) + "-"@ + decimal(nanos as nat)
}

/// The file name of the preprocessed copy of a script (see
/// `preprocessed_copy_name_model`).
pub fn preprocessed_copy_name(file_name: &str, pid: u32, nanos: u128) -> (r: String)
    ensures
        r@ == preprocessed_copy_name_model(file_name@, pid, nanos),
{
    let mut out = file_name.to_owned();
    push_str(&mut out, ".duckdb-slt-preprocessed-");
    push_decimal(&mut out, pid as u128);
    push_str(&mut out, "-");
    push_decimal(&mut out, nanos);
    out
}

/// What one directive handler makes of a line.
#[derive(Debug, PartialEq, Eq)]
pub struct HandlerOutput {
    /// The line that replaces the directive (without its line ending).
    pub rewritten_line: String,
    /// The extension that the directive requires, if it names one.
    pub required_extension: Option<String>,
}

/// The mathematical value of a [`HandlerOutput`].
pub struct HandlerOutputModel {
    pub rewritten_line: Seq<char>,
    pub required_extension: Option<Seq<char>>,
}

impl View for HandlerOutput {
    type V = HandlerOutputModel;

    open spec fn view(&self) -> HandlerOutputModel {
        HandlerOutputModel {
            rewritten_line: self.rewritten_line@,
            required_extension: opt_string_view(self.required_extension),
        }
    }
}

/// The view of an optional [`HandlerOutput`].
pub open spec fn opt_output_view(o: Option<HandlerOutput>) -> Option<HandlerOutputModel> {
    match o {
        Some(out) => Some(out@),
        None => None,
    }
}

/// A rule that recognises one kind of directive line and rewrites it.
pub trait DirectiveHandler {
    /// What the handler makes of `line` (`None`: not its directive).
    spec fn handles(&self, line: Seq<char>) -> Option<HandlerOutputModel>;

    /// Recognises and rewrites `line`.
    fn handle_line(&self, line: &str) -> (r: Option<HandlerOutput>)
        ensures
            opt_output_view(r) == self.handles(line@),
    ;
}

/// The extension name of a `require` line: the first white-space separated
/// token after the keyword, with one leading and one trailing `'` removed;
/// none when there is no token or nothing is left of it.
pub open spec fn token_name(rest: Seq<char>) -> Option<Seq<char>> {
    let a = skip_ws(rest, 0);
    if a >= rest.len() {
        None
    } else {
        let token = rest.subrange(a, find_ws(rest, a));
        let n1 = if token.len() > 0 && token[0] == '\'' {
            token.drop_first()
        } else {
            token
        };
        let n2 = if n1.len() > 0 && n1.last() == '\'' {
            n1.drop_last()
        } else {
            n1
        };
        if n2.len() == 0 {
            None
        } else {
            Some(n2)
        }
    }
}

/// What the `require` handler makes of a line: a line whose first word is
/// `require`, followed by white space, becomes `# ` and the line without its
/// leading white space.
pub open spec fn require_model(line: Seq<char>) -> Option<HandlerOutputModel> {
    let t = trim_start(line);
    let w = find_ws(t, 0);
    if w >= t.len() {
        None
    } else if t.take(w) != "require"@ {
        None
    } else {
        Some(
            HandlerOutputModel {
                rewritten_line: "# "@ + t,
                required_extension: token_name(t.skip(w + 1)),
            },
        )
    }
}

/// The extension name that a `require` line names (see `token_name`).
pub fn parse_single_token_name(rest: &str) -> (r: Option<String>)
    ensures
        opt_string_view(r) == token_name(rest@),
{
    let v = chars_of(rest);
    let a = skip_ws_exec(&v, 0);
    proof { lemma_skip_ws_bounds(v@, 0); }
    if a >= v.len() {
        return None;
    }
    let b = find_ws_exec(&v, a);
    proof { lemma_find_ws_bounds(v@, a as int); }
    let ghost token = v@.subrange(a as int, b as int);
    let mut lo = a;
    let mut hi = b;
    if v[lo] == '\'' {
        lo = lo + 1;
    }
    let ghost n1 = if token.len() > 0 && token[0] == '\'' {
        token.drop_first()
    } else {
        token
    };
    assert(n1 =~= v@.subrange(lo as int, hi as int));
    if lo < hi && v[hi - 1] == '\'' {
        hi = hi - 1;
    }
    let ghost n2 = if n1.len() > 0 && n1.last() == '\'' {
        n1.drop_last()
    } else {
        n1
    };
    assert(n2 =~= v@.subrange(lo as int, hi as int));
    if lo >= hi {
        return None;
    }
    Some(char_slice(rest, lo, hi).to_owned())
}

/// Recognises `require <extension>` lines.
pub struct RequireDirectiveHandler;

impl DirectiveHandler for RequireDirectiveHandler {
    open spec fn handles(&self, line: Seq<char>) -> Option<HandlerOutputModel> {
        require_model(line)
    }

    fn handle_line(&self, line: &str) -> (r: Option<HandlerOutput>) {
        let t = trim_start_str(line);
        let v = chars_of(t);
        let w = find_ws_exec(&v, 0);
        proof { lemma_find_ws_bounds(v@, 0); }
        if w >= v.len() {
            return None;
        }
        let head = char_slice(t, 0, w);
        if !str_eq(head, "require") {
            return None;
        }
        let rest = char_slice(t, w + 1, v.len());
        let mut rewritten_line = "# ".to_owned();
        push_str(&mut rewritten_line, t);
        let required_extension = parse_single_token_name(rest);
        Some(HandlerOutput { rewritten_line, required_extension })
    }
}


// ---------------------------------------------------------------------------
// Lines

/// `raw` split into its content and its line ending (`\r\n`, `\n` or none).
pub open spec fn split_eol(raw: Seq<char>) -> (Seq<char>, Seq<char>) {
    let n = raw.len();
    if n >= 2 && raw[n - 2] == '\r' && raw[n - 1] == '\n' {
        (raw.take(n - 2), raw.skip(n - 2))
    } else if n >= 1 && raw[n - 1] == '\n' {
        (raw.take(n - 1), raw.skip(n - 1))
    } else {
        (raw, Seq::empty())
    }
}

/// Splits a line (as produced by splitting a text after each `\n`) into its
/// content and its line ending; the two put together give back `raw`.
pub fn split_line_with_eol(raw: &str) -> (r: (&str, &str))
    ensures
        (r.0@, r.1@) == split_eol(raw@),
        r.0@ + r.1@ == raw@,
        r.1@ == Seq::<char>::empty() || r.1@ == seq!['\n'] || r.1@ == seq!['\r', '\n'],
{
    let v = chars_of(raw);
    let n = v.len();
    if n >= 2 && v[n - 2] == '\r' && v[n - 1] == '\n' {
        assert(v@.skip(n - 2) =~= seq!['\r', '\n']);
        assert(v@.take(n - 2) + v@.skip(n - 2) =~= v@);
        (char_slice(raw, 0, n - 2), char_slice(raw, n - 2, n))
    } else if n >= 1 && v[n - 1] == '\n' {
        assert(v@.skip(n - 1) =~= seq!['\n']);
        assert(v@.take(n - 1) + v@.skip(n - 1) =~= v@);
        (char_slice(raw, 0, n - 1), char_slice(raw, n - 1, n))
    } else {
        assert(v@ + Seq::<char>::empty() =~= v@);
        (raw, char_slice(raw, n, n))
    }
}

/// The first handler of `handlers` that recognises `line`, and its output.
pub open spec fn pipeline_model<H: DirectiveHandler>(handlers: Seq<H>, line: Seq<char>) -> Option<
    HandlerOutputModel,
>
    decreases handlers.len(),
{
    if handlers.len() == 0 {
        None
    } else {
        match handlers[0].handles(line) {
            Some(out) => Some(out),
            None => pipeline_model(handlers.drop_first(), line),
        }
    }
}

/// Runs `line` through `handlers` in order. The first handler that recognises
/// the line decides: its rewritten line is returned, and the extension it
/// requires, if any, is appended to the directives.
pub fn run_directive_pipeline<H: DirectiveHandler>(
    line: &str,
    directives: &mut PreprocessDirectives,
    handlers: &[H],
) -> (r: Option<String>)
    ensures
        opt_string_view(r) == match pipeline_model(handlers@, line@) {
            Some(out) => Some(out.rewritten_line),
            None => None::<Seq<char>>,
        },
        final(directives).required_extensions@ == match pipeline_model(handlers@, line@) {
            Some(out) => match out.required_extension {
                Some(_) => old(directives).required_extensions@.push(
                    final(directives).required_extensions@.last(),
                ),
                None => old(directives).required_extensions@,
            },
            None => old(directives).required_extensions@,
        },
        match pipeline_model(handlers@, line@) {
            Some(out) => match out.required_extension {
                Some(name) => final(directives).required_extensions@.last()@ == name,
                None => true,
            },
            None => true,
        },
{
    let n = handlers.len();
    assert(handlers@.skip(0) =~= handlers@);
    for i in 0..n
        invariant
            n == handlers@.len(),
            *directives == *old(directives),
            forall|k: int| 0 <= k < i ==> (#[trigger] handlers@[k]).handles(line@) is None,
            pipeline_model(handlers@, line@) == pipeline_model(handlers@.skip(i as int), line@),
    {
        proof {
            let rest = handlers@.skip(i as int);
            assert(rest.drop_first() =~= handlers@.skip(i + 1));
            assert(rest[0] == handlers@[i as int]);
        }
        match handlers[i].handle_line(line) {
            Some(output) => {
                let HandlerOutput { rewritten_line, required_extension } = output;
                match required_extension {
                    Some(ext) => {
                        directives.required_extensions.push(ext);
                    },
                    None => {},
                }
                return Some(rewritten_line);
            },
            None => {},
        }
    }
    proof {
        assert(handlers@.skip(n as int).len() == 0);
    }
    None
}


/// End (exclusive) of the line that starts at `i`: just after the next `\n`,
/// or the end of `s`.
pub open spec fn line_end(s: Seq<char>, i: int) -> int
    decreases s.len() - i,
{
    if 0 <= i < s.len() {
        if s[i] == '\n' {
            i + 1
        } else {
            line_end(s, i + 1)
        }
    } else {
        s.len() as int
    }
}

pub proof fn lemma_line_end(s: Seq<char>, i: int)
    requires
        0 <= i < s.len(),
    ensures
        i < line_end(s, i) <= s.len(),
        forall|k: int| i <= k < line_end(s, i) - 1 ==> #[trigger] s[k] != '\n',
        line_end(s, i) == s.len() || s[line_end(s, i) - 1] == '\n',
    decreases s.len() - i,
{
    if s[i] != '\n' {
        if i + 1 < s.len() {
            lemma_line_end(s, i + 1);
        } else {
            assert(line_end(s, i + 1) == s.len());
        }
    }
}

/// The lines of `s` from index `i` on, each with its `\n` (as
/// `str::split_inclusive('\n')` gives them).
pub open spec fn lines_from(s: Seq<char>, i: int) -> Seq<Seq<char>>
    decreases s.len() - i,
{
    if 0 <= i < s.len() {
        let j = line_end(s, i);
        proof {
            lemma_line_end(s, i);
        }
        seq![s.subrange(i, j)] + lines_from(s, j)
    } else {
        Seq::empty()
    }
}

/// The lines of `s`, each with its `\n`.
pub open spec fn lines(s: Seq<char>) -> Seq<Seq<char>> {
    lines_from(s, 0)
}

/// The lines put back together.
pub open spec fn join_lines(ls: Seq<Seq<char>>) -> Seq<char>
    decreases ls.len(),
{
    if ls.len() == 0 {
        Seq::empty()
    } else {
        ls[0] + join_lines(ls.drop_first())
    }
}

/// The line content (without its line ending) is a comment.
pub open spec fn is_comment_line(line: Seq<char>) -> bool {
    let t = trim_start(line);
    t.len() > 0 && t[0] == '#'
}

/// The directive that a script line holds, if any: comment lines hold none.
pub open spec fn directive_of(raw: Seq<char>) -> Option<HandlerOutputModel> {
    let line = split_eol(raw).0;
    if is_comment_line(line) {
        None
    } else {
        require_model(line)
    }
}

/// A script line after preprocessing: a directive is replaced by its rewritten
/// form with the same line ending; any other line is kept.
pub open spec fn rewrite_line(raw: Seq<char>) -> Seq<char> {
    match directive_of(raw) {
        Some(out) => out.rewritten_line + split_eol(raw).1,
        None => raw,
    }
}

/// The extensions that one script line requires.
pub open spec fn line_requirements(raw: Seq<char>) -> Seq<Seq<char>> {
    match directive_of(raw) {
        Some(out) => match out.required_extension {
            Some(name) => seq![name],
            None => Seq::empty(),
        },
        None => Seq::empty(),
    }
}

/// The preprocessed text of the lines `ls`.
pub open spec fn render_lines(ls: Seq<Seq<char>>) -> Seq<char> {
    join_lines(ls.map_values(|l: Seq<char>| rewrite_line(l)))
}

/// The extensions required by the lines `ls`, in order.
pub open spec fn requirements_of(ls: Seq<Seq<char>>) -> Seq<Seq<char>>
    decreases ls.len(),
{
    if ls.len() == 0 {
        Seq::empty()
    } else {
        line_requirements(ls[0]) + requirements_of(ls.drop_first())
    }
}

/// Some line of `ls` holds a directive.
pub open spec fn any_directive(ls: Seq<Seq<char>>) -> bool {
    exists|k: int| 0 <= k < ls.len() && (#[trigger] directive_of(ls[k])) is Some
}

/// The views of a list of `String`s.
pub open spec fn names_view(v: Seq<String>) -> Seq<Seq<char>> {
    v.map_values(|s: String| s@)
}

fn line_end_exec(v: &Vec<char>, i: usize) -> (r: usize)
    requires
        i < v.len(),
    ensures
        r == line_end(v@, i as int),
{
    let mut k = i;
    while k < v.len() && v[k] != '\n'
        invariant
            i <= k <= v.len(),
            line_end(v@, k as int) == line_end(v@, i as int),
        decreases v.len() - k,
    {
        k = k + 1;
    }
    if k < v.len() {
        k + 1
    } else {
        k
    }
}

proof fn lemma_unfold_lines_from(s: Seq<char>, i: int)
    requires
        0 <= i < s.len(),
    ensures
        lines_from(s, i) == seq![s.subrange(i, line_end(s, i))] + lines_from(s, line_end(s, i)),
        lines_from(s, i).drop_first() == lines_from(s, line_end(s, i)),
        lines_from(s, i)[0] == s.subrange(i, line_end(s, i)),
        lines_from(s, i).len() > 0,
{
    lemma_line_end(s, i);
    assert((seq![s.subrange(i, line_end(s, i))] + lines_from(s, line_end(s, i))).drop_first()
        =~= lines_from(s, line_end(s, i)));
}

/// Preprocesses one script line (with its line ending): appends its rewritten
/// form to `out` and what it requires to `directives`; tells whether the line
/// held a directive.
fn preprocess_line(
    raw: &str,
    out: &mut String,
    directives: &mut PreprocessDirectives,
    handlers: &[RequireDirectiveHandler],
) -> (changed: bool)
    requires
        handlers@ == seq![RequireDirectiveHandler],
    ensures
        final(out)@ == old(out)@ + rewrite_line(raw@),
        names_view(final(directives).required_extensions@) == names_view(
            old(directives).required_extensions@,
        ) + line_requirements(raw@),
        changed == directive_of(raw@) is Some,
{
    let (line, eol) = split_line_with_eol(raw);
    let trimmed = trim_start_str(line);
    let tv = chars_of(trimmed);
    if tv.len() > 0 && tv[0] == '#' {
        push_str(out, raw);
        assert(names_view(directives.required_extensions@) =~= names_view(
            old(directives).required_extensions@,
        ) + Seq::<Seq<char>>::empty());
        return false;
    }
    proof {
        reveal_with_fuel(pipeline_model, 2);
        assert(handlers@.drop_first() =~= Seq::<RequireDirectiveHandler>::empty());
    }
    let ghost before = directives.required_extensions@;
    match run_directive_pipeline(line, directives, handlers) {
        Some(rewritten) => {
            push_str(out, rewritten.as_str());
            push_str(out, eol);
            proof {
                assert(old(out)@ + rewritten@ + eol@ =~= old(out)@ + (rewritten@ + eol@));
                let after = directives.required_extensions@;
                match require_model(line@).unwrap().required_extension {
                    Some(name) => {
                        assert(after == before.push(after.last()));
                        assert(names_view(after) =~= names_view(before) + seq![name]);
                    },
                    None => {
                        assert(names_view(after) =~= names_view(before) + Seq::<Seq<char>>::empty());
                    },
                }
            }
            true
        },
        None => {
            push_str(out, line);
            push_str(out, eol);
            proof {
                assert(old(out)@ + line@ + eol@ =~= old(out)@ + raw@);
                assert(names_view(directives.required_extensions@) =~= names_view(before)
                    + Seq::<Seq<char>>::empty());
            }
            false
        },
    }
}

/// Preprocesses the text of a script: every `require` line outside comments
/// becomes a comment, and the extensions it names are collected. Gives `None`
/// when no line holds a directive (the script is then used as it is).
pub fn preprocess_script(script: &str) -> (r: Option<(String, PreprocessDirectives)>)
    ensures
        r is None <==> !any_directive(lines(script@)),
        match r {
            Some((out, d)) => out@ == render_lines(lines(script@)) && names_view(
                d.required_extensions@,
            ) == requirements_of(lines(script@)),
            None => true,
        },
{
    let v = chars_of(script);
    let mut out = String::new();
    let mut directives = PreprocessDirectives { required_extensions: Vec::new() };
    let mut did_change = false;
    let handlers: Vec<RequireDirectiveHandler> = vec![RequireDirectiveHandler];
    let ghost all = lines(v@);
    let mut i: usize = 0;
    proof {
        assert(names_view(directives.required_extensions@) =~= Seq::<Seq<char>>::empty());
        assert(out@ + render_lines(lines_from(v@, 0)) =~= render_lines(all));
    }
    while i < v.len()
        invariant
            i <= v.len(),
            v@ == script@,
            all == lines(v@),
            handlers@ == seq![RequireDirectiveHandler],
            out@ + render_lines(lines_from(v@, i as int)) == render_lines(all),
            names_view(directives.required_extensions@) + requirements_of(lines_from(v@, i as int))
                == requirements_of(all),
            (did_change || any_directive(lines_from(v@, i as int))) == any_directive(all),
        decreases v.len() - i,
    {
        let j = line_end_exec(&v, i);
        proof { lemma_unfold_lines_from(v@, i as int); }
        let ghost rest = lines_from(v@, j as int);
        let ghost here = lines_from(v@, i as int);
        proof { lemma_line_end(v@, i as int); }
        let raw = char_slice(script, i, j);
        let ghost before = names_view(directives.required_extensions@);
        let ghost old_out = out@;
        if preprocess_line(raw, &mut out, &mut directives, handlers.as_slice()) {
            did_change = true;
        }
        proof {
            let rw = rewrite_line(raw@);
            assert(here.map_values(|l: Seq<char>| rewrite_line(l)).drop_first() =~= rest.map_values(
                |l: Seq<char>| rewrite_line(l),
            ));
            assert(here.map_values(|l: Seq<char>| rewrite_line(l))[0] == rw);
            assert(render_lines(here) == rw + render_lines(rest));
            assert(old_out + render_lines(here) == (old_out + rw) + render_lines(rest));
            assert(requirements_of(here) == line_requirements(raw@) + requirements_of(rest));
            assert(before + requirements_of(here) =~= names_view(directives.required_extensions@)
                + requirements_of(rest));
            if directive_of(raw@) is Some {
                assert(any_directive(here)) by {
                    assert(here[0] == raw@);
                }
            }
            if any_directive(here) {
                let k = choose|k: int| 0 <= k < here.len() && (#[trigger] directive_of(here[k])) is Some;
                if k > 0 {
                    assert(here[k] == rest[k - 1]);
                }
            }
            if any_directive(rest) {
                let k = choose|k: int| 0 <= k < rest.len() && (#[trigger] directive_of(rest[k])) is Some;
                assert(here[k + 1] == rest[k]);
            }
        }
        i = j;
    }
    proof {
        assert(lines_from(v@, i as int) =~= Seq::<Seq<char>>::empty());
        assert(render_lines(Seq::<Seq<char>>::empty()) =~= Seq::<char>::empty());
        assert(out@ =~= render_lines(all));
        assert(names_view(directives.required_extensions@) =~= requirements_of(all));
        assert(!any_directive(Seq::<Seq<char>>::empty()));
    }
    if !did_change {
        return None;
    }
    Some((out, directives))
}


// ---------------------------------------------------------------------------
// Laws of the line structure

/// `x` is a line: not empty, with no `\n` but possibly as its last character.
pub open spec fn is_line(x: Seq<char>) -> bool {
    x.len() > 0 && forall|m: int| 0 <= m < x.len() - 1 ==> #[trigger] x[m] != '\n'
}

/// `ls` is a list of lines in which every line but the last ends with `\n`.
pub open spec fn well_formed_lines(ls: Seq<Seq<char>>) -> bool {
    forall|k: int|
        0 <= k < ls.len() ==> is_line(#[trigger] ls[k]) && (k < ls.len() - 1 ==> ls[k].last()
            == '\n')
}

proof fn lemma_line_end_at(s: Seq<char>, i: int, m: int)
    requires
        0 <= i < m <= s.len(),
        forall|k: int| i <= k < m - 1 ==> #[trigger] s[k] != '\n',
        m == s.len() || s[m - 1] == '\n',
    ensures
        line_end(s, i) == m,
    decreases m - i,
{
    if i + 1 < m {
        lemma_line_end_at(s, i + 1, m);
    } else if m == s.len() && s[i] != '\n' {
        assert(line_end(s, i + 1) == s.len());
    }
}

proof fn lemma_line_end_shift(a: Seq<char>, b: Seq<char>, i: int)
    requires
        0 <= i < b.len(),
    ensures
        line_end(a + b, a.len() + i) == a.len() + line_end(b, i),
    decreases b.len() - i,
{
    assert((a + b)[a.len() + i] == b[i]);
    if b[i] != '\n' {
        if i + 1 < b.len() {
            lemma_line_end_shift(a, b, i + 1);
        } else {
            assert(line_end(b, i + 1) == b.len());
            assert(line_end(a + b, a.len() + i + 1) == (a + b).len());
        }
    }
}

proof fn lemma_lines_from_shift(a: Seq<char>, b: Seq<char>, i: int)
    requires
        0 <= i <= b.len(),
    ensures
        lines_from(a + b, a.len() + i) == lines_from(b, i),
    decreases b.len() - i,
{
    if i < b.len() {
        lemma_line_end_shift(a, b, i);
        lemma_line_end(b, i);
        let j = line_end(b, i);
        lemma_lines_from_shift(a, b, j);
        assert((a + b).subrange(a.len() + i, a.len() + j) =~= b.subrange(i, j));
    }
}

/// Joining the lines of a text gives back the text.
pub proof fn lemma_join_lines_from(s: Seq<char>, i: int)
    requires
        0 <= i <= s.len(),
    ensures
        join_lines(lines_from(s, i)) == s.skip(i),
    decreases s.len() - i,
{
    if i < s.len() {
        lemma_unfold_lines_from(s, i);
        lemma_line_end(s, i);
        let j = line_end(s, i);
        lemma_join_lines_from(s, j);
        assert(s.subrange(i, j) + s.skip(j) =~= s.skip(i));
    } else {
        assert(s.skip(i) =~= Seq::<char>::empty());
    }
}

/// The lines of a text are well formed.
pub proof fn lemma_lines_from_well_formed(s: Seq<char>, i: int)
    requires
        0 <= i <= s.len(),
    ensures
        well_formed_lines(lines_from(s, i)),
    decreases s.len() - i,
{
    if i < s.len() {
        lemma_unfold_lines_from(s, i);
        lemma_line_end(s, i);
        let j = line_end(s, i);
        lemma_lines_from_well_formed(s, j);
        let ls = lines_from(s, i);
        let rest = lines_from(s, j);
        assert forall|k: int| 0 <= k < ls.len() implies is_line(#[trigger] ls[k]) && (k < ls.len()
            - 1 ==> ls[k].last() == '\n') by {
            if k == 0 {
                let x = s.subrange(i, j);
                assert forall|m: int| 0 <= m < x.len() - 1 implies #[trigger] x[m] != '\n' by {
                    assert(x[m] == s[i + m]);
                }
                if ls.len() > 1 {
                    assert(rest.len() > 0);
                    if j == s.len() {
                        assert(rest.len() == 0);
                    }
                }
            } else {
                assert(ls[k] == rest[k - 1]);
            }
        }
    }
}

/// The lines of a join of well-formed lines are those lines.
pub proof fn lemma_lines_of_join(ls: Seq<Seq<char>>)
    requires
        well_formed_lines(ls),
    ensures
        lines(join_lines(ls)) == ls,
    decreases ls.len(),
{
    if ls.len() == 0 {
        assert(lines(Seq::<char>::empty()) =~= Seq::<Seq<char>>::empty());
    } else {
        let first = ls[0];
        let rest = ls.drop_first();
        assert(is_line(first));
        assert forall|k: int|
            0 <= k < rest.len() implies is_line(#[trigger] rest[k]) && (k < rest.len() - 1
            ==> rest[k].last() == '\n') by {
            assert(rest[k] == ls[k + 1]);
        }
        lemma_lines_of_join(rest);
        let j = join_lines(ls);
        let jr = join_lines(rest);
        assert(j == first + jr);
        assert forall|k: int| 0 <= k < first.len() - 1 implies #[trigger] j[k] != '\n' by {
            assert(j[k] == first[k]);
        }
        if first.last() != '\n' {
            assert(ls.len() == 1);
            assert(rest.len() == 0);
            assert(jr =~= Seq::<char>::empty());
            assert(j =~= first);
        } else {
            assert(j[first.len() - 1] == '\n');
        }
        lemma_line_end_at(j, 0, first.len() as int);
        lemma_unfold_lines_from(j, 0);
        assert(j.subrange(0, first.len() as int) =~= first);
        lemma_lines_from_shift(first, jr, 0);
        assert(ls =~= seq![first] + rest);
    }
}

proof fn lemma_split_eol_parts(raw: Seq<char>)
    requires
        is_line(raw),
    ensures
        split_eol(raw).0 + split_eol(raw).1 == raw,
        forall|m: int| 0 <= m < split_eol(raw).0.len() ==> #[trigger] split_eol(raw).0[m] != '\n',
        split_eol(raw).1.len() == 0 <==> raw.last() != '\n',
        split_eol(raw).1.len() > 0 ==> split_eol(raw).1.last() == '\n',
        forall|m: int|
            0 <= m < split_eol(raw).1.len() - 1 ==> #[trigger] split_eol(raw).1[m] != '\n',
{
    let (line, eol) = split_eol(raw);
    assert(line + eol =~= raw);
    assert forall|m: int| 0 <= m < line.len() implies #[trigger] line[m] != '\n' by {
        assert(line[m] == raw[m]);
        if eol.len() == 0 {
            assert(raw.last() != '\n');
        }
    }
}

proof fn lemma_rewrite_line_is_line(raw: Seq<char>)
    requires
        is_line(raw),
    ensures
        is_line(rewrite_line(raw)),
        rewrite_line(raw).last() == '\n' <==> raw.last() == '\n',
{
    if directive_of(raw) is Some {
        lemma_split_eol_parts(raw);
        let (line, eol) = split_eol(raw);
        let t = trim_start(line);
        lemma_skip_ws_bounds(line, 0);
        reveal_strlit("# ");
        let out = "# "@ + t + eol;
        assert(rewrite_line(raw) == out);
        assert forall|m: int| 0 <= m < t.len() implies #[trigger] t[m] != '\n' by {
            assert(t[m] == line[m + skip_ws(line, 0)]);
        }
        assert forall|m: int| 0 <= m < out.len() - 1 implies #[trigger] out[m] != '\n' by {
            if m >= 2 + t.len() {
                assert(out[m] == eol[m - 2 - t.len()]);
            } else if m >= 2 {
                assert(out[m] == t[m - 2]);
            }
        }
        if eol.len() == 0 {
            if t.len() > 0 {
                assert(out.last() == t.last());
            }
        } else {
            assert(out.last() == eol.last());
        }
    }
}

/// Preprocessing keeps the line structure: the preprocessed text has exactly
/// the lines of the script, each one kept or replaced by its rewritten form
/// with the same line ending. Line numbers therefore still point into the
/// script as written.
pub proof fn lemma_preprocess_keeps_lines(s: Seq<char>)
    ensures
        lines(render_lines(lines(s))) == lines(s).map_values(|l: Seq<char>| rewrite_line(l)),
        lines(render_lines(lines(s))).len() == lines(s).len(),
{
    let ls = lines(s);
    lemma_lines_from_well_formed(s, 0);
    let ms = ls.map_values(|l: Seq<char>| rewrite_line(l));
    assert forall|k: int|
        0 <= k < ms.len() implies is_line(#[trigger] ms[k]) && (k < ms.len() - 1 ==> ms[k].last()
        == '\n') by {
        assert(is_line(ls[k]));
        lemma_rewrite_line_is_line(ls[k]);
    }
    lemma_lines_of_join(ms);
}

/// A script without directives is left exactly as it is.
pub proof fn lemma_no_directive_no_change(s: Seq<char>)
    requires
        !any_directive(lines(s)),
    ensures
        render_lines(lines(s)) == s,
{
    let ls = lines(s);
    let ms = ls.map_values(|l: Seq<char>| rewrite_line(l));
    assert forall|k: int| 0 <= k < ls.len() implies #[trigger] ms[k] == ls[k] by {
        assert(directive_of(ls[k]) is None);
    }
    assert(ms =~= ls);
    lemma_join_lines_from(s, 0);
    assert(s.skip(0) =~= s);
}

/// A rewritten line holds no directive: it is a comment.
proof fn lemma_rewritten_line_has_no_directive(raw: Seq<char>)
    ensures
        directive_of(rewrite_line(raw)) is None,
{
    if let Some(out) = directive_of(raw) {
        reveal_strlit("# ");
        let x = rewrite_line(raw);
        let t = trim_start(split_eol(raw).0);
        assert(out.rewritten_line == "# "@ + t);
        assert(t.len() > 0);
        assert(x == ("# "@ + t) + split_eol(raw).1);
        assert(x.len() >= 3);
        assert(x[0] == '#');
        let y = split_eol(x).0;
        assert(y.len() >= 1 && y[0] == '#');
        assert(!is_ws(y[0]));
        assert(skip_ws(y, 0) == 0);
        assert(trim_start(y) =~= y);
        assert(is_comment_line(y));
    }
}

/// Preprocessing twice changes nothing more: the preprocessed text holds no
/// directive, so a second pass leaves it as it is.
pub proof fn lemma_preprocess_idempotent(s: Seq<char>)
    ensures
        !any_directive(lines(render_lines(lines(s)))),
        render_lines(lines(render_lines(lines(s)))) == render_lines(lines(s)),
{
    lemma_preprocess_keeps_lines(s);
    let ms = lines(render_lines(lines(s)));
    assert forall|k: int| 0 <= k < ms.len() implies (#[trigger] directive_of(ms[k])) is None by {
        lemma_rewritten_line_has_no_directive(lines(s)[k]);
    }
    lemma_no_directive_no_change(render_lines(lines(s)));
}

} // verus!
