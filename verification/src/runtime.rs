//! What the runner sets up before each script: the extensions of the command
//! line, and the extensions that the script requires.

use vstd::prelude::*;

use crate::extensions::{
    actions_model, compile_extension_actions, load_sql, load_sql_for, parse_model,
    ExtensionActions, ExtensionSpecError, ExtensionSpecModel,
};

verus! {

/// Compiles every `--extensions` entry, in order; the first malformed entry
/// is the error.
pub fn compile_extensions(raw_specs: &[String]) -> (r: Result<Vec<ExtensionActions>, ExtensionSpecError>)
    ensures
        match r {
            Ok(actions) => actions@.len() == raw_specs@.len() && forall|i: int|
                0 <= i < raw_specs@.len() ==> #[trigger] actions_model(raw_specs@[i]@, actions@[i]),
            Err(e) => exists|k: int|
                0 <= k < raw_specs@.len() && (forall|i: int|
                    0 <= i < k ==> #[trigger] parse_model(raw_specs@[i]@) is Ok) && parse_model(
                    raw_specs@[k]@,
                ) == Err::<ExtensionSpecModel, _>(e@),
        },
{
    let mut out: Vec<ExtensionActions> = Vec::new();
    let n = raw_specs.len();
    for i in 0..n
        invariant
            n == raw_specs@.len(),
            out@.len() == i,
            forall|j: int| 0 <= j < i ==> #[trigger] actions_model(raw_specs@[j]@, out@[j]),
    {
        match compile_extension_actions(raw_specs[i].as_str()) {
            Ok(a) => out.push(a),
            Err(e) => {
                proof {
                    assert forall|j: int| 0 <= j < i implies #[trigger] parse_model(
                        raw_specs@[j]@,
                    ) is Ok by {
                        assert(actions_model(raw_specs@[j]@, out@[j]));
                    }
                }
                return Err(e);
            },
        }
    }
    Ok(out)
}

/// The SQL that prepares a connection for a script.
pub struct SetupStatements {
    /// `INSTALL` and `LOAD` of each command-line extension, in order; each
    /// must succeed, the `INSTALL` first.
    pub required: Vec<(String, String)>,
    /// `LOAD` of each extension that the script requires; a failure is
    /// ignored (the script's own records then fail or are skipped).
    pub best_effort: Vec<String>,
}

/// The statements that set up a connection: the `INSTALL` and `LOAD` of
/// every command-line extension, in command-line order, then a `LOAD` of
/// every extension that the script requires.
pub fn setup_statements(extensions: &[ExtensionActions], required_extensions: &[String]) -> (r:
    SetupStatements)
    ensures
        r.required@.len() == extensions@.len(),
        forall|i: int|
            0 <= i < extensions@.len() ==> (#[trigger] r.required@[i]).0@
                == extensions@[i].install_sql@ && r.required@[i].1@ == extensions@[i].load_sql@,
        r.best_effort@.len() == required_extensions@.len(),
        forall|i: int|
            0 <= i < required_extensions@.len() ==> (#[trigger] r.best_effort@[i])@
                == load_sql_for(required_extensions@[i]@),
{
    let mut required: Vec<(String, String)> = Vec::new();
    let n = extensions.len();
    for i in 0..n
        invariant
            n == extensions@.len(),
            required@.len() == i,
            forall|j: int|
                0 <= j < i ==> (#[trigger] required@[j]).0@ == extensions@[j].install_sql@
                    && required@[j].1@ == extensions@[j].load_sql@,
    {
        required.push((extensions[i].install_sql.clone(), extensions[i].load_sql.clone()));
    }
    let mut best_effort: Vec<String> = Vec::new();
    let m = required_extensions.len();
    for i in 0..m
        invariant
            m == required_extensions@.len(),
            best_effort@.len() == i,
            forall|j: int|
                0 <= j < i ==> (#[trigger] best_effort@[j])@ == load_sql_for(
                    required_extensions@[j]@,
                ),
    {
        best_effort.push(load_sql(required_extensions[i].as_str()));
    }
    SetupStatements { required, best_effort }
}

} // verus!
