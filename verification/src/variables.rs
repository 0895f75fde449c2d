//! The variable compiler: resolves the definitions of a table in the order in
//! which they stand, each against what stands before it.

use crate::error::ConfigError;
use crate::error::Fault;
use crate::placeholder::expand_text;
use crate::placeholder::expanded;
use crate::table::put;
use crate::table::table_clone;
use crate::table::table_entries;
use crate::table::table_entry;
use crate::table::table_insert;
use crate::table::table_len;
use crate::table::table_new;
use indexmap::IndexMap;
use vstd::prelude::*;

verus! {

/// The table that comes of resolving the definitions `raw[k..]` in turn on
/// top of `table`: the value of each is expanded from the table as it then
/// is, and the definition is put into the table under its name.
pub open spec fn compile_from(
    raw: Seq<(Seq<char>, Seq<char>)>,
    k: int,
    table: Seq<(Seq<char>, Seq<char>)>,
) -> Result<Seq<(Seq<char>, Seq<char>)>, Fault>
    decreases raw.len() - k,
{
    if k < 0 || k >= raw.len() {
        Ok(table)
    } else {
        match expanded(raw[k].1, table) {
            Err(fault) => Err(fault),
            Ok(value) => compile_from(raw, k + 1, put(table, raw[k].0, value)),
        }
    }
}

/// The entries that a compilation starts from.
pub open spec fn base_entries(base: Option<&IndexMap<String, String>>) -> Seq<
    (Seq<char>, Seq<char>),
> {
    match base {
        Some(table) => table_entries(*table),
        None => Seq::empty(),
    }
}

/// The table that the definitions `raw` resolve to on top of `base`.
pub open spec fn compiled(raw: Seq<(Seq<char>, Seq<char>)>, base: Seq<(Seq<char>, Seq<char>)>)
    -> Result<Seq<(Seq<char>, Seq<char>)>, Fault> {
    compile_from(raw, 0, base)
}

/// A result over a table as contracts see it.
pub open spec fn table_result(r: Result<IndexMap<String, String>, ConfigError>) -> Result<
    Seq<(Seq<char>, Seq<char>)>,
    Fault,
> {
    match r {
        Ok(table) => Ok(table_entries(table)),
        Err(e) => Err(e@),
    }
}

/// Resolves the definitions `variables` in their order. The result starts as
/// a copy of `global_variables`, or empty. A definition may use what the
/// result holds when its turn comes: the globals and the definitions before
/// it. It then enters the result under its name, in the place of an entry of
/// that name if there is one. The first placeholder that names nothing in the
/// result ends the work with `UndefinedVariable`.
pub fn create_local_variables(
    variables: &IndexMap<String, String>,
    global_variables: Option<&IndexMap<String, String>>,
) -> (r: Result<IndexMap<String, String>, ConfigError>)
    ensures
        table_result(r) == compiled(table_entries(*variables), base_entries(global_variables)),
{
    let mut ret = match global_variables {
        Some(globals) => table_clone(globals),
        None => table_new(),
    };
    let ghost raw = table_entries(*variables);
    let ghost base = base_entries(global_variables);
    let n = table_len(variables);
    let mut k: usize = 0;
    while k < n
        invariant
            k <= n == raw.len(),
            raw == table_entries(*variables),
            base == base_entries(global_variables),
            compile_from(raw, k as int, table_entries(ret)) == compiled(raw, base),
        decreases n - k,
    {
        let (name, value) = table_entry(variables, k);
        match expand_text(value.as_str(), &ret) {
            Err(e) => {
                return Err(e);
            },
            Ok(resolved) => {
                table_insert(&mut ret, name, resolved);
            },
        }
        k += 1;
    }
    Ok(ret)
}

} // verus!
