//! The environment that tells programs what terminal they run in.

use vstd::prelude::*;
use vstd::string::*;

verus! {

pub const TERM_VAR: &'static str = "TERM";

pub const TERM_VALUE: &'static str = "xterm-256color";

pub const COLORTERM_VAR: &'static str = "COLORTERM";

pub const COLORTERM_VALUE: &'static str = "truecolor";

/// The views of a list of variables.
pub open spec fn variables(vs: Seq<(String, String)>) -> Seq<(Seq<char>, Seq<char>)> {
    vs.map_values(|v: (String, String)| (v.0@, v.1@))
}

/// Defaults for processes that run in a pane, in the order of their names. What the user or a
/// profile sets comes behind them and overrides them.
pub fn defaults() -> (vs: Vec<(String, String)>)
    ensures
        variables(vs@) == seq![(COLORTERM_VAR@, COLORTERM_VALUE@), (TERM_VAR@, TERM_VALUE@)],
{
    let mut vs: Vec<(String, String)> = Vec::new();
    vs.push((COLORTERM_VAR.to_owned(), COLORTERM_VALUE.to_owned()));
    vs.push((TERM_VAR.to_owned(), TERM_VALUE.to_owned()));
    assert(variables(vs@) =~= seq![
        (COLORTERM_VAR@, COLORTERM_VALUE@),
        (TERM_VAR@, TERM_VALUE@),
    ]);
    vs
}

} // verus!
