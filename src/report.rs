//! The lines of the final report: one per root path, in report order.

use crate::format::{format_size, rendered};
use crate::order::{collect, is_report_of, SizeOrErr};
use vstd::prelude::*;
use vstd::string::StringExecFns;

verus! {

/// The text of the line reporting one result: `Ok` holds a line for standard
/// output (`<size> <path>`), `Err` a line for standard error.
pub open spec fn line(s: SizeOrErr, raw: bool) -> Result<Seq<char>, Seq<char>> {
    match s.0 {
        Ok(n) => Ok(rendered(n as nat, raw) + seq![' '] + s.1@),
        Err(c) => Err(
            "Errored attempting '"@ + s.1@ + "', err = "@ + c@,
        ),
    }
}

/// The view of an executable report line.
pub open spec fn line_view(l: Result<String, String>) -> Result<Seq<char>, Seq<char>> {
    match l {
        Ok(t) => Ok(t@),
        Err(t) => Err(t@),
    }
}

/// Renders the line that reports one result.
pub fn render_line(entry: &SizeOrErr, raw: bool) -> (r: Result<String, String>)
    ensures
        line_view(r) == line(*entry, raw),
{
    match &entry.0 {
        Ok(n) => {
            let mut s = format_size(*n, raw);
            let sep = " ";
            proof {
                reveal_strlit(" ");
            }
            s.append(sep);
            s.append(entry.1.as_str());
            assert(s@ =~= rendered(*n as nat, raw) + seq![' '] + entry.1@);
            Ok(s)
        },
        Err(c) => {
            let mut s = String::from_str("Errored attempting '");
            s.append(entry.1.as_str());
            s.append("', err = ");
            s.append(c.as_str());
            Err(s)
        },
    }
}

/// Orders the results and renders one line for each of them, largest size
/// first and failures last.
pub fn report(results: Vec<SizeOrErr>, raw: bool) -> (r: Vec<Result<String, String>>)
    ensures
        r.len() == results.len(),
        exists|ordered: Seq<SizeOrErr>|
            {
                &&& is_report_of(results@, ordered)
                &&& ordered.len() == r.len()
                &&& forall|i: int|
                    0 <= i < r.len() ==> line_view(#[trigger] r[i]) == line(ordered[i], raw)
            },
{
    let ghost input = results@;
    let ordered = collect(results);
    proof {
        crate::order::lemma_report_keeps_every_entry(input, ordered@);
    }
    let mut lines: Vec<Result<String, String>> = Vec::new();
    let mut i: usize = 0;
    while i < ordered.len()
        invariant
            i <= ordered.len(),
            lines.len() == i,
            forall|k: int| 0 <= k < i ==> line_view(#[trigger] lines[k]) == line(ordered@[k], raw),
        decreases ordered.len() - i,
    {
        lines.push(render_line(&ordered[i], raw));
        i = i + 1;
    }
    lines
}

} // verus!
