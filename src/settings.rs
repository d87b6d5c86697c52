//! Application settings as plain values.
use crate::decimal::Dec;
use crate::relay::string_views;
use vstd::prelude::*;

verus! {

/// What the process does.
#[derive(Clone, Debug)]
pub enum RunMode {
    /// Download and adjust historical prices into `out_file`.
    Download { out_file: String },
    /// Trade the pairs listed in `data_file`.
    Run { data_file: String },
}

/// The application's own settings.
#[derive(Clone, Debug)]
pub struct AppSettings {
    pub cash: Dec,
    pub run_mode: RunMode,
    pub tickers: Vec<String>,
}

/// The parts joined back together with commas.
pub open spec fn join_commas(parts: Seq<Seq<char>>) -> Seq<char>
    decreases parts.len(),
{
    if parts.len() == 0 {
        seq![]
    } else if parts.len() == 1 {
        parts[0]
    } else {
        join_commas(parts.drop_last()) + seq![','] + parts.last()
    }
}

/// Relies on `str::split` with a `char` pattern: the pieces between the commas, in
/// order; at least one, so an empty string gives one empty piece.
#[verifier::external_body]
fn split_commas(s: &str) -> (r: Vec<String>)
    ensures
        r@.len() >= 1,
        join_commas(string_views(r@)) == s@,
        forall|i: int| 0 <= i < r@.len() ==> !(#[trigger] r@[i]@).contains(','),
{
    s.split(',').map(String::from).collect()
}

/// The tickers of a comma-separated list, in order: no ticker holds a comma, and
/// joining them with commas gives the list back.
pub fn tickers_from_str(s: &str) -> (r: Vec<String>)
    ensures
        r@.len() >= 1,
        join_commas(string_views(r@)) == s@,
        forall|i: int| 0 <= i < r@.len() ==> !(#[trigger] r@[i]@).contains(','),
{
    split_commas(s)
}

} // verus!
