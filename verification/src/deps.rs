//! What the host needs for each part of the catalog, and which of it is
//! missing.
//!
//! A container needs an engine, a streamed app needs a compositor and an RFB
//! server, a host service needs systemd. These are host-wide: installed once,
//! they unlock every entry of their kind at once.

use vstd::prelude::*;
use crate::catalog::Prereq;

verus! {

/// Which part of the catalog a dependency unlocks.
#[derive(PartialEq, Eq, Structural)]
pub enum Need {
    Containers,
    Streamed,
    Host,
}

/// One host-wide dependency: the key the installer endpoint takes, what the
/// browser shows, why it is needed, what it unlocks, and how to provide it.
pub struct Dep {
    pub key: &'static str,
    pub label: &'static str,
    pub why: &'static str,
    pub need: Need,
    pub prereq: Prereq,
}

/// The dependencies of one part of the catalog that the host has not got,
/// in order. `present` says, for each dependency, whether its program was
/// found on the host.
pub open spec fn absent_of(deps: Seq<Dep>, present: Seq<bool>, need: Need) -> Seq<int>
    decreases deps.len(),
{
    if deps.len() == 0 {
        Seq::empty()
    } else {
        let i = deps.len() - 1;
        let rest = absent_of(deps.drop_last(), present, need);
        if deps[i].need == need && !present[i] {
            rest.push(i)
        } else {
            rest
        }
    }
}

/// The positions of the dependencies of `need` that the host has not got.
pub fn absent_for(deps: &Vec<Dep>, present: &Vec<bool>, need: Need) -> (r: Vec<usize>)
    requires
        present@.len() == deps@.len(),
    ensures
        r@.map_values(|i: usize| i as int) == absent_of(deps@, present@, need),
{
    let mut out: Vec<usize> = Vec::new();
    for i in 0..deps.len()
        invariant
            present@.len() == deps@.len(),
            out@.map_values(|k: usize| k as int) == absent_of(deps@.take(i as int), present@, need),
    {
        assert(deps@.take(i + 1).drop_last() == deps@.take(i as int));
        assert(deps@.take(i + 1)[i as int] == deps@[i as int]);
        let ghost before = out@;
        if deps[i].need == need && !present[i] {
            out.push(i);
            assert(out@.map_values(|k: usize| k as int) =~= before.map_values(|k: usize| k as int).push(i as int));
        }
    }
    assert(deps@.take(deps@.len() as int) == deps@);
    out
}

} // verus!
