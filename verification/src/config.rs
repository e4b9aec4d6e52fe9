//! Arguments of the `config` command.

use vstd::prelude::*;

verus! {

/// The `config` command takes no arguments of its own.
#[derive(Clone, Debug, PartialEq, Eq)]
pub struct ConfigArgs {}

} // verus!
