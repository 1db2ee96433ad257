use vstd::prelude::*;

verus! {

/// What the relay server tells a client over the control stream.
#[derive(Debug, Clone)]
pub enum ClientCommand {
    /// Open a new connection for the given id.
    NewConnection { id: String },
}

} // verus!
