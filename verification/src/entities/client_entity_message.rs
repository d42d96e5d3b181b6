//! What the client tells the application about its entities.

use vstd::prelude::*;

verus! {

/// The key under which a client knows an entity that the server has put in
/// its scope. The server gives the keys out, one set per client.
pub type LocalEntityKey = u16;

/// A change of the client's scope that the application should hear of.
#[derive(Clone, Copy, Debug, PartialEq, Eq, Structural)]
pub enum ClientEntityMessage {
    /// An entity came into scope under this key.
    Create(u16),
    /// The entity under this key changed.
    Update(u16),
    /// The entity under this key left the scope.
    Delete(u16),
}

} // verus!
