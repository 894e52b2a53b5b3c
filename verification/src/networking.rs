//! Addressing between parties: each ordered pair of parties has its own port.
use vstd::prelude::*;

verus! {

/// The port on which party `to_id` listens for party `from_id`:
/// port_base + from_id * num_parties + to_id, which must be a port number
/// (at most 65535).
pub fn which_port(port_base: usize, from_id: usize, to_id: usize, num_parties: usize) -> (r: u16)
    requires
        port_base + from_id * num_parties + to_id <= 65535,
    ensures
        r == port_base + from_id * num_parties + to_id,
{
    proof {
        assert(0 <= from_id * num_parties) by (nonlinear_arith);
    }
    let ret = port_base + from_id * num_parties + to_id;
    ret as u16
}

/// The other party of a two-party computation.
pub fn other_party(my_id: usize) -> (r: usize)
    requires
        my_id <= 1,
    ensures
        r == 1 - my_id,
{
    1 - my_id
}

} // verus!
