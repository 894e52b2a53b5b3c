//! Two-party SPDZ-2k secure computation over the rings Z_{2^k}: share
//! arithmetic, a trusted dealer for the preprocessing phase, and the
//! per-gate computations of the online phase of matrix circuits.
pub mod rng;
pub mod beaver;
pub mod bits;
pub mod carry;
pub mod circuit;
pub mod compare;
pub mod dealer;
pub mod fake_circuit;
pub mod fake_gate;
pub mod fake_input_gate;
pub mod fake_add_gate;
pub mod fake_subtract_gate;
pub mod fake_add_constant_gate;
pub mod fake_output_gate;
pub mod fake_multiply_gate;
pub mod fake_multiply_trunc_gate;
pub mod fake_elem_multiply_gate;
pub mod fake_gtz_gate;
pub mod fixed_point;
pub mod gate;
pub mod input_gate;
pub mod add_gate;
pub mod subtract_gate;
pub mod add_constant_gate;
pub mod output_gate;
pub mod multiply_gate;
pub mod order;
pub mod product_circuit;
pub mod read_back;
pub mod multiply_trunc_gate;
pub mod networking;
pub mod elem_multiply_gate;
pub mod gtz_gate;
pub mod linear_algebra;
pub mod ring;
pub mod share;
pub mod timer;
