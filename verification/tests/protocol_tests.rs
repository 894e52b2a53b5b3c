use md_ml::circuit::Circuit;
use md_ml::dealer::FakeParty;
use md_ml::fake_circuit::FakeCircuit;
use md_ml::fake_gate::FakeGate;
use md_ml::gate::{Action, Gate};
use md_ml::share::{ShareElement, Spdz2kShare, Spdz2kShare32, Spdz2kShare64};

/// A party's preprocessing file, read front to back.
struct Reader {
    bytes: Vec<u8>,
    pos: usize,
}

impl Reader {
    fn take(&mut self, n: usize) -> Vec<u8> {
        let r = self.bytes[self.pos..self.pos + n].to_vec();
        self.pos += n;
        r
    }
}

/// Both parties build the circuit, party 0 sets the inputs, each reads its
/// file, and the online phase runs with the messages handed across.
/// Returns each party's circuit.
fn run_two_parties<S: Spdz2kShare>(
    files: Vec<Vec<u8>>,
    build: &dyn Fn(&mut Circuit<S>) -> Vec<usize>,
    inputs: &[(usize, Vec<S::ClearType>)],
) -> (Circuit<S>, Circuit<S>, Vec<usize>) {
    let mut circuits: Vec<Circuit<S>> = Vec::new();
    let mut keys: Vec<S::GlobalKeyType> = Vec::new();
    let mut handles = Vec::new();
    for (my_id, file) in files.into_iter().enumerate() {
        let mut reader = Reader { bytes: file, pos: 0 };
        let key = S::GlobalKeyType::from_le_bytes(&reader.take(S::GlobalKeyType::byte_size()));
        let mut c = Circuit::<S>::new();
        handles = build(&mut c);
        if my_id == 0 {
            for (g, v) in inputs {
                c.set_input(*g, v, 0);
            }
        }
        for g in c.evaluation_order() {
            let layout = c.offline_layout(g, my_id);
            let pieces: Vec<Vec<u8>> = layout.iter().map(|&n| reader.take(n)).collect();
            c.read_offline(g, &pieces, my_id);
        }
        assert_eq!(reader.pos, reader.bytes.len());
        circuits.push(c);
        keys.push(key);
    }
    let mut c1 = circuits.pop().unwrap();
    let mut c0 = circuits.pop().unwrap();
    let order = c0.evaluation_order();
    assert_eq!(order, c1.evaluation_order());
    for g in order {
        assert!(c0.can_begin(g) && c1.can_begin(g));
        let mut a0 = c0.online_begin(g, 0, keys[0]);
        let mut a1 = c1.online_begin(g, 1, keys[1]);
        loop {
            match (a0, a1) {
                (Action::Done, Action::Done) => break,
                (Action::Send(b), Action::Receive(n)) => {
                    assert_eq!(n, b.len());
                    a1 = c1.online_continue(g, &b, 1);
                    a0 = Action::Done;
                }
                (Action::Receive(n), Action::Send(b)) => {
                    assert_eq!(n, b.len());
                    a0 = c0.online_continue(g, &b, 0);
                    a1 = Action::Done;
                }
                (Action::Exchange(b0), Action::Exchange(b1)) => {
                    assert_eq!(b0.len(), b1.len());
                    a0 = c0.online_continue(g, &b1, 0);
                    a1 = c1.online_continue(g, &b0, 1);
                }
                _ => panic!("the parties' steps do not match"),
            }
        }
        assert!(c0.gate(g).is_evaluated_online() && c1.gate(g).is_evaluated_online());
    }
    (c0, c1, handles)
}

/// The dealer's files for a circuit.
fn deal<S: Spdz2kShare>(build: &dyn Fn(&mut FakeCircuit<S, 2>)) -> Vec<Vec<u8>> {
    let mut party = FakeParty::<S, 2>::new();
    let mut circuit = FakeCircuit::<S, 2>::new();
    build(&mut circuit);
    circuit.run_offline(&mut party);
    party.take_pending()
}

fn both_outputs<S: Spdz2kShare>(c0: &Circuit<S>, c1: &Circuit<S>, g: usize) -> Vec<S::ClearType>
where
    S::ClearType: PartialEq,
{
    let o0 = c0.get_clear(g).unwrap();
    let o1 = c1.get_clear(g).unwrap();
    assert!(o0 == o1);
    o0
}

#[test]
fn two_parties_add() {
    type S = Spdz2kShare64;
    let files = deal::<S>(&|c| {
        let a = c.input(0, 1, 2);
        let b = c.input(0, 1, 2);
        let s = c.add(a, b);
        let d = c.output(s);
        c.add_endpoint(d);
    });
    let build = |c: &mut Circuit<S>| {
        let a = c.input(0, 1, 2);
        let b = c.input(0, 1, 2);
        let s = c.add(a, b);
        let d = c.output(s);
        c.add_endpoint(d);
        vec![a, b, d]
    };
    let (c0, c1, h) = run_two_parties::<S>(files, &build, &[(0, vec![3, u64::MAX]), (1, vec![5, 2])]);
    assert_eq!(both_outputs(&c0, &c1, h[2]), vec![8u64, 1]);
}

#[test]
fn two_parties_matrix_product() {
    type S = Spdz2kShare64;
    let files = deal::<S>(&|c| {
        let a = c.input(0, 2, 3);
        let b = c.input(0, 3, 2);
        let m = c.multiply(a, b);
        let d = c.output(m);
        c.add_endpoint(d);
    });
    let build = |c: &mut Circuit<S>| {
        let a = c.input(0, 2, 3);
        let b = c.input(0, 3, 2);
        let m = c.multiply(a, b);
        let d = c.output(m);
        c.add_endpoint(d);
        vec![a, b, d]
    };
    let (c0, c1, h) = run_two_parties::<S>(files, &build, &[(0, vec![1, 2, 3, 4, 5, 6]), (1, vec![7, 8, 9, 10, 11, 12])]);
    assert_eq!(both_outputs(&c0, &c1, h[2]), vec![58u64, 64, 139, 154]);
}

#[test]
fn two_parties_product_in_32_bits() {
    type S = Spdz2kShare32;
    let files = deal::<S>(&|c| {
        let a = c.input(0, 1, 2);
        let b = c.input(0, 2, 1);
        let m = c.multiply(a, b);
        let d = c.output(m);
        c.add_endpoint(d);
    });
    let build = |c: &mut Circuit<S>| {
        let a = c.input(0, 1, 2);
        let b = c.input(0, 2, 1);
        let m = c.multiply(a, b);
        let d = c.output(m);
        c.add_endpoint(d);
        vec![a, b, d]
    };
    let (c0, c1, h) = run_two_parties::<S>(files, &build, &[(0, vec![u32::MAX, 3]), (1, vec![2, 4])]);
    // (2^32 - 1) * 2 + 3 * 4 = 10 (mod 2^32)
    assert_eq!(both_outputs(&c0, &c1, h[2]), vec![10u32]);
}

#[test]
fn two_parties_fixed_point_product() {
    type S = Spdz2kShare64;
    let files = deal::<S>(&|c| {
        let a = c.input(0, 1, 1);
        let b = c.input(0, 1, 1);
        let m = c.multiply_trunc(a, b);
        let d = c.output(m);
        c.add_endpoint(d);
    });
    let build = |c: &mut Circuit<S>| {
        let a = c.input(0, 1, 1);
        let b = c.input(0, 1, 1);
        let m = c.multiply_trunc(a, b);
        let d = c.output(m);
        c.add_endpoint(d);
        vec![a, b, d]
    };
    // 1.5 in fixed point is 1.5 * 2^16 = 98304; 1.5 * 1.5 = 2.25 is 147456.
    let (c0, c1, h) = run_two_parties::<S>(files, &build, &[(0, vec![98304]), (1, vec![98304])]);
    let out = both_outputs(&c0, &c1, h[2])[0];
    assert!(out == 147456 || out == 147457, "got {}", out);
}

#[test]
fn two_parties_element_product_and_constant() {
    type S = Spdz2kShare64;
    let files = deal::<S>(&|c| {
        let a = c.input(0, 1, 3);
        let b = c.input(0, 1, 3);
        let m = c.element_multiply(a, b);
        let k = c.add_constant(m, 10);
        let d = c.output(k);
        c.add_endpoint(d);
    });
    let build = |c: &mut Circuit<S>| {
        let a = c.input(0, 1, 3);
        let b = c.input(0, 1, 3);
        let m = c.element_multiply(a, b);
        let k = c.add_constant(m, 10);
        let d = c.output(k);
        c.add_endpoint(d);
        vec![a, b, d]
    };
    let (c0, c1, h) = run_two_parties::<S>(files, &build, &[(0, vec![2, 3, 1 << 63]), (1, vec![5, 7, 2])]);
    assert_eq!(both_outputs(&c0, &c1, h[2]), vec![20u64, 31, 10]);
}

#[test]
fn two_parties_difference_then_sum() {
    type S = Spdz2kShare64;
    let files = deal::<S>(&|c| {
        let a = c.input(0, 1, 1);
        let b = c.input(0, 1, 1);
        let e = c.input(0, 1, 1);
        let s = c.subtract(a, b);
        let t = c.add(s, e);
        let d = c.output(t);
        c.add_endpoint(d);
    });
    let build = |c: &mut Circuit<S>| {
        let a = c.input(0, 1, 1);
        let b = c.input(0, 1, 1);
        let e = c.input(0, 1, 1);
        let s = c.subtract(a, b);
        let t = c.add(s, e);
        let d = c.output(t);
        c.add_endpoint(d);
        vec![a, b, e, d]
    };
    let (c0, c1, h) = run_two_parties::<S>(files, &build, &[(0, vec![3]), (1, vec![10]), (2, vec![100])]);
    assert_eq!(both_outputs(&c0, &c1, h[3]), vec![93u64]);
}

#[test]
fn two_parties_comparison_with_zero() {
    type S = Spdz2kShare64;
    let files = deal::<S>(&|c| {
        let x = c.input(0, 3, 1);
        let g = c.gtz(x);
        let d = c.output(g);
        c.add_endpoint(d);
    });
    let build = |c: &mut Circuit<S>| {
        let x = c.input(0, 3, 1);
        let g = c.gtz(x);
        let d = c.output(g);
        c.add_endpoint(d);
        vec![x, d]
    };
    let (c0, c1, h) = run_two_parties::<S>(files, &build, &[(0, vec![5, 0u64.wrapping_sub(5), 1 << 40])]);
    assert_eq!(both_outputs(&c0, &c1, h[1]), vec![1u64, 0, 1]);
}

#[test]
fn two_parties_output_of_difference() {
    type S = Spdz2kShare64;
    let files = deal::<S>(&|c| {
        let a = c.input(0, 1, 2);
        let b = c.input(0, 1, 2);
        let s = c.subtract(a, b);
        let d = c.output(s);
        c.add_endpoint(d);
    });
    let build = |c: &mut Circuit<S>| {
        let a = c.input(0, 1, 2);
        let b = c.input(0, 1, 2);
        let s = c.subtract(a, b);
        let d = c.output(s);
        c.add_endpoint(d);
        vec![a, b, d]
    };
    let (c0, c1, h) = run_two_parties::<S>(files, &build, &[(0, vec![10, 3]), (1, vec![4, 5])]);
    assert_eq!(both_outputs(&c0, &c1, h[2]), vec![6u64, 0u64.wrapping_sub(2)]);
}

#[test]
fn two_parties_product_of_sums() {
    type S = Spdz2kShare64;
    let files = deal::<S>(&|c| {
        let a = c.input(0, 1, 1);
        let b = c.input(0, 1, 1);
        let e = c.input(0, 1, 1);
        let s = c.add(a, b);
        let m = c.multiply(s, e);
        let d = c.output(m);
        c.add_endpoint(d);
    });
    let build = |c: &mut Circuit<S>| {
        let a = c.input(0, 1, 1);
        let b = c.input(0, 1, 1);
        let e = c.input(0, 1, 1);
        let s = c.add(a, b);
        let m = c.multiply(s, e);
        let d = c.output(m);
        c.add_endpoint(d);
        vec![a, b, e, d]
    };
    let (c0, c1, h) = run_two_parties::<S>(files, &build, &[(0, vec![3]), (1, vec![4]), (2, vec![5])]);
    assert_eq!(both_outputs(&c0, &c1, h[3]), vec![35u64]);
}

#[test]
fn evaluation_order_walks_inputs_first() {
    type S = Spdz2kShare64;
    let mut c = Circuit::<S>::new();
    let a = c.input(0, 1, 1);
    let b = c.input(1, 1, 1);
    let s = c.add(b, a);
    let d = c.output(s);
    let e = c.output(a);
    c.add_endpoint(d);
    c.add_endpoint(e);
    assert_eq!(c.evaluation_order(), vec![b, a, s, d, e]);
    assert_eq!(c.num_gates(), 5);
    assert_eq!(c.input_owner(b), Some(1));
    assert_eq!(c.input_owner(s), None);
    assert_eq!(c.dims(s), (1, 1));
    assert!(!c.can_begin(s));
}

#[test]
fn offline_layouts_of_gates() {
    type S = Spdz2kShare64;
    let mut c = Circuit::<S>::new();
    let a = c.input(0, 2, 3);
    let b = c.input(0, 3, 4);
    let m = c.multiply(a, b);
    let t = c.multiply_trunc(a, b);
    let g = c.gtz(m);
    let d = c.output(m);
    assert_eq!(c.offline_layout(a, 0), vec![96, 96, 96]);
    assert_eq!(c.offline_layout(a, 1), vec![96, 96]);
    assert_eq!(c.offline_layout(m, 0), vec![96, 96, 192, 192, 128, 128, 128, 128, 96, 192]);
    assert_eq!(c.offline_layout(t, 0).len(), 12);
    assert_eq!(c.offline_layout(g, 1), vec![128, 128, 64]);
    assert_eq!(c.offline_layout(d, 1), Vec::<usize>::new());
}

#[test]
fn gate_names_follow_their_kind() {
    type S = Spdz2kShare64;
    let mut c = Circuit::<S>::new();
    let a = c.input(0, 1, 1);
    let s = c.add(a, a);
    let d = c.output(s);
    assert_eq!(c.gate(a).name(), "InputGate");
    assert_eq!(c.gate(s).name(), "AddGate");
    assert_eq!(c.gate(d).name(), "OutputGate");
    let mut f = FakeCircuit::<S, 2>::new();
    let x = f.input(1, 1, 1);
    let g = f.gtz(x);
    assert_eq!(f.gate(x).name(), "FakeInputGate");
    assert_eq!(f.gate(g).name(), "FakeGtzGate");
}

#[test]
fn reader_masks_are_the_dealt_shares() {
    type S = Spdz2kShare64;
    let mut party = FakeParty::<S, 2>::new();
    let mut fake = FakeCircuit::<S, 2>::new();
    let fa = fake.input(0, 2, 2);
    let fb = fake.input(1, 2, 2);
    let fs = fake.add(fa, fb);
    let fd = fake.subtract(fs, fb);
    let fm = fake.multiply(fd, fa);
    let fe = fake.element_multiply(fm, fs);
    let ft = fake.multiply_trunc(fe, fa);
    let fg = fake.gtz(ft);
    fake.add_endpoint(fg);
    fake.run_offline(&mut party);
    let files = party.take_pending();
    for (my_id, file) in files.into_iter().enumerate() {
        let mut reader = Reader { bytes: file, pos: 0 };
        reader.take(<S as Spdz2kShare>::GlobalKeyType::byte_size());
        let mut c = Circuit::<S>::new();
        let a = c.input(0, 2, 2);
        let b = c.input(1, 2, 2);
        let s = c.add(a, b);
        let d = c.subtract(s, b);
        let m = c.multiply(d, a);
        let e = c.element_multiply(m, s);
        let t = c.multiply_trunc(e, a);
        let g = c.gtz(t);
        c.add_endpoint(g);
        assert_eq!(c.evaluation_order(), fake.evaluation_order());
        for h in c.evaluation_order() {
            let layout = c.offline_layout(h, my_id);
            let pieces: Vec<Vec<u8>> = layout.iter().map(|&n| reader.take(n)).collect();
            c.read_offline(h, &pieces, my_id);
        }
        assert_eq!(reader.pos, reader.bytes.len());
        // The product with truncation holds the product's mask until its
        // online step swaps in the truncated one, so it is left out here.
        assert_eq!(c.gate(t).lambda_shr().len(), 4);
        for (h, fh) in [(a, fa), (b, fb), (s, fs), (d, fd), (m, fm), (e, fe), (g, fg)] {
            assert_eq!(c.gate(h).lambda_shr(), &fake.gate(fh).lambda_shr()[my_id]);
            assert_eq!(c.gate(h).lambda_shr_mac(), &fake.gate(fh).lambda_shr_mac()[my_id]);
        }
    }
}
