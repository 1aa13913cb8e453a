use std::collections::HashMap;

use anneml::attribute::{Activation, Attribute, CellType, TensorDescriptor};
use anneml::edges::LinkType::InputsFromParent;
use anneml::edges::NodeRange;
use anneml::network::Network;
use anneml::node::{Node, NodeType};
use anneml::plan::{Fill, Recipe, Region, Seed, Span, Step};
use anneml::scope::Scope;
use anneml::tensor::{Array, Dims, Origin, Tensor};
use uuid::Uuid;

/// A dense array of numbers, first axis fastest.
#[derive(Clone, Debug, PartialEq)]
struct Dense {
    dims: [u64; 4],
    data: Vec<f64>,
}

/// An inclusive run of indices with a step, as `(begin, end, step)`.
type Seq3 = [(i64, i64, i64); 3];

fn dim4(d0: u64, d1: u64, d2: u64, d3: u64) -> [u64; 4] {
    [d0, d1, d2, d3]
}

fn seq(begin: i64, end: i64, step: i64) -> (i64, i64, i64) {
    (begin, end, step)
}

fn constant(value: f64, dims: [u64; 4]) -> Dense {
    let count = (dims[0] * dims[1] * dims[2] * dims[3]) as usize;
    Dense { dims, data: vec![value; count] }
}

fn spans(seqs: &Seq3) -> [(usize, usize); 3] {
    let mut out = [(0usize, 0usize); 3];
    for axis in 0..3 {
        let (begin, end, step) = seqs[axis];
        assert_eq!(step, 1);
        assert!(begin >= 0 && end >= begin);
        out[axis] = (begin as usize, (end - begin + 1) as usize);
    }
    out
}

fn region_seqs(region: &Region) -> Seq3 {
    let one = |span: &Span| {
        assert!(span.count >= 1, "an empty span cannot be addressed");
        (span.start as i64, (span.start + span.count - 1) as i64, 1)
    };
    [one(&region.rows), one(&region.columns), one(&region.depth)]
}

impl Dense {
    fn at(&self, i: usize, j: usize, k: usize) -> usize {
        assert!((i as u64) < self.dims[0] && (j as u64) < self.dims[1] && (k as u64) < self.dims[2]);
        i + (self.dims[0] as usize) * (j + (self.dims[1] as usize) * k)
    }

    /// Element by element product of two arrays of one shape.
    fn mul(&self, other: &Dense) -> Dense {
        assert_eq!(self.dims, other.dims);
        Dense { dims: self.dims, data: self.data.iter().zip(other.data.iter()).map(|(a, b)| a * b).collect() }
    }
}

/// The part of `source` that `seqs` selects.
fn index(source: &Dense, seqs: &Seq3) -> Dense {
    let s = spans(seqs);
    let mut out = constant(0.0, [s[0].1 as u64, s[1].1 as u64, s[2].1 as u64, 1]);
    for k in 0..s[2].1 {
        for j in 0..s[1].1 {
            for i in 0..s[0].1 {
                let to = out.at(i, j, k);
                out.data[to] = source.data[source.at(s[0].0 + i, s[1].0 + j, s[2].0 + k)];
            }
        }
    }
    out
}

/// Writes `source` over the part of `target` that `seqs` selects.
fn assign_seq(target: &mut Dense, seqs: &Seq3, source: &Dense) {
    let s = spans(seqs);
    assert_eq!([s[0].1 as u64, s[1].1 as u64, s[2].1 as u64], [source.dims[0], source.dims[1], source.dims[2]]);
    for k in 0..s[2].1 {
        for j in 0..s[1].1 {
            for i in 0..s[0].1 {
                let to = target.at(s[0].0 + i, s[1].0 + j, s[2].0 + k);
                target.data[to] = source.data[source.at(i, j, k)];
            }
        }
    }
}

/// The bytes of an array of 64-bit numbers: the type tag, the shape, the
/// count, the numbers.
fn serialize(array: &Dense) -> Vec<u8> {
    bincode::serialize(&(2u32, array.dims, array.data.clone())).unwrap()
}

/// A numeric backend in plain Rust that carries out the steps of a plan.
struct Backend {
    buffers: HashMap<Origin, Dense>,
    drawn: u64,
}

impl Backend {
    fn new() -> Backend {
        Backend { buffers: HashMap::new(), drawn: 0 }
    }

    fn supply(&mut self, key: u64, array: Dense) {
        self.buffers.insert(Origin::Supplied(key), array);
    }

    /// A number that is never zero, different on every draw.
    fn draw(&mut self) -> f64 {
        self.drawn += 1;
        0.25 + (self.drawn % 7) as f64 / 16.0
    }

    fn make(&mut self, seed: &Seed) -> Dense {
        let dims = [seed.dims.d0, seed.dims.d1, seed.dims.d2, seed.dims.d3];
        let mut array = constant(0.0, dims);
        for at in 0..array.data.len() {
            array.data[at] = match seed.fill {
                Fill::Constant(bits) => f64::from_bits(bits),
                Fill::Normal | Fill::Uniform => self.draw(),
                Fill::ScaledNormal(bits) | Fill::ScaledUniform(bits) => self.draw() * f64::from_bits(bits),
            };
        }
        array
    }

    fn content(&self, array: &Array) -> Dense {
        match self.buffers.get(&array.origin) {
            Some(found) => {
                assert_eq!(found.dims, [array.dims.d0, array.dims.d1, array.dims.d2, array.dims.d3]);
                found.clone()
            },
            None => {
                assert_eq!(array.origin, Origin::Blank);
                constant(0.0, [array.dims.d0, array.dims.d1, array.dims.d2, array.dims.d3])
            },
        }
    }

    fn build(&mut self, array: &Array, recipe: &Recipe) {
        let mut made = self.make(&recipe.base);
        for block in recipe.blocks.iter() {
            if block.region.rows.count == 0 || block.region.columns.count == 0 {
                continue;
            }
            let piece = self.make(&block.seed);
            assign_seq(&mut made, &region_seqs(&block.region), &piece);
        }
        assert_eq!(made.dims, [array.dims.d0, array.dims.d1, array.dims.d2, array.dims.d3]);
        self.buffers.insert(array.origin, made);
    }

    fn load(&mut self, values: &Array, region: &Region, inputs: &Tensor) {
        let mut joined: Vec<f64> = Vec::new();
        for name in inputs.names() {
            let input = inputs.get(&name).unwrap();
            assert_eq!((input.dims.d0, input.dims.d2, input.dims.d3), (1, 1, 1));
            joined.extend(self.content(&input).data);
        }
        assert_eq!(joined.len() as u64, region.columns.count);
        if joined.is_empty() {
            return;
        }
        let row = Dense { dims: [1, joined.len() as u64, 1, 1], data: joined };
        let mut buffer = self.content(values);
        assign_seq(&mut buffer, &region_seqs(region), &row);
        self.buffers.insert(values.origin, buffer);
    }

    fn activate(&mut self, values: &Array, region: &Region, cell_type: CellType, activation: Activation) {
        if region.columns.count == 0 {
            return;
        }
        let mut buffer = self.content(values);
        let seqs = region_seqs(region);
        let mut slice = index(&buffer, &seqs);
        match cell_type {
            CellType::Mlp => {},
        }
        for value in slice.data.iter_mut() {
            *value = match activation {
                Activation::Sigmoid => 1.0 / (1.0 + (-*value).exp()),
                Activation::TanH => value.tanh(),
                Activation::Identity => *value,
            };
        }
        assign_seq(&mut buffer, &seqs, &slice);
        self.buffers.insert(values.origin, buffer);
    }

    fn propagate(&mut self, values: &Array, weights: &Array, biases: &Array, source: &Region, target: &Region) {
        let mut buffer = self.content(values);
        let weights = self.content(weights);
        let biases = self.content(biases);
        let active = if source.columns.count == 0 {
            constant(0.0, [1, 0, 1, 1])
        } else {
            index(&buffer, &region_seqs(source))
        };
        let (rows, own, window) = (weights.dims[0] as usize, weights.dims[1] as usize, weights.dims[2] as usize);
        assert_eq!(active.dims, [1, own as u64, 1, 1]);
        assert_eq!(biases.dims, [rows as u64, 1, window as u64, 1]);
        let mut sent = constant(0.0, [1, rows as u64, window as u64, 1]);
        for k in 0..window {
            for i in 0..rows {
                let mut sum = 0.0;
                for j in 0..own {
                    sum += weights.data[weights.at(i, j, k)] * active.data[j];
                }
                let to = sent.at(0, i, k);
                sent.data[to] = sum + biases.data[biases.at(i, 0, k)];
            }
        }
        let seqs = region_seqs(target);
        let before = index(&buffer, &seqs);
        assert_eq!(before.dims, sent.dims);
        let after = Dense { dims: before.dims, data: before.data.iter().zip(sent.data.iter()).map(|(a, b)| a + b).collect() };
        assign_seq(&mut buffer, &seqs, &after);
        self.buffers.insert(values.origin, buffer);
    }

    /// Carries out the steps in order.
    fn run(&mut self, plan: &[Step]) {
        for step in plan {
            match step {
                Step::Build { array, recipe } => self.build(array, recipe),
                Step::Load { values, region, inputs } => self.load(values, region, inputs),
                Step::Activate { values, region, cell_type, activation } => {
                    self.activate(values, region, *cell_type, *activation)
                },
                Step::Propagate { values, weights, biases, source, target } => {
                    self.propagate(values, weights, biases, source, target)
                },
            }
        }
    }
}

/// The content of the array that layer `layer` of `node` holds under `name`.
fn held(backend: &Backend, node: &Node, layer: usize, name: &str) -> Dense {
    backend.content(&node.mesh().layers()[layer].tensor.get(name).unwrap())
}

/// The content of the packed value buffer of `node`.
fn values(backend: &Backend, node: &Node) -> Dense {
    backend.content(&node.mesh().tensor().get("_SYSTEM_VALUES").unwrap())
}

/// Hands `array` to the backend and gives the library's account of it.
fn given(backend: &mut Backend, array: Dense) -> Array {
    let key = backend.buffers.len() as u64;
    let dims = Dims::new(&array.dims);
    backend.supply(key, array);
    Array::supplied(key, dims)
}

#[test]
fn create_weights_0_1(){
    let mut backend = Backend::new();
    let attribute = Attribute::new(
        Activation::Identity,
        CellType::Mlp,
        vec![("_SYSTEM_WEIGHTS", TensorDescriptor::RandN), ("_SYSTEM_BIASES", TensorDescriptor::Const(1.0f64.to_bits()))],
        Scope::new(0,1));

    let mut network = Network::new(Node::new(
        Uuid::new_v4().as_u128(),
        NodeType::Leaf(
            attribute.clone(),
            vec![
                (attribute.clone(), 3),
                (attribute.clone(), 4),
                (attribute.clone(), 5),
                (attribute.clone(), 3)
            ]
        )));

    let tensor = Tensor::new(&[("input", Array::new_empty(Dims::new(&[1,2,1,1])))]);
    let plan = network.traverse(&tensor, true).unwrap();
    backend.run(&plan);

    let w_dims = dim4(5,5,2,5);
    let test_weights_cutouts: Dense = constant(1.0, w_dims);

    let mut w_test_0: Dense = constant(0.0, dim4(3,2,2,1));
    let seq_0_1 = [seq(0,2,1),seq(0,1,1),seq(1,1,1)];
    assign_seq(&mut w_test_0, &seq_0_1, &index(&test_weights_cutouts, &seq_0_1));
    let expected = w_test_0.mul(&held(&backend, network.node(), 0, "_SYSTEM_WEIGHTS"));
    assert_eq!(&serialize(&expected),
               &serialize(&held(&backend, network.node(), 0, "_SYSTEM_WEIGHTS")));

    let mut w_test_1: Dense = constant(0.0, dim4(4,3,2,1));
    let seq_1_1 = [seq(0,3,1),seq(0,2,1),seq(1,1,1)];
    assign_seq(&mut w_test_1, &seq_1_1, &index(&test_weights_cutouts,&seq_1_1));
    let expected = w_test_1.mul(&held(&backend, network.node(), 1, "_SYSTEM_WEIGHTS"));
    assert_eq!(&serialize(&expected),
               &serialize(&held(&backend, network.node(), 1, "_SYSTEM_WEIGHTS")));

    let mut w_test_2: Dense = constant(0.0, dim4(5,4,2,1));
    let seq_2_1 = [seq(0,4,1),seq(0,3,1),seq(1,1,1)];
    assign_seq(&mut w_test_2, &seq_2_1, &index(&test_weights_cutouts,&seq_2_1));
    let expected = w_test_2.mul(&held(&backend, network.node(), 2, "_SYSTEM_WEIGHTS"));
    assert_eq!(&serialize(&expected),
               &serialize(&held(&backend, network.node(), 2, "_SYSTEM_WEIGHTS")));

    let mut w_test_3: Dense = constant(0.0, dim4(3,5,2,1));
    let seq_3_1 = [seq(0,2,1),seq(0,4,1),seq(1,1,1)];
    assign_seq(&mut w_test_3, &seq_3_1, &index(&test_weights_cutouts,&seq_3_1));
    let expected = w_test_3.mul(&held(&backend, network.node(), 3, "_SYSTEM_WEIGHTS"));
    assert_eq!(&serialize(&expected),
               &serialize(&held(&backend, network.node(), 3, "_SYSTEM_WEIGHTS")));
}

#[test]
fn create_weights_0_2(){
    let mut backend = Backend::new();
    let attribute = Attribute::new(
        Activation::Identity,
        CellType::Mlp,
        vec![("_SYSTEM_WEIGHTS", TensorDescriptor::RandN), ("_SYSTEM_BIASES", TensorDescriptor::Const(1.0f64.to_bits()))],
        Scope::new(0,2));

    let mut network = Network::new(Node::new(
        Uuid::new_v4().as_u128(),
        NodeType::Leaf(
            attribute.clone(),
            vec![
                (attribute.clone(), 3),
                (attribute.clone(), 4),
                (attribute.clone(), 5),
                (attribute.clone(), 3)
            ]
        )));

    let tensor = Tensor::new(&[("input", Array::new_empty(Dims::new(&[1,2,1,1])))]);
    let plan = network.traverse(&tensor, true).unwrap();
    backend.run(&plan);
    let w_dims = dim4(5,5,3,5);
    let test_weights_cutouts: Dense = constant(1.0, w_dims);

    let mut w_test_0: Dense = constant(0.0, dim4(4,2,3,1));
    let seq_0_1 = [seq(0,2,1),seq(0,1,1),seq(1,1,1)];
    assign_seq(&mut w_test_0, &seq_0_1, &index(&test_weights_cutouts, &seq_0_1));
    let seq_0_2 = [seq(0,3,1),seq(0,1,1),seq(2,2,1)];
    assign_seq(&mut w_test_0, &seq_0_2, &index(&test_weights_cutouts, &seq_0_2));
    let expected = w_test_0.mul(&held(&backend, network.node(), 0, "_SYSTEM_WEIGHTS"));
    assert_eq!(&serialize(&expected),
               &serialize(&held(&backend, network.node(), 0, "_SYSTEM_WEIGHTS")));

    let mut w_test_1: Dense = constant(0.0, dim4(5,3,3,1));
    let seq_1_1 = [seq(0,3,1),seq(0,2,1),seq(1,1,1)];
    assign_seq(&mut w_test_1, &seq_1_1, &index(&test_weights_cutouts,&seq_1_1));
    let seq_1_2 = [seq(0,4,1),seq(0,2,1),seq(2,2,1)];
    assign_seq(&mut w_test_1, &seq_1_2, &index(&test_weights_cutouts,&seq_1_2));
    let expected = w_test_1.mul(&held(&backend, network.node(), 1, "_SYSTEM_WEIGHTS"));
    assert_eq!(&serialize(&expected),
               &serialize(&held(&backend, network.node(), 1, "_SYSTEM_WEIGHTS")));

    let mut w_test_2: Dense = constant(0.0, dim4(5,4,3,1));
    let seq_2_1 = [seq(0,4,1),seq(0,3,1),seq(1,1,1)];
    assign_seq(&mut w_test_2, &seq_2_1, &index(&test_weights_cutouts,&seq_2_1));
    let seq_2_1 = [seq(0,2,1),seq(0,3,1),seq(2,2,1)];
    assign_seq(&mut w_test_2, &seq_2_1, &index(&test_weights_cutouts,&seq_2_1));
    let expected = w_test_2.mul(&held(&backend, network.node(), 2, "_SYSTEM_WEIGHTS"));
    assert_eq!(&serialize(&expected),
               &serialize(&held(&backend, network.node(), 2, "_SYSTEM_WEIGHTS")));

    let mut w_test_3: Dense = constant(0.0, dim4(3,5,2,1));
    let seq_3_1 = [seq(0,2,1),seq(0,4,1),seq(1,1,1)];
    assign_seq(&mut w_test_3, &seq_3_1, &index(&test_weights_cutouts,&seq_3_1));
    let expected = w_test_3.mul(&held(&backend, network.node(), 3, "_SYSTEM_WEIGHTS"));
    assert_eq!(&serialize(&expected),
               &serialize(&held(&backend, network.node(), 3, "_SYSTEM_WEIGHTS")));
}

#[test]
fn create_weights_0_3(){
    let mut backend = Backend::new();
    let attribute = Attribute::new(
        Activation::Identity,
        CellType::Mlp,
        vec![("_SYSTEM_WEIGHTS", TensorDescriptor::RandN), ("_SYSTEM_BIASES", TensorDescriptor::Const(1.0f64.to_bits()))],
        Scope::new(0,3));

    let mut network = Network::new(Node::new(
        Uuid::new_v4().as_u128(),
        NodeType::Leaf(
            attribute.clone(),
            vec![
                (attribute.clone(), 3),
                (attribute.clone(), 4),
                (attribute.clone(), 5),
                (attribute.clone(), 3)
            ]
        )));

    let tensor = Tensor::new(&[("input", Array::new_empty(Dims::new(&[1,2,1,1])))]);
    let plan = network.traverse(&tensor, true).unwrap();
    backend.run(&plan);
    let w_dims = dim4(5,5,4,5);
    let test_weights_cutouts: Dense = constant(1.0, w_dims);

    let mut w_test_0: Dense = constant(0.0, dim4(5,2,4,1));
    let seq_0_1 = [seq(0,2,1),seq(0,1,1),seq(1,1,1)];
    assign_seq(&mut w_test_0, &seq_0_1, &index(&test_weights_cutouts, &seq_0_1));
    let seq_0_2 = [seq(0,3,1),seq(0,1,1),seq(2,2,1)];
    assign_seq(&mut w_test_0, &seq_0_2, &index(&test_weights_cutouts, &seq_0_2));
    let seq_0_3 = [seq(0,4,1),seq(0,1,1),seq(3,3,1)];
    assign_seq(&mut w_test_0, &seq_0_3, &index(&test_weights_cutouts, &seq_0_3));
    let expected = w_test_0.mul(&held(&backend, network.node(), 0, "_SYSTEM_WEIGHTS"));
    assert_eq!(&serialize(&expected),
               &serialize(&held(&backend, network.node(), 0, "_SYSTEM_WEIGHTS")));

    let mut w_test_1: Dense = constant(0.0, dim4(5,3,4,1));
    let seq_1_1 = [seq(0,3,1),seq(0,2,1),seq(1,1,1)];
    assign_seq(&mut w_test_1, &seq_1_1, &index(&test_weights_cutouts,&seq_1_1));
    let seq_1_2 = [seq(0,4,1),seq(0,2,1),seq(2,2,1)];
    assign_seq(&mut w_test_1, &seq_1_2, &index(&test_weights_cutouts,&seq_1_2));
    let seq_1_3 = [seq(0,2,1),seq(0,2,1),seq(3,3,1)];
    assign_seq(&mut w_test_1, &seq_1_3, &index(&test_weights_cutouts,&seq_1_3));
    let expected = w_test_1.mul(&held(&backend, network.node(), 1, "_SYSTEM_WEIGHTS"));
    assert_eq!(&serialize(&expected),
               &serialize(&held(&backend, network.node(), 1, "_SYSTEM_WEIGHTS")));

    let mut w_test_2: Dense = constant(0.0, dim4(5,4,3,1));
    let seq_2_1 = [seq(0,4,1),seq(0,3,1),seq(1,1,1)];
    assign_seq(&mut w_test_2, &seq_2_1, &index(&test_weights_cutouts,&seq_2_1));
    let seq_2_1 = [seq(0,2,1),seq(0,3,1),seq(2,2,1)];
    assign_seq(&mut w_test_2, &seq_2_1, &index(&test_weights_cutouts,&seq_2_1));
    let expected = w_test_2.mul(&held(&backend, network.node(), 2, "_SYSTEM_WEIGHTS"));
    assert_eq!(&serialize(&expected),
               &serialize(&held(&backend, network.node(), 2, "_SYSTEM_WEIGHTS")));

    let mut w_test_3: Dense = constant(0.0, dim4(3,5,2,1));
    let seq_3_1 = [seq(0,2,1),seq(0,4,1),seq(1,1,1)];
    assign_seq(&mut w_test_3, &seq_3_1, &index(&test_weights_cutouts,&seq_3_1));
    let expected = w_test_3.mul(&held(&backend, network.node(), 3, "_SYSTEM_WEIGHTS"));
    assert_eq!(&serialize(&expected),
               &serialize(&held(&backend, network.node(), 3, "_SYSTEM_WEIGHTS")));
}

#[test]
fn create_weights_1_1(){
    let mut backend = Backend::new();
    let attribute = Attribute::new(
        Activation::Identity,
        CellType::Mlp,
        vec![("_SYSTEM_WEIGHTS", TensorDescriptor::RandN), ("_SYSTEM_BIASES", TensorDescriptor::Const(1.0f64.to_bits()))],
        Scope::new(1,1));

    let mut network = Network::new(Node::new(
        Uuid::new_v4().as_u128(),
        NodeType::Leaf(
            attribute.clone(),
            vec![
                (attribute.clone(), 3),
                (attribute.clone(), 4),
                (attribute.clone(), 5),
                (attribute.clone(), 3)
            ]
        )));

    let tensor = Tensor::new(&[("input", Array::new_empty(Dims::new(&[1,2,1,1])))]);
    let plan = network.traverse(&tensor, true).unwrap();
    backend.run(&plan);
    let w_dims = dim4(5,5,3,5);
    let test_weights_cutouts: Dense = constant(1.0, w_dims);

    let mut w_test_0: Dense = constant(0.0, dim4(3,2,2,1));
    let seq_0_2 = [seq(0,2,1),seq(0,1,1),seq(1,1,1)];
    assign_seq(&mut w_test_0, &seq_0_2, &index(&test_weights_cutouts, &seq_0_2));
    let expected = w_test_0.mul(&held(&backend, network.node(), 0, "_SYSTEM_WEIGHTS"));
    assert_eq!(&serialize(&expected),
               &serialize(&held(&backend, network.node(), 0, "_SYSTEM_WEIGHTS")));

    let mut w_test_1: Dense = constant(0.0, dim4(4,3,3,1));
    let seq_1_0 = [seq(0,1,1),seq(0,2,1),seq(0,0,1)];
    assign_seq(&mut w_test_1, &seq_1_0, &index(&test_weights_cutouts,&seq_1_0));
    let seq_1_2 = [seq(0,3,1),seq(0,2,1),seq(2,2,1)];
    assign_seq(&mut w_test_1, &seq_1_2, &index(&test_weights_cutouts,&seq_1_2));
    let expected = w_test_1.mul(&held(&backend, network.node(), 1, "_SYSTEM_WEIGHTS"));
    assert_eq!(&serialize(&expected),
               &serialize(&held(&backend, network.node(), 1, "_SYSTEM_WEIGHTS")));

    let mut w_test_2: Dense = constant(0.0, dim4(5,4,3,1));
    let seq_2_0 = [seq(0,2,1),seq(0,3,1),seq(0,0,1)];
    assign_seq(&mut w_test_2, &seq_2_0, &index(&test_weights_cutouts,&seq_2_0));
    let seq_2_2 = [seq(0,4,1),seq(0,3,1),seq(2,2,1)];
    assign_seq(&mut w_test_2, &seq_2_2, &index(&test_weights_cutouts,&seq_2_2));
    let expected = w_test_2.mul(&held(&backend, network.node(), 2, "_SYSTEM_WEIGHTS"));
    assert_eq!(&serialize(&expected),
               &serialize(&held(&backend, network.node(), 2, "_SYSTEM_WEIGHTS")));

    let mut w_test_3: Dense = constant(0.0, dim4(4,5,3,1));
    let seq_3_0 = [seq(0,3,1),seq(0,4,1),seq(0,0,1)];
    assign_seq(&mut w_test_3, &seq_3_0, &index(&test_weights_cutouts,&seq_3_0));
    let seq_3_2 = [seq(0,2,1),seq(0,4,1),seq(2,2,1)];
    assign_seq(&mut w_test_3, &seq_3_2, &index(&test_weights_cutouts,&seq_3_2));
    let expected = w_test_3.mul(&held(&backend, network.node(), 3, "_SYSTEM_WEIGHTS"));
    assert_eq!(&serialize(&expected),
               &serialize(&held(&backend, network.node(), 3, "_SYSTEM_WEIGHTS")));

    let mut w_test_4: Dense = constant(0.0, dim4(5,3,2,1));
    let seq_4_0 = [seq(0,4,1),seq(0,2,1),seq(0,0,1)];
    assign_seq(&mut w_test_4, &seq_4_0, &index(&test_weights_cutouts,&seq_4_0));
    let expected = w_test_4.mul(&held(&backend, network.node(), 4, "_SYSTEM_WEIGHTS"));
    assert_eq!(&serialize(&expected),
               &serialize(&held(&backend, network.node(), 4, "_SYSTEM_WEIGHTS")));
}

#[test]
fn create_weights_2_2(){
    let mut backend = Backend::new();
    let attribute = Attribute::new(
        Activation::Identity,
        CellType::Mlp,
        vec![("_SYSTEM_WEIGHTS", TensorDescriptor::RandN), ("_SYSTEM_BIASES", TensorDescriptor::Const(1.0f64.to_bits()))],
        Scope::new(2,2));

    let mut network = Network::new(Node::new(
        Uuid::new_v4().as_u128(),
        NodeType::Leaf(
            attribute.clone(),
            vec![
                (attribute.clone(), 3),
                (attribute.clone(), 4),
                (attribute.clone(), 5),
                (attribute.clone(), 3)
            ]
        )));

    let tensor = Tensor::new(&[("input", Array::new_empty(Dims::new(&[1,2,1,1])))]);
    let plan = network.traverse(&tensor, true).unwrap();
    backend.run(&plan);
    let w_dims = dim4(5,5,5,5);
    let test_weights_cutouts: Dense = constant(1.0, w_dims);

    let mut w_test_0: Dense = constant(0.0, dim4(4,2,3,1));
    let seq_0_3 = [seq(0,2,1),seq(0,1,1),seq(1,1,1)];
    assign_seq(&mut w_test_0, &seq_0_3, &index(&test_weights_cutouts, &seq_0_3));
    let seq_0_4 = [seq(0,3,1),seq(0,1,1),seq(2,2,1)];
    assign_seq(&mut w_test_0, &seq_0_4, &index(&test_weights_cutouts, &seq_0_4));
    let expected = w_test_0.mul(&held(&backend, network.node(), 0, "_SYSTEM_WEIGHTS"));
    assert_eq!(&serialize(&expected),
               &serialize(&held(&backend, network.node(), 0, "_SYSTEM_WEIGHTS")));

    let mut w_test_1: Dense = constant(0.0, dim4(5,3,4,1));
    let seq_1_1 = [seq(0,1,1),seq(0,2,1),seq(0,0,1)];
    assign_seq(&mut w_test_1, &seq_1_1, &index(&test_weights_cutouts,&seq_1_1));
    let seq_1_3 = [seq(0,3,1),seq(0,2,1),seq(2,2,1)];
    assign_seq(&mut w_test_1, &seq_1_3, &index(&test_weights_cutouts,&seq_1_3));
    let seq_1_4 = [seq(0,4,1),seq(0,2,1),seq(3,3,1)];
    assign_seq(&mut w_test_1, &seq_1_4, &index(&test_weights_cutouts,&seq_1_4));
    let expected = w_test_1.mul(&held(&backend, network.node(), 1, "_SYSTEM_WEIGHTS"));
    assert_eq!(&serialize(&expected),
               &serialize(&held(&backend, network.node(), 1, "_SYSTEM_WEIGHTS")));

    let mut w_test_2: Dense = constant(0.0, dim4(5,4,5,1));
    let seq_2_0 = [seq(0,1,1),seq(0,3,1),seq(0,0,1)];
    assign_seq(&mut w_test_2, &seq_2_0, &index(&test_weights_cutouts,&seq_2_0));
    let seq_2_1 = [seq(0,2,1),seq(0,3,1),seq(1,1,1)];
    assign_seq(&mut w_test_2, &seq_2_1, &index(&test_weights_cutouts,&seq_2_1));
    let seq_2_3 = [seq(0,4,1),seq(0,3,1),seq(3,3,1)];
    assign_seq(&mut w_test_2, &seq_2_3, &index(&test_weights_cutouts,&seq_2_3));
    let seq_2_4 = [seq(0,2,1),seq(0,3,1),seq(4,4,1)];
    assign_seq(&mut w_test_2, &seq_2_4, &index(&test_weights_cutouts,&seq_2_4));
    let expected = w_test_2.mul(&held(&backend, network.node(), 2, "_SYSTEM_WEIGHTS"));
    assert_eq!(&serialize(&expected),
               &serialize(&held(&backend, network.node(), 2, "_SYSTEM_WEIGHTS")));

    let mut w_test_3: Dense = constant(0.0, dim4(4,5,4,1));
    let seq_3_0 = [seq(0,2,1),seq(0,4,1),seq(0,0,1)];
    assign_seq(&mut w_test_3, &seq_3_0, &index(&test_weights_cutouts,&seq_3_0));
    let seq_3_1 = [seq(0,3,1),seq(0,4,1),seq(1,1,1)];
    assign_seq(&mut w_test_3, &seq_3_1, &index(&test_weights_cutouts,&seq_3_1));
    let seq_3_3 = [seq(0,2,1),seq(0,4,1),seq(3,3,1)];
    assign_seq(&mut w_test_3, &seq_3_3, &index(&test_weights_cutouts,&seq_3_3));
    let expected = w_test_3.mul(&held(&backend, network.node(), 3, "_SYSTEM_WEIGHTS"));
    assert_eq!(&serialize(&expected),
               &serialize(&held(&backend, network.node(), 3, "_SYSTEM_WEIGHTS")));

    let mut w_test_4: Dense = constant(0.0, dim4(5,3,3,1));
    let seq_4_0 = [seq(0,3,1),seq(0,2,1),seq(0,0,1)];
    assign_seq(&mut w_test_4, &seq_4_0, &index(&test_weights_cutouts,&seq_4_0));
    let seq_4_1 = [seq(0,4,1),seq(0,2,1),seq(1,1,1)];
    assign_seq(&mut w_test_4, &seq_4_1, &index(&test_weights_cutouts,&seq_4_1));
    let expected = w_test_4.mul(&held(&backend, network.node(), 4, "_SYSTEM_WEIGHTS"));
    assert_eq!(&serialize(&expected),
               &serialize(&held(&backend, network.node(), 4, "_SYSTEM_WEIGHTS")));
}

#[test]
fn create_weights_3_3(){
    let mut backend = Backend::new();
    let attribute = Attribute::new(
        Activation::Identity,
        CellType::Mlp,
        vec![("_SYSTEM_WEIGHTS", TensorDescriptor::RandN), ("_SYSTEM_BIASES", TensorDescriptor::Const(1.0f64.to_bits()))],
        Scope::new(3,3));

    let mut network = Network::new(Node::new(
        Uuid::new_v4().as_u128(),
        NodeType::Leaf(
            attribute.clone(),
            vec![
                (attribute.clone(), 3),
                (attribute.clone(), 4),
                (attribute.clone(), 5),
                (attribute.clone(), 3)
            ]
        )));

    let tensor = Tensor::new(&[("input", Array::new_empty(Dims::new(&[1,2,1,1])))]);
    let plan = network.traverse(&tensor, true).unwrap();
    backend.run(&plan);
    let w_dims = dim4(5,5,7,5);
    let test_weights_cutouts: Dense = constant(1.0, w_dims);

    let mut w_test_0: Dense = constant(0.0, dim4(5,2,4,1));
    let seq_0_4 = [seq(0,2,1),seq(0,1,1),seq(1,1,1)];
    assign_seq(&mut w_test_0, &seq_0_4, &index(&test_weights_cutouts, &seq_0_4));
    let seq_0_5 = [seq(0,3,1),seq(0,1,1),seq(2,2,1)];
    assign_seq(&mut w_test_0, &seq_0_5, &index(&test_weights_cutouts, &seq_0_5));
    let seq_0_6 = [seq(0,4,1),seq(0,1,1),seq(3,3,1)];
    assign_seq(&mut w_test_0, &seq_0_6, &index(&test_weights_cutouts, &seq_0_6));
    let expected = w_test_0.mul(&held(&backend, network.node(), 0, "_SYSTEM_WEIGHTS"));
    assert_eq!(&serialize(&expected),
               &serialize(&held(&backend, network.node(), 0, "_SYSTEM_WEIGHTS")));

    let mut w_test_1: Dense = constant(0.0, dim4(5,3,5,1));
    let seq_1_2 = [seq(0,1,1),seq(0,2,1),seq(0,0,1)];
    assign_seq(&mut w_test_1, &seq_1_2, &index(&test_weights_cutouts,&seq_1_2));
    let seq_1_4 = [seq(0,3,1),seq(0,2,1),seq(2,2,1)];
    assign_seq(&mut w_test_1, &seq_1_4, &index(&test_weights_cutouts,&seq_1_4));
    let seq_1_5 = [seq(0,4,1),seq(0,2,1),seq(3,3,1)];
    assign_seq(&mut w_test_1, &seq_1_5, &index(&test_weights_cutouts,&seq_1_5));
    let seq_1_6 = [seq(0,2,1),seq(0,2,1),seq(4,4,1)];
    assign_seq(&mut w_test_1, &seq_1_6, &index(&test_weights_cutouts,&seq_1_6));
    let expected = w_test_1.mul(&held(&backend, network.node(), 1, "_SYSTEM_WEIGHTS"));
    assert_eq!(&serialize(&expected),
               &serialize(&held(&backend, network.node(), 1, "_SYSTEM_WEIGHTS")));

    let mut w_test_2: Dense = constant(0.0, dim4(5,4,5,1));
    let seq_2_1 = [seq(0,1,1),seq(0,3,1),seq(0,0,1)];
    assign_seq(&mut w_test_2, &seq_2_1, &index(&test_weights_cutouts,&seq_2_1));
    let seq_2_2 = [seq(0,2,1),seq(0,3,1),seq(1,1,1)];
    assign_seq(&mut w_test_2, &seq_2_2, &index(&test_weights_cutouts,&seq_2_2));
    let seq_2_4 = [seq(0,4,1),seq(0,3,1),seq(3,3,1)];
    assign_seq(&mut w_test_2, &seq_2_4, &index(&test_weights_cutouts,&seq_2_4));
    let seq_2_5 = [seq(0,2,1),seq(0,3,1),seq(4,4,1)];
    assign_seq(&mut w_test_2, &seq_2_5, &index(&test_weights_cutouts,&seq_2_5));
    let expected = w_test_2.mul(&held(&backend, network.node(), 2, "_SYSTEM_WEIGHTS"));
    assert_eq!(&serialize(&expected),
               &serialize(&held(&backend, network.node(), 2, "_SYSTEM_WEIGHTS")));

    let mut w_test_3: Dense = constant(0.0, dim4(4,5,5,1));
    let seq_3_0 = [seq(0,1,1),seq(0,4,1),seq(0,0,1)];
    assign_seq(&mut w_test_3, &seq_3_0, &index(&test_weights_cutouts,&seq_3_0));
    let seq_3_1 = [seq(0,2,1),seq(0,4,1),seq(1,1,1)];
    assign_seq(&mut w_test_3, &seq_3_1, &index(&test_weights_cutouts,&seq_3_1));
    let seq_3_2 = [seq(0,3,1),seq(0,4,1),seq(2,2,1)];
    assign_seq(&mut w_test_3, &seq_3_2, &index(&test_weights_cutouts,&seq_3_2));
    let seq_3_4 = [seq(0,2,1),seq(0,4,1),seq(4,4,1)];
    assign_seq(&mut w_test_3, &seq_3_4, &index(&test_weights_cutouts,&seq_3_4));
    let expected = w_test_3.mul(&held(&backend, network.node(), 3, "_SYSTEM_WEIGHTS"));
    assert_eq!(&serialize(&expected),
               &serialize(&held(&backend, network.node(), 3, "_SYSTEM_WEIGHTS")));

    let mut w_test_4: Dense = constant(0.0, dim4(5,3,4,1));
    let seq_4_0 = [seq(0,2,1),seq(0,2,1),seq(0,0,1)];
    assign_seq(&mut w_test_4, &seq_4_0, &index(&test_weights_cutouts,&seq_4_0));
    let seq_4_1 = [seq(0,3,1),seq(0,2,1),seq(1,1,1)];
    assign_seq(&mut w_test_4, &seq_4_1, &index(&test_weights_cutouts,&seq_4_1));
    let seq_4_2 = [seq(0,4,1),seq(0,2,1),seq(2,2,1)];
    assign_seq(&mut w_test_4, &seq_4_2, &index(&test_weights_cutouts,&seq_4_2));
    let expected = w_test_4.mul(&held(&backend, network.node(), 4, "_SYSTEM_WEIGHTS"));
    assert_eq!(&serialize(&expected),
               &serialize(&held(&backend, network.node(), 4, "_SYSTEM_WEIGHTS")));
}

#[test]
fn create_biases_0_1(){
    let mut backend = Backend::new();
    let attribute = Attribute::new(
        Activation::Identity,
        CellType::Mlp,
        vec![("_SYSTEM_WEIGHTS", TensorDescriptor::RandN), ("_SYSTEM_BIASES", TensorDescriptor::Const(1.0f64.to_bits()))],
        Scope::new(0,1));

    let mut network = Network::new(Node::new(
        Uuid::new_v4().as_u128(),
        NodeType::Leaf(
            attribute.clone(),
            vec![
                (attribute.clone(), 3),
                (attribute.clone(), 4),
                (attribute.clone(), 3),
                (attribute.clone(), 2),
                (attribute.clone(), 1)
            ]
        )));

    let tensor = Tensor::new(&[("input", Array::new_empty(Dims::new(&[1,2,1,1])))]);
    let plan = network.traverse(&tensor, true).unwrap();
    backend.run(&plan);
    let test_biases_cutouts: Dense = constant(1.0, dim4(4,4,4,1));

    let mut b_test_0: Dense = constant(0.0, held(&backend, network.node(), 0, "_SYSTEM_BIASES").dims);
    let seq_0_1 = [seq(0,2,1),seq(0,0,1),seq(1,1,1)];
    assign_seq(&mut b_test_0, &seq_0_1, &index(&test_biases_cutouts, &seq_0_1));

    assert_eq!(&serialize(&b_test_0),
               &serialize(&held(&backend, network.node(), 0, "_SYSTEM_BIASES")));

    let mut b_test_1: Dense = constant(0.0, held(&backend, network.node(), 1, "_SYSTEM_BIASES").dims);
    let seq_1_1 = [seq(0,3,1),seq(0,0,1),seq(1,1,1)];
    assign_seq(&mut b_test_1, &seq_1_1, &index(&test_biases_cutouts, &seq_1_1));
    assert_eq!(&serialize(&b_test_1),
               &serialize(&held(&backend, network.node(), 1, "_SYSTEM_BIASES")));

    let mut b_test_2: Dense = constant(0.0, held(&backend, network.node(), 2, "_SYSTEM_BIASES").dims);
    let seq_2_1 = [seq(0,2,1),seq(0,0,1),seq(1,1,1)];
    assign_seq(&mut b_test_2, &seq_2_1, &index(&test_biases_cutouts, &seq_2_1));
    assert_eq!(&serialize(&b_test_2),
               &serialize(&held(&backend, network.node(), 2, "_SYSTEM_BIASES")));

    let mut b_test_3: Dense = constant(0.0, held(&backend, network.node(), 3, "_SYSTEM_BIASES").dims);
    let seq_3_1 = [seq(0,1,1),seq(0,0,1),seq(1,1,1)];
    assign_seq(&mut b_test_3, &seq_3_1, &index(&test_biases_cutouts, &seq_3_1));
    assert_eq!(&serialize(&b_test_3),
               &serialize(&held(&backend, network.node(), 3, "_SYSTEM_BIASES")));

    let mut b_test_4: Dense = constant(0.0, held(&backend, network.node(), 4, "_SYSTEM_BIASES").dims);
    let seq_4_1 = [seq(0,0,1),seq(0,0,1),seq(1,1,1)];
    assign_seq(&mut b_test_4, &seq_4_1, &index(&test_biases_cutouts, &seq_4_1));
    assert_eq!(&serialize(&b_test_4),
               &serialize(&held(&backend, network.node(), 4, "_SYSTEM_BIASES")));
}

#[test]
fn create_biases_0_2(){
    let mut backend = Backend::new();
    let attribute = Attribute::new(
        Activation::Identity,
        CellType::Mlp,
        vec![("_SYSTEM_WEIGHTS", TensorDescriptor::RandN), ("_SYSTEM_BIASES", TensorDescriptor::Const(1.0f64.to_bits()))],
        Scope::new(0,2));

    let mut network = Network::new(Node::new(
        Uuid::new_v4().as_u128(),
        NodeType::Leaf(
            attribute.clone(),
            vec![
                (attribute.clone(), 3),
                (attribute.clone(), 4),
                (attribute.clone(), 3),
                (attribute.clone(), 2),
                (attribute.clone(), 1)
            ]
        )));


    let tensor = Tensor::new(&[("input", Array::new_empty(Dims::new(&[1,2,1,1])))]);
    let plan = network.traverse(&tensor, true).unwrap();
    backend.run(&plan);
    let test_biases_cutouts: Dense = constant(1.0, dim4(4,4,4,1));

    let z_seq_0 = seq(1,1,1);
    let z_seq_1 = seq(2,2,1);

    let mut b_test_0: Dense = constant(0.0, held(&backend, network.node(), 0, "_SYSTEM_BIASES").dims);
    let seq_0_1 = [seq(0,2,1),seq(0,0,1),z_seq_0];
    assign_seq(&mut b_test_0, &seq_0_1, &index(&test_biases_cutouts, &seq_0_1));
    let seq_0_2 = [seq(0,3,1),seq(0,0,1),z_seq_1];
    assign_seq(&mut b_test_0, &seq_0_2, &index(&test_biases_cutouts, &seq_0_2));
    assert_eq!(&serialize(&b_test_0),
               &serialize(&held(&backend, network.node(), 0, "_SYSTEM_BIASES")));

    let mut b_test_1: Dense = constant(0.0, held(&backend, network.node(), 1, "_SYSTEM_BIASES").dims);
    let seq_1_1 = [seq(0,3,1),seq(0,0,1),z_seq_0];
    assign_seq(&mut b_test_1, &seq_1_1, &index(&test_biases_cutouts, &seq_1_1));
    let seq_1_2 = [seq(0,2,1),seq(0,0,1),z_seq_1];
    assign_seq(&mut b_test_1, &seq_1_2, &index(&test_biases_cutouts, &seq_1_2));
    assert_eq!(&serialize(&b_test_1),
               &serialize(&held(&backend, network.node(), 1, "_SYSTEM_BIASES")));

    let mut b_test_2: Dense = constant(0.0, held(&backend, network.node(), 2, "_SYSTEM_BIASES").dims);
    let seq_2_1 = [seq(0,2,1),seq(0,0,1),z_seq_0];
    assign_seq(&mut b_test_2, &seq_2_1, &index(&test_biases_cutouts, &seq_2_1));
    let seq_2_2 = [seq(0,1,1),seq(0,0,1),z_seq_1];
    assign_seq(&mut b_test_2, &seq_2_2, &index(&test_biases_cutouts, &seq_2_2));
    assert_eq!(&serialize(&b_test_2),
               &serialize(&held(&backend, network.node(), 2, "_SYSTEM_BIASES")));

    let mut b_test_3: Dense = constant(0.0, held(&backend, network.node(), 3, "_SYSTEM_BIASES").dims);
    let seq_3_1 = [seq(0,1,1),seq(0,0,1),z_seq_0];
    assign_seq(&mut b_test_3, &seq_3_1, &index(&test_biases_cutouts, &seq_3_1));
    let seq_3_2 = [seq(0,0,1),seq(0,0,1),z_seq_1];
    assign_seq(&mut b_test_3, &seq_3_2, &index(&test_biases_cutouts, &seq_3_2));
    assert_eq!(&serialize(&b_test_3),
               &serialize(&held(&backend, network.node(), 3, "_SYSTEM_BIASES")));

    let mut b_test_4: Dense = constant(0.0, held(&backend, network.node(), 4, "_SYSTEM_BIASES").dims);
    let seq_4_1 = [seq(0,0,1),seq(0,0,1),z_seq_0];
    assign_seq(&mut b_test_4, &seq_4_1, &index(&test_biases_cutouts, &seq_4_1));
    assert_eq!(&serialize(&b_test_4),
               &serialize(&held(&backend, network.node(), 4, "_SYSTEM_BIASES")));
}

#[test]
fn create_biases_1_1(){
    let mut backend = Backend::new();
    let attribute = Attribute::new(
        Activation::Identity,
        CellType::Mlp,
        vec![("_SYSTEM_WEIGHTS", TensorDescriptor::RandN), ("_SYSTEM_BIASES", TensorDescriptor::Const(1.0f64.to_bits()))],
        Scope::new(1,1));

    let mut network = Network::new(Node::new(
        Uuid::new_v4().as_u128(),
        NodeType::Leaf(
            attribute.clone(),
            vec![
                (attribute.clone(), 3),
                (attribute.clone(), 4),
                (attribute.clone(), 3),
                (attribute.clone(), 2),
                (attribute.clone(), 1)
            ]
        )));

    let tensor = Tensor::new(&[("input", Array::new_empty(Dims::new(&[1,2,1,1])))]);
    let plan = network.traverse(&tensor, true).unwrap();
    backend.run(&plan);
    let test_biases_cutouts: Dense = constant(1.0, dim4(4,4,4,1));

    let z_seq_0 = seq(0,0,1);
    let z_seq_1 = seq(2,2,1);

    let mut b_test_0: Dense = constant(0.0, held(&backend, network.node(), 0, "_SYSTEM_BIASES").dims);
    let seq_0_2 = [seq(0,2,1),seq(0,0,1),seq(1,1,1)];
    assign_seq(&mut b_test_0, &seq_0_2, &index(&test_biases_cutouts, &seq_0_2));
    assert_eq!(&serialize(&b_test_0),
               &serialize(&held(&backend, network.node(), 0, "_SYSTEM_BIASES")));

    let mut b_test_1: Dense = constant(0.0, held(&backend, network.node(), 1, "_SYSTEM_BIASES").dims);
    let seq_1_0 = [seq(0,1,1),seq(0,0,1),z_seq_0];
    assign_seq(&mut b_test_1, &seq_1_0, &index(&test_biases_cutouts, &seq_1_0));
    let seq_1_2 = [seq(0,3,1),seq(0,0,1),z_seq_1];
    assign_seq(&mut b_test_1, &seq_1_2, &index(&test_biases_cutouts, &seq_1_2));
    assert_eq!(&serialize(&b_test_1),
               &serialize(&held(&backend, network.node(), 1, "_SYSTEM_BIASES")));

    let mut b_test_2: Dense = constant(0.0, held(&backend, network.node(), 2, "_SYSTEM_BIASES").dims);
    let seq_2_0 = [seq(0,2,1),seq(0,0,1),z_seq_0];
    assign_seq(&mut b_test_2, &seq_2_0, &index(&test_biases_cutouts, &seq_2_0));
    let seq_2_2 = [seq(0,2,1),seq(0,0,1),z_seq_1];
    assign_seq(&mut b_test_2, &seq_2_2, &index(&test_biases_cutouts, &seq_2_2));
    assert_eq!(&serialize(&b_test_2),
               &serialize(&held(&backend, network.node(), 2, "_SYSTEM_BIASES")));

    let mut b_test_3: Dense = constant(0.0, held(&backend, network.node(), 3, "_SYSTEM_BIASES").dims);
    let seq_3_0 = [seq(0,3,1),seq(0,0,1),z_seq_0];
    assign_seq(&mut b_test_3, &seq_3_0, &index(&test_biases_cutouts, &seq_3_0));
    let seq_3_2 = [seq(0,1,1),seq(0,0,1),z_seq_1];
    assign_seq(&mut b_test_3, &seq_3_2, &index(&test_biases_cutouts, &seq_3_2));
    assert_eq!(&serialize(&b_test_3),
               &serialize(&held(&backend, network.node(), 3, "_SYSTEM_BIASES")));

    let mut b_test_4: Dense = constant(0.0, held(&backend, network.node(), 4, "_SYSTEM_BIASES").dims);
    let seq_4_0 = [seq(0,2,1),seq(0,0,1),z_seq_0];
    assign_seq(&mut b_test_4, &seq_4_0, &index(&test_biases_cutouts, &seq_4_0));
    let seq_4_2 = [seq(0,0,1),seq(0,0,1),z_seq_1];
    assign_seq(&mut b_test_4, &seq_4_2, &index(&test_biases_cutouts, &seq_4_2));
    assert_eq!(&serialize(&b_test_4),
               &serialize(&held(&backend, network.node(), 4, "_SYSTEM_BIASES")));

    let mut b_test_5: Dense = constant(0.0, held(&backend, network.node(), 5, "_SYSTEM_BIASES").dims);
    let seq_5_0 = [seq(0,1,1),seq(0,0,1),z_seq_0];
    assign_seq(&mut b_test_5, &seq_5_0, &index(&test_biases_cutouts, &seq_5_0));
    assert_eq!(&serialize(&b_test_5),
               &serialize(&held(&backend, network.node(), 5, "_SYSTEM_BIASES")));
}

#[test]
fn create_biases_2_2(){
    let mut backend = Backend::new();
    let attribute = Attribute::new(
        Activation::Identity,
        CellType::Mlp,
        vec![("_SYSTEM_WEIGHTS", TensorDescriptor::RandN), ("_SYSTEM_BIASES", TensorDescriptor::Const(1.0f64.to_bits()))],
        Scope::new(2,2));

    let mut network = Network::new(Node::new(
        Uuid::new_v4().as_u128(),
        NodeType::Leaf(
            attribute.clone(),
            vec![
                (attribute.clone(), 3),
                (attribute.clone(), 4),
                (attribute.clone(), 3),
                (attribute.clone(), 2),
                (attribute.clone(), 1)
            ]
        )));

    let tensor = Tensor::new(&[("input", Array::new_empty(Dims::new(&[1,2,1,1])))]);
    let plan = network.traverse(&tensor, true).unwrap();
    backend.run(&plan);
    let test_biases_cutouts: Dense = constant(1.0, dim4(5,5,5,1));

    let z_seq_0 = seq(0,0,1);
    let z_seq_1 = seq(1,1,1);
    let z_seq_3 = seq(3,3,1);
    let z_seq_4 = seq(4,4,1);

    let mut b_test_0: Dense = constant(0.0, held(&backend, network.node(), 0, "_SYSTEM_BIASES").dims);
    let seq_0_3 = [seq(0,2,1),seq(0,0,1),seq(1,1,1)];
    assign_seq(&mut b_test_0, &seq_0_3, &index(&test_biases_cutouts, &seq_0_3));
    let seq_0_4 = [seq(0,3,1),seq(0,0,1),seq(2,2,1)];
    assign_seq(&mut b_test_0, &seq_0_4, &index(&test_biases_cutouts, &seq_0_4));
    assert_eq!(&serialize(&b_test_0),
               &serialize(&held(&backend, network.node(), 0, "_SYSTEM_BIASES")));

    let mut b_test_1: Dense = constant(0.0, held(&backend, network.node(), 1, "_SYSTEM_BIASES").dims);
    let seq_1_1 = [seq(0,1,1),seq(0,0,1),seq(0,0,1)];
    assign_seq(&mut b_test_1, &seq_1_1, &index(&test_biases_cutouts, &seq_1_1));
    let seq_1_3 = [seq(0,3,1),seq(0,0,1),seq(2,2,1)];
    assign_seq(&mut b_test_1, &seq_1_3, &index(&test_biases_cutouts, &seq_1_3));
    let seq_1_4 = [seq(0,2,1),seq(0,0,1),seq(3,3,1)];
    assign_seq(&mut b_test_1, &seq_1_4, &index(&test_biases_cutouts, &seq_1_4));
    assert_eq!(&serialize(&b_test_1),
               &serialize(&held(&backend, network.node(), 1, "_SYSTEM_BIASES")));

    let mut b_test_2: Dense = constant(0.0, held(&backend, network.node(), 2, "_SYSTEM_BIASES").dims);
    let seq_2_0 = [seq(0,1,1),seq(0,0,1),z_seq_0];
    assign_seq(&mut b_test_2, &seq_2_0, &index(&test_biases_cutouts, &seq_2_0));
    let seq_2_1 = [seq(0,2,1),seq(0,0,1),z_seq_1];
    assign_seq(&mut b_test_2, &seq_2_1, &index(&test_biases_cutouts, &seq_2_1));
    let seq_2_3 = [seq(0,2,1),seq(0,0,1),z_seq_3];
    assign_seq(&mut b_test_2, &seq_2_3, &index(&test_biases_cutouts, &seq_2_3));
    let seq_2_4 = [seq(0,1,1),seq(0,0,1),seq(4,4,1)];
    assign_seq(&mut b_test_2, &seq_2_4, &index(&test_biases_cutouts, &seq_2_4));
    assert_eq!(&serialize(&b_test_2),
               &serialize(&held(&backend, network.node(), 2, "_SYSTEM_BIASES")));

    let mut b_test_3: Dense = constant(0.0, held(&backend, network.node(), 3, "_SYSTEM_BIASES").dims);
    let seq_3_0 = [seq(0,2,1),seq(0,0,1),z_seq_0];
    assign_seq(&mut b_test_3, &seq_3_0, &index(&test_biases_cutouts, &seq_3_0));
    let seq_3_1 = [seq(0,3,1),seq(0,0,1),z_seq_1];
    assign_seq(&mut b_test_3, &seq_3_1, &index(&test_biases_cutouts, &seq_3_1));
    let seq_3_3 = [seq(0,1,1),seq(0,0,1),z_seq_3];
    assign_seq(&mut b_test_3, &seq_3_3, &index(&test_biases_cutouts, &seq_3_3));
    let seq_3_4 = [seq(0,0,1),seq(0,0,1),z_seq_4];
    assign_seq(&mut b_test_3, &seq_3_4, &index(&test_biases_cutouts, &seq_3_4));
    assert_eq!(&serialize(&b_test_3),
               &serialize(&held(&backend, network.node(), 3, "_SYSTEM_BIASES")));

    let mut b_test_4: Dense = constant(0.0, held(&backend, network.node(), 4, "_SYSTEM_BIASES").dims);
    let seq_4_0 = [seq(0,3,1),seq(0,0,1),z_seq_0];
    assign_seq(&mut b_test_4, &seq_4_0, &index(&test_biases_cutouts, &seq_4_0));
    let seq_4_1 = [seq(0,2,1),seq(0,0,1),z_seq_1];
    assign_seq(&mut b_test_4, &seq_4_1, &index(&test_biases_cutouts, &seq_4_1));
    let seq_4_3 = [seq(0,0,1),seq(0,0,1),z_seq_3];
    assign_seq(&mut b_test_4, &seq_4_3, &index(&test_biases_cutouts, &seq_4_3));
    assert_eq!(&serialize(&b_test_4),
               &serialize(&held(&backend, network.node(), 4, "_SYSTEM_BIASES")));

    let mut b_test_5: Dense = constant(0.0, held(&backend, network.node(), 5, "_SYSTEM_BIASES").dims);
    let seq_5_0 = [seq(0,2,1),seq(0,0,1),z_seq_0];
    assign_seq(&mut b_test_5, &seq_5_0, &index(&test_biases_cutouts, &seq_5_0));
    let seq_5_1 = [seq(0,1,1),seq(0,0,1),z_seq_1];
    assign_seq(&mut b_test_5, &seq_5_1, &index(&test_biases_cutouts, &seq_5_1));
    assert_eq!(&serialize(&b_test_5),
               &serialize(&held(&backend, network.node(), 5, "_SYSTEM_BIASES")));
}

#[test]
fn feed_forward_1x1_122_no_activation() {
    let mut backend = Backend::new();
    let attribute = Attribute::new(
        Activation::Identity,
        CellType::Mlp,
        vec![("_SYSTEM_WEIGHTS", TensorDescriptor::Const(0.3f64.to_bits())), ("_SYSTEM_BIASES", TensorDescriptor::Const(0.5f64.to_bits()))],
        Scope::new(0,1));

    let mut network = Network::new(
        Node::new(
            Uuid::new_v4().as_u128(),
        NodeType::Leaf(
            attribute.clone(),
            vec![
                (attribute.clone(), 2),
                (attribute.clone(), 2),
            ]
        )));

    let tensor = Tensor::new(&[("input", given(&mut backend, constant(1.0,dim4(1,1,1,1))))]);
    let plan = network.traverse(&tensor, true).unwrap();
    backend.run(&plan);

    //not working because you are testing against the whole value array, not just the output.
    let expected : Vec<u8> = vec![2, 0, 0, 0, 1, 0, 0, 0, 0, 0, 0, 0, 2, 0, 0, 0, 0, 0, 0, 0, 3, 0, 0, 0, 0, 0, 0, 0, 1, 0, 0, 0,
        0, 0, 0, 0, 6, 0, 0, 0, 0, 0, 0, 0, 0, 0, 0, 0, 0, 0, 240, 63, 0, 0, 0, 0, 0, 0, 0, 0, 154, 153, 153, 153, 153, 153,
        233, 63, 154, 153, 153, 153, 153, 153, 233, 63, 92, 143, 194, 245, 40, 92, 239, 63, 92, 143, 194, 245, 40, 92, 239, 63];
    assert_eq!(&expected, &serialize(&values(&backend, network.node())));
}

#[test]
fn feed_forward_1x1_21_no_activation(){
    let mut backend = Backend::new();
    let attribute = Attribute::new(
        Activation::Identity,
        CellType::Mlp,
        vec![("_SYSTEM_WEIGHTS", TensorDescriptor::Const(0.3f64.to_bits())), ("_SYSTEM_BIASES", TensorDescriptor::Const(0.5f64.to_bits()))],
        Scope::new(0,1));

    let mut network = Network::new(
        Node::new(
            Uuid::new_v4().as_u128(),
            NodeType::Leaf(
                attribute.clone(),
                vec![
                    (attribute.clone(), 1),
                ]
            )));

    let tensor = Tensor::new(&[("input", given(&mut backend, constant(1.0,dim4(1,2,1,1))))]);
    let plan = network.traverse(&tensor, true).unwrap();
    backend.run(&plan);

    let expected : Vec<u8> = vec![2, 0, 0, 0, 1, 0, 0, 0, 0, 0, 0, 0, 2, 0, 0, 0, 0, 0, 0, 0, 2, 0, 0, 0, 0, 0, 0, 0,
                                  1, 0, 0, 0, 0, 0, 0, 0, 4, 0, 0, 0, 0, 0, 0, 0, 0, 0, 0, 0, 0, 0, 240, 63, 0, 0, 0,
                                  0, 0, 0, 240, 63, 154, 153, 153, 153, 153, 153, 241, 63, 0, 0, 0, 0, 0, 0, 0, 0];
    assert_eq!(&expected, &serialize(&values(&backend, network.node())));
}

#[test]
fn feed_forward_1x1_21_sigmoid(){
    let mut backend = Backend::new();
    let attribute = Attribute::new(
        Activation::Sigmoid,
        CellType::Mlp,
        vec![("_SYSTEM_WEIGHTS", TensorDescriptor::Const(0.3f64.to_bits())), ("_SYSTEM_BIASES", TensorDescriptor::Const(0.5f64.to_bits()))],
        Scope::new(0,1));

    let mut network = Network::new(
        Node::new(
            Uuid::new_v4().as_u128(),
            NodeType::Leaf(
                attribute.clone(),
                vec![
                    (attribute.clone(), 1),
                ]
            )));

    let tensor = Tensor::new(&[("input", given(&mut backend, constant(1.0,dim4(1,2,1,1))))]);
    let plan = network.traverse(&tensor, true).unwrap();
    backend.run(&plan);

    let expected : Vec<u8> = vec![2, 0, 0, 0, 1, 0, 0, 0, 0, 0, 0, 0, 2, 0, 0, 0, 0, 0, 0, 0, 2, 0, 0, 0, 0, 0, 0, 0, 1, 0,
                                  0, 0, 0, 0, 0, 0, 4, 0, 0, 0, 0, 0, 0, 0, 189, 162, 213, 245, 212, 100, 231, 63, 189, 162,
                                  213, 245, 212, 100, 231, 63, 159, 129, 154, 240, 154, 0, 231, 63, 0, 0, 0, 0, 0, 0, 0, 0];
    assert_eq!(&expected, &serialize(&values(&backend, network.node())));
}

#[test]
fn feed_forward_1x2_122_21_no_activation(){
    let mut backend = Backend::new();
    let attribute = Attribute::new(
        Activation::Identity,
        CellType::Mlp,
        vec![("_SYSTEM_WEIGHTS", TensorDescriptor::Const(0.3f64.to_bits())), ("_SYSTEM_BIASES", TensorDescriptor::Const(0.5f64.to_bits()))],
        Scope::new(0,1));

    //Create parent with one child
    let mut network = Network::new(
        Node::new(
            Uuid::new_v4().as_u128(),
            NodeType::Vertex(
                attribute.clone(),
                Node::new(
                    Uuid::new_v4().as_u128(),
                    NodeType::Leaf(
                        attribute.clone(),
                        vec![
                            (attribute.clone(), 2),
                            (attribute.clone(), 2),
                        ]
                    )),
                attribute.clone()
            )));

    //Add new child to new row
    network.add_child_to_parent(
        Node::new(
            Uuid::new_v4().as_u128(),
            NodeType::Leaf(
                attribute.clone(),
                vec![
                    (attribute.clone(), 1),
                ]
            )),
        Some(0)
    );

    //Only pass some inputs to children
    let input0 = ("input0", given(&mut backend, constant(1.0,dim4(1,1,1,1))));
    let input1 = ("input1", given(&mut backend, constant(1.0,dim4(1,2,1,1))));

    assert_eq!(network.link_into_node(&[(0,0)], InputsFromParent, NodeRange::Selective(vec!["input0".to_string()])), Ok(()));
    assert_eq!(network.link_into_node(&[(0,1)], InputsFromParent, NodeRange::Selective(vec!["input1".to_string()])), Ok(()));

    let tensor = Tensor::new(&[input0, input1]);
    let plan = network.traverse(&tensor, true).unwrap();
    backend.run(&plan);

    // The first child is traversed on what the output layer of the vertex
    // holds by then, which is nothing: its input layer stays empty, and its
    // hidden layers are fed by the biases alone.
    let expected0 : Vec<u8> = vec![2, 0, 0, 0, 1, 0, 0, 0, 0, 0, 0, 0, 2, 0, 0, 0, 0, 0, 0, 0, 3, 0, 0, 0, 0, 0, 0, 0, 1, 0, 0, 0, 0, 0, 0, 0, 6,
                                   0, 0, 0, 0, 0, 0, 0, 0, 0, 0, 0, 0, 0, 0, 0, 0, 0, 0, 0, 0, 0, 0, 0, 0, 0, 0, 0, 0, 0, 224, 63,
                                   0, 0, 0, 0, 0, 0, 224, 63, 154, 153, 153, 153, 153, 153, 233, 63, 154, 153, 153, 153, 153, 153, 233, 63];
    assert_eq!(&expected0, &serialize(&values(&backend, network.node().index_into_node(&[(0,0)]).unwrap())));

    // The second child is traversed on what the first child sent up, of
    // which its filter admits nothing.
    let expected1 : Vec<u8> = vec![2, 0, 0, 0, 1, 0, 0, 0, 0, 0, 0, 0, 1, 0, 0, 0, 0, 0, 0, 0, 2, 0, 0, 0, 0, 0, 0, 0,
                                   1, 0, 0, 0, 0, 0, 0, 0, 2, 0, 0, 0, 0, 0, 0, 0, 0, 0, 0, 0, 0, 0, 0, 0,
                                   0, 0, 0, 0, 0, 0, 224, 63];
    assert_eq!(&expected1, &serialize(&values(&backend, network.node().index_into_node(&[(0,1)]).unwrap())));
}

#[test]
fn save_default() {
    let mut backend = Backend::new();

    let attribute = Attribute::new(
        Activation::Identity,
        CellType::Mlp,
        vec![("_SYSTEM_WEIGHTS", TensorDescriptor::Const(0.3f64.to_bits())), ("_SYSTEM_BIASES", TensorDescriptor::Const(0.5f64.to_bits()))],
        Scope::new(0,1));


    let mut network = Network::new(
        Node::new(
            Uuid::from_u128(0).as_u128(),
            NodeType::Leaf(
                attribute.clone(),
                vec![
                    (attribute.clone(), 2),
                    (attribute.clone(), 2),
                ]
            )));

    let tensor = Tensor::new(&[("input", given(&mut backend, constant(1.0,dim4(1,1,1,1))))]);
    let plan = network.traverse(&tensor, true).unwrap();
    backend.run(&plan);

    let expected : Vec<u8> = vec![2, 0, 0, 0, 1, 0, 0, 0, 0, 0, 0, 0, 2, 0, 0, 0, 0, 0, 0, 0, 3, 0, 0, 0, 0, 0, 0, 0, 1, 0, 0, 0,
                                  0, 0, 0, 0, 6, 0, 0, 0, 0, 0, 0, 0, 0, 0, 0, 0, 0, 0, 240, 63, 0, 0, 0, 0, 0, 0, 0, 0, 154, 153, 153, 153, 153, 153,
                                  233, 63, 154, 153, 153, 153, 153, 153, 233, 63, 92, 143, 194, 245, 40, 92, 239, 63, 92, 143, 194, 245, 40, 92, 239, 63];
    assert_eq!(&expected, &serialize(&values(&backend, network.node())));

    // The file that the network is kept in is named after the root.
    assert_eq!(network.file_name(), "00000000-0000-0000-0000-000000000000.annml");
}
