//! Two example models assembled from the builders.
use vstd::prelude::*;

use crate::device::{Device, TensorWithGrad};
use crate::error::Error;
use crate::machine::UnaryModel;
use crate::operators::{lemma_valid_extends, Embedding, Linear, Reshape, Sigmoid, Softmax};

verus! {

/// The parameters of a dense layer are nodes of `device` with the given shapes.
pub open spec fn linear_ready(l: Linear, device: &Device, out: usize, inp: usize, rows: usize) -> bool {
    &&& device.valid(l.weights)
    &&& device.valid(l.biases)
    &&& (l.weights.rows, l.weights.cols) == (out, inp)
    &&& (l.biases.rows, l.biases.cols) == (rows, out)
}

proof fn lemma_linear_ready_extends(l: Linear, old: &Device, new: &Device, out: usize, inp: usize, rows: usize)
    requires
        old.wf(),
        new.extends(old),
        linear_ready(l, old, out, inp, rows),
    ensures
        linear_ready(l, new, out, inp, rows),
{
    lemma_valid_extends(old, new, l.weights);
    lemma_valid_extends(old, new, l.biases);
}

/// One dense layer from two inputs to one output.
pub struct PerceptronModel {
    pub linear: Linear,
}

impl PerceptronModel {
    pub fn new(device: &mut Device) -> (r: Self)
        requires
            old(device).wf(),
        ensures
            final(device).wf(),
            final(device).extends(old(device)),
            r.ready(final(device)),
    {
        PerceptronModel { linear: Linear::new(device, 1, 2, 1) }
    }
}

impl UnaryModel for PerceptronModel {
    open spec fn input_shape(&self) -> (usize, usize) {
        (1, 2)
    }

    open spec fn output_shape(&self) -> (usize, usize) {
        (1, 1)
    }

    open spec fn ready(&self, device: &Device) -> bool {
        linear_ready(self.linear, device, 1, 2, 1)
    }

    proof fn lemma_ready_extends(&self, old: &Device, new: &Device) {
        lemma_linear_ready_extends(self.linear, old, new, 1, 2, 1);
    }

    fn input_size(&self) -> (r: (usize, usize)) {
        (1, 2)
    }

    fn output_size(&self) -> (r: (usize, usize)) {
        (1, 1)
    }

    fn forward(&self, device: &mut Device, input: TensorWithGrad) -> (r: Result<TensorWithGrad, Error>) {
        self.linear.forward(device, input)
    }
}

/// A small classifier over a sequence of one-hot tokens: an embedding, two
/// sigmoid dense layers around a reshape, and a softmax head meant to be
/// followed by a cross-entropy loss.
pub struct SimpleModel {
    pub sequence_length: usize,
    pub vocab_size: usize,
    pub n_embd: usize,
    pub embedding: Embedding,
    pub linear_0: Linear,
    pub sigmoid_0: Sigmoid,
    pub reshape: Reshape,
    pub linear_1: Linear,
    pub sigmoid_1: Sigmoid,
    pub linear_2: Linear,
    pub softmax: Softmax,
}

impl SimpleModel {
    pub fn new(device: &mut Device) -> (r: Self)
        requires
            old(device).wf(),
        ensures
            final(device).wf(),
            final(device).extends(old(device)),
            r.ready(final(device)),
            r.sequence_length == 6,
            r.vocab_size == 256,
            r.n_embd == 8,
    {
        let sequence_length: usize = 6;
        let vocab_size: usize = 256;
        let n_embd: usize = 8;
        let output_rows: usize = 1;
        let ghost d0 = *device;
        let embedding = Embedding::new(device, vocab_size, n_embd);
        let ghost d1 = *device;
        let linear_0 = Linear::new(device, n_embd, n_embd, sequence_length);
        let ghost d2 = *device;
        let linear_1 = Linear::new(device, n_embd, sequence_length * n_embd, output_rows);
        let ghost d3 = *device;
        let linear_2 = Linear::new(device, vocab_size, n_embd, output_rows);
        proof {
            lemma_valid_extends(&d1, &d2, embedding.table);
            lemma_valid_extends(&d2, &d3, embedding.table);
            lemma_valid_extends(&d3, device, embedding.table);
            lemma_linear_ready_extends(linear_0, &d2, &d3, n_embd, n_embd, sequence_length);
            lemma_linear_ready_extends(linear_0, &d3, device, n_embd, n_embd, sequence_length);
            lemma_linear_ready_extends(linear_1, &d3, device, n_embd, 48, output_rows);
        }
        SimpleModel {
            sequence_length,
            vocab_size,
            n_embd,
            embedding,
            linear_0,
            sigmoid_0: Sigmoid::new(),
            reshape: Reshape::new((sequence_length, n_embd), (output_rows, sequence_length * n_embd)),
            linear_1,
            sigmoid_1: Sigmoid::new(),
            linear_2,
            softmax: Softmax::new(true),
        }
    }
}

impl UnaryModel for SimpleModel {
    open spec fn input_shape(&self) -> (usize, usize) {
        (6, 256)
    }

    open spec fn output_shape(&self) -> (usize, usize) {
        (1, 256)
    }

    open spec fn ready(&self, device: &Device) -> bool {
        &&& device.valid(self.embedding.table)
        &&& (self.embedding.table.rows, self.embedding.table.cols) == (256usize, 8usize)
        &&& linear_ready(self.linear_0, device, 8, 8, 6)
        &&& self.reshape == (Reshape { input_size: (6, 8), output_size: (1, 48) })
        &&& linear_ready(self.linear_1, device, 8, 48, 1)
        &&& linear_ready(self.linear_2, device, 256, 8, 1)
    }

    proof fn lemma_ready_extends(&self, old: &Device, new: &Device) {
        lemma_valid_extends(old, new, self.embedding.table);
        lemma_linear_ready_extends(self.linear_0, old, new, 8, 8, 6);
        lemma_linear_ready_extends(self.linear_1, old, new, 8, 48, 1);
        lemma_linear_ready_extends(self.linear_2, old, new, 256, 8, 1);
    }

    fn input_size(&self) -> (r: (usize, usize)) {
        (6, 256)
    }

    fn output_size(&self) -> (r: (usize, usize)) {
        (1, 256)
    }

    fn forward(&self, device: &mut Device, input: TensorWithGrad) -> (r: Result<TensorWithGrad, Error>) {
        let ghost d0 = *device;
        let state_0 = match self.embedding.forward(device, input) {
            Ok(t) => t,
            Err(e) => return Err(e),
        };
        proof {
            self.lemma_ready_extends(&d0, device);
        }
        let ghost d1 = *device;
        let state_1 = match self.linear_0.forward(device, state_0) {
            Ok(t) => t,
            Err(e) => return Err(e),
        };
        proof {
            self.lemma_ready_extends(&d1, device);
        }
        let ghost d2 = *device;
        let state_2 = self.sigmoid_0.forward(device, state_1);
        proof {
            self.lemma_ready_extends(&d2, device);
        }
        let ghost d3 = *device;
        let state_3 = match self.reshape.forward(device, state_2) {
            Ok(t) => t,
            Err(e) => return Err(e),
        };
        proof {
            self.lemma_ready_extends(&d3, device);
        }
        let ghost d4 = *device;
        let state_4 = match self.linear_1.forward(device, state_3) {
            Ok(t) => t,
            Err(e) => return Err(e),
        };
        proof {
            self.lemma_ready_extends(&d4, device);
        }
        let ghost d5 = *device;
        let state_5 = self.sigmoid_1.forward(device, state_4);
        proof {
            self.lemma_ready_extends(&d5, device);
        }
        let state_6 = match self.linear_2.forward(device, state_5) {
            Ok(t) => t,
            Err(e) => return Err(e),
        };
        let state_7 = self.softmax.forward(device, state_6);
        Ok(state_7)
    }
}

} // verus!
