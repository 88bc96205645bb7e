//! One element of a flattened expression tree.

use vstd::prelude::*;
use crate::errors::GpError;
use crate::fbits::{add_bits, sub_bits, mul_bits, cos_approx, logistic_approx};
use crate::utils::{subtract, multiply, divide, cosine, logistic, copy_scalars, pdiv_bits};
use crate::rng::{rand_below, rand_flip};

verus! {

/// A node of a pre-order (prefix) tree encoding. `Input` and `Constant` are
/// the terminals; `Input` carries the index of a dataset variable, `Constant`
/// the bit pattern of a binary32 value. The remaining variants are operators.
#[derive(Clone, Copy, Debug, PartialEq, Eq, Structural)]
pub enum Node {
    Addition,
    Subtraction,
    Multiplication,
    Division,
    Cosine,
    LogFunction,
    Input(usize),
    Constant(u32),
}

/// The fixed constant set the random generator draws from: the bit patterns
/// of -1, -0.75, -0.5, -0.25, 0, 0.25, 0.5, 0.75 and 1.
pub open spec fn in_constant_set(c: u32) -> bool {
    ||| c == 0xBF80_0000u32
    ||| c == 0xBF40_0000u32
    ||| c == 0xBF00_0000u32
    ||| c == 0xBE80_0000u32
    ||| c == 0x0000_0000u32
    ||| c == 0x3E80_0000u32
    ||| c == 0x3F00_0000u32
    ||| c == 0x3F40_0000u32
    ||| c == 0x3F80_0000u32
}

/// The functional set that random generation draws from: `LogFunction` is
/// reserved for geometric-semantic bounding and is never drawn.
pub open spec fn in_functional_set(n: Node) -> bool {
    ||| n is Addition
    ||| n is Subtraction
    ||| n is Cosine
    ||| n is Multiplication
    ||| n is Division
}

/// The scalar a binary operator computes from its two argument scalars.
pub open spec fn bin_bits(n: Node, a: u32, b: u32) -> u32 {
    match n {
        Node::Addition => add_bits(a, b),
        Node::Subtraction => sub_bits(a, b),
        Node::Multiplication => mul_bits(a, b),
        Node::Division => pdiv_bits(a, b),
        _ => a,
    }
}

/// The scalar a unary operator computes from its argument scalar.
pub open spec fn un_bits(n: Node, a: u32) -> u32 {
    match n {
        Node::Cosine => cos_approx(a),
        Node::LogFunction => logistic_approx(a),
        _ => a,
    }
}

impl Node {
    /// How many operand subtrees this node consumes.
    pub open spec fn arity_spec(self) -> nat {
        match self {
            Node::Input(_) => 0,
            Node::Constant(_) => 0,
            Node::Cosine => 1,
            Node::LogFunction => 1,
            _ => 2,
        }
    }

    /// Returns how many arguments a node takes.
    pub fn arity(&self) -> (r: usize)
        ensures
            r == self.arity_spec(),
    {
        match *self {
            Node::Input(_) => 0,
            Node::Constant(_) => 0,
            Node::Cosine | Node::LogFunction => 1,
            _ => 2,
        }
    }

    /// Performs the operation of the node on the argument vectors, one
    /// element per data instance. Fails with `ArityMismatch` when the number
    /// of argument vectors is not the node's arity, and with `NotOperable`
    /// when the node is a terminal (a terminal's value is the caller's job:
    /// a constant is broadcast, an input indexes the dataset).
    pub fn op(&self, args: &Vec<Vec<u32>>) -> (r: Result<Vec<u32>, GpError>)
        requires
            args@.len() == 2 ==> args@[0]@.len() == args@[1]@.len(),
        ensures
            self.arity_spec() != args@.len() ==> r == Err::<Vec<u32>, GpError>(
                GpError::ArityMismatch,
            ),
            self.arity_spec() == args@.len() && args@.len() == 0 ==> r == Err::<
                Vec<u32>,
                GpError,
            >(GpError::NotOperable),
            self.arity_spec() == args@.len() && args@.len() == 1 ==> (r matches Ok(v) && v@.len()
                == args@[0]@.len() && (forall|i: int|
                0 <= i < v@.len() ==> v@[i] == un_bits(*self, args@[0]@[i]))),
            self.arity_spec() == args@.len() && args@.len() == 2 ==> (r matches Ok(v) && v@.len()
                == args@[0]@.len() && (forall|i: int|
                0 <= i < v@.len() ==> v@[i] == bin_bits(*self, args@[0]@[i], args@[1]@[i]))),
    {
        if self.arity() != args.len() {
            return Err(GpError::ArityMismatch);
        }
        match *self {
            Node::Addition => Ok(crate::utils::add(copy_scalars(&args[0]), copy_scalars(&args[1]))),
            Node::Subtraction => Ok(subtract(copy_scalars(&args[0]), copy_scalars(&args[1]))),
            Node::Cosine => Ok(cosine(copy_scalars(&args[0]))),
            Node::Multiplication => Ok(multiply(copy_scalars(&args[0]), copy_scalars(&args[1]))),
            Node::Division => Ok(divide(copy_scalars(&args[0]), copy_scalars(&args[1]))),
            Node::LogFunction => Ok(logistic(copy_scalars(&args[0]))),
            _ => Err(GpError::NotOperable),
        }
    }

    /// Gets a random constant from the fixed constant set (the binary32
    /// values from -1 to 1 in steps of 0.25).
    pub fn get_random_const() -> (r: Node)
        ensures
            r matches Node::Constant(c) && in_constant_set(c),
    {
        let i = rand_below(9);
        if i == 0 {
            Node::Constant(0xBF80_0000)
        } else if i == 1 {
            Node::Constant(0xBF40_0000)
        } else if i == 2 {
            Node::Constant(0xBF00_0000)
        } else if i == 3 {
            Node::Constant(0xBE80_0000)
        } else if i == 4 {
            Node::Constant(0x0000_0000)
        } else if i == 5 {
            Node::Constant(0x3E80_0000)
        } else if i == 6 {
            Node::Constant(0x3F00_0000)
        } else if i == 7 {
            Node::Constant(0x3F40_0000)
        } else {
            Node::Constant(0x3F80_0000)
        }
    }

    /// Gets a random node from the functional set, uniformly. `LogFunction`
    /// is excluded: it only serves geometric-semantic bounding.
    pub fn get_random_functional() -> (r: Node)
        ensures
            in_functional_set(r),
            1 <= r.arity_spec() <= 2,
    {
        let i = rand_below(5);
        if i == 0 {
            Node::Addition
        } else if i == 1 {
            Node::Subtraction
        } else if i == 2 {
            Node::Cosine
        } else if i == 3 {
            Node::Multiplication
        } else {
            Node::Division
        }
    }

    /// Gets a random input terminal over `dimensions` dataset variables.
    pub fn get_random_input(dimensions: usize) -> (r: Node)
        requires
            dimensions >= 1,
        ensures
            r matches Node::Input(j) && j < dimensions,
    {
        let i = rand_below(dimensions);
        Node::Input(i)
    }

    /// A random terminal: a coin flip between a constant and an input.
    pub(crate) fn random_terminal(dimensions: usize) -> (r: Node)
        requires
            dimensions >= 1,
        ensures
            r.arity_spec() == 0,
            r matches Node::Input(j) ==> j < dimensions,
    {
        if rand_flip() {
            Node::get_random_const()
        } else {
            Node::get_random_input(dimensions)
        }
    }
}

} // verus!
