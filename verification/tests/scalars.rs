//! The scalar and vector arithmetic, observed through real binary32 values.

use treegp::errors::GpError;
use treegp::node::Node;
use treegp::utils;

fn b(x: f32) -> u32 {
    x.to_bits()
}

fn f(x: u32) -> f32 {
    f32::from_bits(x)
}

fn bv(xs: &[f32]) -> Vec<u32> {
    xs.iter().map(|x| x.to_bits()).collect()
}

#[test]
fn add_matches_hardware_addition() {
    let r = utils::add(bv(&[1.5, 0.25, -2.0]), bv(&[0.25, 0.5, 0.5]));
    assert_eq!(r, bv(&[1.75, 0.75, -1.5]));
}

#[test]
fn subtract_matches_hardware_subtraction() {
    let r = utils::subtract(bv(&[2.5, 1.0]), bv(&[1.0, 3.5]));
    assert_eq!(r, bv(&[1.5, -2.5]));
}

#[test]
fn multiply_matches_hardware_multiplication() {
    let r = utils::multiply(bv(&[3.0, -0.5]), bv(&[2.0, 0.25]));
    assert_eq!(r, bv(&[6.0, -0.125]));
}

#[test]
fn divide_is_exact_above_the_threshold() {
    let r = utils::divide(bv(&[1.0, 4.0]), bv(&[2.0, 1e-5]));
    assert_eq!(f(r[0]), 0.5);
    assert_eq!(f(r[1]), 4.0 / 1e-5f32);
}

#[test]
fn divide_passes_the_numerator_through_below_the_threshold() {
    let r = utils::divide(bv(&[2.0, 3.0, 7.0]), bv(&[5e-6, -5e-6, 0.0]));
    assert_eq!(r, bv(&[2.0, 3.0, 7.0]));
}

#[test]
fn divide_passes_the_numerator_through_for_nan_divisor() {
    let r = utils::divide(bv(&[2.0]), vec![f32::NAN.to_bits()]);
    assert_eq!(r, bv(&[2.0]));
}

#[test]
fn rmse_of_a_vector_against_itself_is_zero() {
    let x = bv(&[1.25, -3.5, 0.0, 42.0]);
    let r = utils::rmse(&x, &x);
    assert_eq!(r, 0u32);
}

#[test]
fn rmse_is_symmetric() {
    let x = bv(&[1.0, 2.0, 3.0]);
    let y = bv(&[4.0, -1.0, 0.5]);
    assert_eq!(utils::rmse(&x, &y), utils::rmse(&y, &x));
}

#[test]
fn rmse_approximates_the_root_mean_squared_error() {
    let x = bv(&[0.0, 0.0, 0.0, 0.0]);
    let y = bv(&[2.0, 2.0, 2.0, 2.0]);
    let r = f(utils::rmse(&x, &y));
    assert!((r - 2.0).abs() < 1e-3, "rmse was {r}");
}

#[test]
fn cosine_of_zero_is_one() {
    let r = utils::cosine(bv(&[0.0]));
    assert_eq!(f(r[0]), 1.0);
}

#[test]
fn cosine_approximates_cosine_and_stays_in_range() {
    let args = [0.5f32, 1.0, -1.0, 2.0, 3.0, -2.5, 6.5, 100.0];
    let r = utils::cosine(bv(&args));
    for (i, a) in args.iter().enumerate() {
        let c = f(r[i]);
        assert!((-1.0..=1.0).contains(&c));
        assert!((c - a.cos()).abs() < 1e-2, "cos({a}) gave {c}");
    }
}

#[test]
fn logistic_is_a_sigmoid_into_the_unit_interval() {
    let r = utils::logistic(bv(&[0.0, 5.0, -5.0, f32::INFINITY, f32::NEG_INFINITY]));
    assert_eq!(f(r[0]), 0.5);
    assert!(f(r[1]) > 0.5 && f(r[1]) <= 1.0);
    assert!(f(r[2]) < 0.5 && f(r[2]) >= 0.0);
    assert_eq!(f(r[3]), 1.0);
    assert_eq!(f(r[4]), 0.0);
}

#[test]
fn node_op_applies_the_operator_elementwise() {
    let args = vec![bv(&[1.0, 2.0]), bv(&[3.0, 5.0])];
    let r = Node::Addition.op(&args).unwrap();
    assert_eq!(r, bv(&[4.0, 7.0]));
    let r = Node::Division.op(&args).unwrap();
    assert_eq!(r, bv(&[1.0 / 3.0, 0.4]));
}

#[test]
fn node_op_rejects_a_wrong_argument_count() {
    let args = vec![bv(&[1.0])];
    assert_eq!(Node::Addition.op(&args), Err(GpError::ArityMismatch));
}

#[test]
fn node_op_rejects_a_terminal() {
    let args: Vec<Vec<u32>> = vec![];
    assert_eq!(Node::Constant(b(0.5)).op(&args), Err(GpError::NotOperable));
    assert_eq!(Node::Input(0).op(&args), Err(GpError::NotOperable));
}

#[test]
fn random_constants_come_from_the_fixed_set() {
    let set: Vec<u32> = [-1.0f32, -0.75, -0.5, -0.25, 0.0, 0.25, 0.5, 0.75, 1.0]
        .iter()
        .map(|x| x.to_bits())
        .collect();
    for _ in 0..50 {
        match Node::get_random_const() {
            Node::Constant(c) => assert!(set.contains(&c)),
            other => panic!("not a constant: {other:?}"),
        }
    }
}

#[test]
fn random_functionals_exclude_the_bounding_function() {
    for _ in 0..50 {
        let n = Node::get_random_functional();
        assert!(matches!(
            n,
            Node::Addition | Node::Subtraction | Node::Cosine | Node::Multiplication
                | Node::Division
        ));
        assert!(n.arity() == 1 || n.arity() == 2);
    }
}

#[test]
fn random_inputs_stay_below_the_dimension_count() {
    for _ in 0..50 {
        match Node::get_random_input(3) {
            Node::Input(j) => assert!(j < 3),
            other => panic!("not an input: {other:?}"),
        }
    }
}

#[test]
fn arity_is_fixed_per_variant() {
    assert_eq!(Node::Addition.arity(), 2);
    assert_eq!(Node::Subtraction.arity(), 2);
    assert_eq!(Node::Multiplication.arity(), 2);
    assert_eq!(Node::Division.arity(), 2);
    assert_eq!(Node::Cosine.arity(), 1);
    assert_eq!(Node::LogFunction.arity(), 1);
    assert_eq!(Node::Input(7).arity(), 0);
    assert_eq!(Node::Constant(b(0.25)).arity(), 0);
}
