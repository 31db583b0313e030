use tensor_graph::error::Error;
use tensor_graph::grad::grad;
use tensor_graph::graph::Graph;
use tensor_graph::hardware::Hardware;
use tensor_graph::node::Node;
use tensor_graph::operator::Operator;
use tensor_graph::rational::Rational;
use tensor_graph::shape::Shape;

#[test]
fn test_memoization_keeps_steps() {
    let hw = Hardware::new(0);
    let mut g = Graph::new(0);
    let a = Node::from_scalar(&hw, &mut g, Rational::from_int(6));
    let b = Node::from_scalar(&hw, &mut g, Rational::from_int(4));
    let y = a.mul(b, &mut g).unwrap();

    let before = g.num_steps();
    let first = y.calculate(&mut g).unwrap().to_scalar().unwrap();
    assert!(g.get_step(2).unwrap().cache.is_some());
    let second = y.calculate(&mut g).unwrap().to_scalar().unwrap();

    assert_eq!(first, Rational::from_int(24));
    assert_eq!(first, second);
    assert_eq!(g.num_steps(), before);
}

#[test]
fn test_cross_graph_arithmetic_fails() {
    let hw = Hardware::new(0);
    let mut g1 = Graph::new(1);
    let mut g2 = Graph::new(2);
    let a = Node::from_scalar(&hw, &mut g1, Rational::from_int(1));
    let b = Node::from_scalar(&hw, &mut g2, Rational::from_int(2));

    assert_eq!(a.add(b, &mut g1).unwrap_err(), Error::InvalidGraph);
    assert_eq!(a.sub(b, &mut g1).unwrap_err(), Error::InvalidGraph);
    assert_eq!(a.mul(b, &mut g1).unwrap_err(), Error::InvalidGraph);
    assert_eq!(a.div(b, &mut g1).unwrap_err(), Error::InvalidGraph);
    assert_eq!(grad(&mut g1, a, &[b]).unwrap_err(), Error::InvalidGraph);
    assert_eq!(grad(&mut g2, a, &[b]).unwrap_err(), Error::InvalidGraph);
}

#[test]
fn test_check_graph() {
    let hw = Hardware::new(0);
    let mut g1 = Graph::new(1);
    let mut g2 = Graph::new(2);
    let a = Node::from_scalar(&hw, &mut g1, Rational::from_int(1));
    let b = Node::from_scalar(&hw, &mut g1, Rational::from_int(2));
    let c = Node::from_scalar(&hw, &mut g2, Rational::from_int(3));

    assert!(a.check_graph(&[b]).is_ok());
    assert!(a.check_graph(&[]).is_ok());
    assert_eq!(a.check_graph(&[b, c]).unwrap_err(), Error::InvalidGraph);
}

#[test]
fn test_shape_mismatch() {
    let hw = Hardware::new(0);
    let mut g = Graph::new(0);
    let vector = Node::fill(&hw, &mut g, Shape::new(vec![3]), Rational::from_int(1)).unwrap();
    let scalar = Node::from_scalar(&hw, &mut g, Rational::from_int(2));

    assert_eq!(vector.add(scalar, &mut g).unwrap_err(), Error::ShapeMismatch);
    let steps = g.num_steps();
    assert_eq!(steps, 2);
}

#[test]
fn test_hardware_mismatch() {
    let hw1 = Hardware::new(1);
    let hw2 = Hardware::new(2);
    let mut g = Graph::new(0);
    let a = Node::from_scalar(&hw1, &mut g, Rational::from_int(1));
    let b = Node::from_scalar(&hw2, &mut g, Rational::from_int(2));

    assert_eq!(a.add(b, &mut g).unwrap_err(), Error::HardwareMismatch);
}

#[test]
fn test_division_by_zero_surfaces_at_calculate() {
    let hw = Hardware::new(0);
    let mut g = Graph::new(0);
    let a = Node::from_scalar(&hw, &mut g, Rational::from_int(1));
    let b = Node::from_scalar(&hw, &mut g, Rational::from_int(0));

    // Appending the step succeeds: values are only inspected lazily.
    let y = a.div(b, &mut g).unwrap();
    assert_eq!(y.calculate(&mut g).unwrap_err(), Error::DivisionByZero);
}

#[test]
fn test_overflow_surfaces_at_calculate() {
    let hw = Hardware::new(0);
    let mut g = Graph::new(0);
    let a = Node::from_scalar(&hw, &mut g, Rational::from_int(i64::MAX));
    let b = Node::from_scalar(&hw, &mut g, Rational::from_int(1));

    let y = a.add(b, &mut g).unwrap();
    assert_eq!(y.calculate(&mut g).unwrap_err(), Error::Overflow);
}

#[test]
fn test_grad_is_lazy_about_values() {
    let hw = Hardware::new(0);
    let mut g = Graph::new(0);
    let a = Node::from_scalar(&hw, &mut g, Rational::from_int(1));
    let b = Node::from_scalar(&hw, &mut g, Rational::from_int(0));
    let y = a.div(b, &mut g).unwrap();

    // grad never performs an operator, so the division by zero only
    // surfaces when a produced node is calculated.
    let gx = grad(&mut g, y, &[a, b]).unwrap();
    assert_eq!(gx.len(), 2);
    assert_eq!(gx[0].calculate(&mut g).unwrap_err(), Error::DivisionByZero);
}

#[test]
fn test_rational_constructors() {
    assert_eq!(Rational::new(1, 0).unwrap_err(), Error::DivisionByZero);

    // A negative denominator moves its sign into the numerator.
    let r = Rational::new(1, -2).unwrap();
    assert_eq!(r, Rational::new(-1, 2).unwrap());
    assert_eq!(r.numerator(), -1);
    assert_eq!(r.denominator(), 2);

    assert_eq!(Rational::new(i64::MIN, -1).unwrap_err(), Error::Overflow);
}

#[test]
fn test_rational_value_equality() {
    let half = Rational::new(1, 2).unwrap();
    let two_quarters = Rational::new(2, 4).unwrap();
    // Same rational number, different unreduced components.
    assert!(half.eq_value(&two_quarters));
    assert_ne!(half, two_quarters);
    assert!(!half.eq_value(&Rational::new(1, 3).unwrap()));
}

#[test]
fn test_scalar_arithmetic_exact() {
    let hw = Hardware::new(0);
    let mut g = Graph::new(0);
    let a = Node::from_scalar(&hw, &mut g, Rational::from_int(6));
    let b = Node::from_scalar(&hw, &mut g, Rational::from_int(4));

    let sum = a.add(b, &mut g).unwrap();
    let difference = a.sub(b, &mut g).unwrap();
    let product = a.mul(b, &mut g).unwrap();
    let quotient = a.div(b, &mut g).unwrap();
    let negated = a.neg(&mut g).unwrap();

    assert_eq!(sum.to_scalar(&mut g), Ok(Rational::from_int(10)));
    assert_eq!(difference.to_scalar(&mut g), Ok(Rational::from_int(2)));
    assert_eq!(product.to_scalar(&mut g), Ok(Rational::from_int(24)));
    assert!(quotient
        .to_scalar(&mut g)
        .unwrap()
        .eq_value(&Rational::new(3, 2).unwrap()));
    assert_eq!(negated.to_scalar(&mut g), Ok(Rational::from_int(-6)));
}

#[test]
fn test_fill_huge_shape_rejected() {
    let hw = Hardware::new(0);
    let mut g = Graph::new(0);
    let shape = Shape::new(vec![usize::MAX, usize::MAX]);
    assert_eq!(
        Node::fill(&hw, &mut g, shape, Rational::from_int(1)).unwrap_err(),
        Error::ShapeMismatch
    );
    assert_eq!(g.num_steps(), 0);
}

#[test]
fn test_zero_dimension_empties_shape() {
    let hw = Hardware::new(0);
    let mut g = Graph::new(0);
    let node = Node::fill(&hw, &mut g, Shape::new(vec![4, 0, 2]), Rational::from_int(9)).unwrap();
    assert_eq!(node.calculate(&mut g).unwrap().get_values(), Vec::<Rational>::new());
}

#[test]
fn test_add_step_validation() {
    let hw = Hardware::new(0);
    let mut g = Graph::new(0);
    let a = Node::from_scalar(&hw, &mut g, Rational::from_int(1));

    // The wrong number of inputs is rejected by the operator's rules;
    // hardware is resolved first.
    assert_eq!(
        g.add_step(Operator::Add, Vec::new()).unwrap_err(),
        Error::HardwareMismatch
    );

    // An address outside the graph never existed there.
    let bogus = tensor_graph::graph::NodeAddress::new(7, 0);
    assert_eq!(
        g.add_step(Operator::Neg, vec![bogus]).unwrap_err(),
        Error::InvalidGraph
    );

    let ok = g.add_step(Operator::Neg, vec![a.address]).unwrap();
    assert_eq!(ok.len(), 1);
    assert_eq!(ok[0].step, 1);
    assert_eq!(ok[0].output, 0);
}

#[test]
fn test_shape_accessors() {
    let shape = Shape::new(vec![2, 3]);
    assert_eq!(shape.rank(), 2);
    assert_eq!(shape.dimension(0), 2);
    assert_eq!(shape.dimension(1), 3);
    assert_eq!(shape.num_elements(), Some(6));
    assert_eq!(Shape::new(vec![]).num_elements(), Some(1));
    assert_eq!(Shape::new(vec![0]).num_elements(), Some(0));
    assert_eq!(Shape::new(vec![usize::MAX, 2]).num_elements(), None);
    assert!(shape.elementwise(&Shape::new(vec![2, 3])).is_ok());
    assert_eq!(
        shape.elementwise(&Shape::new(vec![3, 2])).unwrap_err(),
        Error::ShapeMismatch
    );
}
