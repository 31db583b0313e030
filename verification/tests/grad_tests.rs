use tensor_graph::grad::grad;
use tensor_graph::graph::Graph;
use tensor_graph::hardware::Hardware;
use tensor_graph::node::Node;
use tensor_graph::rational::Rational;
use tensor_graph::shape::Shape;

#[test]
fn test_empty() {
    let hw = Hardware::new(0);
    let mut g = Graph::new(0);
    let x = Node::from_scalar(&hw, &mut g, Rational::from_int(42));

    let gx = grad(&mut g, x, &[]).unwrap();
    assert!(gx.is_empty());
}

#[test]
fn test_self() {
    let hw = Hardware::new(0);
    let mut g = Graph::new(0);
    let x = Node::from_scalar(&hw, &mut g, Rational::from_int(42));

    let gx = grad(&mut g, x, &[x]).unwrap();
    assert_eq!(gx.len(), 1);

    assert_eq!(gx[0].shape(&g).unwrap(), Shape::new(vec![]));
    assert_eq!(gx[0].hardware(&g).unwrap(), hw.id());

    // dx/dx == 1
    assert_eq!(gx[0].calculate(&mut g).unwrap().to_scalar(), Ok(Rational::from_int(1)));
}

#[test]
fn test_unrelated() {
    let hw = Hardware::new(0);
    let mut g = Graph::new(0);
    let x = Node::from_scalar(&hw, &mut g, Rational::from_int(42));
    let y = Node::from_scalar(&hw, &mut g, Rational::from_int(42));

    let gx = grad(&mut g, y, &[x]).unwrap();
    assert_eq!(gx.len(), 1);

    assert_eq!(gx[0].shape(&g).unwrap(), Shape::new(vec![]));
    assert_eq!(gx[0].hardware(&g).unwrap(), hw.id());

    // dy/dx == 0 since y is not calculated by x.
    assert_eq!(gx[0].calculate(&mut g).unwrap().to_scalar(), Ok(Rational::from_int(0)));
}

#[test]
fn grad_tests_test_neg() {
    let hw = Hardware::new(0);
    let mut g = Graph::new(0);
    let x = Node::from_scalar(&hw, &mut g, Rational::from_int(42));
    let y = x.neg(&mut g).unwrap();

    let gx = grad(&mut g, y, &[x]).unwrap();
    assert_eq!(gx.len(), 1);

    assert_eq!(gx[0].shape(&g).unwrap(), Shape::new(vec![]));
    assert_eq!(gx[0].hardware(&g).unwrap(), hw.id());

    // dy/dx == -1
    assert_eq!(gx[0].calculate(&mut g).unwrap().to_scalar(), Ok(Rational::from_int(-1)));
}

#[test]
fn grad_tests_test_add() {
    let hw = Hardware::new(0);
    let mut g = Graph::new(0);
    let a = Node::from_scalar(&hw, &mut g, Rational::from_int(123));
    let b = Node::from_scalar(&hw, &mut g, Rational::from_int(456));
    let y = a.add(b, &mut g).unwrap();

    let gx = grad(&mut g, y, &[a, b]).unwrap();
    assert_eq!(gx.len(), 2);

    assert_eq!(gx[0].shape(&g).unwrap(), Shape::new(vec![]));
    assert_eq!(gx[1].shape(&g).unwrap(), Shape::new(vec![]));
    assert_eq!(gx[0].hardware(&g).unwrap(), hw.id());
    assert_eq!(gx[1].hardware(&g).unwrap(), hw.id());

    // dy/da == 1
    assert_eq!(gx[0].calculate(&mut g).unwrap().to_scalar(), Ok(Rational::from_int(1)));
    // dy/db == 1
    assert_eq!(gx[1].calculate(&mut g).unwrap().to_scalar(), Ok(Rational::from_int(1)));
}

#[test]
fn grad_tests_test_sub() {
    let hw = Hardware::new(0);
    let mut g = Graph::new(0);
    let a = Node::from_scalar(&hw, &mut g, Rational::from_int(123));
    let b = Node::from_scalar(&hw, &mut g, Rational::from_int(456));
    let y = a.sub(b, &mut g).unwrap();

    let gx = grad(&mut g, y, &[a, b]).unwrap();
    assert_eq!(gx.len(), 2);

    assert_eq!(gx[0].shape(&g).unwrap(), Shape::new(vec![]));
    assert_eq!(gx[1].shape(&g).unwrap(), Shape::new(vec![]));
    assert_eq!(gx[0].hardware(&g).unwrap(), hw.id());
    assert_eq!(gx[1].hardware(&g).unwrap(), hw.id());

    // dy/da == 1
    assert_eq!(gx[0].calculate(&mut g).unwrap().to_scalar(), Ok(Rational::from_int(1)));
    // dy/db == -1
    assert_eq!(gx[1].calculate(&mut g).unwrap().to_scalar(), Ok(Rational::from_int(-1)));
}

#[test]
fn grad_tests_test_mul() {
    let hw = Hardware::new(0);
    let mut g = Graph::new(0);
    let a = Node::from_scalar(&hw, &mut g, Rational::from_int(123));
    let b = Node::from_scalar(&hw, &mut g, Rational::from_int(456));
    let y = a.mul(b, &mut g).unwrap();

    let gx = grad(&mut g, y, &[a, b]).unwrap();
    assert_eq!(gx.len(), 2);

    assert_eq!(gx[0].shape(&g).unwrap(), Shape::new(vec![]));
    assert_eq!(gx[1].shape(&g).unwrap(), Shape::new(vec![]));
    assert_eq!(gx[0].hardware(&g).unwrap(), hw.id());
    assert_eq!(gx[1].hardware(&g).unwrap(), hw.id());

    // dy/da == b
    assert_eq!(gx[0].calculate(&mut g).unwrap().to_scalar(), Ok(Rational::from_int(456)));
    // dy/db == a
    assert_eq!(gx[1].calculate(&mut g).unwrap().to_scalar(), Ok(Rational::from_int(123)));
}

#[test]
fn test_mul_quadratic() {
    let hw = Hardware::new(0);
    let mut g = Graph::new(0);
    let x = Node::from_scalar(&hw, &mut g, Rational::from_int(123));
    // This calculation generates a diamond dependency between x and y
    // so that the gradient summation x + x happens during backpropagation.
    let y = x.mul(x, &mut g).unwrap();

    let gx = grad(&mut g, y, &[x]).unwrap();
    assert_eq!(gx.len(), 1);

    assert_eq!(gx[0].shape(&g).unwrap(), Shape::new(vec![]));
    assert_eq!(gx[0].hardware(&g).unwrap(), hw.id());

    // dy/dx == 2x, internally calculated by x + x.
    assert_eq!(gx[0].calculate(&mut g).unwrap().to_scalar(), Ok(Rational::from_int(246)));
}

#[test]
fn grad_tests_test_div() {
    let hw = Hardware::new(0);
    let mut g = Graph::new(0);
    let a = Node::from_scalar(&hw, &mut g, Rational::from_int(3));
    let b = Node::from_scalar(&hw, &mut g, Rational::from_int(2));
    let y = a.div(b, &mut g).unwrap();

    let gx = grad(&mut g, y, &[a, b]).unwrap();
    assert_eq!(gx.len(), 2);

    assert_eq!(gx[0].shape(&g).unwrap(), Shape::new(vec![]));
    assert_eq!(gx[1].shape(&g).unwrap(), Shape::new(vec![]));
    assert_eq!(gx[0].hardware(&g).unwrap(), hw.id());
    assert_eq!(gx[1].hardware(&g).unwrap(), hw.id());

    // dy/da == 1/b
    assert!(gx[0]
        .calculate(&mut g)
        .unwrap()
        .to_scalar()
        .unwrap()
        .eq_value(&Rational::new(1, 2).unwrap()));
    // dy/db == -a/b^2
    assert!(gx[1]
        .calculate(&mut g)
        .unwrap()
        .to_scalar()
        .unwrap()
        .eq_value(&Rational::new(-3, 4).unwrap()));
}

#[test]
fn grad_tests_test_multiple_computation() {
    let hw = Hardware::new(0);
    let mut g = Graph::new(0);
    let a = Node::from_scalar(&hw, &mut g, Rational::from_int(1));
    let b = Node::from_scalar(&hw, &mut g, Rational::from_int(2));
    let c = Node::from_scalar(&hw, &mut g, Rational::from_int(3));
    let nb = b.neg(&mut g).unwrap();
    let y = a.add(nb.mul(c, &mut g).unwrap(), &mut g).unwrap();

    let gx = grad(&mut g, y, &[a, b, c]).unwrap();
    assert_eq!(gx.len(), 3);

    assert_eq!(gx[0].shape(&g).unwrap(), Shape::new(vec![]));
    assert_eq!(gx[1].shape(&g).unwrap(), Shape::new(vec![]));
    assert_eq!(gx[2].shape(&g).unwrap(), Shape::new(vec![]));
    assert_eq!(gx[0].hardware(&g).unwrap(), hw.id());
    assert_eq!(gx[1].hardware(&g).unwrap(), hw.id());
    assert_eq!(gx[2].hardware(&g).unwrap(), hw.id());

    // dy/da == 1
    assert_eq!(gx[0].calculate(&mut g).unwrap().to_scalar(), Ok(Rational::from_int(1)));
    // dy/db == -c
    assert_eq!(gx[1].calculate(&mut g).unwrap().to_scalar(), Ok(Rational::from_int(-3)));
    // dy/dc == -b
    assert_eq!(gx[2].calculate(&mut g).unwrap().to_scalar(), Ok(Rational::from_int(-2)));
}

#[test]
fn test_higher_order_gradients() {
    let hw = Hardware::new(0);
    let mut g = Graph::new(0);
    let x = Node::from_scalar(&hw, &mut g, Rational::from_int(5));
    let y = x.mul(x, &mut g).unwrap().mul(x, &mut g).unwrap();

    let gx1 = grad(&mut g, y, &[x]).unwrap()[0];
    let gx2 = grad(&mut g, gx1, &[x]).unwrap()[0];
    let gx3 = grad(&mut g, gx2, &[x]).unwrap()[0];
    let gx4 = grad(&mut g, gx3, &[x]).unwrap()[0];

    assert_eq!(gx1.shape(&g).unwrap(), Shape::new(vec![]));
    assert_eq!(gx2.shape(&g).unwrap(), Shape::new(vec![]));
    assert_eq!(gx3.shape(&g).unwrap(), Shape::new(vec![]));
    assert_eq!(gx4.shape(&g).unwrap(), Shape::new(vec![]));
    assert_eq!(gx1.hardware(&g).unwrap(), hw.id());
    assert_eq!(gx2.hardware(&g).unwrap(), hw.id());
    assert_eq!(gx3.hardware(&g).unwrap(), hw.id());
    assert_eq!(gx4.hardware(&g).unwrap(), hw.id());

    // y' == dy/dx == 3x^2
    assert_eq!(gx1.calculate(&mut g).unwrap().to_scalar(), Ok(Rational::from_int(75)));
    // y'' == 6x
    assert_eq!(gx2.calculate(&mut g).unwrap().to_scalar(), Ok(Rational::from_int(30)));
    // y''' == 6
    assert_eq!(gx3.calculate(&mut g).unwrap().to_scalar(), Ok(Rational::from_int(6)));
    // y'''' == 0
    assert_eq!(gx4.calculate(&mut g).unwrap().to_scalar(), Ok(Rational::from_int(0)));
}

#[test]
fn test_gradient_of_multiple_variables() {
    let hw = Hardware::new(0);
    let mut g = Graph::new(0);
    let a = Node::from_scalar(&hw, &mut g, Rational::from_int(2));
    let b = Node::from_scalar(&hw, &mut g, Rational::from_int(3));
    let y = a.mul(a, &mut g).unwrap().mul(b, &mut g).unwrap();

    let y_a = grad(&mut g, y, &[a]).unwrap()[0];
    let y_b = grad(&mut g, y, &[b]).unwrap()[0];

    let y_aa = grad(&mut g, y_a, &[a]).unwrap()[0];
    let y_ab = grad(&mut g, y_a, &[b]).unwrap()[0];
    let y_ba = grad(&mut g, y_b, &[a]).unwrap()[0];
    let y_bb = grad(&mut g, y_b, &[b]).unwrap()[0];

    let y_aaa = grad(&mut g, y_aa, &[a]).unwrap()[0];
    let y_aab = grad(&mut g, y_aa, &[b]).unwrap()[0];
    let y_aba = grad(&mut g, y_ab, &[a]).unwrap()[0];
    let y_abb = grad(&mut g, y_ab, &[b]).unwrap()[0];
    let y_baa = grad(&mut g, y_ba, &[a]).unwrap()[0];
    let y_bab = grad(&mut g, y_ba, &[b]).unwrap()[0];
    let y_bba = grad(&mut g, y_bb, &[a]).unwrap()[0];
    let y_bbb = grad(&mut g, y_bb, &[b]).unwrap()[0];

    // 2ab
    assert_eq!(y_a.calculate(&mut g).unwrap().to_scalar(), Ok(Rational::from_int(12)));
    // a^2
    assert_eq!(y_b.calculate(&mut g).unwrap().to_scalar(), Ok(Rational::from_int(4)));

    // 2b
    assert_eq!(y_aa.calculate(&mut g).unwrap().to_scalar(), Ok(Rational::from_int(6)));
    // 2a
    assert_eq!(y_ab.calculate(&mut g).unwrap().to_scalar(), Ok(Rational::from_int(4)));
    // 2a
    assert_eq!(y_ba.calculate(&mut g).unwrap().to_scalar(), Ok(Rational::from_int(4)));
    // 0
    assert_eq!(y_bb.calculate(&mut g).unwrap().to_scalar(), Ok(Rational::from_int(0)));

    assert_eq!(y_aaa.calculate(&mut g).unwrap().to_scalar(), Ok(Rational::from_int(0)));
    assert_eq!(y_aab.calculate(&mut g).unwrap().to_scalar(), Ok(Rational::from_int(2)));
    assert_eq!(y_aba.calculate(&mut g).unwrap().to_scalar(), Ok(Rational::from_int(2)));
    assert_eq!(y_abb.calculate(&mut g).unwrap().to_scalar(), Ok(Rational::from_int(0)));
    assert_eq!(y_baa.calculate(&mut g).unwrap().to_scalar(), Ok(Rational::from_int(2)));
    assert_eq!(y_bab.calculate(&mut g).unwrap().to_scalar(), Ok(Rational::from_int(0)));
    assert_eq!(y_bba.calculate(&mut g).unwrap().to_scalar(), Ok(Rational::from_int(0)));
    assert_eq!(y_bbb.calculate(&mut g).unwrap().to_scalar(), Ok(Rational::from_int(0)));
}

#[test]
#[should_panic]
fn test_different_graph() {
    let hw = Hardware::new(0);
    let mut g1 = Graph::new(1);
    let mut g2 = Graph::new(2);

    let x = Node::from_scalar(&hw, &mut g1, Rational::from_int(2));
    let y = Node::from_scalar(&hw, &mut g2, Rational::from_int(3));
    let _gx = grad(&mut g2, y, &[x]).unwrap()[0];
}
