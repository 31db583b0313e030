use tensor_graph::grad::grad;
use tensor_graph::graph::{Graph, NodeAddress};
use tensor_graph::hardware::Hardware;
use tensor_graph::node::Node;
use tensor_graph::rational::Rational;
use tensor_graph::shape::Shape;

#[test]
fn node_test_steps() {
    let hw = Hardware::new(0);
    let mut g = Graph::new(0);
    let lhs = Node::from_scalar(&hw, &mut g, Rational::from_int(1));
    let rhs = Node::from_scalar(&hw, &mut g, Rational::from_int(2));
    let ret = lhs.add(rhs, &mut g).unwrap();

    assert_eq!(lhs, Node::new(&g, NodeAddress::new(0, 0)));
    assert_eq!(rhs, Node::new(&g, NodeAddress::new(1, 0)));
    assert_eq!(ret, Node::new(&g, NodeAddress::new(2, 0)));

    assert_eq!(g.num_steps(), 3);
    let retval = ret.calculate(&mut g).unwrap();
    assert_eq!(*retval.shape(), Shape::new(vec![]));
    assert_eq!(retval.to_scalar(), Ok(Rational::from_int(3)));
}

#[test]
fn node_test_add() {
    let hw = Hardware::new(0);
    let mut g = Graph::new(0);
    let lhs = Node::from_scalar(&hw, &mut g, Rational::from_int(1));
    let rhs = Node::from_scalar(&hw, &mut g, Rational::from_int(2));
    let ret = lhs.add(rhs, &mut g).unwrap();
    assert_eq!(ret.calculate(&mut g).unwrap().to_scalar(), Ok(Rational::from_int(3)));
}

#[test]
fn node_test_sub() {
    let hw = Hardware::new(0);
    let mut g = Graph::new(0);
    let lhs = Node::from_scalar(&hw, &mut g, Rational::from_int(1));
    let rhs = Node::from_scalar(&hw, &mut g, Rational::from_int(2));
    let ret = lhs.sub(rhs, &mut g).unwrap();
    assert_eq!(ret.calculate(&mut g).unwrap().to_scalar(), Ok(Rational::from_int(-1)));
}

#[test]
fn node_test_mul() {
    let hw = Hardware::new(0);
    let mut g = Graph::new(0);
    let lhs = Node::from_scalar(&hw, &mut g, Rational::from_int(1));
    let rhs = Node::from_scalar(&hw, &mut g, Rational::from_int(2));
    let ret = lhs.mul(rhs, &mut g).unwrap();
    assert_eq!(ret.calculate(&mut g).unwrap().to_scalar(), Ok(Rational::from_int(2)));
}

#[test]
fn node_test_div() {
    let hw = Hardware::new(0);
    let mut g = Graph::new(0);
    let lhs = Node::from_scalar(&hw, &mut g, Rational::from_int(1));
    let rhs = Node::from_scalar(&hw, &mut g, Rational::from_int(2));
    let ret = lhs.div(rhs, &mut g).unwrap();
    assert_eq!(
        ret.calculate(&mut g).unwrap().to_scalar(),
        Ok(Rational::new(1, 2).unwrap())
    );
}

#[test]
fn node_test_multiple_computation() {
    let hw = Hardware::new(0);
    let mut g = Graph::new(0);
    let a = Node::from_scalar(&hw, &mut g, Rational::from_int(1));
    let b = Node::from_scalar(&hw, &mut g, Rational::from_int(2));
    let c = Node::from_scalar(&hw, &mut g, Rational::from_int(3));
    let y = a.add(b.mul(c, &mut g).unwrap(), &mut g).unwrap();
    assert_eq!(y.calculate(&mut g).unwrap().to_scalar(), Ok(Rational::from_int(7)));
}

#[test]
fn tests_test_steps() {
    let hw = Hardware::new(0);
    let mut g = Graph::new(0);
    let lhs = Node::from_scalar(&hw, &mut g, Rational::from_int(1));
    let rhs = Node::from_scalar(&hw, &mut g, Rational::from_int(2));
    let ret = lhs.add(rhs, &mut g).unwrap();

    assert_eq!(lhs, Node::new(&g, NodeAddress::new(0, 0)));
    assert_eq!(rhs, Node::new(&g, NodeAddress::new(1, 0)));
    assert_eq!(ret, Node::new(&g, NodeAddress::new(2, 0)));
    assert_eq!(lhs.shape(&g).unwrap(), Shape::new(vec![]));
    assert_eq!(rhs.shape(&g).unwrap(), Shape::new(vec![]));
    assert_eq!(ret.shape(&g).unwrap(), Shape::new(vec![]));
    assert_eq!(lhs.hardware(&g).unwrap(), hw.id());
    assert_eq!(rhs.hardware(&g).unwrap(), hw.id());
    assert_eq!(ret.hardware(&g).unwrap(), hw.id());

    assert_eq!(g.num_steps(), 3);
    assert_eq!(g.get_step(0).unwrap().operator.name(), "Constant");
    assert_eq!(g.get_step(1).unwrap().operator.name(), "Constant");
    assert_eq!(g.get_step(2).unwrap().operator.name(), "Add");

    let retval = ret.calculate(&mut g).unwrap();
    assert_eq!(*retval.shape(), Shape::new(vec![]));
    assert_eq!(retval.to_scalar(), Ok(Rational::from_int(3)));
}

#[test]
fn tests_test_neg() {
    let hw = Hardware::new(0);
    let mut g = Graph::new(0);
    let src = Node::from_scalar(&hw, &mut g, Rational::from_int(42));
    let dest = src.neg(&mut g).unwrap();

    assert_eq!(src.shape(&g).unwrap(), Shape::new(vec![]));
    assert_eq!(dest.shape(&g).unwrap(), Shape::new(vec![]));
    assert_eq!(src.hardware(&g).unwrap(), hw.id());
    assert_eq!(dest.hardware(&g).unwrap(), hw.id());

    assert_eq!(dest.calculate(&mut g).unwrap().to_scalar(), Ok(Rational::from_int(-42)));
}

#[test]
fn tests_test_add() {
    let hw = Hardware::new(0);
    let mut g = Graph::new(0);
    let lhs = Node::from_scalar(&hw, &mut g, Rational::from_int(1));
    let rhs = Node::from_scalar(&hw, &mut g, Rational::from_int(2));
    let ret = lhs.add(rhs, &mut g).unwrap();

    assert_eq!(lhs.shape(&g).unwrap(), Shape::new(vec![]));
    assert_eq!(rhs.shape(&g).unwrap(), Shape::new(vec![]));
    assert_eq!(ret.shape(&g).unwrap(), Shape::new(vec![]));
    assert_eq!(lhs.hardware(&g).unwrap(), hw.id());
    assert_eq!(rhs.hardware(&g).unwrap(), hw.id());
    assert_eq!(ret.hardware(&g).unwrap(), hw.id());

    assert_eq!(ret.calculate(&mut g).unwrap().to_scalar(), Ok(Rational::from_int(3)));
}

#[test]
fn tests_test_sub() {
    let hw = Hardware::new(0);
    let mut g = Graph::new(0);
    let lhs = Node::from_scalar(&hw, &mut g, Rational::from_int(1));
    let rhs = Node::from_scalar(&hw, &mut g, Rational::from_int(2));
    let ret = lhs.sub(rhs, &mut g).unwrap();

    assert_eq!(lhs.shape(&g).unwrap(), Shape::new(vec![]));
    assert_eq!(rhs.shape(&g).unwrap(), Shape::new(vec![]));
    assert_eq!(ret.shape(&g).unwrap(), Shape::new(vec![]));
    assert_eq!(lhs.hardware(&g).unwrap(), hw.id());
    assert_eq!(rhs.hardware(&g).unwrap(), hw.id());
    assert_eq!(ret.hardware(&g).unwrap(), hw.id());

    assert_eq!(ret.calculate(&mut g).unwrap().to_scalar(), Ok(Rational::from_int(-1)));
}

#[test]
fn tests_test_mul() {
    let hw = Hardware::new(0);
    let mut g = Graph::new(0);
    let lhs = Node::from_scalar(&hw, &mut g, Rational::from_int(1));
    let rhs = Node::from_scalar(&hw, &mut g, Rational::from_int(2));
    let ret = lhs.mul(rhs, &mut g).unwrap();

    assert_eq!(lhs.shape(&g).unwrap(), Shape::new(vec![]));
    assert_eq!(rhs.shape(&g).unwrap(), Shape::new(vec![]));
    assert_eq!(ret.shape(&g).unwrap(), Shape::new(vec![]));
    assert_eq!(lhs.hardware(&g).unwrap(), hw.id());
    assert_eq!(rhs.hardware(&g).unwrap(), hw.id());
    assert_eq!(ret.hardware(&g).unwrap(), hw.id());

    assert_eq!(ret.calculate(&mut g).unwrap().to_scalar(), Ok(Rational::from_int(2)));
}

#[test]
fn tests_test_div() {
    let hw = Hardware::new(0);
    let mut g = Graph::new(0);
    let lhs = Node::from_scalar(&hw, &mut g, Rational::from_int(1));
    let rhs = Node::from_scalar(&hw, &mut g, Rational::from_int(2));
    let ret = lhs.div(rhs, &mut g).unwrap();

    assert_eq!(lhs.shape(&g).unwrap(), Shape::new(vec![]));
    assert_eq!(rhs.shape(&g).unwrap(), Shape::new(vec![]));
    assert_eq!(ret.shape(&g).unwrap(), Shape::new(vec![]));
    assert_eq!(lhs.hardware(&g).unwrap(), hw.id());
    assert_eq!(rhs.hardware(&g).unwrap(), hw.id());
    assert_eq!(ret.hardware(&g).unwrap(), hw.id());

    assert_eq!(
        ret.calculate(&mut g).unwrap().to_scalar(),
        Ok(Rational::new(1, 2).unwrap())
    );
}

#[test]
fn test_fill_scalar() {
    let hw = Hardware::new(0);
    let mut g = Graph::new(0);
    let ret = Node::fill(&hw, &mut g, Shape::new(vec![]), Rational::from_int(123)).unwrap();
    assert_eq!(ret.shape(&g).unwrap(), Shape::new(vec![]));
    assert_eq!(ret.hardware(&g).unwrap(), hw.id());
    assert_eq!(ret.calculate(&mut g).unwrap().to_scalar(), Ok(Rational::from_int(123)));
}

#[test]
fn test_fill_0() {
    let hw = Hardware::new(0);
    let mut g = Graph::new(0);
    let ret = Node::fill(&hw, &mut g, Shape::new(vec![0]), Rational::from_int(123)).unwrap();
    assert_eq!(ret.shape(&g).unwrap(), Shape::new(vec![0]));
    assert_eq!(ret.hardware(&g).unwrap(), hw.id());
    assert_eq!(ret.calculate(&mut g).unwrap().get_values(), Vec::<Rational>::new());
}

#[test]
fn test_fill_n() {
    let hw = Hardware::new(0);
    let mut g = Graph::new(0);
    let ret = Node::fill(&hw, &mut g, Shape::new(vec![3]), Rational::from_int(123)).unwrap();
    assert_eq!(ret.shape(&g).unwrap(), Shape::new(vec![3]));
    assert_eq!(ret.hardware(&g).unwrap(), hw.id());
    assert_eq!(
        ret.calculate(&mut g).unwrap().get_values(),
        vec![
            Rational::from_int(123),
            Rational::from_int(123),
            Rational::from_int(123)
        ]
    );
}

#[test]
fn tests_test_multiple_computation() {
    let hw = Hardware::new(0);
    let mut g = Graph::new(0);
    let a = Node::from_scalar(&hw, &mut g, Rational::from_int(1));
    let b = Node::from_scalar(&hw, &mut g, Rational::from_int(2));
    let c = Node::from_scalar(&hw, &mut g, Rational::from_int(3));
    let nb = b.neg(&mut g).unwrap();
    let y = a.add(nb.mul(c, &mut g).unwrap(), &mut g).unwrap();

    assert_eq!(a.shape(&g).unwrap(), Shape::new(vec![]));
    assert_eq!(b.shape(&g).unwrap(), Shape::new(vec![]));
    assert_eq!(c.shape(&g).unwrap(), Shape::new(vec![]));
    assert_eq!(y.shape(&g).unwrap(), Shape::new(vec![]));
    assert_eq!(a.hardware(&g).unwrap(), hw.id());
    assert_eq!(b.hardware(&g).unwrap(), hw.id());
    assert_eq!(c.hardware(&g).unwrap(), hw.id());
    assert_eq!(y.hardware(&g).unwrap(), hw.id());

    assert_eq!(y.calculate(&mut g).unwrap().to_scalar(), Ok(Rational::from_int(-5)));
}

#[test]
fn test_grad_self() {
    let hw = Hardware::new(0);
    let mut g = Graph::new(0);
    let x = Node::from_scalar(&hw, &mut g, Rational::from_int(42));

    let gx = grad(&mut g, x, &[x]).unwrap();
    assert_eq!(gx.len(), 1);

    assert_eq!(gx[0].shape(&g).unwrap(), Shape::new(vec![]));
    assert_eq!(gx[0].hardware(&g).unwrap(), hw.id());
    assert_eq!(gx[0].calculate(&mut g).unwrap().to_scalar(), Ok(Rational::from_int(1)));
}

#[test]
fn test_grad_unrelated() {
    let hw = Hardware::new(0);
    let mut g = Graph::new(0);
    let x = Node::from_scalar(&hw, &mut g, Rational::from_int(42));
    let y = Node::from_scalar(&hw, &mut g, Rational::from_int(42));

    let gx = grad(&mut g, y, &[x]).unwrap();
    assert_eq!(gx.len(), 1);

    assert_eq!(gx[0].shape(&g).unwrap(), Shape::new(vec![]));
    assert_eq!(gx[0].hardware(&g).unwrap(), hw.id());
    assert_eq!(gx[0].calculate(&mut g).unwrap().to_scalar(), Ok(Rational::from_int(0)));
}

#[test]
fn test_grad_neg() {
    let hw = Hardware::new(0);
    let mut g = Graph::new(0);
    let x = Node::from_scalar(&hw, &mut g, Rational::from_int(42));
    let y = x.neg(&mut g).unwrap();

    let gx = grad(&mut g, y, &[x]).unwrap();
    assert_eq!(gx.len(), 1);

    assert_eq!(gx[0].shape(&g).unwrap(), Shape::new(vec![]));
    assert_eq!(gx[0].hardware(&g).unwrap(), hw.id());
    assert_eq!(gx[0].calculate(&mut g).unwrap().to_scalar(), Ok(Rational::from_int(-1)));
}

#[test]
fn test_grad_add() {
    let hw = Hardware::new(0);
    let mut g = Graph::new(0);
    let a = Node::from_scalar(&hw, &mut g, Rational::from_int(123));
    let b = Node::from_scalar(&hw, &mut g, Rational::from_int(456));
    let y = a.add(b, &mut g).unwrap();

    let gx = grad(&mut g, y, &[a, b]).unwrap();
    assert_eq!(gx.len(), 2);

    assert_eq!(gx[0].shape(&g).unwrap(), Shape::new(vec![]));
    assert_eq!(gx[0].hardware(&g).unwrap(), hw.id());
    assert_eq!(gx[0].calculate(&mut g).unwrap().to_scalar(), Ok(Rational::from_int(1)));

    assert_eq!(gx[1].shape(&g).unwrap(), Shape::new(vec![]));
    assert_eq!(gx[1].hardware(&g).unwrap(), hw.id());
    assert_eq!(gx[1].calculate(&mut g).unwrap().to_scalar(), Ok(Rational::from_int(1)));
}

#[test]
fn test_grad_sub() {
    let hw = Hardware::new(0);
    let mut g = Graph::new(0);
    let a = Node::from_scalar(&hw, &mut g, Rational::from_int(123));
    let b = Node::from_scalar(&hw, &mut g, Rational::from_int(456));
    let y = a.sub(b, &mut g).unwrap();

    let gx = grad(&mut g, y, &[a, b]).unwrap();
    assert_eq!(gx.len(), 2);

    assert_eq!(gx[0].shape(&g).unwrap(), Shape::new(vec![]));
    assert_eq!(gx[0].hardware(&g).unwrap(), hw.id());
    assert_eq!(gx[0].calculate(&mut g).unwrap().to_scalar(), Ok(Rational::from_int(1)));

    assert_eq!(gx[1].shape(&g).unwrap(), Shape::new(vec![]));
    assert_eq!(gx[1].hardware(&g).unwrap(), hw.id());
    assert_eq!(gx[1].calculate(&mut g).unwrap().to_scalar(), Ok(Rational::from_int(-1)));
}

#[test]
fn test_grad_mul() {
    let hw = Hardware::new(0);
    let mut g = Graph::new(0);
    let a = Node::from_scalar(&hw, &mut g, Rational::from_int(123));
    let b = Node::from_scalar(&hw, &mut g, Rational::from_int(456));
    let y = a.mul(b, &mut g).unwrap();

    let gx = grad(&mut g, y, &[a, b]).unwrap();
    assert_eq!(gx.len(), 2);

    assert_eq!(gx[0].shape(&g).unwrap(), Shape::new(vec![]));
    assert_eq!(gx[0].hardware(&g).unwrap(), hw.id());
    assert_eq!(gx[0].calculate(&mut g).unwrap().to_scalar(), Ok(Rational::from_int(456)));

    assert_eq!(gx[1].shape(&g).unwrap(), Shape::new(vec![]));
    assert_eq!(gx[1].hardware(&g).unwrap(), hw.id());
    assert_eq!(gx[1].calculate(&mut g).unwrap().to_scalar(), Ok(Rational::from_int(123)));
}

#[test]
fn test_grad_div() {
    let hw = Hardware::new(0);
    let mut g = Graph::new(0);
    let a = Node::from_scalar(&hw, &mut g, Rational::from_int(3));
    let b = Node::from_scalar(&hw, &mut g, Rational::from_int(2));
    let y = a.div(b, &mut g).unwrap();

    let gx = grad(&mut g, y, &[a, b]).unwrap();
    assert_eq!(gx.len(), 2);

    assert_eq!(gx[0].shape(&g).unwrap(), Shape::new(vec![]));
    assert_eq!(gx[0].hardware(&g).unwrap(), hw.id());
    // dy/da == 1/b
    assert!(gx[0]
        .calculate(&mut g)
        .unwrap()
        .to_scalar()
        .unwrap()
        .eq_value(&Rational::new(1, 2).unwrap()));

    assert_eq!(gx[1].shape(&g).unwrap(), Shape::new(vec![]));
    assert_eq!(gx[1].hardware(&g).unwrap(), hw.id());
    // dy/db == -a/b^2
    assert!(gx[1]
        .calculate(&mut g)
        .unwrap()
        .to_scalar()
        .unwrap()
        .eq_value(&Rational::new(-3, 4).unwrap()));
}
