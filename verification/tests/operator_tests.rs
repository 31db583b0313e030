use tensor_graph::array::Array;
use tensor_graph::hardware::Hardware;
use tensor_graph::operator::Operator;
use tensor_graph::rational::Rational;
use tensor_graph::shape::Shape;

#[test]
fn constant_test_properties() {
    let hw = Hardware::new(0);
    let op = Operator::constant(Array::scalar(&hw, Rational::from_int(123)));
    assert_eq!(op.name(), "Constant");
    assert_eq!(op.input_size(), 0);
}

#[test]
fn test_perform_shape_scalar() {
    let hw = Hardware::new(0);
    let op = Operator::constant(Array::scalar(&hw, Rational::from_int(123)));
    assert_eq!(op.perform_shape(&[]), Ok(Shape::new(vec![])));
}

#[test]
fn test_perform_shape_0() {
    let hw = Hardware::new(0);
    let op = Operator::constant(
        Array::constant(&hw, Shape::new(vec![0]), Rational::from_int(123)).unwrap(),
    );
    assert_eq!(op.perform_shape(&[]), Ok(Shape::new(vec![0])));
}

#[test]
fn test_perform_shape_n() {
    let hw = Hardware::new(0);
    let op = Operator::constant(
        Array::constant(&hw, Shape::new(vec![3]), Rational::from_int(123)).unwrap(),
    );
    assert_eq!(op.perform_shape(&[]), Ok(Shape::new(vec![3])));
}

#[test]
fn constant_test_perform_hardware() {
    let hw = Hardware::new(7);
    let op = Operator::constant(Array::scalar(&hw, Rational::from_int(123)));
    assert_eq!(op.perform_hardware(&[]).unwrap(), hw.id());
}

#[test]
fn constant_test_perform() {
    let hw = Hardware::new(0);
    let op = Operator::constant(Array::scalar(&hw, Rational::from_int(123)));
    let expected = Array::scalar(&hw, Rational::from_int(123));
    let observed = op.perform(&[]).unwrap();
    assert_eq!(observed.shape(), expected.shape());
    assert_eq!(observed.to_scalar(), expected.to_scalar());
}

#[test]
fn div_test_properties() {
    let op = Operator::Div;
    assert_eq!(op.name(), "Div");
    assert_eq!(op.input_size(), 2);
}

#[test]
fn div_test_perform_shape() {
    let op = Operator::Div;
    assert_eq!(
        op.perform_shape(&[Shape::new(vec![]), Shape::new(vec![])]),
        Ok(Shape::new(vec![]))
    );
    assert_eq!(
        op.perform_shape(&[Shape::new(vec![0]), Shape::new(vec![0])]),
        Ok(Shape::new(vec![0]))
    );
    assert_eq!(
        op.perform_shape(&[Shape::new(vec![3]), Shape::new(vec![3])]),
        Ok(Shape::new(vec![3]))
    );
}

#[test]
fn div_test_perform_shape_invalid() {
    let op = Operator::Div;
    assert!(op.perform_shape(&[Shape::new(vec![]), Shape::new(vec![0])]).is_err());
    assert!(op.perform_shape(&[Shape::new(vec![]), Shape::new(vec![3])]).is_err());
    assert!(op.perform_shape(&[Shape::new(vec![0]), Shape::new(vec![])]).is_err());
    assert!(op.perform_shape(&[Shape::new(vec![0]), Shape::new(vec![3])]).is_err());
    assert!(op.perform_shape(&[Shape::new(vec![3]), Shape::new(vec![])]).is_err());
    assert!(op.perform_shape(&[Shape::new(vec![3]), Shape::new(vec![0])]).is_err());
}

#[test]
fn div_test_perform_hardware() {
    let hw1 = Hardware::new(1);
    let hw2 = Hardware::new(2);
    let op = Operator::Div;
    assert_eq!(op.perform_hardware(&[hw1.id(), hw1.id()]).unwrap(), hw1.id());
    assert_eq!(op.perform_hardware(&[hw2.id(), hw2.id()]).unwrap(), hw2.id());
    assert!(op.perform_hardware(&[hw1.id(), hw2.id()]).is_err());
}

#[test]
fn div_test_perform() {
    let hw = Hardware::new(0);
    let op = Operator::Div;
    let lhs = Array::scalar(&hw, Rational::from_int(1));
    let rhs = Array::scalar(&hw, Rational::from_int(2));
    let expected = Rational::new(1, 2).unwrap();
    let observed = op.perform(&[lhs, rhs]).unwrap();
    assert_eq!(*observed.shape(), Shape::new(vec![]));
    assert_eq!(observed.to_scalar(), Ok(expected));
}

#[test]
fn neg_test_properties() {
    let op = Operator::Neg;
    assert_eq!(op.name(), "Neg");
    assert_eq!(op.input_size(), 1);
}

#[test]
fn neg_test_perform_shape() {
    let op = Operator::Neg;
    assert_eq!(op.perform_shape(&[Shape::new(vec![])]), Ok(Shape::new(vec![])));
    assert_eq!(op.perform_shape(&[Shape::new(vec![0])]), Ok(Shape::new(vec![0])));
    assert_eq!(op.perform_shape(&[Shape::new(vec![3])]), Ok(Shape::new(vec![3])));
}

#[test]
fn neg_test_perform_hardware() {
    let hw = Hardware::new(5);
    let op = Operator::Neg;
    assert_eq!(op.perform_hardware(&[hw.id()]).unwrap(), hw.id());
}

#[test]
fn neg_test_perform() {
    let hw = Hardware::new(0);
    let op = Operator::Neg;
    let input = Array::scalar(&hw, Rational::from_int(42));
    let observed = op.perform(&[input]).unwrap();
    assert_eq!(*observed.shape(), Shape::new(vec![]));
    assert_eq!(observed.to_scalar(), Ok(Rational::from_int(-42)));
}

#[test]
fn sub_test_properties() {
    let op = Operator::Sub;
    assert_eq!(op.name(), "Sub");
    assert_eq!(op.input_size(), 2);
}

#[test]
fn sub_test_perform_shape() {
    let op = Operator::Sub;
    assert_eq!(
        op.perform_shape(&[Shape::new(vec![]), Shape::new(vec![])]),
        Ok(Shape::new(vec![]))
    );
    assert_eq!(
        op.perform_shape(&[Shape::new(vec![0]), Shape::new(vec![0])]),
        Ok(Shape::new(vec![0]))
    );
    assert_eq!(
        op.perform_shape(&[Shape::new(vec![3]), Shape::new(vec![3])]),
        Ok(Shape::new(vec![3]))
    );
}

#[test]
fn sub_test_perform_shape_invalid() {
    let op = Operator::Sub;
    assert!(op.perform_shape(&[Shape::new(vec![]), Shape::new(vec![0])]).is_err());
    assert!(op.perform_shape(&[Shape::new(vec![]), Shape::new(vec![3])]).is_err());
    assert!(op.perform_shape(&[Shape::new(vec![0]), Shape::new(vec![])]).is_err());
    assert!(op.perform_shape(&[Shape::new(vec![0]), Shape::new(vec![3])]).is_err());
    assert!(op.perform_shape(&[Shape::new(vec![3]), Shape::new(vec![])]).is_err());
    assert!(op.perform_shape(&[Shape::new(vec![3]), Shape::new(vec![0])]).is_err());
}

#[test]
fn sub_test_perform_hardware() {
    let hw1 = Hardware::new(1);
    let hw2 = Hardware::new(2);
    let op = Operator::Sub;
    assert_eq!(op.perform_hardware(&[hw1.id(), hw1.id()]).unwrap(), hw1.id());
    assert_eq!(op.perform_hardware(&[hw2.id(), hw2.id()]).unwrap(), hw2.id());
    assert!(op.perform_hardware(&[hw1.id(), hw2.id()]).is_err());
}

#[test]
fn sub_test_perform() {
    let hw = Hardware::new(0);
    let op = Operator::Sub;
    let lhs = Array::scalar(&hw, Rational::from_int(1));
    let rhs = Array::scalar(&hw, Rational::from_int(2));
    let observed = op.perform(&[lhs, rhs]).unwrap();
    assert_eq!(*observed.shape(), Shape::new(vec![]));
    assert_eq!(observed.to_scalar(), Ok(Rational::from_int(-1)));
}
