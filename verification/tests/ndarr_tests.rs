use ndindex::ndarr::{Order, VecNDArray};
use ndindex::traits::BoundedIndexable;

#[test]
fn order_rowmaj() {
    let order = Order::RowMajor;
    let shape = vec![5, 3];
    assert_eq!(order.index(&shape, &vec![0, 0]).unwrap(), 0);
    assert_eq!(order.index(&shape, &vec![0, 1]).unwrap(), 1);
    assert_eq!(order.index(&shape, &vec![1, 0]).unwrap(), 3);
    assert_eq!(order.index(&shape, &vec![10, 10]), None);
}

#[test]
fn order_colmaj() {
    let order = Order::ColumnMajor;
    let shape = vec![5, 3];
    assert_eq!(order.index(&shape, &vec![0, 0]).unwrap(), 0);
    assert_eq!(order.index(&shape, &vec![0, 1]).unwrap(), 5);
    assert_eq!(order.index(&shape, &vec![1, 0]).unwrap(), 1);
    assert_eq!(order.index(&shape, &vec![10, 10]), None);
}

#[test]
fn nd_rowmaj() {
    let order = Order::RowMajor;
    let shape = vec![5, 3];
    let numel: usize = shape.iter().product();
    let data: Vec<usize> = (0..numel).map(|v| v * 10).collect();
    let arr = VecNDArray::new(data, shape, order).unwrap();

    assert_eq!(arr.get(&vec![0, 0]).unwrap(), 0);
    assert_eq!(arr.get(&vec![0, 1]).unwrap(), 10);
    assert_eq!(arr.get(&vec![1, 0]).unwrap(), 30);
    assert_eq!(arr.get(&vec![10, 10]), None);
}

#[test]
fn nd_colmaj() {
    let order = Order::ColumnMajor;
    let shape = vec![5, 3];
    let numel: usize = shape.iter().product();
    let data: Vec<usize> = (0..numel).map(|v| v * 10).collect();
    let arr = VecNDArray::new(data, shape, order).unwrap();

    assert_eq!(arr.get(&vec![0, 0]).unwrap(), 0);
    assert_eq!(arr.get(&vec![0, 1]).unwrap(), 50);
    assert_eq!(arr.get(&vec![1, 0]).unwrap(), 10);
    assert_eq!(arr.get(&vec![10, 10]), None);
}

#[test]
fn construction_errors() {
    let zero_axis = VecNDArray::<i32>::new(vec![], vec![0, 5], Order::RowMajor);
    assert_eq!(zero_axis.err(), Some("Zero-dimensional axis"));

    let mismatch = VecNDArray::new(vec![1, 2, 3], vec![2, 2], Order::RowMajor);
    assert_eq!(mismatch.err(), Some("Shape does not match underlying data"));

    let ok = VecNDArray::new(vec![1, 2, 3, 4], vec![2, 2], Order::RowMajor);
    assert!(ok.is_ok());
}

#[test]
fn bounds_reports_extent() {
    let arr = VecNDArray::new(vec![0; 15], vec![5, 3], Order::RowMajor).unwrap();
    assert_eq!(arr.bounds(), vec![(0, 5), (0, 3)]);

    let one = VecNDArray::new(vec![7], vec![1], Order::ColumnMajor).unwrap();
    assert_eq!(one.bounds(), vec![(0, 1)]);
}

#[test]
fn nd_three_axes() {
    let order = Order::RowMajor;
    let shape = vec![2, 3, 4];
    let numel: usize = shape.iter().product();
    let data: Vec<usize> = (0..numel).collect();
    let arr = VecNDArray::new(data, shape, order).unwrap();

    assert_eq!(arr.get(&vec![0, 0, 0]).unwrap(), 0);
    assert_eq!(arr.get(&vec![0, 0, 3]).unwrap(), 3);
    assert_eq!(arr.get(&vec![0, 1, 0]).unwrap(), 4);
    assert_eq!(arr.get(&vec![1, 0, 0]).unwrap(), 12);
    assert_eq!(arr.get(&vec![1, 2, 3]).unwrap(), 23);
    assert_eq!(arr.get(&vec![1, 2, 4]), None);
}
