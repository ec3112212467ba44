use ndindex::adapt::{Adapter1D, Offset, Scale};
use ndindex::extend::{Extender, Extender1D, ExtenderType};
use ndindex::ndarr::{Order, VecNDArray};
use ndindex::traits::{BoundedIndexable, Fixed, UnboundedIndexable};
use ndindex::{
    AdaptingWrapper, RealIndexableWrapperNearest, UnboundedIndexableWrapperConstant,
    UnboundedIndexableWrapperExtend,
};

fn fx(v: f64) -> Fixed {
    Fixed::from_thousandths((v * 1000.0).round() as i64)
}

#[test]
fn regular_vec() {
    let v = vec![1, 2, 3, 4];
    assert!(v.get(0) == Some(&1));
    assert!(v.get(4) == None);
}

#[test]
fn wrapped_vec() {
    let b = VecNDArray::new(vec![1, 2, 3, 4], vec![4], Order::RowMajor).unwrap();
    assert!(b.get(&vec![0]) == Some(1));
    assert!(b.get(&vec![4]) == None);
}

#[test]
fn unbounded_vec_const() {
    let b = VecNDArray::new(vec![0, 1, 2, 3], vec![4], Order::RowMajor).unwrap();
    let u = UnboundedIndexableWrapperConstant::new(b, 10);
    assert_eq!(u.get(&vec![0]), 0);
    assert_eq!(u.get(&vec![4]), 10);
    assert_eq!(u.get(&vec![-1]), 10);
    u.get(&vec![1_000_000]);
    u.get(&vec![-1_000_000]);
}

#[test]
fn unbounded_vec_nearest() {
    let b = VecNDArray::new(vec![0, 1, 2, 3], vec![4], Order::RowMajor).unwrap();
    let len = b.data.len();
    let u = UnboundedIndexableWrapperExtend::new(b, Extender::new(&vec![len], ExtenderType::Nearest));
    assert_eq!(u.get(&vec![0]), 0);
    assert_eq!(u.get(&vec![4]), 3);
    assert_eq!(u.get(&vec![-1]), 0);
    u.get(&vec![1_000_000]);
    u.get(&vec![-1_000_000]);
}

#[test]
fn unbounded_vec_wrap() {
    let b = VecNDArray::new(vec![0, 1, 2, 3], vec![4], Order::RowMajor).unwrap();
    let len = b.data.len();
    let u = UnboundedIndexableWrapperExtend::new(b, Extender::new(&vec![len], ExtenderType::Wrap));
    assert_eq!(u.get(&vec![0]), 0);
    assert_eq!(u.get(&vec![4]), 0);
    assert_eq!(u.get(&vec![-1]), 3);
    u.get(&vec![1_000_000]);
    u.get(&vec![-1_000_000]);
}

#[test]
fn unbounded_vec_reflect() {
    let b = VecNDArray::new(vec![0, 1, 2, 3], vec![4], Order::RowMajor).unwrap();
    let len = b.data.len();
    let u = UnboundedIndexableWrapperExtend::new(b, Extender::new(&vec![len], ExtenderType::Reflect));
    assert_eq!(u.get(&vec![0]), 0);
    assert_eq!(u.get(&vec![4]), 3);
    assert_eq!(u.get(&vec![8]), 0);
    assert_eq!(u.get(&vec![-1]), 0);
    assert_eq!(u.get(&vec![-5]), 3);
    u.get(&vec![1_000_000]);
    u.get(&vec![-1_000_000]);
}

#[test]
fn real_vec() {
    let b = VecNDArray::new(vec![0, 1, 2, 3], vec![4], Order::RowMajor).unwrap();
    let u = UnboundedIndexableWrapperConstant::new(b, 10);
    let r = RealIndexableWrapperNearest::new(u);
    assert_eq!(r.get(&vec![fx(0.0)]), 0);
    assert_eq!(r.get(&vec![fx(2.4)]), 2);
    assert_eq!(r.get(&vec![fx(-1.0)]), 10);
}

#[test]
fn extender1d_total_range() {
    let lengths = [1usize, 2, 3, 4, 7, 1000];
    let coords = [
        -1_000_000i64,
        -999_999,
        -17,
        -5,
        -4,
        -1,
        0,
        1,
        3,
        4,
        8,
        999_999,
        1_000_000,
    ];
    let policies = [ExtenderType::Nearest, ExtenderType::Wrap, ExtenderType::Reflect];
    for &l in lengths.iter() {
        for &i in coords.iter() {
            for &p in policies.iter() {
                let e = Extender1D::new(l, p);
                let r = e.adapt(i);
                assert!(r < l);
            }
        }
    }
}

#[test]
fn nearest_axis_table() {
    let e = Extender1D::new(4, ExtenderType::Nearest);
    assert_eq!(e.adapt(-1_000_000), 0);
    assert_eq!(e.adapt(-1), 0);
    assert_eq!(e.adapt(0), 0);
    assert_eq!(e.adapt(3), 3);
    assert_eq!(e.adapt(4), 3);
    assert_eq!(e.adapt(1_000_000), 3);
}

#[test]
fn wrap_axis_table() {
    let e = Extender1D::new(4, ExtenderType::Wrap);
    assert_eq!(e.adapt(0), 0);
    assert_eq!(e.adapt(4), 0);
    assert_eq!(e.adapt(-1), 3);
    assert_eq!(e.adapt(8), 0);
    assert_eq!(e.adapt(-5), 3);
    assert_eq!(e.adapt(1_000_000), 0);
    assert_eq!(e.adapt(-1_000_000), 0);
}

#[test]
fn reflect_axis_table() {
    let e = Extender1D::new(4, ExtenderType::Reflect);
    assert_eq!(e.adapt(0), 0);
    assert_eq!(e.adapt(4), 3);
    assert_eq!(e.adapt(8), 0);
    assert_eq!(e.adapt(-1), 0);
    assert_eq!(e.adapt(-5), 3);
    assert_eq!(e.adapt(1_000_000), 0);
}

#[test]
fn fixed_rounding() {
    assert_eq!(Fixed::from_thousandths(0).round_nearest(), 0);
    assert_eq!(Fixed::from_thousandths(2400).round_nearest(), 2);
    assert_eq!(Fixed::from_thousandths(2500).round_nearest(), 3);
    assert_eq!(Fixed::from_thousandths(2600).round_nearest(), 3);
    assert_eq!(Fixed::from_thousandths(500).round_nearest(), 1);
    assert_eq!(Fixed::from_thousandths(-500).round_nearest(), -1);
    assert_eq!(Fixed::from_thousandths(-2500).round_nearest(), -3);
    assert_eq!(Fixed::from_thousandths(-1000).round_nearest(), -1);
}

#[test]
fn adapting_identity() {
    let b = VecNDArray::new(vec![0, 1, 2, 3], vec![4], Order::RowMajor).unwrap();
    let u = UnboundedIndexableWrapperConstant::new(b, 10);
    let s = AdaptingWrapper::new(u, Scale::new(vec![1]));
    assert_eq!(s.get(&vec![0]), 0);
    assert_eq!(s.get(&vec![2]), 2);
    assert_eq!(s.get(&vec![-1]), 10);
    assert_eq!(s.get(&vec![4]), 10);

    let b2 = VecNDArray::new(vec![0, 1, 2, 3], vec![4], Order::RowMajor).unwrap();
    let u2 = UnboundedIndexableWrapperConstant::new(b2, 10);
    let o = AdaptingWrapper::new(u2, Offset::new(vec![0]));
    assert_eq!(o.get(&vec![0]), 0);
    assert_eq!(o.get(&vec![3]), 3);
    assert_eq!(o.get(&vec![-2]), 10);
}

#[test]
fn adapting_scale_offset() {
    let b = VecNDArray::new(vec![0, 1, 2, 3], vec![4], Order::RowMajor).unwrap();
    let u = UnboundedIndexableWrapperConstant::new(b, 10);
    let s = AdaptingWrapper::new(u, Scale::new(vec![2]));
    assert_eq!(s.get(&vec![1]), 2);
    assert_eq!(s.get(&vec![2]), 10);

    let b2 = VecNDArray::new(vec![0, 1, 2, 3], vec![4], Order::RowMajor).unwrap();
    let u2 = UnboundedIndexableWrapperConstant::new(b2, 10);
    let o = AdaptingWrapper::new(u2, Offset::new(vec![1]));
    assert_eq!(o.get(&vec![2]), 3);
    assert_eq!(o.get(&vec![3]), 10);
    assert_eq!(o.get(&vec![-1]), 0);
}

#[test]
fn multiget_matches_get() {
    let b = VecNDArray::new(vec![0, 1, 2, 3], vec![4], Order::RowMajor).unwrap();
    let coords = vec![vec![0usize], vec![4], vec![2]];
    let outs = b.multiget(&coords);
    assert_eq!(outs.len(), coords.len());
    for (k, c) in coords.iter().enumerate() {
        assert_eq!(outs[k], b.get(c));
    }
    assert_eq!(outs, vec![Some(0), None, Some(2)]);

    let u = UnboundedIndexableWrapperConstant::new(b, 10);
    let ucoords = vec![vec![-1i64], vec![0], vec![7]];
    let uouts = u.multiget(&ucoords);
    assert_eq!(uouts.len(), ucoords.len());
    for (k, c) in ucoords.iter().enumerate() {
        assert_eq!(uouts[k], u.get(c));
    }
    assert_eq!(uouts, vec![10, 0, 10]);
}
