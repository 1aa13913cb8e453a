use anneml::domain::Domain;
use anneml::scope::Scope;
use anneml::tensor::{Array, Dims, Origin, Tensor};
use anneml::edges::NodeRange;

#[test]
fn window_clipped_at_high_end() {
    let d = Domain::new(&Scope::new(0, 1), 5, 6);
    assert_eq!((0, 5, 5, 5, 1), d.domain_data());
}

#[test]
fn selective_merge_keeps_only_named() {
    let x = Array { dims: Dims { d0: 1, d1: 2, d2: 1, d3: 1 }, origin: Origin::Supplied(1) };
    let y = Array { dims: Dims { d0: 1, d1: 3, d2: 1, d3: 1 }, origin: Origin::Supplied(2) };
    let source = Tensor::new(&[("a", x), ("b", y)]);
    let mut target = Tensor::empty();
    target.merge(&source, &NodeRange::Selective(vec!["a".to_string()]));
    assert_eq!(target.get("a"), Some(x));
    assert_eq!(target.get("b"), None);
    assert_eq!(target.names(), vec!["a".to_string()]);
}

