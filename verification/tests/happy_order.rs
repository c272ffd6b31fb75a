use attohttpc::happy::{attempt_order, intertwine};

#[test]
fn test_intertwine_even() {
    let x: Vec<u32> = intertwine(vec![1, 2, 3], vec![4, 5, 6]);
    assert_eq!(&x[..], &[1, 4, 2, 5, 3, 6][..]);
}

#[test]
fn test_intertwine_left() {
    let x: Vec<u32> = intertwine(vec![1, 2, 3, 100, 101], vec![4, 5, 6]);
    assert_eq!(&x[..], &[1, 4, 2, 5, 3, 6, 100, 101][..]);
}

#[test]
fn test_intertwine_right() {
    let x: Vec<u32> = intertwine(vec![1, 2, 3], vec![4, 5, 6, 100, 101]);
    assert_eq!(&x[..], &[1, 4, 2, 5, 3, 6, 100, 101][..]);
}

#[test]
fn intertwine_with_an_empty_side() {
    let x: Vec<u32> = intertwine(vec![], vec![7, 8]);
    assert_eq!(x, vec![7, 8]);
    let y: Vec<u32> = intertwine(vec![7, 8], vec![]);
    assert_eq!(y, vec![7, 8]);
}

#[test]
fn attempt_order_puts_ipv6_first() {
    // addresses 0 and 2 are IPv4, 1 and 3 are IPv6
    let order = attempt_order(&vec![false, true, false, true]);
    assert_eq!(order, vec![1, 0, 3, 2]);
    let only4 = attempt_order(&vec![false, false]);
    assert_eq!(only4, vec![0, 1]);
}
