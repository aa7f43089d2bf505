use meridian::ga::basis_product;

const E0: u8 = 0b0001;
const E1: u8 = 0b0010;
const E2: u8 = 0b0100;
const E3: u8 = 0b1000;

#[test]
fn basis_vectors_square_by_the_metric() {
    assert_eq!(basis_product(E1, E1), (1, 0));
    assert_eq!(basis_product(E2, E2), (1, 0));
    assert_eq!(basis_product(E3, E3), (1, 0));
    assert_eq!(basis_product(E0, E0), (0, 0));
}

#[test]
fn distinct_basis_vectors_anticommute() {
    assert_eq!(basis_product(E1, E2), (1, E1 | E2));
    assert_eq!(basis_product(E2, E1), (-1, E1 | E2));
    assert_eq!(basis_product(E0, E1), (1, E0 | E1));
    assert_eq!(basis_product(E3, E0), (-1, E0 | E3));
}

#[test]
fn higher_blades() {
    let e12 = E1 | E2;
    let e123 = E1 | E2 | E3;
    assert_eq!(basis_product(e12, e12), (-1, 0));
    assert_eq!(basis_product(e123, e123), (-1, 0));
    assert_eq!(basis_product(e12, E3), (1, e123));
    assert_eq!(basis_product(E3, e12), (1, e123));
    assert_eq!(basis_product(E0 | E1, E0 | E2), (0, 0));
    assert_eq!(basis_product(0, e123), (1, e123));
}
