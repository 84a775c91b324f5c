use teka::rng::Rng;

#[test]
fn determinismo_por_semente() {
    let a: Vec<u64> = (0..8).map(|_| Rng::new(42).next_u64()).collect();
    let mut r = Rng::new(42);
    assert!(a.iter().all(|&x| x == a[0]));
    assert_eq!(r.next_u64(), a[0]);
}

#[test]
fn a_sequencia_da_semente_42_e_esta() {
    let mut r = Rng::new(42);
    assert_eq!(r.next_u64(), 4447118735901508024);
    assert_eq!(r.next_u64(), 1235227598938843130);
    let mut z = Rng::new(0);
    assert_eq!(z.next_u64(), 7255456701427781782);
}

#[test]
fn sementes_diferentes_dao_valores_diferentes() {
    assert_ne!(Rng::new(1).next_u64(), Rng::new(2).next_u64());
}
