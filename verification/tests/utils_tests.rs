//! Random draws and their stated bounds.

use streets_sim::utils::{get_random_vector_element, random_velocity};

#[test]
fn velocity_stays_in_range() {
    for _ in 0..100 {
        let v = random_velocity(5, 8);
        assert!((5..=8).contains(&v));
    }
    assert_eq!(random_velocity(7, 7), 7);
}

#[test]
fn random_element_is_a_member() {
    let pool = vec![10usize, 20, 30];
    for _ in 0..50 {
        let x = get_random_vector_element(&pool).unwrap();
        assert!(pool.contains(x));
    }
    let empty: Vec<usize> = Vec::new();
    assert!(get_random_vector_element(&empty).is_none());
}
