use replication_kv::fib::{fib_iterative, fib_memoization, fib_recursive};

#[test]
fn test_fib_recursive() {
    assert_eq!(fib_recursive(0), 0);
    assert_eq!(fib_recursive(1), 1);
    assert_eq!(fib_recursive(2), 1);
    assert_eq!(fib_recursive(3), 2);
    assert_eq!(fib_recursive(4), 3);
    assert_eq!(fib_recursive(5), 5);
    assert_eq!(fib_recursive(6), 8);
    assert_eq!(fib_recursive(7), 13);
    assert_eq!(fib_recursive(8), 21);
    assert_eq!(fib_recursive(9), 34);
    assert_eq!(fib_recursive(10), 55);
}

#[test]
fn test_fib_memoization() {
    assert_eq!(fib_memoization(0), 0);
    assert_eq!(fib_memoization(1), 1);
    assert_eq!(fib_memoization(2), 1);
    assert_eq!(fib_memoization(3), 2);
    assert_eq!(fib_memoization(4), 3);
    assert_eq!(fib_memoization(5), 5);
    assert_eq!(fib_memoization(6), 8);
    assert_eq!(fib_memoization(7), 13);
    assert_eq!(fib_memoization(8), 21);
    assert_eq!(fib_memoization(9), 34);
    assert_eq!(fib_memoization(10), 55);
}

#[test]
fn test_fib_iterative() {
    assert_eq!(fib_iterative(0), 0);
    assert_eq!(fib_iterative(1), 1);
    assert_eq!(fib_iterative(2), 1);
    assert_eq!(fib_iterative(3), 2);
    assert_eq!(fib_iterative(4), 3);
    assert_eq!(fib_iterative(5), 5);
    assert_eq!(fib_iterative(6), 8);
    assert_eq!(fib_iterative(7), 13);
    assert_eq!(fib_iterative(8), 21);
    assert_eq!(fib_iterative(9), 34);
    assert_eq!(fib_iterative(10), 55);
}

#[test]
fn fib_largest_values_fit() {
    assert_eq!(fib_iterative(92), 7540113804746346429);
    assert_eq!(fib_memoization(93), 12200160415121876738);
}
