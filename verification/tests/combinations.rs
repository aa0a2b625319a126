use competitive::algorithm::{combinations, combinations_with_replacement, permutations, product};

#[test]
fn product_runs_through_all_words() {
    let n = vec![1, 2, 3, 4];
    let p = product(n.as_slice(), 2);
    let mut q = Vec::new();
    for x in n.iter().cloned() {
        for y in n.iter().cloned() {
            q.push(vec![x, y]);
        }
    }
    assert_eq!(p, q);
    assert_eq!(product(&n, 0), vec![Vec::<i32>::new()]);
    assert_eq!(product(&n, 5), Vec::<Vec<i32>>::new());
    assert_eq!(product(&n, 4).len(), 256);
    assert_eq!(product(&n, 1), vec![vec![1], vec![2], vec![3], vec![4]]);
}

#[test]
fn permutations_take_no_place_twice() {
    let n = vec![1, 2, 3, 4];
    let p = permutations(n.as_slice(), 2);
    let mut q = Vec::new();
    for (i, x) in n.iter().cloned().enumerate() {
        for (j, y) in n.iter().cloned().enumerate() {
            if i != j {
                q.push(vec![x, y]);
            }
        }
    }
    assert_eq!(p, q);
    assert_eq!(permutations(&n, 4).len(), 24);
    assert_eq!(permutations(&n, 4)[0], vec![1, 2, 3, 4]);
    assert_eq!(permutations(&n, 4)[23], vec![4, 3, 2, 1]);
    assert_eq!(permutations(&n, 5), Vec::<Vec<i32>>::new());
    assert_eq!(permutations(&[7, 7], 2), vec![vec![7, 7], vec![7, 7]]);
}

#[test]
fn combinations_rise() {
    let n = vec![1, 2, 3, 4];
    let p = combinations(n.as_slice(), 2);
    let mut q = Vec::new();
    for (i, x) in n.iter().cloned().enumerate() {
        for y in n[i + 1..].iter().cloned() {
            q.push(vec![x, y]);
        }
    }
    assert_eq!(p, q);
    assert_eq!(combinations(&n, 4), vec![vec![1, 2, 3, 4]]);
    assert_eq!(combinations(&n, 3).len(), 4);
    assert_eq!(combinations(&n, 0), vec![Vec::<i32>::new()]);
    assert_eq!(combinations(&n, 5), Vec::<Vec<i32>>::new());
}

#[test]
fn combinations_with_replacement_do_not_fall() {
    let n = vec![1, 2, 3, 4];
    let p = combinations_with_replacement(n.as_slice(), 2);
    let mut q = Vec::new();
    for (i, x) in n.iter().cloned().enumerate() {
        for y in n[i..].iter().cloned() {
            q.push(vec![x, y]);
        }
    }
    assert_eq!(p, q);
    assert_eq!(combinations_with_replacement(&n, 3).len(), 20);
    assert_eq!(combinations_with_replacement(&n, 5), Vec::<Vec<i32>>::new());
}
