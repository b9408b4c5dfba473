use join_it::{join_it, JoinIt, Joinable};

#[test]
fn internal_iterator() {
    let v = vec![(0, 'a'), (1, 'b'), (2, 'c')];
    let it = v.iter(); // Iterator returning &({int}, char).

    let w = vec![66, 77, 88];
    let it2 = w.iter().enumerate(); // Iterator returning ({int}, &{int}).

    let mut r = vec![];
    join_it(it, it2, |&(x, _)| x, |(x, _)| x, |&(_, a), (_, b)| {
        r.push((a, *b));
    });

    assert_eq!(vec![('a', 66), ('b', 77), ('c', 88)], r);
}

#[test]
fn move_iterators() {
    let v = vec!['a', 'b', 'c'];
    let it = v.iter().enumerate();

    let w = vec![66, 77, 88];
    let it2 = w.iter().enumerate();

    let joined = it.join(it2, |(x, _)| x, |(x, _)| x).collect();
    let r: Vec<(char, u32)> = joined.into_iter().map(|((_, a), (_, b))| (*a, *b)).collect();

    assert_eq!(vec![('a', 66), ('b', 77), ('c', 88)], r);
}

#[test]
fn referencing_iterators() {
    let v = vec![(0, 'a'), (1, 'b'), (2, 'c')];
    let it = v.iter();

    let w = vec![(0, 66), (1, 77), (2, 88)];
    let it2 = w.iter();

    let joined = it.join(it2, |&(x, _)| x, |&(x, _)| x).collect();
    let r: Vec<(char, u32)> = joined.into_iter().map(|(&(_, a), &(_, b))| (a, b)).collect();

    assert_eq!(vec![('a', 66), ('b', 77), ('c', 88)], r);
}

#[test]
fn key_jumping() {
    let v = vec![(1, 'b'), (2, 'c'), (3, 'd')];
    let it = v.iter();

    let w = vec![(0, 66), (1, 77), (3, 99), (4, 11)];
    let it2 = w.iter();

    let joined = it.join(it2, |&(x, _)| x, |&(x, _)| x).collect();
    let r: Vec<(char, u32)> = joined.into_iter().map(|(&(_, a), &(_, b))| (a, b)).collect();

    assert_eq!(vec![('b', 77), ('d', 99)], r);
}

#[test]
fn into_iter_consumption() {
    let v = vec![(1, 'b'), (2, 'c'), (3, 'd')];

    let w = vec![(0, 66), (1, 77), (3, 99), (4, 11)];

    // Join v & w 'directly', moving their elements.
    let joined = v.into_iter().join(w.into_iter(), |(x, _)| x, |(x, _)| x).collect();
    let r: Vec<(char, u32)> = joined.into_iter().map(|((_, a), (_, b))| (a, b)).collect();

    assert_eq!(vec![('b', 77), ('d', 99)], r);
}

struct A {
    key: u32,
    c: char,
}

struct B {
    key: u32,
    i: i32,
}

#[test]
fn keys_in_structs() {
    let v = vec![A { key: 0, c: 'a' }, A { key: 1, c: 'b' }, A { key: 2, c: 'c' }];
    let w = vec![B { key: 1, i: 10 }, B { key: 2, i: 22 }, B { key: 3, i: 33 }];

    let joined = v.iter().join(w.iter(), |&A { key, .. }| key, |&B { key, .. }| key).collect();
    let r: Vec<(char, i32)> = joined.into_iter().map(|(&A { c, .. }, &B { i, .. })| (c, i)).collect();

    assert_eq!(vec![('b', 10), ('c', 22)], r);
}

fn pull_all(v: &[u32], w: &[u32]) -> Vec<(u32, u32)> {
    let mut c = JoinIt::new(v.iter().copied(), w.iter().copied(), |x: u32| x, |x: u32| x);
    let mut out = Vec::new();
    while let Some(p) = c.next() {
        out.push(p);
    }
    out
}

fn push_all(v: &[u32], w: &[u32]) -> Vec<(u32, u32)> {
    let mut out = Vec::new();
    join_it(v.iter().copied(), w.iter().copied(), |x: u32| x, |x: u32| x, |a, b| out.push((a, b)));
    out
}

#[test]
fn disjoint_keys_give_no_pairs() {
    assert_eq!(pull_all(&[1, 3, 5, 7], &[0, 2, 4, 6, 8]), vec![]);
    assert_eq!(push_all(&[1, 3, 5, 7], &[0, 2, 4, 6, 8]), vec![]);
    assert_eq!(pull_all(&[10, 11], &[1, 2, 3]), vec![]);
}

#[test]
fn aligned_keys_pair_by_position() {
    let v = vec![(2, 'x'), (5, 'y'), (9, 'z')];
    let w = vec![(2, 20), (5, 50), (9, 90)];
    let r: Vec<(char, i32)> = v
        .iter()
        .join(w.iter(), |&(k, _)| k, |&(k, _)| k)
        .collect()
        .into_iter()
        .map(|(&(_, a), &(_, b))| (a, b))
        .collect();
    assert_eq!(r, vec![('x', 20), ('y', 50), ('z', 90)]);
}

#[test]
fn pull_stays_exhausted() {
    let v = vec![1u32, 2];
    let w = vec![2u32, 3, 4, 5];
    let mut c = v.iter().copied().join(w.iter().copied(), |x: u32| x, |x: u32| x);
    assert_eq!(c.next(), Some((2, 2)));
    assert_eq!(c.next(), None);
    for _ in 0..5 {
        assert_eq!(c.next(), None);
    }
}

#[test]
fn pull_exhausted_from_the_start() {
    let v: Vec<u32> = vec![];
    let w = vec![1u32];
    let mut c = v.iter().copied().join(w.iter().copied(), |x: u32| x, |x: u32| x);
    assert_eq!(c.next(), None);
    assert_eq!(c.next(), None);
}

#[test]
fn push_and_pull_agree() {
    let cases: Vec<(Vec<u32>, Vec<u32>)> = vec![
        (vec![1, 2, 3], vec![0, 1, 3, 4]),
        (vec![1, 1, 2, 5], vec![1, 1, 1, 5, 5]),
        (vec![], vec![1, 2]),
        (vec![0, 4, 8, 12], vec![2, 4, 6, 8, 10, 12, 14]),
        (vec![3, 1, 2], vec![1, 2, 3]),
    ];
    for (v, w) in cases {
        assert_eq!(push_all(&v, &w), pull_all(&v, &w));
    }
}

#[test]
fn key_jumping_keys() {
    assert_eq!(pull_all(&[1, 2, 3], &[0, 1, 3, 4]), vec![(1, 1), (3, 3)]);
    assert_eq!(push_all(&[1, 2, 3], &[0, 1, 3, 4]), vec![(1, 1), (3, 3)]);
}

#[test]
fn empty_inputs_give_no_pairs() {
    assert_eq!(pull_all(&[], &[1, 2, 3]), vec![]);
    assert_eq!(pull_all(&[1, 2, 3], &[]), vec![]);
    assert_eq!(pull_all(&[], &[]), vec![]);
    assert_eq!(push_all(&[], &[1, 2, 3]), vec![]);
    assert_eq!(push_all(&[1, 2, 3], &[]), vec![]);
    assert_eq!(push_all(&[], &[]), vec![]);
}

#[test]
fn duplicate_keys_pair_one_to_one() {
    // Runs of equal keys pair up by position, not as a cross product.
    assert_eq!(pull_all(&[1, 1, 2], &[1, 1, 1, 2]), vec![(1, 1), (1, 1), (2, 2)]);
    assert_eq!(pull_all(&[4, 4, 4], &[4]), vec![(4, 4)]);
}

#[test]
fn each_key_is_extracted_once() {
    let calls = std::cell::Cell::new(0u32);
    let v = vec![1u32, 2, 3, 4, 5];
    let w = vec![5u32];
    let r = v
        .iter()
        .copied()
        .join(
            w.iter().copied(),
            |x: u32| {
                calls.set(calls.get() + 1);
                x
            },
            |x: u32| {
                calls.set(calls.get() + 1);
                x
            },
        )
        .collect();
    assert_eq!(r, vec![(5, 5)]);
    assert_eq!(calls.get(), 6);
}
