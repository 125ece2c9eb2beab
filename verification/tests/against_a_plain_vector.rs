use fifo_set::FIFOSet;

struct Lcg(u64);

impl Lcg {
    fn next(&mut self) -> u64 {
        self.0 = self.0.wrapping_mul(6364136223846793005).wrapping_add(1442695040888963407);
        self.0 >> 33
    }

    fn below(&mut self, n: u64) -> usize {
        (self.next() % n) as usize
    }
}

fn same(q: &FIFOSet<u16>, plain: &Vec<u16>) {
    assert_eq!(q.len(), plain.len());
    assert_eq!(q.is_empty(), plain.is_empty());
    assert_eq!(q.iter().copied().collect::<Vec<_>>(), *plain);
    assert_eq!(q.peek(), plain.first());
    assert!(q.capacity() >= plain.len());
    for i in 0..plain.len() + 2 {
        assert_eq!(q.get(i), plain.get(i));
    }
    for i in 0..plain.len() {
        assert_eq!(q[i], plain[i]);
    }
    for v in 0..24u16 {
        assert_eq!(q.contains(&v), plain.contains(&v));
    }
}

#[test]
fn long_run_behaves_like_a_vector_without_repeats() {
    let mut rng = Lcg(0x5eed);
    let mut q: FIFOSet<u16> = FIFOSet::new();
    let mut plain: Vec<u16> = Vec::new();
    for _ in 0..4000 {
        match rng.below(12) {
            0..=4 => {
                let v = rng.below(24) as u16;
                q.push(v);
                if !plain.contains(&v) {
                    plain.push(v);
                }
            }
            5 | 6 => {
                let expected = if plain.is_empty() { None } else { Some(plain.remove(0)) };
                assert_eq!(q.pop(), expected);
            }
            7 | 8 => {
                let i = rng.below(28);
                let expected = if i < plain.len() { Some(plain.remove(i)) } else { None };
                assert_eq!(q.remove(i), expected);
            }
            9 => {
                let (i, j) = (rng.below(28), rng.below(28));
                q.swap(i, j);
                if i < plain.len() && j < plain.len() {
                    plain.swap(i, j);
                }
            }
            10 => {
                let (start, end) = (rng.below(28), rng.below(28));
                let expected: Vec<u16> = if start <= end && end <= plain.len() {
                    plain[start..end].to_vec()
                } else {
                    Vec::new()
                };
                assert_eq!(q.range(start..end).copied().collect::<Vec<_>>(), expected);
            }
            _ => {
                if rng.below(8) == 0 {
                    q.clear();
                    plain.clear();
                } else {
                    let items: Vec<u16> = (0..rng.below(6)).map(|_| rng.below(24) as u16).collect();
                    for v in &items {
                        if !plain.contains(v) {
                            plain.push(*v);
                        }
                    }
                    q.extend(items.into_iter());
                    q.reserve(rng.below(40));
                }
            }
        }
        same(&q, &plain);
    }
}

#[test]
fn building_from_values_behaves_like_pushing_them() {
    let mut rng = Lcg(77);
    for round in 0..200 {
        let items: Vec<u16> = (0..round % 17).map(|_| rng.below(9) as u16).collect();
        let built = FIFOSet::from_iter(items.iter().copied());
        let mut pushed: FIFOSet<u16> = FIFOSet::with_capacity(round);
        let mut plain: Vec<u16> = Vec::new();
        for v in &items {
            pushed.push(*v);
            if !plain.contains(v) {
                plain.push(*v);
            }
        }
        same(&built, &plain);
        same(&pushed, &plain);
    }
}
