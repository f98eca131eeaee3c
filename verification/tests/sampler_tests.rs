use state_sync::sampler::SamplerLimited;

#[test]
fn sampler_yields_each_element_limit_times() {
    let sampler = SamplerLimited::new(vec![1u64, 2, 3], 2);
    let mut s = sampler;
    let mut res: Vec<u64> = Vec::new();
    loop {
        match s.next() {
            Some(v) => res.push(v),
            None => break,
        }
    }
    assert_eq!(res.len(), 6);
    assert_eq!(res.iter().filter(|v| **v == 1).count(), 2);
    assert_eq!(res.iter().filter(|v| **v == 2).count(), 2);
    assert_eq!(res.iter().filter(|v| **v == 3).count(), 2);
}

#[test]
fn sampler_with_zero_limit_is_empty() {
    let mut s = SamplerLimited::new(vec![7u64, 8], 0);
    assert!(s.is_exhausted());
    assert_eq!(s.next(), None);
}

#[test]
fn sampler_single_element() {
    let mut s = SamplerLimited::new(vec![42u64], 3);
    assert_eq!(s.next(), Some(42));
    assert_eq!(s.next(), Some(42));
    assert_eq!(s.next(), Some(42));
    assert_eq!(s.next(), None);
}

#[test]
fn sampler_empty_input() {
    let mut s = SamplerLimited::new(Vec::<u64>::new(), 16);
    assert!(s.is_exhausted());
    assert_eq!(s.next(), None);
}
