use gisele::euclid::gen_euclid;

#[test]
fn test_euclid() {
    assert_eq!(gen_euclid(0, 0).unwrap(), vec![]);
    assert_eq!(gen_euclid(0, 1).unwrap(), vec![0]);
    assert_eq!(gen_euclid(1, 1).unwrap(), vec![1]);
    assert_eq!(gen_euclid(1, 2).unwrap(), vec![1, 0]);
    assert_eq!(gen_euclid(0, 3).unwrap(), vec![0, 0, 0]);
    assert_eq!(gen_euclid(3, 3).unwrap(), vec![1, 1, 1]);
    assert_eq!(gen_euclid(2, 3).unwrap(), vec![1, 0, 1]);
    assert_eq!(gen_euclid(1, 3).unwrap(), vec![1, 0, 0]);
    assert_eq!(gen_euclid(1, 4).unwrap(), vec![1, 0, 0, 0,]);
    assert_eq!(gen_euclid(3, 4).unwrap(), vec![1, 0, 1, 1]);
    assert_eq!(gen_euclid(2, 5).unwrap(), vec![1, 0, 1, 0, 0]);
    assert_eq!(gen_euclid(5, 8).unwrap(), vec![1, 0, 1, 1, 0, 1, 1, 0]);
    assert_eq!(gen_euclid(7, 8).unwrap(), vec![1, 0, 1, 1, 1, 1, 1, 1]);
    assert_eq!(
        gen_euclid(4, 12).unwrap(),
        vec![1, 0, 0, 1, 0, 0, 1, 0, 0, 1, 0, 0,]
    );
    assert_eq!(
        gen_euclid(13, 24).unwrap(),
        vec![1, 0, 1, 1, 0, 1, 0, 1, 0, 1, 0, 1, 0, 1, 1, 0, 1, 0, 1, 0, 1, 0, 1, 0]
    );
}

#[test]
fn euclid_pulse_counts() {
    // Exactly as many ones as pulses, over a spread of shapes.
    for &(p, s) in &[(0u32, 7u32), (1, 7), (3, 7), (7, 7), (6, 13), (13, 24), (9, 16)] {
        let v = gen_euclid(p, s).unwrap();
        assert_eq!(v.len(), s as usize);
        assert_eq!(v.iter().filter(|&&b| b == 1).count(), p as usize);
        assert!(v.iter().all(|&b| b == 0 || b == 1));
    }
}

#[test]
fn euclid_all_zeros_and_all_ones() {
    // No pulses gives silence; as many pulses as steps fills every step.
    assert!(gen_euclid(0, 9).unwrap().iter().all(|&b| b == 0));
    assert!(gen_euclid(9, 9).unwrap().iter().all(|&b| b == 1));
}

#[test]
fn euclid_refuses_more_pulses_than_steps() {
    assert_eq!(gen_euclid(5, 4).unwrap_err(), gisele::SeqError::GenerationRefused);
    assert_eq!(gen_euclid(1, 0).unwrap_err(), gisele::SeqError::GenerationRefused);
}
