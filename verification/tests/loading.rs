use eisen::data::dataloader::{blank, BinaryDataLoader, StreamingDataLoader};
use eisen::data::fim::{apply_fim, apply_fim_at, mask_targets, FimConfig, FimTokens, IGNORE_INDEX};
use eisen::data::rng::XorShift64;
use eisen::data::tokenizer::BPETokenizer;
use rand::{Rng, RngCore};

fn bytes(tokens: &[u16]) -> Vec<u8> {
    tokens.iter().flat_map(|t| t.to_le_bytes()).collect()
}

#[test]
fn generator_steps() {
    let mut r = XorShift64 { state: 1337 };
    assert_eq!(r.step(), 1429523688307);
    assert_eq!(r.step(), 10470426595176896357);
    assert_eq!(r.next_u64(), 11555594160509913739);
    let mut r = XorShift64 { state: 1337 };
    assert_eq!(r.next_u32(), 0xd6406b73);
}

#[test]
fn generator_fills_bytes() {
    let mut a = XorShift64 { state: 1337 };
    let mut d = [0u8; 11];
    a.fill_bytes(&mut d);
    let mut b = XorShift64 { state: 1337 };
    b.step();
    let first = b.step().to_le_bytes();
    let second = b.step().to_le_bytes();
    assert_eq!(&d[0..8], &first);
    assert_eq!(&d[8..11], &second[0..3]);
    assert_eq!(a.state, b.state);
    let mut c = XorShift64 { state: 1337 };
    let mut e = [0u8; 11];
    assert!(c.try_fill_bytes(&mut e).is_ok());
    assert_eq!(d, e);
}

#[test]
fn control_tokens_follow_the_vocabulary() {
    let t = FimTokens::from_base_vocab(100);
    assert_eq!((t.prefix, t.suffix, t.middle, t.pad), (100, 101, 102, 103));
    assert_eq!(FimTokens::vocab_overhead(), 4);
    let c = FimConfig::new(100);
    assert_eq!(c.full_vocab_size(100), 104);
    assert_eq!(c.with_rate(3).rate, 3);
    assert_eq!(FimConfig::new(100).with_spm_rate(4).spm_rate, 4);
}

#[test]
fn middle_comes_last() {
    let ids = FimTokens::from_base_vocab(100);
    let (t, m) = apply_fim_at(&[1, 2, 3, 4], &ids, 1, 3, false, 8);
    assert_eq!(t, vec![100, 1, 101, 4, 102, 2, 3, 103]);
    assert_eq!(m, vec![false, false, false, false, false, true, true, false]);
    let (t, m) = apply_fim_at(&[1, 2, 3, 4], &ids, 1, 3, true, 8);
    assert_eq!(t, vec![101, 4, 100, 1, 102, 2, 3, 103]);
    assert_eq!(m, vec![false, false, false, false, false, true, true, false]);
}

#[test]
fn short_sequences_stay() {
    let ids = FimTokens::from_base_vocab(100);
    let (t, m) = apply_fim_at(&[1, 2, 3], &ids, 0, 0, false, 5);
    assert_eq!(t, vec![1, 2, 3, 103, 103]);
    assert_eq!(m, vec![false; 5]);
    let mut rng = XorShift64 { state: 9 };
    let (u, _) = apply_fim(&[1, 2, 3], &FimConfig::new(100), &mut rng, 5);
    assert_eq!(u, t);
    assert_eq!(rng.state, 9);
}

#[test]
fn long_sequences_are_cut_off() {
    let ids = FimTokens::from_base_vocab(100);
    let (t, m) = apply_fim_at(&[1, 2, 3, 4], &ids, 0, 4, false, 4);
    assert_eq!(t, vec![100, 101, 102, 1]);
    assert_eq!(m, vec![false, false, false, true]);
}

#[test]
fn cuts_are_drawn_like_rand_draws_them() {
    let tokens: Vec<usize> = (0..20).collect();
    let config = FimConfig::new(100);
    for seed in 1..50u64 {
        let mut a = XorShift64 { state: seed };
        let (t, m) = apply_fim(&tokens, &config, &mut a, 23);
        let mut b = XorShift64 { state: seed };
        let lo: usize = b.gen_range(1..18);
        let hi: usize = b.gen_range(lo + 1..19);
        let spm = (b.next_u32() >> 8) < config.spm_rate;
        let expected = apply_fim_at(&tokens, &config.tokens, lo, hi, spm, 23);
        assert_eq!((t, m), expected);
        assert_eq!(a.state, b.state);
    }
}

#[test]
fn transformed_sequences_keep_their_tokens() {
    let tokens: Vec<usize> = (0..20).collect();
    let mut rng = XorShift64 { state: 77 };
    let (t, _) = apply_fim(&tokens, &FimConfig::new(100), &mut rng, 23);
    let mut kept: Vec<usize> = t.into_iter().filter(|x| *x < 100).collect();
    kept.sort();
    assert_eq!(kept, tokens);
}

#[test]
fn masked_targets() {
    assert_eq!(mask_targets(&[5, 6, 7], &[true, false, true]), vec![5, IGNORE_INDEX, 7]);
    assert_eq!(mask_targets(&[5, 6], &[false]), vec![IGNORE_INDEX]);
}

#[test]
fn batches_of_a_file() {
    let mut l = BinaryDataLoader::new(24, 2, 2);
    assert_eq!(l.total_batches(), 2);
    assert_eq!(l.bytes_wanted(), Some(1200));
    assert!(l.next_batch().is_none());
    l.feed(&bytes(&[1, 2, 3, 4, 5, 600, 7]));
    assert_eq!(l.bytes_wanted(), None);
    match l.next_batch() {
        Some(b) => {
            assert_eq!(b.x, vec![1, 2, 4, 5]);
            assert_eq!(b.targets, vec![2, 3, 5, 600]);
            assert!(!b.has_masked);
        },
        None => panic!("there is a batch"),
    }
    assert_eq!(l.buffer, vec![7]);
    l.reset();
    assert!(l.buffer.is_empty());
}

#[test]
fn odd_bytes_are_dropped() {
    let mut l = BinaryDataLoader::new(5, 1, 1);
    l.feed(&[1, 1, 9]);
    assert_eq!(l.buffer, vec![257]);
    assert_eq!(l.total_batches(), 1);
}

#[test]
fn always_transformed() {
    let config = FimConfig::new(1000).with_rate(1 << 53);
    let mut l = BinaryDataLoader::new(100, 8, 1).with_fim(config).with_seed(5);
    l.feed(&bytes(&[1, 2, 3, 4, 5, 6, 7, 8, 9]));
    match l.next_batch() {
        Some(b) => {
            assert!(b.has_masked);
            assert_eq!(b.x.len(), 8);
            assert_eq!(b.targets[7], IGNORE_INDEX);
            assert!(b.x.contains(&1000) || b.x.contains(&1001));
        },
        None => panic!("there is a batch"),
    }
}

#[test]
fn every_middle_token_is_a_target() {
    let config = FimConfig::new(1000).with_rate(1 << 53);
    for seed in 1..40u64 {
        let mut l = BinaryDataLoader::new(100, 12, 1).with_fim(config).with_seed(seed);
        l.feed(&bytes(&[1, 2, 3, 4, 5, 6, 7, 8, 9, 10, 11, 12, 13]));
        let b = match l.next_batch() {
            Some(b) => b,
            None => panic!("there is a batch"),
        };
        let middle = b.x.iter().position(|t| *t == 1002).unwrap_or(12);
        for i in 0..12 {
            let expected = if i >= middle && i + 1 < 12 { b.x[i + 1] } else { IGNORE_INDEX };
            assert_eq!(b.targets[i], expected);
        }
    }
}

#[test]
fn never_transformed() {
    let config = FimConfig::new(1000).with_rate(0);
    let mut l = BinaryDataLoader::new(100, 8, 1).with_fim(config);
    l.feed(&bytes(&[1, 2, 3, 4, 5, 6, 7, 8, 9]));
    match l.next_batch() {
        Some(b) => {
            assert!(!b.has_masked);
            assert_eq!(b.x, vec![1, 2, 3, 4, 5, 6, 7, 8]);
            assert_eq!(b.targets, vec![2, 3, 4, 5, 6, 7, 8, 9]);
        },
        None => panic!("there is a batch"),
    }
}

#[test]
fn windows_slide_by_one_token() {
    let mut s = StreamingDataLoader::new(2, 2);
    let b = s.push_tokens(&[1, 2, 3]);
    assert!(b.is_empty());
    let b = s.push_tokens(&[4]);
    assert_eq!(b, vec![(vec![1, 2, 2, 3], vec![2, 3, 3, 4])]);
}

#[test]
fn blank_lines_add_nothing() {
    assert!(blank(" \t"));
    assert!(blank(""));
    assert!(!blank(" x "));
    let t = BPETokenizer::train("ab", 10, vec![]);
    let mut s = StreamingDataLoader::new(1, 1);
    assert!(s.push_line(&t, "   ").is_empty());
    assert_eq!(s.push_line(&t, "ab"), vec![(vec![0], vec![1])]);
}

#[test]
fn batches_are_windows_of_all_tokens() {
    let tokens: Vec<usize> = (100..120).collect();
    let (len, size) = (3, 4);
    for cuts in [vec![], vec![1, 2, 7], vec![4, 5, 6, 19]] {
        let mut s = StreamingDataLoader::new(len, size);
        let mut batches = vec![];
        let mut from = 0;
        for to in cuts.into_iter().chain([20]) {
            batches.extend(s.push_tokens(&tokens[from..to]));
            from = to;
        }
        assert_eq!(batches.len(), (20 - len) / size);
        for (k, (x, y)) in batches.iter().enumerate() {
            assert_eq!((x.len(), y.len()), (size * len, size * len));
            for r in 0..size {
                for t in 0..len {
                    assert_eq!(x[r * len + t], tokens[k * size + r + t]);
                    assert_eq!(y[r * len + t], tokens[k * size + r + t + 1]);
                }
            }
        }
    }
}
