use eisen::data::fast_map::{FastHasher, FastMap};
use eisen::data::merge_engine::MergeEngine;
use eisen::data::pair_heap::PairHeap;
use eisen::data::pair_lists::{ListNode, PairLists};
use eisen::data::text::{chars_of, scan_text, string_of};
use eisen::data::tokenizer::BPETokenizer;
use eisen::data::tokenizer_file::{read_number, white};
use std::hash::Hasher;

fn strings(v: &[&str]) -> Vec<String> {
    v.iter().map(|s| s.to_string()).collect()
}

fn number(s: &str) -> Option<usize> {
    read_number(&chars_of(s))
}

#[test]
fn training_merges_the_most_frequent_pair() {
    let t = BPETokenizer::train("abab", 10, strings(&[]));
    assert_eq!(t.vocab, strings(&["a", "b", "ab"]));
    assert_eq!(t.merges.entries(), vec![((0, 1), 2)]);
}

#[test]
fn training_stops_at_the_target_size() {
    let t = BPETokenizer::train("abababab", 3, strings(&[]));
    assert_eq!(t.vocab, strings(&["a", "b", "ab"]));
    let t = BPETokenizer::train("abababab", 4, strings(&[]));
    assert_eq!(t.vocab, strings(&["a", "b", "ab", "abab"]));
    assert_eq!(t.merges.get((2, 2)), Some(3));
}

#[test]
fn training_breaks_ties_by_the_greater_pair() {
    // Both pairs occur twice: (0, 1) and (2, 3).
    let t = BPETokenizer::train("abcdcdxab", 100, strings(&[]));
    assert_eq!(t.vocab[5], "cd");
    assert_eq!(t.vocab[6], "ab");
}

#[test]
fn training_keeps_small_targets() {
    let t = BPETokenizer::train("abab", 0, strings(&[]));
    assert_eq!(t.vocab, strings(&["a", "b"]));
    assert!(t.merges.entries().is_empty());
}

#[test]
fn special_tokens_come_first_and_are_not_split() {
    let t = BPETokenizer::train("hi<|end|>hi<|end|>", 100, strings(&["<|end|>"]));
    assert_eq!(t.vocab[0], "<|end|>");
    assert_eq!(t.special_tokens, strings(&["<|end|>"]));
    let ids = t.encode("<|end|>");
    assert_eq!(ids, vec![0]);
}

#[test]
fn document_lines_are_left_out() {
    let t = BPETokenizer::train("### DOC_ID: zz\nab", 100, strings(&[]));
    assert_eq!(t.vocab, strings(&["a", "b"]));
    assert_eq!(t.encode("### DOC_ID: other\nba"), vec![1, 0]);
}

#[test]
fn encode_decode_gives_the_text_back() {
    let text = "the cat sat on the mat, the cat ate the rat";
    let t = BPETokenizer::train(text, 60, strings(&[]));
    let ids = t.encode(text);
    assert!(ids.len() < text.len());
    assert_eq!(t.decode(&ids), text);
}

#[test]
fn unknown_characters_are_dropped() {
    let t = BPETokenizer::train("abab", 10, strings(&[]));
    assert_eq!(t.encode("axb"), vec![2]);
    assert_eq!(t.decode(&t.encode("axb")), "ab");
}

#[test]
fn unknown_tokens_decode_to_nothing() {
    let t = BPETokenizer::train("abab", 10, strings(&[]));
    assert_eq!(t.decode(&[0, 99, 2]), "aab");
}

#[test]
fn runs_of_one_character() {
    let t = BPETokenizer::train("aaaa", 10, strings(&[]));
    assert_eq!(t.vocab[1], "aa");
    assert_eq!(t.decode(&t.encode("aaaaa")), "aaaaa");
}

#[test]
fn decoding_joins() {
    let t = BPETokenizer::train("abcabc", 10, strings(&[]));
    let a = t.encode("abc");
    let b = t.encode("cab");
    let both: Vec<usize> = a.iter().chain(b.iter()).cloned().collect();
    assert_eq!(t.decode(&both), t.decode(&a) + &t.decode(&b));
}

#[test]
fn saved_tokenizer_loads() {
    let t = BPETokenizer::train("line one\nline two\n", 40, strings(&["<pad>"]));
    let text = t.to_text();
    match BPETokenizer::from_text(&text) {
        Some(u) => {
            assert_eq!(u.vocab, t.vocab);
            assert_eq!(u.special_tokens, t.special_tokens);
            assert_eq!(u.merges.entries(), t.merges.entries());
            assert_eq!(u.encode("line one"), t.encode("line one"));
        },
        None => panic!("the text does not load"),
    }
}

#[test]
fn saved_form_is_exact() {
    let t = BPETokenizer::train("a\na\n", 10, strings(&["<s>"]));
    assert_eq!(t.to_text(), "1\n<s>\n4\n<s>\na\n\\n\na\\n\n1 2 3\n");
}

#[test]
fn spoiled_texts_do_not_load() {
    assert!(BPETokenizer::from_text("").is_none());
    assert!(BPETokenizer::from_text("x\n").is_none());
    assert!(BPETokenizer::from_text("2\na\n").is_none());
    assert!(BPETokenizer::from_text("0\n").is_none());
    assert!(BPETokenizer::from_text("0\n1\na\n0 0 y\n").is_none());
    match BPETokenizer::from_text("0\n1\na\n0 0\n") {
        Some(t) => assert!(t.merges.entries().is_empty()),
        None => panic!("a line with two numbers adds nothing"),
    }
}

#[test]
fn numbers_are_read_like_usize() {
    assert_eq!(number("0"), Some(0));
    assert_eq!(number("+17"), Some(17));
    assert_eq!(number("18446744073709551615"), Some(usize::MAX));
    assert_eq!(number("18446744073709551616"), None);
    assert_eq!(number(""), None);
    assert_eq!(number("+"), None);
    assert_eq!(number("-1"), None);
    assert_eq!(number(" 1"), None);
    for s in ["0", "12", "+3", "", "x", "99999999999999999999"] {
        assert_eq!(number(s), s.parse::<usize>().ok());
    }
}

#[test]
fn white_space_is_that_of_unicode() {
    for n in 0..0x3100u32 {
        if let Some(c) = char::from_u32(n) {
            assert_eq!(white(c), c.is_whitespace(), "{}", n);
        }
    }
}

#[test]
fn pieces_of_a_text() {
    let text = chars_of("a<x>b");
    let specials = vec![chars_of("<x>")];
    let ps = scan_text(&text, &specials);
    assert_eq!(ps.len(), 3);
    assert!(ps[0].special.is_none());
    assert_eq!(ps[1].special, Some(0));
    assert_eq!(string_of(&text), "a<x>b");
}

#[test]
fn hash_of_bytes() {
    let mut h = FastHasher::default();
    assert_eq!(h.finish(), 0xcbf29ce484222325);
    h.write(b"foobar");
    assert_eq!(h.finish(), 0x85944171f73967e8);
}

#[test]
fn map_holds_what_was_put_in() {
    let mut m = FastMap::new();
    assert_eq!(m.get((1, 2)), None);
    m.insert((1, 2), 5);
    m.insert((0, usize::MAX), 6);
    m.insert((1, 2), 7);
    assert_eq!(m.get((1, 2)), Some(7));
    assert_eq!(m.entries(), vec![((0, usize::MAX), 6), ((1, 2), 7)]);
    m.remove((1, 2));
    assert_eq!(m.get((1, 2)), None);
}

#[test]
fn heap_gives_the_greatest_first() {
    let mut h = PairHeap::new();
    for e in [(2, (0, 1)), (5, (1, 1)), (2, (0, 2)), (3, (9, 9))] {
        h.push(e);
    }
    assert_eq!(h.pop(), Some((5, (1, 1))));
    assert_eq!(h.pop(), Some((3, (9, 9))));
    assert_eq!(h.pop(), Some((2, (0, 2))));
    assert_eq!(h.pop(), Some((2, (0, 1))));
    assert_eq!(h.pop(), None);
}

fn chain(ids: &[usize]) -> Vec<ListNode> {
    let n = ids.len();
    (0..n)
        .map(|i| ListNode {
            id: ids[i],
            prev: if i > 0 { Some(i - 1) } else { None },
            next: if i + 1 < n { Some(i + 1) } else { None },
            pair_prev: None,
            pair_next: None,
            valid: true,
        })
        .collect()
}

#[test]
fn pair_lists_add_and_remove() {
    let mut l = PairLists::new(chain(&[7, 8, 7, 8, 7, 8]));
    l.add_to_pair_list(0);
    l.add_to_pair_list(2);
    l.add_to_pair_list(4);
    l.add_to_pair_list(1);
    l.remove_from_pair_list(2);
    let mut at = l.take_pair_list((7, 8));
    at.sort();
    assert_eq!(at, vec![0, 4]);
    assert_eq!(l.take_pair_list((7, 8)), Vec::<usize>::new());
    assert_eq!(l.take_pair_list((8, 7)), vec![1]);
}

#[test]
fn engine_merges_until_no_pair_is_left() {
    let mut e = MergeEngine::new(&vec![0, 1, 0, 1, 2], 3);
    assert_eq!(e.merge_best(3), Some((0, 1)));
    assert_eq!(e.merge_best(4), None);
}

#[test]
fn merges_join_earlier_tokens() {
    let special = strings(&["<|end|>", "##"]);
    let text = "the theme of the thesis<|end|>then ## the end<|end|>";
    let t = BPETokenizer::train(text, 40, special.clone());
    let merges = t.merges.entries();
    let base = t.vocab.len() - merges.len();
    assert!(t.vocab.len() <= 40);
    assert_eq!(t.vocab[..2], special[..]);
    for i in 2..base {
        assert_eq!(t.vocab[i].chars().count(), 1);
    }
    let mut made: Vec<usize> = vec![];
    for ((p, q), r) in merges {
        assert!(p < r && q < r);
        assert_eq!(t.vocab[r], format!("{}{}", t.vocab[p], t.vocab[q]));
        made.push(r);
    }
    made.sort();
    assert_eq!(made, (base..t.vocab.len()).collect::<Vec<usize>>());
    assert!(!made.is_empty());
}

#[test]
fn removing_undoes_adding() {
    let mut l = PairLists::new(chain(&[7, 8, 7, 8, 7, 8]));
    l.add_to_pair_list(0);
    l.add_to_pair_list(4);
    let links = |l: &PairLists| -> Vec<(Option<usize>, Option<usize>)> {
        l.nodes.iter().map(|n| (n.pair_prev, n.pair_next)).collect()
    };
    let before = links(&l);
    assert_eq!(l.heads.get((7, 8)), Some(4));
    l.add_to_pair_list(2);
    assert_eq!(l.heads.get((7, 8)), Some(2));
    assert!(links(&l) != before);
    for _ in 0..2 {
        l.remove_from_pair_list(2);
        assert_eq!(l.heads.get((7, 8)), Some(4));
        assert_eq!(links(&l), before);
    }
}
