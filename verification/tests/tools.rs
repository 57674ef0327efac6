use eisen::data::dataloader::BinaryDataLoader;
use eisen::data::tokenizer::BPETokenizer;
use eisen::tools::huggingface::{
    as_json_array, header_of, lay_out, llama_config, safetensors, LlamaConfig, NamedTensor,
};
use eisen::tools::pretokenize::{
    bytes_of_tokens, finished_state, pre_tokenize, pre_tokenize_line, recovered_line,
};
use eisen::tools::sampling::{chunk_size, draw_limit, sample_offsets, NUM_CHUNKS};

fn tensor(name: &str, shape: &[usize], bits: &[u32]) -> NamedTensor {
    NamedTensor { name: name.to_string(), shape: shape.to_vec(), bits: bits.to_vec() }
}

#[test]
fn samples_lie_in_the_file() {
    assert_eq!(chunk_size(1), 10485);
    assert_eq!(draw_limit(10485, 1), None);
    assert_eq!(draw_limit(10486, 1), Some(1));
    assert_eq!(draw_limit(20000, 1), Some(9515));
    assert!(sample_offsets(10485, 1).is_none());
    match sample_offsets(20000, 1) {
        Some(v) => {
            assert_eq!(v.len(), NUM_CHUNKS);
            assert!(v.iter().all(|x| *x + 10485 < 20000));
            assert!(v.iter().any(|x| *x != v[0]));
        },
        None => panic!("the file is longer than a sample"),
    }
    match sample_offsets(10486, 1) {
        Some(v) => assert!(v.iter().all(|x| *x == 0)),
        None => panic!("the file is longer than a sample"),
    }
}

#[test]
fn tokens_are_written_in_two_bytes() {
    assert_eq!(bytes_of_tokens(&vec![1, 600]), vec![1, 0, 88, 2]);
    assert_eq!(bytes_of_tokens(&vec![65536 + 3]), vec![3, 0]);
}

#[test]
fn written_tokens_are_read_back() {
    let t = BPETokenizer::train("hello there", 20, vec![]);
    let written = pre_tokenize("hello there", &t);
    let mut l = BinaryDataLoader::new(written.len(), 1, 1);
    l.feed(&written);
    assert_eq!(l.buffer, t.encode("hello there"));
}

#[test]
fn progress_is_recovered() {
    assert_eq!(recovered_line(None), None);
    assert_eq!(recovered_line(Some(" 20000\n")), Some(20000));
    assert_eq!(recovered_line(Some(finished_state())), None);
    assert_eq!(recovered_line(Some("-3")), None);
}

#[test]
fn lines_dealt_with_are_skipped() {
    let t = BPETokenizer::train("ab", 10, vec![]);
    let w = pre_tokenize_line(&t, 5, Some(5), Some("ab"));
    assert!(w.bytes.is_empty());
    assert!(w.state.is_none());
    let w = pre_tokenize_line(&t, 6, Some(5), Some("ab"));
    assert_eq!(w.bytes, vec![0, 0, 1, 0]);
    assert!(w.state.is_none());
    let w = pre_tokenize_line(&t, 0, None, Some("ab"));
    assert_eq!(w.bytes, vec![0, 0, 1, 0]);
    assert!(w.state.is_none());
}

#[test]
fn progress_is_recorded_now_and_then() {
    let t = BPETokenizer::train("ab", 10, vec![]);
    let w = pre_tokenize_line(&t, 20000, Some(5), Some("b"));
    assert_eq!(w.bytes, vec![1, 0]);
    assert_eq!(w.state, Some("20000".to_string()));
    let w = pre_tokenize_line(&t, 20000, Some(5), Some("  "));
    assert!(w.state.is_none());
    let w = pre_tokenize_line(&t, 20000, None, None);
    assert!(w.bytes.is_empty());
    assert_eq!(w.state, Some("20000".to_string()));
    let w = pre_tokenize_line(&t, 20000, Some(20000), Some("b"));
    assert!(w.state.is_none());
}

#[test]
fn resumed_run_writes_every_line_once() {
    let t = BPETokenizer::train("ab", 10, vec![]);
    let lines: Vec<&str> = (0..10005).map(|i| if i % 3 == 0 { "ab" } else { "b" }).collect();
    let mut whole = vec![];
    for (i, l) in lines.iter().enumerate() {
        whole.extend(pre_tokenize_line(&t, i, None, Some(l)).bytes);
    }
    let mut parts = vec![];
    let mut state = None;
    for (i, l) in lines.iter().enumerate() {
        let w = pre_tokenize_line(&t, i, None, Some(l));
        parts.extend(w.bytes);
        if w.state.is_some() {
            state = w.state;
            break;
        }
    }
    assert_eq!(state, Some("10000".to_string()));
    let done = recovered_line(state.as_deref());
    for (i, l) in lines.iter().enumerate() {
        parts.extend(pre_tokenize_line(&t, i, done, Some(l)).bytes);
    }
    assert_eq!(parts, whole);
}

#[test]
fn arrays() {
    assert_eq!(as_json_array(&[]), "[]");
    assert_eq!(as_json_array(&[3]), "[3]");
    assert_eq!(as_json_array(&[3, 10, 0]), "[3,10,0]");
}

#[test]
fn configuration_of_a_model() {
    let c = LlamaConfig {
        vocab_size: 100,
        hidden_size: 64,
        intermediate_size: 256,
        num_hidden_layers: 2,
        num_attention_heads: 4,
        max_position_embeddings: 128,
        rms_norm_eps: "0.00001".to_string(),
        rope_theta: "10000".to_string(),
        tie_word_embeddings: false,
    };
    let text = llama_config(&c);
    assert!(text.starts_with("{\n  \"architectures\": [\"LlamaForCausalLM\"],\n"));
    assert!(text.contains("  \"vocab_size\": 100,\n"));
    assert!(text.contains("  \"rms_norm_eps\": 0.00001,\n"));
    assert!(text.contains("\"tie_word_embeddings\": false"));
    assert!(text.ends_with("}\n") || text.ends_with("}"));
}

#[test]
fn header_lists_the_tensors_by_name() {
    let ts = vec![tensor("b", &[1, 2], &[1, 2]), tensor("a", &[1], &[3])];
    let (es, payload) = lay_out(&ts);
    assert_eq!(payload, vec![1, 0, 0, 0, 2, 0, 0, 0, 3, 0, 0, 0]);
    assert_eq!((es[0].begin, es[0].end), (8, 12));
    assert_eq!((es[1].begin, es[1].end), (0, 8));
    assert_eq!(
        header_of(&es),
        "{\"a\":{\"dtype\":\"F32\",\"shape\":[1],\"data_offsets\":[8,12]},\
         \"b\":{\"dtype\":\"F32\",\"shape\":[1,2],\"data_offsets\":[0,8]}}"
    );
}

#[test]
fn file_of_tensors() {
    let ts = vec![tensor("w", &[1], &[0x3f80_0000])];
    match safetensors(&ts) {
        Some(b) => {
            let mut n = [0u8; 8];
            n.copy_from_slice(&b[0..8]);
            let n = u64::from_le_bytes(n) as usize;
            assert_eq!(n % 8, 0);
            assert_eq!(b.len(), 8 + n + 4);
            assert_eq!(&b[8 + n..], &1.0f32.to_le_bytes());
            assert_eq!(b[8], b'{');
        },
        None => panic!("the header can be counted"),
    }
}
