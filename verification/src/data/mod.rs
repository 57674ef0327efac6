pub mod bpe;
pub mod dataloader;
pub mod encoding_laws;
pub mod fast_map;
pub mod fim;
pub mod merge_engine;
pub mod pair_heap;
pub mod pair_lists;
pub mod rng;
pub mod text;
pub mod tokenizer;
pub mod tokenizer_file;
pub mod tokenizer_laws;
