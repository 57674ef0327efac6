//! A byte-pair tokenizer: training, encoding and decoding.
use crate::data::bpe::{best_pair, lemma_forward_len, merge_forward, merge_pair, occurs_at, Pair};
use crate::data::fast_map::FastMap;
use crate::data::merge_engine::{greater_id, MergeEngine};
use crate::data::text::{
    chars_of, piece_text, piece_texts, piece_wf, scan, scan_terminates, scan_text, string_of, texts,
    views, Piece,
};
use vstd::prelude::*;
use vstd::string::*;

verus! {

/// A vocabulary, the merges that build its longer tokens, and the tokens that are never split.
pub struct BPETokenizer {
    pub vocab: Vec<String>,
    pub merges: FastMap,
    pub special_tokens: Vec<String>,
}

/// The vocabulary after each piece that it lacked has been added in turn.
pub open spec fn register(vocab: Seq<Seq<char>>, pieces: Seq<Seq<char>>) -> Seq<Seq<char>>
    decreases pieces.len(),
{
    if pieces.len() == 0 {
        vocab
    } else {
        let v = register(vocab, pieces.drop_last());
        if v.contains(pieces.last()) {
            v
        } else {
            v.push(pieces.last())
        }
    }
}

/// The number of a piece in the vocabulary: that of its last copy, where a special token is
/// given twice.
pub open spec fn piece_id(vocab: Seq<Seq<char>>, piece: Seq<char>) -> usize {
    vocab.index_of_last(piece)->0 as usize
}

/// The state of training between two merges.
pub struct Training {
    pub vocab: Seq<Seq<char>>,
    pub merges: Map<Pair, usize>,
    pub ids: Seq<usize>,
    /// For each token, whether a pair in which it is the later one is replaced from the left.
    pub forward: Seq<bool>,
}

/// The start of training: special tokens and single pieces, no merges.
pub open spec fn training_start(text: Seq<char>, specials: Seq<Seq<char>>) -> Training {
    let pieces = scan(text, specials);
    let vocab = register(specials, pieces);
    Training {
        vocab,
        merges: Map::empty(),
        ids: pieces.map_values(|t: Seq<char>| piece_id(vocab, t)),
        forward: Seq::new(vocab.len(), |i: int| false),
    }
}

/// Training after `p` has been merged into a new token.
pub open spec fn training_step(s: Training, p: Pair) -> Training {
    let new_id = s.vocab.len() as usize;
    let forward = s.forward[greater_id(p) as int];
    Training {
        vocab: s.vocab.push(s.vocab[p.0 as int] + s.vocab[p.1 as int]),
        merges: s.merges.insert(p, new_id),
        ids: merge_pair(s.ids, p, new_id, forward),
        forward: s.forward.push(!forward),
    }
}

/// Training after at most `n` further merges; it ends early where no pair occurs twice.
pub open spec fn training_run(s: Training, n: nat) -> Training
    decreases n,
{
    if n == 0 {
        s
    } else {
        match best_pair(s.ids) {
            None => s,
            Some(p) => training_run(training_step(s, p), (n - 1) as nat),
        }
    }
}

/// What training on `text` for a vocabulary of `target` tokens ends with.
pub open spec fn trained(text: Seq<char>, target: usize, specials: Seq<Seq<char>>) -> Training {
    let s = training_start(text, specials);
    training_run(
        s,
        if target > s.vocab.len() {
            (target - s.vocab.len()) as nat
        } else {
            0
        },
    )
}

spec fn char_key(t: Seq<char>) -> Pair {
    ((t[0] as u32) as usize, 0)
}

/// The table holds the number of each vocabulary entry of one character.
spec fn table_ok(table: Map<Pair, usize>, vocab: Seq<Seq<char>>) -> bool {
    forall|t: Seq<char>|
        t.len() == 1 ==> {
            &&& #[trigger] table.contains_key(char_key(t)) <==> vocab.contains(t)
            &&& vocab.contains(t) ==> table[char_key(t)] == piece_id(vocab, t)
        }
}

proof fn lemma_push_index(vocab: Seq<Seq<char>>, t: Seq<char>, u: Seq<char>)
    ensures
        vocab.push(t).contains(u) <==> (vocab.contains(u) || u == t),
        vocab.push(t).index_of_last(u) == if u == t {
            Some(vocab.len() as int)
        } else {
            vocab.index_of_last(u)
        },
{
    let w = vocab.push(t);
    w.index_of_last_ensures(u);
    vocab.index_of_last_ensures(u);
    assert(w[vocab.len() as int] == t);
    if vocab.contains(u) {
        let i = vocab.index_of_last(u)->0;
        assert(w[i] == u);
        if u != t {
            let j = w.index_of_last(u)->0;
            if j != i {
                assert(w[j] == vocab[j]);
            }
        }
    }
    if w.contains(u) && u != t {
        let j = w.index_of_last(u)->0;
        assert(vocab[j] == u);
    }
}

proof fn lemma_char_code(c: char, d: char)
    requires
        (c as u32) as usize == (d as u32) as usize,
    ensures
        c == d,
{
}

proof fn lemma_push_table(table: Map<Pair, usize>, vocab: Seq<Seq<char>>, t: Seq<char>)
    requires
        table_ok(table, vocab),
        vocab.len() < usize::MAX,
    ensures
        t.len() == 1 ==> table_ok(
            table.insert(char_key(t), vocab.len() as usize),
            vocab.push(t),
        ),
        t.len() != 1 ==> table_ok(table, vocab.push(t)),
{
    let after = if t.len() == 1 {
        table.insert(char_key(t), vocab.len() as usize)
    } else {
        table
    };
    let w = vocab.push(t);
    assert forall|u: Seq<char>| u.len() == 1 implies {
        &&& #[trigger] after.contains_key(char_key(u)) <==> w.contains(u)
        &&& w.contains(u) ==> after[char_key(u)] == piece_id(w, u)
    } by {
        lemma_push_index(vocab, t, u);
        assert(table.contains_key(char_key(u)) <==> vocab.contains(u));
        if t.len() == 1 && char_key(t) == char_key(u) {
            lemma_char_code(t[0], u[0]);
            assert(t =~= u);
        }
    }
}

proof fn lemma_register_push(vocab: Seq<Seq<char>>, pieces: Seq<Seq<char>>, i: int)
    requires
        0 <= i < pieces.len(),
    ensures
        register(vocab, pieces.take(i + 1)) == ({
            let v = register(vocab, pieces.take(i));
            if v.contains(pieces[i]) {
                v
            } else {
                v.push(pieces[i])
            }
        }),
{
    assert(pieces.take(i + 1).drop_last() == pieces.take(i));
}

/// Later additions do not move a piece, and every piece added so far has a number.
proof fn lemma_register_stable(vocab: Seq<Seq<char>>, pieces: Seq<Seq<char>>, i: int, t: Seq<char>)
    requires
        0 <= i <= pieces.len(),
        register(vocab, pieces.take(i)).contains(t),
    ensures
        register(vocab, pieces).contains(t),
        register(vocab, pieces).index_of_last(t) == register(vocab, pieces.take(i)).index_of_last(t),
    decreases pieces.len() - i,
{
    if i < pieces.len() {
        let v = register(vocab, pieces.take(i));
        lemma_register_push(vocab, pieces, i);
        lemma_push_index(v, pieces[i], t);
        lemma_register_stable(vocab, pieces, i + 1, t);
    } else {
        assert(pieces.take(i) == pieces);
    }
}

proof fn lemma_register_has(vocab: Seq<Seq<char>>, pieces: Seq<Seq<char>>, i: int)
    requires
        0 <= i < pieces.len(),
    ensures
        register(vocab, pieces).contains(pieces[i]),
{
    lemma_register_push(vocab, pieces, i);
    let v = register(vocab, pieces.take(i));
    lemma_push_index(v, pieces[i], pieces[i]);
    lemma_register_stable(vocab, pieces, i + 1, pieces[i]);
}

proof fn lemma_id_below(vocab: Seq<Seq<char>>, t: Seq<char>)
    requires
        vocab.contains(t),
        vocab.len() <= usize::MAX,
    ensures
        piece_id(vocab, t) < vocab.len(),
        vocab[piece_id(vocab, t) as int] == t,
{
    vocab.index_of_last_ensures(t);
}

/// The characters of each string.
fn chars_of_all(v: &Vec<String>) -> (r: Vec<Vec<char>>)
    ensures
        views(r@) == texts(v@),
{
    let mut r: Vec<Vec<char>> = Vec::new();
    let mut i: usize = 0;
    while i < v.len()
        invariant
            i <= v@.len(),
            views(r@) == texts(v@).take(i as int),
        decreases v@.len() - i,
    {
        let ghost before = r@;
        r.push(chars_of(v[i].as_str()));
        assert(views(r@) == views(before).push(v@[i as int]@));
        assert(texts(v@).take(i + 1) == texts(v@).take(i as int).push(v@[i as int]@));
        i += 1;
    }
    assert(texts(v@).take(v@.len() as int) == texts(v@));
    r
}

/// Builds the first vocabulary and the token sequence of a text.
fn register_pieces(
    text: &Vec<char>,
    specials: &Vec<Vec<char>>,
    special_tokens: &Vec<String>,
    pieces: &Vec<Piece>,
) -> (r: (Vec<String>, Vec<usize>))
    requires
        views(specials@) == texts(special_tokens@),
        forall|i: int|
            0 <= i < pieces@.len() ==> piece_wf(text@, views(specials@), #[trigger] pieces@[i]),
    ensures
        ({
            let sp = views(specials@);
            let ps = piece_texts(text@, sp, pieces@);
            let v = register(sp, ps);
            texts(r.0@) == v && r.1@ == ps.map_values(|t: Seq<char>| piece_id(v, t))
        }),
{
    let ghost sp = views(specials@);
    let ghost ps = piece_texts(text@, sp, pieces@);
    let mut vocab: Vec<String> = Vec::new();
    let mut table = FastMap::new();
    let n: usize = special_tokens.len();
    assert(texts(special_tokens@).len() == n);
    assert(views(specials@).len() == specials@.len());
    let mut k: usize = 0;
    proof {
        assert(texts(vocab@) == sp.take(0));
    }
    while k < n
        invariant
            k <= n,
            n == special_tokens@.len(),
            n == specials@.len(),
            sp == views(specials@),
            sp == texts(special_tokens@),
            texts(vocab@) == sp.take(k as int),
            table_ok(table@, sp.take(k as int)),
        decreases n - k,
    {
        let ghost before = vocab@;
        vocab.push(special_tokens[k].clone());
        proof {
            assert(texts(vocab@) == texts(before).push(sp[k as int]));
            assert(sp.take(k + 1) == sp.take(k as int).push(sp[k as int]));
            assert(special_tokens@.len() == special_tokens.len());
            lemma_push_table(table@, sp.take(k as int), sp[k as int]);
            assert(sp[k as int] == specials@[k as int]@);
        }
        if specials[k].len() == 1 {
            let c: char = specials[k][0];
            table.insert(((c as u32) as usize, 0), k);
        }
        k += 1;
    }
    assert(sp.take(n as int) == sp);
    let mut special_ids: Vec<usize> = Vec::new();
    let mut k: usize = 0;
    while k < n
        invariant
            k <= n,
            n == special_tokens@.len(),
            n == specials@.len(),
            sp == views(specials@),
            sp == texts(special_tokens@),
            special_ids@.len() == k,
            forall|i: int|
                0 <= i < k ==> #[trigger] special_ids@[i] == piece_id(sp, sp[i]),
        decreases n - k,
    {
        let mut last: usize = k;
        let mut j: usize = k + 1;
        while j < n
            invariant
                k <= last < j <= n,
                n == special_tokens@.len(),
                sp == texts(special_tokens@),
                sp[last as int] == sp[k as int],
                forall|i: int| last < i < j ==> #[trigger] sp[i] != sp[k as int],
            decreases n - j,
        {
            assert(sp[j as int] == special_tokens@[j as int]@);
            assert(sp[k as int] == special_tokens@[k as int]@);
            if special_tokens[j] == special_tokens[k] {
                last = j;
            }
            j += 1;
        }
        proof {
            sp.index_of_last_ensures(sp[k as int]);
            assert(sp.contains(sp[k as int]));
            let i = sp.index_of_last(sp[k as int])->0;
            if i < last {
                assert(sp[last as int] != sp[k as int]);
            } else if i > last {
                assert(sp[i] != sp[k as int]);
            }
        }
        special_ids.push(last);
        k += 1;
    }
    let mut sequence: Vec<usize> = Vec::new();
    let mut i: usize = 0;
    assert(ps.take(0) == Seq::<Seq<char>>::empty());
    while i < pieces.len()
        invariant
            i <= pieces@.len(),
            n == sp.len(),
            sp == views(specials@),
            ps == piece_texts(text@, sp, pieces@),
            forall|i: int|
                0 <= i < pieces@.len() ==> piece_wf(text@, sp, #[trigger] pieces@[i]),
            special_ids@.len() == n,
            forall|i: int|
                0 <= i < n ==> #[trigger] special_ids@[i] == piece_id(sp, sp[i]),
            texts(vocab@) == register(sp, ps.take(i as int)),
            table_ok(table@, texts(vocab@)),
            sequence@.len() == i,
            forall|j: int|
                0 <= j < i ==> #[trigger] sequence@[j] == piece_id(register(sp, ps.take(i as int)), ps[j]),
            forall|j: int|
                0 <= j < i ==> register(sp, ps.take(i as int)).contains(#[trigger] ps[j]),
        decreases pieces@.len() - i,
    {
        let ghost v = register(sp, ps.take(i as int));
        let ghost t = ps[i as int];
        let piece = pieces[i];
        proof {
            lemma_register_push(sp, ps, i as int);
            assert(t == piece_text(text@, sp, piece));
            assert(piece_wf(text@, sp, pieces@[i as int]));
            assert(vocab@.len() == vocab.len());
            assert(v.len() == vocab@.len());
            assert forall|j: int| 0 <= j < i implies piece_id(v.push(t), ps[j]) == piece_id(v, ps[j])
                || t == ps[j] by {
                lemma_push_index(v, t, ps[j]);
            }
        }
        match piece.special {
            Some(k) => {
                proof {
                    lemma_special_stays(sp, ps.take(i as int), k as int);
                    assert(v.contains(t));
                    assert(register(sp, ps.take(i + 1)) == v);
                }
                sequence.push(special_ids[k]);
            },
            None => {
                let c: char = text[piece.at];
                let key: (usize, usize) = ((c as u32) as usize, 0);
                assert(t.len() == 1 && t[0] == c);
                assert(key == char_key(t));
                match table.get(key) {
                    Some(id) => {
                        assert(v.contains(t));
                        sequence.push(id);
                    },
                    None => {
                        assert(!v.contains(t));
                        let id: usize = vocab.len();
                        let mut one: Vec<char> = Vec::new();
                        one.push(c);
                        assert(one@ =~= t);
                        let ghost before = vocab@;
                        let ghost before_table = table@;
                        vocab.push(string_of(&one));
                        table.insert(key, id);
                        sequence.push(id);
                        proof {
                            assert(texts(vocab@) == texts(before).push(t));
                            assert(vocab@.len() == vocab.len());
                            lemma_push_table(before_table, v, t);
                            lemma_push_index(v, t, t);
                        }
                    },
                }
            },
        }
        proof {
            let w = register(sp, ps.take(i + 1));
            assert forall|j: int| 0 <= j < i + 1 implies w.contains(#[trigger] ps[j])
                && sequence@[j] == piece_id(w, ps[j]) by {
                lemma_push_index(v, t, ps[j]);
            }
        }
        i += 1;
    }
    assert(ps.take(ps.len() as int) == ps);
    assert(sequence@ =~= ps.map_values(|t: Seq<char>| piece_id(register(sp, ps), t)));
    (vocab, sequence)
}

proof fn lemma_special_stays(sp: Seq<Seq<char>>, pieces: Seq<Seq<char>>, k: int)
    requires
        0 <= k < sp.len(),
    ensures
        register(sp, pieces).contains(sp[k]),
        register(sp, pieces).index_of_last(sp[k]) == sp.index_of_last(sp[k]),
{
    assert(pieces.take(0) == Seq::<Seq<char>>::empty());
    assert(register(sp, pieces.take(0)) == sp);
    assert(sp.contains(sp[k]));
    lemma_register_stable(sp, pieces, 0, sp[k]);
}

/// The numbers of those pieces that the vocabulary has; of equal entries the first counts.
pub open spec fn known_ids(vocab: Seq<Seq<char>>, pieces: Seq<Seq<char>>) -> Seq<usize>
    decreases pieces.len(),
{
    if pieces.len() == 0 {
        Seq::empty()
    } else {
        let ids = known_ids(vocab, pieces.drop_last());
        match vocab.index_of_first(pieces.last()) {
            Some(i) => ids.push(i as usize),
            None => ids,
        }
    }
}

/// The two tokens from position `k` on.
pub open spec fn pair_of(ids: Seq<usize>, k: int) -> Pair {
    (ids[k], ids[k + 1])
}

/// Whether the two tokens from position `k` on can be merged. A merge into the greatest number
/// there is is never taken.
pub open spec fn mergeable(ids: Seq<usize>, merges: Map<Pair, usize>, k: int) -> bool {
    0 <= k < ids.len() - 1 && merges.contains_key(pair_of(ids, k)) && merges[pair_of(ids, k)]
        < usize::MAX
}

/// Whether the merge at position `k` comes next: the lowest token, and among equal ones the leftmost.
pub open spec fn merges_next(ids: Seq<usize>, merges: Map<Pair, usize>, k: int) -> bool {
    &&& mergeable(ids, merges, k)
    &&& forall|j: int| #[trigger]
        mergeable(ids, merges, j) ==> merges[pair_of(ids, k)] <= merges[pair_of(ids, j)] && (
        merges[pair_of(ids, k)] == merges[pair_of(ids, j)] ==> k <= j)
}

/// `ids` after all merges, the lowest new token first.
pub open spec fn apply_merges(ids: Seq<usize>, merges: Map<Pair, usize>) -> Seq<usize>
    decreases ids.len(),
{
    if exists|k: int| merges_next(ids, merges, k) {
        let k = choose|k: int| merges_next(ids, merges, k);
        let p = pair_of(ids, k);
        proof {
            lemma_forward_len(ids, p, merges[p]);
            assert(occurs_at(ids, p, k));
        }
        apply_merges(merge_forward(ids, p, merges[p]), merges)
    } else {
        ids
    }
}

/// Only one position comes next, and encoding goes on from what its merge gives.
pub proof fn lemma_apply_step(ids: Seq<usize>, merges: Map<Pair, usize>, k: int)
    requires
        merges_next(ids, merges, k),
    ensures
        apply_merges(ids, merges) == apply_merges(
            merge_forward(ids, pair_of(ids, k), merges[pair_of(ids, k)]),
            merges,
        ),
{
    let j = choose|j: int| merges_next(ids, merges, j);
    assert(merges_next(ids, merges, j));
    assert(mergeable(ids, merges, j) && mergeable(ids, merges, k));
    assert(j == k);
}

/// The text of the tokens `ids`; a number outside the vocabulary stands for nothing.
pub open spec fn decode_ids(vocab: Seq<Seq<char>>, ids: Seq<usize>) -> Seq<char>
    decreases ids.len(),
{
    if ids.len() == 0 {
        Seq::empty()
    } else {
        decode_ids(vocab, ids.drop_last()) + (if ids.last() < vocab.len() {
            vocab[ids.last() as int]
        } else {
            Seq::empty()
        })
    }
}

impl BPETokenizer {
    /// The texts of the vocabulary.
    pub open spec fn tokens(&self) -> Seq<Seq<char>> {
        texts(self.vocab@)
    }

    /// The texts of the special tokens.
    pub open spec fn specials(&self) -> Seq<Seq<char>> {
        texts(self.special_tokens@)
    }

    /// The tokens of a text.
    pub open spec fn encoding(&self, text: Seq<char>) -> Seq<usize> {
        apply_merges(known_ids(self.tokens(), scan(text, self.specials())), self.merges@)
    }

    /// Learns a vocabulary of about `target_vocab_size` tokens from `text`: the special tokens,
    /// the characters of the text, and merges of the most frequent pairs.
    pub fn train(text: &str, target_vocab_size: usize, special_tokens: Vec<String>) -> (r: Self)
        requires
            scan_terminates(text@, texts(special_tokens@)),
        ensures
            r.special_tokens == special_tokens,
            r.tokens() == trained(text@, target_vocab_size, texts(special_tokens@)).vocab,
            r.merges@ == trained(text@, target_vocab_size, texts(special_tokens@)).merges,
    {
        let ghost sp = texts(special_tokens@);
        let chars = chars_of(text);
        let specials = chars_of_all(&special_tokens);
        let pieces = scan_text(&chars, &specials);
        let (mut vocab, sequence) = register_pieces(&chars, &specials, &special_tokens, &pieces);
        let ghost start = training_start(text@, sp);
        let ghost ps = scan(text@, sp);
        proof {
            assert(vocab@.len() == vocab.len());
            assert(start.vocab.len() == vocab@.len());
            assert forall|k: int| 0 <= k < sequence@.len() implies #[trigger] sequence@[k] < vocab@.len() by {
                lemma_register_has(sp, ps, k);
                lemma_id_below(start.vocab, ps[k]);
            }
        }
        let mut engine = MergeEngine::new(&sequence, vocab.len());
        let mut merges = FastMap::new();
        let num_merges: usize = target_vocab_size.saturating_sub(vocab.len());
        let mut step: usize = 0;
        let mut done: bool = false;
        let ghost mut s = start;
        while step < num_merges && !done
            invariant
                step <= num_merges,
                engine.forward@ == s.forward,
                engine.ids() == s.ids,
                texts(vocab@) == s.vocab,
                merges@ == s.merges,
                s.forward.len() == s.vocab.len(),
                !done ==> engine.wf(),
                training_run(s, (num_merges - step) as nat) == training_run(start, num_merges as nat),
                done ==> training_run(s, (num_merges - step) as nat) == s,
            decreases
                num_merges - step,
                (if done {
                    0int
                } else {
                    1int
                }),
        {
            let new_id: usize = vocab.len();
            match engine.merge_best(new_id) {
                None => {
                    done = true;
                },
                Some(pair) => {
                    let mut token: String = vocab[pair.0].clone();
                    token.append(vocab[pair.1].as_str());
                    let ghost before = vocab@;
                    vocab.push(token);
                    merges.insert(pair, new_id);
                    proof {
                        assert(texts(vocab@) == texts(before).push(
                            s.vocab[pair.0 as int] + s.vocab[pair.1 as int],
                        ));
                        s = training_step(s, pair);
                    }
                    step += 1;
                },
            }
        }
        BPETokenizer { vocab, merges, special_tokens }
    }

    /// The first vocabulary entry that reads as the piece does.
    fn position(
        &self,
        text: &Vec<char>,
        specials: &Vec<Vec<char>>,
        piece: Piece,
    ) -> (r: Option<usize>)
        requires
            piece_wf(text@, views(specials@), piece),
        ensures
            match r {
                Some(i) => self.tokens().index_of_first(piece_text(text@, views(specials@), piece))
                    == Some(i as int),
                None => self.tokens().index_of_first(piece_text(text@, views(specials@), piece)) is None,
            },
    {
        let wanted: String = match piece.special {
            Some(k) => {
                assert(views(specials@)[k as int] == specials@[k as int]@);
                string_of(&specials[k])
            },
            None => {
                let mut one: Vec<char> = Vec::new();
                one.push(text[piece.at]);
                assert(one@ =~= text@.subrange(piece.at as int, piece.at + 1));
                string_of(&one)
            },
        };
        let ghost t = piece_text(text@, views(specials@), piece);
        assert(wanted@ == t);
        let mut i: usize = 0;
        while i < self.vocab.len()
            invariant
                i <= self.vocab@.len(),
                wanted@ == t,
                t == piece_text(text@, views(specials@), piece),
                forall|j: int| 0 <= j < i ==> #[trigger] self.tokens()[j] != t,
            decreases self.vocab@.len() - i,
        {
            assert(self.tokens()[i as int] == self.vocab@[i as int]@);
            if self.vocab[i] == wanted {
                proof {
                    self.tokens().index_of_first_ensures(t);
                    assert(self.tokens().contains(t));
                    let f = self.tokens().index_of_first(t)->0;
                    if f < i {
                        assert(self.tokens()[f] != t);
                    } else if f > i {
                        assert(self.tokens()[i as int] != t);
                    }
                }
                return Some(i);
            }
            i += 1;
        }
        proof {
            self.tokens().index_of_first_ensures(t);
        }
        None
    }

    /// The tokens of `text`. Pieces that the vocabulary lacks are left out.
    pub fn encode(&self, text: &str) -> (r: Vec<usize>)
        requires
            scan_terminates(text@, self.specials()),
        ensures
            r@ == self.encoding(text@),
    {
        let chars = chars_of(text);
        let specials = chars_of_all(&self.special_tokens);
        let pieces = scan_text(&chars, &specials);
        let ghost ps = scan(text@, self.specials());
        let mut sequence: Vec<usize> = Vec::new();
        let mut i: usize = 0;
        assert(ps.take(0) == Seq::<Seq<char>>::empty());
        while i < pieces.len()
            invariant
                i <= pieces@.len(),
                chars@ == text@,
                views(specials@) == self.specials(),
                ps == piece_texts(text@, self.specials(), pieces@),
                forall|j: int|
                    0 <= j < pieces@.len() ==> piece_wf(text@, self.specials(), #[trigger] pieces@[j]),
                sequence@ == known_ids(self.tokens(), ps.take(i as int)),
            decreases pieces@.len() - i,
        {
            assert(piece_wf(text@, self.specials(), pieces@[i as int]));
            assert(ps.take(i + 1).drop_last() == ps.take(i as int));
            assert(ps.take(i + 1).last() == piece_text(text@, self.specials(), pieces@[i as int]));
            match self.position(&chars, &specials, pieces[i]) {
                Some(pos) => {
                    sequence.push(pos);
                },
                None => {},
            }
            i += 1;
        }
        assert(ps.take(ps.len() as int) == ps);
        let mut done: bool = false;
        while !done
            invariant
                apply_merges(sequence@, self.merges@) == self.encoding(text@),
                done ==> sequence@ == self.encoding(text@),
            decreases
                (if done {
                    0int
                } else {
                    1int
                }),
                sequence@.len(),
        {
            match self.next_merge(&sequence) {
                None => {
                    done = true;
                },
                Some(k) => {
                    assert(sequence@.len() == sequence.len());
                    let pair: (usize, usize) = (sequence[k], sequence[k + 1]);
                    let new_id: usize = self.merges.get(pair).unwrap();
                    proof {
                        lemma_apply_step(sequence@, self.merges@, k as int);
                        lemma_forward_len(sequence@, pair, new_id);
                        assert(occurs_at(sequence@, pair, k as int));
                    }
                    sequence = replace_pair(&sequence, pair, new_id);
                },
            }
        }
        sequence
    }

    /// The position of the merge that comes next.
    fn next_merge(&self, sequence: &Vec<usize>) -> (r: Option<usize>)
        ensures
            match r {
                Some(k) => merges_next(sequence@, self.merges@, k as int),
                None => forall|k: int| !merges_next(sequence@, self.merges@, k),
            },
    {
        let n: usize = sequence.len();
        let mut best: Option<usize> = None;
        let mut min_rank: usize = usize::MAX;
        let mut i: usize = 0;
        while i < n && n - i > 1
            invariant
                i <= n,
                n == sequence@.len(),
                match best {
                    Some(k) => {
                        &&& k < i
                        &&& mergeable(sequence@, self.merges@, k as int)
                        &&& min_rank == self.merges@[pair_of(sequence@, k as int)]
                        &&& forall|j: int|
                            j < i && #[trigger] mergeable(sequence@, self.merges@, j) ==> min_rank
                                <= self.merges@[pair_of(sequence@, j)] && (min_rank
                                == self.merges@[pair_of(sequence@, j)] ==> k <= j)
                    },
                    None => min_rank == usize::MAX && forall|j: int|
                        j < i ==> !#[trigger] mergeable(sequence@, self.merges@, j),
                },
            decreases n - i,
        {
            let pair: (usize, usize) = (sequence[i], sequence[i + 1]);
            assert(pair == pair_of(sequence@, i as int));
            if let Some(new_id) = self.merges.get(pair) {
                if new_id < min_rank {
                    min_rank = new_id;
                    best = Some(i);
                }
            }
            i += 1;
        }
        best
    }

    /// The text of the tokens `ids`.
    pub fn decode(&self, ids: &[usize]) -> (r: String)
        ensures
            r@ == decode_ids(self.tokens(), ids@),
    {
        let mut r = String::new();
        let mut i: usize = 0;
        assert(ids@.take(0) == Seq::<usize>::empty());
        while i < ids.len()
            invariant
                i <= ids@.len(),
                r@ == decode_ids(self.tokens(), ids@.take(i as int)),
            decreases ids@.len() - i,
        {
            let id: usize = ids[i];
            assert(ids@.take(i + 1).drop_last() == ids@.take(i as int));
            let ghost before = r@;
            if id < self.vocab.len() {
                r.append(self.vocab[id].as_str());
            } else {
                assert(before + Seq::<char>::empty() == before);
            }
            i += 1;
        }
        assert(ids@.take(ids@.len() as int) == ids@);
        r
    }
}

/// `sequence` with every occurrence of `pair` replaced by `new_id`, from the left.
fn replace_pair(sequence: &Vec<usize>, pair: (usize, usize), new_id: usize) -> (r: Vec<usize>)
    ensures
        r@ == merge_forward(sequence@, pair, new_id),
{
    let n: usize = sequence.len();
    let mut r: Vec<usize> = Vec::new();
    let mut i: usize = 0;
    assert(sequence@.skip(0) == sequence@);
    while i < n
        invariant
            i <= n,
            n == sequence@.len(),
            r@ + merge_forward(sequence@.skip(i as int), pair, new_id) == merge_forward(
                sequence@,
                pair,
                new_id,
            ),
        decreases n - i,
    {
        let ghost t = sequence@.skip(i as int);
        let ghost before = r@;
        if n - i > 1 && sequence[i] == pair.0 && sequence[i + 1] == pair.1 {
            assert(occurs_at(t, pair, 0));
            assert(t.skip(2) == sequence@.skip(i + 2));
            r.push(new_id);
            i += 2;
            assert(r@ + merge_forward(sequence@.skip(i as int), pair, new_id) == before + (
            seq![new_id] + merge_forward(sequence@.skip(i as int), pair, new_id)));
        } else {
            let id: usize = sequence[i];
            assert(!occurs_at(t, pair, 0));
            assert(t.skip(1) == sequence@.skip(i + 1));
            assert(merge_forward(t, pair, new_id) == seq![id] + merge_forward(t.skip(1), pair, new_id)) by {
                if t.len() < 2 {
                    assert(t == seq![id]);
                    assert(t.skip(1) == Seq::<usize>::empty());
                }
            }
            r.push(id);
            i += 1;
            assert(r@ + merge_forward(sequence@.skip(i as int), pair, new_id) == before + (seq![id]
                + merge_forward(sequence@.skip(i as int), pair, new_id)));
        }
    }
    assert(sequence@.skip(n as int) == Seq::<usize>::empty());
    assert(r@ + Seq::<usize>::empty() == r@);
    r
}

} // verus!
