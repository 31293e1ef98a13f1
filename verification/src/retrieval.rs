//! Retrieval over indexed graph text: filters on stored chunks, the context
//! compressor, the pass-through reranker and the settings of a retrieval.
use vstd::prelude::*;
use vstd::string::StringExecFns;

use crate::text::{
    chars_of, clone_string, is_ws, is_ws_exec, lemma_ws_suffix_start, push_char, starts_with,
    starts_with_exec, str_eq, string_of, string_of_range, to_owned_string, ws_suffix_start,
};

verus! {

broadcast use vstd::string::group_string_axioms;

/// What a stored chunk says about itself, besides its embedding.
#[derive(Debug, Clone)]
pub struct ChunkMeta {
    pub id: String,
    pub iri: Option<String>,
    pub text: String,
    pub graph: Option<String>,
    /// Metadata entries, each key once.
    pub metadata: Vec<(String, String)>,
}

/// A search result: the chunk's id, text and metadata.
#[derive(Debug, Clone)]
pub struct SearchHit {
    pub id: String,
    pub text: String,
    pub metadata: Vec<(String, String)>,
}

/// A condition on chunks, checked after nearest-neighbour retrieval.
#[derive(Debug, Clone)]
pub enum Filter {
    /// The chunk comes from this named graph.
    Graph(String),
    /// The chunk's IRI starts with this prefix.
    IriPrefix(String),
    /// The chunk's metadata maps the key to the value.
    MetadataEq(String, String),
}

/// The value of `k` in metadata entries, the first entry with that key.
pub open spec fn meta_get(m: Seq<(String, String)>, k: Seq<char>) -> Option<Seq<char>>
    decreases m.len(),
{
    if m.len() == 0 {
        None
    } else if m[0].0@ == k {
        Some(m[0].1@)
    } else {
        meta_get(m.skip(1), k)
    }
}

/// Whether a chunk passes a filter.
pub open spec fn spec_matches(f: Filter, c: ChunkMeta) -> bool {
    match f {
        Filter::Graph(g) => match c.graph {
            Some(x) => x@ == g@,
            None => false,
        },
        Filter::IriPrefix(p) => match c.iri {
            Some(i) => starts_with(i@, p@),
            None => false,
        },
        Filter::MetadataEq(k, v) => meta_get(c.metadata@, k@) == Some(v@),
    }
}

/// The value of `k` in metadata entries.
pub fn meta_lookup<'a>(m: &'a Vec<(String, String)>, k: &str) -> (r: Option<&'a String>)
    ensures
        match r {
            Some(v) => meta_get(m@, k@) == Some(v@),
            None => meta_get(m@, k@) is None,
        },
{
    let mut i: usize = 0;
    assert(m@.skip(0) =~= m@);
    while i < m.len()
        invariant
            0 <= i <= m@.len(),
            meta_get(m@, k@) == meta_get(m@.skip(i as int), k@),
        decreases m.len() - i,
    {
        assert(m@.skip(i as int).skip(1) =~= m@.skip(i + 1));
        if str_eq(m[i].0.as_str(), k) {
            return Some(&m[i].1);
        }
        i += 1;
    }
    None
}

impl Filter {
    /// Whether the chunk passes this filter.
    pub fn matches(&self, chunk: &ChunkMeta) -> (r: bool)
        ensures
            r == spec_matches(*self, *chunk),
    {
        match self {
            Filter::Graph(g) => match &chunk.graph {
                Some(x) => str_eq(x.as_str(), g.as_str()),
                None => false,
            },
            Filter::IriPrefix(p) => match &chunk.iri {
                Some(i) => starts_with_exec(&chars_of(i.as_str()), &chars_of(p.as_str())),
                None => false,
            },
            Filter::MetadataEq(k, v) => match meta_lookup(&chunk.metadata, k.as_str()) {
                Some(x) => str_eq(x.as_str(), v.as_str()),
                None => false,
            },
        }
    }
}

// --- Context compression ---

/// The number of bytes of a character in UTF-8.
pub open spec fn char_len(c: char) -> nat {
    if (c as u32) < 0x80 {
        1
    } else if (c as u32) < 0x800 {
        2
    } else if (c as u32) < 0x10000 {
        3
    } else {
        4
    }
}

/// The number of bytes of a text in UTF-8.
pub open spec fn blen(s: Seq<char>) -> nat
    decreases s.len(),
{
    if s.len() == 0 {
        0
    } else {
        blen(s.drop_last()) + char_len(s.last())
    }
}

/// The number of characters of the longest prefix of `s` of at most `n` bytes.
pub open spec fn fit_count(s: Seq<char>, n: int) -> nat
    decreases s.len(),
{
    if s.len() == 0 || blen(s) <= n {
        s.len()
    } else {
        fit_count(s.drop_last(), n)
    }
}

/// The block a hit adds to the context: a citation header, its text and a blank line.
pub open spec fn hit_block(h: SearchHit) -> Seq<char> {
    hit_header(h) + h.text@ + "\n\n"@
}

/// The citation header of a hit.
pub open spec fn hit_header(h: SearchHit) -> Seq<char> {
    "[chunk:"@ + h.id@ + "]\n"@
}

/// The context built from the hits, before trailing whitespace is removed,
/// and whether it was cut short: whole blocks while they fit the budget (in
/// bytes); then, if more than the next block's header fits, as much of that
/// block as fits.
pub open spec fn fill(hs: Seq<SearchHit>, budget: int) -> (Seq<char>, bool)
    decreases hs.len(),
{
    if hs.len() == 0 {
        (Seq::empty(), false)
    } else {
        let (acc, cut) = fill(hs.drop_last(), budget);
        if cut {
            (acc, true)
        } else {
            let b = hit_block(hs.last());
            if blen(acc) + blen(b) <= budget {
                (acc + b, false)
            } else {
                let remaining = if budget > blen(acc) { budget - blen(acc) } else { 0 };
                if remaining > blen(hit_header(hs.last())) {
                    (acc + b.take(fit_count(b, remaining) as int), true)
                } else {
                    (acc, true)
                }
            }
        }
    }
}

/// Whether the cut, if the hits need one, falls between two characters.
pub open spec fn cut_on_boundary(hs: Seq<SearchHit>, budget: int) -> bool
    decreases hs.len(),
{
    if hs.len() == 0 {
        true
    } else {
        let (acc, cut) = fill(hs.drop_last(), budget);
        if cut {
            cut_on_boundary(hs.drop_last(), budget)
        } else {
            let b = hit_block(hs.last());
            let remaining = if budget > blen(acc) { budget - blen(acc) } else { 0 };
            blen(acc) + blen(b) <= budget || remaining <= blen(hit_header(hs.last()))
                || blen(b.take(fit_count(b, remaining) as int)) == remaining
        }
    }
}

/// `t` with trailing whitespace removed.
pub open spec fn trim_end(t: Seq<char>) -> Seq<char> {
    t.take(ws_suffix_start(t, t.len() as int))
}

/// The context of the hits within `token_budget` tokens of about four bytes.
pub open spec fn spec_compress(hs: Seq<SearchHit>, token_budget: int) -> Seq<char> {
    if hs.len() == 0 {
        Seq::empty()
    } else {
        trim_end(fill(hs, token_budget * 4).0)
    }
}

/// The number of bytes of a character in UTF-8.
fn char_len_exec(c: char) -> (r: usize)
    ensures
        r == char_len(c),
{
    if (c as u32) < 0x80 {
        1
    } else if (c as u32) < 0x800 {
        2
    } else if (c as u32) < 0x10000 {
        3
    } else {
        4
    }
}

/// The byte length of a character vector, which never exceeds four bytes a character.
fn byte_len(v: &Vec<char>) -> (r: usize)
    requires
        v@.len() * 4 <= usize::MAX,
    ensures
        r == blen(v@),
{
    let mut n: usize = 0;
    let mut i: usize = 0;
    while i < v.len()
        invariant
            0 <= i <= v@.len(),
            v@.len() * 4 <= usize::MAX,
            n == blen(v@.take(i as int)),
            n <= i * 4,
        decreases v.len() - i,
    {
        assert(v@.take(i + 1).drop_last() =~= v@.take(i as int));
        n = n + char_len_exec(v[i]);
        i += 1;
    }
    assert(v@.take(v@.len() as int) =~= v@);
    n
}

/// A text never takes more than four bytes a character.
proof fn lemma_blen_bound(s: Seq<char>)
    ensures
        blen(s) <= s.len() * 4,
    decreases s.len(),
{
    if s.len() > 0 {
        lemma_blen_bound(s.drop_last());
    }
}

/// Longer prefixes take at least as many bytes.
proof fn lemma_blen_take_mono(s: Seq<char>, a: int, b: int)
    requires
        0 <= a <= b <= s.len(),
    ensures
        blen(s.take(a)) <= blen(s.take(b)),
    decreases b - a,
{
    if a < b {
        assert(s.take(b).drop_last() =~= s.take(b - 1));
        lemma_blen_take_mono(s, a, b - 1);
    }
}

/// `fit_count` is the largest prefix that fits.
proof fn lemma_fit_count(s: Seq<char>, n: int)
    requires
        n >= 0,
    ensures
        fit_count(s, n) <= s.len(),
        blen(s.take(fit_count(s, n) as int)) <= n,
        fit_count(s, n) < s.len() ==> blen(s.take(fit_count(s, n) as int + 1)) > n,
    decreases s.len(),
{
    if s.len() == 0 {
        assert(s.take(0) =~= s);
    } else if blen(s) <= n {
        assert(s.take(s.len() as int) =~= s);
    } else {
        lemma_fit_count(s.drop_last(), n);
        let k = fit_count(s.drop_last(), n);
        assert(s.drop_last().take(k as int) =~= s.take(k as int));
        if k < s.len() - 1 {
            assert(s.drop_last().take(k as int + 1) =~= s.take(k as int + 1));
        } else {
            assert(s.take(k as int + 1) =~= s);
        }
    }
}


/// Filling never goes past the budget.
proof fn lemma_fill_fits(hs: Seq<SearchHit>, budget: int)
    requires
        budget >= 0,
    ensures
        blen(fill(hs, budget).0) <= budget,
    decreases hs.len(),
{
    if hs.len() > 0 {
        lemma_fill_fits(hs.drop_last(), budget);
        let (acc, cut) = fill(hs.drop_last(), budget);
        if !cut {
            let b = hit_block(hs.last());
            lemma_blen_append(acc, b);
            let remaining = if budget > blen(acc) { budget - blen(acc) } else { 0 };
            lemma_fit_count(b, remaining);
            lemma_blen_append(acc, b.take(fit_count(b, remaining) as int));
        }
    }
}

/// The context built from search hits never takes more than four bytes per
/// token of the budget.
pub proof fn law_context_within_budget(hits: Seq<SearchHit>, token_budget: int)
    requires
        token_budget >= 0,
    ensures
        blen(spec_compress(hits, token_budget)) <= token_budget * 4,
{
    if hits.len() > 0 {
        let t = fill(hits, token_budget * 4).0;
        lemma_fill_fits(hits, token_budget * 4);
        lemma_ws_suffix_start(t, t.len() as int);
        lemma_blen_take_mono(t, ws_suffix_start(t, t.len() as int), t.len() as int);
        assert(t.take(t.len() as int) =~= t);
    }
}

/// The characters of the longest prefix of `v` of at most `n` bytes.
fn fit_prefix(v: &Vec<char>, n: usize) -> (r: usize)
    requires
        v@.len() * 4 <= usize::MAX,
    ensures
        r == fit_count(v@, n as int),
{
    proof {
        lemma_fit_count(v@, n as int);
    }
    let mut k: usize = 0;
    let mut used: usize = 0;
    while k < v.len() && used + char_len_exec(v[k]) <= n
        invariant
            0 <= k <= v@.len(),
            v@.len() * 4 <= usize::MAX,
            used == blen(v@.take(k as int)),
            used <= n,
            used <= k * 4,
            k <= fit_count(v@, n as int),
            fit_count(v@, n as int) <= v@.len(),
            blen(v@.take(fit_count(v@, n as int) as int)) <= n,
            fit_count(v@, n as int) < v@.len() ==> blen(v@.take(fit_count(v@, n as int) as int + 1)) > n,
        decreases v.len() - k,
    {
        assert(v@.take(k + 1).drop_last() =~= v@.take(k as int));
        used = used + char_len_exec(v[k]);
        k += 1;
        proof {
            if k > fit_count(v@, n as int) {
                lemma_blen_take_mono(v@, fit_count(v@, n as int) as int + 1, k as int);
            }
        }
    }
    proof {
        if k < v@.len() && k < fit_count(v@, n as int) {
            assert(v@.take(k + 1).drop_last() =~= v@.take(k as int));
            lemma_blen_take_mono(v@, k + 1, fit_count(v@, n as int) as int);
        }
    }
    k
}

/// Compresses hits into one context within a token budget.
pub struct TruncatingCompressor;

impl TruncatingCompressor {
    /// The hits, in order, each as a `[chunk:<id>]` header line, its text and
    /// a blank line, within `token_budget * 4` bytes: once a block does not
    /// fit, as much of it as fits is kept if more than its header fits, and
    /// the rest is dropped. Trailing whitespace is removed.
    #[verifier::rlimit(40)]
    pub fn compress(&self, hits: &Vec<SearchHit>, token_budget: usize) -> (r: String)
        requires
            token_budget * 4 <= usize::MAX,
            cut_on_boundary(hits@, token_budget * 4),
            forall|i: int| 0 <= i < hits@.len() ==> (#[trigger] hit_block(hits@[i])).len() * 4 <= usize::MAX,
        ensures
            r@ == spec_compress(hits@, token_budget as int),
    {
        if hits.len() == 0 {
            return String::new();
        }
        let budget: usize = token_budget * 4;
        let mut acc: Vec<char> = Vec::new();
        let mut acc_len: usize = 0;
        let mut i: usize = 0;
        let mut cut = false;
        while i < hits.len() && !cut
            invariant
                0 <= i <= hits@.len(),
                budget == token_budget * 4,
                forall|j: int| 0 <= j < hits@.len() ==> (#[trigger] hit_block(hits@[j])).len() * 4 <= usize::MAX,
                cut_on_boundary(hits@, budget as int),
                !cut ==> fill(hits@.take(i as int), budget as int) == (acc@, false),
                cut ==> fill(hits@, budget as int).0 == acc@,
                !cut ==> acc_len == blen(acc@) && acc_len <= budget,
            decreases hits.len() - i,
        {
            assert(hits@.take(i + 1).drop_last() =~= hits@.take(i as int));
            let h = &hits[i];
            let mut header = to_owned_string("[chunk:");
            header.append(h.id.as_str());
            header.append("]\n");
            let mut block = clone_string(&header);
            block.append(h.text.as_str());
            block.append("\n\n");
            let hc = chars_of(header.as_str());
            let bc = chars_of(block.as_str());
            assert(bc@ == hit_block(hits@[i as int]));
            proof {
                assert(hc@ =~= hit_header(hits@[i as int]));
                assert(bc@ =~= hc@ + h.text@ + "\n\n"@);
            }
            let blen_b = byte_len(&bc);
            if blen_b <= budget - acc_len {
                let mut k: usize = 0;
                let ghost a0 = acc@;
                while k < bc.len()
                    invariant
                        0 <= k <= bc@.len(),
                        acc@ == a0 + bc@.take(k as int),
                    decreases bc.len() - k,
                {
                    acc.push(bc[k]);
                    assert(acc@ =~= a0 + bc@.take(k + 1));
                    k += 1;
                }
                assert(bc@.take(bc@.len() as int) =~= bc@);
                proof {
                    lemma_blen_append(a0, bc@);
                }
                acc_len = acc_len + blen_b;
            } else {
                let remaining: usize = if budget > acc_len { budget - acc_len } else { 0 };
                proof {
                    lemma_blen_bound(hc@);
                }
                assert(hc@.len() <= bc@.len());
                let hlen = byte_len(&hc);
                if remaining > hlen {
                    let k_fit = fit_prefix(&bc, remaining);
                    proof {
                        lemma_fit_count(bc@, remaining as int);
                    }
                    let mut k: usize = 0;
                    let ghost a0 = acc@;
                    while k < k_fit
                        invariant
                            0 <= k <= k_fit <= bc@.len(),
                            acc@ == a0 + bc@.take(k as int),
                        decreases k_fit - k,
                    {
                        acc.push(bc[k]);
                        assert(acc@ =~= a0 + bc@.take(k + 1));
                        k += 1;
                    }
                    proof {
                        lemma_fit_count(bc@, remaining as int);
                    }
                }
                cut = true;
                proof {
                    lemma_fill_stop(hits@, budget as int, i + 1);
                }
            }
            i += 1;
        }
        if !cut {
            assert(hits@.take(hits@.len() as int) =~= hits@);
        }
        let end = trim_end_len(&acc);
        string_of_range(&acc, 0, end)
    }
}


/// What one hit adds: its block's characters and their byte count, and the byte count of its header.
fn block_of(h: &SearchHit) -> (r: (Vec<char>, Vec<char>))
    ensures
        r.0@ == hit_block(*h),
        r.1@ == hit_header(*h),
{
    let mut header = to_owned_string("[chunk:");
    header.append(h.id.as_str());
    header.append("]\n");
    let mut block = clone_string(&header);
    block.append(h.text.as_str());
    block.append("\n\n");
    let hc = chars_of(header.as_str());
    let bc = chars_of(block.as_str());
    proof {
        assert(hc@ =~= hit_header(*h));
        assert(bc@ =~= hit_header(*h) + h.text@ + "\n\n"@);
    }
    (bc, hc)
}

/// Once the context is cut short, later hits leave the cut where it is.
proof fn lemma_cut_stop(hs: Seq<SearchHit>, budget: int, k: int)
    requires
        0 <= k <= hs.len(),
        fill(hs.take(k), budget).1,
    ensures
        cut_on_boundary(hs, budget) == cut_on_boundary(hs.take(k), budget),
    decreases hs.len(),
{
    if k == hs.len() {
        assert(hs.take(k) =~= hs);
    } else {
        assert(hs.drop_last().take(k) =~= hs.take(k));
        lemma_fill_stop(hs.drop_last(), budget, k);
        lemma_cut_stop(hs.drop_last(), budget, k);
    }
}

/// Whether the hits can be compressed within `token_budget` tokens: the
/// budget in bytes and every block fit the machine's sizes, and a block cut
/// short is cut between two characters.
pub fn compress_input_ok(hits: &Vec<SearchHit>, token_budget: usize) -> (r: bool)
    ensures
        r == (token_budget * 4 <= usize::MAX && (forall|i: int| 0 <= i < hits@.len() ==> (#[trigger] hit_block(hits@[i])).len() * 4 <= usize::MAX)
            && cut_on_boundary(hits@, token_budget * 4)),
{
    if token_budget > usize::MAX / 4 {
        return false;
    }
    let mut j: usize = 0;
    while j < hits.len()
        invariant
            0 <= j <= hits@.len(),
            forall|i: int| 0 <= i < j ==> (#[trigger] hit_block(hits@[i])).len() * 4 <= usize::MAX,
        decreases hits.len() - j,
    {
        let (bc, _hc) = block_of(&hits[j]);
        if bc.len() > usize::MAX / 4 {
            return false;
        }
        j += 1;
    }
    let budget: usize = token_budget * 4;
    let ghost mut acc: Seq<char> = Seq::empty();
    let mut acc_len: usize = 0;
    let mut i: usize = 0;
    assert(hits@.take(0) =~= Seq::<SearchHit>::empty());
    while i < hits.len()
        invariant
            0 <= i <= hits@.len(),
            budget == token_budget * 4,
            forall|k: int| 0 <= k < hits@.len() ==> (#[trigger] hit_block(hits@[k])).len() * 4 <= usize::MAX,
            fill(hits@.take(i as int), budget as int) == (acc, false),
            cut_on_boundary(hits@.take(i as int), budget as int),
            acc_len == blen(acc),
            acc_len <= budget,
        decreases hits.len() - i,
    {
        assert(hits@.take(i + 1).drop_last() =~= hits@.take(i as int));
        let (bc, hc) = block_of(&hits[i]);
        let blen_b = byte_len(&bc);
        if blen_b <= budget - acc_len {
            proof {
                lemma_blen_append(acc, bc@);
                acc = acc + bc@;
            }
            acc_len = acc_len + blen_b;
        } else {
            let remaining: usize = budget - acc_len;
            proof {
                lemma_blen_bound(hc@);
            }
            assert(hc@.len() <= bc@.len());
            let hlen = byte_len(&hc);
            let ok = if remaining > hlen {
                let k_fit = fit_prefix(&bc, remaining);
                proof {
                    lemma_fit_count(bc@, remaining as int);
                }
                let taken = slice_chars(&bc, k_fit);
                proof {
                    lemma_blen_bound(taken@);
                }
                byte_len(&taken) == remaining
            } else {
                true
            };
            proof {
                lemma_cut_stop(hits@, budget as int, i + 1);
            }
            return ok;
        }
        i += 1;
    }
    assert(hits@.take(hits@.len() as int) =~= hits@);
    true
}

/// The first `k` characters.
fn slice_chars(v: &Vec<char>, k: usize) -> (r: Vec<char>)
    requires
        k <= v@.len(),
    ensures
        r@ == v@.take(k as int),
{
    let mut out: Vec<char> = Vec::new();
    let mut i: usize = 0;
    while i < k
        invariant
            0 <= i <= k <= v@.len(),
            out@ == v@.take(i as int),
        decreases k - i,
    {
        out.push(v[i]);
        assert(out@ =~= v@.take(i + 1));
        i += 1;
    }
    out
}

/// Bytes add up over concatenation.
proof fn lemma_blen_append(a: Seq<char>, b: Seq<char>)
    ensures
        blen(a + b) == blen(a) + blen(b),
    decreases b.len(),
{
    if b.len() == 0 {
        assert(a + b =~= a);
    } else {
        assert((a + b).drop_last() =~= a + b.drop_last());
        lemma_blen_append(a, b.drop_last());
    }
}

/// Once the context is cut short, later hits change nothing.
proof fn lemma_fill_stop(hs: Seq<SearchHit>, budget: int, k: int)
    requires
        0 <= k <= hs.len(),
        fill(hs.take(k), budget).1,
    ensures
        fill(hs, budget) == fill(hs.take(k), budget),
    decreases hs.len(),
{
    if k == hs.len() {
        assert(hs.take(k) =~= hs);
    } else {
        assert(hs.drop_last().take(k) =~= hs.take(k));
        lemma_fill_stop(hs.drop_last(), budget, k);
    }
}

/// The length of `v` without its trailing whitespace.
fn trim_end_len(v: &Vec<char>) -> (r: usize)
    ensures
        r <= v@.len(),
        v@.take(r as int) == trim_end(v@),
{
    let mut b: usize = v.len();
    while b > 0 && is_ws_exec(v[b - 1])
        invariant
            b <= v@.len(),
            ws_suffix_start(v@, v@.len() as int) == ws_suffix_start(v@, b as int),
        decreases b,
    {
        b -= 1;
    }
    b
}

// --- Reranking and retrieval settings ---

/// A reranker that keeps the hits as they are.
pub struct PassThroughReranker;

impl PassThroughReranker {
    /// The hits unchanged, whatever the query.
    pub fn rerank<T>(&self, query: &str, hits: Vec<T>) -> (r: Vec<T>)
        ensures
            r == hits,
    {
        hits
    }
}

/// Reorders the hits of a search for a query.
pub trait Reranker: Send + Sync {
    /// Whether `r` is an outcome this reranker may give for `query` and
    /// `hits`: each reranker says what it gives; one that says nothing allows
    /// any outcome.
    closed spec fn reranks(&self, query: Seq<char>, hits: Seq<SearchHit>, r: Result<Vec<SearchHit>, crate::types::ToolError>) -> bool {
        true
    }

    fn rerank(&self, query: &str, hits: Vec<SearchHit>) -> (r: Result<Vec<SearchHit>, crate::types::ToolError>)
        ensures
            self.reranks(query@, hits@, r),
    ;
}

impl Reranker for PassThroughReranker {
    /// The hits come back as they are.
    open spec fn reranks(&self, query: Seq<char>, hits: Seq<SearchHit>, r: Result<Vec<SearchHit>, crate::types::ToolError>) -> bool {
        r matches Ok(v) && v@ == hits
    }

    fn rerank(&self, query: &str, hits: Vec<SearchHit>) -> (r: Result<Vec<SearchHit>, crate::types::ToolError>) {
        Ok(PassThroughReranker::rerank::<SearchHit>(self, query, hits))
    }
}

/// Compresses hits into one context within a token budget.
pub trait ContextCompressor: Send + Sync {
    /// Whether `r` is an outcome this compressor may give for `hits` within
    /// `token_budget` tokens: each compressor says what it gives; one that
    /// says nothing allows any outcome.
    closed spec fn compresses(&self, hits: Seq<SearchHit>, token_budget: usize, r: Result<String, crate::types::ToolError>) -> bool {
        true
    }

    fn compress_hits(&self, hits: &Vec<SearchHit>, token_budget: usize) -> (r: Result<String, crate::types::ToolError>)
        ensures
            self.compresses(hits@, token_budget, r),
    ;
}

/// The hits can be compressed within `token_budget` tokens: the budget in
/// bytes and every block fit the machine's sizes, and a block cut short is
/// cut between two characters.
pub open spec fn compress_input_fits(hits: Seq<SearchHit>, token_budget: usize) -> bool {
    &&& token_budget * 4 <= usize::MAX
    &&& forall|i: int| 0 <= i < hits.len() ==> (#[trigger] hit_block(hits[i])).len() * 4 <= usize::MAX
    &&& cut_on_boundary(hits, token_budget * 4)
}

impl ContextCompressor for TruncatingCompressor {
    /// The truncated context of `compress`; where its cut would fall inside
    /// a character, an error.
    open spec fn compresses(&self, hits: Seq<SearchHit>, token_budget: usize, r: Result<String, crate::types::ToolError>) -> bool {
        if compress_input_fits(hits, token_budget) {
            r matches Ok(t) && t@ == spec_compress(hits, token_budget as int)
        } else {
            r matches Err(crate::types::ToolError::Failed(m)) && m@ == "context cut inside a character"@
        }
    }

    fn compress_hits(&self, hits: &Vec<SearchHit>, token_budget: usize) -> (r: Result<String, crate::types::ToolError>) {
        if compress_input_ok(hits, token_budget) {
            Ok(TruncatingCompressor::compress(self, hits, token_budget))
        } else {
            Err(crate::types::ToolError::Failed(to_owned_string("context cut inside a character")))
        }
    }
}

/// The settings of one retrieval.
pub struct RetrievalConfig {
    /// How many hits to fetch from the vector store at most.
    pub top_k: usize,
    /// A filter applied during the search.
    pub filter: Option<Filter>,
    /// The approximate token budget of the context; 0 skips reranking and
    /// compression and returns the raw hits.
    pub token_budget: usize,
}

impl Default for RetrievalConfig {
    fn default() -> (r: Self)
        ensures
            r.top_k == 20,
            r.filter is None,
            r.token_budget == 4096,
    {
        RetrievalConfig { top_k: 20, filter: None, token_budget: 4096 }
    }
}

/// An embedding provider for tests, of a fixed dimension.
pub struct MockEmbeddingProvider {
    pub dim: usize,
}

impl MockEmbeddingProvider {
    /// A provider of vectors of dimension `dim`.
    pub fn new(dim: usize) -> (r: Self)
        ensures
            r.dim == dim,
    {
        MockEmbeddingProvider { dim }
    }

    /// The dimension of its vectors.
    pub fn dimension(&self) -> (r: Option<usize>)
        ensures
            r == Some(self.dim),
    {
        Some(self.dim)
    }
}

/// What a retrieval gives: the hits, and the context built from them.
pub struct RetrievalResult {
    pub hits: Vec<SearchHit>,
    pub context: String,
}

/// The settings of a retrieval for the RAG tool: at most `top_k` hits (20 when
/// not given), no filter, the default token budget.
pub fn rag_config(top_k: Option<usize>) -> (r: RetrievalConfig)
    ensures
        r.top_k == match top_k {
            Some(k) => k,
            None => 20usize,
        },
        r.filter is None,
        r.token_budget == 4096,
{
    let d = RetrievalConfig::default();
    RetrievalConfig {
        top_k: match top_k {
            Some(k) => k,
            None => 20,
        },
        filter: None,
        token_budget: d.token_budget,
    }
}

/// Ends a retrieval from the hits of the search: with a zero token budget, the
/// hits and no context; otherwise the hits reranked, and the context compressed
/// from them within the budget.
pub fn finish_retrieval(query: &str, hits: Vec<SearchHit>, config: &RetrievalConfig) -> (r: RetrievalResult)
    requires
        config.token_budget * 4 <= usize::MAX,
        cut_on_boundary(hits@, config.token_budget * 4),
        forall|i: int| 0 <= i < hits@.len() ==> (#[trigger] hit_block(hits@[i])).len() * 4 <= usize::MAX,
    ensures
        r.hits == hits,
        r.context@ == if config.token_budget == 0 {
            Seq::empty()
        } else {
            spec_compress(hits@, config.token_budget as int)
        },
{
    if config.token_budget == 0 {
        return RetrievalResult { hits, context: String::new() };
    }
    let hits = PassThroughReranker.rerank(query, hits);
    let context = TruncatingCompressor.compress(&hits, config.token_budget);
    RetrievalResult { hits, context }
}

/// Ends a retrieval from the hits of the search with the given reranker and
/// compressor: with a zero token budget, the hits and no context, neither of
/// them asked; otherwise the hits as the reranker gives them back, and the
/// context the compressor makes of those; an error of either is returned as
/// it came.
pub fn finish_retrieval_with<Rr: Reranker + ?Sized, C: ContextCompressor + ?Sized>(
    query: &str,
    hits: Vec<SearchHit>,
    config: &RetrievalConfig,
    reranker: &Rr,
    compressor: &C,
) -> (r: Result<RetrievalResult, crate::types::ToolError>)
    ensures
        config.token_budget == 0 ==> (r matches Ok(res) && res.hits@ == hits@ && res.context@ == Seq::<char>::empty()),
        config.token_budget != 0 ==> exists|g: Result<Vec<SearchHit>, crate::types::ToolError>|
            #![trigger reranker.reranks(query@, hits@, g)]
            reranker.reranks(query@, hits@, g) && match g {
                Err(e) => r == Err::<RetrievalResult, crate::types::ToolError>(e),
                Ok(h2) => exists|c: Result<String, crate::types::ToolError>|
                    #![trigger compressor.compresses(h2@, config.token_budget, c)]
                    compressor.compresses(h2@, config.token_budget, c) && match c {
                        Err(e) => r == Err::<RetrievalResult, crate::types::ToolError>(e),
                        Ok(t) => r matches Ok(res) && res.hits@ == h2@ && res.context@ == t@,
                    },
            },
{
    if config.token_budget == 0 {
        return Ok(RetrievalResult { hits, context: String::new() });
    }
    let ghost h0 = hits@;
    let g = reranker.rerank(query, hits);
    let ghost gg = g;
    match g {
        Err(e) => {
            let r = Err(e);
            assert(reranker.reranks(query@, h0, gg));
            r
        },
        Ok(h2) => {
            let c = compressor.compress_hits(&h2, config.token_budget);
            let ghost cc = c;
            let ghost hh = h2@;
            match c {
                Err(e) => {
                    let r = Err(e);
                    assert(compressor.compresses(hh, config.token_budget, cc));
                    assert(reranker.reranks(query@, h0, gg));
                    r
                },
                Ok(t) => {
                    let r = Ok(RetrievalResult { hits: h2, context: t });
                    assert(compressor.compresses(hh, config.token_budget, cc));
                    assert(reranker.reranks(query@, h0, gg));
                    r
                },
            }
        },
    }
}

/// The citations of hits: the id of each, in order.
pub open spec fn hit_citations(hits: Seq<SearchHit>) -> Seq<crate::types::CitationModel> {
    hits.map_values(|h: SearchHit| crate::types::CitationModel::ChunkId(h.id@))
}

/// The answer of the RAG tool: the context, cited by the id of each hit, in order.
pub fn rag_output(r: &RetrievalResult) -> (out: crate::types::ToolOutput)
    ensures
        out.content@ == r.context@,
        crate::types::cites(out.citations@) == hit_citations(r.hits@),
{
    let mut citations: Vec<crate::types::Citation> = Vec::new();
    let mut i: usize = 0;
    while i < r.hits.len()
        invariant
            0 <= i <= r.hits@.len(),
            crate::types::cites(citations@) == hit_citations(r.hits@.take(i as int)),
        decreases r.hits.len() - i,
    {
        let ghost before = citations@;
        let id = clone_string(&r.hits[i].id);
        citations.push(crate::types::Citation::ChunkId(id));
        assert(citations@ == before.push(crate::types::Citation::ChunkId(id)));
        assert(crate::types::cites(citations@) =~= crate::types::cites(before).push(crate::types::CitationModel::ChunkId(r.hits@[i as int].id@)));
        assert(r.hits@.take(i + 1) =~= r.hits@.take(i as int).push(r.hits@[i as int]));
        assert(crate::types::cites(citations@) =~= hit_citations(r.hits@.take(i + 1)));
        i += 1;
    }
    assert(r.hits@.take(r.hits@.len() as int) =~= r.hits@);
    crate::types::ToolOutput { content: clone_string(&r.context), citations }
}

// --- Indexing ---

/// The query that reads the triples to index: all of them, or those of graph
/// `g`, keeping only subjects whose IRI starts with `prefix` when one is given.
pub open spec fn triples_query_text(g: Option<Seq<char>>, prefix: Option<Seq<char>>) -> Seq<char> {
    "SELECT ?s ?p ?o WHERE { "@ + match g {
        Some(x) => "GRAPH <"@ + x + "> { ?s ?p ?o }"@,
        None => "?s ?p ?o"@,
    } + match prefix {
        Some(p) => " FILTER(STRSTARTS(STR(?s), \""@ + p + "\"))"@,
        None => Seq::empty(),
    } + " }"@
}

/// The query that reads the triples to index.
pub fn triples_query(graph: Option<&str>, iri_prefix: Option<&str>) -> (r: String)
    ensures
        r@ == triples_query_text(match graph {
            Some(g) => Some(g@),
            None => None,
        }, match iri_prefix {
            Some(p) => Some(p@),
            None => None,
        }),
{
    let mut q = to_owned_string("SELECT ?s ?p ?o WHERE { ");
    match graph {
        Some(g) => {
            q.append("GRAPH <");
            q.append(g);
            q.append("> { ?s ?p ?o }");
        },
        None => q.append("?s ?p ?o"),
    }
    match iri_prefix {
        Some(p) => {
            q.append(" FILTER(STRSTARTS(STR(?s), \"");
            q.append(p);
            q.append("\"))");
        },
        None => {},
    }
    q.append(" }");
    q
}

/// A term of a query solution.
pub enum SolutionTerm {
    Named(String),
    Blank(String),
    Literal { value: String, datatype: String },
}

/// The text of a term for canonicalization: an IRI as it is, a blank node as
/// `_:<id>`, a string literal quoted, any other literal quoted with `^^` and
/// its datatype.
pub open spec fn term_text(t: SolutionTerm) -> Seq<char> {
    match t {
        SolutionTerm::Named(i) => i@,
        SolutionTerm::Blank(b) => "_:"@ + b@,
        SolutionTerm::Literal { value, datatype } => if datatype@ == "http://www.w3.org/2001/XMLSchema#string"@
            || datatype@ == "http://www.w3.org/1999/02/22-rdf-syntax-ns#langString"@ {
            "\""@ + value@ + "\""@
        } else {
            "\""@ + value@ + "\"^^"@ + datatype@
        },
    }
}

/// The text of a term for canonicalization.
pub fn term_to_string(t: &SolutionTerm) -> (r: String)
    ensures
        r@ == term_text(*t),
{
    match t {
        SolutionTerm::Named(i) => clone_string(i),
        SolutionTerm::Blank(b) => {
            let mut out = to_owned_string("_:");
            out.append(b.as_str());
            out
        },
        SolutionTerm::Literal { value, datatype } => {
            let mut out = to_owned_string("\"");
            out.append(value.as_str());
            if str_eq(datatype.as_str(), "http://www.w3.org/2001/XMLSchema#string")
                || str_eq(datatype.as_str(), "http://www.w3.org/1999/02/22-rdf-syntax-ns#langString") {
                out.append("\"");
            } else {
                out.append("\"^^");
                out.append(datatype.as_str());
            }
            out
        },
    }
}

/// The type recorded for `subject`: the object of its last `rdf:type` triple.
pub open spec fn type_of(ts: Seq<(Seq<char>, Seq<char>, Seq<char>)>, rdf_type: Seq<char>, subject: Seq<char>) -> Option<Seq<char>>
    decreases ts.len(),
{
    if ts.len() == 0 {
        None
    } else if ts.last().1 == rdf_type && ts.last().0 == subject {
        Some(ts.last().2)
    } else {
        type_of(ts.drop_last(), rdf_type, subject)
    }
}

/// The chunks to store for canonical subject texts: each with the stable id of
/// its subject, the subject as IRI, the text, the graph, and its type as
/// `rdf:type` metadata when it has one.
pub open spec fn chunk_ok(c: ChunkMeta, subject: Seq<char>, text: Seq<char>, graph: Option<Seq<char>>, ty: Option<Seq<char>>) -> bool {
    &&& c.id@ == crate::hash::hex16(crate::hash::fnv1a(crate::hash::utf8(subject)))
    &&& c.iri matches Some(i) && i@ == subject
    &&& c.text@ == text
    &&& match c.graph {
        Some(g) => graph == Some(g@),
        None => graph is None,
    }
    &&& match ty {
        Some(t) => c.metadata@.len() == 1 && c.metadata@[0].0@ == "rdf:type"@ && c.metadata@[0].1@ == t,
        None => c.metadata@.len() == 0,
    }
}

/// The chunks to store for a batch of canonical subject texts; types come from
/// the `rdf:type` triples of the subjects read.
pub fn chunk_metas(batch: &Vec<(String, String)>, triples: &Vec<crate::canonicalize::RawTriple>, rdf_type: &str, graph: Option<&str>) -> (r: Vec<ChunkMeta>)
    ensures
        r@.len() == batch@.len(),
        forall|i: int| 0 <= i < r@.len() ==> chunk_ok(#[trigger] r@[i], batch@[i].0@, batch@[i].1@, match graph {
            Some(g) => Some(g@),
            None => None,
        }, type_of(triples@.map_values(|t: crate::canonicalize::RawTriple| t@), rdf_type@, batch@[i].0@)),
{
    let ghost ts = triples@.map_values(|t: crate::canonicalize::RawTriple| t@);
    let ghost gm: Option<Seq<char>> = match graph {
        Some(g) => Some(g@),
        None => None,
    };
    let mut out: Vec<ChunkMeta> = Vec::new();
    let mut i: usize = 0;
    while i < batch.len()
        invariant
            0 <= i <= batch@.len(),
            ts == triples@.map_values(|t: crate::canonicalize::RawTriple| t@),
            gm == match graph {
                Some(g) => Some(g@),
                None => None::<Seq<char>>,
            },
            out@.len() == i,
            forall|j: int| 0 <= j < i ==> chunk_ok(#[trigger] out@[j], batch@[j].0@, batch@[j].1@, gm, type_of(ts, rdf_type@, batch@[j].0@)),
        decreases batch.len() - i,
    {
        let subject = batch[i].0.as_str();
        let ty = subject_type(triples, rdf_type, subject);
        let mut metadata: Vec<(String, String)> = Vec::new();
        match ty {
            Some(t) => metadata.push((to_owned_string("rdf:type"), t)),
            None => {},
        }
        let c = ChunkMeta {
            id: crate::hash::stable_id(subject),
            iri: Some(to_owned_string(subject)),
            text: clone_string(&batch[i].1),
            graph: match graph {
                Some(g) => Some(to_owned_string(g)),
                None => None,
            },
            metadata,
        };
        out.push(c);
        i += 1;
    }
    out
}

/// The type recorded for `subject`: the object of its last `rdf:type` triple.
fn subject_type(triples: &Vec<crate::canonicalize::RawTriple>, rdf_type: &str, subject: &str) -> (r: Option<String>)
    ensures
        match r {
            Some(t) => type_of(triples@.map_values(|t: crate::canonicalize::RawTriple| t@), rdf_type@, subject@) == Some(t@),
            None => type_of(triples@.map_values(|t: crate::canonicalize::RawTriple| t@), rdf_type@, subject@) is None,
        },
{
    let ghost ts = triples@.map_values(|t: crate::canonicalize::RawTriple| t@);
    let mut i: usize = triples.len();
    assert(ts.take(ts.len() as int) =~= ts);
    while i > 0
        invariant
            0 <= i <= triples@.len(),
            ts == triples@.map_values(|t: crate::canonicalize::RawTriple| t@),
            type_of(ts, rdf_type@, subject@) == type_of(ts.take(i as int), rdf_type@, subject@),
        decreases i,
    {
        assert(ts.take(i as int).drop_last() =~= ts.take(i - 1));
        let t = &triples[i - 1];
        if str_eq(t.predicate.as_str(), rdf_type) && str_eq(t.subject.as_str(), subject) {
            return Some(clone_string(&t.object));
        }
        i -= 1;
    }
    None
}

/// What indexing did: how many chunks it stored and subjects it read.
#[derive(Debug)]
pub struct IndexResult {
    pub chunks_indexed: usize,
    pub subjects_processed: usize,
}


// --- The retrieval tool ---

/// Retrieves the hits and context for a query with the given settings: the
/// vector search, then `finish_retrieval_with` on its hits, with the
/// retriever's own reranker and compressor.
pub trait Retriever: Send + Sync {
    /// Whether `r` is an outcome this retriever may give for `query` with the
    /// settings `config`: each retriever says what it retrieves.
    closed spec fn retrieves(&self, query: Seq<char>, config: RetrievalConfig, r: Result<RetrievalResult, crate::types::ToolError>) -> bool {
        true
    }

    fn retrieve(&self, query: &str, config: &RetrievalConfig) -> (r: Result<RetrievalResult, crate::types::ToolError>)
        ensures
            self.retrieves(query@, *config, r),
    ;
}

/// `r` is the retrieval tool's answer for what its retriever gave back.
pub open spec fn answered_retrieval(g: Result<RetrievalResult, crate::types::ToolError>, r: Result<crate::types::ToolOutput, crate::types::ToolError>) -> bool {
    match g {
        Ok(res) => r matches Ok(out) && out.content@ == res.context@ && crate::types::cites(out.citations@)
            == hit_citations(res.hits@),
        Err(e) => r == Err::<crate::types::ToolOutput, crate::types::ToolError>(e),
    }
}

/// The settings a `Rag` step asks for: at most `top_k` hits (20 when not
/// given), no filter, a token budget of 4096.
pub open spec fn spec_rag_config(top_k: Option<usize>) -> RetrievalConfig {
    RetrievalConfig {
        top_k: match top_k {
            Some(k) => k,
            None => 20usize,
        },
        filter: None,
        token_budget: 4096,
    }
}

/// Agent tool that retrieves relevant context for a query.
pub struct RagTool<R: Retriever> {
    retriever: R,
}

/// The answer of the retrieval tool for what its retriever gave back: the
/// error as it came, or the context cited by the id of each hit.
pub fn answer_retrieval(result: Result<RetrievalResult, crate::types::ToolError>) -> (r: Result<crate::types::ToolOutput, crate::types::ToolError>)
    ensures
        match result {
            Ok(res) => r matches Ok(out) && out.content@ == res.context@ && crate::types::cites(out.citations@)
                == hit_citations(res.hits@),
            Err(e) => r == Err::<crate::types::ToolOutput, crate::types::ToolError>(e),
        },
{
    match result {
        Ok(res) => Ok(rag_output(&res)),
        Err(e) => Err(e),
    }
}

impl<R: Retriever> RagTool<R> {
    pub fn new(retriever: R) -> (r: Self)
        ensures
            r.retriever() == retriever,
    {
        Self { retriever }
    }

    /// The retriever this tool asks.
    pub closed spec fn retriever(&self) -> R {
        self.retriever
    }
}

impl<R: Retriever> crate::types::AgentTool for RagTool<R> {
    open spec fn tool_name(&self) -> Seq<char> {
        "rag"@
    }

    /// A `Rag` input is answered from what the retriever gives for its query
    /// with the settings of `spec_rag_config`; any other input is refused.
    open spec fn answers(&self, input: crate::types::InputModel, r: Result<crate::types::ToolOutput, crate::types::ToolError>) -> bool {
        if input is Rag {
            exists|g: Result<RetrievalResult, crate::types::ToolError>|
                #![trigger self.retriever().retrieves(input->Rag_query, spec_rag_config(input->Rag_top_k), g)]
                self.retriever().retrieves(input->Rag_query, spec_rag_config(input->Rag_top_k), g)
                    && answered_retrieval(g, r)
        } else {
            r matches Err(crate::types::ToolError::WrongInput(k)) && k@ == "rag"@
        }
    }

    fn name(&self) -> (r: &str) {
        "rag"
    }

    /// Retrieves for a `Rag` input, at most `top_k` hits (20 when not given);
    /// any other input is refused. Every citation of an answer is a chunk id.
    fn call(&self, input: crate::types::ToolInput) -> (r: Result<crate::types::ToolOutput, crate::types::ToolError>)
        ensures
            !(input@ is Rag) ==> (r matches Err(crate::types::ToolError::WrongInput(k)) && k@ == "rag"@),
            r matches Ok(out) ==> forall|i: int|
                0 <= i < out.citations@.len() ==> (#[trigger] out.citations@[i]) is ChunkId,
            input@ is Rag ==> exists|g: Result<RetrievalResult, crate::types::ToolError>|
                #![trigger self.retriever().retrieves(input@->Rag_query, spec_rag_config(input@->Rag_top_k), g)]
                self.retriever().retrieves(input@->Rag_query, spec_rag_config(input@->Rag_top_k), g)
                    && answered_retrieval(g, r),
    {
        let ghost im = input@;
        match input {
            crate::types::ToolInput::Rag { query, top_k } => {
                assert(im == crate::types::InputModel::Rag { query: query@, top_k });
                let config = rag_config(top_k);
                assert(config == spec_rag_config(top_k));
                let res = self.retriever.retrieve(query.as_str(), &config);
                let ghost got = res;
                let r = answer_retrieval(res);
                assert(im->Rag_query == query@ && im->Rag_top_k == top_k);
                assert(self.retriever().retrieves(im->Rag_query, spec_rag_config(im->Rag_top_k), got) && answered_retrieval(got, r));
                proof {
                    if r is Ok {
                        let out = r->Ok_0;
                        assert forall|i: int| 0 <= i < out.citations@.len() implies (#[trigger] out.citations@[i]) is ChunkId by {
                            assert(got is Ok);
                            let hits = got->Ok_0.hits@;
                            assert(crate::types::cites(out.citations@) == hit_citations(hits));
                            assert(crate::types::cites(out.citations@).len() == out.citations@.len());
                            assert(hit_citations(hits).len() == hits.len());
                            assert(crate::types::cites(out.citations@)[i] == out.citations@[i]@);
                            assert(hit_citations(hits)[i] == crate::types::CitationModel::ChunkId(hits[i].id@));
                        }
                    }
                }
                r
            },
            _ => Err(crate::types::ToolError::WrongInput(to_owned_string("rag"))),
        }
    }
}

} // verus!
