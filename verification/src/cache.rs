//! The result cache: two independent, bounded, least-recently-used maps
//! — content-hash to parsed tree, and (content-hash, configuration-hash)
//! to formatted text — plus the deterministic content fingerprints used
//! as keys. The cache is an optimization only; any byte difference in
//! source or any effective-configuration difference is a full miss.

use vstd::prelude::*;
use vstd::string::StringSliceAdditionalSpecFns;
use crate::ast::{Node, NodeView, node_view};
use crate::config::{Config, IndentStyle, QuoteStyle, HashSyntax, TrailingComma};

verus! {

/// A deterministic fingerprint of source bytes.
pub type FileHash = u64;

/// A deterministic fingerprint of an effective configuration.
pub type ConfigHash = u64;

/// The initial state of the fingerprint fold.
pub open spec fn hash_offset() -> u64 {
    0xcbf29ce484222325u64
}

/// One fold step of the fingerprint: xor, then a wrapping multiply by a
/// large odd constant.
pub open spec fn hash_step(h: u64, x: u64) -> u64 {
    (h ^ x).wrapping_mul(0x100000001b3u64)
}

/// The fingerprint fold over a word sequence.
pub open spec fn fold_words(h: u64, ws: Seq<u64>) -> u64
    decreases ws.len(),
{
    if ws.len() == 0 {
        h
    } else {
        fold_words(hash_step(h, ws[0]), ws.drop_first())
    }
}

/// Folding over a concatenation folds the first part, then the second
/// over its result.
pub proof fn lemma_fold_words_add(h: u64, a: Seq<u64>, b: Seq<u64>)
    ensures
        fold_words(h, a + b) == fold_words(fold_words(h, a), b),
    decreases a.len(),
{
    if a.len() == 0 {
        assert(a + b =~= b);
    } else {
        assert((a + b)[0] == a[0]);
        assert((a + b).drop_first() =~= a.drop_first() + b);
        lemma_fold_words_add(hash_step(h, a[0]), a.drop_first(), b);
    }
}

/// The words of a byte sequence.
pub open spec fn bytes_words(bs: Seq<u8>) -> Seq<u64> {
    bs.map_values(|b: u8| b as u64)
}

/// The words of a character sequence.
pub open spec fn chars_words(s: Seq<char>) -> Seq<u64> {
    s.map_values(|c: char| c as u64)
}

/// The words of one string: its length, then its characters.
pub open spec fn string_words(s: Seq<char>) -> Seq<u64> {
    seq![s.len() as u64] + chars_words(s)
}

/// The words of a list of strings, each length-prefixed.
pub open spec fn strs_words(v: Seq<Seq<char>>) -> Seq<u64>
    decreases v.len(),
{
    if v.len() == 0 {
        Seq::empty()
    } else {
        string_words(v[0]) + strs_words(v.drop_first())
    }
}

/// The fingerprint of source bytes: identical bytes give an identical
/// hash.
pub open spec fn file_hash_spec(bs: Seq<u8>) -> u64 {
    fold_words(hash_offset(), bytes_words(bs))
}

/// The tag of each enum-valued option.
pub open spec fn indent_tag(v: IndentStyle) -> u64 {
    match v {
        IndentStyle::Spaces => 0,
        IndentStyle::Tabs => 1,
    }
}

pub open spec fn quote_tag(v: QuoteStyle) -> u64 {
    match v {
        QuoteStyle::Double => 0,
        QuoteStyle::Single => 1,
        QuoteStyle::Consistent => 2,
    }
}

pub open spec fn hash_syntax_tag(v: HashSyntax) -> u64 {
    match v {
        HashSyntax::Ruby19 => 0,
        HashSyntax::HashRockets => 1,
        HashSyntax::Consistent => 2,
    }
}

pub open spec fn comma_tag(v: TrailingComma) -> u64 {
    match v {
        TrailingComma::Always => 0,
        TrailingComma::Never => 1,
        TrailingComma::Multiline => 2,
    }
}

/// The scalar and enum-valued fields of a configuration, in fixed
/// field order.
pub open spec fn scalar_words(c: Config) -> Seq<u64> {
    seq![
        c.formatting.line_length as u64,
        indent_tag(c.formatting.indent_style),
        c.formatting.indent_width as u64,
        quote_tag(c.formatting.quote_style),
        quote_tag(c.formatting.style.quotes),
        hash_syntax_tag(c.formatting.style.hash_syntax),
        comma_tag(c.formatting.style.trailing_comma),
        if c.parser.error_tolerance {
            1u64
        } else {
            0u64
        },
    ]
}

/// The string-valued fields and glob lists of a configuration, each
/// length-prefixed, in fixed field order.
pub open spec fn tail_words(c: Config) -> Seq<u64> {
    string_words(c.version@) + (string_words(c.parser.version@) + (string_words(
        c.parser.encoding@,
    ) + (seq![c.include_globs@.len() as u64] + (strs_words(
        c.include_globs@.map_values(|s: String| s@),
    ) + (seq![c.exclude_globs@.len() as u64] + strs_words(
        c.exclude_globs@.map_values(|s: String| s@),
    ))))))
}

/// The canonical word encoding of an effective configuration: every
/// field, scalars first, then each string and glob list
/// length-prefixed. Field order is fixed here, so the hash does not
/// depend on any declaration order.
pub open spec fn config_words(c: Config) -> Seq<u64> {
    scalar_words(c) + tail_words(c)
}

/// The fingerprint of an effective configuration.
pub open spec fn config_hash_spec(c: Config) -> u64 {
    fold_words(hash_offset(), config_words(c))
}

/// One fold step, executably.
fn mix(h: u64, x: u64) -> (r: u64)
    ensures
        r == hash_step(h, x),
{
    (h ^ x).wrapping_mul(0x100000001b3u64)
}

/// Folds one string into the hash: length, then characters.
fn mix_str(h: u64, s: &str) -> (r: u64)
    ensures
        r == fold_words(h, string_words(s@)),
{
    let len = s.unicode_len();
    let mut cur = mix(h, len as u64);
    let ghost target = fold_words(h, string_words(s@));
    proof {
        assert(string_words(s@)[0] == s@.len() as u64);
        assert(string_words(s@).drop_first() =~= chars_words(s@));
        assert(target == fold_words(cur, chars_words(s@)));
        assert(chars_words(s@).skip(0) =~= chars_words(s@));
    }
    let mut i: usize = 0;
    while i < len
        invariant
            i <= len,
            len == s@.len(),
            target == fold_words(h, string_words(s@)),
            target == fold_words(cur, chars_words(s@).skip(i as int)),
        decreases len - i,
    {
        let c = s.get_char(i);
        proof {
            assert(chars_words(s@).skip(i as int)[0] == (s@[i as int]) as u64);
            assert(chars_words(s@).skip(i as int).drop_first() =~= chars_words(s@).skip(i + 1));
        }
        cur = mix(cur, c as u64);
        i = i + 1;
    }
    proof { assert(chars_words(s@).skip(len as int) =~= Seq::<u64>::empty()); }
    cur
}

/// Folds a list of strings into the hash.
fn mix_strs(h: u64, v: &Vec<String>) -> (r: u64)
    ensures
        r == fold_words(h, strs_words(v@.map_values(|s: String| s@))),
{
    let ghost vs = v@.map_values(|s: String| s@);
    let mut cur = h;
    let mut i: usize = 0;
    let ghost target = fold_words(h, strs_words(vs));
    proof { assert(strs_words(vs.skip(0)) == strs_words(vs)) by { assert(vs.skip(0) =~= vs); } }
    while i < v.len()
        invariant
            i <= v@.len(),
            vs == v@.map_values(|s: String| s@),
            target == fold_words(h, strs_words(vs)),
            target == fold_words(cur, strs_words(vs.skip(i as int))),
        decreases v@.len() - i,
    {
        let ghost tail = vs.skip(i as int);
        proof {
            assert(tail[0] == v@[i as int]@);
            assert(tail.drop_first() =~= vs.skip(i + 1));
            assert(strs_words(tail) =~= string_words(tail[0]) + strs_words(tail.drop_first()));
            lemma_fold_words_add(cur, string_words(tail[0]), strs_words(vs.skip(i + 1)));
        }
        cur = mix_str(cur, v[i].as_str());
        i = i + 1;
    }
    proof { assert(vs.skip(v@.len() as int) =~= Seq::<Seq<char>>::empty()); }
    cur
}

/// The deterministic fingerprint of source bytes: byte-identical
/// sources hash identically.
pub fn calculate_file_hash(source: &str) -> (r: FileHash)
    ensures
        r == file_hash_spec(source.spec_bytes()),
{
    let bytes = source.as_bytes();
    let ghost ws = bytes_words(bytes@);
    let mut cur: u64 = 0xcbf29ce484222325u64;
    let mut i: usize = 0;
    let ghost target = fold_words(hash_offset(), ws);
    proof { assert(ws.skip(0) =~= ws); }
    while i < bytes.len()
        invariant
            i <= bytes@.len(),
            ws == bytes_words(bytes@),
            target == fold_words(hash_offset(), ws),
            target == fold_words(cur, ws.skip(i as int)),
        decreases bytes@.len() - i,
    {
        let b = bytes[i];
        proof {
            assert(ws.skip(i as int)[0] == (bytes@[i as int]) as u64);
            assert(ws.skip(i as int).drop_first() =~= ws.skip(i + 1));
        }
        cur = mix(cur, b as u64);
        i = i + 1;
    }
    proof { assert(ws.skip(bytes@.len() as int) =~= Seq::<u64>::empty()); }
    cur
}

/// Folds a word list into the hash.
fn mix_words(h: u64, words: &Vec<u64>) -> (r: u64)
    ensures
        r == fold_words(h, words@),
{
    let mut cur = h;
    let mut i: usize = 0;
    let ghost target = fold_words(h, words@);
    proof { assert(words@.skip(0) =~= words@); }
    while i < words.len()
        invariant
            i <= words@.len(),
            target == fold_words(h, words@),
            target == fold_words(cur, words@.skip(i as int)),
        decreases words@.len() - i,
    {
        proof {
            assert(words@.skip(i as int)[0] == words@[i as int]);
            assert(words@.skip(i as int).drop_first() =~= words@.skip(i + 1));
        }
        cur = mix(cur, words[i]);
        i = i + 1;
    }
    proof { assert(words@.skip(words@.len() as int) =~= Seq::<u64>::empty()); }
    cur
}

/// The deterministic fingerprint of an effective configuration:
/// identical post-defaulting configurations hash identically.
#[verifier::rlimit(100)]
pub fn calculate_config_hash(config: &Config) -> (r: ConfigHash)
    ensures
        r == config_hash_spec(*config),
{
    let ghost c = *config;
    let ghost scalars = seq![
        c.formatting.line_length as u64,
        indent_tag(c.formatting.indent_style),
        c.formatting.indent_width as u64,
        quote_tag(c.formatting.quote_style),
        quote_tag(c.formatting.style.quotes),
        hash_syntax_tag(c.formatting.style.hash_syntax),
        comma_tag(c.formatting.style.trailing_comma),
        if c.parser.error_tolerance {
            1u64
        } else {
            0u64
        },
    ];
    let mut head: Vec<u64> = Vec::new();
    head.push(config.formatting.line_length as u64);
    head.push(
        match config.formatting.indent_style {
            IndentStyle::Spaces => 0,
            IndentStyle::Tabs => 1,
        },
    );
    head.push(config.formatting.indent_width as u64);
    head.push(
        match config.formatting.quote_style {
            QuoteStyle::Double => 0,
            QuoteStyle::Single => 1,
            QuoteStyle::Consistent => 2,
        },
    );
    head.push(
        match config.formatting.style.quotes {
            QuoteStyle::Double => 0,
            QuoteStyle::Single => 1,
            QuoteStyle::Consistent => 2,
        },
    );
    head.push(
        match config.formatting.style.hash_syntax {
            HashSyntax::Ruby19 => 0,
            HashSyntax::HashRockets => 1,
            HashSyntax::Consistent => 2,
        },
    );
    head.push(
        match config.formatting.style.trailing_comma {
            TrailingComma::Always => 0,
            TrailingComma::Never => 1,
            TrailingComma::Multiline => 2,
        },
    );
    head.push(if config.parser.error_tolerance { 1 } else { 0 });
    proof { assert(head@ =~= scalars); }
    let mut cur: u64 = mix_words(0xcbf29ce484222325u64, &head);
    proof {
        lemma_fold_words_add(hash_offset(), scalar_words(c), tail_words(c));
    }
    let ghost r1 = string_words(c.parser.version@) + (string_words(c.parser.encoding@) + (seq![
        c.include_globs@.len() as u64,
    ] + (strs_words(c.include_globs@.map_values(|s: String| s@)) + (seq![
        c.exclude_globs@.len() as u64,
    ] + strs_words(c.exclude_globs@.map_values(|s: String| s@))))));
    proof { lemma_fold_words_add(cur, string_words(c.version@), r1); }
    cur = mix_str(cur, config.version.as_str());
    let ghost r2 = string_words(c.parser.encoding@) + (seq![c.include_globs@.len() as u64] + (
    strs_words(c.include_globs@.map_values(|s: String| s@)) + (seq![
        c.exclude_globs@.len() as u64,
    ] + strs_words(c.exclude_globs@.map_values(|s: String| s@)))));
    proof { lemma_fold_words_add(cur, string_words(c.parser.version@), r2); }
    cur = mix_str(cur, config.parser.version.as_str());
    let ghost r3 = seq![c.include_globs@.len() as u64] + (strs_words(
        c.include_globs@.map_values(|s: String| s@),
    ) + (seq![c.exclude_globs@.len() as u64] + strs_words(
        c.exclude_globs@.map_values(|s: String| s@),
    )));
    proof { lemma_fold_words_add(cur, string_words(c.parser.encoding@), r3); }
    cur = mix_str(cur, config.parser.encoding.as_str());
    let ghost r4 = strs_words(c.include_globs@.map_values(|s: String| s@)) + (seq![
        c.exclude_globs@.len() as u64,
    ] + strs_words(c.exclude_globs@.map_values(|s: String| s@)));
    proof {
        lemma_fold_words_add(cur, seq![c.include_globs@.len() as u64], r4);
        assert(seq![c.include_globs@.len() as u64].drop_first() =~= Seq::<u64>::empty());
        assert(seq![c.include_globs@.len() as u64][0] == c.include_globs@.len() as u64);
        assert(fold_words(
            hash_step(cur, c.include_globs@.len() as u64),
            Seq::<u64>::empty(),
        ) == hash_step(cur, c.include_globs@.len() as u64));
        assert(fold_words(cur, seq![c.include_globs@.len() as u64]) == hash_step(
            cur,
            c.include_globs@.len() as u64,
        ));
    }
    cur = mix(cur, config.include_globs.len() as u64);
    let ghost r5 = seq![c.exclude_globs@.len() as u64] + strs_words(
        c.exclude_globs@.map_values(|s: String| s@),
    );
    proof {
        lemma_fold_words_add(cur, strs_words(c.include_globs@.map_values(|s: String| s@)), r5);
    }
    cur = mix_strs(cur, &config.include_globs);
    let ghost r6 = strs_words(c.exclude_globs@.map_values(|s: String| s@));
    proof {
        lemma_fold_words_add(cur, seq![c.exclude_globs@.len() as u64], r6);
        assert(seq![c.exclude_globs@.len() as u64].drop_first() =~= Seq::<u64>::empty());
        assert(seq![c.exclude_globs@.len() as u64][0] == c.exclude_globs@.len() as u64);
        assert(fold_words(
            hash_step(cur, c.exclude_globs@.len() as u64),
            Seq::<u64>::empty(),
        ) == hash_step(cur, c.exclude_globs@.len() as u64));
        assert(fold_words(cur, seq![c.exclude_globs@.len() as u64]) == hash_step(
            cur,
            c.exclude_globs@.len() as u64,
        ));
    }
    cur = mix(cur, config.exclude_globs.len() as u64);
    cur = mix_strs(cur, &config.exclude_globs);
    cur
}

/// The empty tree-cache model.
pub open spec fn empty_ast_model() -> Map<u64, NodeView> {
    Map::empty()
}

/// The empty text-cache model.
pub open spec fn empty_text_model() -> Map<(u64, u64), Seq<char>> {
    Map::empty()
}

/// A bounded least-recently-used map from source hashes to parsed
/// trees, held in an outside collection that Verus does not read.
#[verifier::external_body]
pub struct AstLru {
    inner: lru::LruCache<u64, Node>,
}

/// What the tree cache holds: each present key and the model of the
/// tree stored under it.
pub uninterp spec fn ast_lru_contents(c: AstLru) -> Map<u64, NodeView>;

/// The capacity the tree cache was constructed with.
pub uninterp spec fn ast_lru_cap(c: AstLru) -> nat;

/// A bounded least-recently-used map from (source hash, configuration
/// hash) pairs to formatted text.
#[verifier::external_body]
pub struct TextLru {
    inner: lru::LruCache<(u64, u64), String>,
}

/// What the text cache holds: each present key pair and the characters
/// of the text stored under it.
pub uninterp spec fn text_lru_contents(c: TextLru) -> Map<(u64, u64), Seq<char>>;

/// The capacity the text cache was constructed with.
pub uninterp spec fn text_lru_cap(c: TextLru) -> nat;

/// Relies on lru::LruCache::new: a fresh cache is empty and holds at
/// most `cap` entries.
#[verifier::external_body]
fn ast_lru_new(cap: usize) -> (r: AstLru)
    requires
        cap >= 1,
    ensures
        ast_lru_cap(r) == cap,
        ast_lru_contents(r) == empty_ast_model(),
{
    AstLru { inner: lru::LruCache::new(std::num::NonZeroUsize::new(cap).unwrap()) }
}

/// Relies on lru::LruCache::get: returns the entry under `k` if
/// present, touching only recency, never contents.
#[verifier::external_body]
fn ast_lru_get(c: &mut AstLru, k: u64) -> (r: Option<Node>)
    ensures
        ast_lru_contents(*final(c)) == ast_lru_contents(*old(c)),
        ast_lru_cap(*final(c)) == ast_lru_cap(*old(c)),
        match r {
            Some(n) => ast_lru_contents(*old(c)).dom().contains(k) && node_view(n)
                == ast_lru_contents(*old(c))[k],
            None => !ast_lru_contents(*old(c)).dom().contains(k),
        },
{
    c.inner.get(&k).cloned()
}

/// Relies on lru::LruCache::put: stores `v` under `k`; when the cache
/// is full and `k` is new, the least-recently-used entry — some present
/// key — leaves.
#[verifier::external_body]
fn ast_lru_put(c: &mut AstLru, k: u64, v: Node)
    ensures
        ast_lru_cap(*final(c)) == ast_lru_cap(*old(c)),
        ast_lru_contents(*final(c)).contains_pair(k, node_view(v)),
        ast_lru_contents(*old(c)).dom().contains(k) ==> ast_lru_contents(*final(c))
            == ast_lru_contents(*old(c)).insert(k, node_view(v)),
        !ast_lru_contents(*old(c)).dom().contains(k) && ast_lru_contents(*old(c)).dom().len()
            < ast_lru_cap(*old(c)) ==> ast_lru_contents(*final(c)) == ast_lru_contents(
            *old(c),
        ).insert(k, node_view(v)),
        !ast_lru_contents(*old(c)).dom().contains(k) && ast_lru_contents(*old(c)).dom().len()
            >= ast_lru_cap(*old(c)) ==> exists|ke: u64|
            ast_lru_contents(*old(c)).dom().contains(ke) && ast_lru_contents(*final(c))
                == ast_lru_contents(*old(c)).remove(ke).insert(k, node_view(v)),
{
    let _ = c.inner.put(k, v);
}

/// Relies on lru::LruCache::new, as for the tree cache.
#[verifier::external_body]
fn text_lru_new(cap: usize) -> (r: TextLru)
    requires
        cap >= 1,
    ensures
        text_lru_cap(r) == cap,
        text_lru_contents(r) == empty_text_model(),
{
    TextLru { inner: lru::LruCache::new(std::num::NonZeroUsize::new(cap).unwrap()) }
}

/// Relies on lru::LruCache::get, as for the tree cache.
#[verifier::external_body]
fn text_lru_get(c: &mut TextLru, k: (u64, u64)) -> (r: Option<String>)
    ensures
        text_lru_contents(*final(c)) == text_lru_contents(*old(c)),
        text_lru_cap(*final(c)) == text_lru_cap(*old(c)),
        match r {
            Some(s) => text_lru_contents(*old(c)).dom().contains(k) && s@
                == text_lru_contents(*old(c))[k],
            None => !text_lru_contents(*old(c)).dom().contains(k),
        },
{
    c.inner.get(&k).cloned()
}

/// Relies on lru::LruCache::put, as for the tree cache.
#[verifier::external_body]
fn text_lru_put(c: &mut TextLru, k: (u64, u64), v: String)
    ensures
        text_lru_cap(*final(c)) == text_lru_cap(*old(c)),
        text_lru_contents(*final(c)).contains_pair(k, v@),
        text_lru_contents(*old(c)).dom().contains(k) ==> text_lru_contents(*final(c))
            == text_lru_contents(*old(c)).insert(k, v@),
        !text_lru_contents(*old(c)).dom().contains(k) && text_lru_contents(*old(c)).dom().len()
            < text_lru_cap(*old(c)) ==> text_lru_contents(*final(c)) == text_lru_contents(
            *old(c),
        ).insert(k, v@),
        !text_lru_contents(*old(c)).dom().contains(k) && text_lru_contents(*old(c)).dom().len()
            >= text_lru_cap(*old(c)) ==> exists|ke: (u64, u64)|
            text_lru_contents(*old(c)).dom().contains(ke) && text_lru_contents(*final(c))
                == text_lru_contents(*old(c)).remove(ke).insert(k, v@),
{
    let _ = c.inner.put(k, v);
}

/// The result cache: a bounded tree cache and a bounded formatted-text
/// cache, evicted independently, least-recently-used first.
pub struct FormatCache {
    pub ast_cache: AstLru,
    pub format_cache: TextLru,
}

impl FormatCache {
    /// What the tree cache holds.
    pub open spec fn ast_model(&self) -> Map<u64, NodeView> {
        ast_lru_contents(self.ast_cache)
    }

    /// What the text cache holds.
    pub open spec fn text_model(&self) -> Map<(u64, u64), Seq<char>> {
        text_lru_contents(self.format_cache)
    }

    /// Both caches empty, each bounded by `capacity` entries; a zero
    /// capacity falls back to the default bound of 100.
    pub fn new(capacity: usize) -> (r: Self)
        ensures
            r.ast_model() == empty_ast_model(),
            r.text_model() == empty_text_model(),
            ast_lru_cap(r.ast_cache) == if capacity == 0 {
                100int
            } else {
                capacity as int
            },
            text_lru_cap(r.format_cache) == if capacity == 0 {
                100int
            } else {
                capacity as int
            },
    {
        let cap = if capacity == 0 {
            100
        } else {
            capacity
        };
        FormatCache { ast_cache: ast_lru_new(cap), format_cache: text_lru_new(cap) }
    }

    /// The cached formatted text under this source and configuration
    /// fingerprint, if present. Touches recency only.
    pub fn get_formatted(&mut self, file_hash: FileHash, config_hash: ConfigHash) -> (r: Option<
        String,
    >)
        ensures
            final(self).ast_model() == old(self).ast_model(),
            final(self).text_model() == old(self).text_model(),
            ast_lru_cap(final(self).ast_cache) == ast_lru_cap(old(self).ast_cache),
            text_lru_cap(final(self).format_cache) == text_lru_cap(old(self).format_cache),
            match r {
                Some(s) => old(self).text_model().dom().contains((file_hash, config_hash)) && s@
                    == old(self).text_model()[(file_hash, config_hash)],
                None => !old(self).text_model().dom().contains((file_hash, config_hash)),
            },
    {
        text_lru_get(&mut self.format_cache, (file_hash, config_hash))
    }

    /// Stores formatted text under this source and configuration
    /// fingerprint; a full cache first evicts its least-recently-used
    /// entry.
    pub fn put_formatted(&mut self, file_hash: FileHash, config_hash: ConfigHash, result: String)
        ensures
            final(self).ast_model() == old(self).ast_model(),
            ast_lru_cap(final(self).ast_cache) == ast_lru_cap(old(self).ast_cache),
            text_lru_cap(final(self).format_cache) == text_lru_cap(old(self).format_cache),
            final(self).text_model().contains_pair((file_hash, config_hash), result@),
            old(self).text_model().dom().contains((file_hash, config_hash)) ==> final(self).text_model() == old(self).text_model().insert((file_hash, config_hash), result@),
            !old(self).text_model().dom().contains((file_hash, config_hash)) && old(self).text_model().dom().len() < text_lru_cap(old(self).format_cache) ==> final(self).text_model() == old(self).text_model().insert((file_hash, config_hash), result@),
            !old(self).text_model().dom().contains((file_hash, config_hash)) && old(self).text_model().dom().len() >= text_lru_cap(old(self).format_cache) ==> exists|ke: (
                u64,
                u64,
            )|
                old(self).text_model().dom().contains(ke) && final(self).text_model() == old(self).text_model().remove(ke).insert((file_hash, config_hash), result@),
    {
        text_lru_put(&mut self.format_cache, (file_hash, config_hash), result)
    }

    /// The cached tree under this source fingerprint, if present.
    /// Touches recency only.
    pub fn get_ast(&mut self, hash: FileHash) -> (r: Option<Node>)
        ensures
            final(self).ast_model() == old(self).ast_model(),
            final(self).text_model() == old(self).text_model(),
            ast_lru_cap(final(self).ast_cache) == ast_lru_cap(old(self).ast_cache),
            text_lru_cap(final(self).format_cache) == text_lru_cap(old(self).format_cache),
            match r {
                Some(n) => old(self).ast_model().dom().contains(hash) && node_view(n) == old(self).ast_model()[hash],
                None => !old(self).ast_model().dom().contains(hash),
            },
    {
        ast_lru_get(&mut self.ast_cache, hash)
    }

    /// Stores a tree under this source fingerprint; a full cache first
    /// evicts its least-recently-used entry.
    pub fn put_ast(&mut self, hash: FileHash, ast: Node)
        ensures
            final(self).text_model() == old(self).text_model(),
            ast_lru_cap(final(self).ast_cache) == ast_lru_cap(old(self).ast_cache),
            text_lru_cap(final(self).format_cache) == text_lru_cap(old(self).format_cache),
            final(self).ast_model().contains_pair(hash, node_view(ast)),
            old(self).ast_model().dom().contains(hash) ==> final(self).ast_model() == old(self).ast_model().insert(hash, node_view(ast)),
            !old(self).ast_model().dom().contains(hash) && old(self).ast_model().dom().len()
                < ast_lru_cap(old(self).ast_cache) ==> final(self).ast_model() == old(self).ast_model().insert(hash, node_view(ast)),
            !old(self).ast_model().dom().contains(hash) && old(self).ast_model().dom().len()
                >= ast_lru_cap(old(self).ast_cache) ==> exists|ke: u64|
                old(self).ast_model().dom().contains(ke) && final(self).ast_model() == old(self).ast_model().remove(ke).insert(hash, node_view(ast)),
    {
        ast_lru_put(&mut self.ast_cache, hash, ast)
    }
}

impl Default for FormatCache {
    /// The documented default bound of 100 entries per map.
    fn default() -> (r: Self)
        ensures
            r.ast_model() == empty_ast_model(),
            r.text_model() == empty_text_model(),
    {
        FormatCache::new(100)
    }
}

/// Law (cache correctness, over the cache model): what was just stored
/// under a key is found under that key, and a key that differs — in
/// either hash — and was never stored is still missing.
pub proof fn lemma_cache_round_trip(
    m: Map<(u64, u64), Seq<char>>,
    k: (u64, u64),
    k2: (u64, u64),
    v: Seq<char>,
)
    ensures
        m.insert(k, v)[k] == v,
        m.insert(k, v).dom().contains(k),
        k2 != k && !m.dom().contains(k2) ==> !m.insert(k, v).dom().contains(k2),
{
}

} // verus!
