//! File line-count caching.
//!
//! Caches line counts keyed by a file's path relative to the configuration
//! root, together with the file's modification time; a lookup hits only when
//! both the seconds and the nanoseconds of the stored mtime match exactly.
//! The cache as a whole carries a fingerprint of the active configuration's
//! effective parameters; a loaded cache whose version or fingerprint differs
//! from the current run's is discarded wholesale.

use core::hash::Hasher;

use vstd::prelude::*;
use crate::globs::CompiledConfig;
use crate::strutil::{dec_str, str_eq, usize_to_string};

verus! {

/// Version tag of the persisted cache format.
pub const CACHE_VERSION: u32 = 1;

/// A single cache entry for one file.
#[derive(Debug, Clone, Copy, PartialEq, Eq, Structural)]
pub struct CacheEntry {
    /// Modification time, whole seconds since the epoch.
    pub mtime_secs: u64,
    /// Modification time, sub-second nanoseconds.
    pub mtime_nanos: u32,
    /// The cached line count.
    pub lines: usize,
}

/// The entries of an association list as a map from path to entry.
pub open spec fn entries_map(s: Seq<(String, CacheEntry)>) -> Map<Seq<char>, CacheEntry>
    decreases s.len(),
{
    if s.len() == 0 {
        Map::empty()
    } else {
        entries_map(s.take(s.len() - 1)).insert(s.last().0@, s.last().1)
    }
}

/// Every key of the map stems from some entry, and each entry is in the map.
pub proof fn lemma_entries_map(s: Seq<(String, CacheEntry)>)
    ensures
        forall|k: Seq<char>|
            entries_map(s).contains_key(k) ==> exists|i: int|
                0 <= i < s.len() && (#[trigger] s[i]).0@ == k,
        forall|i: int| 0 <= i < s.len() ==> entries_map(s).contains_key(#[trigger] s[i].0@),
    decreases s.len(),
{
    if s.len() > 0 {
        lemma_entries_map(s.take(s.len() - 1));
        assert forall|i: int| 0 <= i < s.len() implies entries_map(s).contains_key(
            #[trigger] s[i].0@,
        ) by {
            if i < s.len() - 1 {
                assert(s.take(s.len() - 1)[i] == s[i]);
            }
        }
        assert forall|k: Seq<char>| entries_map(s).contains_key(k) implies exists|i: int|
            0 <= i < s.len() && (#[trigger] s[i]).0@ == k by {
            if k != s.last().0@ {
                assert(entries_map(s.take(s.len() - 1)).contains_key(k));
                let j = choose|j: int|
                    0 <= j < s.take(s.len() - 1).len() && (#[trigger] s.take(s.len() - 1)[j]).0@
                        == k;
                assert(s[j] == s.take(s.len() - 1)[j]);
            } else {
                assert(s[s.len() - 1].0@ == k);
            }
        }
    }
}

/// In-memory cache for file line counts.
pub struct Cache {
    entries: Vec<(String, CacheEntry)>,
    config_hash: u64,
    dirty: bool,
}

impl Cache {
    /// The cached entries, as a map from relative path to entry.
    pub closed spec fn view(self) -> Map<Seq<char>, CacheEntry> {
        entries_map(self.entries@)
    }

    /// The fingerprint of the configuration this cache belongs to.
    pub closed spec fn hash_spec(self) -> u64 {
        self.config_hash
    }

    /// Whether an insert has happened since loading.
    pub closed spec fn dirty_spec(self) -> bool {
        self.dirty
    }

    /// Entry keys are unique, so the association list and its map agree.
    pub closed spec fn wf(self) -> bool {
        forall|i: int, j: int|
            0 <= i < j < self.entries@.len() ==> (#[trigger] self.entries@[i]).0@ != (
            #[trigger] self.entries@[j]).0@
    }

    /// Creates an empty cache (used when caching is disabled).
    pub fn empty() -> (r: Self)
        ensures
            r.wf(),
            r@ == Map::<Seq<char>, CacheEntry>::empty(),
            r.hash_spec() == 0,
            !r.dirty_spec(),
    {
        Cache { entries: Vec::new(), config_hash: 0, dirty: false }
    }

    /// Creates an empty cache bound to a configuration fingerprint.
    pub fn with_hash(config_hash: u64) -> (r: Self)
        ensures
            r.wf(),
            r@ == Map::<Seq<char>, CacheEntry>::empty(),
            r.hash_spec() == config_hash,
            !r.dirty_spec(),
    {
        Cache { entries: Vec::new(), config_hash, dirty: false }
    }

    /// Accepts entries loaded from disk, or discards them: the loaded
    /// entries are kept exactly when the stored format version and
    /// configuration fingerprint both match the current run's and no path is
    /// repeated; anything else yields an empty cache. A discarded or missing
    /// cache is never an error — only a full re-count.
    pub fn from_loaded(
        version: u32,
        stored_hash: u64,
        entries: Vec<(String, CacheEntry)>,
        config_hash: u64,
    ) -> (r: Self)
        ensures
            r.wf(),
            r.hash_spec() == config_hash,
            !r.dirty_spec(),
            version == CACHE_VERSION && stored_hash == config_hash && distinct_keys(entries@)
                ==> r@ == entries_map(entries@),
            !(version == CACHE_VERSION && stored_hash == config_hash && distinct_keys(entries@))
                ==> r@ == Map::<Seq<char>, CacheEntry>::empty(),
    {
        if version != CACHE_VERSION || stored_hash != config_hash {
            return Cache::with_hash(config_hash);
        }
        if !check_distinct_keys(&entries) {
            return Cache::with_hash(config_hash);
        }
        Cache { entries, config_hash, dirty: false }
    }

    /// Looks up a cached line count: a hit only when the path is cached and
    /// both parts of the stored mtime match exactly.
    pub fn get(&self, key: &str, mtime_secs: u64, mtime_nanos: u32) -> (r: Option<usize>)
        requires
            self.wf(),
        ensures
            r == if self@.contains_key(key@) && self@[key@].mtime_secs == mtime_secs
                && self@[key@].mtime_nanos == mtime_nanos {
                Some(self@[key@].lines)
            } else {
                None::<usize>
            },
    {
        proof {
            lemma_entries_map(self.entries@);
        }
        let n = self.entries.len();
        let mut i: usize = 0;
        while i < n
            invariant
                0 <= i <= n,
                n == self.entries@.len(),
                self.wf(),
                forall|j: int| 0 <= j < i ==> (#[trigger] self.entries@[j]).0@ != key@,
            decreases n - i,
        {
            let pair = &self.entries[i];
            if str_eq(pair.0.as_str(), key) {
                proof {
                    lemma_entry_lookup(self.entries@, i as int);
                }
                let entry = pair.1;
                if entry.mtime_secs == mtime_secs && entry.mtime_nanos == mtime_nanos {
                    return Some(entry.lines);
                } else {
                    return None;
                }
            }
            i = i + 1;
        }
        proof {
            if self@.contains_key(key@) {
                let w = choose|w: int|
                    0 <= w < self.entries@.len() && (#[trigger] self.entries@[w]).0@ == key@;
            }
        }
        None
    }

    /// Records a line count for a path, overwriting any earlier entry for
    /// that path, and marks the cache dirty.
    pub fn insert(&mut self, key: String, mtime_secs: u64, mtime_nanos: u32, lines: usize)
        requires
            old(self).wf(),
        ensures
            final(self).wf(),
            final(self)@ == old(self)@.insert(
                key@,
                CacheEntry { mtime_secs, mtime_nanos, lines },
            ),
            final(self).hash_spec() == old(self).hash_spec(),
            final(self).dirty_spec(),
    {
        let entry = CacheEntry { mtime_secs, mtime_nanos, lines };
        let n = self.entries.len();
        let mut i: usize = 0;
        while i < n
            invariant
                0 <= i <= n,
                n == self.entries@.len(),
                *self == *old(self),
                self.wf(),
                entry == (CacheEntry { mtime_secs, mtime_nanos, lines }),
                forall|j: int| 0 <= j < i ==> (#[trigger] self.entries@[j]).0@ != key@,
            decreases n - i,
        {
            if str_eq(self.entries[i].0.as_str(), key.as_str()) {
                let ghost before = self.entries@;
                let removed = self.entries.remove(i);
                let pair = (key, entry);
                let ghost pair_g = pair;
                self.entries.insert(i, pair);
                self.dirty = true;
                proof {
                    assert(pair_g.0@ == key@);
                    assert(self.entries@ =~= before.update(i as int, pair_g));
                    lemma_entries_map_update(before, i as int, pair_g);
                    assert(self@ =~= old(self)@.insert(key@, entry));
                    assert(entry == CacheEntry { mtime_secs, mtime_nanos, lines });
                }
                return ;
            }
            i = i + 1;
        }
        let ghost before = self.entries@;
        self.entries.push((key, entry));
        self.dirty = true;
        proof {
            assert(self.entries@.take(self.entries@.len() - 1) =~= before);
        }
    }

    /// Whether anything was inserted since the cache was created or loaded;
    /// only then is persisting it worthwhile.
    pub fn is_dirty(&self) -> (r: bool)
        ensures
            r == self.dirty_spec(),
    {
        self.dirty
    }

    /// The configuration fingerprint this cache is bound to.
    pub fn config_hash(&self) -> (r: u64)
        ensures
            r == self.hash_spec(),
    {
        self.config_hash
    }

    /// The entries as an association list, for persisting.
    pub fn entries_list(&self) -> (r: &Vec<(String, CacheEntry)>)
        requires
            self.wf(),
        ensures
            entries_map(r@) == self@,
            distinct_keys(r@),
    {
        &self.entries
    }
}

/// No two entries share a key.
pub open spec fn distinct_keys(s: Seq<(String, CacheEntry)>) -> bool {
    forall|i: int, j: int|
        0 <= i < j < s.len() ==> (#[trigger] s[i]).0@ != (#[trigger] s[j]).0@
}

fn check_distinct_keys(entries: &Vec<(String, CacheEntry)>) -> (r: bool)
    ensures
        r == distinct_keys(entries@),
{
    let n = entries.len();
    let mut i: usize = 0;
    while i < n
        invariant
            0 <= i <= n,
            n == entries@.len(),
            forall|a: int, b: int|
                0 <= a < b < n && a < i ==> (#[trigger] entries@[a]).0@ != (
                #[trigger] entries@[b]).0@,
        decreases n - i,
    {
        let mut j: usize = i + 1;
        while j < n
            invariant
                0 <= i < j <= n,
                n == entries@.len(),
                forall|b: int| i < b < j ==> (#[trigger] entries@[b]).0@ != entries@[i as int].0@,
            decreases n - j,
        {
            if str_eq(entries[i].0.as_str(), entries[j].0.as_str()) {
                return false;
            }
            j = j + 1;
        }
        i = i + 1;
    }
    true
}

/// When entry `i` holds the key, the map's value for that key is entry `i`'s
/// (keys are unique).
proof fn lemma_entry_lookup(s: Seq<(String, CacheEntry)>, i: int)
    requires
        0 <= i < s.len(),
        forall|a: int, b: int| 0 <= a < b < s.len() ==> (#[trigger] s[a]).0@ != (#[trigger] s[b]).0@,
    ensures
        entries_map(s).contains_key(s[i].0@),
        entries_map(s)[s[i].0@] == s[i].1,
    decreases s.len(),
{
    lemma_entries_map(s);
    if i < s.len() - 1 {
        lemma_entry_lookup(s.take(s.len() - 1), i);
        assert(s.take(s.len() - 1)[i] == s[i]);
    }
}

/// Updating the entry at `i` to a pair with the same key updates the map's
/// value for that key and nothing else.
proof fn lemma_entries_map_update(s: Seq<(String, CacheEntry)>, i: int, p: (String, CacheEntry))
    requires
        0 <= i < s.len(),
        forall|a: int, b: int| 0 <= a < b < s.len() ==> (#[trigger] s[a]).0@ != (#[trigger] s[b]).0@,
        p.0@ == s[i].0@,
    ensures
        entries_map(s.update(i, p)) =~= entries_map(s).insert(p.0@, p.1),
    decreases s.len(),
{
    lemma_entries_map(s);
    lemma_entries_map(s.update(i, p));
    if i == s.len() - 1 {
        assert(s.update(i, p).take(s.len() - 1) =~= s.take(s.len() - 1));
        assert(s.update(i, p).last() == p);
    } else {
        assert(s.update(i, p).take(s.len() - 1) =~= s.take(s.len() - 1).update(i, p));
        lemma_entries_map_update(s.take(s.len() - 1), i, p);
        assert(s.update(i, p).last() == s.last());
        assert(s.take(s.len() - 1)[i] == s[i]);
        assert(s.last().0@ != p.0@);
    }
}

/// One rule's contribution to the configuration fingerprint. The pattern is
/// length-prefixed, so distinct parameter lists always yield distinct texts:
/// a pattern containing `,` or `;` cannot masquerade as another list.
pub open spec fn rule_fp(pattern: Seq<char>, max_lines: nat) -> Seq<char> {
    "r:"@ + dec_str(pattern.len()) + ":"@ + pattern + ","@ + dec_str(max_lines) + ";"@
}

/// All rules' contributions, in order.
pub open spec fn rules_fp(rules: Seq<(Seq<char>, nat)>) -> Seq<char>
    decreases rules.len(),
{
    if rules.len() == 0 {
        Seq::empty()
    } else {
        rules_fp(rules.take(rules.len() - 1)) + rule_fp(rules.last().0, rules.last().1)
    }
}

/// One exclude pattern's contribution to the configuration fingerprint,
/// length-prefixed like a rule's.
pub open spec fn exclude_fp(pattern: Seq<char>) -> Seq<char> {
    "e:"@ + dec_str(pattern.len()) + ":"@ + pattern + ";"@
}

/// All exclude patterns' contributions, in order.
pub open spec fn excludes_fp(pats: Seq<Seq<char>>) -> Seq<char>
    decreases pats.len(),
{
    if pats.len() == 0 {
        Seq::empty()
    } else {
        excludes_fp(pats.take(pats.len() - 1)) + exclude_fp(pats.last())
    }
}

/// The canonical fingerprint text of the decision-relevant parameters of a
/// configuration: the default limit, every rule's pattern and limit in
/// order, and every exclude pattern in order. Patterns are length-prefixed,
/// so the text is injective in these parameters: any change to them changes
/// the text, and the hash can only coincide through a hash collision.
pub open spec fn fingerprint_text(c: CompiledConfig) -> Seq<char> {
    "d:"@ + (match c.default_max_lines {
        Some(m) => dec_str(m as nat),
        None => "none"@,
    }) + ";"@ + rules_fp(c.rules@.map(|i: int, r: crate::globs::CompiledRule| (r.pattern@, r.max_lines as nat)))
        + "x:"@ + excludes_fp(c.exclude.view())
}


/// Changing the configuration's default limit changes the fingerprint text:
/// with the rules and exclude patterns unchanged, two different default
/// limits never share a fingerprint text, so a cache written under one can
/// be served under the other only through a hash collision.
pub proof fn lemma_fingerprint_separates_default(c1: CompiledConfig, c2: CompiledConfig)
    requires
        c1.rules@.map(|i: int, r: crate::globs::CompiledRule| (r.pattern@, r.max_lines as nat))
            == c2.rules@.map(
            |i: int, r: crate::globs::CompiledRule| (r.pattern@, r.max_lines as nat),
        ),
        c1.exclude.view() == c2.exclude.view(),
        c1.default_max_lines != c2.default_max_lines,
    ensures
        fingerprint_text(c1) != fingerprint_text(c2),
{
    reveal_strlit("none");
    let d1: Seq<char> = match c1.default_max_lines {
        Some(m) => dec_str(m as nat),
        None => "none"@,
    };
    let d2: Seq<char> = match c2.default_max_lines {
        Some(m) => dec_str(m as nat),
        None => "none"@,
    };
    let tail = ";"@ + rules_fp(
        c1.rules@.map(|i: int, r: crate::globs::CompiledRule| (r.pattern@, r.max_lines as nat)),
    ) + "x:"@ + excludes_fp(c1.exclude.view());
    assert(fingerprint_text(c1) =~= "d:"@ + (d1 + tail));
    assert(fingerprint_text(c2) =~= "d:"@ + (d2 + tail));
    if fingerprint_text(c1) == fingerprint_text(c2) {
        crate::strutil::lemma_concat_cancel_left("d:"@, d1 + tail, d2 + tail);
        crate::strutil::lemma_concat_cancel_right(d1, d2, tail);
        match (c1.default_max_lines, c2.default_max_lines) {
            (Some(m1), Some(m2)) => {
                crate::strutil::lemma_dec_str_val(m1 as nat);
                crate::strutil::lemma_dec_str_val(m2 as nat);
                assert(crate::strutil::digits_val(d1) == m1 as nat);
                assert(crate::strutil::digits_val(d2) == m2 as nat);
                assert(false);
            },
            (Some(m), None) => {
                crate::strutil::lemma_dec_str_val(m as nat);
                assert(crate::strutil::is_digit(d1[0]));
                assert(d2[0] == 'n');
                assert(false);
            },
            (None, Some(m)) => {
                crate::strutil::lemma_dec_str_val(m as nat);
                assert(crate::strutil::is_digit(d2[0]));
                assert(d1[0] == 'n');
                assert(false);
            },
            (None, None) => {
                assert(false);
            },
        }
    }
}

/// The 64-bit value `rustc_hash::FxHasher` produces for a string's bytes.
pub uninterp spec fn fx_hash_of(s: Seq<char>) -> u64;

/// Relies on `rustc_hash::FxHasher`: with its default zero seed, hashing is
/// a deterministic function of the bytes written (its polynomial constant is
/// chosen per pointer width, so the value is compared only against caches
/// written by the same build, which is all this library does with it).
#[verifier::external_body]
fn fx_hash_str(s: &str) -> (r: u64)
    ensures
        r == fx_hash_of(s@),
{
    let mut hasher = rustc_hash::FxHasher::default();
    hasher.write(s.as_bytes());
    hasher.finish()
}

/// Computes the configuration fingerprint for cache invalidation: the hash
/// of the canonical fingerprint text, so it changes whenever the default
/// limit, any rule's pattern or limit, or any exclude pattern changes text.
pub fn hash_config(config: &CompiledConfig) -> (r: u64)
    ensures
        r == fx_hash_of(fingerprint_text(*config)),
{
    let ghost rule_pairs = config.rules@.map(
        |i: int, r: crate::globs::CompiledRule| (r.pattern@, r.max_lines as nat),
    );
    let mut text: String = "d:".to_owned();
    match &config.default_max_lines {
        Some(m) => {
            text.append(usize_to_string(*m).as_str());
        },
        None => {
            text.append("none");
        },
    }
    text.append(";");

    let mut i: usize = 0;
    while i < config.rules.len()
        invariant
            0 <= i <= config.rules@.len(),
            rule_pairs == config.rules@.map(
                |k: int, r: crate::globs::CompiledRule| (r.pattern@, r.max_lines as nat),
            ),
            text@ == "d:"@ + (match config.default_max_lines {
                Some(m) => dec_str(m as nat),
                None => "none"@,
            }) + ";"@ + rules_fp(rule_pairs.take(i as int)),
        decreases config.rules@.len() - i,
    {
        let rule = &config.rules[i];
        text.append("r:");
        text.append(usize_to_string(rule.pattern.as_str().unicode_len()).as_str());
        text.append(":");
        text.append(rule.pattern.as_str());
        text.append(",");
        text.append(usize_to_string(rule.max_lines).as_str());
        text.append(";");
        i = i + 1;
        proof {
            let t = rule_pairs.take(i as int);
            assert(t.take(t.len() - 1) =~= rule_pairs.take(i as int - 1));
            assert(t.last() == rule_pairs[i as int - 1]);
            assert(text@ =~= "d:"@ + (match config.default_max_lines {
                Some(m) => dec_str(m as nat),
                None => "none"@,
            }) + ";"@ + rules_fp(t));
        }
    }
    proof {
        assert(rule_pairs.take(rule_pairs.len() as int) =~= rule_pairs);
    }

    text.append("x:");
    let ghost ex_pats = config.exclude.view();
    let mut j: usize = 0;
    while j < config.exclude.patterns.len()
        invariant
            0 <= j <= ex_pats.len(),
            ex_pats == config.exclude.view(),
            ex_pats.len() == config.exclude.patterns@.len(),
            text@ == "d:"@ + (match config.default_max_lines {
                Some(m) => dec_str(m as nat),
                None => "none"@,
            }) + ";"@ + rules_fp(rule_pairs) + "x:"@ + excludes_fp(ex_pats.take(j as int)),
        decreases ex_pats.len() - j,
    {
        let pat = &config.exclude.patterns[j];
        text.append("e:");
        text.append(usize_to_string(pat.pattern.as_str().unicode_len()).as_str());
        text.append(":");
        text.append(pat.pattern.as_str());
        text.append(";");
        j = j + 1;
        proof {
            let t = ex_pats.take(j as int);
            assert(t.take(t.len() - 1) =~= ex_pats.take(j as int - 1));
            assert(t.last() == ex_pats[j as int - 1]);
            assert(ex_pats[j as int - 1] == config.exclude.patterns@[j as int - 1].pattern@);
            assert(text@ =~= "d:"@ + (match config.default_max_lines {
                Some(m) => dec_str(m as nat),
                None => "none"@,
            }) + ";"@ + rules_fp(rule_pairs) + "x:"@ + excludes_fp(t));
        }
    }
    proof {
        assert(ex_pats.take(ex_pats.len() as int) =~= ex_pats);
        assert(text@ =~= fingerprint_text(*config));
    }
    fx_hash_str(text.as_str())
}

} // verus!
