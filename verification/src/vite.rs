//! Vite integration for the root template: script and style tags from the dev server or the
//! build manifest, and an asset version derived from the manifest.

use vstd::prelude::*;
use crate::narrow::strs;
use crate::num::{hex_fixed, lemma_hex_fixed_injective, pow16, to_hex_fixed};
use crate::page::push_str;
use crate::ssr::trim_end_slashes;
use crate::text::push_char;

verus! {

/// `settings.inertia.vite`.
#[derive(Debug, Clone, Default)]
pub struct ViteSettings {
    /// The entry `vite()` uses when the template names none, e.g. `src/main.tsx`.
    pub entry: Option<String>,
    /// Vite dev server origin; when set, tags point at it and the manifest is not read.
    pub dev_server: Option<String>,
    /// Path of the manifest file; the default location when unset.
    pub manifest: Option<String>,
    /// URL prefix of the built files (Vite's `base`); defaults to `/`.
    pub base: Option<String>,
    /// Dev server: inject the `@vitejs/plugin-react` Refresh preamble.
    pub react_refresh: bool,
}

/// One chunk of the Vite build manifest.
#[derive(Debug, Clone, PartialEq, Eq)]
pub struct Chunk {
    /// The built file, relative to `base`.
    pub file: String,
    /// Manifest keys of the chunks this one imports statically.
    pub imports: Vec<String>,
    /// CSS files of this chunk.
    pub css: Vec<String>,
}

/// Where the tags point.
pub enum Mode {
    Dev { origin: String, react_refresh: bool },
    /// The manifest's chunks by key (a later entry wins), the URL prefix and the version.
    Build { chunks: Vec<(String, Chunk)>, base: String, version: String },
}

/// Resolves entry points to HTML tags.
pub struct Vite {
    pub mode: Mode,
    pub default_entry: Option<String>,
}

/// Why no tags could be made.
#[derive(Debug, PartialEq, Eq)]
pub enum ViteError {
    /// No entry given and no default entry configured.
    NoEntry,
    /// The entry is not in the manifest.
    UnknownEntry(String),
}

/// The FNV-1a offset basis and prime (64 bits).
pub open spec fn fnv_offset() -> u64 { 0xcbf2_9ce4_8422_2325 }

pub open spec fn fnv_prime() -> u64 { 0x0000_0100_0000_01b3 }

/// 64-bit FNV-1a of bytes.
pub open spec fn fnv1a(b: Seq<u8>) -> u64
    decreases b.len(),
{
    if b.len() == 0 {
        fnv_offset()
    } else {
        let h = fnv1a(b.drop_last()) ^ (b.last() as u64);
        ((h as nat * fnv_prime() as nat) % 0x1_0000_0000_0000_0000) as u64
    }
}

/// The entry the tags are for: the one named, else the default entry.
pub open spec fn chosen_entry(default_entry: Option<String>, entry: Option<Seq<char>>) -> Option<Seq<char>> {
    match entry {
        Some(x) => Some(x),
        None => match default_entry { Some(d) => Some(d@), None => None },
    }
}

/// The tags for `entry` in `mode`: dev-server tags, the tags of a built entry, or why there
/// are none.
pub open spec fn tags_answer(mode: Mode, entry: Option<Seq<char>>, r: Result<String, ViteError>) -> bool {
    match entry {
        None => r matches Err(ViteError::NoEntry),
        Some(e) => match mode {
            Mode::Dev { origin, react_refresh } => r matches Ok(h) && h@ == dev_tags(origin@, react_refresh, e),
            Mode::Build { chunks, base, .. } => match chunk_at(chunks@, e) {
                None => r matches Err(ViteError::UnknownEntry(x)) && x@ == e,
                Some(c) => r matches Ok(h) && h@ == build_tags(chunks@, base@, c),
            },
        },
    }
}

/// A default entry stands in for an entry that is not named, and for nothing else: with
/// default `e`, asking for no entry is asking for `e`; a named entry ignores the default;
/// with no default, asking for no entry has no tags. The mode, and so the version, stays.
pub proof fn lemma_default_entry_stands_in(v: Vite, default_entry: Option<String>, named: Seq<char>)
    ensures
        ({
            let w = Vite { default_entry, ..v };
            &&& w.mode == v.mode
            &&& chosen_entry(w.default_entry, Some(named)) == chosen_entry(v.default_entry, Some(named))
            &&& match default_entry {
                Some(e) => chosen_entry(w.default_entry, None) == chosen_entry(v.default_entry, Some(e@)),
                None => forall|r: Result<String, ViteError>| tags_answer(w.mode, chosen_entry(w.default_entry, None), r)
                    ==> r matches Err(ViteError::NoEntry),
            }
        }),
{
}

/// A build whose manifest hashes differently gets a different asset version, so open tabs
/// on the old bundle see a version mismatch on their next visit.
pub proof fn lemma_new_manifest_new_version(old_manifest: Seq<u8>, new_manifest: Seq<u8>)
    requires
        fnv1a(old_manifest) != fnv1a(new_manifest),
    ensures
        hex_fixed(fnv1a(old_manifest) as nat, 16) != hex_fixed(fnv1a(new_manifest) as nat, 16),
{
    reveal_with_fuel(pow16, 17);
    assert(pow16(16) == 0x1_0000_0000_0000_0000);
    if hex_fixed(fnv1a(old_manifest) as nat, 16) == hex_fixed(fnv1a(new_manifest) as nat, 16) {
        lemma_hex_fixed_injective(fnv1a(old_manifest) as nat, fnv1a(new_manifest) as nat, 16);
    }
}

/// 64-bit FNV-1a as 16 lower-case hex digits: stable across builds and platforms.
pub fn fnv1a_hex(bytes: &[u8]) -> (r: String)
    ensures
        r@ == hex_fixed(fnv1a(bytes@) as nat, 16),
{
    let mut hash: u64 = 0xcbf2_9ce4_8422_2325;
    let mut i: usize = 0;
    while i < bytes.len()
        invariant
            i <= bytes@.len(),
            hash == fnv1a(bytes@.subrange(0, i as int)),
        decreases bytes@.len() - i,
    {
        assert(bytes@.subrange(0, i + 1).drop_last() == bytes@.subrange(0, i as int));
        hash = hash ^ (bytes[i] as u64);
        hash = hash.wrapping_mul(0x0000_0100_0000_01b3);
        i = i + 1;
    }
    assert(bytes@.subrange(0, bytes@.len() as int) == bytes@);
    to_hex_fixed(hash, 16)
}

/// What one character becomes in a double-quoted HTML attribute.
pub open spec fn attr_char(c: char) -> Seq<char> {
    if c == '&' {
        "&amp;"@
    } else if c == '"' {
        "&quot;"@
    } else if c == '<' {
        "&lt;"@
    } else if c == '>' {
        "&gt;"@
    } else {
        seq![c]
    }
}

/// `s` escaped for a double-quoted HTML attribute.
pub open spec fn spec_attr(s: Seq<char>) -> Seq<char>
    decreases s.len(),
{
    if s.len() == 0 { Seq::empty() } else { spec_attr(s.drop_last()) + attr_char(s.last()) }
}

/// Escape for a double-quoted HTML attribute.
pub fn attr(s: &str) -> (r: String)
    ensures
        r@ == spec_attr(s@),
{
    let n = s.unicode_len();
    let mut r = String::new();
    let mut i: usize = 0;
    while i < n
        invariant
            n == s@.len(),
            i <= n,
            r@ == spec_attr(s@.subrange(0, i as int)),
        decreases n - i,
    {
        let c = s.get_char(i);
        assert(s@.subrange(0, i + 1).drop_last() == s@.subrange(0, i as int));
        if c == '&' {
            push_str(&mut r, "&amp;");
        } else if c == '"' {
            push_str(&mut r, "&quot;");
        } else if c == '<' {
            push_str(&mut r, "&lt;");
        } else if c == '>' {
            push_str(&mut r, "&gt;");
        } else {
            push_char(&mut r, c);
        }
        i = i + 1;
    }
    assert(s@.subrange(0, n as int) == s@);
    r
}

/// The items in order, each only at its first occurrence.
pub open spec fn spec_dedup(items: Seq<Seq<char>>) -> Seq<Seq<char>>
    decreases items.len(),
{
    if items.len() == 0 {
        Seq::empty()
    } else {
        let before = spec_dedup(items.drop_last());
        if items.drop_last().contains(items.last()) { before } else { before.push(items.last()) }
    }
}

/// The items in order, each only at its first occurrence.
pub fn dedup(items: &Vec<String>) -> (r: Vec<String>)
    ensures
        strs(r@) == spec_dedup(strs(items@)),
{
    let ghost all = strs(items@);
    let mut out: Vec<String> = Vec::new();
    let mut i: usize = 0;
    assert(all.subrange(0, 0) =~= Seq::<Seq<char>>::empty());
    assert(strs(out@) =~= Seq::<Seq<char>>::empty());
    while i < items.len()
        invariant
            i <= items@.len(),
            all == strs(items@),
            strs(out@) == spec_dedup(all.subrange(0, i as int)),
        decreases items@.len() - i,
    {
        let ghost pre = all.subrange(0, i as int);
        assert(all.subrange(0, i + 1).drop_last() == pre);
        assert(all.subrange(0, i + 1).last() == items@[i as int]@);
        let mut seen = false;
        let mut j: usize = 0;
        while j < i && !seen
            invariant
                i < items@.len(),
                j <= i,
                all == strs(items@),
                pre == all.subrange(0, i as int),
                seen == exists|k: int| 0 <= k < j && pre[k] == items@[i as int]@,
            decreases i - j,
        {
            if crate::json::str_eq(items[j].as_str(), items[i].as_str()) {
                assert(pre[j as int] == items@[i as int]@);
                seen = true;
            }
            j = j + 1;
        }
        assert(seen == pre.contains(items@[i as int]@));
        if !seen {
            let ghost before = out@;
            out.push(items[i].clone());
            assert(strs(out@) =~= strs(before).push(items@[i as int]@));
        }
        i = i + 1;
    }
    assert(all.subrange(0, all.len() as int) == all);
    out
}

/// The chunk stored under `key` (the last entry with that key).
pub open spec fn chunk_at(chunks: Seq<(String, Chunk)>, key: Seq<char>) -> Option<Chunk>
    decreases chunks.len(),
{
    if chunks.len() == 0 {
        None
    } else if chunks.last().0@ == key {
        Some(chunks.last().1)
    } else {
        chunk_at(chunks.drop_last(), key)
    }
}

fn find_chunk(chunks: &Vec<(String, Chunk)>, key: &str) -> (r: Option<usize>)
    ensures
        match r {
            Some(i) => i < chunks@.len() && chunk_at(chunks@, key@) == Some(chunks@[i as int].1),
            None => chunk_at(chunks@, key@) is None,
        },
{
    let mut i: usize = chunks.len();
    assert(chunks@.subrange(0, i as int) == chunks@);
    while i > 0
        invariant
            i <= chunks@.len(),
            chunk_at(chunks@, key@) == chunk_at(chunks@.subrange(0, i as int), key@),
        decreases i,
    {
        assert(chunks@.subrange(0, i as int).drop_last() == chunks@.subrange(0, i - 1));
        if crate::json::str_eq(chunks[i - 1].0.as_str(), key) {
            return Some(i - 1);
        }
        i = i - 1;
    }
    None
}

/// The state of a walk over the static imports: the keys seen, the CSS files and the files
/// to preload, in the order met.
pub struct Walk {
    pub seen: Seq<Seq<char>>,
    pub css: Seq<Seq<char>>,
    pub preload: Seq<Seq<char>>,
}

/// CSS of `chunk` and everything it statically imports, plus the imported chunk files for
/// `modulepreload` (each import key followed once; dynamic imports stay lazy). `depth` bounds
/// the nesting; a manifest with `n` chunks nests at most `n` deep.
pub open spec fn spec_collect(chunks: Seq<(String, Chunk)>, chunk: Chunk, w: Walk, depth: nat) -> Walk
    decreases depth, 0nat,
{
    if depth == 0 {
        w
    } else {
        spec_imports(chunks, chunk.imports@, 0, Walk { css: w.css + strs(chunk.css@), ..w }, (depth - 1) as nat)
    }
}

/// The walk over `imports[i..]`, at `depth` below the importing chunk's level.
pub open spec fn spec_imports(chunks: Seq<(String, Chunk)>, imports: Seq<String>, i: nat, w: Walk, depth: nat) -> Walk
    decreases depth, imports.len() + 1 - i,
{
    if i >= imports.len() {
        w
    } else {
        let key = imports[i as int]@;
        if w.seen.contains(key) {
            spec_imports(chunks, imports, i + 1, w, depth)
        } else {
            let w1 = Walk { seen: w.seen.push(key), ..w };
            match chunk_at(chunks, key) {
                Some(c) => {
                    let w2 = spec_collect(chunks, c, Walk { preload: w1.preload.push(c.file@), ..w1 }, depth);
                    spec_imports(chunks, imports, i + 1, w2, depth)
                },
                None => spec_imports(chunks, imports, i + 1, w1, depth),
            }
        }
    }
}

/// The number of chunks whose key is not in `seen`.
pub open spec fn unseen(chunks: Seq<(String, Chunk)>, seen: Seq<Seq<char>>) -> nat
    decreases chunks.len(),
{
    if chunks.len() == 0 {
        0
    } else {
        unseen(chunks.drop_last(), seen) + if seen.contains(chunks.last().0@) { 0nat } else { 1nat }
    }
}

/// Every key of `a` is in `b`.
pub open spec fn keys_within(a: Seq<Seq<char>>, b: Seq<Seq<char>>) -> bool {
    forall|k: Seq<char>| a.contains(k) ==> b.contains(k)
}

proof fn lemma_unseen_mono(chunks: Seq<(String, Chunk)>, a: Seq<Seq<char>>, b: Seq<Seq<char>>)
    requires
        keys_within(a, b),
    ensures
        unseen(chunks, b) <= unseen(chunks, a),
    decreases chunks.len(),
{
    if chunks.len() > 0 {
        lemma_unseen_mono(chunks.drop_last(), a, b);
    }
}

proof fn lemma_push_within(s: Seq<Seq<char>>, key: Seq<char>)
    ensures
        keys_within(s, s.push(key)),
        s.push(key).contains(key),
        forall|k: Seq<char>| #[trigger] s.push(key).contains(k) ==> s.contains(k) || k == key,
{
    assert forall|k: Seq<char>| s.contains(k) implies #[trigger] s.push(key).contains(k) by {
        let i = choose|i: int| 0 <= i < s.len() && s[i] == k;
        assert(s.push(key)[i] == k);
    }
    assert(s.push(key)[s.len() as int] == key);
    assert forall|k: Seq<char>| #[trigger] s.push(key).contains(k) implies s.contains(k) || k == key by {
        let i = choose|i: int| 0 <= i < s.push(key).len() && s.push(key)[i] == k;
        if i < s.len() {
            assert(s[i] == k);
        }
    }
}

proof fn lemma_unseen_drops(chunks: Seq<(String, Chunk)>, seen: Seq<Seq<char>>, key: Seq<char>)
    requires
        chunk_at(chunks, key) is Some,
        !seen.contains(key),
    ensures
        unseen(chunks, seen.push(key)) < unseen(chunks, seen),
    decreases chunks.len(),
{
    lemma_push_within(seen, key);
    if chunks.last().0@ == key {
        lemma_unseen_mono(chunks.drop_last(), seen, seen.push(key));
    } else {
        lemma_unseen_drops(chunks.drop_last(), seen, key);
    }
}

proof fn lemma_collect_grows(chunks: Seq<(String, Chunk)>, chunk: Chunk, w: Walk, depth: nat)
    ensures
        keys_within(w.seen, spec_collect(chunks, chunk, w, depth).seen),
    decreases depth, 0nat,
{
    if depth > 0 {
        lemma_imports_grow(chunks, chunk.imports@, 0, Walk { css: w.css + strs(chunk.css@), ..w }, (depth - 1) as nat);
    }
}

proof fn lemma_imports_grow(chunks: Seq<(String, Chunk)>, imports: Seq<String>, i: nat, w: Walk, depth: nat)
    ensures
        keys_within(w.seen, spec_imports(chunks, imports, i, w, depth).seen),
    decreases depth, imports.len() + 1 - i,
{
    if i < imports.len() {
        let key = imports[i as int]@;
        if w.seen.contains(key) {
            lemma_imports_grow(chunks, imports, i + 1, w, depth);
        } else {
            let w1 = Walk { seen: w.seen.push(key), ..w };
            lemma_push_within(w.seen, key);
            match chunk_at(chunks, key) {
                Some(c) => {
                    let w1p = Walk { preload: w1.preload.push(c.file@), ..w1 };
                    lemma_collect_grows(chunks, c, w1p, depth);
                    let w2 = spec_collect(chunks, c, w1p, depth);
                    lemma_imports_grow(chunks, imports, i + 1, w2, depth);
                },
                None => {
                    lemma_imports_grow(chunks, imports, i + 1, w1, depth);
                },
            }
        }
    }
}

proof fn lemma_collect_deep_enough(chunks: Seq<(String, Chunk)>, chunk: Chunk, w: Walk, depth: nat)
    requires
        depth >= unseen(chunks, w.seen) + 1,
    ensures
        spec_collect(chunks, chunk, w, depth) == spec_collect(chunks, chunk, w, depth + 1),
    decreases depth, 0nat,
{
    lemma_imports_deep_enough(chunks, chunk.imports@, 0, Walk { css: w.css + strs(chunk.css@), ..w }, (depth - 1) as nat);
}

proof fn lemma_imports_deep_enough(chunks: Seq<(String, Chunk)>, imports: Seq<String>, i: nat, w: Walk, depth: nat)
    requires
        depth >= unseen(chunks, w.seen),
    ensures
        spec_imports(chunks, imports, i, w, depth) == spec_imports(chunks, imports, i, w, depth + 1),
    decreases depth, imports.len() + 1 - i,
{
    if i < imports.len() {
        let key = imports[i as int]@;
        if w.seen.contains(key) {
            lemma_imports_deep_enough(chunks, imports, i + 1, w, depth);
        } else {
            let w1 = Walk { seen: w.seen.push(key), ..w };
            lemma_push_within(w.seen, key);
            lemma_unseen_mono(chunks, w.seen, w1.seen);
            match chunk_at(chunks, key) {
                Some(c) => {
                    let w1p = Walk { preload: w1.preload.push(c.file@), ..w1 };
                    lemma_unseen_drops(chunks, w.seen, key);
                    lemma_collect_deep_enough(chunks, c, w1p, depth);
                    let w2 = spec_collect(chunks, c, w1p, depth);
                    lemma_collect_grows(chunks, c, w1p, depth);
                    lemma_unseen_mono(chunks, w1p.seen, w2.seen);
                    lemma_imports_deep_enough(chunks, imports, i + 1, w2, depth);
                },
                None => {
                    lemma_imports_deep_enough(chunks, imports, i + 1, w1, depth);
                },
            }
        }
    }
}

proof fn lemma_unseen_at_most(chunks: Seq<(String, Chunk)>, seen: Seq<Seq<char>>)
    ensures
        unseen(chunks, seen) <= chunks.len(),
    decreases chunks.len(),
{
    if chunks.len() > 0 {
        lemma_unseen_at_most(chunks.drop_last(), seen);
    }
}

/// The walk behind an entry's tags is complete: each chunk adds at most one level of
/// nesting, so walking deeper than `walk_depth` finds nothing more, as with no bound at all.
pub proof fn lemma_walk_is_complete(chunks: Seq<(String, Chunk)>, chunk: Chunk, extra: nat)
    requires
        chunks.len() < usize::MAX,
    ensures
        ({
            let start = Walk { seen: Seq::empty(), css: Seq::empty(), preload: Seq::empty() };
            spec_collect(chunks, chunk, start, walk_depth(chunks.len()))
                == spec_collect(chunks, chunk, start, walk_depth(chunks.len()) + extra)
        }),
    decreases extra,
{
    let start = Walk { seen: Seq::empty(), css: Seq::empty(), preload: Seq::empty() };
    if extra > 0 {
        lemma_walk_is_complete(chunks, chunk, (extra - 1) as nat);
        lemma_unseen_at_most(chunks, start.seen);
        lemma_collect_deep_enough(chunks, chunk, start, walk_depth(chunks.len()) + (extra - 1) as nat);
    }
}

fn seq_contains(v: &Vec<String>, s: &str) -> (r: bool)
    ensures
        r == strs(v@).contains(s@),
{
    let mut i: usize = 0;
    while i < v.len()
        invariant
            i <= v@.len(),
            forall|j: int| 0 <= j < i ==> v@[j]@ != s@,
        decreases v@.len() - i,
    {
        if crate::json::str_eq(v[i].as_str(), s) {
            assert(strs(v@)[i as int] == s@);
            return true;
        }
        i = i + 1;
    }
    assert(!strs(v@).contains(s@)) by {
        if strs(v@).contains(s@) {
            let j = choose|j: int| 0 <= j < strs(v@).len() && strs(v@)[j] == s@;
            assert(v@[j]@ == s@);
        }
    }
    false
}

fn push_all(out: &mut Vec<String>, items: &Vec<String>)
    ensures
        strs(final(out)@) == strs(old(out)@) + strs(items@),
{
    let mut i: usize = 0;
    assert(strs(out@) + strs(items@).subrange(0, 0) =~= strs(out@));
    while i < items.len()
        invariant
            i <= items@.len(),
            strs(out@) == strs(old(out)@) + strs(items@).subrange(0, i as int),
        decreases items@.len() - i,
    {
        let ghost before = out@;
        out.push(items[i].clone());
        assert(strs(out@) =~= strs(before).push(items@[i as int]@));
        assert(strs(items@).subrange(0, i + 1) =~= strs(items@).subrange(0, i as int).push(items@[i as int]@));
        i = i + 1;
    }
    assert(strs(items@).subrange(0, items@.len() as int) == strs(items@));
}

/// Exec form of [`spec_collect`].
pub fn collect(chunks: &Vec<(String, Chunk)>, chunk: &Chunk, seen: &mut Vec<String>, css: &mut Vec<String>,
    preload: &mut Vec<String>, depth: usize)
    ensures
        ({
            let w = spec_collect(chunks@, *chunk, Walk { seen: strs(old(seen)@), css: strs(old(css)@), preload: strs(old(preload)@) }, depth as nat);
            strs(final(seen)@) == w.seen && strs(final(css)@) == w.css && strs(final(preload)@) == w.preload
        }),
    decreases depth, 0nat,
{
    if depth == 0 {
        return;
    }
    push_all(css, &chunk.css);
    collect_imports(chunks, &chunk.imports, 0, seen, css, preload, depth - 1);
}

fn collect_imports(chunks: &Vec<(String, Chunk)>, imports: &Vec<String>, i: usize, seen: &mut Vec<String>,
    css: &mut Vec<String>, preload: &mut Vec<String>, depth: usize)
    requires
        i <= imports@.len(),
    ensures
        ({
            let w = spec_imports(chunks@, imports@, i as nat, Walk { seen: strs(old(seen)@), css: strs(old(css)@), preload: strs(old(preload)@) }, depth as nat);
            strs(final(seen)@) == w.seen && strs(final(css)@) == w.css && strs(final(preload)@) == w.preload
        }),
    decreases depth, imports@.len() + 1 - i,
{
    if i >= imports.len() {
        return;
    }
    let key = imports[i].as_str();
    if seq_contains(seen, key) {
        collect_imports(chunks, imports, i + 1, seen, css, preload, depth);
        return;
    }
    let ghost s0 = seen@;
    seen.push(imports[i].clone());
    assert(strs(seen@) =~= strs(s0).push(key@));
    match find_chunk(chunks, key) {
        Some(j) => {
            let ghost p0 = preload@;
            preload.push(chunks[j].1.file.clone());
            assert(strs(preload@) =~= strs(p0).push(chunks@[j as int].1.file@));
            collect(chunks, &chunks[j].1, seen, css, preload, depth);
            collect_imports(chunks, imports, i + 1, seen, css, preload, depth);
        },
        None => {
            collect_imports(chunks, imports, i + 1, seen, css, preload, depth);
        },
    }
}

/// `s` without leading `/`.
pub open spec fn trim_start_slashes(s: Seq<char>) -> Seq<char>
    decreases s.len(),
{
    if s.len() > 0 && s[0] == '/' { trim_start_slashes(s.drop_first()) } else { s }
}

/// The tags for the dev server.
pub open spec fn dev_tags(origin: Seq<char>, react_refresh: bool, entry: Seq<char>) -> Seq<char> {
    let o = spec_attr(origin);
    let preamble = if react_refresh {
        "<script type=\"module\">import RefreshRuntime from \""@ + o
            + "/@react-refresh\";RefreshRuntime.injectIntoGlobalHook(window);window.$RefreshReg$ = () => {};window.$RefreshSig$ = () => (type) => type;window.__vite_plugin_react_preamble_installed__ = true;</script>"@
    } else {
        Seq::empty()
    };
    preamble + "<script type=\"module\" src=\""@ + o + "/@vite/client\"></script><script type=\"module\" src=\""@ + o
        + "/"@ + spec_attr(trim_start_slashes(entry)) + "\"></script>"@
}

/// One `<link>` per file under `base`.
pub open spec fn link_tags(rel: Seq<char>, base: Seq<char>, files: Seq<Seq<char>>) -> Seq<char>
    decreases files.len(),
{
    if files.len() == 0 {
        Seq::empty()
    } else {
        link_tags(rel, base, files.drop_last()) + "<link rel=\""@ + rel + "\" href=\""@ + spec_attr(base + files.last()) + "\">"@
    }
}

/// How deep a walk over `n` chunks may nest: the entry, then each chunk key at most once.
pub open spec fn walk_depth(n: nat) -> nat {
    if n < usize::MAX { n + 1 } else { n }
}

/// With React Fast Refresh, the dev tags begin with the full preamble of
/// `@vitejs/plugin-react` (which installs the refresh runtime and then marks the preamble
/// installed, without which the plugin refuses to run), followed by exactly the tags the
/// page gets without it.
pub proof fn lemma_react_preamble(origin: Seq<char>, entry: Seq<char>)
    ensures
        dev_tags(origin, true, entry) == "<script type=\"module\">import RefreshRuntime from \""@ + spec_attr(origin)
            + "/@react-refresh\";RefreshRuntime.injectIntoGlobalHook(window);window.$RefreshReg$ = () => {};window.$RefreshSig$ = () => (type) => type;window.__vite_plugin_react_preamble_installed__ = true;</script>"@
            + dev_tags(origin, false, entry),
{
    let o = spec_attr(origin);
    let rest = "<script type=\"module\" src=\""@ + o + "/@vite/client\"></script><script type=\"module\" src=\""@ + o
        + "/"@ + spec_attr(trim_start_slashes(entry)) + "\"></script>"@;
    assert(dev_tags(origin, false, entry) =~= rest);
}

/// The tags for a built entry: its CSS and that of its static imports, preloads of the
/// imported chunks, and the entry script.
pub open spec fn build_tags(chunks: Seq<(String, Chunk)>, base: Seq<char>, chunk: Chunk) -> Seq<char> {
    let w = spec_collect(chunks, chunk, Walk { seen: Seq::empty(), css: Seq::empty(), preload: Seq::empty() }, walk_depth(chunks.len()));
    link_tags("stylesheet"@, base, spec_dedup(w.css)) + link_tags("modulepreload"@, base, spec_dedup(w.preload))
        + "<script type=\"module\" src=\""@ + spec_attr(base + chunk.file@) + "\"></script>"@
}

fn push_links(html: &mut String, rel: &str, base: &str, files: &Vec<String>)
    ensures
        final(html)@ == old(html)@ + link_tags(rel@, base@, strs(files@)),
{
    let mut i: usize = 0;
    assert(strs(files@).subrange(0, 0) =~= Seq::<Seq<char>>::empty());
    assert(old(html)@ + Seq::<char>::empty() =~= old(html)@);
    while i < files.len()
        invariant
            i <= files@.len(),
            html@ == old(html)@ + link_tags(rel@, base@, strs(files@).subrange(0, i as int)),
        decreases files@.len() - i,
    {
        let ghost before = html@;
        let mut url = base.to_owned();
        url.append(files[i].as_str());
        let escaped = attr(url.as_str());
        push_str(html, "<link rel=\"");
        push_str(html, rel);
        push_str(html, "\" href=\"");
        push_str(html, escaped.as_str());
        push_str(html, "\">");
        assert(strs(files@).subrange(0, i + 1).drop_last() == strs(files@).subrange(0, i as int));
        assert(strs(files@).subrange(0, i + 1).last() == files@[i as int]@);
        assert(html@ =~= old(html)@ + link_tags(rel@, base@, strs(files@).subrange(0, i + 1)));
        i = i + 1;
    }
    assert(strs(files@).subrange(0, files@.len() as int) == strs(files@));
}

fn trim_leading_slashes(s: &str) -> (r: String)
    ensures
        r@ == trim_start_slashes(s@),
{
    let n = s.unicode_len();
    let mut i: usize = 0;
    assert(s@.subrange(0, n as int) == s@);
    while i < n && s.get_char(i) == '/'
        invariant
            n == s@.len(),
            i <= n,
            trim_start_slashes(s@) == trim_start_slashes(s@.subrange(i as int, n as int)),
        decreases n - i,
    {
        assert(s@.subrange(i as int, n as int).drop_first() == s@.subrange(i + 1, n as int));
        i = i + 1;
    }
    let mut r = String::new();
    let mut j: usize = i;
    while j < n
        invariant
            n == s@.len(),
            i <= j <= n,
            r@ == s@.subrange(i as int, j as int),
        decreases n - j,
    {
        push_char(&mut r, s.get_char(j));
        assert(s@.subrange(i as int, j + 1) == s@.subrange(i as int, j as int).push(s@[j as int]));
        j = j + 1;
    }
    r
}

/// The origin as given, without trailing `/`.
fn trim_trailing_slashes(s: &str) -> (r: String)
    ensures
        r@ == trim_end_slashes(s@),
{
    let mut n = s.unicode_len();
    assert(s@.subrange(0, s@.len() as int) == s@);
    while n > 0 && s.get_char(n - 1) == '/'
        invariant
            n <= s@.len(),
            trim_end_slashes(s@) == trim_end_slashes(s@.subrange(0, n as int)),
        decreases n,
    {
        assert(s@.subrange(0, n as int).drop_last() == s@.subrange(0, n - 1));
        n = n - 1;
    }
    let mut r = String::new();
    let mut i: usize = 0;
    while i < n
        invariant
            n <= s@.len(),
            i <= n,
            r@ == s@.subrange(0, i as int),
        decreases n - i,
    {
        push_char(&mut r, s.get_char(i));
        assert(s@.subrange(0, i + 1) == s@.subrange(0, i as int).push(s@[i as int]));
        i = i + 1;
    }
    r
}

/// `base` ending with `/`.
pub open spec fn with_slash(base: Seq<char>) -> Seq<char> {
    if base.len() > 0 && base.last() == '/' { base } else { base.push('/') }
}

impl Vite {
    /// Tags pointing at a running Vite dev server (`origin` without trailing `/`).
    pub fn dev(origin: &str, react_refresh: bool) -> (r: Vite)
        ensures
            r.mode matches Mode::Dev { origin: o, react_refresh: rr } && o@ == trim_end_slashes(origin@) && rr == react_refresh,
            r.default_entry is None,
    {
        Vite { mode: Mode::Dev { origin: trim_trailing_slashes(origin), react_refresh }, default_entry: None }
    }

    /// Tags from the chunks of a build manifest, whose text was `manifest`; `base` is the URL
    /// prefix of the built files (a `/` is added when missing). The version is the manifest's
    /// FNV-1a hash.
    pub fn from_chunks(chunks: Vec<(String, Chunk)>, manifest: &[u8], base: String) -> (r: Vite)
        ensures
            r.mode matches Mode::Build { chunks: c, base: b, version: v } && c == chunks
                && b@ == with_slash(base@) && v@ == hex_fixed(fnv1a(manifest@) as nat, 16),
            r.default_entry is None,
    {
        let mut base = base;
        let n = base.unicode_len();
        if !(n > 0 && base.get_char(n - 1) == '/') {
            push_char(&mut base, '/');
        }
        Vite { mode: Mode::Build { chunks, base, version: fnv1a_hex(manifest) }, default_entry: None }
    }

    /// From `settings.inertia.vite` when it names a dev server: its tags, with the configured
    /// default entry (the manifest is not read); `None` when the tags come from the manifest.
    pub fn from_dev_settings(settings: &ViteSettings) -> (r: Option<Vite>)
        ensures
            match settings.dev_server {
                Some(o) => r matches Some(v) && v.mode matches Mode::Dev { origin, react_refresh }
                    && origin@ == trim_end_slashes(o@) && react_refresh == settings.react_refresh
                    && v.default_entry == settings.entry,
                None => r is None,
            },
    {
        match &settings.dev_server {
            Some(o) => {
                let entry = match &settings.entry {
                    Some(e) => Some(e.clone()),
                    None => None,
                };
                Some(Vite::dev(o.as_str(), settings.react_refresh).with_default_entry(entry))
            },
            None => None,
        }
    }

    /// The entry `vite()` uses when the template names none.
    pub fn with_default_entry(self, entry: Option<String>) -> (r: Vite)
        ensures
            r == (Vite { default_entry: entry, ..self }),
    {
        Vite { default_entry: entry, ..self }
    }

    /// Asset version: a hash of the manifest, so every build changes it. `None` in dev.
    pub fn version(&self) -> (r: Option<&str>)
        ensures
            match self.mode {
                Mode::Build { version, .. } => r matches Some(v) && v@ == version@,
                Mode::Dev { .. } => r is None,
            },
    {
        match &self.mode {
            Mode::Build { version, .. } => Some(version.as_str()),
            Mode::Dev { .. } => None,
        }
    }

    /// The tags to put in `<head>` for `entry` (or the configured default entry).
    pub fn tags(&self, entry: Option<&str>) -> (r: Result<String, ViteError>)
        ensures
            tags_answer(self.mode, chosen_entry(self.default_entry, match entry { Some(x) => Some(x@), None => None }), r),
    {
        let entry: &str = match entry {
            Some(x) => x,
            None => match &self.default_entry {
                Some(d) => d.as_str(),
                None => {
                    return Err(ViteError::NoEntry);
                },
            },
        };
        let mut html = String::new();
        match &self.mode {
            Mode::Dev { origin, react_refresh } => {
                let o = attr(origin.as_str());
                if *react_refresh {
                    push_str(&mut html, "<script type=\"module\">import RefreshRuntime from \"");
                    push_str(&mut html, o.as_str());
                    push_str(&mut html, "/@react-refresh\";RefreshRuntime.injectIntoGlobalHook(window);window.$RefreshReg$ = () => {};window.$RefreshSig$ = () => (type) => type;window.__vite_plugin_react_preamble_installed__ = true;</script>");
                }
                let e = attr(trim_leading_slashes(entry).as_str());
                push_str(&mut html, "<script type=\"module\" src=\"");
                push_str(&mut html, o.as_str());
                push_str(&mut html, "/@vite/client\"></script><script type=\"module\" src=\"");
                push_str(&mut html, o.as_str());
                push_str(&mut html, "/");
                push_str(&mut html, e.as_str());
                push_str(&mut html, "\"></script>");
                assert(html@ =~= dev_tags(origin@, *react_refresh, entry@));
                Ok(html)
            },
            Mode::Build { chunks, base, .. } => {
                let j = match find_chunk(chunks, entry) {
                    Some(j) => j,
                    None => {
                        return Err(ViteError::UnknownEntry(entry.to_owned()));
                    },
                };
                let chunk = &chunks[j].1;
                let mut seen: Vec<String> = Vec::new();
                let mut css: Vec<String> = Vec::new();
                let mut preload: Vec<String> = Vec::new();
                assert(strs(seen@) =~= Seq::<Seq<char>>::empty());
                assert(strs(css@) =~= Seq::<Seq<char>>::empty());
                assert(strs(preload@) =~= Seq::<Seq<char>>::empty());
                let depth = if chunks.len() < usize::MAX { chunks.len() + 1 } else { chunks.len() };
                collect(chunks, chunk, &mut seen, &mut css, &mut preload, depth);
                let css = dedup(&css);
                let preload = dedup(&preload);
                push_links(&mut html, "stylesheet", base.as_str(), &css);
                push_links(&mut html, "modulepreload", base.as_str(), &preload);
                let mut url = base.clone();
                url.append(chunk.file.as_str());
                let src = attr(url.as_str());
                push_str(&mut html, "<script type=\"module\" src=\"");
                push_str(&mut html, src.as_str());
                push_str(&mut html, "\"></script>");
                assert(depth == walk_depth(chunks@.len()));
                assert(html@ =~= build_tags(chunks@, base@, *chunk));
                Ok(html)
            },
        }
    }
}

} // verus!
