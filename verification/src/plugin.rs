//! Plugin descriptions: what kind of work a WebAssembly plugin does, its
//! manifest, and its code.

use vstd::prelude::*;
use crate::text::{str_eq, string_views};
use crate::log_entry::LogEntry;
use crate::wasm_host::{WasmHost, lemma_nonzero_positions, nonzero_positions, strictly_increasing};

verus! {

/// What a plugin does with log entries.
#[derive(Debug, Clone, Copy, PartialEq, Eq, Structural)]
pub enum PluginKind {
    /// Rewrites entries.
    Transform,
    /// Keeps or drops entries.
    Filter,
    /// Computes over entries.
    Aggregate,
}

/// Plugin manifest (from a TOML file beside the module).
#[derive(Debug, Clone)]
pub struct PluginManifest {
    /// Plugin name.
    pub name: String,
    /// Plugin version.
    pub version: String,
    /// Human-readable description.
    pub description: String,
    /// What the plugin does.
    pub kind: PluginKind,
    /// Plugin author (empty when not given).
    pub author: String,
}

/// A loaded plugin.
pub struct Plugin {
    /// The plugin's manifest.
    pub manifest: PluginManifest,
    /// The WebAssembly module.
    pub wasm_bytes: Vec<u8>,
    /// Whether the plugin runs.
    pub enabled: bool,
}

impl Plugin {
    /// A plugin from its manifest and module, enabled.
    pub fn new(manifest: PluginManifest, wasm_bytes: Vec<u8>) -> (p: Self)
        ensures
            p.manifest == manifest,
            p.wasm_bytes == wasm_bytes,
            p.enabled,
    {
        Plugin { manifest, wasm_bytes, enabled: true }
    }
}


/// The names of a list of plugins.
pub open spec fn plugin_names_of(ps: Seq<Plugin>) -> Seq<Seq<char>> {
    Seq::new(ps.len(), |i: int| ps[i].manifest.name@)
}

/// Position of the plugin named `name`, if any.
pub open spec fn plugin_index(ps: Seq<Plugin>, name: Seq<char>) -> Option<int> {
    if exists|i: int| 0 <= i < ps.len() && (#[trigger] ps[i]).manifest.name@ == name {
        Some(choose|i: int| 0 <= i < ps.len() && (#[trigger] ps[i]).manifest.name@ == name)
    } else {
        None
    }
}

/// The plugins after adding `p` under its name: it replaces the plugin of
/// that name, or comes last.
pub open spec fn inserted(ps: Seq<Plugin>, p: Plugin) -> Seq<Plugin> {
    match plugin_index(ps, p.manifest.name@) {
        Some(i) => ps.update(i, p),
        None => ps.push(p),
    }
}

/// No two plugins share a name.
pub open spec fn distinct_names(ps: Seq<Plugin>) -> bool {
    forall|i: int, j: int|
        0 <= i < j < ps.len() ==> (#[trigger] ps[i]).manifest.name@ != (#[trigger] ps[j]).manifest.name@
}

/// Looking a plugin up by name after adding it finds that plugin, and the
/// names stay distinct.
pub proof fn law_insert_then_get(ps: Seq<Plugin>, p: Plugin)
    requires
        distinct_names(ps),
    ensures
        plugin_index(inserted(ps, p), p.manifest.name@) matches Some(j) && inserted(ps, p)[j] == p,
{
    let name = p.manifest.name@;
    let r = inserted(ps, p);
    match plugin_index(ps, name) {
        Some(i) => {
            assert(r[i] == p);
            assert(0 <= i < r.len() && r[i].manifest.name@ == name);
            let c = choose|k: int| 0 <= k < r.len() && (#[trigger] r[k]).manifest.name@ == name;
            if c != i {
                assert(r[c] == ps[c]);
                assert(ps[i].manifest.name@ == name);
                if c < i {
                    assert(ps[c].manifest.name@ != ps[i].manifest.name@);
                } else {
                    assert(ps[i].manifest.name@ != ps[c].manifest.name@);
                }
            }
        },
        None => {
            let n = ps.len() as int;
            assert(r[n] == p);
            assert(0 <= n < r.len() && r[n].manifest.name@ == name);
            let c = choose|k: int| 0 <= k < r.len() && (#[trigger] r[k]).manifest.name@ == name;
            if c != n {
                assert(r[c] == ps[c]);
            }
        },
    }
}

/// The positions of the enabled plugins of `kind`, in order.
pub open spec fn runnable(ps: Seq<Plugin>, kind: PluginKind) -> Seq<usize>
    decreases ps.len(),
{
    if ps.len() == 0 {
        seq![]
    } else if ps.last().enabled && ps.last().manifest.kind == kind {
        runnable(ps.drop_last(), kind).push((ps.len() - 1) as usize)
    } else {
        runnable(ps.drop_last(), kind)
    }
}

/// The loaded plugins, one per name.
pub struct PluginRegistry {
    /// The plugins, in the order they were loaded.
    pub plugins: Vec<Plugin>,
}

/// Where a plugin is loaded from.
#[derive(Debug, Clone, Copy, PartialEq, Eq, Structural)]
pub enum PluginSource {
    /// A directory holding `plugin.wasm` and `manifest.toml`.
    Directory,
    /// A `.wasm` file with a `.toml` manifest beside it.
    FileWithManifest,
    /// A `.wasm` file alone; its manifest is made up from the file name.
    BareFile,
    /// Not a plugin.
    Nothing,
}

/// What a directory entry is as a plugin: a directory with both plugin
/// files, a `.wasm` file with or without a manifest beside it, or nothing.
pub fn plugin_source(is_dir: bool, has_plugin_files: bool, is_wasm_file: bool, has_manifest: bool) -> (s: PluginSource)
    ensures
        s == (if is_dir {
            if has_plugin_files {
                PluginSource::Directory
            } else {
                PluginSource::Nothing
            }
        } else if is_wasm_file {
            if has_manifest {
                PluginSource::FileWithManifest
            } else {
                PluginSource::BareFile
            }
        } else {
            PluginSource::Nothing
        }),
{
    if is_dir {
        if has_plugin_files {
            PluginSource::Directory
        } else {
            PluginSource::Nothing
        }
    } else if is_wasm_file {
        if has_manifest {
            PluginSource::FileWithManifest
        } else {
            PluginSource::BareFile
        }
    } else {
        PluginSource::Nothing
    }
}

/// The manifest made up for a `.wasm` file without one: named after the
/// file, version `0.0.0`, a transform.
pub fn default_manifest(stem: &str, path: &str) -> (m: PluginManifest)
    ensures
        m.name@ == stem@,
        m.version@ == "0.0.0"@,
        m.description@ == "Plugin loaded from "@ + path@,
        m.kind == PluginKind::Transform,
        m.author@.len() == 0,
{
    let mut description = String::from_str("Plugin loaded from ");
    description.append(path);
    PluginManifest {
        name: String::from_str(stem),
        version: String::from_str("0.0.0"),
        description,
        kind: PluginKind::Transform,
        author: String::new(),
    }
}

impl PluginRegistry {
    /// No two plugins share a name.
    pub open spec fn wf(&self) -> bool {
        distinct_names(self.plugins@)
    }

    /// An empty registry.
    pub fn new() -> (r: PluginRegistry)
        ensures
            r.wf(),
            r.plugins@.len() == 0,
    {
        PluginRegistry { plugins: Vec::new() }
    }

    /// Position of the plugin named `name`.
    fn position(&self, name: &str) -> (r: Option<usize>)
        ensures
            match r {
                Some(i) => i < self.plugins@.len() && self.plugins@[i as int].manifest.name@ == name@,
                None => forall|i: int|
                    0 <= i < self.plugins@.len() ==> (#[trigger] self.plugins@[i]).manifest.name@
                        != name@,
            },
    {
        let mut i: usize = 0;
        while i < self.plugins.len()
            invariant
                i <= self.plugins@.len(),
                forall|k: int| 0 <= k < i ==> (#[trigger] self.plugins@[k]).manifest.name@ != name@,
            decreases self.plugins@.len() - i,
        {
            if str_eq(self.plugins[i].manifest.name.as_str(), name) {
                return Some(i);
            }
            i += 1;
        }
        None
    }

    /// Add a plugin under its name, replacing the plugin of that name if
    /// there is one.
    pub fn insert(&mut self, plugin: Plugin)
        requires
            old(self).wf(),
        ensures
            final(self).wf(),
            final(self).plugins@ == inserted(old(self).plugins@, plugin),
    {
        let ghost name = plugin.manifest.name@;
        let ghost before = self.plugins@;
        match self.position(plugin.manifest.name.as_str()) {
            Some(i) => {
                proof {
                    let c = choose|k: int| 0 <= k < before.len() && (#[trigger] before[k]).manifest.name@ == name;
                    assert(before[i as int].manifest.name@ == name);
                    if c != i {
                        if c < i {
                            assert(before[c].manifest.name@ != before[i as int].manifest.name@);
                        } else {
                            assert(before[i as int].manifest.name@ != before[c].manifest.name@);
                        }
                    }
                }
                self.plugins.set(i, plugin);
                proof {
                    assert forall|a: int, b: int|
                        0 <= a < b < self.plugins@.len() implies (#[trigger] self.plugins@[a]).manifest.name@
                            != (#[trigger] self.plugins@[b]).manifest.name@ by {
                        if a != i && b != i {
                            assert(self.plugins@[a] == before[a] && self.plugins@[b] == before[b]);
                        } else if a == i {
                            assert(self.plugins@[b] == before[b]);
                            assert(before[i as int].manifest.name@ != before[b].manifest.name@);
                        } else {
                            assert(self.plugins@[a] == before[a]);
                            assert(before[a].manifest.name@ != before[i as int].manifest.name@);
                        }
                    }
                }
            },
            None => {
                self.plugins.push(plugin);
                proof {
                    assert forall|a: int, b: int|
                        0 <= a < b < self.plugins@.len() implies (#[trigger] self.plugins@[a]).manifest.name@
                            != (#[trigger] self.plugins@[b]).manifest.name@ by {
                        assert(self.plugins@[a] == before[a]);
                        if b < before.len() {
                            assert(self.plugins@[b] == before[b]);
                        }
                    }
                }
            },
        }
    }

    /// The plugin named `name`, if loaded.
    pub fn get(&self, name: &str) -> (r: Option<&Plugin>)
        requires
            self.wf(),
        ensures
            match plugin_index(self.plugins@, name@) {
                Some(i) => r == Some(&self.plugins@[i]),
                None => r is None,
            },
    {
        match self.position(name) {
            Some(i) => {
                proof {
                    let c = choose|k: int| 0 <= k < self.plugins@.len() && (#[trigger] self.plugins@[k]).manifest.name@ == name@;
                    if c != i {
                        if c < i {
                            assert(self.plugins@[c].manifest.name@ != self.plugins@[i as int].manifest.name@);
                        } else {
                            assert(self.plugins@[i as int].manifest.name@ != self.plugins@[c].manifest.name@);
                        }
                    }
                }
                Some(&self.plugins[i])
            },
            None => None,
        }
    }

    /// Enable or disable the plugin named `name`; no effect when there is none.
    pub fn set_enabled(&mut self, name: &str, enabled: bool)
        requires
            old(self).wf(),
        ensures
            final(self).wf(),
            final(self).plugins@.len() == old(self).plugins@.len(),
            forall|i: int|
                0 <= i < old(self).plugins@.len() ==> {
                    &&& (#[trigger] final(self).plugins@[i]).manifest == old(self).plugins@[i].manifest
                    &&& final(self).plugins@[i].wasm_bytes == old(self).plugins@[i].wasm_bytes
                    &&& final(self).plugins@[i].enabled == if old(self).plugins@[i].manifest.name@
                        == name@ {
                        enabled
                    } else {
                        old(self).plugins@[i].enabled
                    }
                },
    {
        let ghost before = self.plugins@;
        match self.position(name) {
            Some(i) => {
                let mut p = self.plugins.remove(i);
                p.enabled = enabled;
                self.plugins.insert(i, p);
                proof {
                    assert forall|k: int| 0 <= k < before.len() && k != i implies self.plugins@[k] == before[k] by {
                        if k < i {
                            assert(self.plugins@[k] == before[k]);
                        } else {
                            assert(self.plugins@[k] == before[k]);
                        }
                    }
                    assert forall|k: int| 0 <= k < before.len() && k != i implies before[k].manifest.name@ != name@ by {
                        if k < i {
                            assert(before[k].manifest.name@ != before[i as int].manifest.name@);
                        } else {
                            assert(before[i as int].manifest.name@ != before[k].manifest.name@);
                        }
                    }
                }
            },
            None => {},
        }
    }

    /// The names of the loaded plugins.
    pub fn plugin_names(&self) -> (v: Vec<String>)
        ensures
            string_views(v@) == plugin_names_of(self.plugins@),
    {
        let mut v: Vec<String> = Vec::new();
        let mut i: usize = 0;
        while i < self.plugins.len()
            invariant
                i <= self.plugins@.len(),
                v@.len() == i,
                forall|k: int| 0 <= k < i ==> (#[trigger] v@[k])@ == self.plugins@[k].manifest.name@,
            decreases self.plugins@.len() - i,
        {
            v.push(self.plugins[i].manifest.name.clone());
            i += 1;
        }
        proof {
            assert(string_views(v@) =~= plugin_names_of(self.plugins@));
        }
        v
    }

    /// The positions of the enabled plugins of `kind`, in the order they
    /// run.
    pub fn runnable(&self, kind: PluginKind) -> (v: Vec<usize>)
        ensures
            v@ == runnable(self.plugins@, kind),
    {
        let mut v: Vec<usize> = Vec::new();
        let mut i: usize = 0;
        while i < self.plugins.len()
            invariant
                i <= self.plugins@.len(),
                v@ == runnable(self.plugins@.take(i as int), kind),
            decreases self.plugins@.len() - i,
        {
            proof {
                assert(self.plugins@.take(i + 1).drop_last() == self.plugins@.take(i as int));
                assert(self.plugins@.take(i + 1).last() == self.plugins@[i as int]);
            }
            if self.plugins[i].enabled && self.plugins[i].manifest.kind == kind {
                v.push(i);
            }
            i += 1;
        }
        proof {
            assert(self.plugins@.take(self.plugins@.len() as int) == self.plugins@);
        }
        v
    }

    /// Number of loaded plugins.
    pub fn len(&self) -> (n: usize)
        ensures
            n == self.plugins@.len(),
    {
        self.plugins.len()
    }

    /// Whether no plugin is loaded.
    pub fn is_empty(&self) -> (b: bool)
        ensures
            b == (self.plugins@.len() == 0),
    {
        self.plugins.len() == 0
    }
}

/// Whether `a` is a copy of `b`: same timestamp, labels, line and raw
/// record.
pub open spec fn same_entry(a: LogEntry, b: LogEntry) -> bool {
    &&& a.timestamp == b.timestamp
    &&& a.labels@ == b.labels@
    &&& a.line == b.line
    &&& a.raw == b.raw
}

/// The entries after one transform plugin ran: what it returned, or the
/// entries as they were when it failed (a failing plugin is skipped).
pub fn transformed_entries(entries: Vec<LogEntry>, outcome: Option<Vec<LogEntry>>) -> (r: Vec<LogEntry>)
    ensures
        r@ == match outcome {
            Some(v) => v@,
            None => entries@,
        },
{
    match outcome {
        Some(v) => v,
        None => entries,
    }
}

/// The entries after one filter plugin ran: those at the positions it
/// kept, in its order, or all of them when it failed (a failing plugin is
/// skipped).
pub fn filtered_entries(entries: Vec<LogEntry>, kept: Option<Vec<usize>>) -> (r: Vec<LogEntry>)
    requires
        kept matches Some(k) ==> forall|j: int| 0 <= j < k@.len() ==> #[trigger] k@[j] < entries@.len(),
    ensures
        match kept {
            None => r@ == entries@,
            Some(k) => r@.len() == k@.len() && forall|j: int|
                0 <= j < k@.len() ==> same_entry(#[trigger] r@[j], entries@[k@[j] as int]),
        },
{
    match kept {
        None => entries,
        Some(k) => {
            let mut r: Vec<LogEntry> = Vec::new();
            let mut j: usize = 0;
            while j < k.len()
                invariant
                    j <= k@.len(),
                    r@.len() == j,
                    forall|i: int| 0 <= i < k@.len() ==> #[trigger] k@[i] < entries@.len(),
                    forall|i: int| 0 <= i < j ==> same_entry(#[trigger] r@[i], entries@[k@[i] as int]),
                decreases k@.len() - j,
            {
                r.push(entries[k[j]].duplicate());
                j += 1;
            }
            r
        },
    }
}


/// The positions of the runnable plugins lie inside the list.
pub proof fn lemma_runnable_bounded(ps: Seq<Plugin>, kind: PluginKind)
    requires
        ps.len() <= usize::MAX,
    ensures
        forall|i: int| 0 <= i < runnable(ps, kind).len() ==> #[trigger] runnable(ps, kind)[i] < ps.len(),
    decreases ps.len(),
{
    if ps.len() > 0 {
        let prev = ps.drop_last();
        lemma_runnable_bounded(prev, kind);
        let r = runnable(prev, kind);
        if ps.last().enabled && ps.last().manifest.kind == kind {
            let q = r.push((ps.len() - 1) as usize);
            assert forall|i: int| 0 <= i < q.len() implies #[trigger] q[i] < ps.len() by {
                if i < r.len() {
                    assert(q[i] == r[i]);
                }
            }
        }
    }
}

/// Whether `r` is entries of `e` kept in their order: copies of the entries
/// at some rising positions of `e`.
pub open spec fn kept_in_order(r: Seq<LogEntry>, e: Seq<LogEntry>) -> bool {
    exists|idx: Seq<usize>|
        #![trigger strictly_increasing(idx)]
        idx.len() == r.len() && strictly_increasing(idx) && (forall|j: int| 0 <= j < idx.len() ==> #[trigger] idx[j]
            < e.len()) && (forall|j: int| 0 <= j < r.len() ==> same_entry(#[trigger] r[j], e[idx[j] as int]))
}

/// Every list of entries is itself kept in order.
pub proof fn lemma_kept_in_order_refl(e: Seq<LogEntry>)
    requires
        e.len() <= usize::MAX,
    ensures
        kept_in_order(e, e),
{
    let idx = Seq::new(e.len(), |j: int| j as usize);
    assert(strictly_increasing(idx));
    assert(forall|j: int| 0 <= j < e.len() ==> same_entry(#[trigger] e[j], e[idx[j] as int]));
}

/// Keeping entries in order twice keeps them in order.
pub proof fn lemma_kept_in_order_trans(a: Seq<LogEntry>, b: Seq<LogEntry>, c: Seq<LogEntry>)
    requires
        kept_in_order(a, b),
        kept_in_order(b, c),
    ensures
        kept_in_order(a, c),
{
    let i1 = choose|idx: Seq<usize>|
        #![trigger strictly_increasing(idx)]
        idx.len() == a.len() && strictly_increasing(idx) && (forall|j: int| 0 <= j < idx.len() ==> #[trigger] idx[j]
            < b.len()) && (forall|j: int| 0 <= j < a.len() ==> same_entry(#[trigger] a[j], b[idx[j] as int]));
    let i2 = choose|idx: Seq<usize>|
        #![trigger strictly_increasing(idx)]
        idx.len() == b.len() && strictly_increasing(idx) && (forall|j: int| 0 <= j < idx.len() ==> #[trigger] idx[j]
            < c.len()) && (forall|j: int| 0 <= j < b.len() ==> same_entry(#[trigger] b[j], c[idx[j] as int]));
    let idx = Seq::new(a.len(), |j: int| i2[i1[j] as int]);
    assert forall|x: int, y: int| 0 <= x < y < idx.len() implies idx[x] < idx[y] by {
        assert(i1[x] < i1[y]);
        assert(i2[i1[x] as int] < i2[i1[y] as int]);
    }
    assert(strictly_increasing(idx));
    assert forall|j: int| 0 <= j < idx.len() implies #[trigger] idx[j] < c.len() by {
        assert(i1[j] < b.len());
        assert(i2[i1[j] as int] < c.len());
    }
    assert forall|j: int| 0 <= j < a.len() implies same_entry(#[trigger] a[j], c[idx[j] as int]) by {
        assert(same_entry(a[j], b[i1[j] as int]));
        assert(same_entry(b[i1[j] as int], c[i2[i1[j] as int] as int]));
    }
}

/// The encodings at positions `k`, in order.
fn select_json(js: &Vec<Vec<u8>>, k: &Vec<usize>) -> (r: Vec<Vec<u8>>)
    requires
        forall|j: int| 0 <= j < k@.len() ==> #[trigger] k@[j] < js@.len(),
    ensures
        r@.len() == k@.len(),
{
    let mut r: Vec<Vec<u8>> = Vec::new();
    let mut j: usize = 0;
    while j < k.len()
        invariant
            j <= k@.len(),
            r@.len() == j,
            forall|i: int| 0 <= i < k@.len() ==> #[trigger] k@[i] < js@.len(),
        decreases k@.len() - j,
    {
        r.push(js[k[j]].clone());
        j += 1;
    }
    r
}

impl PluginRegistry {
    /// Run the enabled filter plugins in turn on `entries`, given the JSON
    /// of each entry (`None` when an entry could not be encoded, which
    /// makes every filter plugin fail). A plugin that fails is skipped; the
    /// entries a plugin keeps go on to the next one with their JSON. What
    /// comes out is entries of the input kept in their order, and all of
    /// them when no filter plugin is enabled or the entries have no JSON.
    pub fn apply_filters(&self, host: &mut WasmHost, entries: Vec<LogEntry>, entries_json: Option<Vec<Vec<u8>>>) -> (r: Vec<LogEntry>)
        requires
            entries_json matches Some(j) ==> j@.len() == entries@.len(),
        ensures
            kept_in_order(r@, entries@),
            (entries_json is None || runnable(self.plugins@, PluginKind::Filter).len() == 0) ==> r@ == entries@,
    {
        let ghost original = entries@;
        let ghost had_json = entries_json is Some;
        let _n = entries.len();
        let _m = self.plugins.len();
        let order = self.runnable(PluginKind::Filter);
        let mut entries = entries;
        let mut json = entries_json;
        proof {
            lemma_kept_in_order_refl(original);
            lemma_runnable_bounded(self.plugins@, PluginKind::Filter);
        }
        let mut p: usize = 0;
        while p < order.len()
            invariant
                p <= order@.len(),
                order@ == runnable(self.plugins@, PluginKind::Filter),
                forall|i: int| 0 <= i < order@.len() ==> #[trigger] order@[i] < self.plugins@.len(),
                kept_in_order(entries@, original),
                json matches Some(j) ==> j@.len() == entries@.len(),
                (json is None || p == 0) ==> entries@ == original,
                !had_json ==> json is None,
            decreases order@.len() - p,
        {
            let plugin = &self.plugins[order[p]];
            let mut new_json: Option<Vec<Vec<u8>>> = None;
            match &json {
                Some(js) => match host.run_filter(plugin.wasm_bytes.as_slice(), js) {
                    Some(k) => {
                        let _len = js.len();
                        let ghost before = entries@;
                        proof {
                            let answers = choose|answers: Seq<i32>|
                                answers.len() == js@.len() && k@ == #[trigger] nonzero_positions(answers);
                            lemma_nonzero_positions(answers);
                        }
                        let kept_json = select_json(js, &k);
                        let ghost kk = k@;
                        entries = filtered_entries(entries, Some(k));
                        proof {
                            assert(kept_in_order(entries@, before)) by {
                                assert(kk.len() == entries@.len() && strictly_increasing(kk));
                            }
                            lemma_kept_in_order_trans(entries@, before, original);
                        }
                        new_json = Some(kept_json);
                    },
                    None => {},
                },
                None => {},
            }
            if new_json.is_some() {
                json = new_json;
            }
            p += 1;
        }
        entries
    }
}


impl PluginRegistry {
    /// Run the enabled transform plugins in turn on `entries`: `encode`
    /// writes the entries as the JSON a plugin reads, the plugin runs on
    /// it, and `decode` reads back the entries from its reply. A plugin
    /// that fails, or whose input or reply cannot be read, is skipped; an
    /// empty reply leaves the entries as they were. What comes out is the
    /// input, or what `decode` made of some plugin's reply, and the input
    /// when no transform plugin is enabled.
    pub fn apply_transforms<E, D>(&self, host: &mut WasmHost, entries: Vec<LogEntry>, encode: E, decode: D) -> (r: Vec<LogEntry>)
        where
            E: Fn(&Vec<LogEntry>) -> Option<Vec<u8>>,
            D: Fn(&Vec<u8>) -> Option<Vec<LogEntry>>,
        requires
            forall|e: &Vec<LogEntry>| encode.requires((e,)),
            forall|b: &Vec<u8>| decode.requires((b,)),
        ensures
            r@ == entries@ || exists|b: &Vec<u8>, v: Vec<LogEntry>| decode.ensures((b,), Some(v)) && r@ == v@,
            runnable(self.plugins@, PluginKind::Transform).len() == 0 ==> r@ == entries@,
    {
        let ghost original = entries@;
        let _m = self.plugins.len();
        let order = self.runnable(PluginKind::Transform);
        proof {
            lemma_runnable_bounded(self.plugins@, PluginKind::Transform);
        }
        let mut entries = entries;
        let mut p: usize = 0;
        while p < order.len()
            invariant
                p <= order@.len(),
                order@ == runnable(self.plugins@, PluginKind::Transform),
                forall|i: int| 0 <= i < order@.len() ==> #[trigger] order@[i] < self.plugins@.len(),
                forall|e: &Vec<LogEntry>| encode.requires((e,)),
                forall|b: &Vec<u8>| decode.requires((b,)),
                entries@ == original || exists|b: &Vec<u8>, v: Vec<LogEntry>| decode.ensures((b,), Some(v)) && entries@
                    == v@,
                p == 0 ==> entries@ == original,
            decreases order@.len() - p,
        {
            let plugin = &self.plugins[order[p]];
            let outcome = match encode(&entries) {
                Some(input) => match host.run_transform(plugin.wasm_bytes.as_slice(), input.as_slice()) {
                    Some(Some(reply)) => {
                        let decoded = decode(&reply);
                        proof {
                            if decoded is Some {
                                assert(decode.ensures((&reply,), Some(decoded->0)));
                            }
                        }
                        decoded
                    },
                    _ => None,
                },
                None => None,
            };
            entries = transformed_entries(entries, outcome);
            p += 1;
        }
        entries
    }
}

} // verus!
