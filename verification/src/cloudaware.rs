//! Fossil detection for Rust `target/` directories.
//!
//! A `target/` is a fossil when the crate's binary is installed and that
//! binary is newer than everything in the `target/`: its build output has been
//! superseded and the directory is safe to reclaim. The caller finds the
//! installed binary (through an `adopt --list` listing or a `~/.local/bin`
//! probe) and the crate's cloud-build markers; the rules that turn those
//! findings into a [`CloudAwareInfo`] live here.

use vstd::prelude::*;
use crate::timestamp::{Timestamp, later_than};
use crate::paths::{file_name_of, joined, path_file_name, path_join};
use crate::classify::{EntryKind, SurveyEntry, crate_dir_of, crate_dir_spec};
use vstd::pervasive::VecAdditionalExecFns;
use vstd::utf8::{decode_utf8, valid_utf8};
use crate::json::{JsonScalar, JsonScalarView, JsonShape, JsonShapeView, json_member_shape, json_shape_of};
use crate::text::text_eq;

verus! {

/// How the install state of a crate's binary was determined.
#[derive(Clone, Copy, Debug, PartialEq, Eq, Structural)]
pub enum InstallSource {
    /// Found in the listing that `adopt --list` printed.
    Adopt,
    /// Found, or looked for, by a direct `~/.local/bin` probe.
    Probe,
}

/// Ranked safety level for reclaiming a `target/` directory, from highest to
/// lowest reclaim confidence.
#[derive(Clone, Copy, Debug, PartialEq, Eq, Structural)]
pub enum ReapSafety {
    /// Installed binary is newer than the local `target/`: near-zero risk.
    Fossil,
    /// Installed binary exists but is not newer than the target.
    StaleInstalled,
    /// No installed binary found: the target may hold the only build.
    StaleUninstalled,
    /// Target is recent.
    Recent,
}

/// The numeric rank of a reap-safety level: lower is safer to reclaim.
pub open spec fn rank_of(s: ReapSafety) -> u8 {
    match s {
        ReapSafety::Fossil => 0,
        ReapSafety::StaleInstalled => 1,
        ReapSafety::StaleUninstalled => 2,
        ReapSafety::Recent => 3,
    }
}

impl ReapSafety {
    /// Numeric rank: lower is safer to reclaim (higher priority reap).
    #[must_use]
    pub fn rank(&self) -> (r: u8)
        ensures
            r == rank_of(*self),
    {
        match self {
            ReapSafety::Fossil => 0,
            ReapSafety::StaleInstalled => 1,
            ReapSafety::StaleUninstalled => 2,
            ReapSafety::Recent => 3,
        }
    }
}

/// Ranks grow from the safest level to the least safe one: `Fossil`, then
/// `StaleInstalled`, then `StaleUninstalled`, then `Recent`.
pub proof fn rank_follows_safety_order()
    ensures
        rank_of(ReapSafety::Fossil) < rank_of(ReapSafety::StaleInstalled),
        rank_of(ReapSafety::StaleInstalled) < rank_of(ReapSafety::StaleUninstalled),
        rank_of(ReapSafety::StaleUninstalled) < rank_of(ReapSafety::Recent),
        forall|a: ReapSafety, b: ReapSafety| rank_of(a) == rank_of(b) ==> a == b,
{
}

/// Cloud-aware fields attached to a `RustTarget` entry.
#[derive(Clone, Debug)]
pub struct CloudAwareInfo {
    /// Path of the installed binary, if one was found.
    pub installed_bin: Option<String>,
    /// Modification time of the installed binary, if known.
    pub installed_mtime: Option<Timestamp>,
    /// The installed binary's mtime is strictly later than the target's.
    pub installed_newer_than_target: bool,
    /// The crate is detected as routing its builds to the cloud.
    pub cloud_built: bool,
    /// `installed_newer_than_target` holds and a binary was found; the
    /// mtime evidence alone decides it, `cloud_built` does not.
    pub fossil: bool,
    /// Ranked reap-safety label.
    pub reap_safety: ReapSafety,
    /// Whether the install state came from `adopt` or from a probe.
    pub install_source: InstallSource,
}

/// A binary named in the `adopt` listing whose metadata could be read.
#[derive(Clone, Debug)]
pub struct AdoptedBinary {
    /// The path as the listing gave it.
    pub path: String,
    /// Its modification time, to the nanosecond; `None` when the
    /// platform reported none or a time before the epoch.
    pub mtime: Option<Timestamp>,
}

/// A binary found by probing `~/.local/bin`, with its modification time.
#[derive(Clone, Debug)]
pub struct ProbedBinary {
    /// The probed path.
    pub path: String,
    /// Its modification time, to the nanosecond.
    pub mtime: Timestamp,
}

/// What the caller found out about one crate's installed binary and build.
#[derive(Clone, Debug)]
pub struct InstallFacts {
    /// The `adopt` listing named the crate's binary and its metadata was read.
    pub adopted: Option<AdoptedBinary>,
    /// The `~/.local/bin` probe found the binary with a known mtime.
    pub probed: Option<ProbedBinary>,
    /// The crate routes its builds to the cloud.
    pub cloud_built: bool,
}

/// The installed binary that counts: the adopted one first, else the probed one.
pub open spec fn resolved_bin(f: InstallFacts) -> Option<String> {
    match f.adopted {
        Some(a) => Some(a.path),
        None => match f.probed {
            Some(p) => Some(p.path),
            None => None,
        },
    }
}

/// The modification time of the binary that counts.
pub open spec fn resolved_mtime(f: InstallFacts) -> Option<Timestamp> {
    match f.adopted {
        Some(a) => a.mtime,
        None => match f.probed {
            Some(p) => Some(p.mtime),
            None => None,
        },
    }
}

/// The binary's mtime is known and strictly later than the target's.
pub open spec fn newer_than_target(f: InstallFacts, target_mtime: Timestamp) -> bool {
    match resolved_mtime(f) {
        Some(m) => later_than(m, target_mtime),
        None => false,
    }
}

/// A fossil: a binary is installed and it is newer than the target.
pub open spec fn is_fossil(f: InstallFacts, target_mtime: Timestamp) -> bool {
    resolved_bin(f) is Some && newer_than_target(f, target_mtime)
}

/// The reap-safety label that the findings earn.
pub open spec fn safety_of(f: InstallFacts, target_mtime: Timestamp) -> ReapSafety {
    if is_fossil(f, target_mtime) {
        ReapSafety::Fossil
    } else if resolved_bin(f) is Some {
        ReapSafety::StaleInstalled
    } else {
        ReapSafety::StaleUninstalled
    }
}

/// `info` is what the findings `f` say of a target last modified at `target_mtime`.
pub open spec fn describes(info: CloudAwareInfo, f: InstallFacts, target_mtime: Timestamp) -> bool {
    &&& info.installed_bin == resolved_bin(f)
    &&& info.installed_mtime == resolved_mtime(f)
    &&& info.installed_newer_than_target == newer_than_target(f, target_mtime)
    &&& info.cloud_built == f.cloud_built
    &&& info.fossil == is_fossil(f, target_mtime)
    &&& info.reap_safety == safety_of(f, target_mtime)
    &&& info.install_source == (if f.adopted is Some {
        InstallSource::Adopt
    } else {
        InstallSource::Probe
    })
}

/// Whether a crate builds in the cloud changes neither its fossil flag nor
/// its reap safety: the mtime evidence stands alone.
pub proof fn fossil_ignores_cloud_built(f: InstallFacts, g: InstallFacts, target_mtime: Timestamp)
    requires
        f.adopted == g.adopted,
        f.probed == g.probed,
    ensures
        is_fossil(f, target_mtime) == is_fossil(g, target_mtime),
        safety_of(f, target_mtime) == safety_of(g, target_mtime),
{
}

/// A target is a fossil exactly when it is ranked `Fossil`, and then a
/// binary was found whose mtime is later than the target's; with no binary
/// found it is `StaleUninstalled`.
pub proof fn fossil_means_newer_installed_binary(f: InstallFacts, target_mtime: Timestamp)
    ensures
        is_fossil(f, target_mtime) <==> safety_of(f, target_mtime) == ReapSafety::Fossil,
        is_fossil(f, target_mtime) ==> resolved_bin(f) is Some && (resolved_mtime(f) matches Some(m) && later_than(
            m,
            target_mtime,
        )),
        resolved_bin(f) is None ==> !is_fossil(f, target_mtime) && safety_of(f, target_mtime)
            == ReapSafety::StaleUninstalled,
        safety_of(f, target_mtime) != ReapSafety::Recent,
{
}

/// Builds the [`CloudAwareInfo`] for a `RustTarget` whose newest file was
/// modified at `target_mtime`, from what the caller found out about the
/// crate's installed binary and build.
pub fn classify_entry(facts: &InstallFacts, target_mtime: &Timestamp) -> (info: CloudAwareInfo)
    ensures
        describes(info, *facts, *target_mtime),
{
    let mut install_source = InstallSource::Probe;
    let mut installed_bin: Option<String> = None;
    let mut installed_mtime: Option<Timestamp> = None;
    match &facts.adopted {
        Some(a) => {
            installed_bin = Some(a.path.clone());
            installed_mtime = a.mtime;
            install_source = InstallSource::Adopt;
        },
        None => {},
    }
    if installed_bin.is_none() {
        match &facts.probed {
            Some(p) => {
                installed_bin = Some(p.path.clone());
                installed_mtime = Some(p.mtime);
                install_source = InstallSource::Probe;
            },
            None => {},
        }
    }
    let installed_newer_than_target = match &installed_mtime {
        Some(imt) => imt.is_later_than(target_mtime),
        None => false,
    };
    let fossil = installed_bin.is_some() && installed_newer_than_target;
    let reap_safety = if fossil {
        ReapSafety::Fossil
    } else if installed_bin.is_some() {
        ReapSafety::StaleInstalled
    } else {
        ReapSafety::StaleUninstalled
    };
    CloudAwareInfo {
        installed_bin,
        installed_mtime,
        installed_newer_than_target,
        cloud_built: facts.cloud_built,
        fossil,
        reap_safety,
        install_source,
    }
}

/// The map that a list of (crate, binary) pairs describes: later pairs win.
pub open spec fn pairs_map(pairs: Seq<(String, String)>) -> Map<Seq<char>, Seq<char>>
    decreases pairs.len(),
{
    if pairs.len() == 0 {
        Map::empty()
    } else {
        pairs_map(pairs.drop_last()).insert(pairs.last().0@, pairs.last().1@)
    }
}

/// No crate name occurs twice among the pairs.
pub open spec fn keys_distinct(pairs: Seq<(String, String)>) -> bool {
    forall|i: int, j: int| 0 <= i < j < pairs.len() ==> pairs[i].0@ != pairs[j].0@
}

proof fn lemma_pairs_map_domain(pairs: Seq<(String, String)>, k: Seq<char>)
    ensures
        pairs_map(pairs).dom().contains(k) <==> exists|i: int| 0 <= i < pairs.len() && pairs[i].0@ == k,
    decreases pairs.len(),
{
    if pairs.len() > 0 {
        let init = pairs.drop_last();
        lemma_pairs_map_domain(init, k);
        if pairs_map(pairs).dom().contains(k) && pairs.last().0@ != k {
            let i = choose|i: int| 0 <= i < init.len() && init[i].0@ == k;
            assert(pairs[i].0@ == k);
        }
        if exists|i: int| 0 <= i < pairs.len() && pairs[i].0@ == k {
            let i = choose|i: int| 0 <= i < pairs.len() && pairs[i].0@ == k;
            if i < init.len() {
                assert(init[i].0@ == k);
            }
        }
    }
}

proof fn lemma_pairs_map_value(pairs: Seq<(String, String)>, i: int)
    requires
        keys_distinct(pairs),
        0 <= i < pairs.len(),
    ensures
        pairs_map(pairs).dom().contains(pairs[i].0@),
        pairs_map(pairs)[pairs[i].0@] == pairs[i].1@,
    decreases pairs.len(),
{
    let init = pairs.drop_last();
    if i < pairs.len() - 1 {
        assert(init[i] == pairs[i]);
        lemma_pairs_map_value(init, i);
    }
}

proof fn lemma_pairs_map_update(pairs: Seq<(String, String)>, i: int, v: String)
    requires
        keys_distinct(pairs),
        0 <= i < pairs.len(),
    ensures
        pairs_map(pairs.update(i, (pairs[i].0, v))) == pairs_map(pairs).insert(pairs[i].0@, v@),
    decreases pairs.len(),
{
    let k = pairs[i].0@;
    let upd = pairs.update(i, (pairs[i].0, v));
    let init = pairs.drop_last();
    if i == pairs.len() - 1 {
        assert(upd.drop_last() =~= init);
        assert(pairs_map(init).insert(k, v@) =~= pairs_map(pairs).insert(k, v@));
    } else {
        lemma_pairs_map_update(init, i, v);
        assert(upd.drop_last() =~= init.update(i, (init[i].0, v)));
        assert(pairs.last().0@ != k);
        assert(pairs_map(upd) =~= pairs_map(pairs).insert(k, v@));
    }
}

impl Clone for BinNameOverrides {
    fn clone(&self) -> (o: BinNameOverrides)
        ensures
            o.view() == self.view(),
    {
        self.duplicate()
    }
}

/// Crate-name to binary-name overrides, for crates whose installed binary is
/// not named after the crate directory (e.g. `wintermute-brain` to `wmd`).
#[derive(Debug)]
pub struct BinNameOverrides {
    pairs: Vec<(String, String)>,
}

impl BinNameOverrides {
    /// The overrides as a map from crate name to binary name.
    pub closed spec fn view(&self) -> Map<Seq<char>, Seq<char>> {
        pairs_map(self.pairs@)
    }

    #[verifier::type_invariant]
    closed spec fn inv(self) -> bool {
        keys_distinct(self.pairs@)
    }

    /// No overrides.
    pub fn new() -> (o: BinNameOverrides)
        ensures
            o.view() == Map::<Seq<char>, Seq<char>>::empty(),
    {
        BinNameOverrides { pairs: Vec::new() }
    }

    /// Maps `crate_name` to `bin_name`, replacing an earlier override of the
    /// same crate.
    pub fn insert(&mut self, crate_name: String, bin_name: String)
        ensures
            final(self).view() == old(self).view().insert(crate_name@, bin_name@),
    {
        proof {
            use_type_invariant(&*self);
        }
        let mut i: usize = 0;
        while i < self.pairs.len()
            invariant
                0 <= i <= self.pairs.len(),
                self.pairs@ == old(self).pairs@,
                keys_distinct(self.pairs@),
                forall|j: int| 0 <= j < i ==> self.pairs@[j].0@ != crate_name@,
            decreases self.pairs.len() - i,
        {
            if self.pairs[i].0 == crate_name {
                let key = self.pairs[i].0.clone();
                let ghost before = self.pairs@;
                proof {
                    lemma_pairs_map_update(before, i as int, bin_name);
                    assert(before.update(i as int, (before[i as int].0, bin_name)) == before.update(i as int, (key, bin_name)));
                }
                let mut pairs: Vec<(String, String)> = Vec::new();
                std::mem::swap(&mut pairs, &mut self.pairs);
                pairs.set(i, (key, bin_name));
                self.pairs = pairs;
                return;
            }
            i = i + 1;
        }
        let ghost before = self.pairs@;
        let mut pairs: Vec<(String, String)> = Vec::new();
        std::mem::swap(&mut pairs, &mut self.pairs);
        pairs.push((crate_name, bin_name));
        proof {
            assert(pairs@.drop_last() =~= before);
        }
        self.pairs = pairs;
    }

    /// A copy holding the same overrides.
    pub fn duplicate(&self) -> (o: BinNameOverrides)
        ensures
            o.view() == self.view(),
    {
        proof {
            use_type_invariant(self);
        }
        let mut pairs: Vec<(String, String)> = Vec::new();
        let mut i: usize = 0;
        while i < self.pairs.len()
            invariant
                0 <= i <= self.pairs.len(),
                keys_distinct(self.pairs@),
                pairs@ == self.pairs@.take(i as int),
            decreases self.pairs.len() - i,
        {
            let k = self.pairs[i].0.clone();
            let v = self.pairs[i].1.clone();
            pairs.push((k, v));
            assert(pairs@ =~= self.pairs@.take(i + 1));
            i = i + 1;
        }
        assert(pairs@ =~= self.pairs@);
        BinNameOverrides { pairs }
    }

    /// The binary name that `crate_name` is overridden to, if any.
    pub fn get(&self, crate_name: &str) -> (r: Option<String>)
        ensures
            match r {
                Some(b) => self.view().dom().contains(crate_name@) && self.view()[crate_name@] == b@,
                None => !self.view().dom().contains(crate_name@),
            },
    {
        proof {
            use_type_invariant(self);
        }
        let key = crate_name.to_owned();
        let mut i: usize = 0;
        while i < self.pairs.len()
            invariant
                0 <= i <= self.pairs.len(),
                key@ == crate_name@,
                keys_distinct(self.pairs@),
                forall|j: int| 0 <= j < i ==> self.pairs@[j].0@ != crate_name@,
            decreases self.pairs.len() - i,
        {
            if self.pairs[i].0 == key {
                proof {
                    lemma_pairs_map_value(self.pairs@, i as int);
                }
                return Some(self.pairs[i].1.clone());
            }
            i = i + 1;
        }
        proof {
            lemma_pairs_map_domain(self.pairs@, crate_name@);
        }
        None
    }
}

/// The name of the binary to look for: the crate's override if it has one,
/// else the crate name itself.
pub open spec fn bin_name_spec(crate_name: Seq<char>, overrides: Map<Seq<char>, Seq<char>>) -> Seq<char> {
    if overrides.dom().contains(crate_name) {
        overrides[crate_name]
    } else {
        crate_name
    }
}

/// The name of the installed binary to look for for `crate_name`.
pub fn bin_name_for(crate_name: &str, overrides: &BinNameOverrides) -> (name: String)
    ensures
        name@ == bin_name_spec(crate_name@, overrides.view()),
{
    match overrides.get(crate_name) {
        Some(b) => b,
        None => crate_name.to_owned(),
    }
}

/// Searches the `adopt` listing, when there is one, for the first path whose
/// final component is `bin_name`.
pub fn find_adopted_path(adopt_paths: &Option<Vec<String>>, bin_name: &str) -> (r: Option<String>)
    ensures
        adopt_paths is None ==> r is None,
        adopt_paths is Some ==> match r {
            None => forall|i: int|
                0 <= i < adopt_paths->0.len() ==> file_name_of(#[trigger] adopt_paths->0@[i]@) != Some(bin_name@),
            Some(p) => exists|i: int|
                0 <= i < adopt_paths->0.len() && adopt_paths->0@[i]@ == p@ && file_name_of(adopt_paths->0@[i]@)
                    == Some(bin_name@) && forall|j: int|
                    0 <= j < i ==> file_name_of(#[trigger] adopt_paths->0@[j]@) != Some(bin_name@),
        },
{
    match adopt_paths {
        None => None,
        Some(paths) => {
            let target = bin_name.to_owned();
            let mut i: usize = 0;
            while i < paths.len()
                invariant
                    0 <= i <= paths.len(),
                    *adopt_paths == Some(*paths),
                    target@ == bin_name@,
                    forall|j: int| 0 <= j < i ==> file_name_of(#[trigger] paths@[j]@) != Some(bin_name@),
                decreases paths.len() - i,
            {
                match path_file_name(paths[i].as_str()) {
                    Some(n) => {
                        if n == target {
                            let found = paths[i].clone();
                            assert(paths@[i as int]@ == found@ && file_name_of(paths@[i as int]@) == Some(bin_name@));
                            return Some(found);
                        }
                    },
                    None => {},
                }
                i = i + 1;
            }
            None
        },
    }
}

/// Where the `~/.local/bin` probe looks for `bin_name`, given the home directory.
pub fn local_bin_candidate(home: &str, bin_name: &str) -> (p: String)
    ensures
        p@ == joined(joined(home@, ".local/bin"@), bin_name@),
{
    let dir = path_join(home, ".local/bin");
    path_join(dir.as_str(), bin_name)
}

/// What the caller must look up to classify one `RustTarget` entry.
#[derive(Clone, Debug)]
pub struct InstallQuery {
    /// The crate directory that owns the `target/`: where the cloud-build
    /// markers are looked for.
    pub crate_dir: String,
    /// The name of the installed binary to look for.
    pub bin_name: String,
    /// The first `adopt`-listed path named `bin_name`, whose metadata should
    /// be read.
    pub adopt_candidate: Option<String>,
}

/// The lookups that classify `entry`: `None` for an entry that is not a
/// Rust `target/`.
pub fn install_query(entry: &SurveyEntry, overrides: &BinNameOverrides, adopt_paths: &Option<Vec<String>>) -> (q: Option<InstallQuery>)
    ensures
        q is Some <==> entry.kind == EntryKind::RustTarget,
        q matches Some(q) ==> {
            &&& q.crate_dir@ == crate_dir_spec(entry.path@)
            &&& q.bin_name@ == bin_name_spec(entry.crate_name@, overrides.view())
            &&& adopt_paths is None ==> q.adopt_candidate is None
            &&& adopt_paths is Some ==> match q.adopt_candidate {
                None => forall|i: int|
                    0 <= i < adopt_paths->0.len() ==> file_name_of(#[trigger] adopt_paths->0@[i]@) != Some(q.bin_name@),
                Some(p) => exists|i: int|
                    0 <= i < adopt_paths->0.len() && adopt_paths->0@[i]@ == p@ && file_name_of(adopt_paths->0@[i]@)
                        == Some(q.bin_name@) && forall|j: int|
                        0 <= j < i ==> file_name_of(#[trigger] adopt_paths->0@[j]@) != Some(q.bin_name@),
            }
        },
{
    if entry.kind != EntryKind::RustTarget {
        return None;
    }
    let crate_dir = crate_dir_of(entry.path.as_str());
    let bin_name = bin_name_for(entry.crate_name.as_str(), overrides);
    let adopt_candidate = find_adopted_path(adopt_paths, bin_name.as_str());
    Some(InstallQuery { crate_dir, bin_name, adopt_candidate })
}

/// `after` is `before`, carrying the cloud-aware information that the
/// findings `f` describe when it is a `RustTarget`, and unchanged otherwise.
pub open spec fn annotated_entry(before: SurveyEntry, f: Option<InstallFacts>, after: SurveyEntry) -> bool {
    &&& after.path == before.path
    &&& after.kind == before.kind
    &&& after.bytes == before.bytes
    &&& after.entries == before.entries
    &&& after.mtime == before.mtime
    &&& after.age_days == before.age_days
    &&& after.crate_name == before.crate_name
    &&& if before.kind == EntryKind::RustTarget {
        after.cloud_info matches Some(info) && describes(info, f->0, before.mtime)
    } else {
        after.cloud_info == before.cloud_info
    }
}

/// Entry by entry, `after` is `before` annotated with `facts`.
pub open spec fn annotated(before: Seq<SurveyEntry>, facts: Seq<Option<InstallFacts>>, after: Seq<SurveyEntry>) -> bool {
    &&& after.len() == before.len()
    &&& forall|i: int| 0 <= i < after.len() ==> annotated_entry(before[i], facts[i], #[trigger] after[i])
}

/// Annotation is a function of the entries and the findings: two annotated
/// lists of the same entries with the same findings are equal.
pub proof fn annotated_is_unique(
    before: Seq<SurveyEntry>,
    facts: Seq<Option<InstallFacts>>,
    a: Seq<SurveyEntry>,
    b: Seq<SurveyEntry>,
)
    requires
        annotated(before, facts, a),
        annotated(before, facts, b),
    ensures
        a == b,
{
    assert forall|i: int| 0 <= i < a.len() implies a[i] == b[i] by {
        assert(annotated_entry(before[i], facts[i], a[i]));
        assert(annotated_entry(before[i], facts[i], b[i]));
        if before[i].kind == EntryKind::RustTarget {
            let ia = a[i].cloud_info->0;
            let ib = b[i].cloud_info->0;
            assert(ia == ib);
        }
    }
    assert(a =~= b);
}

/// Annotating entries that are already annotated, with the same findings,
/// changes nothing.
pub proof fn annotation_is_idempotent(
    before: Seq<SurveyEntry>,
    facts: Seq<Option<InstallFacts>>,
    once: Seq<SurveyEntry>,
    twice: Seq<SurveyEntry>,
)
    requires
        annotated(before, facts, once),
        annotated(once, facts, twice),
    ensures
        twice == once,
{
    assert forall|i: int| 0 <= i < once.len() implies twice[i] == once[i] by {
        assert(annotated_entry(before[i], facts[i], once[i]));
        assert(annotated_entry(once[i], facts[i], twice[i]));
        if before[i].kind == EntryKind::RustTarget {
            let a = once[i].cloud_info->0;
            let b = twice[i].cloud_info->0;
            assert(a == b);
        }
    }
    assert(twice =~= once);
}

/// Annotates every `RustTarget` entry with cloud-aware information, from the
/// findings `facts[i]` the caller made for entry `i`; other entries are left
/// unchanged.
pub fn annotate_entries(entries: &mut Vec<SurveyEntry>, facts: &Vec<Option<InstallFacts>>)
    requires
        facts@.len() == old(entries)@.len(),
        forall|i: int| 0 <= i < old(entries)@.len() && (#[trigger] old(entries)@[i]).kind == EntryKind::RustTarget ==> facts@[i] is Some,
    ensures
        annotated(old(entries)@, facts@, final(entries)@),
{
    let ghost start = entries@;
    let mut i: usize = 0;
    while i < entries.len()
        invariant
            0 <= i <= entries@.len(),
            entries@.len() == start.len(),
            facts@.len() == start.len(),
            forall|k: int| 0 <= k < start.len() && (#[trigger] start[k]).kind == EntryKind::RustTarget ==> facts@[k] is Some,
            forall|k: int| i <= k < start.len() ==> #[trigger] entries@[k] == start[k],
            forall|k: int| 0 <= k < i ==> annotated_entry(start[k], facts@[k], #[trigger] entries@[k]),
        decreases entries@.len() - i,
    {
        if entries[i].kind == EntryKind::RustTarget {
            let info = match &facts[i] {
                Some(f) => classify_entry(f, &entries[i].mtime),
                None => {
                    assert(false);
                    return;
                },
            };
            let mut slot = SurveyEntry {
                path: String::new(),
                kind: EntryKind::RustTarget,
                bytes: 0,
                entries: 0,
                mtime: Timestamp { secs: 0, nanos: 0 },
                age_days: 0,
                crate_name: String::new(),
                cloud_info: None,
            };
            entries.set_and_swap(i, &mut slot);
            slot.cloud_info = Some(info);
            entries.set_and_swap(i, &mut slot);
        }
        i = i + 1;
    }
}

/// A cloud-build manifest says `cloud: true`: it is a JSON object whose
/// `cloud` member is the boolean `true`.
pub open spec fn manifest_says_cloud(text: Seq<char>) -> bool {
    json_shape_of(text, "cloud"@) == Some(JsonShapeView::Object(Some(JsonScalarView::Bool(true))))
}

/// A manifest that could be read says `cloud: true`.
pub open spec fn read_manifest_says_cloud(m: Option<String>) -> bool {
    match m {
        Some(t) => manifest_says_cloud(t@),
        None => false,
    }
}

/// The `AUTOBUILDER_CLOUD` environment value asks for cloud builds: it is
/// `1` or `true`.
pub open spec fn env_says_cloud(value: Option<String>) -> bool {
    match value {
        Some(v) => v@ == "1"@ || v@ == "true"@,
        None => false,
    }
}

/// A blank inside a line: space, tab or carriage return.
pub open spec fn is_blank(c: char) -> bool {
    c == ' ' || c == '\t' || c == '\r'
}

/// `s` without its leading blanks.
pub open spec fn skip_blanks(s: Seq<char>) -> Seq<char>
    decreases s.len(),
{
    if s.len() > 0 && is_blank(s[0]) {
        skip_blanks(s.drop_first())
    } else {
        s
    }
}

/// A YAML `true`: `true`, `True` or `TRUE`.
pub open spec fn yaml_true_word(w: Seq<char>) -> bool {
    w == "true"@ || w == "True"@ || w == "TRUE"@
}

/// A line of a YAML manifest that sets `cloud` to true: it starts with
/// `cloud:`, then at least one blank, then a YAML `true`, then nothing but
/// blanks, optionally followed, after at least one blank, by a `#` comment.
pub open spec fn yaml_line_says_cloud(line: Seq<char>) -> bool {
    &&& line.len() >= 6
    &&& line.take(6) == "cloud:"@
    &&& skip_blanks(line.skip(6)).len() < line.skip(6).len()
    &&& skip_blanks(line.skip(6)).len() >= 4
    &&& yaml_true_word(skip_blanks(line.skip(6)).take(4))
    &&& {
        let after = skip_blanks(line.skip(6)).skip(4);
        let rest = skip_blanks(after);
        rest.len() == 0 || (rest[0] == '#' && rest.len() < after.len())
    }
}

/// `text[start..end]` is a whole line of `text`: lines are separated by `\n`.
pub open spec fn is_line(text: Seq<char>, start: int, end: int) -> bool {
    &&& 0 <= start <= end <= text.len()
    &&& (start == 0 || text[start - 1] == '\n')
    &&& (end == text.len() || text[end] == '\n')
    &&& forall|k: int| start <= k < end ==> text[k] != '\n'
}

/// A YAML manifest says `cloud: true` on one of its lines.
pub open spec fn yaml_says_cloud(text: Seq<char>) -> bool {
    exists|start: int, end: int| is_line(text, start, end) && yaml_line_says_cloud(text.subrange(start, end))
}

/// A YAML manifest that could be read says `cloud: true`.
pub open spec fn read_yaml_says_cloud(m: Option<String>) -> bool {
    match m {
        Some(t) => yaml_says_cloud(t@),
        None => false,
    }
}

/// Whether a crate routes its builds to the cloud: it holds a
/// `.autobuilder_cloud` marker, or one of its JSON autobuilder manifests that
/// could be read says `cloud: true`, or its `autobuilder.yaml` does, or the
/// environment asks for it.
pub open spec fn cloud_built_spec(
    marker_present: bool,
    manifests: Seq<Option<String>>,
    yaml_manifest: Option<String>,
    env_value: Option<String>,
) -> bool {
    ||| marker_present
    ||| exists|i: int| 0 <= i < manifests.len() && read_manifest_says_cloud(#[trigger] manifests[i])
    ||| read_yaml_says_cloud(yaml_manifest)
    ||| env_says_cloud(env_value)
}

proof fn lemma_skip_blanks(s: Seq<char>, a: int)
    requires
        0 <= a <= s.len(),
        forall|i: int| 0 <= i < a ==> is_blank(#[trigger] s[i]),
        a == s.len() || !is_blank(s[a]),
    ensures
        skip_blanks(s) == s.subrange(a, s.len() as int),
    decreases a,
{
    if a == 0 {
        assert(s.subrange(0, s.len() as int) =~= s);
    } else {
        let t = s.drop_first();
        assert forall|i: int| 0 <= i < a - 1 implies is_blank(#[trigger] t[i]) by {
            assert(t[i] == s[i + 1]);
        }
        if a - 1 < t.len() {
            assert(t[a - 1] == s[a]);
        }
        lemma_skip_blanks(t, a - 1);
        assert(t.subrange(a - 1, t.len() as int) =~= s.subrange(a, s.len() as int));
    }
}

/// Whether `c` is a blank inside a line.
fn blank_char(c: char) -> (r: bool)
    ensures
        r == is_blank(c),
{
    c == ' ' || c == '\t' || c == '\r'
}

/// The first position at or after `from` of `s` that is not a blank.
fn skip_blanks_at(s: &str, from: usize) -> (k: usize)
    requires
        from <= s@.len(),
    ensures
        from <= k <= s@.len(),
        skip_blanks(s@.subrange(from as int, s@.len() as int)) == s@.subrange(k as int, s@.len() as int),
{
    let n = s.unicode_len();
    let mut k = from;
    while k < n && blank_char(s.get_char(k))
        invariant
            n == s@.len(),
            from <= k <= n,
            forall|i: int| from <= i < k ==> is_blank(#[trigger] s@[i]),
        decreases n - k,
    {
        k = k + 1;
    }
    proof {
        let t = s@.subrange(from as int, n as int);
        assert forall|i: int| 0 <= i < k - from implies is_blank(#[trigger] t[i]) by {
            assert(t[i] == s@[from + i]);
        }
        if k < n {
            assert(t[k - from] == s@[k as int]);
        }
        lemma_skip_blanks(t, k - from);
        assert(t.subrange(k - from, t.len() as int) =~= s@.subrange(k as int, n as int));
    }
    k
}

/// Whether a manifest line says `cloud: true`, as [`yaml_line_says_cloud`] states.
fn yaml_line_cloud(line: &str) -> (r: bool)
    ensures
        r == yaml_line_says_cloud(line@),
{
    let n = line.unicode_len();
    if n < 6 {
        return false;
    }
    let ghost l = line@;
    if !text_eq(line.substring_char(0, 6), "cloud:") {
        return false;
    }
    let a = skip_blanks_at(line, 6);
    assert(l.skip(6) =~= l.subrange(6, n as int));
    if a == 6 {
        return false;
    }
    if n - a < 4 {
        return false;
    }
    let w = line.substring_char(a, a + 4);
    assert(skip_blanks(l.skip(6)).take(4) =~= w@);
    if !(text_eq(w, "true") || text_eq(w, "True") || text_eq(w, "TRUE")) {
        return false;
    }
    let b = skip_blanks_at(line, a + 4);
    assert(skip_blanks(l.skip(6)).skip(4) =~= l.subrange(a + 4, n as int));
    if b == n {
        return true;
    }
    let c = line.get_char(b);
    assert(skip_blanks(skip_blanks(l.skip(6)).skip(4))[0] == c);
    c == '#' && b > a + 4
}

/// Whether a YAML manifest says `cloud: true` on one of its lines.
pub fn yaml_manifest_says_cloud(text: &str) -> (r: bool)
    ensures
        r == yaml_says_cloud(text@),
{
    let n = text.unicode_len();
    let ghost t = text@;
    let mut i: usize = 0;
    loop
        invariant
            n == t.len(),
            t == text@,
            i <= n,
            i == 0 || t[i - 1] == '\n',
            forall|a: int, b: int| #![trigger is_line(t, a, b)] is_line(t, a, b) && a < i ==> !yaml_line_says_cloud(t.subrange(a, b)),
        decreases n - i,
    {
        let mut j = i;
        while j < n && text.get_char(j) != '\n'
            invariant
                n == t.len(),
                t == text@,
                i <= j <= n,
                forall|k: int| i <= k < j ==> t[k] != '\n',
            decreases n - j,
        {
            j = j + 1;
        }
        assert(is_line(t, i as int, j as int));
        let hit = yaml_line_cloud(text.substring_char(i, j));
        if hit {
            return true;
        }
        proof {
            assert forall|a: int, b: int| #![trigger is_line(t, a, b)] is_line(t, a, b) && a < j + 1 implies !yaml_line_says_cloud(t.subrange(a, b)) by {
                if a >= i {
                    if a > i {
                        assert(t[a - 1] == '\n');
                        assert(false);
                    }
                    if b < j {
                        assert(t[b] == '\n');
                    } else if b > j {
                        assert(t[j as int] == '\n');
                    }
                }
            }
        }
        if j == n {
            assert(!yaml_says_cloud(t));
            return false;
        }
        i = j + 1;
    }
}

/// Whether the manifest `text` says `cloud: true`.
pub fn manifest_cloud_flag(text: &str) -> (r: bool)
    ensures
        r == manifest_says_cloud(text@),
{
    match json_member_shape(text, "cloud") {
        Some(JsonShape::Object(Some(JsonScalar::Bool(b)))) => b,
        _ => false,
    }
}

/// Decides whether a crate's builds route to the cloud, checking in order:
/// the `.autobuilder_cloud` marker, the contents of the JSON autobuilder
/// manifests that could be read (`autobuilder.json`, then
/// `.autobuilder.json`), the contents of `autobuilder.yaml` if it could be
/// read, and the value of `AUTOBUILDER_CLOUD`, if set.
pub fn detect_cloud_built(
    marker_present: bool,
    manifests: &Vec<Option<String>>,
    yaml_manifest: &Option<String>,
    env_value: &Option<String>,
) -> (r: bool)
    ensures
        r == cloud_built_spec(marker_present, manifests@, *yaml_manifest, *env_value),
{
    if marker_present {
        return true;
    }
    let mut i: usize = 0;
    while i < manifests.len()
        invariant
            0 <= i <= manifests@.len(),
            forall|j: int| 0 <= j < i ==> !read_manifest_says_cloud(#[trigger] manifests@[j]),
        decreases manifests@.len() - i,
    {
        match &manifests[i] {
            Some(t) => {
                if manifest_cloud_flag(t.as_str()) {
                    assert(read_manifest_says_cloud(manifests@[i as int]));
                    return true;
                }
            },
            None => {},
        }
        i = i + 1;
    }
    match yaml_manifest {
        Some(t) => {
            if yaml_manifest_says_cloud(t.as_str()) {
                return true;
            }
        },
        None => {},
    }
    match env_value {
        Some(v) => text_eq(v.as_str(), "1") || text_eq(v.as_str(), "true"),
        None => false,
    }
}

/// Calls `String::from_utf8` on a copy of `bytes`. Claimed, as its
/// documentation states: it succeeds exactly when the bytes are valid UTF-8,
/// and then holds the characters they encode.
#[verifier::external_body]
fn utf8_text(bytes: &[u8]) -> (r: Option<String>)
    ensures
        r is Some <==> valid_utf8(bytes@),
        r matches Some(s) ==> s@ == decode_utf8(bytes@),
{
    String::from_utf8(bytes.to_vec()).ok()
}

/// The string members, in order, of an `adopt` listing's items.
pub open spec fn listed_paths(items: Seq<Option<JsonScalarView>>) -> Seq<Seq<char>>
    decreases items.len(),
{
    if items.len() == 0 {
        Seq::empty()
    } else {
        let rest = listed_paths(items.drop_last());
        match items.last() {
            Some(JsonScalarView::Text(p)) => rest.push(p),
            _ => rest,
        }
    }
}

/// The installed paths that an `adopt --list` run reported: `None` unless it
/// succeeded, printed UTF-8 that is a JSON array, and at least one item of the
/// array is an object with a string `path`.
pub open spec fn adopt_listing(succeeded: bool, stdout: Seq<u8>) -> Option<Seq<Seq<char>>> {
    if !succeeded || !valid_utf8(stdout) {
        None
    } else {
        match json_shape_of(decode_utf8(stdout), "path"@) {
            Some(JsonShapeView::Array(items)) => if listed_paths(items).len() == 0 {
                None
            } else {
                Some(listed_paths(items))
            },
            _ => None,
        }
    }
}

/// Reads the installed binaries' paths out of what `adopt --list` printed;
/// `succeeded` says whether it ran and exited successfully.
pub fn adopt_paths_from_output(succeeded: bool, stdout: &[u8]) -> (r: Option<Vec<String>>)
    ensures
        match r {
            Some(v) => adopt_listing(succeeded, stdout@) == Some(v@.map_values(|s: String| s@)),
            None => adopt_listing(succeeded, stdout@) is None,
        },
{
    if !succeeded {
        return None;
    }
    let text = match utf8_text(stdout) {
        Some(t) => t,
        None => return None,
    };
    let items = match json_member_shape(text.as_str(), "path") {
        Some(JsonShape::Array(items)) => items,
        _ => return None,
    };
    let ghost iv = items@.map_values(|m: Option<JsonScalar>| crate::json::member_view(m));
    let mut paths: Vec<String> = Vec::new();
    let mut i: usize = 0;
    while i < items.len()
        invariant
            0 <= i <= items@.len(),
            iv == items@.map_values(|m: Option<JsonScalar>| crate::json::member_view(m)),
            paths@.map_values(|s: String| s@) == listed_paths(iv.take(i as int)),
        decreases items@.len() - i,
    {
        proof {
            assert(iv.take(i + 1).drop_last() =~= iv.take(i as int));
        }
        match &items[i] {
            Some(JsonScalar::Text(p)) => {
                let ghost before = paths@;
                paths.push(p.clone());
                assert(paths@.map_values(|s: String| s@) =~= before.map_values(|s: String| s@).push(p@));
            },
            _ => {},
        }
        i = i + 1;
    }
    assert(iv.take(i as int) =~= iv);
    if paths.len() == 0 {
        None
    } else {
        Some(paths)
    }
}

} // verus!
