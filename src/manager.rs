//! The extraction manager: turns a list of candidate files into validated
//! extraction jobs.
use vstd::prelude::*;

use crate::config::{is_default_extract_config, ExtractConfig};
use crate::job::{ExtractJob, ExtractJobKind, JobView, file_count_ok, is_resolved, target_offset_spec};
use crate::naming::{
    all_digits, digits_value, lemma_rar_part_name, parse_volume_name, rar_part_name, split_volume,
    VolumeName,
};
use crate::paths;
use crate::signature::{archive_header_bytes, occurs_at_exec, zip_magic};

verus! {

/// A candidate file: its path and, for a `.zip` file, its first bytes (up to
/// four; `None` when they could not be read).
#[derive(Clone, Debug)]
pub struct SourceFile {
    pub path: String,
    pub head: Option<Vec<u8>>,
}

/// The mathematical value of a `SourceFile`.
pub struct SourceView {
    pub path: Seq<char>,
    pub head: Option<Seq<u8>>,
}

impl View for SourceFile {
    type V = SourceView;

    open spec fn view(&self) -> SourceView {
        SourceView {
            path: self.path@,
            head: match self.head {
                Some(h) => Some(h@),
                None => None,
            },
        }
    }
}

pub open spec fn zip_extension() -> Seq<char> {
    seq!['z', 'i', 'p']
}

/// A `.zip` file whose first bytes are not the standard zip header: a
/// volume of a zip split that follows no naming convention.
pub open spec fn is_legacy_zip(f: SourceView) -> bool {
    paths::extension_of(f.path) == Some(zip_extension()) && match f.head {
        Some(h) => h != zip_magic(),
        None => false,
    }
}

/// The directory a file is grouped under: its parent, or the path itself
/// when it has none.
pub open spec fn dir_of(path: Seq<char>) -> Seq<char> {
    match paths::parent_of(path) {
        Some(d) => d,
        None => path,
    }
}

/// How a candidate file enters the job list.
pub enum FileClass {
    /// Left out: no file name, no stem, or a volume number too large.
    Skip,
    /// Volume `volume` of the split archive `package` in `dir`.
    Volume { dir: Seq<char>, package: Seq<char>, volume: usize },
    /// A volume of the legacy zip split `package` in `dir`.
    Legacy { dir: Seq<char>, package: Seq<char> },
    /// A single archive.
    Single { package: Seq<char> },
}

pub open spec fn classify(f: SourceView) -> FileClass {
    match paths::file_name_of(f.path) {
        None => FileClass::Skip,
        Some(name) => match split_volume(name) {
            Some((package, digits)) => if digits_value(digits) <= usize::MAX {
                FileClass::Volume {
                    dir: dir_of(f.path),
                    package,
                    volume: digits_value(digits) as usize,
                }
            } else {
                FileClass::Skip
            },
            None => match paths::file_stem_of(f.path) {
                None => FileClass::Skip,
                Some(stem) => if is_legacy_zip(f) {
                    FileClass::Legacy { dir: dir_of(f.path), package: stem }
                } else {
                    FileClass::Single { package: stem }
                },
            },
        },
    }
}

/// A job under construction, with the (directory, package) key that split
/// volumes are grouped by; single archives have no key.
pub struct JobEntry {
    pub key: Option<(Seq<char>, Seq<char>)>,
    pub job: JobView,
}

/// The first entry at or after `i` whose key is `(dir, package)`.
pub open spec fn find_key(entries: Seq<JobEntry>, dir: Seq<char>, package: Seq<char>, i: int) -> Option<int>
    decreases entries.len() - i,
{
    if i < 0 || i >= entries.len() {
        None
    } else if entries[i].key == Some((dir, package)) {
        Some(i)
    } else {
        find_key(entries, dir, package, i + 1)
    }
}

/// The job that the first-seen volume `volume` at `path` starts.
pub open spec fn volume_job(package: Seq<char>, volume: usize, path: Seq<char>) -> JobView {
    JobView {
        package,
        kind: ExtractJobKind::Split { volume, legacy_zip_split: false },
        path: if volume == 1 { path } else { Seq::empty() },
        token: Seq::empty(),
        companions: if volume == 1 { Seq::empty() } else { seq![path] },
    }
}

/// The kind of a split job once volume `volume` has been seen: the highest
/// volume number so far.
pub open spec fn raise_volume(kind: ExtractJobKind, volume: usize) -> ExtractJobKind {
    match kind {
        ExtractJobKind::Split { volume: v, legacy_zip_split } => if volume > v {
            ExtractJobKind::Split { volume, legacy_zip_split }
        } else {
            kind
        },
        _ => kind,
    }
}

/// A further volume `volume` at `path` joins `job`: it raises the highest
/// volume number; the first volume becomes the primary file, any other is
/// appended to the companions.
pub open spec fn add_volume(job: JobView, volume: usize, path: Seq<char>) -> JobView {
    if volume == 1 {
        JobView { path, kind: raise_volume(job.kind, volume), ..job }
    } else {
        JobView {
            kind: raise_volume(job.kind, volume),
            companions: job.companions.push(path),
            ..job
        }
    }
}

/// The job that a first-seen legacy zip volume at `path` starts.
pub open spec fn legacy_job(package: Seq<char>, path: Seq<char>) -> JobView {
    JobView {
        package,
        kind: ExtractJobKind::Split { volume: 0, legacy_zip_split: true },
        path: Seq::empty(),
        token: Seq::empty(),
        companions: seq![path],
    }
}

/// A legacy zip volume at `path` joins the split job `job`.
pub open spec fn add_legacy(job: JobView, path: Seq<char>) -> JobView {
    match job.kind {
        ExtractJobKind::Split { volume, legacy_zip_split: _ } => JobView {
            kind: ExtractJobKind::Split { volume, legacy_zip_split: true },
            companions: job.companions.push(path),
            ..job
        },
        _ => job,
    }
}

/// The job of a single archive at `path`.
pub open spec fn single_job(package: Seq<char>, path: Seq<char>) -> JobView {
    JobView {
        package,
        kind: ExtractJobKind::Normal,
        path,
        token: Seq::empty(),
        companions: Seq::empty(),
    }
}

/// The entries after file `f` has been folded into `entries`.
pub open spec fn add_file(entries: Seq<JobEntry>, f: SourceView) -> Seq<JobEntry> {
    match classify(f) {
        FileClass::Skip => entries,
        FileClass::Volume { dir, package, volume } => match find_key(entries, dir, package, 0) {
            None => entries.push(
                JobEntry { key: Some((dir, package)), job: volume_job(package, volume, f.path) },
            ),
            Some(i) => entries.update(
                i,
                JobEntry { key: entries[i].key, job: add_volume(entries[i].job, volume, f.path) },
            ),
        },
        FileClass::Legacy { dir, package } => match find_key(entries, dir, package, 0) {
            None => entries.push(
                JobEntry { key: Some((dir, package)), job: legacy_job(package, f.path) },
            ),
            Some(i) => entries.update(
                i,
                JobEntry { key: entries[i].key, job: add_legacy(entries[i].job, f.path) },
            ),
        },
        FileClass::Single { package } => entries.push(
            JobEntry { key: None, job: single_job(package, f.path) },
        ),
    }
}

/// The entries that folding `files`, in order, produces.
pub open spec fn aggregate(files: Seq<SourceView>) -> Seq<JobEntry>
    decreases files.len(),
{
    if files.len() == 0 {
        Seq::empty()
    } else {
        add_file(aggregate(files.drop_last()), files.last())
    }
}

/// The jobs of a list of entries.
pub open spec fn jobs_of(entries: Seq<JobEntry>) -> Seq<JobView> {
    entries.map_values(|e: JobEntry| e.job)
}

/// An entry of the fold, as held while the jobs are built.
struct Slot {
    keyed: bool,
    dir: String,
    package: String,
    job: ExtractJob,
}

impl View for Slot {
    type V = JobEntry;

    closed spec fn view(&self) -> JobEntry {
        JobEntry {
            key: if self.keyed {
                Some((self.dir@, self.package@))
            } else {
                None
            },
            job: self.job@,
        }
    }
}

spec fn slots_view(slots: Seq<Slot>) -> Seq<JobEntry> {
    slots.map_values(|s: Slot| s@)
}

/// The values of a list of candidate files.
pub open spec fn sources_view(files: Seq<SourceFile>) -> Seq<SourceView> {
    files.map_values(|f: SourceFile| f@)
}

/// The values of a list of jobs.
pub open spec fn jobs_view(jobs: Seq<ExtractJob>) -> Seq<JobView> {
    jobs.map_values(|j: ExtractJob| j@)
}

/// `find_key` reports an index of `entries` at or after `i`.
proof fn lemma_find_key_range(entries: Seq<JobEntry>, dir: Seq<char>, package: Seq<char>, i: int)
    ensures
        match find_key(entries, dir, package, i) {
            Some(k) => i <= k < entries.len() && entries[k].key == Some((dir, package)),
            None => true,
        },
    decreases entries.len() - i,
{
    if 0 <= i < entries.len() && entries[i].key != Some((dir, package)) {
        lemma_find_key_range(entries, dir, package, i + 1);
    }
}

/// Whether a file's extension is `zip`, so that its first bytes decide
/// whether it is a legacy zip volume.
pub fn needs_head(path: &str) -> (r: bool)
    ensures
        r == (paths::extension_of(path@) == Some(zip_extension())),
{
    match paths::extension(path) {
        None => false,
        Some(e) => {
            proof {
                reveal_strlit("zip");
                assert("zip"@ =~= zip_extension());
            }
            let zip = String::from_str("zip");
            e == zip
        },
    }
}

fn is_legacy_zip_file(f: &SourceFile) -> (r: bool)
    ensures
        r == is_legacy_zip(f@),
{
    if !needs_head(f.path.as_str()) {
        return false;
    }
    match &f.head {
        None => false,
        Some(h) => {
            let magic = archive_header_bytes(0);
            let standard = h.len() == 4 && occurs_at_exec(h, &magic, 0);
            proof {
                if h.len() == 4 {
                    assert(h@.subrange(0, 4) =~= h@);
                }
            }
            !standard
        },
    }
}

fn find_slot(slots: &Vec<Slot>, dir: &String, package: &String) -> (r: Option<usize>)
    ensures
        match r {
            Some(k) => k < slots@.len() && find_key(slots_view(slots@), dir@, package@, 0) == Some(
                k as int,
            ),
            None => find_key(slots_view(slots@), dir@, package@, 0) is None,
        },
{
    let ghost entries = slots_view(slots@);
    proof {
        lemma_find_key_range(entries, dir@, package@, 0);
    }
    let mut i: usize = 0;
    while i < slots.len()
        invariant
            i <= slots@.len(),
            entries == slots_view(slots@),
            find_key(entries, dir@, package@, 0) == find_key(entries, dir@, package@, i as int),
        decreases slots.len() - i,
    {
        let slot = &slots[i];
        assert(entries[i as int] == slot@);
        if slot.keyed && slot.dir == *dir && slot.package == *package {
            return Some(i);
        }
        i = i + 1;
    }
    None
}

fn new_volume_job(package: String, volume: usize, path: String) -> (r: ExtractJob)
    ensures
        r@ == volume_job(package@, volume, path@),
{
    let mut companions: Vec<String> = Vec::new();
    let primary = if volume == 1 {
        path
    } else {
        companions.push(path);
        String::new()
    };
    let r = ExtractJob {
        package,
        kind: ExtractJobKind::Split { volume, legacy_zip_split: false },
        path: primary,
        token: String::new(),
        companions,
    };
    assert(r@.companions =~= volume_job(package@, volume, path@).companions);
    r
}

fn merge_volume(job: &mut ExtractJob, volume: usize, path: String)
    ensures
        final(job)@ == add_volume(old(job)@, volume, path@),
{
    if let ExtractJobKind::Split { volume: v, legacy_zip_split } = job.kind {
        if volume > v {
            job.kind = ExtractJobKind::Split { volume, legacy_zip_split };
        }
    }
    if volume == 1 {
        job.path = path;
    } else {
        job.companions.push(path);
        assert(final(job)@.companions =~= old(job)@.companions.push(path@));
    }
}

fn new_legacy_job(package: String, path: String) -> (r: ExtractJob)
    ensures
        r@ == legacy_job(package@, path@),
{
    let mut companions: Vec<String> = Vec::new();
    companions.push(path);
    let r = ExtractJob {
        package,
        kind: ExtractJobKind::Split { volume: 0, legacy_zip_split: true },
        path: String::new(),
        token: String::new(),
        companions,
    };
    assert(r@.companions =~= legacy_job(package@, path@).companions);
    r
}

fn merge_legacy(job: &mut ExtractJob, path: String)
    ensures
        final(job)@ == add_legacy(old(job)@, path@),
{
    if let ExtractJobKind::Split { volume, legacy_zip_split: _ } = job.kind {
        job.kind = ExtractJobKind::Split { volume, legacy_zip_split: true };
        job.companions.push(path);
        assert(final(job)@.companions =~= old(job)@.companions.push(path@));
    }
}

fn new_single_job(package: String, path: String) -> (r: ExtractJob)
    ensures
        r@ == single_job(package@, path@),
{
    let r = ExtractJob {
        package,
        kind: ExtractJobKind::Normal,
        path,
        token: String::new(),
        companions: Vec::new(),
    };
    assert(r@.companions =~= Seq::<Seq<char>>::empty());
    r
}

/// Replaces slot `i` by `slot`.
fn put_back(slots: &mut Vec<Slot>, i: usize, slot: Slot)
    requires
        i <= old(slots)@.len(),
    ensures
        final(slots)@ == old(slots)@.insert(i as int, slot),
{
    slots.insert(i, slot);
}

/// Folds one candidate file into the slots.
fn add_source(slots: &mut Vec<Slot>, f: &SourceFile)
    ensures
        slots_view(final(slots)@) == add_file(slots_view(old(slots)@), f@),
{
    let ghost entries = slots_view(slots@);
    let name = match paths::file_name(f.path.as_str()) {
        None => return,
        Some(n) => n,
    };
    let dir = match paths::parent(f.path.as_str()) {
        Some(d) => d,
        None => f.path.clone(),
    };
    assert(dir@ == dir_of(f@.path));
    match parse_volume_name(name.as_str()) {
        VolumeName::Unparsable => {
            return;
        },
        VolumeName::Volume { package, volume } => {
            match find_slot(slots, &dir, &package) {
                None => {
                    let job = new_volume_job(package.clone(), volume, f.path.clone());
                    slots.push(Slot { keyed: true, dir, package, job });
                    assert(slots_view(slots@) =~= add_file(entries, f@));
                },
                Some(i) => {
                    let ghost before = slots@;
                    let mut slot = slots.remove(i);
                    assert(slot@ == entries[i as int]);
                    merge_volume(&mut slot.job, volume, f.path.clone());
                    let ghost after = slot;
                    put_back(slots, i, slot);
                    assert(before.remove(i as int).insert(i as int, after) =~= before.update(i as int, after));
                    assert(slots_view(before.update(i as int, after)) =~= entries.update(i as int, after@));
                    assert(slots_view(slots@) =~= add_file(entries, f@));
                },
            }
        },
        VolumeName::Plain => {
            let stem = match paths::file_stem(f.path.as_str()) {
                None => return,
                Some(s) => s,
            };
            if is_legacy_zip_file(f) {
                match find_slot(slots, &dir, &stem) {
                    None => {
                        let job = new_legacy_job(stem.clone(), f.path.clone());
                        slots.push(Slot { keyed: true, dir, package: stem, job });
                        assert(slots_view(slots@) =~= add_file(entries, f@));
                    },
                    Some(i) => {
                        let ghost before = slots@;
                        let mut slot = slots.remove(i);
                        assert(slot@ == entries[i as int]);
                        merge_legacy(&mut slot.job, f.path.clone());
                        let ghost after = slot;
                        put_back(slots, i, slot);
                        assert(before.remove(i as int).insert(i as int, after) =~= before.update(i as int, after));
                        assert(slots_view(before.update(i as int, after)) =~= entries.update(i as int, after@));
                        assert(slots_view(slots@) =~= add_file(entries, f@));
                    },
                }
            } else {
                let job = new_single_job(stem, f.path.clone());
                slots.push(Slot { keyed: false, dir: String::new(), package: String::new(), job });
                assert(slots_view(slots@) =~= add_file(entries, f@));
            }
        },
    }
}

/// The texts of a list of strings.
pub open spec fn texts(v: Seq<String>) -> Seq<Seq<char>> {
    v.map_values(|s: String| s@)
}

/// A path's extension, or the empty text when it has none.
pub open spec fn extension_text(path: Seq<char>) -> Seq<char> {
    match paths::extension_of(path) {
        Some(e) => e,
        None => Seq::empty(),
    }
}

/// The files of `files` whose extension is not among `excluded`, in order.
pub open spec fn kept_sources(excluded: Seq<Seq<char>>, files: Seq<SourceView>) -> Seq<SourceView>
    decreases files.len(),
{
    if files.len() == 0 {
        Seq::empty()
    } else {
        let rest = kept_sources(excluded, files.drop_last());
        if excluded.contains(extension_text(files.last().path)) {
            rest
        } else {
            rest.push(files.last())
        }
    }
}

/// A job fit to hand over: it holds as many files as its kind calls for,
/// and a split job has its primary file.
pub open spec fn job_ok(job: JobView) -> bool {
    file_count_ok(job.kind, job.companions.len()) && is_resolved(job)
}

/// The jobs of `jobs` that are fit to hand over, in order.
pub open spec fn valid_jobs(jobs: Seq<JobView>) -> Seq<JobView>
    decreases jobs.len(),
{
    if jobs.len() == 0 {
        Seq::empty()
    } else {
        let rest = valid_jobs(jobs.drop_last());
        if job_ok(jobs.last()) {
            rest.push(jobs.last())
        } else {
            rest
        }
    }
}

/// The first bytes given for job `i`, if any.
pub open spec fn head_at(heads: Seq<Option<Vec<u8>>>, i: int) -> Option<Seq<u8>> {
    if 0 <= i < heads.len() {
        match heads[i] {
            Some(h) => Some(h@),
            None => None,
        }
    } else {
        None
    }
}

/// What the cover scan makes of a job whose primary file begins with `head`:
/// jobs other than single archives pass; a single archive without readable
/// bytes, or whose cover lacks its trailer or a following archive, is
/// dropped; one with a cover is marked with the cover's end.
pub open spec fn stego_step(job: JobView, head: Option<Seq<u8>>) -> Option<JobView> {
    if job.kind != ExtractJobKind::Normal {
        Some(job)
    } else {
        match head {
            None => None,
            Some(h) => match target_offset_spec(job.kind, h) {
                Err(_) => None,
                Ok(None) => Some(job),
                Ok(Some(offset)) => Some(JobView { kind: ExtractJobKind::Stego(offset), ..job }),
            },
        }
    }
}

/// The jobs that survive the cover scan, given the first bytes of each.
pub open spec fn stego_jobs(jobs: Seq<JobView>, heads: Seq<Option<Vec<u8>>>) -> Seq<JobView>
    decreases jobs.len(),
{
    if jobs.len() == 0 {
        Seq::empty()
    } else {
        let rest = stego_jobs(jobs.drop_last(), heads);
        match stego_step(jobs.last(), head_at(heads, jobs.len() - 1)) {
            Some(j) => rest.push(j),
            None => rest,
        }
    }
}

/// The jobs of `jobs` whose flag in `keep` is set (a job without a flag
/// stays).
pub open spec fn retained(jobs: Seq<JobView>, keep: Seq<bool>) -> Seq<JobView>
    decreases jobs.len(),
{
    if jobs.len() == 0 {
        Seq::empty()
    } else {
        let rest = retained(jobs.drop_last(), keep);
        let i = jobs.len() - 1;
        if i < keep.len() && !keep[i] {
            rest
        } else {
            rest.push(jobs.last())
        }
    }
}

fn is_excluded(excluded: &Vec<String>, path: &str) -> (r: bool)
    ensures
        r == texts(excluded@).contains(extension_text(path@)),
{
    let ext = match paths::extension(path) {
        Some(e) => e,
        None => String::new(),
    };
    let mut j: usize = 0;
    while j < excluded.len()
        invariant
            j <= excluded@.len(),
            ext@ == extension_text(path@),
            forall|k: int| 0 <= k < j ==> texts(excluded@)[k] != ext@,
        decreases excluded.len() - j,
    {
        if excluded[j] == ext {
            assert(texts(excluded@)[j as int] == ext@);
            return true;
        }
        j = j + 1;
    }
    false
}

/// What became of a job in the carving step.
#[derive(Clone, Copy, Debug, PartialEq, Eq, Structural)]
pub enum CarveOutcome {
    /// The job had nothing to carve.
    NotNeeded,
    /// The cover and the payload were written.
    Written,
    /// Carving was refused (a name collision, or no file name).
    Refused,
    /// Writing the cover or the payload failed.
    WriteFailed,
}

/// A job stays after carving when it needed none or its files were written.
pub open spec fn outcome_keeps(o: CarveOutcome) -> bool {
    o == CarveOutcome::NotNeeded || o == CarveOutcome::Written
}

/// The extraction manager.
pub struct Extractor {
    pub config: ExtractConfig,
    /// Candidate files, after the excluded extensions are left out.
    pub files: Vec<SourceFile>,
    pub jobs: Vec<ExtractJob>,
}

impl Default for Extractor {
    fn default() -> (r: Self)
        ensures
            is_default_extract_config(r.config),
            r.files@.len() == 0,
            r.jobs@.len() == 0,
    {
        Extractor { config: ExtractConfig::default(), files: Vec::new(), jobs: Vec::new() }
    }
}

impl Extractor {
    /// Takes the configuration and the candidate files found under its
    /// sources, leaving out those whose extension is excluded.
    pub fn load(&mut self, config: ExtractConfig, found: Vec<SourceFile>)
        ensures
            final(self).config == config,
            sources_view(final(self).files@) == kept_sources(
                texts(config.excluded_suffix@),
                sources_view(found@),
            ),
            final(self).jobs == old(self).jobs,
    {
        let ghost all = sources_view(found@);
        let ghost excluded = texts(config.excluded_suffix@);
        let mut rest = found;
        let n = rest.len();
        let mut kept: Vec<SourceFile> = Vec::new();
        let mut i: usize = 0;
        while rest.len() > 0
            invariant
                all.len() == n,
                i + rest@.len() == all.len(),
                sources_view(rest@) == all.skip(i as int),
                sources_view(kept@) == kept_sources(excluded, all.take(i as int)),
                excluded == texts(config.excluded_suffix@),
            decreases rest.len(),
        {
            let ghost before = rest@;
            let f = rest.remove(0);
            assert(sources_view(rest@) =~= all.skip(i + 1)) by {
                assert(sources_view(before.remove(0)) =~= sources_view(before).skip(1));
            }
            assert(f@ == all[i as int]) by {
                assert(sources_view(before)[0] == all.skip(i as int)[0]);
            }
            assert(all.take(i + 1).drop_last() =~= all.take(i as int));
            if !is_excluded(&config.excluded_suffix, f.path.as_str()) {
                kept.push(f);
                assert(sources_view(kept@) =~= kept_sources(excluded, all.take(i + 1)));
            }
            i = i + 1;
        }
        assert(all.take(i as int) =~= all);
        self.config = config;
        self.files = kept;
    }

    /// Folds the candidate files into jobs, grouping split volumes.
    pub fn load_unchecked_jobs(&mut self)
        ensures
            jobs_view(final(self).jobs@) == jobs_of(aggregate(sources_view(old(self).files@))),
            final(self).files == old(self).files,
            final(self).config == old(self).config,
    {
        let ghost all = sources_view(self.files@);
        let mut slots: Vec<Slot> = Vec::new();
        let mut i: usize = 0;
        while i < self.files.len()
            invariant
                i <= self.files@.len(),
                all == sources_view(self.files@),
                slots_view(slots@) == aggregate(all.take(i as int)),
            decreases self.files.len() - i,
        {
            assert(all.take(i + 1).drop_last() =~= all.take(i as int));
            add_source(&mut slots, &self.files[i]);
            i = i + 1;
        }
        assert(all.take(i as int) =~= all);
        let ghost entries = slots_view(slots@);
        let n = slots.len();
        let mut jobs: Vec<ExtractJob> = Vec::new();
        let mut done: usize = 0;
        while slots.len() > 0
            invariant
                entries.len() == n,
                done + slots@.len() == entries.len(),
                slots_view(slots@) == entries.skip(done as int),
                jobs_view(jobs@) == jobs_of(entries.take(done as int)),
            decreases slots.len(),
        {
            let ghost before = slots@;
            let slot = slots.remove(0);
            assert(slots_view(slots@) =~= entries.skip(done + 1)) by {
                assert(slots_view(before.remove(0)) =~= slots_view(before).skip(1));
            }
            assert(slot@ == entries[done as int]) by {
                assert(slots_view(before)[0] == entries.skip(done as int)[0]);
            }
            let ghost prior = jobs@;
            assert(slot@.job == slot.job@);
            jobs.push(slot.job);
            assert(jobs@ == prior.push(slot.job));
            assert(jobs_of(entries.take(done + 1)) =~= jobs_of(entries.take(done as int)).push(
                entries[done as int].job,
            ));
            assert(jobs_view(jobs@) =~= jobs_of(entries.take(done + 1)));
            done = done + 1;
        }
        assert(entries.take(done as int) =~= entries);
        self.jobs = jobs;
    }

    /// Drops the jobs whose number of files does not match their kind, and
    /// the split jobs whose first volume is missing.
    pub fn jobs_filtrate_illegal_file_numeber(&mut self)
        ensures
            jobs_view(final(self).jobs@) == valid_jobs(jobs_view(old(self).jobs@)),
            final(self).files == old(self).files,
            final(self).config == old(self).config,
    {
        let ghost all = jobs_view(self.jobs@);
        let mut rest: Vec<ExtractJob> = Vec::new();
        std::mem::swap(&mut rest, &mut self.jobs);
        let n = rest.len();
        let mut kept: Vec<ExtractJob> = Vec::new();
        let mut i: usize = 0;
        while rest.len() > 0
            invariant
                all.len() == n,
                i + rest@.len() == all.len(),
                jobs_view(rest@) == all.skip(i as int),
                jobs_view(kept@) == valid_jobs(all.take(i as int)),
            decreases rest.len(),
        {
            let ghost before = rest@;
            let job = rest.remove(0);
            assert(jobs_view(rest@) =~= all.skip(i + 1)) by {
                assert(jobs_view(before.remove(0)) =~= jobs_view(before).skip(1));
            }
            assert(job@ == all[i as int]) by {
                assert(jobs_view(before)[0] == all.skip(i as int)[0]);
            }
            assert(all.take(i + 1).drop_last() =~= all.take(i as int));
            if job.check_file_number() && job.is_resolved() {
                kept.push(job);
                assert(jobs_view(kept@) =~= valid_jobs(all.take(i + 1)));
            }
            i = i + 1;
        }
        assert(all.take(i as int) =~= all);
        self.jobs = kept;
    }

    /// Builds the jobs from the candidate files: groups split volumes and
    /// drops the jobs that are incomplete.
    pub fn create_extract_job(&mut self)
        ensures
            jobs_view(final(self).jobs@) == valid_jobs(
                jobs_of(aggregate(sources_view(old(self).files@))),
            ),
            old(self).files@.len() == 0 ==> final(self).jobs@.len() == 0,
            final(self).files == old(self).files,
            final(self).config == old(self).config,
    {
        self.load_unchecked_jobs();
        self.jobs_filtrate_illegal_file_numeber();
        if self.files.len() == 0 {
            assert(sources_view(self.files@) =~= Seq::<SourceView>::empty());
            assert(jobs_of(Seq::<JobEntry>::empty()) =~= Seq::<JobView>::empty());
            assert(jobs_view(self.jobs@).len() == 0);
        }
    }

    /// For each job, whether the cover scan needs the first bytes of its
    /// primary file: a single archive, when the scan is switched on.
    pub fn stego_candidates(&self) -> (r: Vec<bool>)
        ensures
            r@.len() == self.jobs@.len(),
            forall|i: int|
                0 <= i < r@.len() ==> r@[i] == (self.config.method.recognize_steganography
                    && self.jobs@[i].kind == ExtractJobKind::Normal),
    {
        let mut r: Vec<bool> = Vec::new();
        let mut i: usize = 0;
        while i < self.jobs.len()
            invariant
                i <= self.jobs@.len(),
                r@.len() == i,
                forall|k: int|
                    0 <= k < i ==> r@[k] == (self.config.method.recognize_steganography
                        && self.jobs@[k].kind == ExtractJobKind::Normal),
            decreases self.jobs.len() - i,
        {
            r.push(self.config.method.recognize_steganography && self.jobs[i].kind
                == ExtractJobKind::Normal);
            i = i + 1;
        }
        r
    }

    /// Runs the cover scan over the single archives, given the first bytes
    /// (up to 8 MiB) of each job's primary file in job order (`None`: not
    /// read). Does nothing when the scan is switched off.
    pub fn separate_stego(&mut self, heads: Vec<Option<Vec<u8>>>)
        ensures
            jobs_view(final(self).jobs@) == if old(self).config.method.recognize_steganography {
                stego_jobs(jobs_view(old(self).jobs@), heads@)
            } else {
                jobs_view(old(self).jobs@)
            },
            final(self).files == old(self).files,
            final(self).config == old(self).config,
    {
        if !self.config.method.recognize_steganography {
            return;
        }
        let ghost all = jobs_view(self.jobs@);
        let mut rest: Vec<ExtractJob> = Vec::new();
        std::mem::swap(&mut rest, &mut self.jobs);
        let n = rest.len();
        let mut kept: Vec<ExtractJob> = Vec::new();
        let mut i: usize = 0;
        while rest.len() > 0
            invariant
                all.len() == n,
                i + rest@.len() == all.len(),
                jobs_view(rest@) == all.skip(i as int),
                jobs_view(kept@) == stego_jobs(all.take(i as int), heads@),
            decreases rest.len(),
        {
            let ghost before = rest@;
            let mut job = rest.remove(0);
            assert(jobs_view(rest@) =~= all.skip(i + 1)) by {
                assert(jobs_view(before.remove(0)) =~= jobs_view(before).skip(1));
            }
            assert(job@ == all[i as int]) by {
                assert(jobs_view(before)[0] == all.skip(i as int)[0]);
            }
            let ghost taken = all.take(i + 1);
            assert(taken.drop_last() =~= all.take(i as int));
            assert(taken.last() == job@);
            let ghost prior = kept@;
            if job.kind != ExtractJobKind::Normal {
                kept.push(job);
            } else if i < heads.len() {
                match &heads[i] {
                    None => {},
                    Some(head) => {
                        match job.find_target_file_offset(head) {
                            Err(_) => {},
                            Ok(None) => {
                                kept.push(job);
                            },
                            Ok(Some(offset)) => {
                                job.kind = ExtractJobKind::Stego(offset);
                                assert(job@.companions == all[i as int].companions);
                                kept.push(job);
                            },
                        }
                    },
                }
            }
            assert(jobs_view(kept@) =~= stego_jobs(taken, heads@)) by {
                if kept@.len() > prior.len() {
                    assert(kept@ == prior.push(kept@.last()));
                    assert(jobs_view(kept@) =~= jobs_view(prior).push(kept@.last()@));
                } else {
                    assert(kept@ == prior);
                }
            }
            i = i + 1;
        }
        assert(all.take(i as int) =~= all);
        self.jobs = kept;
    }

    /// Keeps the jobs whose flag in `keep` is set; a job beyond the end of
    /// `keep` stays.
    pub fn retain_jobs(&mut self, keep: &Vec<bool>)
        ensures
            jobs_view(final(self).jobs@) == retained(jobs_view(old(self).jobs@), keep@),
            final(self).files == old(self).files,
            final(self).config == old(self).config,
    {
        let ghost all = jobs_view(self.jobs@);
        let mut rest: Vec<ExtractJob> = Vec::new();
        std::mem::swap(&mut rest, &mut self.jobs);
        let n = rest.len();
        let mut kept: Vec<ExtractJob> = Vec::new();
        let mut i: usize = 0;
        while rest.len() > 0
            invariant
                all.len() == n,
                i + rest@.len() == all.len(),
                jobs_view(rest@) == all.skip(i as int),
                jobs_view(kept@) == retained(all.take(i as int), keep@),
            decreases rest.len(),
        {
            let ghost before = rest@;
            let job = rest.remove(0);
            assert(jobs_view(rest@) =~= all.skip(i + 1)) by {
                assert(jobs_view(before.remove(0)) =~= jobs_view(before).skip(1));
            }
            assert(job@ == all[i as int]) by {
                assert(jobs_view(before)[0] == all.skip(i as int)[0]);
            }
            assert(all.take(i + 1).drop_last() =~= all.take(i as int));
            if i >= keep.len() || keep[i] {
                kept.push(job);
                assert(jobs_view(kept@) =~= retained(all.take(i + 1), keep@));
            }
            i = i + 1;
        }
        assert(all.take(i as int) =~= all);
        self.jobs = kept;
    }

    /// Keeps the jobs whose carving outcome, given in job order, lets them
    /// stay; a job beyond the end of `outcomes` stays.
    pub fn retain_carved(&mut self, outcomes: &Vec<CarveOutcome>)
        ensures
            jobs_view(final(self).jobs@) == retained(
                jobs_view(old(self).jobs@),
                outcomes@.map_values(|o: CarveOutcome| outcome_keeps(o)),
            ),
            final(self).files == old(self).files,
            final(self).config == old(self).config,
    {
        let mut keep: Vec<bool> = Vec::new();
        let mut i: usize = 0;
        while i < outcomes.len()
            invariant
                i <= outcomes@.len(),
                keep@ == outcomes@.take(i as int).map_values(|o: CarveOutcome| outcome_keeps(o)),
            decreases outcomes.len() - i,
        {
            let o = outcomes[i];
            keep.push(o == CarveOutcome::NotNeeded || o == CarveOutcome::Written);
            assert(keep@ =~= outcomes@.take(i + 1).map_values(|o: CarveOutcome| outcome_keeps(o)));
            i = i + 1;
        }
        assert(outcomes@.take(i as int) =~= outcomes@);
        self.retain_jobs(&keep);
    }
}

/// The highest of the first `m` volume numbers (0 for none).
pub open spec fn max_volume(vols: Seq<usize>, m: int) -> int
    decreases m,
{
    if m <= 0 {
        0
    } else {
        let rest = max_volume(vols, m - 1);
        if vols[m - 1] > rest {
            vols[m - 1] as int
        } else {
            rest
        }
    }
}

/// How many of the first `m` volume numbers are not 1.
pub open spec fn count_later(vols: Seq<usize>, m: int) -> int
    decreases m,
{
    if m <= 0 {
        0
    } else {
        count_later(vols, m - 1) + if vols[m - 1] != 1 {
            1int
        } else {
            0int
        }
    }
}

proof fn lemma_max_volume_bounds(vols: Seq<usize>, m: int, n: int)
    requires
        0 <= m <= vols.len(),
        forall|k: int| 0 <= k < vols.len() ==> 1 <= #[trigger] vols[k] <= n,
    ensures
        m > 0 ==> 1 <= max_volume(vols, m) <= n,
        forall|k: int| 0 <= k < m ==> vols[k] <= max_volume(vols, m),
    decreases m,
{
    if m > 0 {
        lemma_max_volume_bounds(vols, m - 1, n);
        assert(1 <= vols[m - 1] <= n);
        assert(max_volume(vols, 0) == 0);
        assert(max_volume(vols, m) == if vols[m - 1] > max_volume(vols, m - 1) {
            vols[m - 1] as int
        } else {
            max_volume(vols, m - 1)
        });
    }
}

proof fn lemma_count_later_single_first(vols: Seq<usize>, m: int, first: int)
    requires
        0 <= m <= vols.len(),
        0 <= first < vols.len(),
        vols[first] == 1,
        forall|k: int| 0 <= k < vols.len() && k != first ==> #[trigger] vols[k] != 1,
    ensures
        count_later(vols, m) == if first < m {
            m - 1
        } else {
            m
        },
    decreases m,
{
    if m > 0 {
        lemma_count_later_single_first(vols, m - 1, first);
    }
}

/// Volume number `v` is among `vols`.
pub open spec fn has_volume(vols: Seq<usize>, v: usize) -> bool {
    exists|k: int| 0 <= k < vols.len() && vols[k] == v
}

/// The entries of the first `m` volumes of one split archive.
proof fn lemma_volumes_prefix(
    files: Seq<SourceView>,
    dir: Seq<char>,
    package: Seq<char>,
    vols: Seq<usize>,
    m: int,
)
    requires
        1 <= m <= files.len(),
        files.len() == vols.len(),
        forall|k: int|
            0 <= k < files.len() ==> #[trigger] classify(files[k]) == (FileClass::Volume {
                dir,
                package,
                volume: vols[k],
            }),
        forall|k: int| 0 <= k < vols.len() ==> 1 <= #[trigger] vols[k],
    ensures
        aggregate(files.take(m)).len() == 1,
        aggregate(files.take(m))[0].key == Some((dir, package)),
        aggregate(files.take(m))[0].job.kind == (ExtractJobKind::Split {
            volume: max_volume(vols, m) as usize,
            legacy_zip_split: false,
        }),
        aggregate(files.take(m))[0].job.companions.len() == count_later(vols, m),
    decreases m,
{
    let prefix = files.take(m);
    assert(prefix.drop_last() =~= files.take(m - 1));
    assert(prefix.last() == files[m - 1]);
    assert(classify(files[m - 1]) == (FileClass::Volume { dir, package, volume: vols[m - 1] }));
    assert(1 <= vols[m - 1]);
    if m == 1 {
        assert(files.take(0) =~= Seq::<SourceView>::empty());
        assert(aggregate(files.take(0)) == Seq::<JobEntry>::empty());
        assert(find_key(Seq::<JobEntry>::empty(), dir, package, 0) is None);
        let job = volume_job(package, vols[0], files[0].path);
        assert(aggregate(prefix) == Seq::<JobEntry>::empty().push(
            JobEntry { key: Some((dir, package)), job },
        ));
        assert(count_later(vols, 0) == 0);
        assert(job.companions.len() == count_later(vols, 1));
    } else {
        lemma_volumes_prefix(files, dir, package, vols, m - 1);
        lemma_max_volume_bounds(vols, m - 1, usize::MAX as int);
        let entries = aggregate(files.take(m - 1));
        assert(find_key(entries, dir, package, 0) == Some(0int));
        let job = add_volume(entries[0].job, vols[m - 1], files[m - 1].path);
        assert(aggregate(prefix) == entries.update(0, JobEntry { key: entries[0].key, job }));
        assert(job.companions.len() == count_later(vols, m));
    }
}

/// A complete set of split volumes gives one job: when the files are the
/// volumes 1 to `n` of one split archive in one directory, each exactly once,
/// the fold yields exactly one job, of kind `Split` with volume `n`, holding
/// `n - 1` companions.
pub proof fn lemma_complete_volumes_one_job(
    files: Seq<SourceView>,
    dir: Seq<char>,
    package: Seq<char>,
    vols: Seq<usize>,
    n: usize,
)
    requires
        n >= 1,
        files.len() == n,
        vols.len() == n,
        forall|k: int|
            0 <= k < files.len() ==> #[trigger] classify(files[k]) == (FileClass::Volume {
                dir,
                package,
                volume: vols[k],
            }),
        forall|k: int| 0 <= k < vols.len() ==> 1 <= #[trigger] vols[k] <= n,
        forall|j: int, k: int| 0 <= j < k < vols.len() ==> vols[j] != vols[k],
        forall|v: usize| 1 <= v <= n ==> #[trigger] has_volume(vols, v),
    ensures
        jobs_of(aggregate(files)).len() == 1,
        jobs_of(aggregate(files))[0].kind == (ExtractJobKind::Split {
            volume: n,
            legacy_zip_split: false,
        }),
        jobs_of(aggregate(files))[0].companions.len() == n - 1,
{
    lemma_volumes_prefix(files, dir, package, vols, n as int);
    assert(files.take(n as int) =~= files);
    lemma_max_volume_bounds(vols, n as int, n as int);
    assert(has_volume(vols, n));
    assert(has_volume(vols, 1));
    let top = choose|k: int| 0 <= k < vols.len() && vols[k] == n;
    assert(vols[top] <= max_volume(vols, n as int));
    let first = choose|k: int| 0 <= k < vols.len() && vols[k] == 1;
    assert forall|k: int| 0 <= k < vols.len() && k != first implies #[trigger] vols[k] != 1 by {
        if k < first {
            assert(vols[k] != vols[first]);
        } else {
            assert(vols[first] != vols[k]);
        }
    }
    lemma_count_later_single_first(vols, n as int, first);
}

/// The number `v` is among the digit strings `numbers`.
pub open spec fn has_number(numbers: Seq<Seq<char>>, v: nat) -> bool {
    exists|k: int| 0 <= k < numbers.len() && digits_value(numbers[k]) == v
}

/// The RAR parts of one archive give one job: when the files, all in one
/// directory, are named `{package}.part{N}.rar` with the numbers `N` being
/// 1 to `n`, each exactly once, the fold yields exactly one job, of kind
/// `Split` with volume `n`, holding `n - 1` companions.
pub proof fn lemma_rar_parts_one_job(
    files: Seq<SourceView>,
    dir: Seq<char>,
    package: Seq<char>,
    numbers: Seq<Seq<char>>,
    n: usize,
)
    requires
        n >= 1,
        files.len() == n,
        numbers.len() == n,
        forall|k: int|
            0 <= k < n ==> paths::file_name_of(#[trigger] files[k].path) == Some(
                rar_part_name(package, numbers[k]),
            ) && dir_of(files[k].path) == dir,
        forall|k: int|
            0 <= k < n ==> (#[trigger] numbers[k]).len() >= 1 && all_digits(numbers[k]) && 1
                <= digits_value(numbers[k]) <= n,
        forall|j: int, k: int|
            0 <= j < k < n ==> digits_value(numbers[j]) != digits_value(numbers[k]),
        forall|v: nat| 1 <= v <= n ==> #[trigger] has_number(numbers, v),
    ensures
        jobs_of(aggregate(files)).len() == 1,
        jobs_of(aggregate(files))[0].kind == (ExtractJobKind::Split {
            volume: n,
            legacy_zip_split: false,
        }),
        jobs_of(aggregate(files))[0].companions.len() == n - 1,
{
    let vols = Seq::new(n as nat, |k: int| digits_value(numbers[k]) as usize);
    assert forall|k: int| 0 <= k < files.len() implies #[trigger] classify(files[k]) == (FileClass::Volume {
        dir,
        package,
        volume: vols[k],
    }) by {
        assert(numbers[k].len() >= 1);
        lemma_rar_part_name(package, numbers[k]);
    }
    assert forall|k: int| 0 <= k < vols.len() implies 1 <= #[trigger] vols[k] <= n by {
        assert(numbers[k].len() >= 1);
    }
    assert forall|v: usize| 1 <= v <= n implies #[trigger] has_volume(vols, v) by {
        assert(has_number(numbers, v as nat));
        let k = choose|k: int| 0 <= k < numbers.len() && digits_value(numbers[k]) == v as nat;
        assert(vols[k] == v);
    }
    lemma_complete_volumes_one_job(files, dir, package, vols, n);
}

/// A lone file whose name follows no split-volume convention, and which is
/// not a legacy zip volume, gives one single-archive job named by the file's
/// stem, with the file as its primary file and no companions.
pub proof fn lemma_plain_file_single(f: SourceView, name: Seq<char>, stem: Seq<char>)
    requires
        paths::file_name_of(f.path) == Some(name),
        paths::file_stem_of(f.path) == Some(stem),
        split_volume(name) is None,
        !is_legacy_zip(f),
    ensures
        jobs_of(aggregate(seq![f])).len() == 1,
        jobs_of(aggregate(seq![f]))[0].kind == ExtractJobKind::Normal,
        jobs_of(aggregate(seq![f]))[0].package == stem,
        jobs_of(aggregate(seq![f]))[0].path == f.path,
        jobs_of(aggregate(seq![f]))[0].companions.len() == 0,
{
    assert(seq![f].drop_last() =~= Seq::<SourceView>::empty());
    assert(aggregate(Seq::<SourceView>::empty()) == Seq::<JobEntry>::empty());
    assert(classify(f) == (FileClass::Single { package: stem }));
    let entries = Seq::<JobEntry>::empty().push(
        JobEntry { key: None, job: single_job(stem, f.path) },
    );
    assert(aggregate(seq![f]) == entries);
    assert(jobs_of(entries)[0] == single_job(stem, f.path));
}

/// A `.zip` file whose name follows no split-volume convention and whose
/// first bytes are not the standard zip header starts a legacy zip split
/// job, not a single-archive job.
pub proof fn lemma_legacy_zip_is_split(f: SourceView, name: Seq<char>, stem: Seq<char>)
    requires
        paths::file_name_of(f.path) == Some(name),
        paths::file_stem_of(f.path) == Some(stem),
        split_volume(name) is None,
        paths::extension_of(f.path) == Some(zip_extension()),
        f.head is Some,
        f.head.unwrap() != zip_magic(),
    ensures
        jobs_of(aggregate(seq![f])).len() == 1,
        jobs_of(aggregate(seq![f]))[0].kind == (ExtractJobKind::Split {
            volume: 0,
            legacy_zip_split: true,
        }),
{
    assert(seq![f].drop_last() =~= Seq::<SourceView>::empty());
    assert(aggregate(Seq::<SourceView>::empty()) == Seq::<JobEntry>::empty());
    assert(is_legacy_zip(f));
    assert(classify(f) == (FileClass::Legacy { dir: dir_of(f.path), package: stem }));
    assert(find_key(Seq::<JobEntry>::empty(), dir_of(f.path), stem, 0) is None);
    let entries = Seq::<JobEntry>::empty().push(
        JobEntry { key: Some((dir_of(f.path), stem)), job: legacy_job(stem, f.path) },
    );
    assert(aggregate(seq![f]) == entries);
    assert(jobs_of(entries)[0] == legacy_job(stem, f.path));
}

/// The validation keeps exactly the jobs that are fit to hand over: every
/// kept job holds as many files as its kind calls for and names its primary
/// file, and a job that does not is never kept.
pub proof fn lemma_valid_jobs_complete(jobs: Seq<JobView>)
    ensures
        forall|i: int|
            0 <= i < valid_jobs(jobs).len() ==> #[trigger] job_ok(valid_jobs(jobs)[i]),
        forall|i: int| 0 <= i < jobs.len() && job_ok(jobs[i]) ==> valid_jobs(jobs).contains(
            #[trigger] jobs[i],
        ),
        forall|i: int| 0 <= i < jobs.len() && !job_ok(jobs[i]) ==> !valid_jobs(jobs).contains(
            #[trigger] jobs[i],
        ),
    decreases jobs.len(),
{
    if jobs.len() > 0 {
        let init = jobs.drop_last();
        lemma_valid_jobs_complete(init);
        let rest = valid_jobs(init);
        assert forall|i: int| 0 <= i < valid_jobs(jobs).len() implies #[trigger] job_ok(
            valid_jobs(jobs)[i],
        ) by {
            if i < rest.len() {
                assert(valid_jobs(jobs)[i] == rest[i]);
            }
        }
        assert forall|i: int| 0 <= i < jobs.len() && job_ok(jobs[i]) implies valid_jobs(
            jobs,
        ).contains(#[trigger] jobs[i]) by {
            if i < jobs.len() - 1 {
                assert(init[i] == jobs[i]);
                assert(rest.contains(init[i]));
                let w = choose|w: int| 0 <= w < rest.len() && rest[w] == init[i];
                assert(valid_jobs(jobs)[w] == jobs[i]);
            } else {
                assert(valid_jobs(jobs).last() == jobs[i]);
            }
        }
        assert forall|i: int| 0 <= i < jobs.len() && !job_ok(jobs[i]) implies !valid_jobs(
            jobs,
        ).contains(#[trigger] jobs[i]) by {
            if valid_jobs(jobs).contains(jobs[i]) {
                let w = choose|w: int|
                    0 <= w < valid_jobs(jobs).len() && valid_jobs(jobs)[w] == jobs[i];
                assert(job_ok(valid_jobs(jobs)[w]));
            }
        }
    }
}

/// No candidate files, no jobs: the fold, the validation, the cover scan and
/// the carving outcome all turn an empty list into an empty list.
pub proof fn lemma_no_sources_no_jobs(heads: Seq<Option<Vec<u8>>>, keep: Seq<bool>)
    ensures
        valid_jobs(jobs_of(aggregate(Seq::empty()))) == Seq::<JobView>::empty(),
        stego_jobs(Seq::empty(), heads) == Seq::<JobView>::empty(),
        retained(Seq::empty(), keep) == Seq::<JobView>::empty(),
{
    assert(jobs_of(Seq::<JobEntry>::empty()) =~= Seq::<JobView>::empty());
}

} // verus!
