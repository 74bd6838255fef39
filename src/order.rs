//! The grouping of candidate files does not depend on their order: the same
//! files in any order give the same jobs, up to the order of the job list
//! and of each job's companions.
use vstd::multiset::Multiset;
use vstd::prelude::*;

use crate::job::{ExtractJobKind, JobView};
use crate::manager::{
    add_file, add_legacy, add_volume, aggregate, classify, find_key, legacy_job, raise_volume,
    single_job, volume_job, FileClass, JobEntry, SourceView,
};

verus! {

/// A job with its companions taken as a multiset.
pub struct GroupJob {
    pub package: Seq<char>,
    pub kind: ExtractJobKind,
    pub path: Seq<char>,
    pub token: Seq<char>,
    pub companions: Multiset<Seq<char>>,
}

pub open spec fn unordered(j: JobView) -> GroupJob {
    GroupJob {
        package: j.package,
        kind: j.kind,
        path: j.path,
        token: j.token,
        companions: j.companions.to_multiset(),
    }
}

/// A list of job entries with its order forgotten: the split jobs by their
/// (directory, package) key, and the multiset of single-archive jobs.
pub struct JobSummary {
    pub groups: Map<(Seq<char>, Seq<char>), GroupJob>,
    pub singles: Multiset<GroupJob>,
}

pub open spec fn summary(entries: Seq<JobEntry>) -> JobSummary
    decreases entries.len(),
{
    if entries.len() == 0 {
        JobSummary { groups: Map::empty(), singles: Multiset::empty() }
    } else {
        let s = summary(entries.drop_last());
        let e = entries.last();
        match e.key {
            Some(k) => JobSummary { groups: s.groups.insert(k, unordered(e.job)), singles: s.singles },
            None => JobSummary { groups: s.groups, singles: s.singles.insert(unordered(e.job)) },
        }
    }
}

/// No two entries share a key.
pub open spec fn keys_unique(entries: Seq<JobEntry>) -> bool {
    forall|i: int, j: int|
        0 <= i < j < entries.len() && (#[trigger] entries[i]).key is Some ==> entries[i].key
            != (#[trigger] entries[j]).key
}

/// `a` and `b` are both the first volume of the same split archive.
pub open spec fn same_first_volume(a: SourceView, b: SourceView) -> bool {
    match (classify(a), classify(b)) {
        (
            FileClass::Volume { dir: d1, package: p1, volume: v1 },
            FileClass::Volume { dir: d2, package: p2, volume: v2 },
        ) => v1 == 1 && v2 == 1 && d1 == d2 && p1 == p2,
        _ => false,
    }
}

/// No split archive has two different files as its first volume.
pub open spec fn first_volumes_unique(files: Seq<SourceView>) -> bool {
    forall|a: SourceView, b: SourceView|
        files.contains(a) && files.contains(b) && #[trigger] same_first_volume(a, b) ==> a.path
            == b.path
}

/// A split job before any volume has joined it.
pub open spec fn empty_group(package: Seq<char>) -> GroupJob {
    GroupJob {
        package,
        kind: ExtractJobKind::Split { volume: 0, legacy_zip_split: false },
        path: Seq::empty(),
        token: Seq::empty(),
        companions: Multiset::empty(),
    }
}

pub open spec fn group_add_volume(g: GroupJob, volume: usize, path: Seq<char>) -> GroupJob {
    if volume == 1 {
        GroupJob { path, kind: raise_volume(g.kind, volume), ..g }
    } else {
        GroupJob { kind: raise_volume(g.kind, volume), companions: g.companions.insert(path), ..g }
    }
}

pub open spec fn group_add_legacy(g: GroupJob, path: Seq<char>) -> GroupJob {
    match g.kind {
        ExtractJobKind::Split { volume, legacy_zip_split: _ } => GroupJob {
            kind: ExtractJobKind::Split { volume, legacy_zip_split: true },
            companions: g.companions.insert(path),
            ..g
        },
        _ => g,
    }
}

pub open spec fn group_of(s: JobSummary, k: (Seq<char>, Seq<char>)) -> GroupJob {
    if s.groups.contains_key(k) {
        s.groups[k]
    } else {
        empty_group(k.1)
    }
}

/// What folding file `f` does to a summary.
pub open spec fn summary_step(s: JobSummary, f: SourceView) -> JobSummary {
    match classify(f) {
        FileClass::Skip => s,
        FileClass::Volume { dir, package, volume } => JobSummary {
            groups: s.groups.insert(
                (dir, package),
                group_add_volume(group_of(s, (dir, package)), volume, f.path),
            ),
            singles: s.singles,
        },
        FileClass::Legacy { dir, package } => JobSummary {
            groups: s.groups.insert(
                (dir, package),
                group_add_legacy(group_of(s, (dir, package)), f.path),
            ),
            singles: s.singles,
        },
        FileClass::Single { package } => JobSummary {
            groups: s.groups,
            singles: s.singles.insert(unordered(single_job(package, f.path))),
        },
    }
}

pub open spec fn summary_fold(files: Seq<SourceView>) -> JobSummary
    decreases files.len(),
{
    if files.len() == 0 {
        JobSummary { groups: Map::empty(), singles: Multiset::empty() }
    } else {
        summary_step(summary_fold(files.drop_last()), files.last())
    }
}

proof fn lemma_find_key_none(entries: Seq<JobEntry>, k: (Seq<char>, Seq<char>), i: int)
    requires
        0 <= i,
        find_key(entries, k.0, k.1, i) is None,
    ensures
        forall|j: int| i <= j < entries.len() ==> entries[j].key != Some(k),
    decreases entries.len() - i,
{
    if i < entries.len() {
        lemma_find_key_none(entries, k, i + 1);
    }
}

proof fn lemma_find_key_some(entries: Seq<JobEntry>, k: (Seq<char>, Seq<char>), i: int)
    ensures
        match find_key(entries, k.0, k.1, i) {
            Some(x) => 0 <= x < entries.len() && entries[x].key == Some(k),
            None => true,
        },
    decreases entries.len() - i,
{
    if 0 <= i < entries.len() && entries[i].key != Some(k) {
        lemma_find_key_some(entries, k, i + 1);
    }
}

/// The summary holds, under each key, the job of the entry with that key.
proof fn lemma_summary_groups(entries: Seq<JobEntry>, k: (Seq<char>, Seq<char>))
    requires
        keys_unique(entries),
    ensures
        summary(entries).groups.contains_key(k) <==> exists|i: int|
            0 <= i < entries.len() && entries[i].key == Some(k),
        forall|i: int|
            0 <= i < entries.len() && entries[i].key == Some(k) ==> summary(entries).groups[k]
                == unordered(entries[i].job),
    decreases entries.len(),
{
    if entries.len() > 0 {
        let init = entries.drop_last();
        assert(keys_unique(init)) by {
            assert forall|i: int, j: int|
                0 <= i < j < init.len() && (#[trigger] init[i]).key is Some implies init[i].key
                    != (#[trigger] init[j]).key by {
                assert(init[i] == entries[i] && init[j] == entries[j]);
            }
        }
        lemma_summary_groups(init, k);
        let n = entries.len() - 1;
        if summary(entries).groups.contains_key(k) && entries.last().key != Some(k) {
            let i = choose|i: int| 0 <= i < init.len() && init[i].key == Some(k);
            assert(entries[i] == init[i]);
        }
        if exists|i: int| 0 <= i < entries.len() && entries[i].key == Some(k) {
            let i = choose|i: int| 0 <= i < entries.len() && entries[i].key == Some(k);
            if i < n {
                assert(entries[i] == init[i]);
            }
        }
        assert forall|i: int|
            0 <= i < entries.len() && entries[i].key == Some(k) implies summary(entries).groups[k]
                == unordered(entries[i].job) by {
            if i < n {
                assert(entries[i] == init[i]);
                assert(entries[i].key != entries[n].key);
            }
        }
    }
}

/// Replacing the job of the entry keyed `k` replaces it in the summary.
proof fn lemma_summary_update(entries: Seq<JobEntry>, i: int, e: JobEntry)
    requires
        keys_unique(entries),
        0 <= i < entries.len(),
        entries[i].key is Some,
        e.key == entries[i].key,
    ensures
        summary(entries.update(i, e)) == (JobSummary {
            groups: summary(entries).groups.insert(e.key.unwrap(), unordered(e.job)),
            singles: summary(entries).singles,
        }),
    decreases entries.len(),
{
    let n = entries.len() - 1;
    let init = entries.drop_last();
    let upd = entries.update(i, e);
    let k = e.key.unwrap();
    if i == n {
        assert(upd.drop_last() =~= init);
        assert(summary(entries).groups.insert(k, unordered(e.job)) =~= summary(init).groups.insert(
            k,
            unordered(e.job),
        ));
    } else {
        assert(keys_unique(init)) by {
            assert forall|a: int, b: int|
                0 <= a < b < init.len() && (#[trigger] init[a]).key is Some implies init[a].key
                    != (#[trigger] init[b]).key by {
                assert(init[a] == entries[a] && init[b] == entries[b]);
            }
        }
        assert(init[i] == entries[i]);
        lemma_summary_update(init, i, e);
        assert(upd.drop_last() =~= init.update(i, e));
        assert(upd.last() == entries.last());
        assert(entries[i].key != entries[n].key);
        match entries.last().key {
            Some(k2) => {
                assert(summary(upd).groups =~= summary(entries).groups.insert(k, unordered(e.job)));
            },
            None => {},
        }
    }
}

proof fn lemma_group_add_volume(j: JobView, volume: usize, path: Seq<char>)
    ensures
        unordered(add_volume(j, volume, path)) == group_add_volume(unordered(j), volume, path),
{
    j.companions.to_multiset_ensures();
}

proof fn lemma_group_add_legacy(j: JobView, path: Seq<char>)
    ensures
        unordered(add_legacy(j, path)) == group_add_legacy(unordered(j), path),
{
    j.companions.to_multiset_ensures();
}

proof fn lemma_new_groups(package: Seq<char>, volume: usize, path: Seq<char>)
    ensures
        unordered(volume_job(package, volume, path)) == group_add_volume(
            empty_group(package),
            volume,
            path,
        ),
        unordered(legacy_job(package, path)) == group_add_legacy(empty_group(package), path),
{
    Seq::<Seq<char>>::empty().to_multiset_ensures();
    assert(seq![path] =~= Seq::<Seq<char>>::empty().push(path));
    assert(Seq::<Seq<char>>::empty().to_multiset() =~= Multiset::empty());
}

/// Folding a file into the entries is folding it into their summary, and
/// keeps the keys unique.
proof fn lemma_add_file_summary(entries: Seq<JobEntry>, f: SourceView)
    requires
        keys_unique(entries),
    ensures
        keys_unique(add_file(entries, f)),
        summary(add_file(entries, f)) == summary_step(summary(entries), f),
{
    let s = summary(entries);
    match classify(f) {
        FileClass::Skip => {},
        FileClass::Single { package } => {
            let e = JobEntry { key: None, job: single_job(package, f.path) };
            assert(entries.push(e).drop_last() =~= entries);
            assert(keys_unique(entries.push(e))) by {
                assert forall|i: int, j: int|
                    0 <= i < j < entries.push(e).len() && (#[trigger] entries.push(e)[i]).key is Some
                        implies entries.push(e)[i].key != (#[trigger] entries.push(e)[j]).key by {
                    assert(entries.push(e)[i] == entries[i]);
                    if j < entries.len() {
                        assert(entries.push(e)[j] == entries[j]);
                    }
                }
            }
        },
        FileClass::Volume { dir, package, volume } => {
            let k = (dir, package);
            lemma_summary_groups(entries, k);
            lemma_find_key_some(entries, k, 0);
            match find_key(entries, dir, package, 0) {
                None => {
                    lemma_find_key_none(entries, k, 0);
                    lemma_new_groups(package, volume, f.path);
                    let e = JobEntry { key: Some(k), job: volume_job(package, volume, f.path) };
                    assert(entries.push(e).drop_last() =~= entries);
                    assert(!s.groups.contains_key(k));
                    assert(keys_unique(entries.push(e))) by {
                        assert forall|i: int, j: int|
                            0 <= i < j < entries.push(e).len() && (#[trigger] entries.push(
                                e,
                            )[i]).key is Some implies entries.push(e)[i].key != (
                            #[trigger] entries.push(e)[j]).key by {
                            assert(entries.push(e)[i] == entries[i]);
                            if j < entries.len() {
                                assert(entries.push(e)[j] == entries[j]);
                            }
                        }
                    }
                },
                Some(i) => {
                    let e = JobEntry { key: Some(k), job: add_volume(entries[i].job, volume, f.path) };
                    lemma_summary_update(entries, i, e);
                    lemma_group_add_volume(entries[i].job, volume, f.path);
                    assert(keys_unique(entries.update(i, e))) by {
                        assert forall|a: int, b: int|
                            0 <= a < b < entries.len() && (#[trigger] entries.update(i, e)[a]).key is Some
                                implies entries.update(i, e)[a].key != (#[trigger] entries.update(
                                i,
                                e,
                            )[b]).key by {
                            assert(entries[a].key is Some);
                            assert(entries[a].key != entries[b].key);
                        }
                    }
                },
            }
        },
        FileClass::Legacy { dir, package } => {
            let k = (dir, package);
            lemma_summary_groups(entries, k);
            lemma_find_key_some(entries, k, 0);
            match find_key(entries, dir, package, 0) {
                None => {
                    lemma_find_key_none(entries, k, 0);
                    lemma_new_groups(package, 0, f.path);
                    let e = JobEntry { key: Some(k), job: legacy_job(package, f.path) };
                    assert(entries.push(e).drop_last() =~= entries);
                    assert(!s.groups.contains_key(k));
                    assert(keys_unique(entries.push(e))) by {
                        assert forall|i: int, j: int|
                            0 <= i < j < entries.push(e).len() && (#[trigger] entries.push(
                                e,
                            )[i]).key is Some implies entries.push(e)[i].key != (
                            #[trigger] entries.push(e)[j]).key by {
                            assert(entries.push(e)[i] == entries[i]);
                            if j < entries.len() {
                                assert(entries.push(e)[j] == entries[j]);
                            }
                        }
                    }
                },
                Some(i) => {
                    let e = JobEntry { key: Some(k), job: add_legacy(entries[i].job, f.path) };
                    lemma_summary_update(entries, i, e);
                    lemma_group_add_legacy(entries[i].job, f.path);
                    assert(keys_unique(entries.update(i, e))) by {
                        assert forall|a: int, b: int|
                            0 <= a < b < entries.len() && (#[trigger] entries.update(i, e)[a]).key is Some
                                implies entries.update(i, e)[a].key != (#[trigger] entries.update(
                                i,
                                e,
                            )[b]).key by {
                            assert(entries[a].key is Some);
                            assert(entries[a].key != entries[b].key);
                        }
                    }
                },
            }
        },
    }
}

/// The summary of the fold is the fold of the summaries, and the fold keeps
/// keys unique.
pub proof fn lemma_aggregate_summary(files: Seq<SourceView>)
    ensures
        keys_unique(aggregate(files)),
        summary(aggregate(files)) == summary_fold(files),
    decreases files.len(),
{
    if files.len() > 0 {
        lemma_aggregate_summary(files.drop_last());
        lemma_add_file_summary(aggregate(files.drop_last()), files.last());
    }
}

proof fn lemma_volume_volume(x: GroupJob, v1: usize, p1: Seq<char>, v2: usize, p2: Seq<char>)
    requires
        v1 == 1 && v2 == 1 ==> p1 == p2,
    ensures
        group_add_volume(group_add_volume(x, v1, p1), v2, p2) == group_add_volume(
            group_add_volume(x, v2, p2),
            v1,
            p1,
        ),
{
    assert(x.companions.insert(p1).insert(p2) =~= x.companions.insert(p2).insert(p1));
}

proof fn lemma_volume_legacy(x: GroupJob, v: usize, p: Seq<char>, q: Seq<char>)
    ensures
        group_add_volume(group_add_legacy(x, q), v, p) == group_add_legacy(
            group_add_volume(x, v, p),
            q,
        ),
{
    assert(x.companions.insert(p).insert(q) =~= x.companions.insert(q).insert(p));
}

proof fn lemma_legacy_legacy(x: GroupJob, p: Seq<char>, q: Seq<char>)
    ensures
        group_add_legacy(group_add_legacy(x, p), q) == group_add_legacy(group_add_legacy(x, q), p),
{
    assert(x.companions.insert(p).insert(q) =~= x.companions.insert(q).insert(p));
}

/// Two files folded in either order give the same summary, unless both are
/// the first volume of one split archive at different paths.
proof fn lemma_step_commutes(s: JobSummary, f: SourceView, g: SourceView)
    requires
        same_first_volume(f, g) ==> f.path == g.path,
    ensures
        summary_step(summary_step(s, f), g) == summary_step(summary_step(s, g), f),
{
    let a = summary_step(summary_step(s, f), g);
    let b = summary_step(summary_step(s, g), f);
    match (classify(f), classify(g)) {
        (
            FileClass::Volume { dir: d1, package: p1, volume: v1 },
            FileClass::Volume { dir: d2, package: p2, volume: v2 },
        ) => {
            if (d1, p1) == (d2, p2) {
                lemma_volume_volume(group_of(s, (d1, p1)), v1, f.path, v2, g.path);
            }
            assert(a.groups =~= b.groups);
        },
        (
            FileClass::Volume { dir: d1, package: p1, volume: v1 },
            FileClass::Legacy { dir: d2, package: p2 },
        ) => {
            if (d1, p1) == (d2, p2) {
                lemma_volume_legacy(group_of(s, (d1, p1)), v1, f.path, g.path);
            }
            assert(a.groups =~= b.groups);
        },
        (
            FileClass::Legacy { dir: d1, package: p1 },
            FileClass::Volume { dir: d2, package: p2, volume: v2 },
        ) => {
            if (d1, p1) == (d2, p2) {
                lemma_volume_legacy(group_of(s, (d1, p1)), v2, g.path, f.path);
            }
            assert(a.groups =~= b.groups);
        },
        (FileClass::Legacy { dir: d1, package: p1 }, FileClass::Legacy { dir: d2, package: p2 }) => {
            if (d1, p1) == (d2, p2) {
                lemma_legacy_legacy(group_of(s, (d1, p1)), f.path, g.path);
            }
            assert(a.groups =~= b.groups);
        },
        (FileClass::Single { package: p1 }, FileClass::Single { package: p2 }) => {
            assert(a.singles =~= b.singles);
        },
        _ => {},
    }
}

/// A file list whose files all stand in `big` keeps its first volumes
/// unique.
proof fn lemma_first_volumes_sub(small: Seq<SourceView>, big: Seq<SourceView>)
    requires
        first_volumes_unique(big),
        forall|x: SourceView| small.contains(x) ==> big.contains(x),
    ensures
        first_volumes_unique(small),
{
}

proof fn lemma_contains_drop_last(s: Seq<SourceView>)
    requires
        s.len() > 0,
    ensures
        forall|x: SourceView| s.drop_last().contains(x) ==> s.contains(x),
{
    assert forall|x: SourceView| s.drop_last().contains(x) implies s.contains(x) by {
        let k = choose|k: int| 0 <= k < s.drop_last().len() && s.drop_last()[k] == x;
        assert(s[k] == x);
    }
}

/// Folding a file list is folding it without its `i`-th file, then that file.
proof fn lemma_fold_move_last(files: Seq<SourceView>, i: int)
    requires
        0 <= i < files.len(),
        first_volumes_unique(files),
    ensures
        summary_fold(files) == summary_step(summary_fold(files.remove(i)), files[i]),
    decreases files.len(),
{
    let n = files.len() - 1;
    if i == n {
        assert(files.remove(i) =~= files.drop_last());
    } else {
        let init = files.drop_last();
        lemma_contains_drop_last(files);
        lemma_first_volumes_sub(init, files);
        lemma_fold_move_last(init, i);
        assert(init[i] == files[i]);
        assert(files.remove(i).drop_last() =~= init.remove(i));
        assert(files.remove(i).last() == files.last());
        assert(files.contains(files[i]));
        assert(files.contains(files.last()));
        lemma_step_commutes(summary_fold(init.remove(i)), files[i], files.last());
    }
}

proof fn lemma_fold_permutation(files1: Seq<SourceView>, files2: Seq<SourceView>)
    requires
        files1.to_multiset() == files2.to_multiset(),
        first_volumes_unique(files1),
    ensures
        summary_fold(files1) == summary_fold(files2),
    decreases files1.len(),
{
    files1.to_multiset_ensures();
    files2.to_multiset_ensures();
    if files1.len() == 0 {
        assert(files2.len() == 0);
    } else {
        let f = files1.last();
        let rest1 = files1.drop_last();
        assert(files1 =~= rest1.push(f));
        rest1.to_multiset_ensures();
        assert(files1.contains(f)) by {
            assert(files1[files1.len() - 1] == f);
        }
        assert(files1.to_multiset().count(f) > 0);
        assert(files2.to_multiset().count(f) > 0);
        assert(files2.contains(f));
        let i = choose|i: int| 0 <= i < files2.len() && files2[i] == f;
        let rest2 = files2.remove(i);
        assert(rest1.to_multiset() =~= rest2.to_multiset());
        lemma_contains_drop_last(files1);
        lemma_first_volumes_sub(rest1, files1);
        lemma_fold_permutation(rest1, rest2);
        assert forall|x: SourceView| files2.contains(x) implies files1.contains(x) by {
            assert(files2.to_multiset().count(x) > 0);
        }
        lemma_first_volumes_sub(files2, files1);
        lemma_fold_move_last(files2, i);
        assert(rest1 =~= files1.drop_last());
    }
}

/// The grouping does not depend on the order of the files: two orders of the
/// same files, where no split archive has two different first volumes, give
/// the same split jobs under each (directory, package) key and the same
/// single-archive jobs, with each job's companions equal as a multiset. Each
/// key names one job only.
pub proof fn lemma_grouping_order_independent(files1: Seq<SourceView>, files2: Seq<SourceView>)
    requires
        files1.to_multiset() == files2.to_multiset(),
        first_volumes_unique(files1),
    ensures
        keys_unique(aggregate(files1)),
        keys_unique(aggregate(files2)),
        summary(aggregate(files1)) == summary(aggregate(files2)),
{
    lemma_aggregate_summary(files1);
    lemma_aggregate_summary(files2);
    lemma_fold_permutation(files1, files2);
}

/// File `f` joins the split job keyed `k`.
pub open spec fn in_group(f: SourceView, k: (Seq<char>, Seq<char>)) -> bool {
    match classify(f) {
        FileClass::Volume { dir, package, volume: _ } => (dir, package) == k,
        FileClass::Legacy { dir, package } => (dir, package) == k,
        _ => false,
    }
}

/// The paths of a list of files.
pub open spec fn paths_of(files: Seq<SourceView>) -> Seq<Seq<char>> {
    files.map_values(|f: SourceView| f.path)
}

/// Files outside the group keyed `k` leave that group as it is.
proof fn lemma_fold_outside_group(
    base: Seq<SourceView>,
    others: Seq<SourceView>,
    k: (Seq<char>, Seq<char>),
)
    requires
        forall|o: SourceView| others.contains(o) ==> !in_group(o, k),
    ensures
        summary_fold(base + others).groups.contains_key(k) == summary_fold(
            base,
        ).groups.contains_key(k),
        group_of(summary_fold(base + others), k) == group_of(summary_fold(base), k),
    decreases others.len(),
{
    if others.len() == 0 {
        assert(base + others =~= base);
    } else {
        let init = others.drop_last();
        assert forall|o: SourceView| init.contains(o) implies !in_group(o, k) by {
            let j = choose|j: int| 0 <= j < init.len() && init[j] == o;
            assert(others[j] == o);
        }
        lemma_fold_outside_group(base, init, k);
        assert((base + others).drop_last() =~= base + init);
        assert((base + others).last() == others.last());
        assert(others.contains(others.last())) by {
            assert(others[others.len() - 1] == others.last());
        }
    }
}

/// Volumes 1 to `j` of one split archive, in order, build its job.
proof fn lemma_fold_parts(parts: Seq<SourceView>, dir: Seq<char>, package: Seq<char>, j: int)
    requires
        1 <= j <= parts.len(),
        parts.len() <= usize::MAX,
        forall|i: int|
            0 <= i < parts.len() ==> #[trigger] classify(parts[i]) == (FileClass::Volume {
                dir,
                package,
                volume: (i + 1) as usize,
            }),
    ensures
        summary_fold(parts.take(j)).groups.contains_key((dir, package)),
        summary_fold(parts.take(j)).groups[(dir, package)] == (GroupJob {
            package,
            kind: ExtractJobKind::Split { volume: j as usize, legacy_zip_split: false },
            path: parts[0].path,
            token: Seq::empty(),
            companions: paths_of(parts.subrange(1, j)).to_multiset(),
        }),
    decreases j,
{
    let k = (dir, package);
    assert(parts.take(j).drop_last() =~= parts.take(j - 1));
    assert(parts.take(j).last() == parts[j - 1]);
    assert(classify(parts[j - 1]) == (FileClass::Volume { dir, package, volume: j as usize }));
    if j == 1 {
        assert(parts.take(0) =~= Seq::<SourceView>::empty());
        assert(paths_of(parts.subrange(1, 1)) =~= Seq::<Seq<char>>::empty());
        Seq::<Seq<char>>::empty().to_multiset_ensures();
        assert(Seq::<Seq<char>>::empty().to_multiset() =~= Multiset::empty());
    } else {
        lemma_fold_parts(parts, dir, package, j - 1);
        let prev = paths_of(parts.subrange(1, j - 1));
        assert(paths_of(parts.subrange(1, j)) =~= prev.push(parts[j - 1].path));
        prev.to_multiset_ensures();
    }
}

/// The volumes of one split archive among other files: when the files are,
/// in any order, volumes 1 to `m` of the archive `package` in `dir`, each
/// once, together with files none of which joins that archive, and no split
/// archive has two different first volumes, the archive's job is `Split`
/// with volume `m`, has volume 1 as its primary file and exactly the other
/// `m - 1` volumes as its companions; it is the only job under its key.
pub proof fn lemma_split_volumes_among_others(
    files: Seq<SourceView>,
    parts: Seq<SourceView>,
    others: Seq<SourceView>,
    dir: Seq<char>,
    package: Seq<char>,
    m: usize,
)
    requires
        m >= 1,
        parts.len() == m,
        forall|i: int|
            0 <= i < m ==> #[trigger] classify(parts[i]) == (FileClass::Volume {
                dir,
                package,
                volume: (i + 1) as usize,
            }),
        forall|o: SourceView| others.contains(o) ==> !in_group(o, (dir, package)),
        files.to_multiset() == (parts + others).to_multiset(),
        first_volumes_unique(files),
    ensures
        keys_unique(aggregate(files)),
        summary(aggregate(files)).groups.contains_key((dir, package)),
        summary(aggregate(files)).groups[(dir, package)] == (GroupJob {
            package,
            kind: ExtractJobKind::Split { volume: m, legacy_zip_split: false },
            path: parts[0].path,
            token: Seq::empty(),
            companions: paths_of(parts.subrange(1, m as int)).to_multiset(),
        }),
        summary(aggregate(files)).groups[(dir, package)].companions.len() == m - 1,
{
    let k = (dir, package);
    lemma_grouping_order_independent(files, parts + others);
    lemma_aggregate_summary(parts + others);
    lemma_fold_outside_group(parts, others, k);
    lemma_fold_parts(parts, dir, package, m as int);
    assert(parts.take(m as int) =~= parts);
    paths_of(parts.subrange(1, m as int)).to_multiset_ensures();
}

} // verus!
