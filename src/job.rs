//! Extraction jobs: one logical archive handed to the decompressor.
use vstd::prelude::*;

use crate::paths;
use crate::signature::{scan_cover, scan_spec, StegoError};

verus! {

/// What kind of archive a job stands for.
#[derive(Clone, Copy, Debug, PartialEq, Eq, Structural)]
pub enum ExtractJobKind {
    /// An archive in numbered volumes. `volume` is the highest volume number
    /// seen; `legacy_zip_split` marks a zip split whose first volume carries
    /// no `.partN`-style name and no standard zip header.
    Split { volume: usize, legacy_zip_split: bool },
    /// An archive hidden behind a cover image, starting after byte `offset`
    /// (0: a cover was recognised but there is nothing to carve).
    Stego(usize),
    /// A single archive file.
    Normal,
}

impl Default for ExtractJobKind {
    fn default() -> (r: Self)
        ensures
            r == ExtractJobKind::Normal,
    {
        ExtractJobKind::Normal
    }
}

/// One logical extraction unit.
#[derive(Clone, Debug)]
pub struct ExtractJob {
    /// Display name of the archive set.
    pub package: String,
    pub kind: ExtractJobKind,
    /// The file handed to the decompressor.
    pub path: String,
    /// Password hint, filled in by the password subsystem.
    pub token: String,
    /// The other files that belong to the job (further volumes, or the
    /// carved cover and the original file).
    pub companions: Vec<String>,
}

/// The mathematical value of an `ExtractJob`.
pub struct JobView {
    pub package: Seq<char>,
    pub kind: ExtractJobKind,
    pub path: Seq<char>,
    pub token: Seq<char>,
    pub companions: Seq<Seq<char>>,
}

impl View for ExtractJob {
    type V = JobView;

    open spec fn view(&self) -> JobView {
        JobView {
            package: self.package@,
            kind: self.kind,
            path: self.path@,
            token: self.token@,
            companions: self.companions@.map_values(|s: String| s@),
        }
    }
}

/// A job with `n` companions holds as many files as its kind calls for.
pub open spec fn file_count_ok(kind: ExtractJobKind, n: nat) -> bool {
    match kind {
        ExtractJobKind::Split { volume, legacy_zip_split } => if legacy_zip_split {
            n == volume
        } else {
            n + 1 == volume
        },
        ExtractJobKind::Stego(_) => n == 2,
        ExtractJobKind::Normal => n == 0,
    }
}

/// A split job has found its first volume: its primary file is set.
pub open spec fn is_resolved(job: JobView) -> bool {
    match job.kind {
        ExtractJobKind::Split { .. } => job.path.len() > 0,
        _ => true,
    }
}

/// The offset that `find_target_file_offset` reports for a job of `kind`
/// whose primary file begins with `head`.
pub open spec fn target_offset_spec(kind: ExtractJobKind, head: Seq<u8>) -> Result<
    Option<usize>,
    StegoError,
> {
    match kind {
        ExtractJobKind::Stego(offset) => Ok(Some(offset)),
        _ => match scan_spec(head) {
            Ok(Some(found)) => Ok(Some(found.trailer_end)),
            Ok(None) => Ok(None),
            Err(e) => Err(e),
        },
    }
}

/// The marker put in front of the names of carved files.
pub open spec fn carve_marker() -> Seq<char> {
    seq!['[', 'l', 'e', 'm', 'm', 'k', 'k', ']']
}

/// The carved cover and payload paths for a file at `path` named `name`.
pub open spec fn carve_targets_spec(path: Seq<char>, name: Seq<char>) -> (Seq<char>, Seq<char>) {
    let marked = paths::with_file_name_of(path, carve_marker() + name);
    (
        paths::with_extension_of(marked, seq!['b', 'a', 's', 'i', 's']),
        paths::with_extension_of(marked, seq!['f', 'i', 'l', 'e']),
    )
}

/// Why a job's file cannot be carved.
#[derive(Clone, Copy, Debug, PartialEq, Eq, Structural)]
pub enum CarveError {
    /// The job's path has no file name to derive the carved names from.
    NoFileName,
    /// A file already stands under one of the carved names.
    TargetExists,
}

/// The file work that carving a job calls for: copy the first `offset` bytes
/// of `source` to `cover`, and the rest to `payload`.
#[derive(Clone, Debug)]
pub struct CarvePlan {
    pub source: String,
    pub offset: usize,
    pub cover: String,
    pub payload: String,
}

/// The cover fragment and the payload that a file's bytes split into.
pub open spec fn carve_parts(data: Seq<u8>, offset: int) -> (Seq<u8>, Seq<u8>) {
    (data.take(offset), data.skip(offset))
}

/// Splits a file's bytes at `offset` into the cover fragment and the payload;
/// `None` when the file is shorter than `offset`.
pub fn split_at_offset(data: &Vec<u8>, offset: usize) -> (r: Option<(Vec<u8>, Vec<u8>)>)
    ensures
        match r {
            Some((cover, payload)) => offset <= data@.len() && (cover@, payload@) == carve_parts(
                data@,
                offset as int,
            ),
            None => offset > data@.len(),
        },
{
    if offset > data.len() {
        return None;
    }
    let mut cover: Vec<u8> = Vec::new();
    let mut payload: Vec<u8> = Vec::new();
    let mut i: usize = 0;
    while i < data.len()
        invariant
            offset <= data@.len(),
            i <= data@.len(),
            cover@ == data@.take(if i < offset { i as int } else { offset as int }),
            payload@ == (if i < offset { Seq::<u8>::empty() } else { data@.subrange(offset as int, i as int) }),
        decreases data.len() - i,
    {
        if i < offset {
            cover.push(data[i]);
            assert(cover@ =~= data@.take(i + 1));
        } else {
            payload.push(data[i]);
            assert(payload@ =~= data@.subrange(offset as int, i + 1));
        }
        i = i + 1;
    }
    assert(payload@ =~= data@.skip(offset as int));
    Some((cover, payload))
}

/// Carving round trip: the cover fragment holds exactly `offset` bytes, the
/// payload the rest, and the two put end to end give back the original.
pub proof fn lemma_carve_round_trip(data: Seq<u8>, offset: int)
    requires
        0 <= offset <= data.len(),
    ensures
        carve_parts(data, offset).0.len() == offset,
        carve_parts(data, offset).1.len() == data.len() - offset,
        carve_parts(data, offset).0 + carve_parts(data, offset).1 == data,
{
    assert(data.take(offset) + data.skip(offset) =~= data);
}

impl ExtractJob {
    /// Whether the job holds as many companion files as its kind calls for.
    pub fn check_file_number(&self) -> (r: bool)
        ensures
            r == file_count_ok(self.kind, self.companions@.len()),
    {
        let n = self.companions.len();
        match self.kind {
            ExtractJobKind::Split { volume, legacy_zip_split } => {
                if legacy_zip_split {
                    n == volume
                } else {
                    volume >= 1 && n == volume - 1
                }
            },
            ExtractJobKind::Stego(_) => n == 2,
            ExtractJobKind::Normal => n == 0,
        }
    }

    /// Whether the job names its primary file: a split job whose first
    /// volume never turned up does not.
    pub fn is_resolved(&self) -> (r: bool)
        ensures
            r == is_resolved(self@),
    {
        match self.kind {
            ExtractJobKind::Split { .. } => self.path.unicode_len() > 0,
            _ => true,
        }
    }

    /// The position where the cover ends and the hidden archive begins in the
    /// job's primary file, given its first bytes `head`.
    ///
    /// A job already marked `Stego` keeps its offset. Otherwise `Ok(None)`
    /// when `head` starts with no cover header, and an error when the cover's
    /// trailer, or an archive header after it, is missing.
    pub fn find_target_file_offset(&self, head: &Vec<u8>) -> (r: Result<Option<usize>, StegoError>)
        ensures
            r == target_offset_spec(self.kind, head@),
    {
        if let ExtractJobKind::Stego(offset) = self.kind {
            return Ok(Some(offset));
        }
        match scan_cover(head) {
            Ok(Some(found)) => Ok(Some(found.trailer_end)),
            Ok(None) => Ok(None),
            Err(e) => Err(e),
        }
    }

    /// Whether the job's file is to be carved: it hides an archive at a
    /// nonzero offset.
    pub fn needs_carving(&self) -> (r: bool)
        ensures
            r == (match self.kind {
                ExtractJobKind::Stego(offset) => offset > 0,
                _ => false,
            }),
    {
        match self.kind {
            ExtractJobKind::Stego(offset) => offset > 0,
            _ => false,
        }
    }

    /// The paths of the carved cover fragment and payload: the job's file
    /// name marked, with the extensions `basis` and `file`, next to it.
    pub fn carve_targets(&self) -> (r: Option<(String, String)>)
        ensures
            match paths::file_name_of(self.path@) {
                None => r is None,
                Some(name) => match r {
                    Some((cover, payload)) => (cover@, payload@) == carve_targets_spec(
                        self.path@,
                        name,
                    ),
                    None => false,
                },
            },
    {
        let name = match paths::file_name(self.path.as_str()) {
            Some(n) => n,
            None => return None,
        };
        let mut marked_name = String::from_str("[lemmkk]");
        proof {
            reveal_strlit("[lemmkk]");
            reveal_strlit("basis");
            reveal_strlit("file");
            assert("[lemmkk]"@ =~= carve_marker());
            assert("basis"@ =~= seq!['b', 'a', 's', 'i', 's']);
            assert("file"@ =~= seq!['f', 'i', 'l', 'e']);
            assert(!"basis"@.contains('/') && !"basis"@.contains('\\')) by {
                assert(forall|i: int| 0 <= i < 5 ==> "basis"@[i] != '/' && "basis"@[i] != '\\');
            }
            assert(!"file"@.contains('/') && !"file"@.contains('\\')) by {
                assert(forall|i: int| 0 <= i < 4 ==> "file"@[i] != '/' && "file"@[i] != '\\');
            }
        }
        marked_name.append(name.as_str());
        let marked = paths::with_file_name(self.path.as_str(), marked_name.as_str());
        let cover = paths::with_extension(marked.as_str(), "basis");
        let payload = paths::with_extension(marked.as_str(), "file");
        Some((cover, payload))
    }

    /// Reclassifies a job whose file hides an archive at a nonzero offset so
    /// that it points at the carved payload, given whether files already
    /// stand under the two carved names; returns the file work to do. The
    /// job's companions become the carved cover and the original file.
    ///
    /// Jobs of any other kind, or at offset 0, are left as they are
    /// (`Ok(None)`). A name collision, or a path without a file name, leaves
    /// the job unchanged and is reported.
    pub fn create_temp_file(&mut self, cover_exists: bool, payload_exists: bool) -> (r: Result<
        Option<CarvePlan>,
        CarveError,
    >)
        ensures
            match old(self).kind {
                ExtractJobKind::Stego(offset) if offset > 0 => match paths::file_name_of(
                    old(self).path@,
                ) {
                    None => r == Err::<Option<CarvePlan>, CarveError>(CarveError::NoFileName)
                        && final(self)@ == old(self)@,
                    Some(name) => if cover_exists || payload_exists {
                        r == Err::<Option<CarvePlan>, CarveError>(CarveError::TargetExists)
                            && final(self)@ == old(self)@
                    } else {
                        let (cover, payload) = carve_targets_spec(old(self).path@, name);
                        match r {
                            Ok(Some(plan)) => plan.source@ == old(self).path@ && plan.offset
                                == offset && plan.cover@ == cover && plan.payload@ == payload
                                && final(self)@ == (JobView {
                                path: payload,
                                companions: seq![cover, old(self).path@],
                                ..old(self)@
                            }),
                            _ => false,
                        }
                    },
                },
                _ => r == Ok::<Option<CarvePlan>, CarveError>(None) && final(self)@ == old(self)@,
            },
    {
        let offset = match self.kind {
            ExtractJobKind::Stego(offset) => offset,
            _ => return Ok(None),
        };
        if offset == 0 {
            return Ok(None);
        }
        let (cover, payload) = match self.carve_targets() {
            Some(t) => t,
            None => return Err(CarveError::NoFileName),
        };
        if cover_exists || payload_exists {
            return Err(CarveError::TargetExists);
        }
        let source = self.path.clone();
        let plan = CarvePlan {
            source: self.path.clone(),
            offset,
            cover: cover.clone(),
            payload: payload.clone(),
        };
        self.companions = vec![cover, source];
        self.path = payload;
        assert(self.companions@.map_values(|s: String| s@) =~= seq![plan.cover@, old(self).path@]);
        Ok(Some(plan))
    }
}

} // verus!
