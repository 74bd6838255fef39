//! Magic-number tables and byte-pattern search used to recognise archives
//! hidden behind an image.
use vstd::prelude::*;

verus! {

/// Number of cover (image) formats in the cover table.
pub const COVER_COUNT: usize = 4;

/// Number of archive formats in the archive table.
pub const ARCHIVE_COUNT: usize = 12;

/// Leading bytes of each cover format: JPEG, PNG, GIF89a, GIF87a.
pub open spec fn cover_header(i: int) -> Seq<u8> {
    if i == 0 {
        seq![0xFFu8, 0xD8u8, 0xFFu8]
    } else if i == 1 {
        seq![0x89u8, 0x50u8, 0x4Eu8, 0x47u8]
    } else if i == 2 {
        seq![0x47u8, 0x49u8, 0x46u8, 0x38u8, 0x39u8, 0x61u8]
    } else {
        seq![0x47u8, 0x49u8, 0x46u8, 0x38u8, 0x37u8, 0x61u8]
    }
}

/// Closing bytes of each cover format, in the order of `cover_header`.
pub open spec fn cover_trailer(i: int) -> Seq<u8> {
    if i == 0 {
        seq![0xFFu8, 0xD9u8]
    } else if i == 1 {
        seq![0xAEu8, 0x42u8, 0x60u8, 0x82u8]
    } else {
        seq![0x00u8, 0x3Bu8]
    }
}

/// Leading bytes of each archive format: zip, rar5, rar4, 7z, tar, xz,
/// tar.gz, gz, tar.bz, bz2, bz, z.
pub open spec fn archive_header(i: int) -> Seq<u8> {
    if i == 0 {
        seq![0x50u8, 0x4Bu8, 0x03u8, 0x04u8]
    } else if i == 1 {
        seq![0x52u8, 0x61u8, 0x72u8, 0x21u8, 0x1Au8, 0x07u8, 0x01u8, 0x00u8]
    } else if i == 2 {
        seq![0x52u8, 0x61u8, 0x72u8, 0x21u8, 0x1Au8, 0x07u8, 0x00u8]
    } else if i == 3 {
        seq![0x37u8, 0x7Au8, 0xBCu8, 0xAFu8, 0x27u8, 0x1Cu8]
    } else if i == 4 {
        seq![0x75u8, 0x73u8, 0x74u8, 0x61u8, 0x72u8]
    } else if i == 5 {
        seq![0xFDu8, 0x37u8, 0x7Au8, 0x58u8, 0x5Au8, 0x00u8]
    } else if i == 6 {
        seq![0x1Fu8, 0x8Bu8, 0x08u8, 0x00u8]
    } else if i == 7 {
        seq![0x1Fu8, 0x8Bu8]
    } else if i == 8 {
        seq![0x42u8, 0x5Au8, 0x68u8, 0x39u8, 0x17u8]
    } else if i == 9 {
        seq![0x42u8, 0x5Au8, 0x68u8]
    } else if i == 10 {
        seq![0x42u8, 0x5Au8]
    } else {
        seq![0x1Fu8, 0x9Du8]
    }
}

/// The standard zip local-file header, `PK\x03\x04`.
pub open spec fn zip_magic() -> Seq<u8> {
    archive_header(0)
}

/// `pat` stands in `buf` starting at position `at`.
pub open spec fn occurs_at(buf: Seq<u8>, pat: Seq<u8>, at: int) -> bool {
    0 <= at && at + pat.len() <= buf.len() && buf.subrange(at, at + pat.len()) == pat
}

/// The first position at or after `from` where `pat` stands in `buf`.
pub open spec fn first_occurrence(buf: Seq<u8>, pat: Seq<u8>, from: int) -> Option<int>
    decreases buf.len() + 1 - from,
{
    if from < 0 || from + pat.len() > buf.len() {
        None
    } else if occurs_at(buf, pat, from) {
        Some(from)
    } else {
        first_occurrence(buf, pat, from + 1)
    }
}

/// The first cover format, from index `i` on, whose header starts `buf`.
pub open spec fn cover_from(buf: Seq<u8>, i: int) -> Option<int>
    decreases COVER_COUNT - i,
{
    if i < 0 || i >= COVER_COUNT {
        None
    } else if occurs_at(buf, cover_header(i), 0) {
        Some(i)
    } else {
        cover_from(buf, i + 1)
    }
}

/// A position that `first_occurrence` reports holds `pat`, at or after `from`.
pub proof fn lemma_first_occurrence_found(buf: Seq<u8>, pat: Seq<u8>, from: int)
    ensures
        match first_occurrence(buf, pat, from) {
            Some(p) => from <= p && occurs_at(buf, pat, p),
            None => true,
        },
    decreases buf.len() + 1 - from,
{
    if !(from < 0 || from + pat.len() > buf.len()) && !occurs_at(buf, pat, from) {
        lemma_first_occurrence_found(buf, pat, from + 1);
    }
}

/// `cover_from` reports an index of the cover table.
pub proof fn lemma_cover_from_range(buf: Seq<u8>, i: int)
    ensures
        match cover_from(buf, i) {
            Some(c) => i <= c < COVER_COUNT,
            None => true,
        },
    decreases COVER_COUNT - i,
{
    if 0 <= i < COVER_COUNT && !occurs_at(buf, cover_header(i), 0) {
        lemma_cover_from_range(buf, i + 1);
    }
}

/// The cover format that `buf` starts with, if any.
pub open spec fn cover_of(buf: Seq<u8>) -> Option<int> {
    cover_from(buf, 0)
}

/// The first archive format, from index `i` on, whose header occurs anywhere
/// in `rest`, with the position of its first occurrence.
pub open spec fn archive_from(rest: Seq<u8>, i: int) -> Option<(int, int)>
    decreases ARCHIVE_COUNT - i,
{
    if i < 0 || i >= ARCHIVE_COUNT {
        None
    } else {
        match first_occurrence(rest, archive_header(i), 0) {
            Some(at) => Some((i, at)),
            None => archive_from(rest, i + 1),
        }
    }
}

/// Outcome of looking for an archive behind a cover image.
#[derive(Clone, Copy, Debug, PartialEq, Eq, Structural)]
pub struct CoverScan {
    /// Index into the cover table.
    pub cover: usize,
    /// Position just past the cover's trailer: where the cover ends.
    pub trailer_end: usize,
    /// Index into the archive table of the archive found after the trailer.
    pub archive: usize,
    /// Position where that archive's header starts.
    pub archive_start: usize,
}

/// Why a file that starts like a cover image cannot be split.
#[derive(Clone, Copy, Debug, PartialEq, Eq, Structural)]
pub enum StegoError {
    /// The cover's trailer does not occur in the scanned bytes.
    MissingTrailer,
    /// No archive header occurs after the cover's trailer.
    MissingArchive,
}

/// What a scan of `buf` finds: no cover (`Ok(None)`), a cover followed by an
/// archive, or one of the two failures.
pub open spec fn scan_spec(buf: Seq<u8>) -> Result<Option<CoverScan>, StegoError> {
    match cover_of(buf) {
        None => Ok(None),
        Some(c) => match first_occurrence(buf, cover_trailer(c), 0) {
            None => Err(StegoError::MissingTrailer),
            Some(t) => {
                let end = t + cover_trailer(c).len();
                match archive_from(buf.subrange(end, buf.len() as int), 0) {
                    None => Err(StegoError::MissingArchive),
                    Some((a, at)) => Ok(
                        Some(
                            CoverScan {
                                cover: c as usize,
                                trailer_end: end as usize,
                                archive: a as usize,
                                archive_start: (end + at) as usize,
                            },
                        ),
                    ),
                }
            },
        },
    }
}

/// With no occurrence of `pat` in `buf` from `from` up to `p`, and one at
/// `p`, the first occurrence from `from` on is `p`.
pub proof fn lemma_first_occurrence_is(buf: Seq<u8>, pat: Seq<u8>, from: int, p: int)
    requires
        0 <= from <= p,
        occurs_at(buf, pat, p),
        forall|j: int| from <= j < p ==> !occurs_at(buf, pat, j),
    ensures
        first_occurrence(buf, pat, from) == Some(p),
    decreases p - from,
{
    if from < p {
        lemma_first_occurrence_is(buf, pat, from + 1, p);
    }
}

/// A PNG image followed at once by a zip archive: for a buffer made of the
/// PNG header, filler, the PNG trailer, the zip header and any further
/// bytes, where the trailer does not occur before its own place, the scan
/// reports the position just past the trailer as the cover's end, and the
/// zip archive starting there.
pub proof fn lemma_png_then_zip(filler: Seq<u8>, rest: Seq<u8>)
    requires
        forall|j: int|
            0 <= j < 4 + filler.len() ==> !occurs_at(
                cover_header(1) + filler + cover_trailer(1) + archive_header(0) + rest,
                cover_trailer(1),
                j,
            ),
    ensures
        ({
            let buf = cover_header(1) + filler + cover_trailer(1) + archive_header(0) + rest;
            let end = 8 + filler.len();
            buf.len() <= usize::MAX ==> scan_spec(buf) == Ok::<Option<CoverScan>, StegoError>(
                Some(
                    CoverScan {
                        cover: 1,
                        trailer_end: end as usize,
                        archive: 0,
                        archive_start: end as usize,
                    },
                ),
            )
        }),
{
    let buf = cover_header(1) + filler + cover_trailer(1) + archive_header(0) + rest;
    let t: int = 4 + filler.len() as int;
    let end: int = t + 4;
    assert(buf.subrange(0, 4) =~= cover_header(1));
    assert(buf[0] == 0x89u8);
    assert(!occurs_at(buf, cover_header(0), 0)) by {
        if occurs_at(buf, cover_header(0), 0) {
            assert(buf.subrange(0, 3)[0] == cover_header(0)[0]);
        }
    }
    assert(occurs_at(buf, cover_header(1), 0));
    assert(cover_from(buf, 1) == Some(1int));
    assert(cover_of(buf) == Some(1int));
    assert(buf.subrange(t, t + 4) =~= cover_trailer(1));
    lemma_first_occurrence_is(buf, cover_trailer(1), 0, t);
    let tail = buf.subrange(end, buf.len() as int);
    assert(tail.subrange(0, 4) =~= archive_header(0));
    lemma_first_occurrence_is(tail, archive_header(0), 0, 0);
    assert(archive_from(tail, 0) == Some((0int, 0int)));
}

/// Header bytes of cover format `i`.
pub fn cover_header_bytes(i: usize) -> (r: Vec<u8>)
    requires
        i < COVER_COUNT,
    ensures
        r@ == cover_header(i as int),
{
    let r = if i == 0 {
        vec![0xFFu8, 0xD8, 0xFF]
    } else if i == 1 {
        vec![0x89u8, 0x50, 0x4E, 0x47]
    } else if i == 2 {
        vec![0x47u8, 0x49, 0x46, 0x38, 0x39, 0x61]
    } else {
        vec![0x47u8, 0x49, 0x46, 0x38, 0x37, 0x61]
    };
    assert(r@ =~= cover_header(i as int));
    r
}

/// Trailer bytes of cover format `i`.
pub fn cover_trailer_bytes(i: usize) -> (r: Vec<u8>)
    requires
        i < COVER_COUNT,
    ensures
        r@ == cover_trailer(i as int),
{
    let r = if i == 0 {
        vec![0xFFu8, 0xD9]
    } else if i == 1 {
        vec![0xAEu8, 0x42, 0x60, 0x82]
    } else {
        vec![0x00u8, 0x3B]
    };
    assert(r@ =~= cover_trailer(i as int));
    r
}

/// Header bytes of archive format `i`.
pub fn archive_header_bytes(i: usize) -> (r: Vec<u8>)
    requires
        i < ARCHIVE_COUNT,
    ensures
        r@ == archive_header(i as int),
{
    let r = if i == 0 {
        vec![0x50u8, 0x4B, 0x03, 0x04]
    } else if i == 1 {
        vec![0x52u8, 0x61, 0x72, 0x21, 0x1A, 0x07, 0x01, 0x00]
    } else if i == 2 {
        vec![0x52u8, 0x61, 0x72, 0x21, 0x1A, 0x07, 0x00]
    } else if i == 3 {
        vec![0x37u8, 0x7A, 0xBC, 0xAF, 0x27, 0x1C]
    } else if i == 4 {
        vec![0x75u8, 0x73, 0x74, 0x61, 0x72]
    } else if i == 5 {
        vec![0xFDu8, 0x37, 0x7A, 0x58, 0x5A, 0x00]
    } else if i == 6 {
        vec![0x1Fu8, 0x8B, 0x08, 0x00]
    } else if i == 7 {
        vec![0x1Fu8, 0x8B]
    } else if i == 8 {
        vec![0x42u8, 0x5A, 0x68, 0x39, 0x17]
    } else if i == 9 {
        vec![0x42u8, 0x5A, 0x68]
    } else if i == 10 {
        vec![0x42u8, 0x5A]
    } else {
        vec![0x1Fu8, 0x9D]
    };
    assert(r@ =~= archive_header(i as int));
    r
}

/// Whether `pat` stands in `buf` at position `at`.
pub fn occurs_at_exec(buf: &Vec<u8>, pat: &Vec<u8>, at: usize) -> (r: bool)
    ensures
        r == occurs_at(buf@, pat@, at as int),
{
    if at > buf.len() || pat.len() > buf.len() - at {
        return false;
    }
    let mut k: usize = 0;
    while k < pat.len()
        invariant
            k <= pat.len(),
            at + pat.len() <= buf.len(),
            forall|j: int| 0 <= j < k ==> buf@[at + j] == pat@[j],
        decreases pat.len() - k,
    {
        if buf[at + k] != pat[k] {
            assert(buf@.subrange(at as int, at + pat.len())[k as int] != pat@[k as int]);
            return false;
        }
        k = k + 1;
    }
    assert(buf@.subrange(at as int, at + pat.len()) =~= pat@);
    true
}

/// The first position at or after `from` where `pat` stands in `buf`.
pub fn find_pattern(buf: &Vec<u8>, pat: &Vec<u8>, from: usize) -> (r: Option<usize>)
    ensures
        r == (match first_occurrence(buf@, pat@, from as int) {
            Some(p) => Some(p as usize),
            None => None::<usize>,
        }),
        match first_occurrence(buf@, pat@, from as int) {
            Some(p) => from <= p && occurs_at(buf@, pat@, p),
            None => true,
        },
{
    proof {
        lemma_first_occurrence_found(buf@, pat@, from as int);
    }
    let mut i = from;
    while i <= buf.len() && pat.len() <= buf.len() - i
        invariant
            from <= i,
            first_occurrence(buf@, pat@, from as int) == first_occurrence(buf@, pat@, i as int),
        decreases buf.len() + 1 - i,
    {
        if occurs_at_exec(buf, pat, i) {
            return Some(i);
        }
        if i == buf.len() {
            assert(first_occurrence(buf@, pat@, i + 1) == None::<int>);
            return None;
        }
        i = i + 1;
    }
    None
}

/// Position `j` onwards in the tail of `buf` from `e` is position `e + j` in `buf`.
proof fn lemma_first_occurrence_tail(buf: Seq<u8>, pat: Seq<u8>, e: int, j: int)
    requires
        0 <= e <= buf.len(),
        0 <= j,
    ensures
        first_occurrence(buf.subrange(e, buf.len() as int), pat, j) == (match first_occurrence(
            buf,
            pat,
            e + j,
        ) {
            Some(p) => Some(p - e),
            None => None::<int>,
        }),
    decreases buf.len() + 1 - (e + j),
{
    let tail = buf.subrange(e, buf.len() as int);
    if j + pat.len() <= tail.len() {
        assert(tail.subrange(j, j + pat.len()) =~= buf.subrange(e + j, e + j + pat.len()));
        if !occurs_at(tail, pat, j) {
            lemma_first_occurrence_tail(buf, pat, e, j + 1);
        }
    }
}

/// The first cover format whose header starts `buf`.
pub fn match_cover(buf: &Vec<u8>) -> (r: Option<usize>)
    ensures
        r == (match cover_of(buf@) {
            Some(c) => Some(c as usize),
            None => None::<usize>,
        }),
        match r {
            Some(c) => c < COVER_COUNT,
            None => true,
        },
        match cover_of(buf@) {
            Some(c) => 0 <= c < COVER_COUNT,
            None => true,
        },
{
    proof {
        lemma_cover_from_range(buf@, 0);
    }
    let mut i: usize = 0;
    while i < COVER_COUNT
        invariant
            i <= COVER_COUNT,
            cover_of(buf@) == cover_from(buf@, i as int),
        decreases COVER_COUNT - i,
    {
        let header = cover_header_bytes(i);
        if occurs_at_exec(buf, &header, 0) {
            return Some(i);
        }
        i = i + 1;
    }
    None
}

/// The first archive format whose header occurs in `buf` from `from` on, with
/// the position of that occurrence within `buf`.
pub fn match_archive(buf: &Vec<u8>, from: usize) -> (r: Option<(usize, usize)>)
    requires
        from <= buf.len(),
    ensures
        r == (match archive_from(buf@.subrange(from as int, buf@.len() as int), 0) {
            Some((a, at)) => Some((a as usize, (from + at) as usize)),
            None => None::<(usize, usize)>,
        }),
{
    let ghost tail = buf@.subrange(from as int, buf@.len() as int);
    let mut i: usize = 0;
    while i < ARCHIVE_COUNT
        invariant
            i <= ARCHIVE_COUNT,
            from <= buf.len(),
            tail == buf@.subrange(from as int, buf@.len() as int),
            archive_from(tail, 0) == archive_from(tail, i as int),
        decreases ARCHIVE_COUNT - i,
    {
        let header = archive_header_bytes(i);
        proof {
            lemma_first_occurrence_tail(buf@, header@, from as int, 0);
        }
        match find_pattern(buf, &header, from) {
            Some(p) => {
                return Some((i, p));
            },
            None => {},
        }
        i = i + 1;
    }
    None
}

/// Looks for an archive hidden behind a cover image at the start of `buf`.
///
/// `Ok(None)` when `buf` starts with no known cover header; otherwise the
/// cover's trailer and the first archive header after it, or the failure.
pub fn scan_cover(buf: &Vec<u8>) -> (r: Result<Option<CoverScan>, StegoError>)
    ensures
        r == scan_spec(buf@),
{
    let cover = match match_cover(buf) {
        None => return Ok(None),
        Some(c) => c,
    };
    let trailer = cover_trailer_bytes(cover);
    let n = buf.len();
    let found = find_pattern(buf, &trailer, 0);
    let t = match found {
        None => return Err(StegoError::MissingTrailer),
        Some(t) => t,
    };
    proof {
        lemma_first_occurrence_found(buf@, trailer@, 0);
        let p = first_occurrence(buf@, trailer@, 0).unwrap();
        assert(occurs_at(buf@, trailer@, p));
        assert(p + trailer@.len() <= buf@.len());
        assert(p <= n);
        assert(t as int == p);
    }
    let end = t + trailer.len();
    match match_archive(buf, end) {
        None => Err(StegoError::MissingArchive),
        Some((a, start)) => Ok(Some(CoverScan { cover, trailer_end: end, archive: a, archive_start: start })),
    }
}

} // verus!
